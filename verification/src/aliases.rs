//! The alias-file text format and the alias operations.
//!
//! An alias file holds lines of the shape `alias name='command'`.  The
//! parsing and rendering of that text are pure functions here; reading and
//! writing the file itself is the caller's business.

use vstd::prelude::*;
use vstd::string::*;
use crate::store::{removed, Database, DeletedCommands};
use crate::text::{
    chars_of, chars_start_with, has_prefix, is_space, is_space_exec, string_from_chars,
};

verus! {

/// The characters before the first whitespace run ends: leading whitespace
/// dropped.
pub open spec fn trim_start(s: Seq<char>) -> Seq<char>
    decreases s.len(),
{
    if s.len() == 0 {
        s
    } else if is_space(s[0]) {
        trim_start(s.drop_first())
    } else {
        s
    }
}

/// Trailing whitespace dropped.
pub open spec fn trim_end(s: Seq<char>) -> Seq<char>
    decreases s.len(),
{
    if s.len() == 0 {
        s
    } else if is_space(s.last()) {
        trim_end(s.drop_last())
    } else {
        s
    }
}

/// Whitespace dropped from both ends.
pub open spec fn trimmed(s: Seq<char>) -> Seq<char> {
    trim_end(trim_start(s))
}

proof fn lemma_trim_start_at(s: Seq<char>, a: int)
    requires
        0 <= a <= s.len(),
        forall|j: int| 0 <= j < a ==> is_space(s[j]),
        a < s.len() ==> !is_space(s[a]),
    ensures
        trim_start(s) =~= s.skip(a),
    decreases s.len(),
{
    if s.len() == 0 {
    } else if is_space(s[0]) {
        assert(a >= 1);
        assert(forall|j: int| 0 <= j < a - 1 ==> s.drop_first()[j] == s[j + 1]);
        lemma_trim_start_at(s.drop_first(), a - 1);
        assert(s.drop_first().skip(a - 1) =~= s.skip(a));
    } else {
        assert(a == 0);
        assert(s.skip(0) =~= s);
    }
}

proof fn lemma_trim_end_at(t: Seq<char>, k: int)
    requires
        0 <= k <= t.len(),
        forall|j: int| k <= j < t.len() ==> is_space(t[j]),
        k > 0 ==> !is_space(t[k - 1]),
    ensures
        trim_end(t) =~= t.take(k),
    decreases t.len(),
{
    if t.len() == 0 {
    } else if is_space(t.last()) {
        assert(k < t.len());
        assert(forall|j: int| k <= j < t.drop_last().len() ==> t.drop_last()[j] == t[j]);
        lemma_trim_end_at(t.drop_last(), k);
        assert(t.drop_last().take(k) =~= t.take(k));
    } else {
        assert(k == t.len());
        assert(t.take(k) =~= t);
    }
}

/// Runtime counterpart of `trimmed`.
pub fn trim_chars(s: &Vec<char>) -> (r: Vec<char>)
    ensures
        r@ == trimmed(s@),
{
    let mut a: usize = 0;
    while a < s.len() && is_space_exec(s[a])
        invariant
            a <= s@.len(),
            forall|j: int| 0 <= j < a ==> is_space(s@[j]),
        decreases s@.len() - a,
    {
        a = a + 1;
    }
    proof {
        lemma_trim_start_at(s@, a as int);
    }
    let mut b: usize = s.len();
    while b > a && is_space_exec(s[b - 1])
        invariant
            a <= b <= s@.len(),
            forall|j: int| b <= j < s@.len() ==> is_space(s@[j]),
        decreases b,
    {
        b = b - 1;
    }
    proof {
        assert(forall|j: int|
            b - a <= j < s@.skip(a as int).len() ==> is_space(s@.skip(a as int)[j]));
        lemma_trim_end_at(s@.skip(a as int), b - a);
    }
    let mut r: Vec<char> = Vec::new();
    let mut i: usize = a;
    proof {
        assert(r@ =~= s@.subrange(a as int, a as int));
    }
    while i < b
        invariant
            a <= i <= b <= s@.len(),
            r@ == s@.subrange(a as int, i as int),
        decreases b - i,
    {
        r.push(s[i]);
        proof {
            assert(r@ =~= s@.subrange(a as int, i + 1));
        }
        i = i + 1;
    }
    proof {
        assert(s@.skip(a as int).take(b - a) =~= s@.subrange(a as int, b as int));
    }
    r
}

/// The lines of a text, split on newline characters; `cur` is the line
/// being read.
pub open spec fn lines_acc(s: Seq<char>, cur: Seq<char>) -> Seq<Seq<char>>
    decreases s.len(),
{
    if s.len() == 0 {
        seq![cur]
    } else if s[0] == '\n' {
        seq![cur] + lines_acc(s.drop_first(), Seq::empty())
    } else {
        lines_acc(s.drop_first(), cur.push(s[0]))
    }
}

/// The lines of a text.
pub open spec fn split_lines(s: Seq<char>) -> Seq<Seq<char>> {
    lines_acc(s, Seq::empty())
}

/// Runtime counterpart of `split_lines`.
pub fn split_lines_exec(v: &Vec<char>) -> (ls: Vec<Vec<char>>)
    ensures
        ls.deep_view() == split_lines(v@),
{
    let mut out: Vec<Vec<char>> = Vec::new();
    let mut cur: Vec<char> = Vec::new();
    let mut i: usize = 0;
    proof {
        assert(v@.skip(0) =~= v@);
    }
    while i < v.len()
        invariant
            i <= v@.len(),
            split_lines(v@) == out.deep_view() + lines_acc(v@.skip(i as int), cur@),
        decreases v@.len() - i,
    {
        let ghost rest = v@.skip(i as int);
        proof {
            assert(rest[0] == v@[i as int]);
            assert(rest.drop_first() =~= v@.skip(i + 1));
        }
        let c = v[i];
        if c == '\n' {
            let ghost oldout = out.deep_view();
            let ghost line = cur@;
            out.push(cur);
            cur = Vec::new();
            proof {
                assert(out.deep_view() =~~= oldout + seq![line]);
                assert(out.deep_view() + lines_acc(v@.skip(i + 1), cur@) =~~= split_lines(v@));
            }
        } else {
            cur.push(c);
        }
        i = i + 1;
    }
    proof {
        assert(v@.skip(v@.len() as int) =~= Seq::<char>::empty());
    }
    let ghost oldout = out.deep_view();
    let ghost line = cur@;
    out.push(cur);
    proof {
        assert(out.deep_view() =~~= oldout + seq![line]);
        assert(out.deep_view() =~~= split_lines(v@));
    }
    out
}

/// The index of the first `=`, or the length when none occurs.
pub open spec fn first_eq_at(s: Seq<char>) -> int
    decreases s.len(),
{
    if s.len() == 0 {
        0
    } else if s[0] == '=' {
        0
    } else {
        1 + first_eq_at(s.drop_first())
    }
}

proof fn lemma_first_eq_at(s: Seq<char>, k: int)
    requires
        0 <= k <= s.len(),
        forall|j: int| 0 <= j < k ==> s[j] != '=',
        k < s.len() ==> s[k] == '=',
    ensures
        first_eq_at(s) == k,
    decreases s.len(),
{
    if s.len() == 0 {
    } else if s[0] == '=' {
        assert(k == 0);
    } else {
        assert(k >= 1);
        assert(forall|j: int| 0 <= j < k - 1 ==> s.drop_first()[j] == s[j + 1]);
        lemma_first_eq_at(s.drop_first(), k - 1);
    }
}

/// A quoted command with its matching outer quotes dropped.
pub open spec fn unquoted(c: Seq<char>) -> Seq<char> {
    if c.len() >= 2 && ((c[0] == '\'' && c.last() == '\'') || (c[0] == '"' && c.last() == '"')) {
        c.subrange(1, c.len() - 1)
    } else {
        c
    }
}

/// What one line of an alias file defines, if anything: the line must read
/// `alias name=command` after trimming, the command's matching outer quotes
/// dropped.
pub open spec fn parse_alias_line(line: Seq<char>) -> Option<(Seq<char>, Seq<char>)> {
    let l = trimmed(line);
    if has_prefix(l, "alias "@) {
        let content = trimmed(l.skip("alias "@.len() as int));
        let k = first_eq_at(content);
        if k < content.len() {
            let alias = trimmed(content.take(k));
            let cmd = unquoted(trimmed(content.skip(k + 1)));
            Some((alias, cmd))
        } else {
            None
        }
    } else {
        None
    }
}

/// The pair a parse yields, as a list.
pub open spec fn opt_pair(o: Option<(Seq<char>, Seq<char>)>) -> Seq<(Seq<char>, Seq<char>)> {
    match o {
        Some(p) => seq![p],
        None => Seq::empty(),
    }
}

/// The alias pairs a list of lines defines, in order.
pub open spec fn parse_lines(ls: Seq<Seq<char>>) -> Seq<(Seq<char>, Seq<char>)>
    decreases ls.len(),
{
    if ls.len() == 0 {
        Seq::empty()
    } else {
        opt_pair(parse_alias_line(ls[0])) + parse_lines(ls.drop_first())
    }
}

proof fn lemma_parse_lines_push(ls: Seq<Seq<char>>, l: Seq<char>)
    ensures
        parse_lines(ls.push(l)) =~~= parse_lines(ls) + opt_pair(parse_alias_line(l)),
    decreases ls.len(),
{
    if ls.len() == 0 {
        assert(ls.push(l).drop_first() =~~= ls);
    } else {
        assert(ls.push(l).drop_first() =~~= ls.drop_first().push(l));
        lemma_parse_lines_push(ls.drop_first(), l);
    }
}

/// The alias pairs an alias file's text defines.
pub open spec fn aliases_of_text(s: Seq<char>) -> Seq<(Seq<char>, Seq<char>)> {
    parse_lines(split_lines(s))
}

fn parse_alias_line_exec(line: &Vec<char>) -> (r: Option<(String, String)>)
    ensures
        match r {
            Some(p) => parse_alias_line(line@) == Some((p.0@, p.1@)),
            None => parse_alias_line(line@) is None,
        },
{
    let l = trim_chars(line);
    let pat = chars_of("alias ");
    if !chars_start_with(&l, &pat) {
        return None;
    }
    let rest = crate::heuristics::skip_chars(&l, pat.len());
    let content = trim_chars(&rest);
    let mut k: usize = 0;
    while k < content.len() && content[k] != '='
        invariant
            k <= content@.len(),
            forall|j: int| 0 <= j < k ==> content@[j] != '=',
        decreases content@.len() - k,
    {
        k = k + 1;
    }
    proof {
        lemma_first_eq_at(content@, k as int);
    }
    if k >= content.len() {
        return None;
    }
    let alias_part = crate::mangle::take_chars(&content, k);
    let alias = trim_chars(&alias_part);
    let cmd_part = crate::heuristics::skip_chars(&content, k + 1);
    let raw = trim_chars(&cmd_part);
    let cmd: Vec<char> = if raw.len() >= 2 && ((raw[0] == '\'' && raw[raw.len() - 1] == '\'') || (
    raw[0] == '"' && raw[raw.len() - 1] == '"')) {
        let inner = crate::heuristics::skip_chars(&raw, 1);
        let trimmed_inner = crate::mangle::take_chars(&inner, inner.len() - 1);
        proof {
            assert(trimmed_inner@ =~= raw@.subrange(1, raw@.len() - 1));
        }
        trimmed_inner
    } else {
        raw
    };
    Some((string_from_chars(&alias), string_from_chars(&cmd)))
}

/// Reads the alias pairs out of an alias file's text.
pub fn parse_aliases(content: &str) -> (r: Vec<(String, String)>)
    ensures
        r.deep_view() == aliases_of_text(content@),
{
    let cs = chars_of(content);
    let ls = split_lines_exec(&cs);
    let mut r: Vec<(String, String)> = Vec::new();
    let mut i: usize = 0;
    proof {
        assert(ls.deep_view().take(0) =~~= Seq::<Seq<char>>::empty());
        assert(r.deep_view() =~~= parse_lines(ls.deep_view().take(0)));
    }
    while i < ls.len()
        invariant
            i <= ls@.len(),
            ls.deep_view().len() == ls@.len(),
            ls.deep_view() == split_lines(content@),
            r.deep_view() == parse_lines(ls.deep_view().take(i as int)),
        decreases ls@.len() - i,
    {
        proof {
            assert(ls.deep_view()[i as int] == ls@[i as int]@);
            assert(ls.deep_view().take(i + 1) =~~= ls.deep_view().take(i as int).push(
                ls.deep_view()[i as int],
            ));
            lemma_parse_lines_push(ls.deep_view().take(i as int), ls.deep_view()[i as int]);
        }
        let ghost before = r.deep_view();
        match parse_alias_line_exec(&ls[i]) {
            Some(p) => {
                let ghost pv = (p.0@, p.1@);
                r.push(p);
                proof {
                    assert(r.deep_view() =~~= before.push(pv));
                    assert(r.deep_view() =~~= parse_lines(ls.deep_view().take(i + 1)));
                }
            },
            None => {
                proof {
                    assert(r.deep_view() =~~= parse_lines(ls.deep_view().take(i + 1)));
                }
            },
        }
        i = i + 1;
    }
    proof {
        assert(ls.deep_view().take(ls@.len() as int) =~~= ls.deep_view());
    }
    r
}

/// The text one alias pair renders to.
pub open spec fn render_line(a: Seq<char>, c: Seq<char>) -> Seq<char> {
    "alias "@ + a + "='"@ + c + "'\n"@
}

/// The text a whole alias list renders to.
pub open spec fn rendered_aliases(ps: Seq<(Seq<char>, Seq<char>)>) -> Seq<char>
    decreases ps.len(),
{
    if ps.len() == 0 {
        Seq::empty()
    } else {
        render_line(ps[0].0, ps[0].1) + rendered_aliases(ps.drop_first())
    }
}

proof fn lemma_rendered_push(ps: Seq<(Seq<char>, Seq<char>)>, p: (Seq<char>, Seq<char>))
    ensures
        rendered_aliases(ps.push(p)) =~= rendered_aliases(ps) + render_line(p.0, p.1),
    decreases ps.len(),
{
    if ps.len() == 0 {
        assert(ps.push(p).drop_first() =~~= ps);
    } else {
        assert(ps.push(p).drop_first() =~~= ps.drop_first().push(p));
        lemma_rendered_push(ps.drop_first(), p);
    }
}

/// Writes the alias list back out as alias-file text, one
/// `alias name='command'` line per pair.
pub fn render_aliases(aliases: &Vec<(String, String)>) -> (r: String)
    ensures
        r@ == rendered_aliases(aliases.deep_view()),
{
    let mut out: Vec<char> = Vec::new();
    let mut i: usize = 0;
    proof {
        assert(aliases.deep_view().take(0) =~~= Seq::<(Seq<char>, Seq<char>)>::empty());
        assert(out@ =~= rendered_aliases(aliases.deep_view().take(0)));
    }
    while i < aliases.len()
        invariant
            i <= aliases@.len(),
            aliases.deep_view().len() == aliases@.len(),
            out@ == rendered_aliases(aliases.deep_view().take(i as int)),
        decreases aliases@.len() - i,
    {
        proof {
            assert(aliases.deep_view()[i as int] == (aliases@[i as int].0@, aliases@[
            i as int].1@));
            assert(aliases.deep_view().take(i + 1) =~~= aliases.deep_view().take(i as int).push(
                aliases.deep_view()[i as int],
            ));
            lemma_rendered_push(aliases.deep_view().take(i as int), aliases.deep_view()[i as int]);
        }
        let head = chars_of("alias ");
        crate::mangle::extend_chars(&mut out, &head);
        let ac = chars_of(aliases[i].0.as_str());
        crate::mangle::extend_chars(&mut out, &ac);
        let mid = chars_of("='");
        crate::mangle::extend_chars(&mut out, &mid);
        let cc = chars_of(aliases[i].1.as_str());
        crate::mangle::extend_chars(&mut out, &cc);
        let tail = chars_of("'\n");
        crate::mangle::extend_chars(&mut out, &tail);
        proof {
            assert(out@ =~= rendered_aliases(aliases.deep_view().take(i + 1)));
        }
        i = i + 1;
    }
    proof {
        assert(aliases.deep_view().take(aliases@.len() as int) =~~= aliases.deep_view());
    }
    string_from_chars(&out)
}

/// Whether some pair of the list defines the alias `a`.
pub open spec fn list_has_alias(ps: Seq<(Seq<char>, Seq<char>)>, a: Seq<char>) -> bool {
    exists|i: int| 0 <= i < ps.len() && ps[i].0 == a
}

fn find_alias(aliases: &Vec<(String, String)>, alias: &str) -> (r: Option<usize>)
    ensures
        match r {
            Some(i) => i < aliases.deep_view().len() && aliases.deep_view()[i as int].0 == alias@
                && forall|j: int| 0 <= j < i ==> aliases.deep_view()[j].0 != alias@,
            None => !list_has_alias(aliases.deep_view(), alias@),
        },
{
    let ac = chars_of(alias);
    let mut i: usize = 0;
    while i < aliases.len()
        invariant
            i <= aliases@.len(),
            aliases.deep_view().len() == aliases@.len(),
            ac@ == alias@,
            forall|j: int| 0 <= j < i ==> aliases.deep_view()[j].0 != alias@,
        decreases aliases@.len() - i,
    {
        let pc = chars_of(aliases[i].0.as_str());
        if crate::text::chars_eq(&pc, &ac) {
            proof {
                assert(aliases.deep_view()[i as int].0 == alias@);
            }
            return Some(i);
        }
        i = i + 1;
    }
    proof {
        if list_has_alias(aliases.deep_view(), alias@) {
            let j = choose|j: int|
                0 <= j < aliases.deep_view().len() && aliases.deep_view()[j].0 == alias@;
        }
    }
    None
}

/// Adds the pair to the list unless the alias is already defined.
pub fn add_alias_pair(aliases: &mut Vec<(String, String)>, alias: &str, command: &str)
    ensures
        list_has_alias(old(aliases).deep_view(), alias@) ==> final(aliases).deep_view() == old(
            aliases,
        ).deep_view(),
        !list_has_alias(old(aliases).deep_view(), alias@) ==> final(aliases).deep_view() == old(
            aliases,
        ).deep_view().push((alias@, command@)),
{
    match find_alias(aliases, alias) {
        Some(_) => {
        },
        None => {
            let ghost d = aliases.deep_view();
            aliases.push((String::from_str(alias), String::from_str(command)));
            proof {
                assert(aliases.deep_view() =~~= d.push((alias@, command@)));
            }
        },
    }
}

/// Removes the first pair defining the alias, if one exists.
pub fn remove_alias_pair(aliases: &mut Vec<(String, String)>, alias: &str)
    ensures
        !list_has_alias(old(aliases).deep_view(), alias@) ==> final(aliases).deep_view() == old(
            aliases,
        ).deep_view(),
        list_has_alias(old(aliases).deep_view(), alias@) ==> exists|i: int|
            0 <= i < old(aliases).deep_view().len() && old(aliases).deep_view()[i].0 == alias@ && (
            forall|j: int| 0 <= j < i ==> old(aliases).deep_view()[j].0 != alias@)
                && final(aliases).deep_view() == old(aliases).deep_view().remove(i),
{
    match find_alias(aliases, alias) {
        Some(i) => {
            let ghost d = aliases.deep_view();
            let ghost idx = i as int;
            aliases.remove(i);
            proof {
                old(aliases)@.remove_ensures(idx);
                assert(aliases.deep_view() =~~= d.remove(idx));
            }
        },
        None => {
        },
    }
}

/// Defines a new alias: the aliased command leaves the store and is
/// tombstoned, and the pair joins the alias list unless the name is taken.
pub fn add_alias(
    db: &mut Database,
    deleted_commands: &mut DeletedCommands,
    aliases: &mut Vec<(String, String)>,
    alias: &str,
    command: &str,
)
    requires
        old(db).wf(),
        old(deleted_commands).wf(),
    ensures
        final(db).wf(),
        final(deleted_commands).wf(),
        removed(
            *old(db),
            *old(deleted_commands),
            *final(db),
            *final(deleted_commands),
            command@,
        ),
        list_has_alias(old(aliases).deep_view(), alias@) ==> final(aliases).deep_view() == old(
            aliases,
        ).deep_view(),
        !list_has_alias(old(aliases).deep_view(), alias@) ==> final(aliases).deep_view() == old(
            aliases,
        ).deep_view().push((alias@, command@)),
{
    let command_string = String::from_str(command);
    db.remove_command(&command_string, deleted_commands);
    add_alias_pair(aliases, alias, command);
}

/// What undoing an alias does: nothing when the alias is not defined, else
/// the first defining pair leaves the list and its command's tombstone is
/// lifted.
pub open spec fn alias_removed(
    pre_dc: DeletedCommands,
    post_dc: DeletedCommands,
    pre_list: Seq<(Seq<char>, Seq<char>)>,
    post_list: Seq<(Seq<char>, Seq<char>)>,
    a: Seq<char>,
) -> bool {
    if !list_has_alias(pre_list, a) {
        post_list == pre_list && post_dc.texts() == pre_dc.texts()
    } else {
        exists|i: int|
            #![auto]
            0 <= i < pre_list.len() && pre_list[i].0 == a && (forall|j: int|
                0 <= j < i ==> pre_list[j].0 != a) && post_list == pre_list.remove(i)
                && post_dc.texts() == pre_dc.texts().remove(pre_list[i].1)
    }
}

/// Undoes an alias: the aliased command becomes trackable again (its
/// tombstone leaves), and the first pair defining the alias leaves the
/// list.
pub fn remove_alias(
    deleted_commands: &mut DeletedCommands,
    aliases: &mut Vec<(String, String)>,
    alias: &str,
)
    requires
        old(deleted_commands).wf(),
    ensures
        final(deleted_commands).wf(),
        alias_removed(
            *old(deleted_commands),
            *final(deleted_commands),
            old(aliases).deep_view(),
            final(aliases).deep_view(),
            alias@,
        ),
{
    match find_alias(aliases, alias) {
        Some(i) => {
            let command = aliases[i].1.clone();
            deleted_commands.remove(&command);
            let ghost d = aliases.deep_view();
            let ghost idx = i as int;
            aliases.remove(i);
            proof {
                old(aliases)@.remove_ensures(idx);
                assert(aliases.deep_view() =~~= d.remove(idx));
            }
        },
        None => {
            proof {
                assert((*deleted_commands).texts() =~= old(deleted_commands).texts());
            }
        },
    }
}

/// Drops a tracked command by its text: it leaves the store and is
/// tombstoned, so the suggestion list stops proposing it.
pub fn delete_suggestion(
    alias: &str,
    db: &mut Database,
    deleted_commands: &mut DeletedCommands,
)
    requires
        old(db).wf(),
        old(deleted_commands).wf(),
    ensures
        final(db).wf(),
        final(deleted_commands).wf(),
        removed(*old(db), *old(deleted_commands), *final(db), *final(deleted_commands), alias@),
{
    let text = String::from_str(alias);
    db.remove_command(&text, deleted_commands);
}

} // verus!
