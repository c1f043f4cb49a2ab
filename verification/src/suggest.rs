//! The suggestion engine: proposes short alias names for a command string.
//!
//! A pipeline of independent heuristic generators produces candidates; the
//! engine then drops candidates that collide with existing aliases or
//! system commands, deduplicates by alias text keeping the first occurrence,
//! and ranks what is left by a fixed category weight plus a bonus for
//! shorter names.

use vstd::prelude::*;
use vstd::string::*;
use crate::text::{
    chars_eq, chars_of, chars_start_with, has_prefix, has_suffix, string_from_chars,
};

verus! {

/// A proposed alias: the short name, the command it would stand for, and a
/// human-readable reason naming the heuristic that produced it.
pub struct AliasSuggestion {
    pub alias: String,
    pub command: String,
    pub reason: String,
}

/// The mathematical value of a suggestion.
pub struct SuggView {
    pub alias: Seq<char>,
    pub command: Seq<char>,
    pub reason: Seq<char>,
}

impl View for AliasSuggestion {
    type V = SuggView;

    open spec fn view(&self) -> SuggView {
        SuggView { alias: self.alias@, command: self.command@, reason: self.reason@ }
    }
}

impl DeepView for AliasSuggestion {
    type V = SuggView;

    open spec fn deep_view(&self) -> SuggView {
        self.view()
    }
}

impl Clone for AliasSuggestion {
    /// Field-for-field copy.
    fn clone(&self) -> (r: Self)
        ensures
            r@ == self@,
    {
        AliasSuggestion {
            alias: self.alias.clone(),
            command: self.command.clone(),
            reason: self.reason.clone(),
        }
    }
}

/// Builds a suggestion from character vectors and a fixed reason.
fn sugg(alias: Vec<char>, command: &Vec<char>, reason: &str) -> (s: AliasSuggestion)
    ensures
        s@ == (SuggView { alias: alias@, command: command@, reason: reason@ }),
{
    AliasSuggestion {
        alias: string_from_chars(&alias),
        command: string_from_chars(command),
        reason: String::from_str(reason),
    }
}

/// Builds a suggestion whose command and reason are themselves assembled.
fn sugg_built(alias: Vec<char>, command: &Vec<char>, reason: Vec<char>) -> (s: AliasSuggestion)
    ensures
        s@ == (SuggView { alias: alias@, command: command@, reason: reason@ }),
{
    AliasSuggestion {
        alias: string_from_chars(&alias),
        command: string_from_chars(command),
        reason: string_from_chars(&reason),
    }
}

/// The reasons the tool-specific semantic tables produce.
pub open spec fn is_semantic_reason(r: Seq<char>) -> bool {
    ||| r == "Git status"@
    ||| r == "Git add all"@
    ||| r == "Git add"@
    ||| r == "Git commit with message"@
    ||| r == "Git commit"@
    ||| r == "Git checkout new branch"@
    ||| r == "Git checkout"@
    ||| r == "Git push"@
    ||| r == "Git pull"@
    ||| r == "Git log"@
    ||| r == "Git branch"@
    ||| r == "Docker ps"@
    ||| r == "Docker run"@
    ||| r == "Docker build"@
    ||| r == "Docker exec"@
    ||| r == "Docker rm"@
    ||| r == "Docker rmi"@
    ||| r == "NPM install"@
    ||| r == "NPM run"@
    ||| r == "NPM start"@
    ||| r == "NPM test"@
    ||| r == "NPM publish"@
    ||| has_prefix(r, "SSH to "@)
}

/// The reasons the single-word tricks produce.
pub open spec fn is_single_word_reason(r: Seq<char>) -> bool {
    ||| r == "3-letter abbreviation"@
    ||| r == "2-letter abbreviation"@
    ||| r == "First-last character"@
    ||| r == "LazyGit abbreviation"@
    ||| r == "Docker abbreviation"@
    ||| r == "Node abbreviation"@
    ||| r == "Executable abbreviation"@
}

/// The fixed category weight of a candidate, read off its reason: semantic
/// tool matches rank highest, then plain abbreviation, vowel removal,
/// combinations, syllables, prefix/suffix strips, single-word tricks,
/// phonetics, pattern collapses, keyboard patterns, and truncations last.
pub open spec fn category_weight(r: Seq<char>) -> int {
    if is_semantic_reason(r) {
        100
    } else if r == "Abbreviation"@ {
        90
    } else if r == "Vowel Removal"@ {
        80
    } else if has_suffix(r, " combination"@) {
        70
    } else if r == "Syllable-based"@ {
        65
    } else if has_prefix(r, "Remove prefix"@) || has_prefix(r, "Remove suffix"@) {
        60
    } else if is_single_word_reason(r) {
        55
    } else if r == "Phonetic"@ {
        50
    } else if r == "Remove duplicates"@ || r == "Smart consonants"@ {
        45
    } else if r == "Keyboard pattern"@ {
        40
    } else if has_prefix(r, "Truncated"@) {
        35
    } else {
        30
    }
}

/// A candidate's rank: its category weight plus a bonus favouring shorter
/// aliases.
pub open spec fn priority_of(s: SuggView) -> int {
    category_weight(s.reason) + 10 - s.alias.len()
}

/// Whether `rc` spells exactly the literal `lit`.
fn reason_is(rc: &Vec<char>, lit: &str) -> (r: bool)
    ensures
        r == (rc@ == lit@),
{
    let lc = chars_of(lit);
    chars_eq(rc, &lc)
}

/// Whether `rc` begins with the literal `lit`.
fn reason_starts(rc: &Vec<char>, lit: &str) -> (r: bool)
    ensures
        r == has_prefix(rc@, lit@),
{
    let lc = chars_of(lit);
    chars_start_with(rc, &lc)
}

/// Runtime counterpart of `category_weight`.
fn category_weight_exec(rc: &Vec<char>) -> (w: i32)
    ensures
        w == category_weight(rc@),
{
    if reason_is(rc, "Git status") || reason_is(rc, "Git add all") || reason_is(rc, "Git add")
        || reason_is(rc, "Git commit with message") || reason_is(rc, "Git commit") || reason_is(
        rc,
        "Git checkout new branch",
    ) || reason_is(rc, "Git checkout") || reason_is(rc, "Git push") || reason_is(rc, "Git pull")
        || reason_is(rc, "Git log") || reason_is(rc, "Git branch") || reason_is(rc, "Docker ps")
        || reason_is(rc, "Docker run") || reason_is(rc, "Docker build") || reason_is(
        rc,
        "Docker exec",
    ) || reason_is(rc, "Docker rm") || reason_is(rc, "Docker rmi") || reason_is(rc, "NPM install")
        || reason_is(rc, "NPM run") || reason_is(rc, "NPM start") || reason_is(rc, "NPM test")
        || reason_is(rc, "NPM publish") || reason_starts(rc, "SSH to ") {
        100
    } else if reason_is(rc, "Abbreviation") {
        90
    } else if reason_is(rc, "Vowel Removal") {
        80
    } else if ends_with_lit(rc, " combination") {
        70
    } else if reason_is(rc, "Syllable-based") {
        65
    } else if reason_starts(rc, "Remove prefix") || reason_starts(rc, "Remove suffix") {
        60
    } else if reason_is(rc, "3-letter abbreviation") || reason_is(rc, "2-letter abbreviation")
        || reason_is(rc, "First-last character") || reason_is(rc, "LazyGit abbreviation")
        || reason_is(rc, "Docker abbreviation") || reason_is(rc, "Node abbreviation") || reason_is(
        rc,
        "Executable abbreviation",
    ) {
        55
    } else if reason_is(rc, "Phonetic") {
        50
    } else if reason_is(rc, "Remove duplicates") || reason_is(rc, "Smart consonants") {
        45
    } else if reason_is(rc, "Keyboard pattern") {
        40
    } else if reason_starts(rc, "Truncated") {
        35
    } else {
        30
    }
}

/// Whether `rc` ends with the literal `lit`.
fn ends_with_lit(rc: &Vec<char>, lit: &str) -> (r: bool)
    ensures
        r == has_suffix(rc@, lit@),
{
    let lc = chars_of(lit);
    crate::text::chars_end_with(rc, &lc)
}

/// Runtime counterpart of `priority_of`.
fn get_priority(s: &AliasSuggestion) -> (p: i128)
    ensures
        p == priority_of(s@),
{
    let rc = chars_of(s.reason.as_str());
    let w = category_weight_exec(&rc);
    let alias_chars = chars_of(s.alias.as_str());
    (w as i128) + 10 - (alias_chars.len() as i128)
}

/// A candidate alias collides when it is already an alias, names a system
/// command, or is shorter than two characters.
pub open spec fn conflict_with(alias: Seq<char>, ex: Seq<Seq<char>>, sys: Seq<Seq<char>>) -> bool {
    ||| ex.contains(alias)
    ||| sys.contains(alias)
    ||| alias.len() < 2
}

/// The suggestion engine's conflict snapshot: the alias names already
/// defined and the command names discoverable on the system, both captured
/// once at construction.
pub struct AliasSuggester {
    existing_aliases: Vec<String>,
    system_commands: Vec<String>,
}

impl AliasSuggester {
    /// The snapshot of alias names already defined.
    pub closed spec fn existing(self) -> Seq<Seq<char>> {
        self.existing_aliases.deep_view()
    }

    /// The snapshot of discoverable system command names.
    pub closed spec fn system(self) -> Seq<Seq<char>> {
        self.system_commands.deep_view()
    }

    /// Captures the two conflict snapshots.
    pub fn new(existing_aliases: Vec<String>, system_commands: Vec<String>) -> (s: AliasSuggester)
        ensures
            s.existing() == existing_aliases.deep_view(),
            s.system() == system_commands.deep_view(),
    {
        AliasSuggester { existing_aliases, system_commands }
    }

    /// Whether `alias` collides with the snapshots or is too short.
    fn has_conflicts(&self, alias: &String) -> (r: bool)
        ensures
            r == conflict_with(alias@, self.existing(), self.system()),
    {
        let mut i: usize = 0;
        while i < self.existing_aliases.len()
            invariant
                i <= self.existing_aliases@.len(),
                forall|j: int| 0 <= j < i ==> self.existing_aliases@[j]@ != alias@,
        decreases self.existing_aliases@.len() - i,
        {
            if self.existing_aliases[i] == *alias {
                proof {
                    assert(self.existing()[i as int] == alias@);
                }
                return true;
            }
            i = i + 1;
        }
        let mut i: usize = 0;
        while i < self.system_commands.len()
            invariant
                i <= self.system_commands@.len(),
                forall|j: int| 0 <= j < i ==> self.system_commands@[j]@ != alias@,
        decreases self.system_commands@.len() - i,
        {
            if self.system_commands[i] == *alias {
                proof {
                    assert(self.system()[i as int] == alias@);
                }
                return true;
            }
            i = i + 1;
        }
        let ac = chars_of(alias.as_str());
        proof {
            assert(forall|j: int|
                0 <= j < self.existing().len() ==> self.existing()[j] != alias@);
            assert(forall|j: int| 0 <= j < self.system().len() ==> self.system()[j] != alias@);
            assert(!self.existing().contains(alias@));
            assert(!self.system().contains(alias@));
        }
        ac.len() < 2
    }
}

/// All candidates the generators yield for one command, in the fixed
/// generator order.
pub open spec fn raw_candidates(cmd: Seq<char>) -> Seq<SuggView> {
    crate::heuristics::semantic_cands(cmd) + crate::heuristics::abbreviation_cands(cmd)
        + crate::heuristics::vowel_removal_cands(cmd) + crate::heuristics::combined_cands(cmd)
        + crate::heuristics::single_word_cands(cmd) + crate::heuristics::truncated_cands(cmd)
        + crate::heuristics::syllable_cands(cmd) + crate::heuristics::phonetic_cands(cmd)
        + crate::heuristics::keyboard_cands(cmd) + crate::heuristics::affix_cands(cmd)
        + crate::heuristics::pattern_cands(cmd)
}

/// The candidates that survive the conflict filter, in order.
pub open spec fn filter_conflicts(
    s: Seq<SuggView>,
    ex: Seq<Seq<char>>,
    sys: Seq<Seq<char>>,
) -> Seq<SuggView>
    decreases s.len(),
{
    if s.len() == 0 {
        Seq::empty()
    } else {
        let rest = filter_conflicts(s.drop_first(), ex, sys);
        if conflict_with(s[0].alias, ex, sys) {
            rest
        } else {
            seq![s[0]] + rest
        }
    }
}

/// The candidates with a repeated alias dropped, the first occurrence kept;
/// `seen` carries the aliases already taken.
pub open spec fn dedup_by_alias(s: Seq<SuggView>, seen: Seq<Seq<char>>) -> Seq<SuggView>
    decreases s.len(),
{
    if s.len() == 0 {
        Seq::empty()
    } else if seen.contains(s[0].alias) {
        dedup_by_alias(s.drop_first(), seen)
    } else {
        seq![s[0]] + dedup_by_alias(s.drop_first(), seen.push(s[0].alias))
    }
}

/// Stable descending insertion: `x` goes after every candidate ranked at
/// least as high.
pub open spec fn insert_ranked(s: Seq<SuggView>, x: SuggView) -> Seq<SuggView>
    decreases s.len(),
{
    if s.len() == 0 {
        seq![x]
    } else if priority_of(s[0]) >= priority_of(x) {
        seq![s[0]] + insert_ranked(s.drop_first(), x)
    } else {
        seq![x] + s
    }
}

/// The stable descending sort by priority.
pub open spec fn rank_desc(s: Seq<SuggView>) -> Seq<SuggView>
    decreases s.len(),
{
    if s.len() == 0 {
        Seq::empty()
    } else {
        insert_ranked(rank_desc(s.drop_last()), s.last())
    }
}

/// Priorities never go up along the list.
pub open spec fn sorted_by_priority(s: Seq<SuggView>) -> bool {
    forall|i: int, j: int| 0 <= i <= j < s.len() ==> priority_of(s[i]) >= priority_of(s[j])
}

/// Whether some candidate of `s` carries the alias `a`.
pub open spec fn alias_in(s: Seq<SuggView>, a: Seq<char>) -> bool {
    exists|i: int| 0 <= i < s.len() && s[i].alias == a
}

/// No two candidates carry the same alias.
pub open spec fn distinct_aliases(s: Seq<SuggView>) -> bool {
    forall|i: int, j: int| 0 <= i < j < s.len() ==> s[i].alias != s[j].alias
}

proof fn lemma_filter_conflicts_props(s: Seq<SuggView>, ex: Seq<Seq<char>>, sys: Seq<Seq<char>>)
    ensures
        forall|i: int|
            0 <= i < filter_conflicts(s, ex, sys).len() ==> !conflict_with(
                (#[trigger] filter_conflicts(s, ex, sys)[i]).alias,
                ex,
                sys,
            ) && s.contains(filter_conflicts(s, ex, sys)[i]),
    decreases s.len(),
{
    if s.len() == 0 {
    } else {
        lemma_filter_conflicts_props(s.drop_first(), ex, sys);
        let rest = filter_conflicts(s.drop_first(), ex, sys);
        assert(forall|i: int|
            0 <= i < s.drop_first().len() ==> s.contains(#[trigger] s.drop_first()[i])) by {
            assert(forall|i: int|
                0 <= i < s.drop_first().len() ==> #[trigger] s.drop_first()[i] == s[i + 1]);
        }
        if !conflict_with(s[0].alias, ex, sys) {
            assert(filter_conflicts(s, ex, sys)[0] == s[0]);
            assert(s.contains(s[0]));
            assert(forall|i: int|
                1 <= i < filter_conflicts(s, ex, sys).len() ==> filter_conflicts(s, ex, sys)[i]
                    == rest[i - 1]);
        }
    }
}

proof fn lemma_dedup_props(s: Seq<SuggView>, seen: Seq<Seq<char>>)
    ensures
        distinct_aliases(dedup_by_alias(s, seen)),
        forall|i: int|
            0 <= i < dedup_by_alias(s, seen).len() ==> !seen.contains(
                (#[trigger] dedup_by_alias(s, seen)[i]).alias,
            ) && s.contains(dedup_by_alias(s, seen)[i]),
    decreases s.len(),
{
    if s.len() == 0 {
    } else {
        assert(forall|i: int|
            0 <= i < s.drop_first().len() ==> s.contains(#[trigger] s.drop_first()[i])) by {
            assert(forall|i: int|
                0 <= i < s.drop_first().len() ==> #[trigger] s.drop_first()[i] == s[i + 1]);
        }
        assert(s.contains(s[0]));
        if seen.contains(s[0].alias) {
            lemma_dedup_props(s.drop_first(), seen);
        } else {
            lemma_dedup_props(s.drop_first(), seen.push(s[0].alias));
            let d = dedup_by_alias(s, seen);
            let rest = dedup_by_alias(s.drop_first(), seen.push(s[0].alias));
            assert(d[0] == s[0]);
            assert(forall|i: int| 1 <= i < d.len() ==> d[i] == rest[i - 1]);
            assert forall|i: int| 0 <= i < d.len() implies !seen.contains(
                (#[trigger] d[i]).alias,
            ) && s.contains(d[i]) by {
                if i > 0 {
                    assert(!seen.push(s[0].alias).contains(rest[i - 1].alias));
                    assert(seen.push(s[0].alias)[seen.len() as int] == s[0].alias);
                    assert(forall|j: int|
                        0 <= j < seen.len() ==> seen.push(s[0].alias)[j] == seen[j]);
                    assert(!seen.contains(rest[i - 1].alias)) by {
                        if seen.contains(rest[i - 1].alias) {
                            let j = choose|j: int|
                                0 <= j < seen.len() && seen[j] == rest[i - 1].alias;
                            assert(seen.push(s[0].alias)[j] == rest[i - 1].alias);
                        }
                    }
                }
            }
            assert forall|i: int, j: int| 0 <= i < j < d.len() implies d[i].alias
                != d[j].alias by {
                if i == 0 {
                    assert(d[j] == rest[j - 1]);
                    assert(!seen.push(s[0].alias).contains(rest[j - 1].alias));
                    assert(seen.push(s[0].alias)[seen.len() as int] == s[0].alias);
                    if rest[j - 1].alias == s[0].alias {
                        assert(seen.push(s[0].alias).contains(rest[j - 1].alias));
                    }
                } else {
                    assert(d[i] == rest[i - 1] && d[j] == rest[j - 1]);
                }
            }
        }
    }
}

proof fn lemma_insert_ranked_props(s: Seq<SuggView>, x: SuggView)
    ensures
        insert_ranked(s, x).len() == s.len() + 1,
        forall|i: int|
            0 <= i < insert_ranked(s, x).len() ==> (#[trigger] insert_ranked(s, x)[i] == x
                || s.contains(insert_ranked(s, x)[i])),
        forall|a: Seq<char>|
            #[trigger] alias_in(insert_ranked(s, x), a) <==> (alias_in(s, a) || a == x.alias),
        sorted_by_priority(s) ==> sorted_by_priority(insert_ranked(s, x)),
        distinct_aliases(s) && !alias_in(s, x.alias) ==> distinct_aliases(insert_ranked(s, x)),
    decreases s.len(),
{
    let r = insert_ranked(s, x);
    if s.len() == 0 {
        assert forall|a: Seq<char>| #[trigger]
            alias_in(r, a) <==> (alias_in(s, a) || a == x.alias) by {
            if a == x.alias {
                assert(r[0].alias == a);
            }
            if alias_in(r, a) {
                let i = choose|i: int| 0 <= i < r.len() && r[i].alias == a;
                assert(i == 0);
            }
        }
    } else if priority_of(s[0]) >= priority_of(x) {
        lemma_insert_ranked_props(s.drop_first(), x);
        let rest = insert_ranked(s.drop_first(), x);
        assert(r[0] == s[0]);
        assert(forall|i: int| 1 <= i < r.len() ==> r[i] == rest[i - 1]);
        assert(forall|i: int|
            0 <= i < s.drop_first().len() ==> #[trigger] s.drop_first()[i] == s[i + 1]);
        assert(forall|i: int|
            0 <= i < s.drop_first().len() ==> s.contains(#[trigger] s.drop_first()[i]));
        assert(s.contains(s[0]));
        assert forall|a: Seq<char>| #[trigger]
            alias_in(r, a) <==> (alias_in(s, a) || a == x.alias) by {
            if alias_in(r, a) {
                let i = choose|i: int| 0 <= i < r.len() && r[i].alias == a;
                if i == 0 {
                    assert(s[0].alias == a);
                    assert(alias_in(s, a));
                } else {
                    assert(alias_in(rest, a));
                    if alias_in(s.drop_first(), a) {
                        let j = choose|j: int|
                            0 <= j < s.drop_first().len() && s.drop_first()[j].alias == a;
                        assert(s[j + 1].alias == a);
                        assert(alias_in(s, a));
                    }
                }
            }
            if alias_in(s, a) {
                let i = choose|i: int| 0 <= i < s.len() && s[i].alias == a;
                if i == 0 {
                    assert(r[0].alias == a);
                } else {
                    assert(s.drop_first()[i - 1].alias == a);
                    assert(alias_in(s.drop_first(), a));
                    assert(alias_in(rest, a));
                    let j = choose|j: int| 0 <= j < rest.len() && rest[j].alias == a;
                    assert(r[j + 1].alias == a);
                }
            }
            if a == x.alias {
                assert(alias_in(rest, a));
                let j = choose|j: int| 0 <= j < rest.len() && rest[j].alias == a;
                assert(r[j + 1].alias == a);
            }
        }
        if sorted_by_priority(s) {
            assert(sorted_by_priority(s.drop_first()));
            assert forall|i: int, j: int|
                0 <= i <= j < r.len() implies priority_of(r[i]) >= priority_of(r[j]) by {
                if i == 0 && j > 0 {
                    assert(r[j] == rest[j - 1]);
                    assert(rest[j - 1] == x || s.drop_first().contains(rest[j - 1]));
                    if s.drop_first().contains(rest[j - 1]) {
                        let k = choose|k: int|
                            0 <= k < s.drop_first().len() && s.drop_first()[k] == rest[j - 1];
                        assert(s[k + 1] == rest[j - 1]);
                        assert(priority_of(s[0]) >= priority_of(s[k + 1]));
                    }
                } else if i > 0 {
                    assert(r[i] == rest[i - 1] && r[j] == rest[j - 1]);
                }
            }
        }
        if distinct_aliases(s) && !alias_in(s, x.alias) {
            assert(distinct_aliases(s.drop_first()));
            assert(!alias_in(s.drop_first(), x.alias)) by {
                if alias_in(s.drop_first(), x.alias) {
                    let j = choose|j: int|
                        0 <= j < s.drop_first().len() && s.drop_first()[j].alias == x.alias;
                    assert(s[j + 1].alias == x.alias);
                }
            }
            assert forall|i: int, j: int| 0 <= i < j < r.len() implies r[i].alias
                != r[j].alias by {
                if i == 0 {
                    assert(r[j] == rest[j - 1]);
                    assert(alias_in(rest, rest[j - 1].alias));
                    if r[0].alias == rest[j - 1].alias {
                        assert(alias_in(s.drop_first(), s[0].alias) || s[0].alias == x.alias);
                        if alias_in(s.drop_first(), s[0].alias) {
                            let k = choose|k: int|
                                0 <= k < s.drop_first().len() && s.drop_first()[k].alias
                                    == s[0].alias;
                            assert(s[k + 1].alias == s[0].alias);
                        }
                    }
                } else {
                    assert(r[i] == rest[i - 1] && r[j] == rest[j - 1]);
                }
            }
        }
    } else {
        assert(r == seq![x] + s);
        assert(r[0] == x);
        assert(forall|i: int| 1 <= i < r.len() ==> r[i] == s[i - 1]);
        assert forall|a: Seq<char>| #[trigger]
            alias_in(r, a) <==> (alias_in(s, a) || a == x.alias) by {
            if alias_in(r, a) {
                let i = choose|i: int| 0 <= i < r.len() && r[i].alias == a;
                if i > 0 {
                    assert(s[i - 1].alias == a);
                    assert(alias_in(s, a));
                }
            }
            if alias_in(s, a) {
                let i = choose|i: int| 0 <= i < s.len() && s[i].alias == a;
                assert(r[i + 1].alias == a);
            }
            if a == x.alias {
                assert(r[0].alias == a);
            }
        }
        if sorted_by_priority(s) {
            assert forall|i: int, j: int|
                0 <= i <= j < r.len() implies priority_of(r[i]) >= priority_of(r[j]) by {
                if i == 0 && j > 0 {
                    assert(r[j] == s[j - 1]);
                    assert(priority_of(s[0]) >= priority_of(s[j - 1]));
                }
            }
        }
    }
}

proof fn lemma_rank_desc_props(s: Seq<SuggView>)
    requires
        distinct_aliases(s),
    ensures
        rank_desc(s).len() == s.len(),
        sorted_by_priority(rank_desc(s)),
        distinct_aliases(rank_desc(s)),
        forall|i: int|
            0 <= i < rank_desc(s).len() ==> s.contains(#[trigger] rank_desc(s)[i]),
        forall|a: Seq<char>| #[trigger] alias_in(rank_desc(s), a) <==> alias_in(s, a),
    decreases s.len(),
{
    if s.len() == 0 {
    } else {
        let d = s.drop_last();
        assert(forall|i: int| 0 <= i < d.len() ==> #[trigger] d[i] == s[i]);
        assert(distinct_aliases(d));
        lemma_rank_desc_props(d);
        let rd = rank_desc(d);
        assert(!alias_in(rd, s.last().alias)) by {
            if alias_in(rd, s.last().alias) {
                assert(alias_in(d, s.last().alias));
                let j = choose|j: int| 0 <= j < d.len() && d[j].alias == s.last().alias;
                assert(s[j].alias == s[s.len() - 1].alias);
            }
        }
        lemma_insert_ranked_props(rd, s.last());
        assert(s.contains(s.last()));
        assert forall|i: int|
            0 <= i < rank_desc(s).len() implies s.contains(#[trigger] rank_desc(s)[i]) by {
            if rank_desc(s)[i] != s.last() {
                assert(rd.contains(rank_desc(s)[i]));
                let j = choose|j: int| 0 <= j < rd.len() && rd[j] == rank_desc(s)[i];
                assert(d.contains(rd[j]));
                let k = choose|k: int| 0 <= k < d.len() && d[k] == rd[j];
                assert(s[k] == rank_desc(s)[i]);
            }
        }
        assert forall|a: Seq<char>| #[trigger]
            alias_in(rank_desc(s), a) <==> alias_in(s, a) by {
            if alias_in(s, a) {
                let i = choose|i: int| 0 <= i < s.len() && s[i].alias == a;
                if i < s.len() - 1 {
                    assert(d[i].alias == a);
                    assert(alias_in(d, a));
                } else {
                    assert(a == s.last().alias);
                }
            }
            if alias_in(d, a) {
                assert(alias_in(s, a)) by {
                    let i = choose|i: int| 0 <= i < d.len() && d[i].alias == a;
                    assert(s[i].alias == a);
                }
            }
        }
    }
}

/// The whole pipeline: generate, filter conflicts, deduplicate, rank.
pub open spec fn suggestion_pipeline(
    cmd: Seq<char>,
    ex: Seq<Seq<char>>,
    sys: Seq<Seq<char>>,
) -> Seq<SuggView> {
    rank_desc(dedup_by_alias(filter_conflicts(raw_candidates(cmd), ex, sys), Seq::empty()))
}

impl AliasSuggester {
    /// Proposes alias names for `command`: all generator candidates, the
    /// conflicting ones dropped, one candidate per alias (first occurrence
    /// kept), ranked by category weight with shorter names favoured.  No
    /// returned alias collides with the captured snapshots or is shorter
    /// than two characters, no alias repeats, and ranks never go up along
    /// the list.
    pub fn suggest_aliases(&self, command: &str) -> (r: Vec<AliasSuggestion>)
        ensures
            r.deep_view() == suggestion_pipeline(command@, self.existing(), self.system()),
            forall|i: int|
                0 <= i < r.deep_view().len() ==> !conflict_with(
                    (#[trigger] r.deep_view()[i]).alias,
                    self.existing(),
                    self.system(),
                ),
            sorted_by_priority(r.deep_view()),
            distinct_aliases(r.deep_view()),
            forall|i: int|
                0 <= i < r.deep_view().len() ==> raw_candidates(command@).contains(
                    #[trigger] r.deep_view()[i],
                ),
    {
        let cs = chars_of(command);
        let ws = crate::text::split_words(&cs);
        let mut all: Vec<AliasSuggestion> = Vec::new();
        proof {
            assert(all.deep_view() =~~= Seq::<SuggView>::empty());
        }
        append_all(&mut all, crate::heuristics::generate_semantic_aliases(&cs, &ws));
        append_all(&mut all, crate::heuristics::generate_abbreviation_aliases(&cs, &ws));
        append_all(&mut all, crate::heuristics::generate_vowel_removal_aliases(&cs, &ws));
        append_all(&mut all, crate::heuristics::generate_combined_aliases(&cs, &ws));
        append_all(&mut all, crate::heuristics::generate_single_word_aliases(&cs, &ws));
        append_all(&mut all, crate::heuristics::generate_truncated_aliases(&cs, &ws));
        append_all(&mut all, crate::heuristics::generate_syllable_aliases(&cs, &ws));
        append_all(&mut all, crate::heuristics::generate_phonetic_aliases(&cs, &ws));
        append_all(&mut all, crate::heuristics::generate_keyboard_pattern_aliases(&cs, &ws));
        append_all(&mut all, crate::heuristics::generate_smart_prefix_aliases(&cs, &ws));
        append_all(&mut all, crate::heuristics::generate_common_pattern_aliases(&cs, &ws));
        proof {
            assert(all.deep_view() =~~= raw_candidates(command@));
        }
        let ghost rawv = all.deep_view();
        // Conflict filter.
        let mut kept: Vec<AliasSuggestion> = Vec::new();
        let mut i: usize = 0;
        proof {
            assert(rawv.skip(0) =~= rawv);
            assert(kept.deep_view() + filter_conflicts(rawv.skip(0), self.existing(), self.system())
                =~~= filter_conflicts(rawv, self.existing(), self.system()));
        }
        while i < all.len()
            invariant
                i <= all@.len(),
                all.deep_view() == rawv,
                rawv.len() == all@.len(),
                filter_conflicts(rawv, self.existing(), self.system()) == kept.deep_view()
                    + filter_conflicts(rawv.skip(i as int), self.existing(), self.system()),
            decreases all@.len() - i,
        {
            let ghost rest = rawv.skip(i as int);
            proof {
                assert(rest[0] == rawv[i as int]);
                assert(rawv[i as int] == all@[i as int]@);
                assert(rest.drop_first() =~~= rawv.skip(i + 1));
            }
            let c = all[i].clone();
            if !self.has_conflicts(&c.alias) {
                append_sugg(&mut kept, c);
                proof {
                    assert(kept.deep_view() + filter_conflicts(
                        rawv.skip(i + 1),
                        self.existing(),
                        self.system(),
                    ) =~~= filter_conflicts(rawv, self.existing(), self.system()));
                }
            } else {
                proof {
                    assert(kept.deep_view() + filter_conflicts(
                        rawv.skip(i + 1),
                        self.existing(),
                        self.system(),
                    ) =~~= filter_conflicts(rawv, self.existing(), self.system()));
                }
            }
            i = i + 1;
        }
        proof {
            assert(rawv.skip(rawv.len() as int) =~~= Seq::<SuggView>::empty());
            assert(kept.deep_view() =~~= filter_conflicts(rawv, self.existing(), self.system()));
        }
        let ghost keptv = kept.deep_view();
        // Deduplicate by alias, first occurrence winning.
        let mut uniq: Vec<AliasSuggestion> = Vec::new();
        let mut i: usize = 0;
        proof {
            assert(keptv.skip(0) =~= keptv);
            assert(aliases_of(uniq.deep_view()) =~= Seq::<Seq<char>>::empty());
            assert(uniq.deep_view() + dedup_by_alias(keptv.skip(0), aliases_of(uniq.deep_view()))
                =~~= dedup_by_alias(keptv, Seq::empty()));
        }
        while i < kept.len()
            invariant
                i <= kept@.len(),
                kept.deep_view() == keptv,
                keptv.len() == kept@.len(),
                dedup_by_alias(keptv, Seq::empty()) == uniq.deep_view() + dedup_by_alias(
                    keptv.skip(i as int),
                    aliases_of(uniq.deep_view()),
                ),
            decreases kept@.len() - i,
        {
            let ghost rest = keptv.skip(i as int);
            proof {
                assert(rest[0] == keptv[i as int]);
                assert(keptv[i as int] == kept@[i as int]@);
                assert(rest.drop_first() =~~= keptv.skip(i + 1));
            }
            let c = kept[i].clone();
            let seen = alias_seen(&uniq, &c.alias);
            if !seen {
                let ghost uv = uniq.deep_view();
                append_sugg(&mut uniq, c);
                proof {
                    assert(aliases_of(uniq.deep_view()) =~= aliases_of(uv).push(
                        keptv[i as int].alias,
                    ));
                    assert(uniq.deep_view() + dedup_by_alias(
                        keptv.skip(i + 1),
                        aliases_of(uniq.deep_view()),
                    ) =~~= dedup_by_alias(keptv, Seq::empty()));
                }
            } else {
                proof {
                    assert(uniq.deep_view() + dedup_by_alias(
                        keptv.skip(i + 1),
                        aliases_of(uniq.deep_view()),
                    ) =~~= dedup_by_alias(keptv, Seq::empty()));
                }
            }
            i = i + 1;
        }
        proof {
            assert(keptv.skip(keptv.len() as int) =~~= Seq::<SuggView>::empty());
            assert(uniq.deep_view() =~~= dedup_by_alias(keptv, Seq::empty()));
        }
        let ghost uniqv = uniq.deep_view();
        // Stable descending sort by priority.
        let mut out: Vec<AliasSuggestion> = Vec::new();
        let mut i: usize = 0;
        proof {
            assert(uniqv.take(0) =~~= Seq::<SuggView>::empty());
            assert(out.deep_view() =~~= rank_desc(uniqv.take(0)));
        }
        while i < uniq.len()
            invariant
                i <= uniq@.len(),
                uniq.deep_view() == uniqv,
                uniqv.len() == uniq@.len(),
                out.deep_view() == rank_desc(uniqv.take(i as int)),
            decreases uniq@.len() - i,
        {
            proof {
                assert(uniqv.take(i + 1).drop_last() =~~= uniqv.take(i as int));
                assert(uniqv.take(i + 1).last() == uniqv[i as int]);
                assert(uniqv[i as int] == uniq@[i as int]@);
            }
            let c = uniq[i].clone();
            insert_ranked_exec(&mut out, c);
            proof {
                assert(out.deep_view() =~~= rank_desc(uniqv.take(i + 1)));
            }
            i = i + 1;
        }
        proof {
            assert(uniqv.take(uniqv.len() as int) =~~= uniqv);
            assert(out.deep_view() =~~= rank_desc(uniqv));
            lemma_filter_conflicts_props(rawv, self.existing(), self.system());
            lemma_dedup_props(keptv, Seq::empty());
            lemma_rank_desc_props(uniqv);
            assert forall|i: int|
                0 <= i < out.deep_view().len() implies !conflict_with(
                (#[trigger] out.deep_view()[i]).alias,
                self.existing(),
                self.system(),
            ) && raw_candidates(command@).contains(out.deep_view()[i]) by {
                assert(uniqv.contains(out.deep_view()[i]));
                let j = choose|j: int| 0 <= j < uniqv.len() && uniqv[j] == out.deep_view()[i];
                assert(keptv.contains(uniqv[j]));
                let k = choose|k: int| 0 <= k < keptv.len() && keptv[k] == uniqv[j];
                assert(!conflict_with(keptv[k].alias, self.existing(), self.system()));
                assert(rawv.contains(keptv[k]));
            }
        }
        out
    }
}

/// The aliases the candidates carry, in order.
pub open spec fn aliases_of(s: Seq<SuggView>) -> Seq<Seq<char>> {
    Seq::new(s.len(), |i: int| s[i].alias)
}

/// Appends every candidate of `src`, in order.
fn append_all(out: &mut Vec<AliasSuggestion>, src: Vec<AliasSuggestion>)
    ensures
        final(out).deep_view() == old(out).deep_view() + src.deep_view(),
{
    let mut i: usize = 0;
    proof {
        assert(out.deep_view() =~~= old(out).deep_view() + src.deep_view().take(0));
    }
    while i < src.len()
        invariant
            i <= src@.len(),
            src.deep_view().len() == src@.len(),
            out.deep_view() == old(out).deep_view() + src.deep_view().take(i as int),
        decreases src@.len() - i,
    {
        let ghost d = out.deep_view();
        let c = src[i].clone();
        append_sugg(out, c);
        proof {
            assert(src.deep_view()[i as int] == src@[i as int]@);
            assert(out.deep_view() =~~= old(out).deep_view() + src.deep_view().take(i + 1));
        }
        i = i + 1;
    }
    proof {
        assert(src.deep_view().take(src@.len() as int) =~~= src.deep_view());
    }
}

/// Appends one candidate, tracked at the view level.
fn append_sugg(out: &mut Vec<AliasSuggestion>, s: AliasSuggestion)
    ensures
        final(out).deep_view() == old(out).deep_view().push(s@),
{
    let ghost d = out.deep_view();
    let ghost v = s@;
    out.push(s);
    proof {
        assert(out.deep_view() =~~= d.push(v));
    }
}

/// Whether some kept candidate already carries `alias`.
fn alias_seen(uniq: &Vec<AliasSuggestion>, alias: &String) -> (r: bool)
    ensures
        r == aliases_of(uniq.deep_view()).contains(alias@),
{
    let mut i: usize = 0;
    while i < uniq.len()
        invariant
            i <= uniq@.len(),
            uniq.deep_view().len() == uniq@.len(),
            forall|j: int| 0 <= j < i ==> uniq.deep_view()[j].alias != alias@,
        decreases uniq@.len() - i,
    {
        if uniq[i].alias == *alias {
            proof {
                assert(uniq.deep_view()[i as int].alias == alias@);
                assert(aliases_of(uniq.deep_view())[i as int] == alias@);
            }
            return true;
        }
        i = i + 1;
    }
    proof {
        if aliases_of(uniq.deep_view()).contains(alias@) {
            let j = choose|j: int|
                0 <= j < aliases_of(uniq.deep_view()).len() && aliases_of(uniq.deep_view())[j]
                    == alias@;
            assert(uniq.deep_view()[j].alias == alias@);
        }
    }
    false
}

proof fn lemma_insert_ranked_at(s: Seq<SuggView>, x: SuggView, pos: int)
    requires
        0 <= pos <= s.len(),
        forall|j: int| 0 <= j < pos ==> priority_of(#[trigger] s[j]) >= priority_of(x),
        pos < s.len() ==> priority_of(s[pos]) < priority_of(x),
    ensures
        insert_ranked(s, x) =~~= s.take(pos) + seq![x] + s.skip(pos),
    decreases pos,
{
    if pos == 0 {
        if s.len() == 0 {
            assert(insert_ranked(s, x) =~~= seq![x]);
        } else {
            assert(insert_ranked(s, x) == seq![x] + s);
        }
        assert(s.take(0) =~~= Seq::<SuggView>::empty());
        assert(s.skip(0) =~~= s);
    } else {
        assert(priority_of(s[0]) >= priority_of(x));
        assert(forall|j: int|
            0 <= j < pos - 1 ==> #[trigger] s.drop_first()[j] == s[j + 1]);
        assert(pos - 1 < s.drop_first().len() ==> priority_of(s.drop_first()[pos - 1])
            < priority_of(x));
        lemma_insert_ranked_at(s.drop_first(), x, pos - 1);
        assert(s.drop_first().take(pos - 1) =~~= s.take(pos).drop_first());
        assert(s.drop_first().skip(pos - 1) =~~= s.skip(pos));
        assert(insert_ranked(s, x) =~~= s.take(pos) + seq![x] + s.skip(pos));
    }
}

/// Whether this candidate ranks at least as high as `p`.
fn prio_at_least(s: &AliasSuggestion, p: i128) -> (r: bool)
    ensures
        r == (priority_of(s@) >= p),
{
    let q = get_priority(s);
    q >= p
}

/// Inserts one candidate at its ranked position, after every candidate
/// ranked at least as high.
fn insert_ranked_exec(out: &mut Vec<AliasSuggestion>, c: AliasSuggestion)
    ensures
        final(out).deep_view() == insert_ranked(old(out).deep_view(), c@),
{
    let p = get_priority(&c);
    let mut k: usize = 0;
    while k < out.len() && prio_at_least(&out[k], p)
        invariant
            k <= out@.len(),
            out.deep_view().len() == out@.len(),
            *out == *old(out),
            forall|j: int|
                0 <= j < k ==> priority_of(#[trigger] out.deep_view()[j]) >= priority_of(c@),
            p == priority_of(c@),
        decreases out@.len() - k,
    {
        k = k + 1;
    }
    proof {
        assert(k < out@.len() ==> priority_of(out.deep_view()[k as int]) < priority_of(c@));
        lemma_insert_ranked_at(out.deep_view(), c@, k as int);
    }
    let ghost d = out.deep_view();
    let ghost olde = out@;
    let ghost cexec = c;
    let ghost cv = c@;
    out.insert(k, c);
    proof {
        olde.insert_ensures(k as int, cexec);
        assert(out@ == olde.insert(k as int, cexec));
        assert forall|j: int| 0 <= j < out.deep_view().len() implies out.deep_view()[j] == (
        d.take(k as int) + seq![cv] + d.skip(k as int))[j] by {
            if j < k {
                assert(out@[j] == olde[j]);
            } else if j == k {
                assert(out@[j] == cexec);
            } else {
                assert(out@[j] == olde[j - 1]);
            }
        }
        assert(out.deep_view() =~~= d.take(k as int) + seq![cv] + d.skip(k as int));
    }
}

} // verus!
