//! The independent candidate generators of the suggestion engine.
//!
//! Each generator is a pure function from a command string to a list of
//! candidates, stated over `Seq<char>`; no generator assumes any other ran.

use vstd::prelude::*;
use vstd::string::*;
use crate::mangle::{
    collapse_adjacent, collapse_adjacent_exec, consonants_exec, consonants_of, every_other,
    every_other_exec, extend_chars, first_or_x, first_or_x_exec, replace_all, replace_all_exec,
    syllables_exec, syllables_of, take_chars,
};
use crate::suggest::{AliasSuggestion, SuggView};
use crate::text::{
    chars_contain, chars_end_with, chars_eq, chars_of, chars_start_with, has_prefix, has_sub,
    has_suffix, words_of,
};

verus! {

/// The first letter of every word, `'x'` standing in for an empty one.
pub open spec fn first_letters(ws: Seq<Seq<char>>) -> Seq<char> {
    Seq::new(ws.len(), |i: int| first_or_x(ws[i]))
}

fn first_letters_exec(ws: &Vec<Vec<char>>) -> (r: Vec<char>)
    ensures
        r@ == first_letters(ws.deep_view()),
{
    let mut r: Vec<char> = Vec::new();
    let mut i: usize = 0;
    proof {
        assert(r@ =~= first_letters(ws.deep_view()).take(0));
    }
    while i < ws.len()
        invariant
            i <= ws@.len(),
            ws.deep_view().len() == ws@.len(),
            r@ == first_letters(ws.deep_view()).take(i as int),
        decreases ws@.len() - i,
    {
        let c = first_or_x_exec(&ws[i]);
        r.push(c);
        proof {
            assert(ws.deep_view()[i as int] == ws@[i as int]@);
            assert(r@ =~= first_letters(ws.deep_view()).take(i + 1));
        }
        i = i + 1;
    }
    proof {
        assert(first_letters(ws.deep_view()).take(ws@.len() as int) =~= first_letters(
            ws.deep_view(),
        ));
    }
    r
}

/// Appends one candidate, tracked at the view level.
pub(crate) fn append_sugg(out: &mut Vec<AliasSuggestion>, s: AliasSuggestion)
    ensures
        final(out).deep_view() == old(out).deep_view().push(s@),
{
    let ghost d = out.deep_view();
    let ghost v = s@;
    out.push(s);
    proof {
        assert(out.deep_view() =~~= d.push(v));
    }
}

/// Builds a suggestion from character vectors and a fixed reason.
fn sugg(alias: Vec<char>, command: &Vec<char>, reason: &str) -> (s: AliasSuggestion)
    ensures
        s@ == (SuggView { alias: alias@, command: command@, reason: reason@ }),
{
    AliasSuggestion {
        alias: crate::text::string_from_chars(&alias),
        command: crate::text::string_from_chars(command),
        reason: String::from_str(reason),
    }
}

/// The `tool`-`argument` combination reason.
pub open spec fn comb_reason(tool: Seq<char>, arg: Seq<char>) -> Seq<char> {
    tool + "-"@ + arg + " combination"@
}

fn comb_reason_exec(tool: &Vec<char>, arg: &Vec<char>) -> (r: Vec<char>)
    ensures
        r@ == comb_reason(tool@, arg@),
{
    let mut r: Vec<char> = Vec::new();
    extend_chars(&mut r, tool);
    let dash = chars_of("-");
    extend_chars(&mut r, &dash);
    extend_chars(&mut r, arg);
    let tail = chars_of(" combination");
    extend_chars(&mut r, &tail);
    r
}

/// A first letter glued onto an argument.
pub open spec fn glued(tool: Seq<char>, arg: Seq<char>) -> Seq<char> {
    seq![first_or_x(tool)] + arg
}

fn glued_exec(tool: &Vec<char>, arg: &Vec<char>) -> (r: Vec<char>)
    ensures
        r@ == glued(tool@, arg@),
{
    let mut r: Vec<char> = Vec::new();
    r.push(first_or_x_exec(tool));
    extend_chars(&mut r, arg);
    proof {
        assert(r@ =~= glued(tool@, arg@));
    }
    r
}

/// Abbreviation: the first letter of every word, kept at two to four
/// characters.
pub open spec fn abbreviation_cands(cmd: Seq<char>) -> Seq<SuggView> {
    let ws = words_of(cmd);
    if ws.len() < 2 {
        Seq::empty()
    } else {
        let ab = first_letters(ws);
        if 2 <= ab.len() <= 4 {
            seq![SuggView { alias: ab, command: cmd, reason: "Abbreviation"@ }]
        } else {
            Seq::empty()
        }
    }
}

pub(crate) fn generate_abbreviation_aliases(cmd: &Vec<char>, ws: &Vec<Vec<char>>) -> (out: Vec<
    AliasSuggestion,
>)
    requires
        ws.deep_view() == words_of(cmd@),
    ensures
        out.deep_view() == abbreviation_cands(cmd@),
{
    let mut out: Vec<AliasSuggestion> = Vec::new();
    proof {
        assert(out.deep_view() =~~= Seq::<SuggView>::empty());
    }
    if ws.len() < 2 {
        return out;
    }
    let ab = first_letters_exec(ws);
    if ab.len() >= 2 && ab.len() <= 4 {
        append_sugg(&mut out, sugg(ab, cmd, "Abbreviation"));
        proof {
            assert(out.deep_view() =~~= abbreviation_cands(cmd@));
        }
    }
    out
}

/// The capped consonant run of one word: vowels out, three consonants kept.
pub open spec fn capped_consonants(w: Seq<char>) -> Seq<char> {
    let c = consonants_of(w);
    if c.len() <= 3 {
        c
    } else {
        c.take(3)
    }
}

/// The concatenated capped consonant runs of all words.
pub open spec fn vowel_concat(ws: Seq<Seq<char>>) -> Seq<char>
    decreases ws.len(),
{
    if ws.len() == 0 {
        Seq::empty()
    } else {
        capped_consonants(ws[0]) + vowel_concat(ws.drop_first())
    }
}

proof fn lemma_vowel_concat_push(ws: Seq<Seq<char>>, w: Seq<char>)
    ensures
        vowel_concat(ws.push(w)) =~= vowel_concat(ws) + capped_consonants(w),
    decreases ws.len(),
{
    if ws.len() == 0 {
        assert(ws.push(w).drop_first() =~~= ws);
    } else {
        assert(ws.push(w).drop_first() =~~= ws.drop_first().push(w));
        lemma_vowel_concat_push(ws.drop_first(), w);
    }
}

/// Vowel removal: consonant runs capped at three per word, concatenated,
/// capped at eight in all; kept when at least two characters and different
/// from the command itself.
pub open spec fn vowel_removal_cands(cmd: Seq<char>) -> Seq<SuggView> {
    let ws = words_of(cmd);
    if ws.len() == 0 {
        Seq::empty()
    } else {
        let comb = vowel_concat(ws);
        let fin = if comb.len() > 8 {
            comb.take(8)
        } else {
            comb
        };
        if fin.len() >= 2 && fin != cmd {
            seq![SuggView { alias: fin, command: cmd, reason: "Vowel Removal"@ }]
        } else {
            Seq::empty()
        }
    }
}

pub(crate) fn generate_vowel_removal_aliases(cmd: &Vec<char>, ws: &Vec<Vec<char>>) -> (out: Vec<
    AliasSuggestion,
>)
    requires
        ws.deep_view() == words_of(cmd@),
    ensures
        out.deep_view() == vowel_removal_cands(cmd@),
{
    let mut out: Vec<AliasSuggestion> = Vec::new();
    proof {
        assert(out.deep_view() =~~= Seq::<SuggView>::empty());
    }
    if ws.len() == 0 {
        return out;
    }
    let mut comb: Vec<char> = Vec::new();
    let mut i: usize = 0;
    proof {
        assert(ws.deep_view().take(0) =~~= Seq::<Seq<char>>::empty());
        assert(comb@ =~= vowel_concat(ws.deep_view().take(0)));
    }
    while i < ws.len()
        invariant
            i <= ws@.len(),
            ws.deep_view().len() == ws@.len(),
            comb@ == vowel_concat(ws.deep_view().take(i as int)),
        decreases ws@.len() - i,
    {
        let c = consonants_exec(&ws[i]);
        let capped = take_chars(&c, 3);
        proof {
            assert(ws.deep_view()[i as int] == ws@[i as int]@);
            assert(capped@ == capped_consonants(ws.deep_view()[i as int]));
            assert(ws.deep_view().take(i + 1) =~~= ws.deep_view().take(i as int).push(
                ws.deep_view()[i as int],
            ));
            lemma_vowel_concat_push(ws.deep_view().take(i as int), ws.deep_view()[i as int]);
        }
        extend_chars(&mut comb, &capped);
        i = i + 1;
    }
    proof {
        assert(ws.deep_view().take(ws@.len() as int) =~~= ws.deep_view());
    }
    let fin = if comb.len() > 8 {
        take_chars(&comb, 8)
    } else {
        comb
    };
    if fin.len() >= 2 && !chars_eq(&fin, cmd) {
        append_sugg(&mut out, sugg(fin, cmd, "Vowel Removal"));
        proof {
            assert(out.deep_view() =~~= vowel_removal_cands(cmd@));
        }
    }
    out
}

/// Combined: the tool's first letter glued onto each of the first two
/// arguments of at least two characters, independently.
pub open spec fn combined_cands(cmd: Seq<char>) -> Seq<SuggView> {
    let ws = words_of(cmd);
    if ws.len() < 2 {
        Seq::empty()
    } else {
        (if ws[1].len() >= 2 {
            seq![
                SuggView {
                    alias: glued(ws[0], ws[1]),
                    command: cmd,
                    reason: comb_reason(ws[0], ws[1]),
                },
            ]
        } else {
            Seq::empty()
        }) + (if ws.len() >= 3 && ws[2].len() >= 2 {
            seq![
                SuggView {
                    alias: glued(ws[0], ws[2]),
                    command: cmd,
                    reason: comb_reason(ws[0], ws[2]),
                },
            ]
        } else {
            Seq::empty()
        })
    }
}

pub(crate) fn generate_combined_aliases(cmd: &Vec<char>, ws: &Vec<Vec<char>>) -> (out: Vec<
    AliasSuggestion,
>)
    requires
        ws.deep_view() == words_of(cmd@),
    ensures
        out.deep_view() == combined_cands(cmd@),
{
    let mut out: Vec<AliasSuggestion> = Vec::new();
    proof {
        assert(out.deep_view() =~~= Seq::<SuggView>::empty());
    }
    if ws.len() < 2 {
        return out;
    }
    proof {
        assert(ws.deep_view()[0] == ws@[0]@);
        assert(ws.deep_view()[1] == ws@[1]@);
    }
    if ws[1].len() >= 2 {
        let alias = glued_exec(&ws[0], &ws[1]);
        let reason = comb_reason_exec(&ws[0], &ws[1]);
        let s = AliasSuggestion {
            alias: crate::text::string_from_chars(&alias),
            command: crate::text::string_from_chars(cmd),
            reason: crate::text::string_from_chars(&reason),
        };
        append_sugg(&mut out, s);
    }
    if ws.len() >= 3 && ws[2].len() >= 2 {
        proof {
            assert(ws.deep_view()[2] == ws@[2]@);
        }
        let alias = glued_exec(&ws[0], &ws[2]);
        let reason = comb_reason_exec(&ws[0], &ws[2]);
        let s = AliasSuggestion {
            alias: crate::text::string_from_chars(&alias),
            command: crate::text::string_from_chars(cmd),
            reason: crate::text::string_from_chars(&reason),
        };
        append_sugg(&mut out, s);
    }
    proof {
        assert(out.deep_view() =~~= combined_cands(cmd@));
    }
    out
}

/// Single-word tricks: short prefixes, the first-and-last characters, and
/// fixed names for known compound tools.
pub open spec fn single_word_cands(cmd: Seq<char>) -> Seq<SuggView> {
    let ws = words_of(cmd);
    if ws.len() != 1 {
        Seq::empty()
    } else {
        let tool = ws[0];
        if has_prefix(tool, "./"@) || has_prefix(tool, "../"@) {
            Seq::empty()
        } else {
            (if tool.len() > 3 {
                seq![
                    SuggView {
                        alias: tool.take(3),
                        command: cmd,
                        reason: "3-letter abbreviation"@,
                    },
                ]
            } else {
                Seq::empty()
            }) + (if tool.len() > 2 {
                seq![
                    SuggView {
                        alias: tool.take(2),
                        command: cmd,
                        reason: "2-letter abbreviation"@,
                    },
                ]
            } else {
                Seq::empty()
            }) + (if tool.len() > 2 {
                seq![
                    SuggView {
                        alias: seq![tool[0], tool[tool.len() - 1]],
                        command: cmd,
                        reason: "First-last character"@,
                    },
                ]
            } else {
                Seq::empty()
            }) + (if has_sub(tool, "git"@) {
                seq![SuggView { alias: "lg"@, command: cmd, reason: "LazyGit abbreviation"@ }]
            } else {
                Seq::empty()
            }) + (if has_sub(tool, "docker"@) {
                seq![SuggView { alias: "dk"@, command: cmd, reason: "Docker abbreviation"@ }]
            } else {
                Seq::empty()
            }) + (if has_sub(tool, "node"@) {
                seq![SuggView { alias: "nd"@, command: cmd, reason: "Node abbreviation"@ }]
            } else {
                Seq::empty()
            })
        }
    }
}

pub(crate) fn generate_single_word_aliases(cmd: &Vec<char>, ws: &Vec<Vec<char>>) -> (out: Vec<
    AliasSuggestion,
>)
    requires
        ws.deep_view() == words_of(cmd@),
    ensures
        out.deep_view() == single_word_cands(cmd@),
{
    let mut out: Vec<AliasSuggestion> = Vec::new();
    proof {
        assert(out.deep_view() =~~= Seq::<SuggView>::empty());
    }
    if ws.len() != 1 {
        return out;
    }
    let tool = &ws[0];
    proof {
        assert(ws.deep_view()[0] == ws@[0]@);
    }
    let dotslash = chars_of("./");
    let dotdotslash = chars_of("../");
    if chars_start_with(tool, &dotslash) || chars_start_with(tool, &dotdotslash) {
        return out;
    }
    if tool.len() > 3 {
        append_sugg(&mut out, sugg(take_chars(tool, 3), cmd, "3-letter abbreviation"));
    }
    if tool.len() > 2 {
        append_sugg(&mut out, sugg(take_chars(tool, 2), cmd, "2-letter abbreviation"));
        let mut fl: Vec<char> = Vec::new();
        fl.push(tool[0]);
        fl.push(tool[tool.len() - 1]);
        proof {
            assert(fl@ =~= seq![tool@[0], tool@[tool@.len() - 1]]);
        }
        append_sugg(&mut out, sugg(fl, cmd, "First-last character"));
    }
    let git = chars_of("git");
    if chars_contain(tool, &git) {
        append_sugg(&mut out, sugg(chars_of("lg"), cmd, "LazyGit abbreviation"));
    }
    let docker = chars_of("docker");
    if chars_contain(tool, &docker) {
        append_sugg(&mut out, sugg(chars_of("dk"), cmd, "Docker abbreviation"));
    }
    let node = chars_of("node");
    if chars_contain(tool, &node) {
        append_sugg(&mut out, sugg(chars_of("nd"), cmd, "Node abbreviation"));
    }
    proof {
        assert(out.deep_view() =~~= single_word_cands(cmd@));
    }
    out
}

/// The reason a truncation of `n` characters carries.
pub open spec fn trunc_reason(n: int) -> Seq<char> {
    if n == 2 {
        "Truncated to 2 chars"@
    } else if n == 3 {
        "Truncated to 3 chars"@
    } else if n == 4 {
        "Truncated to 4 chars"@
    } else {
        "Truncated to 5 chars"@
    }
}

/// The truncation ladder from `n` up to `top` characters of the tool word.
pub open spec fn trunc_from(tool: Seq<char>, cmd: Seq<char>, n: int, top: int) -> Seq<SuggView>
    decreases top + 1 - n,
{
    if n > top {
        Seq::empty()
    } else {
        (if n < tool.len() {
            seq![SuggView { alias: tool.take(n), command: cmd, reason: trunc_reason(n) }]
        } else {
            Seq::empty()
        }) + trunc_from(tool, cmd, n + 1, top)
    }
}

/// Truncation ladder: every prefix of the tool word from two characters up
/// to five, the full word excluded.
pub open spec fn truncated_cands(cmd: Seq<char>) -> Seq<SuggView> {
    let ws = words_of(cmd);
    if ws.len() == 0 {
        Seq::empty()
    } else {
        let tool = ws[0];
        let top = if tool.len() <= 5 {
            tool.len() as int
        } else {
            5
        };
        trunc_from(tool, cmd, 2, top)
    }
}

pub(crate) fn generate_truncated_aliases(cmd: &Vec<char>, ws: &Vec<Vec<char>>) -> (out: Vec<
    AliasSuggestion,
>)
    requires
        ws.deep_view() == words_of(cmd@),
    ensures
        out.deep_view() == truncated_cands(cmd@),
{
    let mut out: Vec<AliasSuggestion> = Vec::new();
    proof {
        assert(out.deep_view() =~~= Seq::<SuggView>::empty());
    }
    if ws.len() == 0 {
        return out;
    }
    let tool = &ws[0];
    proof {
        assert(ws.deep_view()[0] == ws@[0]@);
    }
    let top: usize = if tool.len() <= 5 {
        tool.len()
    } else {
        5
    };
    let mut n: usize = 2;
    proof {
        assert(truncated_cands(cmd@) =~~= out.deep_view() + trunc_from(tool@, cmd@, 2, top as int));
    }
    while n <= top
        invariant
            n == 2 || (2 <= n && n <= top + 1),
            top <= tool@.len(),
            top <= 5,
            ws.deep_view() == words_of(cmd@),
            ws.deep_view().len() == ws@.len(),
            ws@.len() > 0,
            tool@ == ws@[0]@,
            truncated_cands(cmd@) == out.deep_view() + trunc_from(tool@, cmd@, n as int, top as int),
        decreases top + 1 - n,
    {
        if n < tool.len() {
            let alias = take_chars(tool, n);
            let reason: &str = if n == 2 {
                "Truncated to 2 chars"
            } else if n == 3 {
                "Truncated to 3 chars"
            } else if n == 4 {
                "Truncated to 4 chars"
            } else {
                "Truncated to 5 chars"
            };
            let ghost dv = out.deep_view();
            append_sugg(&mut out, sugg(alias, cmd, reason));
            proof {
                assert(out.deep_view() =~~= dv + seq![
                    SuggView { alias: tool@.take(n as int), command: cmd@, reason: trunc_reason(n as int) },
                ]);
                assert(out.deep_view() + trunc_from(tool@, cmd@, n + 1, top as int)
                    =~~= truncated_cands(cmd@));
            }
        } else {
            proof {
                assert(out.deep_view() + trunc_from(tool@, cmd@, n + 1, top as int)
                    =~~= truncated_cands(cmd@));
            }
        }
        n = n + 1;
    }
    proof {
        assert(trunc_from(tool@, cmd@, n as int, top as int) =~~= Seq::<SuggView>::empty());
        assert(out.deep_view() =~~= truncated_cands(cmd@));
    }
    out
}

/// The path segment after the last `/`, the whole string when none occurs.
pub open spec fn after_last_slash(t: Seq<char>) -> Seq<char>
    decreases t.len(),
{
    if t.len() == 0 {
        t
    } else if t[t.len() - 1] == '/' {
        Seq::empty()
    } else {
        after_last_slash(t.drop_last()).push(t[t.len() - 1])
    }
}

proof fn lemma_after_last_slash(t: Seq<char>, cut: int)
    requires
        0 <= cut <= t.len(),
        cut > 0 ==> t[cut - 1] == '/',
        forall|j: int| cut <= j < t.len() ==> t[j] != '/',
    ensures
        after_last_slash(t) =~= t.skip(cut),
    decreases t.len(),
{
    if t.len() == 0 {
    } else if t[t.len() - 1] == '/' {
        assert(cut == t.len());
    } else {
        assert(cut < t.len());
        assert(forall|j: int| cut <= j < t.drop_last().len() ==> t.drop_last()[j] != '/');
        lemma_after_last_slash(t.drop_last(), cut);
    }
}

fn after_last_slash_exec(t: &Vec<char>) -> (r: Vec<char>)
    ensures
        r@ == after_last_slash(t@),
{
    let mut cut: usize = 0;
    let mut i: usize = 0;
    while i < t.len()
        invariant
            cut <= i <= t@.len(),
            cut > 0 ==> t@[cut - 1] == '/',
            forall|j: int| cut <= j < i ==> t@[j] != '/',
        decreases t@.len() - i,
    {
        if t[i] == '/' {
            cut = i + 1;
        }
        i = i + 1;
    }
    proof {
        lemma_after_last_slash(t@, cut as int);
    }
    skip_chars(t, cut)
}

/// The host name up to its first dot.
pub open spec fn before_dot(h: Seq<char>) -> Seq<char>
    decreases h.len(),
{
    if h.len() == 0 {
        h
    } else if h[0] == '.' {
        Seq::empty()
    } else {
        seq![h[0]] + before_dot(h.drop_first())
    }
}

proof fn lemma_before_dot(h: Seq<char>, k: int)
    requires
        0 <= k <= h.len(),
        forall|j: int| 0 <= j < k ==> h[j] != '.',
        k < h.len() ==> h[k] == '.',
    ensures
        before_dot(h) =~= h.take(k),
    decreases h.len(),
{
    if h.len() == 0 {
    } else if h[0] == '.' {
        assert(k == 0);
    } else {
        assert(k >= 1);
        assert(forall|j: int| 0 <= j < k - 1 ==> h.drop_first()[j] == h[j + 1]);
        lemma_before_dot(h.drop_first(), k - 1);
        assert(h.drop_first().take(k - 1) =~= h.take(k).drop_first());
        assert(before_dot(h) =~= h.take(k));
    }
}

fn before_dot_exec(h: &Vec<char>) -> (r: Vec<char>)
    ensures
        r@ == before_dot(h@),
{
    let mut k: usize = 0;
    while k < h.len() && h[k] != '.'
        invariant
            k <= h@.len(),
            forall|j: int| 0 <= j < k ==> h@[j] != '.',
        decreases h@.len() - k,
    {
        k = k + 1;
    }
    proof {
        lemma_before_dot(h@, k as int);
    }
    take_chars(h, k)
}

/// A candidate list out of an optional table hit.
pub open spec fn opt_cands(o: Option<SuggView>) -> Seq<SuggView> {
    match o {
        Some(s) => seq![s],
        None => Seq::empty(),
    }
}

/// The version-control tool's semantic table.
pub open spec fn git_alias(ws: Seq<Seq<char>>) -> Option<SuggView> {
    let sub = ws[1];
    if sub == "status"@ {
        Some(SuggView { alias: "gs"@, command: "git status"@, reason: "Git status"@ })
    } else if sub == "add"@ {
        if ws.len() >= 3 && ws[2] == "."@ {
            Some(SuggView { alias: "gaa"@, command: "git add ."@, reason: "Git add all"@ })
        } else {
            Some(SuggView { alias: "ga"@, command: "git add"@, reason: "Git add"@ })
        }
    } else if sub == "commit"@ {
        if ws.len() >= 4 && ws[2] == "-m"@ {
            Some(
                SuggView {
                    alias: "gcm"@,
                    command: "git commit -m \""@ + ws[3] + "\""@,
                    reason: "Git commit with message"@,
                },
            )
        } else {
            Some(SuggView { alias: "gc"@, command: "git commit"@, reason: "Git commit"@ })
        }
    } else if sub == "checkout"@ {
        if ws.len() >= 4 && ws[2] == "-b"@ {
            Some(
                SuggView {
                    alias: "gcb"@,
                    command: "git checkout -b "@ + ws[3],
                    reason: "Git checkout new branch"@,
                },
            )
        } else {
            Some(SuggView { alias: "gco"@, command: "git checkout"@, reason: "Git checkout"@ })
        }
    } else if sub == "push"@ {
        Some(SuggView { alias: "gp"@, command: "git push"@, reason: "Git push"@ })
    } else if sub == "pull"@ {
        Some(SuggView { alias: "gl"@, command: "git pull"@, reason: "Git pull"@ })
    } else if sub == "log"@ {
        Some(SuggView { alias: "glg"@, command: "git log"@, reason: "Git log"@ })
    } else if sub == "branch"@ {
        Some(SuggView { alias: "gb"@, command: "git branch"@, reason: "Git branch"@ })
    } else {
        None
    }
}

/// The container tool's semantic table.
pub open spec fn docker_alias(ws: Seq<Seq<char>>) -> Option<SuggView> {
    let sub = ws[1];
    if sub == "ps"@ {
        Some(SuggView { alias: "dps"@, command: "docker ps"@, reason: "Docker ps"@ })
    } else if sub == "run"@ {
        Some(SuggView { alias: "dr"@, command: "docker run"@, reason: "Docker run"@ })
    } else if sub == "build"@ {
        Some(SuggView { alias: "db"@, command: "docker build"@, reason: "Docker build"@ })
    } else if sub == "exec"@ {
        Some(SuggView { alias: "de"@, command: "docker exec"@, reason: "Docker exec"@ })
    } else if sub == "rm"@ {
        Some(SuggView { alias: "drm"@, command: "docker rm"@, reason: "Docker rm"@ })
    } else if sub == "rmi"@ {
        Some(SuggView { alias: "drmi"@, command: "docker rmi"@, reason: "Docker rmi"@ })
    } else {
        None
    }
}

/// The package manager's semantic table.
pub open spec fn npm_alias(ws: Seq<Seq<char>>) -> Option<SuggView> {
    let sub = ws[1];
    if sub == "install"@ {
        Some(SuggView { alias: "ni"@, command: "npm install"@, reason: "NPM install"@ })
    } else if sub == "run"@ {
        Some(SuggView { alias: "nr"@, command: "npm run"@, reason: "NPM run"@ })
    } else if sub == "start"@ {
        Some(SuggView { alias: "ns"@, command: "npm start"@, reason: "NPM start"@ })
    } else if sub == "test"@ {
        Some(SuggView { alias: "nt"@, command: "npm test"@, reason: "NPM test"@ })
    } else if sub == "publish"@ {
        Some(SuggView { alias: "np"@, command: "npm publish"@, reason: "NPM publish"@ })
    } else {
        None
    }
}

/// The remote-login semantic rule: a shortened host name.
pub open spec fn ssh_alias(ws: Seq<Seq<char>>) -> Option<SuggView> {
    let host = ws[1];
    let short = before_dot(host);
    if short.len() >= 2 {
        Some(SuggView { alias: short, command: "ssh "@ + host, reason: "SSH to "@ + host })
    } else {
        None
    }
}

/// The tool-specific semantic hit, where a table covers the tool.
pub open spec fn tool_specific_cands(ws: Seq<Seq<char>>) -> Seq<SuggView> {
    if ws.len() < 2 {
        Seq::empty()
    } else if ws[0] == "git"@ {
        opt_cands(git_alias(ws))
    } else if ws[0] == "docker"@ {
        opt_cands(docker_alias(ws))
    } else if ws[0] == "npm"@ {
        opt_cands(npm_alias(ws))
    } else if ws[0] == "ssh"@ {
        opt_cands(ssh_alias(ws))
    } else {
        Seq::empty()
    }
}

/// The generic first-letter-plus-subcommand combination.
pub open spec fn general_comb_cands(cmd: Seq<char>, ws: Seq<Seq<char>>) -> Seq<SuggView> {
    if ws.len() >= 2 {
        seq![
            SuggView { alias: glued(ws[0], ws[1]), command: cmd, reason: comb_reason(ws[0], ws[1]) },
        ]
    } else {
        Seq::empty()
    }
}

/// Candidates for a command run through a relative path: the executable's
/// base name, its three-letter prefix, and the name-plus-argument glue.
pub open spec fn relative_cands(cmd: Seq<char>, ws: Seq<Seq<char>>) -> Seq<SuggView> {
    let exe = after_last_slash(ws[0]);
    (if has_suffix(exe, ".exe"@) {
        seq![
            SuggView {
                alias: exe.take(exe.len() - ".exe"@.len()),
                command: cmd,
                reason: "Executable name"@,
            },
        ]
    } else {
        seq![SuggView { alias: exe, command: cmd, reason: "Executable name"@ }]
    }) + (if exe.len() > 2 {
        seq![SuggView { alias: exe.take(3), command: cmd, reason: "Executable abbreviation"@ }]
    } else {
        Seq::empty()
    }) + (if ws.len() >= 2 {
        seq![SuggView { alias: glued(exe, ws[1]), command: cmd, reason: comb_reason(exe, ws[1]) }]
    } else {
        Seq::empty()
    })
}

/// Semantic tool mapping: fixed lookup tables for common tools, the
/// relative-path rules, and the generic tool-plus-subcommand fallback.
pub open spec fn semantic_cands(cmd: Seq<char>) -> Seq<SuggView> {
    let ws = words_of(cmd);
    if ws.len() == 0 {
        Seq::empty()
    } else if has_prefix(ws[0], "./"@) || has_prefix(ws[0], "../"@) {
        relative_cands(cmd, ws)
    } else {
        tool_specific_cands(ws) + general_comb_cands(cmd, ws)
    }
}

/// Whether `w` spells exactly the literal `lit`.
fn word_is(w: &Vec<char>, lit: &str) -> (r: bool)
    ensures
        r == (w@ == lit@),
{
    let lc = chars_of(lit);
    chars_eq(w, &lc)
}

/// Builds a suggestion whose three parts are all fixed.
fn sugg_lits(alias: &str, command: &str, reason: &str) -> (s: AliasSuggestion)
    ensures
        s@ == (SuggView { alias: alias@, command: command@, reason: reason@ }),
{
    AliasSuggestion {
        alias: String::from_str(alias),
        command: String::from_str(command),
        reason: String::from_str(reason),
    }
}

#[verifier::rlimit(80)]
pub(crate) fn generate_semantic_aliases(cmd: &Vec<char>, ws: &Vec<Vec<char>>) -> (out: Vec<
    AliasSuggestion,
>)
    requires
        ws.deep_view() == words_of(cmd@),
    ensures
        out.deep_view() == semantic_cands(cmd@),
{
    let ghost wsv = ws.deep_view();
    let mut out: Vec<AliasSuggestion> = Vec::new();
    proof {
        assert(out.deep_view() =~~= Seq::<SuggView>::empty());
    }
    if ws.len() == 0 {
        return out;
    }
    proof {
        assert(wsv[0] == ws@[0]@);
    }
    let dotslash = chars_of("./");
    let dotdotslash = chars_of("../");
    if chars_start_with(&ws[0], &dotslash) || chars_start_with(&ws[0], &dotdotslash) {
        let exe = after_last_slash_exec(&ws[0]);
        let dotexe = chars_of(".exe");
        if chars_end_with(&exe, &dotexe) {
            proof {
                reveal_strlit(".exe");
            }
            let alias = take_chars(&exe, exe.len() - dotexe.len());
            append_sugg(&mut out, sugg(alias, cmd, "Executable name"));
        } else {
            let alias = take_chars(&exe, exe.len());
            proof {
                assert(alias@ =~= exe@);
            }
            append_sugg(&mut out, sugg(alias, cmd, "Executable name"));
        }
        if exe.len() > 2 {
            append_sugg(&mut out, sugg(take_chars(&exe, 3), cmd, "Executable abbreviation"));
        }
        if ws.len() >= 2 {
            proof {
                assert(wsv[1] == ws@[1]@);
            }
            let alias = glued_exec(&exe, &ws[1]);
            let reason = comb_reason_exec(&exe, &ws[1]);
            let s = AliasSuggestion {
                alias: crate::text::string_from_chars(&alias),
                command: crate::text::string_from_chars(cmd),
                reason: crate::text::string_from_chars(&reason),
            };
            append_sugg(&mut out, s);
        }
        proof {
            assert(out.deep_view() =~~= semantic_cands(cmd@));
        }
        return out;
    }
    if ws.len() >= 2 {
        proof {
            assert(wsv[1] == ws@[1]@);
            if wsv.len() >= 3 {
                assert(wsv[2] == ws@[2]@);
            }
            if wsv.len() >= 4 {
                assert(wsv[3] == ws@[3]@);
            }
        }
        if word_is(&ws[0], "git") {
            if word_is(&ws[1], "status") {
                append_sugg(&mut out, sugg_lits("gs", "git status", "Git status"));
            } else if word_is(&ws[1], "add") {
                if ws.len() >= 3 && word_is(&ws[2], ".") {
                    append_sugg(&mut out, sugg_lits("gaa", "git add .", "Git add all"));
                } else {
                    append_sugg(&mut out, sugg_lits("ga", "git add", "Git add"));
                }
            } else if word_is(&ws[1], "commit") {
                if ws.len() >= 4 && word_is(&ws[2], "-m") {
                    let mut c = chars_of("git commit -m \"");
                    extend_chars(&mut c, &ws[3]);
                    let q = chars_of("\"");
                    extend_chars(&mut c, &q);
                    let s = AliasSuggestion {
                        alias: String::from_str("gcm"),
                        command: crate::text::string_from_chars(&c),
                        reason: String::from_str("Git commit with message"),
                    };
                    append_sugg(&mut out, s);
                } else {
                    append_sugg(&mut out, sugg_lits("gc", "git commit", "Git commit"));
                }
            } else if word_is(&ws[1], "checkout") {
                if ws.len() >= 4 && word_is(&ws[2], "-b") {
                    let mut c = chars_of("git checkout -b ");
                    extend_chars(&mut c, &ws[3]);
                    let s = AliasSuggestion {
                        alias: String::from_str("gcb"),
                        command: crate::text::string_from_chars(&c),
                        reason: String::from_str("Git checkout new branch"),
                    };
                    append_sugg(&mut out, s);
                } else {
                    append_sugg(&mut out, sugg_lits("gco", "git checkout", "Git checkout"));
                }
            } else if word_is(&ws[1], "push") {
                append_sugg(&mut out, sugg_lits("gp", "git push", "Git push"));
            } else if word_is(&ws[1], "pull") {
                append_sugg(&mut out, sugg_lits("gl", "git pull", "Git pull"));
            } else if word_is(&ws[1], "log") {
                append_sugg(&mut out, sugg_lits("glg", "git log", "Git log"));
            } else if word_is(&ws[1], "branch") {
                append_sugg(&mut out, sugg_lits("gb", "git branch", "Git branch"));
            }
        } else if word_is(&ws[0], "docker") {
            if word_is(&ws[1], "ps") {
                append_sugg(&mut out, sugg_lits("dps", "docker ps", "Docker ps"));
            } else if word_is(&ws[1], "run") {
                append_sugg(&mut out, sugg_lits("dr", "docker run", "Docker run"));
            } else if word_is(&ws[1], "build") {
                append_sugg(&mut out, sugg_lits("db", "docker build", "Docker build"));
            } else if word_is(&ws[1], "exec") {
                append_sugg(&mut out, sugg_lits("de", "docker exec", "Docker exec"));
            } else if word_is(&ws[1], "rm") {
                append_sugg(&mut out, sugg_lits("drm", "docker rm", "Docker rm"));
            } else if word_is(&ws[1], "rmi") {
                append_sugg(&mut out, sugg_lits("drmi", "docker rmi", "Docker rmi"));
            }
        } else if word_is(&ws[0], "npm") {
            if word_is(&ws[1], "install") {
                append_sugg(&mut out, sugg_lits("ni", "npm install", "NPM install"));
            } else if word_is(&ws[1], "run") {
                append_sugg(&mut out, sugg_lits("nr", "npm run", "NPM run"));
            } else if word_is(&ws[1], "start") {
                append_sugg(&mut out, sugg_lits("ns", "npm start", "NPM start"));
            } else if word_is(&ws[1], "test") {
                append_sugg(&mut out, sugg_lits("nt", "npm test", "NPM test"));
            } else if word_is(&ws[1], "publish") {
                append_sugg(&mut out, sugg_lits("np", "npm publish", "NPM publish"));
            }
        } else if word_is(&ws[0], "ssh") {
            let short = before_dot_exec(&ws[1]);
            if short.len() >= 2 {
                let mut c = chars_of("ssh ");
                extend_chars(&mut c, &ws[1]);
                let mut reason = chars_of("SSH to ");
                extend_chars(&mut reason, &ws[1]);
                let s = AliasSuggestion {
                    alias: crate::text::string_from_chars(&short),
                    command: crate::text::string_from_chars(&c),
                    reason: crate::text::string_from_chars(&reason),
                };
                append_sugg(&mut out, s);
            }
        }
        proof {
            assert(out.deep_view() =~~= tool_specific_cands(wsv));
        }
        let alias = glued_exec(&ws[0], &ws[1]);
        let reason = comb_reason_exec(&ws[0], &ws[1]);
        let s = AliasSuggestion {
            alias: crate::text::string_from_chars(&alias),
            command: crate::text::string_from_chars(cmd),
            reason: crate::text::string_from_chars(&reason),
        };
        append_sugg(&mut out, s);
        proof {
            assert(out.deep_view() =~~= semantic_cands(cmd@));
        }
    } else {
        proof {
            assert(out.deep_view() =~~= semantic_cands(cmd@));
        }
    }
    out
}

/// Concatenation of one per-word generator over all words.
pub open spec fn concat_word_cands(
    f: spec_fn(Seq<char>) -> Seq<SuggView>,
    ws: Seq<Seq<char>>,
) -> Seq<SuggView>
    decreases ws.len(),
{
    if ws.len() == 0 {
        Seq::empty()
    } else {
        f(ws[0]) + concat_word_cands(f, ws.drop_first())
    }
}

proof fn lemma_concat_word_cands_push(
    f: spec_fn(Seq<char>) -> Seq<SuggView>,
    ws: Seq<Seq<char>>,
    w: Seq<char>,
)
    ensures
        concat_word_cands(f, ws.push(w)) =~~= concat_word_cands(f, ws) + f(w),
    decreases ws.len(),
{
    if ws.len() == 0 {
        assert(ws.push(w).drop_first() =~~= ws);
    } else {
        assert(ws.push(w).drop_first() =~~= ws.drop_first().push(w));
        lemma_concat_word_cands_push(f, ws.drop_first(), w);
    }
}

/// The syllable-initials candidate one word yields.
pub open spec fn syllable_word_cands(w: Seq<char>, cmd: Seq<char>) -> Seq<SuggView> {
    if w.len() > 3 {
        let syls = syllables_of(w);
        if syls.len() >= 2 {
            let ini = first_letters(syls);
            if 2 <= ini.len() <= 4 {
                seq![SuggView { alias: ini, command: cmd, reason: "Syllable-based"@ }]
            } else {
                Seq::empty()
            }
        } else {
            Seq::empty()
        }
    } else {
        Seq::empty()
    }
}

/// Syllable initials: the first character of each vowel/consonant run.
pub open spec fn syllable_cands(cmd: Seq<char>) -> Seq<SuggView> {
    concat_word_cands(|w: Seq<char>| syllable_word_cands(w, cmd), words_of(cmd))
}

/// The fixed ordered phonetic substitutions applied to one word.
pub open spec fn phonetic_of(w: Seq<char>) -> Seq<char> {
    replace_all(
        replace_all(
            replace_all(
                replace_all(
                    replace_all(replace_all(replace_all(w, "ph"@, "f"@), "ck"@, "k"@), "qu"@, "kw"@),
                    "x"@,
                    "ks"@,
                ),
                "ch"@,
                "c"@,
            ),
            "sh"@,
            "s"@,
        ),
        "th"@,
        "t"@,
    )
}

fn phonetic_exec(w: &Vec<char>) -> (r: Vec<char>)
    ensures
        r@ == phonetic_of(w@),
{
    proof {
        reveal_strlit("ph");
        reveal_strlit("ck");
        reveal_strlit("qu");
        reveal_strlit("x");
        reveal_strlit("ch");
        reveal_strlit("sh");
        reveal_strlit("th");
    }
    let r = replace_all_exec(w, &chars_of("ph"), &chars_of("f"));
    let r = replace_all_exec(&r, &chars_of("ck"), &chars_of("k"));
    let r = replace_all_exec(&r, &chars_of("qu"), &chars_of("kw"));
    let r = replace_all_exec(&r, &chars_of("x"), &chars_of("ks"));
    let r = replace_all_exec(&r, &chars_of("ch"), &chars_of("c"));
    let r = replace_all_exec(&r, &chars_of("sh"), &chars_of("s"));
    let r = replace_all_exec(&r, &chars_of("th"), &chars_of("t"));
    r
}

/// The phonetic candidate one word yields.
pub open spec fn phonetic_word_cands(w: Seq<char>, cmd: Seq<char>) -> Seq<SuggView> {
    if w.len() > 2 {
        let p = phonetic_of(w);
        if p != w && 2 <= p.len() <= 6 {
            seq![SuggView { alias: p, command: cmd, reason: "Phonetic"@ }]
        } else {
            Seq::empty()
        }
    } else {
        Seq::empty()
    }
}

/// Phonetic substitution applied per word, kept only when it changed the
/// word and stays between two and six characters.
pub open spec fn phonetic_cands(cmd: Seq<char>) -> Seq<SuggView> {
    concat_word_cands(|w: Seq<char>| phonetic_word_cands(w, cmd), words_of(cmd))
}

/// The keyboard-skip candidate one word yields.
pub open spec fn keyboard_word_cands(w: Seq<char>, cmd: Seq<char>) -> Seq<SuggView> {
    if w.len() > 2 {
        let p = every_other(w);
        if 2 <= p.len() <= 4 {
            seq![SuggView { alias: p, command: cmd, reason: "Keyboard pattern"@ }]
        } else {
            Seq::empty()
        }
    } else {
        Seq::empty()
    }
}

/// Keyboard-skip pattern: every other character of each word.
pub open spec fn keyboard_cands(cmd: Seq<char>) -> Seq<SuggView> {
    concat_word_cands(|w: Seq<char>| keyboard_word_cands(w, cmd), words_of(cmd))
}

/// One affix-strip candidate: the word without the given prefix.
pub open spec fn strip_prefix_cand(
    w: Seq<char>,
    cmd: Seq<char>,
    pat: Seq<char>,
    reason: Seq<char>,
) -> Seq<SuggView> {
    if has_prefix(w, pat) && w.len() - pat.len() >= 2 {
        seq![SuggView { alias: w.skip(pat.len() as int), command: cmd, reason: reason }]
    } else {
        Seq::empty()
    }
}

/// One affix-strip candidate: the word without the given suffix.
pub open spec fn strip_suffix_cand(
    w: Seq<char>,
    cmd: Seq<char>,
    pat: Seq<char>,
    reason: Seq<char>,
) -> Seq<SuggView> {
    if has_suffix(w, pat) && w.len() - pat.len() >= 2 {
        seq![SuggView { alias: w.take(w.len() - pat.len()), command: cmd, reason: reason }]
    } else {
        Seq::empty()
    }
}

/// The prefix-strip candidates one word yields, in the fixed list order.
pub open spec fn prefix_strip_cands(w: Seq<char>, cmd: Seq<char>) -> Seq<SuggView> {
    strip_prefix_cand(w, cmd, "un"@, "Remove prefix 'un'"@) + strip_prefix_cand(
        w,
        cmd,
        "re"@,
        "Remove prefix 're'"@,
    ) + strip_prefix_cand(w, cmd, "pre"@, "Remove prefix 'pre'"@) + strip_prefix_cand(
        w,
        cmd,
        "post"@,
        "Remove prefix 'post'"@,
    ) + strip_prefix_cand(w, cmd, "anti"@, "Remove prefix 'anti'"@) + strip_prefix_cand(
        w,
        cmd,
        "pro"@,
        "Remove prefix 'pro'"@,
    ) + strip_prefix_cand(w, cmd, "sub"@, "Remove prefix 'sub'"@) + strip_prefix_cand(
        w,
        cmd,
        "super"@,
        "Remove prefix 'super'"@,
    ) + strip_prefix_cand(w, cmd, "inter"@, "Remove prefix 'inter'"@)
}

/// The suffix-strip candidates one word yields, in the fixed list order.
pub open spec fn suffix_strip_cands(w: Seq<char>, cmd: Seq<char>) -> Seq<SuggView> {
    strip_suffix_cand(w, cmd, "ing"@, "Remove suffix 'ing'"@) + strip_suffix_cand(
        w,
        cmd,
        "ed"@,
        "Remove suffix 'ed'"@,
    ) + strip_suffix_cand(w, cmd, "er"@, "Remove suffix 'er'"@) + strip_suffix_cand(
        w,
        cmd,
        "est"@,
        "Remove suffix 'est'"@,
    ) + strip_suffix_cand(w, cmd, "ly"@, "Remove suffix 'ly'"@) + strip_suffix_cand(
        w,
        cmd,
        "tion"@,
        "Remove suffix 'tion'"@,
    ) + strip_suffix_cand(w, cmd, "sion"@, "Remove suffix 'sion'"@) + strip_suffix_cand(
        w,
        cmd,
        "ment"@,
        "Remove suffix 'ment'"@,
    )
}

/// The affix-strip candidates one word yields: each listed prefix, then
/// each listed suffix.
pub open spec fn affix_word_cands(w: Seq<char>, cmd: Seq<char>) -> Seq<SuggView> {
    if w.len() > 3 {
        prefix_strip_cands(w, cmd) + suffix_strip_cands(w, cmd)
    } else {
        Seq::empty()
    }
}

#[verifier::rlimit(80)]
fn prefix_steps(out: &mut Vec<AliasSuggestion>, w: &Vec<char>, cmd: &Vec<char>)
    ensures
        final(out).deep_view() == old(out).deep_view() + prefix_strip_cands(w@, cmd@),
{
    strip_prefix_step(out, w, cmd, "un", "Remove prefix 'un'");
    proof {
        assert(out.deep_view() =~~= old(out).deep_view() + strip_prefix_cand(
            w@,
            cmd@,
            "un"@,
            "Remove prefix 'un'"@,
        ));
    }
    strip_prefix_step(out, w, cmd, "re", "Remove prefix 're'");
    strip_prefix_step(out, w, cmd, "pre", "Remove prefix 'pre'");
    strip_prefix_step(out, w, cmd, "post", "Remove prefix 'post'");
    strip_prefix_step(out, w, cmd, "anti", "Remove prefix 'anti'");
    strip_prefix_step(out, w, cmd, "pro", "Remove prefix 'pro'");
    strip_prefix_step(out, w, cmd, "sub", "Remove prefix 'sub'");
    strip_prefix_step(out, w, cmd, "super", "Remove prefix 'super'");
    strip_prefix_step(out, w, cmd, "inter", "Remove prefix 'inter'");
    proof {
        assert(out.deep_view() =~~= old(out).deep_view() + prefix_strip_cands(w@, cmd@));
    }
}

#[verifier::rlimit(80)]
fn suffix_steps(out: &mut Vec<AliasSuggestion>, w: &Vec<char>, cmd: &Vec<char>)
    ensures
        final(out).deep_view() == old(out).deep_view() + suffix_strip_cands(w@, cmd@),
{
    strip_suffix_step(out, w, cmd, "ing", "Remove suffix 'ing'");
    proof {
        assert(out.deep_view() =~~= old(out).deep_view() + strip_suffix_cand(
            w@,
            cmd@,
            "ing"@,
            "Remove suffix 'ing'"@,
        ));
    }
    strip_suffix_step(out, w, cmd, "ed", "Remove suffix 'ed'");
    strip_suffix_step(out, w, cmd, "er", "Remove suffix 'er'");
    strip_suffix_step(out, w, cmd, "est", "Remove suffix 'est'");
    strip_suffix_step(out, w, cmd, "ly", "Remove suffix 'ly'");
    strip_suffix_step(out, w, cmd, "tion", "Remove suffix 'tion'");
    strip_suffix_step(out, w, cmd, "sion", "Remove suffix 'sion'");
    strip_suffix_step(out, w, cmd, "ment", "Remove suffix 'ment'");
    proof {
        assert(out.deep_view() =~~= old(out).deep_view() + suffix_strip_cands(w@, cmd@));
    }
}

/// Prefix and suffix stripping over every word.
pub open spec fn affix_cands(cmd: Seq<char>) -> Seq<SuggView> {
    concat_word_cands(|w: Seq<char>| affix_word_cands(w, cmd), words_of(cmd))
}

/// The pattern-collapse candidates one word yields: adjacent duplicates
/// collapsed, and the first three consonants of a longer word.
pub open spec fn pattern_word_cands(w: Seq<char>, cmd: Seq<char>) -> Seq<SuggView> {
    if w.len() > 3 {
        (if collapse_adjacent(w).len() >= 2 && collapse_adjacent(w) != w {
            seq![
                SuggView { alias: collapse_adjacent(w), command: cmd, reason: "Remove duplicates"@ },
            ]
        } else {
            Seq::empty()
        }) + (if w.len() > 4 && consonants_of(w).len() >= 3 {
            seq![
                SuggView {
                    alias: consonants_of(w).take(3),
                    command: cmd,
                    reason: "Smart consonants"@,
                },
            ]
        } else {
            Seq::empty()
        })
    } else {
        Seq::empty()
    }
}

/// Duplicate-letter collapse and smart consonants over every word.
pub open spec fn pattern_cands(cmd: Seq<char>) -> Seq<SuggView> {
    concat_word_cands(|w: Seq<char>| pattern_word_cands(w, cmd), words_of(cmd))
}

/// The characters of `w` with the first `n` dropped.
pub(crate) fn skip_chars(w: &Vec<char>, n: usize) -> (r: Vec<char>)
    requires
        n <= w@.len(),
    ensures
        r@ == w@.skip(n as int),
{
    let mut r: Vec<char> = Vec::new();
    let mut i: usize = n;
    proof {
        assert(r@ =~= w@.subrange(n as int, n as int));
    }
    while i < w.len()
        invariant
            n <= i <= w@.len(),
            r@ == w@.subrange(n as int, i as int),
        decreases w@.len() - i,
    {
        r.push(w[i]);
        proof {
            assert(r@ =~= w@.subrange(n as int, i + 1));
        }
        i = i + 1;
    }
    proof {
        assert(w@.subrange(n as int, w@.len() as int) =~= w@.skip(n as int));
    }
    r
}

fn strip_prefix_step(
    out: &mut Vec<AliasSuggestion>,
    w: &Vec<char>,
    cmd: &Vec<char>,
    pat: &str,
    reason: &str,
)
    ensures
        final(out).deep_view() == old(out).deep_view() + strip_prefix_cand(
            w@,
            cmd@,
            pat@,
            reason@,
        ),
{
    let pc = chars_of(pat);
    if chars_start_with(w, &pc) && w.len() - pc.len() >= 2 {
        let alias = skip_chars(w, pc.len());
        append_sugg(out, sugg(alias, cmd, reason));
        proof {
            assert(out.deep_view() =~~= old(out).deep_view() + strip_prefix_cand(
                w@,
                cmd@,
                pat@,
                reason@,
            ));
        }
    } else {
        proof {
            assert(out.deep_view() =~~= old(out).deep_view() + strip_prefix_cand(
                w@,
                cmd@,
                pat@,
                reason@,
            ));
        }
    }
}

fn strip_suffix_step(
    out: &mut Vec<AliasSuggestion>,
    w: &Vec<char>,
    cmd: &Vec<char>,
    pat: &str,
    reason: &str,
)
    ensures
        final(out).deep_view() == old(out).deep_view() + strip_suffix_cand(
            w@,
            cmd@,
            pat@,
            reason@,
        ),
{
    let pc = chars_of(pat);
    if chars_end_with(w, &pc) && w.len() - pc.len() >= 2 {
        let alias = take_chars(w, w.len() - pc.len());
        append_sugg(out, sugg(alias, cmd, reason));
        proof {
            assert(out.deep_view() =~~= old(out).deep_view() + strip_suffix_cand(
                w@,
                cmd@,
                pat@,
                reason@,
            ));
        }
    } else {
        proof {
            assert(out.deep_view() =~~= old(out).deep_view() + strip_suffix_cand(
                w@,
                cmd@,
                pat@,
                reason@,
            ));
        }
    }
}

#[verifier::rlimit(80)]
pub(crate) fn generate_smart_prefix_aliases(cmd: &Vec<char>, ws: &Vec<Vec<char>>) -> (out: Vec<
    AliasSuggestion,
>)
    requires
        ws.deep_view() == words_of(cmd@),
    ensures
        out.deep_view() == affix_cands(cmd@),
{
    let ghost f = |w: Seq<char>| affix_word_cands(w, cmd@);
    let mut out: Vec<AliasSuggestion> = Vec::new();
    let mut i: usize = 0;
    proof {
        assert(out.deep_view() =~~= concat_word_cands(f, ws.deep_view().take(0)));
    }
    while i < ws.len()
        invariant
            i <= ws@.len(),
            ws.deep_view() == words_of(cmd@),
            ws.deep_view().len() == ws@.len(),
            out.deep_view() == concat_word_cands(f, ws.deep_view().take(i as int)),
            f == (|w: Seq<char>| affix_word_cands(w, cmd@)),
        decreases ws@.len() - i,
    {
        let w = &ws[i];
        proof {
            assert(ws.deep_view()[i as int] == ws@[i as int]@);
            assert(ws.deep_view().take(i + 1) =~~= ws.deep_view().take(i as int).push(
                ws.deep_view()[i as int],
            ));
            lemma_concat_word_cands_push(f, ws.deep_view().take(i as int), ws.deep_view()[i as int]);
        }
        let ghost before = out.deep_view();
        if w.len() > 3 {
            prefix_steps(&mut out, w, cmd);
            suffix_steps(&mut out, w, cmd);
            proof {
                assert(out.deep_view() =~~= before + f(ws.deep_view()[i as int]));
            }
        } else {
            proof {
                assert(out.deep_view() =~~= before + f(ws.deep_view()[i as int]));
            }
        }
        i = i + 1;
    }
    proof {
        assert(ws.deep_view().take(ws@.len() as int) =~~= ws.deep_view());
    }
    out
}

pub(crate) fn generate_syllable_aliases(cmd: &Vec<char>, ws: &Vec<Vec<char>>) -> (out: Vec<
    AliasSuggestion,
>)
    requires
        ws.deep_view() == words_of(cmd@),
    ensures
        out.deep_view() == syllable_cands(cmd@),
{
    let ghost f = |w: Seq<char>| syllable_word_cands(w, cmd@);
    let mut out: Vec<AliasSuggestion> = Vec::new();
    let mut i: usize = 0;
    proof {
        assert(out.deep_view() =~~= concat_word_cands(f, ws.deep_view().take(0)));
    }
    while i < ws.len()
        invariant
            i <= ws@.len(),
            ws.deep_view() == words_of(cmd@),
            ws.deep_view().len() == ws@.len(),
            out.deep_view() == concat_word_cands(f, ws.deep_view().take(i as int)),
            f == (|w: Seq<char>| syllable_word_cands(w, cmd@)),
        decreases ws@.len() - i,
    {
        let w = &ws[i];
        proof {
            assert(ws.deep_view()[i as int] == ws@[i as int]@);
            assert(ws.deep_view().take(i + 1) =~~= ws.deep_view().take(i as int).push(
                ws.deep_view()[i as int],
            ));
            lemma_concat_word_cands_push(f, ws.deep_view().take(i as int), ws.deep_view()[i as int]);
        }
        let ghost before = out.deep_view();
        if w.len() > 3 {
            let syls = syllables_exec(w);
            if syls.len() >= 2 {
                let ini = first_letters_exec(&syls);
                if ini.len() >= 2 && ini.len() <= 4 {
                    append_sugg(&mut out, sugg(ini, cmd, "Syllable-based"));
                }
            }
        }
        proof {
            assert(out.deep_view() =~~= before + f(ws.deep_view()[i as int]));
        }
        i = i + 1;
    }
    proof {
        assert(ws.deep_view().take(ws@.len() as int) =~~= ws.deep_view());
    }
    out
}

pub(crate) fn generate_phonetic_aliases(cmd: &Vec<char>, ws: &Vec<Vec<char>>) -> (out: Vec<
    AliasSuggestion,
>)
    requires
        ws.deep_view() == words_of(cmd@),
    ensures
        out.deep_view() == phonetic_cands(cmd@),
{
    let ghost f = |w: Seq<char>| phonetic_word_cands(w, cmd@);
    let mut out: Vec<AliasSuggestion> = Vec::new();
    let mut i: usize = 0;
    proof {
        assert(out.deep_view() =~~= concat_word_cands(f, ws.deep_view().take(0)));
    }
    while i < ws.len()
        invariant
            i <= ws@.len(),
            ws.deep_view() == words_of(cmd@),
            ws.deep_view().len() == ws@.len(),
            out.deep_view() == concat_word_cands(f, ws.deep_view().take(i as int)),
            f == (|w: Seq<char>| phonetic_word_cands(w, cmd@)),
        decreases ws@.len() - i,
    {
        let w = &ws[i];
        proof {
            assert(ws.deep_view()[i as int] == ws@[i as int]@);
            assert(ws.deep_view().take(i + 1) =~~= ws.deep_view().take(i as int).push(
                ws.deep_view()[i as int],
            ));
            lemma_concat_word_cands_push(f, ws.deep_view().take(i as int), ws.deep_view()[i as int]);
        }
        let ghost before = out.deep_view();
        if w.len() > 2 {
            let p = phonetic_exec(w);
            if !chars_eq(&p, w) && p.len() >= 2 && p.len() <= 6 {
                append_sugg(&mut out, sugg(p, cmd, "Phonetic"));
            }
        }
        proof {
            assert(out.deep_view() =~~= before + f(ws.deep_view()[i as int]));
        }
        i = i + 1;
    }
    proof {
        assert(ws.deep_view().take(ws@.len() as int) =~~= ws.deep_view());
    }
    out
}

pub(crate) fn generate_keyboard_pattern_aliases(cmd: &Vec<char>, ws: &Vec<Vec<char>>) -> (out: Vec<
    AliasSuggestion,
>)
    requires
        ws.deep_view() == words_of(cmd@),
    ensures
        out.deep_view() == keyboard_cands(cmd@),
{
    let ghost f = |w: Seq<char>| keyboard_word_cands(w, cmd@);
    let mut out: Vec<AliasSuggestion> = Vec::new();
    let mut i: usize = 0;
    proof {
        assert(out.deep_view() =~~= concat_word_cands(f, ws.deep_view().take(0)));
    }
    while i < ws.len()
        invariant
            i <= ws@.len(),
            ws.deep_view() == words_of(cmd@),
            ws.deep_view().len() == ws@.len(),
            out.deep_view() == concat_word_cands(f, ws.deep_view().take(i as int)),
            f == (|w: Seq<char>| keyboard_word_cands(w, cmd@)),
        decreases ws@.len() - i,
    {
        let w = &ws[i];
        proof {
            assert(ws.deep_view()[i as int] == ws@[i as int]@);
            assert(ws.deep_view().take(i + 1) =~~= ws.deep_view().take(i as int).push(
                ws.deep_view()[i as int],
            ));
            lemma_concat_word_cands_push(f, ws.deep_view().take(i as int), ws.deep_view()[i as int]);
        }
        let ghost before = out.deep_view();
        if w.len() > 2 {
            let p = every_other_exec(w);
            if p.len() >= 2 && p.len() <= 4 {
                append_sugg(&mut out, sugg(p, cmd, "Keyboard pattern"));
            }
        }
        proof {
            assert(out.deep_view() =~~= before + f(ws.deep_view()[i as int]));
        }
        i = i + 1;
    }
    proof {
        assert(ws.deep_view().take(ws@.len() as int) =~~= ws.deep_view());
    }
    out
}

pub(crate) fn generate_common_pattern_aliases(cmd: &Vec<char>, ws: &Vec<Vec<char>>) -> (out: Vec<
    AliasSuggestion,
>)
    requires
        ws.deep_view() == words_of(cmd@),
    ensures
        out.deep_view() == pattern_cands(cmd@),
{
    let ghost f = |w: Seq<char>| pattern_word_cands(w, cmd@);
    let mut out: Vec<AliasSuggestion> = Vec::new();
    let mut i: usize = 0;
    proof {
        assert(out.deep_view() =~~= concat_word_cands(f, ws.deep_view().take(0)));
    }
    while i < ws.len()
        invariant
            i <= ws@.len(),
            ws.deep_view() == words_of(cmd@),
            ws.deep_view().len() == ws@.len(),
            out.deep_view() == concat_word_cands(f, ws.deep_view().take(i as int)),
            f == (|w: Seq<char>| pattern_word_cands(w, cmd@)),
        decreases ws@.len() - i,
    {
        let w = &ws[i];
        proof {
            assert(ws.deep_view()[i as int] == ws@[i as int]@);
            assert(ws.deep_view().take(i + 1) =~~= ws.deep_view().take(i as int).push(
                ws.deep_view()[i as int],
            ));
            lemma_concat_word_cands_push(f, ws.deep_view().take(i as int), ws.deep_view()[i as int]);
        }
        let ghost before = out.deep_view();
        if w.len() > 3 {
            let dedup = collapse_adjacent_exec(w);
            if dedup.len() >= 2 && !chars_eq(&dedup, w) {
                append_sugg(&mut out, sugg(dedup, cmd, "Remove duplicates"));
            }
            if w.len() > 4 {
                let cons = consonants_exec(w);
                if cons.len() >= 3 {
                    append_sugg(&mut out, sugg(take_chars(&cons, 3), cmd, "Smart consonants"));
                }
            }
        }
        proof {
            assert(out.deep_view() =~~= before + f(ws.deep_view()[i as int]));
        }
        i = i + 1;
    }
    proof {
        assert(ws.deep_view().take(ws@.len() as int) =~~= ws.deep_view());
    }
    out
}

} // verus!
