//! Character-level text utilities.
//!
//! All string logic in the crate works over `Vec<char>` / `Seq<char>`;
//! `String` appears only at the public boundary.  This module holds the
//! conversions, the whitespace/vowel classifications, word splitting and
//! joining, and the lexicographic order used as the ranking tie-break.

use vstd::prelude::*;
use vstd::string::*;

verus! {

/// The whitespace characters recognized when a command line is split into
/// words: the ASCII whitespace set.
pub open spec fn is_space(c: char) -> bool {
    c == ' ' || c == '\t' || c == '\n' || c == '\r' || c == '\u{b}' || c == '\u{c}'
}

/// Runtime counterpart of `is_space`.
pub fn is_space_exec(c: char) -> (b: bool)
    ensures
        b == is_space(c),
{
    c == ' ' || c == '\t' || c == '\n' || c == '\r' || c == '\u{b}' || c == '\u{c}'
}

/// The vowels dropped by the vowel-removal alias generator.
pub open spec fn is_vowel(c: char) -> bool {
    c == 'a' || c == 'e' || c == 'i' || c == 'o' || c == 'u' || c == 'A' || c == 'E' || c == 'I'
        || c == 'O' || c == 'U'
}

/// Runtime counterpart of `is_vowel`.
pub fn is_vowel_exec(c: char) -> (b: bool)
    ensures
        b == is_vowel(c),
{
    c == 'a' || c == 'e' || c == 'i' || c == 'o' || c == 'u' || c == 'A' || c == 'E' || c == 'I'
        || c == 'O' || c == 'U'
}

/// The characters of `s`, in order.
pub fn chars_of(s: &str) -> (v: Vec<char>)
    ensures
        v@ == s@,
{
    let n = s.unicode_len();
    let mut v: Vec<char> = Vec::new();
    let mut i: usize = 0;
    while i < n
        invariant
            i <= n,
            n == s@.len(),
            v@ == s@.subrange(0, i as int),
        decreases n - i,
    {
        let c = s.get_char(i);
        v.push(c);
        proof {
            assert(v@ =~= s@.subrange(0, i + 1));
        }
        i = i + 1;
    }
    proof {
        assert(v@ =~= s@);
    }
    v
}

/// Relies on `String: FromIterator<char>`: collecting characters yields a
/// string holding exactly that sequence of characters.
#[verifier::external_body]
pub(crate) fn string_from_chars(v: &Vec<char>) -> (s: String)
    ensures
        s@ == v@,
{
    v.iter().collect()
}

/// Whether `a` begins with `b`.
pub open spec fn has_prefix(a: Seq<char>, b: Seq<char>) -> bool {
    b.len() <= a.len() && a.subrange(0, b.len() as int) == b
}

/// Whether `a` ends with `b`.
pub open spec fn has_suffix(a: Seq<char>, b: Seq<char>) -> bool {
    b.len() <= a.len() && a.subrange(a.len() - b.len(), a.len() as int) == b
}

/// Runtime equality of two character vectors.
pub fn chars_eq(a: &Vec<char>, b: &Vec<char>) -> (r: bool)
    ensures
        r == (a@ == b@),
{
    if a.len() != b.len() {
        proof {
            assert(a@ != b@);
        }
        return false;
    }
    let mut i: usize = 0;
    while i < a.len()
        invariant
            i <= a.len(),
            a.len() == b.len(),
            forall|j: int| 0 <= j < i ==> a@[j] == b@[j],
        decreases a.len() - i,
    {
        if a[i] != b[i] {
            return false;
        }
        i = i + 1;
    }
    proof {
        assert(a@ =~= b@);
    }
    true
}

/// Runtime check that `a` begins with `b`.
pub fn chars_start_with(a: &Vec<char>, b: &Vec<char>) -> (r: bool)
    ensures
        r == has_prefix(a@, b@),
{
    if b.len() > a.len() {
        return false;
    }
    let mut i: usize = 0;
    while i < b.len()
        invariant
            i <= b.len(),
            b.len() <= a.len(),
            forall|j: int| 0 <= j < i ==> a@[j] == b@[j],
        decreases b.len() - i,
    {
        if a[i] != b[i] {
            proof {
                assert(a@.subrange(0, b@.len() as int)[i as int] != b@[i as int]);
            }
            return false;
        }
        i = i + 1;
    }
    proof {
        assert(a@.subrange(0, b@.len() as int) =~= b@);
    }
    true
}

/// Runtime check that `a` ends with `b`.
pub fn chars_end_with(a: &Vec<char>, b: &Vec<char>) -> (r: bool)
    ensures
        r == has_suffix(a@, b@),
{
    if b.len() > a.len() {
        return false;
    }
    let off: usize = a.len() - b.len();
    let mut i: usize = 0;
    while i < b.len()
        invariant
            i <= b.len(),
            b.len() <= a.len(),
            off == a.len() - b.len(),
            forall|j: int| 0 <= j < i ==> a@[off + j] == b@[j],
        decreases b.len() - i,
    {
        if a[off + i] != b[i] {
            proof {
                assert(a@.subrange(a@.len() - b@.len(), a@.len() as int)[i as int] != b@[i as int]);
            }
            return false;
        }
        i = i + 1;
    }
    proof {
        assert(a@.subrange(a@.len() - b@.len(), a@.len() as int) =~= b@);
    }
    true
}

/// Left fold of whitespace splitting: `cur` is the word being read when the
/// scan stands at the head of `s`.
pub open spec fn split_acc(s: Seq<char>, cur: Seq<char>) -> Seq<Seq<char>>
    decreases s.len(),
{
    if s.len() == 0 {
        if cur.len() == 0 {
            Seq::empty()
        } else {
            seq![cur]
        }
    } else if is_space(s[0]) {
        if cur.len() == 0 {
            split_acc(s.drop_first(), Seq::empty())
        } else {
            seq![cur] + split_acc(s.drop_first(), Seq::empty())
        }
    } else {
        split_acc(s.drop_first(), cur.push(s[0]))
    }
}

/// The whitespace-separated words of `s`, in order.
pub open spec fn words_of(s: Seq<char>) -> Seq<Seq<char>> {
    split_acc(s, Seq::empty())
}

/// Splits into words: maximal runs of non-whitespace characters.
pub fn split_words(v: &Vec<char>) -> (ws: Vec<Vec<char>>)
    ensures
        ws.deep_view() == words_of(v@),
{
    let mut out: Vec<Vec<char>> = Vec::new();
    let mut cur: Vec<char> = Vec::new();
    let mut i: usize = 0;
    proof {
        assert(v@.skip(0) =~= v@);
    }
    while i < v.len()
        invariant
            i <= v.len(),
            words_of(v@) == out.deep_view() + split_acc(v@.skip(i as int), cur@),
        decreases v.len() - i,
    {
        let ghost rest = v@.skip(i as int);
        proof {
            assert(rest[0] == v@[i as int]);
            assert(rest.drop_first() =~= v@.skip(i + 1));
        }
        let c = v[i];
        if is_space_exec(c) {
            if cur.len() > 0 {
                let ghost old_out = out.deep_view();
                let ghost word = cur@;
                out.push(cur);
                cur = Vec::new();
                proof {
                    assert(split_acc(rest, word) =~= seq![word] + split_acc(
                        rest.drop_first(),
                        Seq::empty(),
                    ));
                    assert(out.deep_view() =~~= old_out + seq![word]);
                    assert(out.deep_view() + split_acc(v@.skip(i + 1), cur@) =~~= words_of(v@));
                }
            } else {
                proof {
                    assert(cur@ =~= Seq::<char>::empty());
                    assert(split_acc(rest, cur@) == split_acc(rest.drop_first(), Seq::empty()));
                    assert(split_acc(v@.skip(i + 1), cur@) == split_acc(
                        rest.drop_first(),
                        Seq::empty(),
                    ));
                }
            }
        } else {
            let ghost cur_snap = cur@;
            cur.push(c);
            proof {
                assert(split_acc(rest, cur_snap) == split_acc(rest.drop_first(), cur_snap.push(c)));
                assert(split_acc(v@.skip(i + 1), cur@) == split_acc(
                    rest.drop_first(),
                    cur_snap.push(c),
                ));
            }
        }
        i = i + 1;
    }
    proof {
        assert(v@.skip(v@.len() as int) =~= Seq::<char>::empty());
    }
    if cur.len() > 0 {
        let ghost old_out = out.deep_view();
        let ghost word = cur@;
        out.push(cur);
        proof {
            assert(out.deep_view() =~~= old_out + seq![word]);
            assert(out.deep_view() =~~= words_of(v@));
        }
    } else {
        proof {
            assert(out.deep_view() + split_acc(Seq::<char>::empty(), cur@) =~~= out.deep_view());
        }
    }
    out
}

/// Sum of the lengths of the words.
pub open spec fn sum_lens(ws: Seq<Seq<char>>) -> int
    decreases ws.len(),
{
    if ws.len() == 0 {
        0
    } else {
        ws[0].len() + sum_lens(ws.drop_first())
    }
}

pub proof fn lemma_sum_lens_push(ws: Seq<Seq<char>>, w: Seq<char>)
    ensures
        sum_lens(ws.push(w)) == sum_lens(ws) + w.len(),
    decreases ws.len(),
{
    if ws.len() == 0 {
        assert(ws.push(w).drop_first() =~~= ws);
    } else {
        assert(ws.push(w).drop_first() =~~= ws.drop_first().push(w));
        lemma_sum_lens_push(ws.drop_first(), w);
    }
}

/// The word lengths are never negative in sum.
pub proof fn lemma_sum_lens_nonneg(ws: Seq<Seq<char>>)
    ensures
        sum_lens(ws) >= 0,
    decreases ws.len(),
{
    if ws.len() > 0 {
        lemma_sum_lens_nonneg(ws.drop_first());
    }
}

/// The words joined back with single spaces: whitespace-normal form.
pub open spec fn join_words(ws: Seq<Seq<char>>) -> Seq<char>
    decreases ws.len(),
{
    if ws.len() == 0 {
        Seq::empty()
    } else if ws.len() == 1 {
        ws[0]
    } else {
        ws[0] + seq![' '] + join_words(ws.drop_first())
    }
}

pub proof fn lemma_join_push(ws: Seq<Seq<char>>, w: Seq<char>)
    ensures
        ws.len() == 0 ==> join_words(ws.push(w)) == w,
        ws.len() > 0 ==> join_words(ws.push(w)) =~= join_words(ws) + seq![' '] + w,
    decreases ws.len(),
{
    if ws.len() == 0 {
        assert(join_words(ws.push(w)) == ws.push(w)[0]);
    } else if ws.len() == 1 {
        let t = ws.push(w).drop_first();
        assert(t =~~= seq![w]);
        assert(t.len() == 1 && t[0] == w);
        assert(join_words(t) == w);
        assert(join_words(ws.push(w)) == ws.push(w)[0] + seq![' '] + join_words(t));
        assert(join_words(ws) == ws[0]);
    } else {
        assert(ws.push(w).drop_first() =~~= ws.drop_first().push(w));
        lemma_join_push(ws.drop_first(), w);
    }
}

/// Whether `b` occurs contiguously inside `a`.
pub open spec fn has_sub(a: Seq<char>, b: Seq<char>) -> bool {
    exists|i: int|
        0 <= i <= a.len() - b.len() && #[trigger] a.subrange(i, i + b.len()) == b
}

/// Runtime check that `b` occurs inside `a`.
pub fn chars_contain(a: &Vec<char>, b: &Vec<char>) -> (r: bool)
    ensures
        r == has_sub(a@, b@),
{
    if b.len() > a.len() {
        return false;
    }
    let mut i: usize = 0;
    while i <= a.len() - b.len()
        invariant
            b@.len() <= a@.len(),
            i <= a@.len() - b@.len() + 1,
            forall|x: int| 0 <= x < i ==> #[trigger] a@.subrange(x, x + b@.len()) != b@,
        decreases a@.len() - b@.len() + 1 - i,
    {
        let mut j: usize = 0;
        let mut same = true;
        while j < b.len() && same
            invariant
                b@.len() <= a@.len(),
                a@.len() <= usize::MAX,
                i <= a@.len() - b@.len(),
                j <= b@.len(),
                same ==> forall|y: int| 0 <= y < j ==> a@[i + y] == b@[y],
                !same ==> j < b@.len() && a@[i + j] != b@[j as int],
            decreases b@.len() - j + (if same {
                1int
            } else {
                0int
            }),
        {
            if a[i + j] != b[j] {
                same = false;
            } else {
                j = j + 1;
            }
        }
        if same {
            proof {
                assert(a@.subrange(i as int, i + b@.len()) =~= b@);
            }
            return true;
        }
        proof {
            assert(a@.subrange(i as int, i + b@.len())[j as int] == a@[i + j]);
            assert(a@.subrange(i as int, i + b@.len()) != b@);
        }
        i = i + 1;
    }
    false
}

/// Strict lexicographic order on character sequences, by code point; agrees
/// with the byte order `String` comparison uses, since UTF-8 preserves the
/// code-point order.
pub open spec fn lex_lt(a: Seq<char>, b: Seq<char>) -> bool
    decreases a.len(),
{
    if b.len() == 0 {
        false
    } else if a.len() == 0 {
        true
    } else if (a[0] as u32) < (b[0] as u32) {
        true
    } else if a[0] != b[0] {
        false
    } else {
        lex_lt(a.drop_first(), b.drop_first())
    }
}

/// The order is irreflexive.
pub proof fn lemma_lex_lt_irrefl(a: Seq<char>)
    ensures
        !lex_lt(a, a),
    decreases a.len(),
{
    if a.len() > 0 {
        lemma_lex_lt_irrefl(a.drop_first());
    }
}

/// The order is transitive.
pub proof fn lemma_lex_lt_trans(a: Seq<char>, b: Seq<char>, c: Seq<char>)
    requires
        lex_lt(a, b),
        lex_lt(b, c),
    ensures
        lex_lt(a, c),
    decreases a.len(),
{
    if a.len() == 0 {
    } else {
        if a[0] == b[0] && b[0] == c[0] {
            lemma_lex_lt_trans(a.drop_first(), b.drop_first(), c.drop_first());
        }
    }
}

/// The order is total: incomparable sequences are equal.
pub proof fn lemma_lex_lt_connex(a: Seq<char>, b: Seq<char>)
    requires
        !lex_lt(a, b),
        !lex_lt(b, a),
    ensures
        a == b,
    decreases a.len(),
{
    if a.len() == 0 || b.len() == 0 {
        assert(a =~= b);
    } else {
        assert((a[0] as u32) == (b[0] as u32));
        vstd::utf8::char_u32_cast(a[0], a[0] as u32);
        vstd::utf8::char_u32_cast(b[0], b[0] as u32);
        assert(a[0] == b[0]);
        lemma_lex_lt_connex(a.drop_first(), b.drop_first());
        assert(a.drop_first().len() == b.drop_first().len());
        assert(a.len() == b.len());
        assert forall|i: int| 0 <= i < a.len() implies a[i] == b[i] by {
            if i > 0 {
                assert(a[i] == a.drop_first()[i - 1]);
                assert(b[i] == b.drop_first()[i - 1]);
                assert(a.drop_first()[i - 1] == b.drop_first()[i - 1]);
            }
        }
        assert(a =~= b);
    }
}

/// Runtime comparison realizing `lex_lt`.
pub fn lex_lt_exec(a: &Vec<char>, b: &Vec<char>) -> (r: bool)
    ensures
        r == lex_lt(a@, b@),
{
    let mut i: usize = 0;
    proof {
        assert(a@.skip(0) =~= a@);
        assert(b@.skip(0) =~= b@);
    }
    loop
        invariant
            i <= a.len(),
            i <= b.len(),
            forall|j: int| 0 <= j < i ==> a@[j] == b@[j],
            lex_lt(a@, b@) == lex_lt(a@.skip(i as int), b@.skip(i as int)),
        decreases a.len() - i,
    {
        if i >= b.len() {
            proof {
                assert(b@.skip(i as int).len() == 0);
            }
            return false;
        }
        if i >= a.len() {
            proof {
                assert(a@.skip(i as int).len() == 0 && b@.skip(i as int).len() > 0);
            }
            return true;
        }
        let ca = a[i];
        let cb = b[i];
        proof {
            assert(a@.skip(i as int)[0] == ca && b@.skip(i as int)[0] == cb);
        }
        if (ca as u32) < (cb as u32) {
            return true;
        }
        if ca != cb {
            return false;
        }
        proof {
            assert(a@.skip(i as int).drop_first() =~= a@.skip(i + 1));
            assert(b@.skip(i as int).drop_first() =~= b@.skip(i + 1));
        }
        i = i + 1;
    }
}

} // verus!
