//! Pure character transforms the alias generators are built from.
//!
//! Each transform is a function from characters to characters with a spec
//! mirror over `Seq<char>`; the generators assemble candidates from them.

use vstd::prelude::*;
use crate::text::{is_space, is_vowel, is_vowel_exec};

verus! {

/// The first character of a word, `'x'` for an empty one.
pub open spec fn first_or_x(w: Seq<char>) -> char {
    if w.len() == 0 {
        'x'
    } else {
        w[0]
    }
}

/// Runtime counterpart of `first_or_x`.
pub fn first_or_x_exec(w: &Vec<char>) -> (c: char)
    ensures
        c == first_or_x(w@),
{
    if w.len() == 0 {
        'x'
    } else {
        w[0]
    }
}

/// The first `n` characters of a word.
pub fn take_chars(w: &Vec<char>, n: usize) -> (r: Vec<char>)
    ensures
        r@ == w@.take(if n <= w@.len() {
            n as int
        } else {
            w@.len() as int
        }),
{
    let k = if n <= w.len() {
        n
    } else {
        w.len()
    };
    let mut r: Vec<char> = Vec::new();
    let mut i: usize = 0;
    proof {
        assert(r@ =~= w@.take(0));
    }
    while i < k
        invariant
            i <= k,
            k <= w@.len(),
            r@ == w@.take(i as int),
        decreases k - i,
    {
        r.push(w[i]);
        proof {
            assert(r@ =~= w@.take(i + 1));
        }
        i = i + 1;
    }
    r
}

/// Appends a copy of `src` to `dst`.
pub fn extend_chars(dst: &mut Vec<char>, src: &Vec<char>)
    ensures
        final(dst)@ == old(dst)@ + src@,
{
    let mut i: usize = 0;
    proof {
        assert(dst@ =~= old(dst)@ + src@.take(0));
    }
    while i < src.len()
        invariant
            i <= src@.len(),
            dst@ == old(dst)@ + src@.take(i as int),
        decreases src@.len() - i,
    {
        dst.push(src[i]);
        proof {
            assert(dst@ =~= old(dst)@ + src@.take(i + 1));
        }
        i = i + 1;
    }
    proof {
        assert(src@.take(src@.len() as int) =~= src@);
    }
}

/// The word with its vowels removed.
pub open spec fn consonants_of(w: Seq<char>) -> Seq<char> {
    w.filter(|c: char| !is_vowel(c))
}

/// Runtime counterpart of `consonants_of`.
pub fn consonants_exec(w: &Vec<char>) -> (r: Vec<char>)
    ensures
        r@ == consonants_of(w@),
{
    let mut r: Vec<char> = Vec::new();
    let mut i: usize = 0;
    proof {
        assert(w@.take(0) =~= Seq::<char>::empty());
        assert(r@ =~= w@.take(0).filter(|c: char| !is_vowel(c)));
    }
    while i < w.len()
        invariant
            i <= w@.len(),
            r@ == w@.take(i as int).filter(|c: char| !is_vowel(c)),
        decreases w@.len() - i,
    {
        let c = w[i];
        proof {
            assert(w@.take(i + 1) =~= w@.take(i as int).push(w@[i as int]));
            broadcast use Seq::lemma_filter_push;
            assert(w@.take(i as int).push(c).filter(|c: char| !is_vowel(c)) == if !is_vowel(c) {
                w@.take(i as int).filter(|c: char| !is_vowel(c)).push(c)
            } else {
                w@.take(i as int).filter(|c: char| !is_vowel(c))
            });
        }
        if !is_vowel_exec(c) {
            r.push(c);
        }
        i = i + 1;
    }
    proof {
        assert(w@.take(w@.len() as int) =~= w@);
    }
    r
}

/// Adjacent equal characters collapsed to one.
pub open spec fn collapse_adjacent(w: Seq<char>) -> Seq<char>
    decreases w.len(),
{
    if w.len() == 0 {
        Seq::empty()
    } else if w.len() == 1 {
        w
    } else if w[0] == w[1] {
        collapse_adjacent(w.drop_first())
    } else {
        seq![w[0]] + collapse_adjacent(w.drop_first())
    }
}

/// Runtime counterpart of `collapse_adjacent`.
pub fn collapse_adjacent_exec(w: &Vec<char>) -> (r: Vec<char>)
    ensures
        r@ == collapse_adjacent(w@),
{
    let mut r: Vec<char> = Vec::new();
    let mut i: usize = 0;
    proof {
        assert(w@.skip(0) =~= w@);
        assert(collapse_adjacent(w@) =~= r@ + collapse_adjacent(w@.skip(0)));
    }
    while i < w.len()
        invariant
            i <= w@.len(),
            collapse_adjacent(w@) == r@ + collapse_adjacent(w@.skip(i as int)),
        decreases w@.len() - i,
    {
        let ghost rest = w@.skip(i as int);
        proof {
            assert(rest[0] == w@[i as int]);
            assert(rest.drop_first() =~= w@.skip(i + 1));
            if i + 1 < w@.len() {
                assert(rest[1] == w@[i + 1]);
            }
        }
        if i + 1 < w.len() && w[i] == w[i + 1] {
        } else {
            r.push(w[i]);
            proof {
                if rest.len() == 1 {
                    assert(collapse_adjacent(rest) =~= seq![rest[0]]);
                    assert(collapse_adjacent(w@.skip(i + 1)) =~= Seq::<char>::empty());
                }
                assert(r@ + collapse_adjacent(w@.skip(i + 1)) =~= collapse_adjacent(w@));
            }
        }
        i = i + 1;
    }
    proof {
        assert(w@.skip(w@.len() as int) =~= Seq::<char>::empty());
        assert(r@ =~= collapse_adjacent(w@));
    }
    r
}

/// Every character standing at an even position.
pub open spec fn every_other(w: Seq<char>) -> Seq<char> {
    Seq::new((w.len() + 1) / 2, |i: int| w[2 * i])
}

/// Runtime counterpart of `every_other`.
pub fn every_other_exec(w: &Vec<char>) -> (r: Vec<char>)
    ensures
        r@ == every_other(w@),
{
    let mut r: Vec<char> = Vec::new();
    let k: usize = w.len() - w.len() / 2;
    let mut j: usize = 0;
    proof {
        assert(k == (w@.len() + 1) / 2);
        assert(r@ =~= every_other(w@).take(0));
    }
    while j < k
        invariant
            j <= k,
            k == (w@.len() + 1) / 2,
            k <= w@.len(),
            w@.len() <= usize::MAX,
            r@ == every_other(w@).take(j as int),
        decreases k - j,
    {
        proof {
            assert(2 * j < w@.len());
        }
        r.push(w[2 * j]);
        proof {
            assert(every_other(w@)[j as int] == w@[2 * j]);
            assert(r@ =~= every_other(w@).take(j + 1));
        }
        j = j + 1;
    }
    proof {
        assert(every_other(w@).take(every_other(w@).len() as int) =~= every_other(w@));
        assert(r@ =~= every_other(w@));
    }
    r
}

/// The vowel/consonant runs a word falls into: a syllable ends where a vowel
/// run meets a following consonant.
pub open spec fn syllables_acc(w: Seq<char>, cur: Seq<char>, prev_vowel: bool) -> Seq<Seq<char>>
    decreases w.len(),
{
    if w.len() == 0 {
        if cur.len() == 0 {
            Seq::empty()
        } else {
            seq![cur]
        }
    } else if is_vowel(w[0]) {
        syllables_acc(w.drop_first(), cur.push(w[0]), true)
    } else {
        if prev_vowel && cur.len() > 0 {
            seq![cur] + syllables_acc(w.drop_first(), seq![w[0]], false)
        } else {
            syllables_acc(w.drop_first(), cur.push(w[0]), false)
        }
    }
}

/// The syllables of a word.
pub open spec fn syllables_of(w: Seq<char>) -> Seq<Seq<char>> {
    syllables_acc(w, Seq::empty(), false)
}

/// Runtime counterpart of `syllables_of`.
pub fn syllables_exec(w: &Vec<char>) -> (r: Vec<Vec<char>>)
    ensures
        r.deep_view() == syllables_of(w@),
{
    let mut out: Vec<Vec<char>> = Vec::new();
    let mut cur: Vec<char> = Vec::new();
    let mut prev_vowel = false;
    let mut i: usize = 0;
    proof {
        assert(w@.skip(0) =~= w@);
    }
    while i < w.len()
        invariant
            i <= w@.len(),
            syllables_of(w@) == out.deep_view() + syllables_acc(
                w@.skip(i as int),
                cur@,
                prev_vowel,
            ),
        decreases w@.len() - i,
    {
        let ghost rest = w@.skip(i as int);
        proof {
            assert(rest[0] == w@[i as int]);
            assert(rest.drop_first() =~= w@.skip(i + 1));
        }
        let c = w[i];
        if is_vowel_exec(c) {
            cur.push(c);
            prev_vowel = true;
        } else {
            if prev_vowel && cur.len() > 0 {
                let ghost oldout = out.deep_view();
                let ghost word = cur@;
                out.push(cur);
                cur = Vec::new();
                cur.push(c);
                proof {
                    assert(out.deep_view() =~~= oldout + seq![word]);
                    assert(cur@ =~= seq![c]);
                    assert(out.deep_view() + syllables_acc(w@.skip(i + 1), cur@, false)
                        =~~= syllables_of(w@));
                }
            } else {
                cur.push(c);
            }
            prev_vowel = false;
        }
        i = i + 1;
    }
    proof {
        assert(w@.skip(w@.len() as int) =~= Seq::<char>::empty());
    }
    if cur.len() > 0 {
        let ghost oldout = out.deep_view();
        let ghost word = cur@;
        out.push(cur);
        proof {
            assert(out.deep_view() =~~= oldout + seq![word]);
            assert(out.deep_view() =~~= syllables_of(w@));
        }
    } else {
        proof {
            assert(out.deep_view() + syllables_acc(Seq::<char>::empty(), cur@, prev_vowel)
                =~~= out.deep_view());
        }
    }
    out
}

/// `str::replace` over characters: occurrences of `pat` replaced by `rep`,
/// scanning left to right without overlap.
pub open spec fn replace_all(w: Seq<char>, pat: Seq<char>, rep: Seq<char>) -> Seq<char>
    decreases w.len(),
{
    if pat.len() == 0 || w.len() < pat.len() {
        w
    } else if w.take(pat.len() as int) == pat {
        if w.len() == pat.len() {
            rep
        } else {
            rep + replace_all(w.skip(pat.len() as int), pat, rep)
        }
    } else {
        seq![w[0]] + replace_all(w.drop_first(), pat, rep)
    }
}

/// Runtime counterpart of `replace_all`.
pub fn replace_all_exec(w: &Vec<char>, pat: &Vec<char>, rep: &Vec<char>) -> (r: Vec<char>)
    requires
        pat@.len() > 0,
    ensures
        r@ == replace_all(w@, pat@, rep@),
{
    let mut r: Vec<char> = Vec::new();
    let mut i: usize = 0;
    proof {
        assert(w@.skip(0) =~= w@);
        assert(replace_all(w@, pat@, rep@) =~= r@ + replace_all(w@.skip(0), pat@, rep@));
    }
    while i < w.len()
        invariant
            i <= w@.len(),
            pat@.len() > 0,
            replace_all(w@, pat@, rep@) == r@ + replace_all(w@.skip(i as int), pat@, rep@),
        decreases w@.len() - i,
    {
        let ghost rest = w@.skip(i as int);
        let mut matches = pat.len() <= w.len() - i;
        if matches {
            let mut j: usize = 0;
            while j < pat.len() && matches
                invariant
                    j <= pat@.len(),
                    i + pat@.len() <= w@.len(),
                    w@.len() <= usize::MAX,
                    matches ==> forall|a: int| 0 <= a < j ==> w@[i + a] == pat@[a],
                    !matches ==> j < pat@.len() && w@[i + j] != pat@[j as int],
                decreases pat@.len() - j + (if matches {
                    1int
                } else {
                    0int
                }),
            {
                if w[i + j] != pat[j] {
                    matches = false;
                } else {
                    j = j + 1;
                }
            }
            proof {
                if !matches {
                    assert(rest.take(pat@.len() as int)[j as int] == w@[i + j]);
                    assert(rest.take(pat@.len() as int) != pat@);
                } else {
                    assert(j == pat@.len());
                }
            }
        }
        proof {
            assert(rest[0] == w@[i as int]);
            assert(rest.drop_first() =~= w@.skip(i + 1));
        }
        if matches {
            proof {
                assert(rest.take(pat@.len() as int) =~= pat@);
                assert(rest.skip(pat@.len() as int) =~= w@.skip(i + pat@.len()));
                if rest.len() == pat@.len() {
                    assert(replace_all(rest, pat@, rep@) == rep@);
                    assert(w@.skip(i + pat@.len()).len() == 0);
                    assert(replace_all(w@.skip(i + pat@.len()), pat@, rep@) =~= Seq::<
                        char,
                    >::empty());
                }
            }
            extend_chars(&mut r, rep);
            proof {
                assert(r@ + replace_all(w@.skip(i + pat@.len()), pat@, rep@) =~= replace_all(
                    w@,
                    pat@,
                    rep@,
                ));
            }
            i = i + pat.len();
        } else {
            proof {
                if rest.len() >= pat@.len() {
                    assert(rest.take(pat@.len() as int) != pat@);
                }
            }
            r.push(w[i]);
            proof {
                assert(r@ + replace_all(w@.skip(i + 1), pat@, rep@) =~= replace_all(
                    w@,
                    pat@,
                    rep@,
                ));
            }
            i = i + 1;
        }
    }
    proof {
        assert(w@.skip(w@.len() as int) =~= Seq::<char>::empty());
        assert(r@ =~= replace_all(w@, pat@, rep@));
    }
    r
}

} // verus!
