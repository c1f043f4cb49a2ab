//! The frecency store: a ranked, text-keyed collection of command entries,
//! and the tombstone set of texts excluded from tracking.
//!
//! The store keeps one vector of entries, always sorted by the ranking order
//! (score descending, text ascending) with pairwise-distinct texts.  The
//! sorted vector is the ordered index; the text-keyed map over it is derived
//! (`map_of`), and every operation's contract is stated against that map.

use vstd::prelude::*;
use vstd::string::*;
use crate::clock::now_seconds;
use crate::entry::{
    bumped_view, decayed, entry_lt, entry_lt_exec, fresh_view, lemma_entry_lt_total,
    lemma_entry_lt_trans, refreshed_view, rescaled_view, sat_i16, sat_i8, Command, EntryView,
};
use crate::score::compute_score;
use crate::text::{sum_lens, words_of};

verus! {

/// The rescale threshold: when the score sum passes it, every frequency
/// decays.
pub const SCORE_RESET_THRESHOLD: i128 = 250;

/// The noise filter: single-word texts of at most this summed length are not
/// tracked.
pub const NOISE_MAX_LENGTH: i16 = 5;

/// The tombstone set: texts excluded from tracking until removed again.
pub struct DeletedCommands {
    pub deleted_commands: Vec<String>,
}

impl DeletedCommands {
    /// Whether `t` is tombstoned.
    pub open spec fn contains_text(self, t: Seq<char>) -> bool {
        exists|i: int|
            0 <= i < self.deleted_commands@.len() && self.deleted_commands@[i]@ == t
    }

    /// The tombstoned texts as a set.
    pub open spec fn texts(self) -> Set<Seq<char>> {
        Set::new(|t: Seq<char>| self.contains_text(t))
    }

    /// No text is listed twice.
    pub open spec fn wf(self) -> bool {
        forall|i: int, j: int|
            0 <= i < j < self.deleted_commands@.len() ==> self.deleted_commands@[i]@
                != self.deleted_commands@[j]@
    }

    /// The empty tombstone set.
    pub fn new() -> (d: DeletedCommands)
        ensures
            d.wf(),
            d.texts() =~= Set::<Seq<char>>::empty(),
            d.deleted_commands@.len() == 0,
    {
        DeletedCommands { deleted_commands: Vec::new() }
    }

    /// Whether `text` is tombstoned.
    pub fn contains(&self, text: &String) -> (r: bool)
        ensures
            r == self.contains_text(text@),
    {
        let mut i: usize = 0;
        while i < self.deleted_commands.len()
            invariant
                i <= self.deleted_commands@.len(),
                forall|j: int| 0 <= j < i ==> self.deleted_commands@[j]@ != text@,
            decreases self.deleted_commands@.len() - i,
        {
            if self.deleted_commands[i] == *text {
                return true;
            }
            i = i + 1;
        }
        false
    }

    /// Adds `text` to the set; a present text stays listed once.
    pub fn insert(&mut self, text: String)
        requires
            old(self).wf(),
        ensures
            final(self).wf(),
            final(self).texts() =~= old(self).texts().insert(text@),
            old(self).contains_text(text@) ==> *final(self) == *old(self),
    {
        if !self.contains(&text) {
            let ghost olds = self.deleted_commands@;
            self.deleted_commands.push(text);
            proof {
                assert forall|t: Seq<char>| #![auto] true implies ((*self).contains_text(t)
                    <==> (old(self).contains_text(t) || t == text@)) by {
                    if (*self).contains_text(t) {
                        let i = choose|i: int|
                            0 <= i < self.deleted_commands@.len() && self.deleted_commands@[i]@
                                == t;
                        if i < olds.len() {
                            assert(olds[i]@ == t);
                        }
                    }
                    if old(self).contains_text(t) {
                        let i = choose|i: int| 0 <= i < olds.len() && olds[i]@ == t;
                        assert(self.deleted_commands@[i]@ == t);
                    }
                    if t == text@ {
                        assert(self.deleted_commands@[olds.len() as int]@ == t);
                    }
                }
            }
        } else {
            proof {
                assert((*self).texts() =~= old(self).texts().insert(text@));
            }
        }
    }

    /// Removes `text` from the set, if listed.
    pub fn remove(&mut self, text: &String)
        requires
            old(self).wf(),
        ensures
            final(self).wf(),
            final(self).texts() =~= old(self).texts().remove(text@),
    {
        let mut i: usize = 0;
        let ghost olds = self.deleted_commands@;
        while i < self.deleted_commands.len()
            invariant
                self.deleted_commands@ == olds,
                i <= olds.len(),
                forall|j: int| 0 <= j < i ==> olds[j]@ != text@,
                old(self).wf(),
                olds == old(self).deleted_commands@,
            decreases olds.len() - i,
        {
            if self.deleted_commands[i] == *text {
                self.deleted_commands.remove(i);
                proof {
                    olds.remove_ensures(i as int);
                    assert forall|t: Seq<char>| #![auto] true implies ((*self).contains_text(t)
                        <==> (old(self).contains_text(t) && t != text@)) by {
                        if (*self).contains_text(t) {
                            let a = choose|a: int|
                                0 <= a < self.deleted_commands@.len()
                                    && self.deleted_commands@[a]@ == t;
                            let oa: int = if a < i {
                                a
                            } else {
                                a + 1
                            };
                            assert(olds[oa]@ == t);
                            assert(oa != i);
                        }
                        if old(self).contains_text(t) && t != text@ {
                            let a = choose|a: int| 0 <= a < olds.len() && olds[a]@ == t;
                            assert(a != i);
                            if a < i {
                                assert(self.deleted_commands@[a]@ == t);
                            } else {
                                assert(self.deleted_commands@[a - 1]@ == t);
                            }
                        }
                    }
                }
                return ;
            }
            i = i + 1;
        }
        proof {
            assert(!old(self).contains_text(text@));
            assert((*self).texts() =~= old(self).texts().remove(text@));
        }
    }
}

/// Whether some entry of `s` carries the text `t`.
pub open spec fn seq_has_text(s: Seq<Command>, t: Seq<char>) -> bool {
    exists|i: int| 0 <= i < s.len() && s[i].command_text@ == t
}

/// The index carrying text `t`, where one exists.
pub open spec fn seq_text_index(s: Seq<Command>, t: Seq<char>) -> int {
    choose|i: int| 0 <= i < s.len() && s[i].command_text@ == t
}

/// The text-keyed map over a sequence of entries.
pub open spec fn map_of(s: Seq<Command>) -> Map<Seq<char>, EntryView> {
    Map::new(|t: Seq<char>| seq_has_text(s, t), |t: Seq<char>| s[seq_text_index(s, t)]@)
}

/// No two entries carry the same text.
pub open spec fn unique_texts(s: Seq<Command>) -> bool {
    forall|i: int, j: int|
        0 <= i < j < s.len() ==> s[i].command_text@ != s[j].command_text@
}

/// Strictly ordered by the ranking order.
pub open spec fn sorted_entries(s: Seq<Command>) -> bool {
    forall|i: int, j: int| 0 <= i < j < s.len() ==> entry_lt(s[i]@, s[j]@)
}

/// Every entry keeps its bounds.
pub open spec fn all_wf(s: Seq<Command>) -> bool {
    forall|i: int| 0 <= i < s.len() ==> (#[trigger] s[i])@.wf()
}

/// Sum of the stored scores.
pub open spec fn sum_scores(s: Seq<Command>) -> int
    decreases s.len(),
{
    if s.len() == 0 {
        0
    } else {
        s[0]@.score + sum_scores(s.drop_first())
    }
}

pub proof fn lemma_sum_scores_push(s: Seq<Command>, c: Command)
    ensures
        sum_scores(s.push(c)) == sum_scores(s) + c@.score,
    decreases s.len(),
{
    if s.len() == 0 {
        assert(s.push(c).drop_first() =~= s);
    } else {
        assert(s.push(c).drop_first() =~= s.drop_first().push(c));
        lemma_sum_scores_push(s.drop_first(), c);
    }
}

/// The sum of well-formed scores sits between zero and count times the
/// largest single score.
pub proof fn lemma_sum_scores_bounds(s: Seq<Command>)
    requires
        all_wf(s),
    ensures
        0 <= sum_scores(s) <= s.len() * 0x7fff_ffff,
    decreases s.len(),
{
    if s.len() == 0 {
    } else {
        assert(all_wf(s.drop_first())) by {
            assert(forall|i: int|
                0 <= i < s.drop_first().len() ==> #[trigger] s.drop_first()[i] == s[i + 1]);
        }
        lemma_sum_scores_bounds(s.drop_first());
        assert(s[0]@.wf());
        assert(0 <= s[0]@.score <= 0x7fff_ffff);
        assert(s.drop_first().len() * 0x7fff_ffff + 0x7fff_ffff == s.len() * 0x7fff_ffff)
            by (nonlinear_arith)
            requires
                s.drop_first().len() == s.len() - 1 && s.len() >= 1,
        ;
    }
}

pub proof fn lemma_sum_scores_insert(s: Seq<Command>, k: int, c: Command)
    requires
        0 <= k <= s.len(),
    ensures
        sum_scores(s.insert(k, c)) == sum_scores(s) + c@.score,
    decreases s.len(),
{
    s.insert_ensures(k, c);
    if k == 0 {
        assert(s.insert(0, c)[0] == c);
        assert(s.insert(0, c).drop_first() =~= s);
    } else {
        assert(s.insert(k, c)[0] == s[0]);
        assert(s.insert(k, c).drop_first() =~= s.drop_first().insert(k - 1, c));
        lemma_sum_scores_insert(s.drop_first(), k - 1, c);
    }
}

pub proof fn lemma_sum_scores_remove(s: Seq<Command>, i: int)
    requires
        0 <= i < s.len(),
    ensures
        sum_scores(s.remove(i)) == sum_scores(s) - s[i]@.score,
    decreases s.len(),
{
    s.remove_ensures(i);
    if i == 0 {
        assert(s.remove(0) =~= s.drop_first());
    } else {
        assert(s.remove(i)[0] == s[0]);
        assert(s.remove(i).drop_first() =~= s.drop_first().remove(i - 1));
        lemma_sum_scores_remove(s.drop_first(), i - 1);
    }
}

/// With unique texts, the derived map sends each entry's text to that entry.
pub proof fn lemma_map_of_index(s: Seq<Command>, i: int)
    requires
        unique_texts(s),
        0 <= i < s.len(),
    ensures
        map_of(s).contains_key(s[i].command_text@),
        map_of(s)[s[i].command_text@] == s[i]@,
{
    let t = s[i].command_text@;
    assert(seq_has_text(s, t));
    let j = seq_text_index(s, t);
    assert(0 <= j < s.len() && s[j].command_text@ == t);
    if i != j {
        assert(s[i].command_text@ != s[j].command_text@);
    }
}

/// Inserting an unseen text inserts exactly one key in the derived map.
pub proof fn lemma_map_of_insert(s: Seq<Command>, k: int, c: Command)
    requires
        unique_texts(s),
        0 <= k <= s.len(),
        !seq_has_text(s, c.command_text@),
    ensures
        unique_texts(s.insert(k, c)),
        map_of(s.insert(k, c)) =~= map_of(s).insert(c.command_text@, c@),
{
    let s2 = s.insert(k, c);
    s.insert_ensures(k, c);
    assert forall|i: int, j: int| 0 <= i < j < s2.len() implies s2[i].command_text@
        != s2[j].command_text@ by {
        let oi: int = if i < k {
            i
        } else {
            i - 1
        };
        let oj: int = if j < k {
            j
        } else {
            j - 1
        };
        if i == k {
            assert(s2[j] == s[oj]);
            assert(s2[i] == c);
        } else if j == k {
            assert(s2[i] == s[oi]);
            assert(s2[j] == c);
        } else {
            assert(s2[i] == s[oi] && s2[j] == s[oj]);
        }
    }
    assert forall|t: Seq<char>| #![auto] true implies (seq_has_text(s2, t) <==> (seq_has_text(s, t)
        || t == c.command_text@)) by {
        if seq_has_text(s, t) {
            let i = seq_text_index(s, t);
            if i < k {
                assert(s2[i].command_text@ == t);
            } else {
                assert(s2[i + 1].command_text@ == t);
            }
            assert(seq_has_text(s2, t));
        }
        if t == c.command_text@ {
            assert(s2[k].command_text@ == t);
            assert(seq_has_text(s2, t));
        }
        if seq_has_text(s2, t) {
            let i = seq_text_index(s2, t);
            if i < k {
                assert(s[i].command_text@ == t);
            } else if i == k {
                assert(t == c.command_text@);
            } else {
                assert(s[i - 1].command_text@ == t);
            }
        }
    }
    assert forall|t: Seq<char>| map_of(s2).contains_key(t) implies map_of(s2)[t] == map_of(
        s,
    ).insert(c.command_text@, c@)[t] by {
        if t == c.command_text@ {
            lemma_map_of_index(s2, k);
        } else {
            let i = seq_text_index(s, t);
            assert(0 <= i < s.len() && s[i].command_text@ == t);
            lemma_map_of_index(s, i);
            if i < k {
                lemma_map_of_index(s2, i);
                assert(s2[i] == s[i]);
            } else {
                lemma_map_of_index(s2, i + 1);
                assert(s2[i + 1] == s[i]);
            }
        }
    }
}

/// Removing an entry removes exactly its key from the derived map.
pub proof fn lemma_map_of_remove(s: Seq<Command>, i: int)
    requires
        unique_texts(s),
        0 <= i < s.len(),
    ensures
        unique_texts(s.remove(i)),
        map_of(s.remove(i)) =~= map_of(s).remove(s[i].command_text@),
{
    let s2 = s.remove(i);
    s.remove_ensures(i);
    let t0 = s[i].command_text@;
    assert forall|a: int, b: int| 0 <= a < b < s2.len() implies s2[a].command_text@
        != s2[b].command_text@ by {
        let oa: int = if a < i {
            a
        } else {
            a + 1
        };
        let ob: int = if b < i {
            b
        } else {
            b + 1
        };
        assert(s2[a] == s[oa] && s2[b] == s[ob]);
    }
    assert forall|t: Seq<char>| #![auto] true implies (seq_has_text(s2, t) <==> (seq_has_text(s, t)
        && t != t0)) by {
        if seq_has_text(s2, t) {
            let a = seq_text_index(s2, t);
            let oa: int = if a < i {
                a
            } else {
                a + 1
            };
            assert(s2[a] == s[oa]);
            assert(seq_has_text(s, t));
            assert(oa != i);
            assert(t != t0);
        }
        if seq_has_text(s, t) && t != t0 {
            let a = seq_text_index(s, t);
            assert(a != i);
            if a < i {
                assert(s2[a].command_text@ == t);
            } else {
                assert(s2[a - 1].command_text@ == t);
            }
            assert(seq_has_text(s2, t));
        }
    }
    assert forall|t: Seq<char>| map_of(s2).contains_key(t) implies map_of(s2)[t] == map_of(
        s,
    ).remove(t0)[t] by {
        let a = seq_text_index(s, t);
        assert(0 <= a < s.len() && s[a].command_text@ == t && a != i);
        lemma_map_of_index(s, a);
        if a < i {
            lemma_map_of_index(s2, a);
            assert(s2[a] == s[a]);
        } else {
            lemma_map_of_index(s2, a - 1);
            assert(s2[a - 1] == s[a]);
        }
    }
}

/// Sums the stored scores; the aggregate the store carries.
pub(crate) fn sum_scores_vec(v: &Vec<Command>) -> (s: i128)
    requires
        all_wf(v@),
    ensures
        s == sum_scores(v@),
{
    let mut s: i128 = 0;
    let mut i: usize = 0;
    let n = v.len();
    proof {
        assert(v@.take(0) =~= Seq::<Command>::empty());
    }
    while i < n
        invariant
            i <= n,
            n == v@.len(),
            all_wf(v@),
            s == sum_scores(v@.take(i as int)),
        decreases n - i,
    {
        proof {
            assert(all_wf(v@.take(i as int))) by {
                assert(forall|j: int|
                    0 <= j < i ==> v@.take(i as int)[j] == #[trigger] v@[j]);
            }
            lemma_sum_scores_bounds(v@.take(i as int));
            assert(v@.take(i + 1) =~= v@.take(i as int).push(v@[i as int]));
            lemma_sum_scores_push(v@.take(i as int), v@[i as int]);
            assert(v@[i as int]@.wf());
            assert(i * 0x7fff_ffff + 0x7fff_ffff <= 0xffff_ffff_ffff_ffff * 0x8000_0000)
                by (nonlinear_arith)
                requires
                    0 <= i <= 0xffff_ffff_ffff_ffff,
            ;
        }
        s = s + (v[i].score as i128);
        i = i + 1;
    }
    proof {
        assert(v@.take(n as int) =~= v@);
    }
    s
}

/// Inserts `c` at its ranked position in a sorted, text-unique vector.
pub(crate) fn insert_sorted_entry(v: &mut Vec<Command>, c: Command)
    requires
        sorted_entries(old(v)@),
        unique_texts(old(v)@),
        all_wf(old(v)@),
        !seq_has_text(old(v)@, c.command_text@),
        c.wf(),
    ensures
        sorted_entries(final(v)@),
        unique_texts(final(v)@),
        all_wf(final(v)@),
        final(v)@.len() == old(v)@.len() + 1,
        map_of(final(v)@) =~= map_of(old(v)@).insert(c.command_text@, c@),
        sum_scores(final(v)@) == sum_scores(old(v)@) + c@.score,
{
    let mut k: usize = 0;
    while k < v.len() && !entry_lt_exec(&c, &v[k])
        invariant
            k <= v@.len(),
            v@ == old(v)@,
            forall|j: int| 0 <= j < k ==> !entry_lt(c@, v@[j]@),
        decreases v@.len() - k,
    {
        k = k + 1;
    }
    let ghost olds = v@;
    let ghost pos = k as int;
    v.insert(k, c);
    proof {
        olds.insert_ensures(pos, c);
        lemma_map_of_insert(olds, pos, c);
        lemma_sum_scores_insert(olds, pos, c);
        assert forall|j: int| 0 <= j < pos implies entry_lt(olds[j]@, c@) by {
            assert(olds[j].command_text@ != c.command_text@);
            lemma_entry_lt_total(c@, olds[j]@);
        }
        assert forall|j: int| pos <= j < olds.len() implies entry_lt(c@, olds[j]@) by {
            if j > pos {
                lemma_entry_lt_trans(c@, olds[pos]@, olds[j]@);
            }
        }
        let s2 = v@;
        assert forall|i: int, j: int| 0 <= i < j < s2.len() implies entry_lt(s2[i]@, s2[j]@) by {
            if j < pos {
                assert(s2[i] == olds[i] && s2[j] == olds[j]);
            } else if i < pos && j == pos {
                assert(s2[i] == olds[i] && s2[j] == c);
            } else if i < pos && j > pos {
                assert(s2[i] == olds[i] && s2[j] == olds[j - 1]);
            } else if i == pos {
                assert(s2[i] == c && s2[j] == olds[j - 1]);
            } else {
                assert(s2[i] == olds[i - 1] && s2[j] == olds[j - 1]);
            }
        }
        assert forall|i: int| 0 <= i < v@.len() implies (#[trigger] v@[i])@.wf() by {
            if i < pos {
                assert(v@[i] == olds[i]);
            } else if i == pos {
                assert(v@[i] == c);
            } else {
                assert(v@[i] == olds[i - 1]);
            }
        }
    }
}

/// The frecency store over command entries.
///
/// `command_list` is the ordered index: sorted by score descending with the
/// text as tie-break, one entry per text.  The text-keyed map is the derived
/// `map_view`; the aggregate fields cache the entry count and score sum.
pub struct Database {
    pub command_list: Vec<Command>,
    pub total_num_commands: usize,
    pub total_score: i128,
}

impl Database {
    /// The ordered index.
    pub open spec fn entries(self) -> Seq<Command> {
        self.command_list@
    }

    /// The text-keyed view of the store.
    pub open spec fn map_view(self) -> Map<Seq<char>, EntryView> {
        map_of(self.command_list@)
    }

    /// Whether an entry for `t` is tracked.
    pub open spec fn contains_text(self, t: Seq<char>) -> bool {
        seq_has_text(self.command_list@, t)
    }

    /// The store's invariant: ordered, text-unique, well-formed entries,
    /// and aggregates that match the entries.
    pub open spec fn wf(self) -> bool {
        &&& sorted_entries(self.command_list@)
        &&& unique_texts(self.command_list@)
        &&& all_wf(self.command_list@)
        &&& self.total_num_commands == self.command_list@.len()
        &&& self.total_score == sum_scores(self.command_list@)
    }

    /// The empty store.
    pub fn new() -> (db: Database)
        ensures
            db.wf(),
            db.command_list@.len() == 0,
            db.map_view() =~= Map::<Seq<char>, EntryView>::empty(),
    {
        Database { command_list: Vec::new(), total_num_commands: 0, total_score: 0 }
    }

    /// Finds the index tracking `text`, if any.
    fn find_index(&self, text: &String) -> (r: Option<usize>)
        ensures
            match r {
                Some(i) => i < self.command_list@.len() && self.command_list@[i as int].command_text@ == text@,
                None => !self.contains_text(text@),
            },
    {
        let mut i: usize = 0;
        while i < self.command_list.len()
            invariant
                i <= self.command_list@.len(),
                forall|j: int| 0 <= j < i ==> self.command_list@[j].command_text@ != text@,
            decreases self.command_list@.len() - i,
        {
            if self.command_list[i].command_text == *text {
                return Some(i);
            }
            i = i + 1;
        }
        None
    }

    /// The cached score sum.
    pub fn get_total_score(&self) -> (s: i128)
        ensures
            s == self.total_score,
    {
        self.total_score
    }

    /// How many entries a ranked read of `n` (default five) returns.
    pub open spec fn top_count(self, n: Option<usize>) -> int {
        let k: int = match n {
            Some(v) => v as int,
            None => 5,
        };
        if k <= self.command_list@.len() {
            k
        } else {
            self.command_list@.len() as int
        }
    }

    /// The first `n` entries of the ordered index (default five), best first.
    pub fn get_top_commands(&self, n: Option<usize>) -> (r: Vec<Command>)
        ensures
            r@ == self.command_list@.take(self.top_count(n)),
    {
        let mut k: usize = match n {
            Some(v) => v,
            None => 5,
        };
        if k > self.command_list.len() {
            k = self.command_list.len();
        }
        let mut r: Vec<Command> = Vec::new();
        let mut i: usize = 0;
        proof {
            assert(r@ =~= self.command_list@.take(0));
        }
        while i < k
            invariant
                i <= k,
                k == self.top_count(n),
                k <= self.command_list@.len(),
                r@ == self.command_list@.take(i as int),
            decreases k - i,
        {
            r.push(self.command_list[i].clone());
            proof {
                assert(r@ =~= self.command_list@.take(i + 1));
            }
            i = i + 1;
        }
        r
    }
}

/// Texts a first sighting ignores as noise: short single-word commands.
pub open spec fn noise_text(t: Seq<char>) -> bool {
    &&& sat_i16(sum_lens(words_of(t))) <= NOISE_MAX_LENGTH
    &&& sat_i8(words_of(t).len() as int) == 1
}

/// What a rescale leaves of a text-keyed view: frequencies decayed, scores
/// recomputed as of `now`, entries whose frequency decays to zero dropped.
pub open spec fn rescale_map(m: Map<Seq<char>, EntryView>, now: int) -> Map<Seq<char>, EntryView> {
    Map::new(
        |t: Seq<char>| m.contains_key(t) && decayed(m[t].frequency) >= 1,
        |t: Seq<char>| rescaled_view(m[t], now),
    )
}

/// Every score recomputed as of `now`; nothing enters or leaves.
pub open spec fn refresh_map(m: Map<Seq<char>, EntryView>, now: int) -> Map<Seq<char>, EntryView> {
    Map::new(|t: Seq<char>| m.contains_key(t), |t: Seq<char>| refreshed_view(m[t], now))
}

/// The two stages of an insert: `mid` is the store with the entry for `text`
/// created or bumped; the final state is `mid` itself, or the rescale of
/// `mid` where its score sum passed the threshold.
pub open spec fn add_then_settle(
    pre: Database,
    mid: Database,
    post: Database,
    text: Seq<char>,
    now: int,
) -> bool {
    let target = if pre.contains_text(text) {
        bumped_view(pre.map_view()[text], now)
    } else {
        fresh_view(text, now)
    };
    &&& mid.wf()
    &&& mid.map_view() == pre.map_view().insert(text, target)
    &&& if mid.total_score > SCORE_RESET_THRESHOLD {
        post.wf() && post.map_view() == rescale_map(mid.map_view(), now)
    } else {
        post == mid
    }
}

/// The two stages of a ranked-read refresh: every score recomputed, then a
/// rescale where the refreshed sum passed the threshold.
pub open spec fn refresh_then_settle(
    pre: Database,
    mid: Database,
    post: Database,
    now: int,
) -> bool {
    &&& mid.wf()
    &&& mid.map_view() == refresh_map(pre.map_view(), now)
    &&& if mid.total_score > SCORE_RESET_THRESHOLD {
        post.wf() && post.map_view() == rescale_map(mid.map_view(), now)
    } else {
        post == mid
    }
}

/// What one recorded sighting of `t` at time `now` does to the store.
pub open spec fn added_one(
    pre: Database,
    post: Database,
    t: Seq<char>,
    dc: DeletedCommands,
    now: int,
) -> bool {
    &&& post.wf()
    &&& dc.contains_text(t) ==> post == pre
    &&& !dc.contains_text(t) && !pre.contains_text(t) && noise_text(t) ==> post == pre
    &&& !dc.contains_text(t) && (pre.contains_text(t) || !noise_text(t)) ==> exists|mid: Database|
        add_then_settle(pre, mid, post, t, now)
}

/// What one removal does to the store and the tombstone set.
pub open spec fn removed(
    pre_db: Database,
    pre_dc: DeletedCommands,
    post_db: Database,
    post_dc: DeletedCommands,
    t: Seq<char>,
) -> bool {
    if pre_dc.contains_text(t) {
        post_db == pre_db && post_dc == pre_dc
    } else {
        &&& post_dc.texts() == pre_dc.texts().insert(t)
        &&& post_db.map_view() == pre_db.map_view().remove(t)
    }
}

impl Database {
    /// Rescales the store as of time `now`: every frequency decays to a
    /// tenth (rounded, halves up), scores are recomputed, and entries whose
    /// frequency reaches zero leave; the aggregates are rebuilt from what
    /// survives.
    pub fn score_reset_at(&mut self, now: i64)
        requires
            old(self).wf(),
            0 <= now,
        ensures
            final(self).wf(),
            final(self).map_view() == rescale_map(old(self).map_view(), now as int),
    {
        let ghost orig = self.command_list@;
        let mut out: Vec<Command> = Vec::new();
        let mut i: usize = 0;
        proof {
            assert(orig.take(0) =~= Seq::<Command>::empty());
            assert(map_of(out@) =~= rescale_map(map_of(orig.take(0)), now as int));
        }
        while i < self.command_list.len()
            invariant
                i <= orig.len(),
                self.command_list@ == orig,
                orig == old(self).command_list@,
                unique_texts(orig),
                all_wf(orig),
                sorted_entries(out@),
                unique_texts(out@),
                all_wf(out@),
                map_of(out@) == rescale_map(map_of(orig.take(i as int)), now as int),
                0 <= now,
            decreases orig.len() - i,
        {
            let ghost m_i = map_of(orig.take(i as int));
            let ghost t = orig[i as int].command_text@;
            let ghost v = orig[i as int]@;
            proof {
                assert(orig.take(i + 1) =~= orig.take(i as int).push(orig[i as int]));
                assert(unique_texts(orig.take(i as int))) by {
                    assert(forall|a: int|
                        0 <= a < i ==> orig.take(i as int)[a] == #[trigger] orig[a]);
                }
                assert(!seq_has_text(orig.take(i as int), t)) by {
                    if seq_has_text(orig.take(i as int), t) {
                        let j = seq_text_index(orig.take(i as int), t);
                        assert(orig.take(i as int)[j] == orig[j]);
                        assert(orig[j].command_text@ != orig[i as int].command_text@);
                    }
                }
                lemma_map_of_insert(orig.take(i as int), i as int, orig[i as int]);
                assert(orig.take(i as int).insert(i as int, orig[i as int]) =~= orig.take(i + 1));
                assert(map_of(orig.take(i + 1)) =~= m_i.insert(t, v));
            }
            let mut e = self.command_list[i].clone();
            let newf: i32 = (((e.frequency as u64) + 5) / 10) as i32;
            proof {
                assert(newf == decayed(v.frequency));
            }
            if newf >= 1 {
                e.frequency = newf;
                e.score = compute_score(e.length, e.frequency, e.last_access_time, now);
                proof {
                    crate::score::lemma_score_nonneg(
                        e.length as int,
                        e.frequency as int,
                        now - e.last_access_time,
                    );
                    assert(e@ == rescaled_view(v, now as int));
                    assert(!seq_has_text(out@, t)) by {
                        if seq_has_text(out@, t) {
                            assert(map_of(out@).contains_key(t));
                            assert(m_i.contains_key(t));
                        }
                    }
                }
                insert_sorted_entry(&mut out, e);
                proof {
                    assert(map_of(out@) =~= rescale_map(map_of(orig.take(i + 1)), now as int));
                }
            } else {
                proof {
                    assert(map_of(out@) =~= rescale_map(map_of(orig.take(i + 1)), now as int));
                }
            }
            i = i + 1;
        }
        proof {
            assert(orig.take(orig.len() as int) =~= orig);
        }
        self.command_list = out;
        self.total_num_commands = self.command_list.len();
        let ts = sum_scores_vec(&self.command_list);
        self.total_score = ts;
    }

    /// Rescales the store, read off the wall clock.
    pub fn score_reset(&mut self)
        requires
            old(self).wf(),
        ensures
            final(self).wf(),
            exists|now: int|
                0 <= now && final(self).map_view() == rescale_map(old(self).map_view(), now),
    {
        let now = now_seconds();
        self.score_reset_at(now);
    }

    /// Recomputes every score as of time `now` and rescales where the
    /// refreshed sum passes the threshold.
    pub fn update_db_at(&mut self, now: i64)
        requires
            old(self).wf(),
            0 <= now,
        ensures
            final(self).wf(),
            exists|mid: Database|
                refresh_then_settle(*old(self), mid, *final(self), now as int),
    {
        let ghost orig = self.command_list@;
        let mut out: Vec<Command> = Vec::new();
        let mut i: usize = 0;
        proof {
            assert(orig.take(0) =~= Seq::<Command>::empty());
            assert(map_of(out@) =~= refresh_map(map_of(orig.take(0)), now as int));
        }
        while i < self.command_list.len()
            invariant
                i <= orig.len(),
                self.command_list@ == orig,
                orig == old(self).command_list@,
                unique_texts(orig),
                all_wf(orig),
                sorted_entries(out@),
                unique_texts(out@),
                all_wf(out@),
                map_of(out@) == refresh_map(map_of(orig.take(i as int)), now as int),
                0 <= now,
            decreases orig.len() - i,
        {
            let ghost m_i = map_of(orig.take(i as int));
            let ghost t = orig[i as int].command_text@;
            let ghost v = orig[i as int]@;
            proof {
                assert(orig.take(i + 1) =~= orig.take(i as int).push(orig[i as int]));
                assert(unique_texts(orig.take(i as int))) by {
                    assert(forall|a: int|
                        0 <= a < i ==> orig.take(i as int)[a] == #[trigger] orig[a]);
                }
                assert(!seq_has_text(orig.take(i as int), t)) by {
                    if seq_has_text(orig.take(i as int), t) {
                        let j = seq_text_index(orig.take(i as int), t);
                        assert(orig.take(i as int)[j] == orig[j]);
                        assert(orig[j].command_text@ != orig[i as int].command_text@);
                    }
                }
                lemma_map_of_insert(orig.take(i as int), i as int, orig[i as int]);
                assert(orig.take(i as int).insert(i as int, orig[i as int]) =~= orig.take(i + 1));
                assert(map_of(orig.take(i + 1)) =~= m_i.insert(t, v));
            }
            let mut e = self.command_list[i].clone();
            e.update_at(now);
            proof {
                assert(e@ == refreshed_view(v, now as int));
                assert(!seq_has_text(out@, t)) by {
                    if seq_has_text(out@, t) {
                        assert(map_of(out@).contains_key(t));
                        assert(m_i.contains_key(t));
                    }
                }
            }
            insert_sorted_entry(&mut out, e);
            proof {
                assert(map_of(out@) =~= refresh_map(map_of(orig.take(i + 1)), now as int));
            }
            i = i + 1;
        }
        proof {
            assert(orig.take(orig.len() as int) =~= orig);
        }
        self.command_list = out;
        self.total_num_commands = self.command_list.len();
        let ts = sum_scores_vec(&self.command_list);
        self.total_score = ts;
        let ghost mid = *self;
        if self.total_score > SCORE_RESET_THRESHOLD {
            self.score_reset_at(now);
        }
        proof {
            assert(refresh_then_settle(*old(self), mid, *self, now as int));
        }
    }

    /// Recomputes every score, read off the wall clock.
    pub fn update_db(&mut self)
        requires
            old(self).wf(),
        ensures
            final(self).wf(),
            exists|now: int, mid: Database|
                0 <= now && refresh_then_settle(*old(self), mid, *final(self), now),
    {
        let now = now_seconds();
        self.update_db_at(now);
    }

    /// Inserts one sighting of `command_str` at time `now`: ignored while
    /// tombstoned; a tracked text is bumped; an unseen text enters unless the
    /// noise filter drops it; then a rescale settles the threshold.
    pub fn add_command_at(
        &mut self,
        command_str: String,
        deleted_commands: &DeletedCommands,
        now: i64,
    )
        requires
            old(self).wf(),
            0 <= now,
        ensures
            final(self).wf(),
            added_one(*old(self), *final(self), command_str@, *deleted_commands, now as int),
    {
        if deleted_commands.contains(&command_str) {
            return ;
        }
        let ghost t = command_str@;
        let ghost orig = self.command_list@;
        match self.find_index(&command_str) {
            Some(i) => {
                let mut e = self.command_list.remove(i);
                proof {
                    orig.remove_ensures(i as int);
                    lemma_map_of_remove(orig, i as int);
                    lemma_map_of_index(orig, i as int);
                    let s2 = self.command_list@;
                    assert forall|a: int, b: int| 0 <= a < b < s2.len() implies entry_lt(
                        s2[a]@,
                        s2[b]@,
                    ) by {
                        let oa: int = if a < i {
                            a
                        } else {
                            a + 1
                        };
                        let ob: int = if b < i {
                            b
                        } else {
                            b + 1
                        };
                        assert(s2[a] == orig[oa] && s2[b] == orig[ob]);
                    }
                    assert forall|a: int| 0 <= a < s2.len() implies (#[trigger] s2[a])@.wf() by {
                        let oa: int = if a < i {
                            a
                        } else {
                            a + 1
                        };
                        assert(s2[a] == orig[oa]);
                    }
                    assert(!seq_has_text(s2, t)) by {
                        if seq_has_text(s2, t) {
                            assert(map_of(s2).contains_key(t));
                        }
                    }
                }
                e.add_at(now);
                insert_sorted_entry(&mut self.command_list, e);
                proof {
                    assert(map_of(self.command_list@) =~= map_of(orig).insert(
                        t,
                        bumped_view(orig[i as int]@, now as int),
                    ));
                }
            },
            None => {
                let e = Command::new_at(command_str, now);
                if e.length <= NOISE_MAX_LENGTH && e.number_of_words == 1 {
                    return ;
                }
                insert_sorted_entry(&mut self.command_list, e);
            },
        }
        self.total_num_commands = self.command_list.len();
        let ts = sum_scores_vec(&self.command_list);
        self.total_score = ts;
        let ghost mid = *self;
        if self.total_score > SCORE_RESET_THRESHOLD {
            self.score_reset_at(now);
        }
        proof {
            assert(add_then_settle(*old(self), mid, *self, t, now as int));
        }
    }

    /// Inserts one sighting, read off the wall clock.
    pub fn add_command(&mut self, command_str: String, deleted_commands: &DeletedCommands)
        requires
            old(self).wf(),
        ensures
            final(self).wf(),
            exists|now: int|
                0 <= now && added_one(
                    *old(self),
                    *final(self),
                    command_str@,
                    *deleted_commands,
                    now,
                ),
    {
        let now = now_seconds();
        self.add_command_at(command_str, deleted_commands, now);
    }

    /// Removes the entry for `command_str` and tombstones the text; a second
    /// removal of the same text is a no-op.
    pub fn remove_command(&mut self, command_str: &String, deleted_commands: &mut DeletedCommands)
        requires
            old(self).wf(),
            old(deleted_commands).wf(),
        ensures
            final(self).wf(),
            final(deleted_commands).wf(),
            removed(
                *old(self),
                *old(deleted_commands),
                *final(self),
                *final(deleted_commands),
                command_str@,
            ),
    {
        if deleted_commands.contains(command_str) {
            return ;
        }
        deleted_commands.insert(command_str.clone());
        let ghost t = command_str@;
        let ghost orig = self.command_list@;
        match self.find_index(command_str) {
            Some(i) => {
                let _ = self.command_list.remove(i);
                proof {
                    orig.remove_ensures(i as int);
                    lemma_map_of_remove(orig, i as int);
                    let s2 = self.command_list@;
                    assert forall|a: int, b: int| 0 <= a < b < s2.len() implies entry_lt(
                        s2[a]@,
                        s2[b]@,
                    ) by {
                        let oa: int = if a < i {
                            a
                        } else {
                            a + 1
                        };
                        let ob: int = if b < i {
                            b
                        } else {
                            b + 1
                        };
                        assert(s2[a] == orig[oa] && s2[b] == orig[ob]);
                    }
                    assert forall|a: int| 0 <= a < s2.len() implies (#[trigger] s2[a])@.wf() by {
                        let oa: int = if a < i {
                            a
                        } else {
                            a + 1
                        };
                        assert(s2[a] == orig[oa]);
                    }
                }
                self.total_num_commands = self.command_list.len();
                let ts = sum_scores_vec(&self.command_list);
                self.total_score = ts;
            },
            None => {
                proof {
                    assert(map_of(self.command_list@) =~= map_of(orig).remove(t));
                }
            },
        }
    }
}

/// Removing a text twice leaves exactly the state one removal leaves: the
/// second removal meets the tombstone and changes nothing.
pub proof fn lemma_remove_idempotent(
    db0: Database,
    dc0: DeletedCommands,
    db1: Database,
    dc1: DeletedCommands,
    db2: Database,
    dc2: DeletedCommands,
    t: Seq<char>,
)
    requires
        removed(db0, dc0, db1, dc1, t),
        removed(db1, dc1, db2, dc2, t),
    ensures
        db2 == db1,
        dc2 == dc1,
{
    if !dc0.contains_text(t) {
        assert(dc1.texts().contains(t));
        assert(dc1.contains_text(t));
    }
}

/// The texts of the entries, in ranking order.
pub open spec fn entry_texts(s: Seq<Command>) -> Seq<Seq<char>> {
    Seq::new(s.len(), |i: int| s[i].command_text@)
}

/// Sum of the mapped scores over an enumeration of the keys.
pub open spec fn sum_map_over(m: Map<Seq<char>, EntryView>, ts: Seq<Seq<char>>) -> int
    decreases ts.len(),
{
    if ts.len() == 0 {
        0
    } else {
        m[ts[0]].score + sum_map_over(m, ts.drop_first())
    }
}

proof fn lemma_sum_map_over_entries(m: Map<Seq<char>, EntryView>, s: Seq<Command>)
    requires
        forall|i: int|
            0 <= i < s.len() ==> m.contains_key((#[trigger] s[i]).command_text@) && m[s[i].command_text@]
                == s[i]@,
    ensures
        sum_map_over(m, entry_texts(s)) == sum_scores(s),
    decreases s.len(),
{
    if s.len() == 0 {
    } else {
        assert(entry_texts(s)[0] == s[0].command_text@);
        assert(entry_texts(s).drop_first() =~~= entry_texts(s.drop_first()));
        assert(forall|i: int|
            0 <= i < s.drop_first().len() ==> #[trigger] s.drop_first()[i] == s[i + 1]);
        lemma_sum_map_over_entries(m, s.drop_first());
    }
}

/// The dual indexes of a well-formed store agree: the ordered index and the
/// text-keyed map hold the same texts, entry for entry, and the cached
/// aggregates equal the score sum taken over either one.
pub proof fn lemma_indexes_consistent(db: Database)
    requires
        db.wf(),
    ensures
        db.total_score == sum_scores(db.entries()),
        db.total_num_commands == db.entries().len(),
        forall|t: Seq<char>| #[trigger]
            db.map_view().contains_key(t) <==> seq_has_text(db.entries(), t),
        forall|i: int|
            0 <= i < db.entries().len() ==> db.map_view()[(#[trigger] db.entries()[i]).command_text@]
                == db.entries()[i]@,
        db.total_score == sum_map_over(db.map_view(), entry_texts(db.entries())),
        entry_texts(db.entries()).no_duplicates(),
{
    assert forall|i: int| 0 <= i < db.entries().len() implies db.map_view()[(
    #[trigger] db.entries()[i]).command_text@] == db.entries()[i]@ by {
        lemma_map_of_index(db.command_list@, i);
    }
    assert forall|i: int| 0 <= i < db.entries().len() implies db.map_view().contains_key((
    #[trigger] db.entries()[i]).command_text@) by {
        lemma_map_of_index(db.command_list@, i);
    }
    lemma_sum_map_over_entries(db.map_view(), db.command_list@);
}

} // verus!
