//! Rebuilding a store from persisted pieces.
//!
//! A persisted store record carries both the ordered list and the text-keyed
//! map of entries.  The two are expected to describe the same set; on load
//! they are reconciled — the map's entries are the source of truth, the list
//! stands in where the map came back empty — and every entry is clamped back
//! into its bounds, so the rebuilt store satisfies the invariant whatever
//! the record held.

use vstd::prelude::*;
use vstd::string::*;
use crate::entry::{lemma_entry_lt_asym, Command, EntryView};
use crate::store::{
    all_wf, lemma_map_of_index, lemma_map_of_insert, lemma_map_of_remove, map_of, seq_has_text,
    seq_text_index, sorted_entries, unique_texts, Database,
};

verus! {

/// An entry clamped back into the store's bounds.
pub open spec fn sanitized_view(e: EntryView) -> EntryView {
    EntryView {
        score: if e.score < 0 {
            0
        } else {
            e.score
        },
        last_access_time: if e.last_access_time < 0 {
            0
        } else {
            e.last_access_time
        },
        frequency: if e.frequency < 1 {
            1
        } else {
            e.frequency
        },
        length: if e.length < 0 {
            0
        } else {
            e.length
        },
        text: e.text,
        number_of_words: if e.number_of_words < 0 {
            0
        } else {
            e.number_of_words
        },
    }
}

/// Clamping changes nothing about an entry that keeps its bounds.
pub proof fn lemma_sanitize_identity(e: EntryView)
    requires
        e.wf(),
    ensures
        sanitized_view(e) == e,
{
}

/// The map a sequence of persisted entries describes: first occurrence of a
/// text wins, every entry clamped into bounds.
pub open spec fn build_map(s: Seq<Command>) -> Map<Seq<char>, EntryView>
    decreases s.len(),
{
    if s.len() == 0 {
        Map::<Seq<char>, EntryView>::empty()
    } else {
        let m = build_map(s.drop_last());
        if m.contains_key(s.last().command_text@) {
            m
        } else {
            m.insert(s.last().command_text@, sanitized_view(s.last()@))
        }
    }
}

/// On an ordered, text-unique, in-bounds sequence — what a well-formed store
/// holds — the persisted map is exactly the store's own.
pub proof fn lemma_build_map_of_wf(s: Seq<Command>)
    requires
        unique_texts(s),
        all_wf(s),
    ensures
        build_map(s) == map_of(s),
    decreases s.len(),
{
    if s.len() == 0 {
        assert(build_map(s) =~= map_of(s));
    } else {
        let d = s.drop_last();
        assert(unique_texts(d) && all_wf(d)) by {
            assert(forall|i: int| 0 <= i < d.len() ==> #[trigger] d[i] == s[i]);
        }
        lemma_build_map_of_wf(d);
        assert(!seq_has_text(d, s.last().command_text@)) by {
            if seq_has_text(d, s.last().command_text@) {
                let j = seq_text_index(d, s.last().command_text@);
                assert(d[j] == s[j]);
                assert(s[j].command_text@ != s[s.len() - 1].command_text@);
            }
        }
        lemma_map_of_insert(d, d.len() as int, s.last());
        assert(d.insert(d.len() as int, s.last()) =~= s);
        assert(s.last()@.wf());
        lemma_sanitize_identity(s.last()@);
        assert(build_map(s) =~= map_of(s));
    }
}

/// Two well-formed stores with the same text-keyed view hold the same
/// entries in the same order: the ordered index is determined by the map.
pub proof fn lemma_sorted_by_map(s1: Seq<Command>, s2: Seq<Command>)
    requires
        sorted_entries(s1),
        unique_texts(s1),
        sorted_entries(s2),
        unique_texts(s2),
        map_of(s1) == map_of(s2),
    ensures
        s1.len() == s2.len(),
        forall|i: int| 0 <= i < s1.len() ==> (#[trigger] s1[i])@ == s2[i]@,
    decreases s1.len(),
{
    if s1.len() == 0 {
        if s2.len() > 0 {
            lemma_map_of_index(s2, 0);
            assert(map_of(s1).contains_key(s2[0].command_text@));
            assert(seq_has_text(s1, s2[0].command_text@));
        }
    } else if s2.len() == 0 {
        lemma_map_of_index(s1, 0);
        assert(map_of(s2).contains_key(s1[0].command_text@));
        assert(seq_has_text(s2, s1[0].command_text@));
    } else {
        let m = map_of(s1);
        let t1 = s1[0].command_text@;
        let t2 = s2[0].command_text@;
        lemma_map_of_index(s1, 0);
        lemma_map_of_index(s2, 0);
        assert(m.contains_key(t1));
        assert(map_of(s2).contains_key(t1));
        let j = seq_text_index(s2, t1);
        assert(0 <= j < s2.len() && s2[j].command_text@ == t1);
        lemma_map_of_index(s2, j);
        assert(s2[j]@ == s1[0]@);
        assert(m.contains_key(t2));
        let k = seq_text_index(s1, t2);
        assert(0 <= k < s1.len() && s1[k].command_text@ == t2);
        lemma_map_of_index(s1, k);
        assert(s1[k]@ == s2[0]@);
        if j > 0 && k > 0 {
            assert(crate::entry::entry_lt(s2[0]@, s2[j]@));
            assert(crate::entry::entry_lt(s1[0]@, s1[k]@));
            lemma_entry_lt_asym(s2[0]@, s2[j]@);
        }
        assert(s1[0]@ == s2[0]@);
        let d1 = s1.remove(0);
        let d2 = s2.remove(0);
        s1.remove_ensures(0);
        s2.remove_ensures(0);
        lemma_map_of_remove(s1, 0);
        lemma_map_of_remove(s2, 0);
        assert(t1 == t2);
        assert(map_of(d1) =~= map_of(d2));
        assert(sorted_entries(d1) && sorted_entries(d2)) by {
            assert(forall|i: int| 0 <= i < d1.len() ==> #[trigger] d1[i] == s1[i + 1]);
            assert(forall|i: int| 0 <= i < d2.len() ==> #[trigger] d2[i] == s2[i + 1]);
        }
        lemma_sorted_by_map(d1, d2);
        assert forall|i: int| 0 <= i < s1.len() implies (#[trigger] s1[i])@ == s2[i]@ by {
            if i > 0 {
                assert(d1[i - 1] == s1[i] && d2[i - 1] == s2[i]);
                assert(d1[i - 1]@ == d2[i - 1]@);
            }
        }
    }
}

/// A store rebuilt from the persisted pieces of a well-formed store ranks
/// exactly as the saved store did: same entries, same order, so
/// `get_top_commands` answers alike for every `n`.
pub proof fn lemma_snapshot_round_trip(db: Database, db2: Database)
    requires
        db.wf(),
        db2.wf(),
        db2.map_view() == build_map(db.command_list@),
    ensures
        db2.command_list@.len() == db.command_list@.len(),
        forall|i: int|
            0 <= i < db.command_list@.len() ==> (#[trigger] db2.command_list@[i])@
                == db.command_list@[i]@,
        forall|n: Option<usize>| db2.top_count(n) == db.top_count(n),
{
    lemma_build_map_of_wf(db.command_list@);
    lemma_sorted_by_map(db2.command_list@, db.command_list@);
}

/// Whether some entry of `v` carries the text of `e`.
fn vec_has_text(v: &Vec<Command>, e: &Command) -> (r: bool)
    ensures
        r == seq_has_text(v@, e.command_text@),
{
    let mut i: usize = 0;
    while i < v.len()
        invariant
            i <= v@.len(),
            forall|j: int| 0 <= j < i ==> v@[j].command_text@ != e.command_text@,
        decreases v@.len() - i,
    {
        if v[i].command_text == e.command_text {
            return true;
        }
        i = i + 1;
    }
    false
}

/// An entry clamped back into the store's bounds.
fn sanitize(e: Command) -> (r: Command)
    ensures
        r@ == sanitized_view(e@),
        r.wf(),
{
    Command {
        score: if e.score < 0 {
            0
        } else {
            e.score
        },
        last_access_time: if e.last_access_time < 0 {
            0
        } else {
            e.last_access_time
        },
        frequency: if e.frequency < 1 {
            1
        } else {
            e.frequency
        },
        length: if e.length < 0 {
            0
        } else {
            e.length
        },
        command_text: e.command_text,
        number_of_words: if e.number_of_words < 0 {
            0
        } else {
            e.number_of_words
        },
    }
}

impl Database {
    /// A copy of the ordered index, for persisting.
    pub fn entries_snapshot(&self) -> (r: Vec<Command>)
        ensures
            r@ == self.command_list@,
    {
        let mut r: Vec<Command> = Vec::new();
        let mut i: usize = 0;
        proof {
            assert(r@ =~= self.command_list@.take(0));
        }
        while i < self.command_list.len()
            invariant
                i <= self.command_list@.len(),
                r@ == self.command_list@.take(i as int),
            decreases self.command_list@.len() - i,
        {
            r.push(self.command_list[i].clone());
            proof {
                assert(r@ =~= self.command_list@.take(i + 1));
            }
            i = i + 1;
        }
        proof {
            assert(self.command_list@.take(self.command_list@.len() as int)
                =~= self.command_list@);
        }
        r
    }

    /// Rebuilds a store from a persisted record's two descriptions of the
    /// entries: the text-keyed map's entries are the source of truth, the
    /// ordered list stands in where the map came back empty, every entry is
    /// clamped into bounds, the first occurrence of a text wins, and the
    /// aggregates are recomputed, so the result is well-formed whatever the
    /// record held.
    pub fn from_parts(command_list: Vec<Command>, map_entries: Vec<Command>) -> (db: Database)
        ensures
            db.wf(),
            map_entries@.len() > 0 ==> db.map_view() == build_map(map_entries@),
            map_entries@.len() == 0 ==> db.map_view() == build_map(command_list@),
    {
        let src: Vec<Command> = if map_entries.len() > 0 {
            map_entries
        } else {
            command_list
        };
        let mut out: Vec<Command> = Vec::new();
        let mut i: usize = 0;
        proof {
            assert(src@.take(0) =~= Seq::<Command>::empty());
            assert(map_of(out@) =~= build_map(src@.take(0)));
        }
        while i < src.len()
            invariant
                i <= src@.len(),
                sorted_entries(out@),
                unique_texts(out@),
                all_wf(out@),
                map_of(out@) == build_map(src@.take(i as int)),
            decreases src@.len() - i,
        {
            proof {
                assert(src@.take(i + 1).drop_last() =~= src@.take(i as int));
                assert(src@.take(i + 1).last() == src@[i as int]);
            }
            let e = sanitize(src[i].clone());
            if !vec_has_text(&out, &e) {
                crate::store::insert_sorted_entry(&mut out, e);
                proof {
                    assert(map_of(out@) =~= build_map(src@.take(i + 1)));
                }
            } else {
                proof {
                    assert(map_of(out@) =~= build_map(src@.take(i + 1)));
                }
            }
            i = i + 1;
        }
        proof {
            assert(src@.take(src@.len() as int) =~= src@);
        }
        let total_num_commands = out.len();
        let total_score = crate::store::sum_scores_vec(&out);
        Database { command_list: out, total_num_commands, total_score }
    }
}

} // verus!
