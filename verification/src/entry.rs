//! The command entry: one tracked command with its frecency bookkeeping.

use vstd::prelude::*;
use vstd::string::*;
use crate::clock::now_seconds;
use crate::score::{compute_score, score_at};
use crate::text::{chars_of, lex_lt, lex_lt_exec, split_words, sum_lens, words_of};

verus! {

/// Saturation of a non-negative count into an `i16`.
pub open spec fn sat_i16(x: int) -> int {
    if x > i16::MAX {
        i16::MAX as int
    } else {
        x
    }
}

/// Saturation of a non-negative count into an `i8`.
pub open spec fn sat_i8(x: int) -> int {
    if x > i8::MAX {
        i8::MAX as int
    } else {
        x
    }
}

/// A tracked command: its text, the word statistics the score depends on,
/// and the frecency bookkeeping fields.
pub struct Command {
    pub score: i32,
    pub last_access_time: i64,
    pub frequency: i32,
    pub length: i16,
    pub command_text: String,
    pub number_of_words: i8,
}

/// The mathematical value of a command entry.
pub struct EntryView {
    pub score: int,
    pub last_access_time: int,
    pub frequency: int,
    pub length: int,
    pub text: Seq<char>,
    pub number_of_words: int,
}

impl View for Command {
    type V = EntryView;

    open spec fn view(&self) -> EntryView {
        EntryView {
            score: self.score as int,
            last_access_time: self.last_access_time as int,
            frequency: self.frequency as int,
            length: self.length as int,
            text: self.command_text@,
            number_of_words: self.number_of_words as int,
        }
    }
}

impl EntryView {
    /// The bounds every stored entry keeps.
    pub open spec fn wf(self) -> bool {
        &&& 0 <= self.length
        &&& 1 <= self.frequency
        &&& 0 <= self.number_of_words
        &&& 0 <= self.last_access_time
        &&& 0 <= self.score
    }
}

/// The entry a first sighting of `text` at time `now` creates.
pub open spec fn fresh_view(text: Seq<char>, now: int) -> EntryView {
    let length = sat_i16(sum_lens(words_of(text)));
    EntryView {
        score: score_at(length, 1, 0),
        last_access_time: now,
        frequency: 1,
        length,
        text,
        number_of_words: sat_i8(words_of(text).len() as int),
    }
}

/// A repeat sighting at time `now`: frequency up by one (saturating), access
/// time refreshed, score recomputed with no elapsed time.
pub open spec fn bumped_view(e: EntryView, now: int) -> EntryView {
    let f = if e.frequency >= i32::MAX {
        i32::MAX as int
    } else {
        e.frequency + 1
    };
    EntryView { score: score_at(e.length, f, 0), last_access_time: now, frequency: f, ..e }
}

/// A score refresh as of time `now`: nothing else moves.
pub open spec fn refreshed_view(e: EntryView, now: int) -> EntryView {
    EntryView { score: score_at(e.length, e.frequency, now - e.last_access_time), ..e }
}

/// The decayed frequency a rescale leaves: a tenth, rounded to nearest with
/// halves up.
pub open spec fn decayed(f: int) -> int {
    (f + 5) / 10
}

/// The rescale mutation at time `now`: frequency decayed, score recomputed,
/// access time kept.
pub open spec fn rescaled_view(e: EntryView, now: int) -> EntryView {
    EntryView {
        frequency: decayed(e.frequency),
        score: score_at(e.length, decayed(e.frequency), now - e.last_access_time),
        ..e
    }
}

/// The ranking order: score descending, text ascending as the tie-break.
pub open spec fn entry_lt(a: EntryView, b: EntryView) -> bool {
    ||| a.score > b.score
    ||| (a.score == b.score && lex_lt(a.text, b.text))
}

/// The ranking order is transitive.
pub proof fn lemma_entry_lt_trans(a: EntryView, b: EntryView, c: EntryView)
    requires
        entry_lt(a, b),
        entry_lt(b, c),
    ensures
        entry_lt(a, c),
{
    if a.score == b.score && b.score == c.score {
        crate::text::lemma_lex_lt_trans(a.text, b.text, c.text);
    }
}

/// The ranking order is asymmetric.
pub proof fn lemma_entry_lt_asym(a: EntryView, b: EntryView)
    requires
        entry_lt(a, b),
    ensures
        !entry_lt(b, a),
{
    if a.score == b.score {
        if lex_lt(a.text, b.text) && lex_lt(b.text, a.text) {
            crate::text::lemma_lex_lt_trans(a.text, b.text, a.text);
            crate::text::lemma_lex_lt_irrefl(a.text);
        }
    }
}

/// The ranking order is total over entries with distinct texts.
pub proof fn lemma_entry_lt_total(a: EntryView, b: EntryView)
    requires
        a.text != b.text,
        !entry_lt(a, b),
    ensures
        entry_lt(b, a),
{
    if a.score == b.score {
        if !lex_lt(b.text, a.text) {
            crate::text::lemma_lex_lt_connex(a.text, b.text);
        }
    }
}

/// Runtime comparison realizing `entry_lt`.
pub fn entry_lt_exec(a: &Command, b: &Command) -> (r: bool)
    ensures
        r == entry_lt(a@, b@),
{
    if a.score > b.score {
        true
    } else if a.score == b.score {
        let ta = chars_of(a.command_text.as_str());
        let tb = chars_of(b.command_text.as_str());
        lex_lt_exec(&ta, &tb)
    } else {
        false
    }
}

impl Clone for Command {
    /// Field-for-field copy.
    fn clone(&self) -> (r: Self)
        ensures
            r == *self,
    {
        Command {
            score: self.score,
            last_access_time: self.last_access_time,
            frequency: self.frequency,
            length: self.length,
            command_text: self.command_text.clone(),
            number_of_words: self.number_of_words,
        }
    }
}

impl Command {
    /// The bounds every stored entry keeps.
    pub open spec fn wf(self) -> bool {
        self@.wf()
    }

    /// Builds the entry for a first sighting of `command_text` at time `now`.
    pub fn new_at(command_text: String, now: i64) -> (c: Command)
        requires
            0 <= now,
        ensures
            c@ == fresh_view(command_text@, now as int),
            c.wf(),
    {
        let cs = chars_of(command_text.as_str());
        let ws = split_words(&cs);
        let length = clamped_sum_lens(&ws);
        let number_of_words = clamped_word_count(&ws);
        let score = compute_score(length, 1, now, now);
        proof {
            crate::score::lemma_score_nonneg(length as int, 1, 0);
        }
        Command { score, last_access_time: now, frequency: 1, length, command_text, number_of_words }
    }

    /// Builds the entry for a first sighting, read off the wall clock.
    pub fn new(command_text: String) -> (c: Command)
        ensures
            c.wf(),
            exists|now: int| 0 <= now && c@ == fresh_view(command_text@, now),
    {
        let now = now_seconds();
        Command::new_at(command_text, now)
    }

    /// Records a repeat sighting at time `now`.
    pub fn add_at(&mut self, now: i64)
        requires
            old(self).wf(),
            0 <= now,
        ensures
            final(self).wf(),
            final(self)@ == bumped_view(old(self)@, now as int),
    {
        self.last_access_time = now;
        if self.frequency < i32::MAX {
            self.frequency = self.frequency + 1;
        }
        self.score = compute_score(self.length, self.frequency, self.last_access_time, now);
        proof {
            crate::score::lemma_score_nonneg(self.length as int, self.frequency as int, 0);
        }
    }

    /// Records a repeat sighting, read off the wall clock.
    pub fn add(&mut self)
        requires
            old(self).wf(),
        ensures
            final(self).wf(),
            exists|now: int| 0 <= now && final(self)@ == bumped_view(old(self)@, now),
    {
        let now = now_seconds();
        self.add_at(now);
    }

    /// Recomputes the score as of time `now`, leaving the rest alone.
    pub fn update_at(&mut self, now: i64)
        requires
            old(self).wf(),
            0 <= now,
        ensures
            final(self).wf(),
            final(self)@ == refreshed_view(old(self)@, now as int),
    {
        self.score = compute_score(self.length, self.frequency, self.last_access_time, now);
        proof {
            crate::score::lemma_score_nonneg(
                self.length as int,
                self.frequency as int,
                now - self.last_access_time,
            );
        }
    }

    /// Recomputes the score, read off the wall clock.
    pub fn update(&mut self)
        requires
            old(self).wf(),
        ensures
            final(self).wf(),
            exists|now: int| 0 <= now && final(self)@ == refreshed_view(old(self)@, now),
    {
        let now = now_seconds();
        self.update_at(now);
    }
}

/// Sum of word lengths, saturated into an `i16`.
fn clamped_sum_lens(ws: &Vec<Vec<char>>) -> (l: i16)
    ensures
        l == sat_i16(sum_lens(ws.deep_view())),
        0 <= l,
{
    let mut acc: u64 = 0;
    let mut i: usize = 0;
    proof {
        assert(ws.deep_view().take(0) =~~= Seq::<Seq<char>>::empty());
    }
    while i < ws.len()
        invariant
            i <= ws.len(),
            ws.deep_view().len() == ws.len(),
            acc <= 0x8000,
            acc == if sum_lens(ws.deep_view().take(i as int)) > 0x8000 {
                0x8000int
            } else {
                sum_lens(ws.deep_view().take(i as int))
            },
        decreases ws.len() - i,
    {
        proof {
            crate::text::lemma_sum_lens_nonneg(ws.deep_view().take(i as int));
            assert(ws.deep_view().take(i + 1) =~~= ws.deep_view().take(i as int).push(
                ws.deep_view()[i as int],
            ));
            crate::text::lemma_sum_lens_push(ws.deep_view().take(i as int), ws.deep_view()[i as int]);
        }
        let wl: usize = ws[i].len();
        let add: u64 = if wl >= 0x8000 {
            0x8000
        } else {
            wl as u64
        };
        acc = acc + add;
        if acc > 0x8000 {
            acc = 0x8000;
        }
        i = i + 1;
    }
    proof {
        assert(ws.deep_view().take(ws.len() as int) =~~= ws.deep_view());
    }
    if acc > i16::MAX as u64 {
        i16::MAX
    } else {
        acc as i16
    }
}

/// Word count, saturated into an `i8`.
fn clamped_word_count(ws: &Vec<Vec<char>>) -> (n: i8)
    ensures
        n == sat_i8(ws.deep_view().len() as int),
{
    if ws.len() > i8::MAX as usize {
        i8::MAX
    } else {
        ws.len() as i8
    }
}

} // verus!
