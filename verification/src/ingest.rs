//! The ingestion pipeline: a raw command line becomes a sequence of word
//! prefixes fed to the store, so partial command chains accumulate rank
//! independently of their varying suffixes.

use vstd::prelude::*;
use vstd::string::*;
use crate::clock::now_seconds;
use crate::store::{added_one, Database, DeletedCommands};
use crate::text::{
    chars_eq, chars_of, join_words, lemma_join_push, split_words, string_from_chars, words_of,
};

verus! {

/// The texts the pipeline feeds to the store: every left-to-right word
/// prefix, ending with the full whitespace-normal command line.
pub open spec fn prefix_texts(ws: Seq<Seq<char>>) -> Seq<Seq<char>> {
    Seq::new(ws.len(), |k: int| join_words(ws.take(k + 1)))
}

/// A chain of single sightings, all recorded at time `now`.
pub open spec fn inserted_chain(
    pre: Database,
    post: Database,
    texts: Seq<Seq<char>>,
    dc: DeletedCommands,
    now: int,
) -> bool
    decreases texts.len(),
{
    if texts.len() == 0 {
        post == pre
    } else {
        exists|mid: Database|
            #![trigger added_one(pre, mid, texts[0], dc, now)]
            added_one(pre, mid, texts[0], dc, now) && inserted_chain(
                mid,
                post,
                texts.drop_first(),
                dc,
                now,
            )
    }
}

proof fn lemma_chain_snoc(
    pre: Database,
    mid: Database,
    post: Database,
    texts: Seq<Seq<char>>,
    t: Seq<char>,
    dc: DeletedCommands,
    now: int,
)
    requires
        inserted_chain(pre, mid, texts, dc, now),
        added_one(mid, post, t, dc, now),
    ensures
        inserted_chain(pre, post, texts.push(t), dc, now),
    decreases texts.len(),
{
    assert(texts.push(t).len() == texts.len() + 1);
    if texts.len() == 0 {
        assert(mid == pre);
        assert(texts.push(t)[0] == t);
        assert(texts.push(t).drop_first() =~~= Seq::<Seq<char>>::empty());
        assert(added_one(pre, post, texts.push(t)[0], dc, now));
        assert(inserted_chain(post, post, texts.push(t).drop_first(), dc, now));
    } else {
        let m1 = choose|m: Database|
            #![trigger added_one(pre, m, texts[0], dc, now)]
            added_one(pre, m, texts[0], dc, now) && inserted_chain(
                m,
                mid,
                texts.drop_first(),
                dc,
                now,
            );
        lemma_chain_snoc(m1, mid, post, texts.drop_first(), t, dc, now);
        assert(texts.push(t)[0] == texts[0]);
        assert(texts.push(t).drop_first() =~~= texts.drop_first().push(t));
        assert(added_one(pre, m1, texts.push(t)[0], dc, now));
        assert(inserted_chain(m1, post, texts.push(t).drop_first(), dc, now));
    }
}

/// Whether the line's first word is the running program's own invocation
/// name, in which case the pipeline does not track it.
pub open spec fn self_excluded(ws: Seq<Seq<char>>, self_name: Option<&String>) -> bool {
    match self_name {
        Some(n) => ws.len() > 0 && n@ == ws[0],
        None => false,
    }
}

/// What one ingested line leaves of the store.
pub open spec fn inserted_outcome(
    pre: Database,
    post: Database,
    line: Seq<char>,
    dc: DeletedCommands,
    self_name: Option<&String>,
    now: int,
) -> bool {
    let ws = words_of(line);
    if ws.len() == 0 || self_excluded(ws, self_name) {
        post == pre
    } else {
        inserted_chain(pre, post, prefix_texts(ws), dc, now)
    }
}

/// Feeds one raw command line to the store at time `now`: the line is
/// whitespace-normalized; an empty line and a line invoking the program
/// itself are dropped; otherwise every word prefix is recorded in order,
/// the full normal form last.
pub fn insert_command_at(
    command_str: String,
    db: &mut Database,
    deleted_commands: &DeletedCommands,
    self_name: Option<&String>,
    now: i64,
)
    requires
        old(db).wf(),
        0 <= now,
    ensures
        final(db).wf(),
        inserted_outcome(
            *old(db),
            *final(db),
            command_str@,
            *deleted_commands,
            self_name,
            now as int,
        ),
{
    let cs = chars_of(command_str.as_str());
    let ws = split_words(&cs);
    let ghost wsv = ws.deep_view();
    proof {
        assert(wsv == words_of(command_str@));
        assert(wsv.len() == ws@.len());
    }
    if ws.len() == 0 {
        return ;
    }
    match self_name {
        Some(name) => {
            let nc = chars_of(name.as_str());
            let same = chars_eq(&nc, &ws[0]);
            proof {
                assert(wsv[0] == ws@[0]@);
            }
            if same {
                return ;
            }
        },
        None => {},
    }
    let mut temp: Vec<char> = Vec::new();
    let mut k: usize = 0;
    proof {
        assert(prefix_texts(wsv).take(0) =~~= Seq::<Seq<char>>::empty());
        assert(temp@ =~= join_words(wsv.take(0)));
    }
    while k < ws.len()
        invariant
            k <= ws@.len(),
            wsv == ws.deep_view(),
            wsv.len() == ws@.len(),
            db.wf(),
            0 <= now,
            temp@ == join_words(wsv.take(k as int)),
            inserted_chain(
                *old(db),
                *db,
                prefix_texts(wsv).take(k as int),
                *deleted_commands,
                now as int,
            ),
        decreases ws@.len() - k,
    {
        let ghost pre_step = *db;
        let ghost base0 = temp@;
        if k > 0 {
            temp.push(' ');
        }
        let ghost base = temp@;
        let mut j: usize = 0;
        while j < ws[k].len()
            invariant
                k < ws@.len(),
                wsv == ws.deep_view(),
                j <= ws@[k as int]@.len(),
                temp@ == base + ws@[k as int]@.take(j as int),
            decreases ws@[k as int]@.len() - j,
        {
            temp.push(ws[k][j]);
            proof {
                assert(temp@ =~= base + ws@[k as int]@.take(j + 1));
            }
            j = j + 1;
        }
        proof {
            assert(ws@[k as int]@.take(ws@[k as int]@.len() as int) =~= ws@[k as int]@);
            assert(wsv[k as int] == ws@[k as int]@);
            lemma_join_push(wsv.take(k as int), wsv[k as int]);
            assert(wsv.take(k + 1) =~~= wsv.take(k as int).push(wsv[k as int]));
            if k == 0 {
                assert(base0.len() == 0);
                assert(temp@ =~= join_words(wsv.take(k + 1)));
            } else {
                assert(temp@ =~= join_words(wsv.take(k as int)) + seq![' '] + wsv[k as int]);
                assert(temp@ =~= join_words(wsv.take(k + 1)));
            }
        }
        let text = string_from_chars(&temp);
        db.add_command_at(text, deleted_commands, now);
        proof {
            assert(prefix_texts(wsv)[k as int] == join_words(wsv.take(k + 1)));
            lemma_chain_snoc(
                *old(db),
                pre_step,
                *db,
                prefix_texts(wsv).take(k as int),
                join_words(wsv.take(k + 1)),
                *deleted_commands,
                now as int,
            );
            assert(prefix_texts(wsv).take(k + 1) =~~= prefix_texts(wsv).take(k as int).push(
                join_words(wsv.take(k + 1)),
            ));
        }
        k = k + 1;
    }
    proof {
        assert(prefix_texts(wsv).take(wsv.len() as int) =~~= prefix_texts(wsv));
    }
}

/// Feeds one raw command line to the store, read off the wall clock.
pub fn insert_command(
    command_str: String,
    db: &mut Database,
    deleted_commands: &DeletedCommands,
    self_name: Option<&String>,
)
    requires
        old(db).wf(),
    ensures
        final(db).wf(),
        exists|now: int|
            0 <= now && inserted_outcome(
                *old(db),
                *final(db),
                command_str@,
                *deleted_commands,
                self_name,
                now,
            ),
{
    let now = now_seconds();
    insert_command_at(command_str, db, deleted_commands, self_name, now);
}

} // verus!
