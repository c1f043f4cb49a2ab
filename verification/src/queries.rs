//! Ranked reads: the freshest view of the store, with alias candidates for
//! each top command.

use vstd::prelude::*;
use vstd::string::*;
use crate::entry::Command;
use crate::store::{refresh_then_settle, Database};
use crate::suggest::{suggestion_pipeline, AliasSuggester, AliasSuggestion};

verus! {

/// Refreshes every score and returns the top `num` (default five) entries,
/// best first.
pub fn get_suggestions(num: Option<usize>, db: &mut Database) -> (r: Vec<Command>)
    requires
        old(db).wf(),
    ensures
        final(db).wf(),
        exists|now: int, mid: Database|
            0 <= now && refresh_then_settle(*old(db), mid, *final(db), now),
        r@ == final(db).command_list@.take(final(db).top_count(num)),
{
    db.update_db();
    db.get_top_commands(num)
}

/// One ranked command with the alias candidates proposed for its text.
pub struct CommandWithAlias {
    pub command: Command,
    pub alias_suggestions: Vec<AliasSuggestion>,
}

/// Refreshes every score and returns the top `num` entries, each with the
/// alias candidates its text earns against the given conflict snapshots.
pub fn get_suggestions_with_aliases(
    num: Option<usize>,
    db: &mut Database,
    existing_aliases: Vec<String>,
    system_commands: Vec<String>,
) -> (r: Vec<CommandWithAlias>)
    requires
        old(db).wf(),
    ensures
        final(db).wf(),
        exists|now: int, mid: Database|
            0 <= now && refresh_then_settle(*old(db), mid, *final(db), now),
        r@.len() == final(db).top_count(num),
        forall|i: int|
            0 <= i < r@.len() ==> (#[trigger] r@[i]).command == final(db).command_list@[i]
                && r@[i].alias_suggestions.deep_view() == suggestion_pipeline(
                final(db).command_list@[i].command_text@,
                existing_aliases.deep_view(),
                system_commands.deep_view(),
            ),
{
    db.update_db();
    let commands = db.get_top_commands(num);
    let suggester = AliasSuggester::new(existing_aliases, system_commands);
    let mut r: Vec<CommandWithAlias> = Vec::new();
    let mut i: usize = 0;
    while i < commands.len()
        invariant
            i <= commands@.len(),
            commands@.len() == db.top_count(num),
            commands@ == db.command_list@.take(db.top_count(num)),
            r@.len() == i,
            suggester.existing() == existing_aliases.deep_view(),
            suggester.system() == system_commands.deep_view(),
            forall|j: int|
                0 <= j < i ==> (#[trigger] r@[j]).command == commands@[j]
                    && r@[j].alias_suggestions.deep_view() == suggestion_pipeline(
                    commands@[j].command_text@,
                    existing_aliases.deep_view(),
                    system_commands.deep_view(),
                ),
        decreases commands@.len() - i,
    {
        let cmd = commands[i].clone();
        let alias_suggestions = suggester.suggest_aliases(cmd.command_text.as_str());
        r.push(CommandWithAlias { command: cmd, alias_suggestions });
        i = i + 1;
    }
    proof {
        assert(forall|j: int|
            0 <= j < commands@.len() ==> #[trigger] commands@[j] == db.command_list@.take(
                db.top_count(num),
            )[j]);
    }
    r
}

} // verus!
