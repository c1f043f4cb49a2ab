//! The command-line surface as plain data: what an invocation asked for,
//! free of any argument-parsing machinery.

use vstd::prelude::*;
use crate::shellinit::InitShell;

verus! {

/// The persisted configuration: the alias files under management, the
/// first being the default target.
pub struct AppConfig {
    pub alias_file_paths: Vec<String>,
}

/// One parsed invocation: an optional alias-file override and the
/// requested operation.
pub struct Cli {
    pub alias_file_path: Option<String>,
    pub operation: Option<Operation>,
}

/// The operations the command line exposes.
pub enum Operation {
    /// Define a new alias for a command.
    Add { alias: String, command: String },
    /// Undo an existing alias.
    Remove { alias: String },
    /// List every alias on file.
    List,
    /// Replace an alias with a new name and command.
    Change { old_alias: String, new_alias: String, command: String },
    /// Show the ranked commands with their best alias candidates.
    GetSuggestions { num: Option<usize> },
    /// Stop proposing a tracked command.
    DeleteSuggestion { alias: String },
    /// Open the interactive terminal interface.
    Tui,
    /// Print the shell integration script.
    Init { shell: InitShell },
}

} // verus!
