//! Shell integration scripts: the text a shell sources to feed its history
//! into the tracker and to load the managed alias files.

use vstd::prelude::*;
use vstd::string::*;

verus! {

/// The shells an integration script can be rendered for.
pub enum InitShell {
    Bash,
    Zsh,
    Fish,
    Posix,
}

/// What the scripts splice in: where the program lives, where its data
/// lives, and the alias file to fall back on.
pub struct ShellOpts {
    pub app_path: String,
    pub data_dir: String,
    pub alias_file_path: String,
}

/// The bash integration script.
pub open spec fn bash_init(opts: ShellOpts) -> Seq<char> {
    "# Alman shell integration for bash\n# Add this to your ~/.bashrc\n\nexport ALMAN_DATA_DIR=\""@
        + opts.data_dir@ + "\"\nexport ALMAN_BIN=\""@ + opts.app_path@
        + "\"\n\nalman_preexec() {\n    if [ -n \"$1\" ]; then\n        "@ + opts.app_path@
        + " custom \"$1\" 2>/dev/null\n    fi\n}\n\nalman_source_aliases() {\n    # Source all alias files from alman config\n    if [ -f \""@
        + opts.data_dir@
        + "/config.json\" ]; then\n        # Extract alias file paths from config and source them\n        local alias_files=$(cat \"$ALMAN_DATA_DIR/config.json\" | grep -o '\"[^\"]*aliases[^\"]*\"' | tr -d '\"')\n        for file in $alias_files; do\n            if [ -f \"$file\" ]; then\n                source \"$file\"\n            fi\n        done\n    else\n        # Fallback to default alias file\n        if [ -f \""@
        + opts.alias_file_path@ + "\" ]; then\n            source \""@ + opts.alias_file_path@
        + "\"\n        fi\n    fi\n}\n\nif [ -n \"$BASH_VERSION\" ] && [ -n \"$PS1\" ]; then\n    trap 'alman_preexec \"$BASH_COMMAND\"' DEBUG\nfi\n\n# Source aliases on shell startup\nalman_source_aliases\n"@
}

/// The zsh integration script.
pub open spec fn zsh_init(opts: ShellOpts) -> Seq<char> {
    "# Alman shell integration for zsh\n# Add this to your ~/.zshrc\n\nexport ALMAN_DATA_DIR=\""@
        + opts.data_dir@ + "\"\nexport ALMAN_BIN=\""@ + opts.app_path@
        + "\"\n\nalman_preexec() {\n    if [ -n \"$1\" ]; then\n        "@ + opts.app_path@
        + " custom \"$1\" 2>/dev/null\n    fi\n}\n\nalman_source_aliases() {\n    # Source all alias files from alman config\n    if [ -f \""@
        + opts.data_dir@
        + "/config.json\" ]; then\n        # Extract alias file paths from config and source them\n        local alias_files=$(cat \"$ALMAN_DATA_DIR/config.json\" | grep -o '\"[^\"]*aliases[^\"]*\"' | tr -d '\"')\n        for file in $alias_files; do\n            if [ -f \"$file\" ]; then\n                source \"$file\"\n            fi\n        done\n    else\n        # Fallback to default alias file\n        if [ -f \""@
        + opts.alias_file_path@ + "\" ]; then\n            source \""@ + opts.alias_file_path@
        + "\"\n        fi\n    fi\n}\n\nautoload -U add-zsh-hook\nadd-zsh-hook preexec alman_preexec\n\n# Source aliases on shell startup\nalman_source_aliases\n"@
}

/// The fish integration script.
pub open spec fn fish_init(opts: ShellOpts) -> Seq<char> {
    "# Alman shell integration for fish\n# Add this to your ~/.config/fish/config.fish\n\nset -gx ALMAN_DATA_DIR \""@
        + opts.data_dir@ + "\"\nset -gx ALMAN_BIN \""@ + opts.app_path@
        + "\"\n\nfunction alman_preexec --on-event fish_preexec\n    if test -n \"$argv[1]\"\n        "@
        + opts.app_path@
        + " custom \"$argv[1]\" 2>/dev/null\n    end\nend\n\nfunction alman_source_aliases\n    # Source all alias files from alman config\n    if test -f \""@
        + opts.data_dir@
        + "/config.json\"\n        # Extract alias file paths from config and source them\n        for file in (cat \"$ALMAN_DATA_DIR/config.json\" | grep -o '\"[^\"]*aliases[^\"]*\"' | tr -d '\"')\n            if test -f \"$file\"\n                source \"$file\"\n            end\n        end\n    else\n        # Fallback to default alias file\n        if test -f \""@
        + opts.alias_file_path@ + "\"\n            source \""@ + opts.alias_file_path@
        + "\"\n        end\n    end\nend\n\n# Source aliases on shell startup\nalman_source_aliases\n"@
}

/// The POSIX-shell integration script.
pub open spec fn posix_init(opts: ShellOpts) -> Seq<char> {
    "# Alman shell integration for POSIX shells (ksh, dash, etc.)\n# Add this to your ~/.profile or ~/.kshrc\n\nexport ALMAN_DATA_DIR=\""@
        + opts.data_dir@ + "\"\nexport ALMAN_BIN=\""@ + opts.app_path@
        + "\"\n\nalman_preexec() {\n    if [ -n \"$1\" ]; then\n        "@ + opts.app_path@
        + " custom \"$1\" 2>/dev/null\n    fi\n}\n\nalman_source_aliases() {\n    # Source all alias files from alman config\n    if [ -f \""@
        + opts.data_dir@
        + "/config.json\" ]; then\n        # Extract alias file paths from config and source them\n        local alias_files=$(cat \"$ALMAN_DATA_DIR/config.json\" | grep -o '\"[^\"]*aliases[^\"]*\"' | tr -d '\"')\n        for file in $alias_files; do\n            if [ -f \"$file\" ]; then\n                . \"$file\"\n            fi\n        done\n    else\n        # Fallback to default alias file\n        if [ -f \""@
        + opts.alias_file_path@ + "\" ]; then\n            . \""@ + opts.alias_file_path@
        + "\"\n        fi\n    fi\n}\n\n# Note: POSIX shells don't have built-in preexec hooks\n# You may need to manually call alman_preexec in your PS1\n# Example: PS1='$(alman_preexec $?) $ '\n\n# Source aliases on shell startup\nalman_source_aliases\n"@
}

/// The script `render_shell_init` answers for each shell.
pub open spec fn shell_init(shell: InitShell, opts: ShellOpts) -> Seq<char> {
    match shell {
        InitShell::Bash => bash_init(opts),
        InitShell::Zsh => zsh_init(opts),
        InitShell::Fish => fish_init(opts),
        InitShell::Posix => posix_init(opts),
    }
}

fn render_bash(opts: &ShellOpts) -> (r: String)
    ensures
        r@ == bash_init(*opts),
{
    let mut s = String::from_str(
        "# Alman shell integration for bash\n# Add this to your ~/.bashrc\n\nexport ALMAN_DATA_DIR=\"",
    );
    s.append(opts.data_dir.as_str());
    s.append("\"\nexport ALMAN_BIN=\"");
    s.append(opts.app_path.as_str());
    s.append("\"\n\nalman_preexec() {\n    if [ -n \"$1\" ]; then\n        ");
    s.append(opts.app_path.as_str());
    s.append(
        " custom \"$1\" 2>/dev/null\n    fi\n}\n\nalman_source_aliases() {\n    # Source all alias files from alman config\n    if [ -f \"",
    );
    s.append(opts.data_dir.as_str());
    s.append(
        "/config.json\" ]; then\n        # Extract alias file paths from config and source them\n        local alias_files=$(cat \"$ALMAN_DATA_DIR/config.json\" | grep -o '\"[^\"]*aliases[^\"]*\"' | tr -d '\"')\n        for file in $alias_files; do\n            if [ -f \"$file\" ]; then\n                source \"$file\"\n            fi\n        done\n    else\n        # Fallback to default alias file\n        if [ -f \"",
    );
    s.append(opts.alias_file_path.as_str());
    s.append("\" ]; then\n            source \"");
    s.append(opts.alias_file_path.as_str());
    s.append(
        "\"\n        fi\n    fi\n}\n\nif [ -n \"$BASH_VERSION\" ] && [ -n \"$PS1\" ]; then\n    trap 'alman_preexec \"$BASH_COMMAND\"' DEBUG\nfi\n\n# Source aliases on shell startup\nalman_source_aliases\n",
    );
    s
}

fn render_zsh(opts: &ShellOpts) -> (r: String)
    ensures
        r@ == zsh_init(*opts),
{
    let mut s = String::from_str(
        "# Alman shell integration for zsh\n# Add this to your ~/.zshrc\n\nexport ALMAN_DATA_DIR=\"",
    );
    s.append(opts.data_dir.as_str());
    s.append("\"\nexport ALMAN_BIN=\"");
    s.append(opts.app_path.as_str());
    s.append("\"\n\nalman_preexec() {\n    if [ -n \"$1\" ]; then\n        ");
    s.append(opts.app_path.as_str());
    s.append(
        " custom \"$1\" 2>/dev/null\n    fi\n}\n\nalman_source_aliases() {\n    # Source all alias files from alman config\n    if [ -f \"",
    );
    s.append(opts.data_dir.as_str());
    s.append(
        "/config.json\" ]; then\n        # Extract alias file paths from config and source them\n        local alias_files=$(cat \"$ALMAN_DATA_DIR/config.json\" | grep -o '\"[^\"]*aliases[^\"]*\"' | tr -d '\"')\n        for file in $alias_files; do\n            if [ -f \"$file\" ]; then\n                source \"$file\"\n            fi\n        done\n    else\n        # Fallback to default alias file\n        if [ -f \"",
    );
    s.append(opts.alias_file_path.as_str());
    s.append("\" ]; then\n            source \"");
    s.append(opts.alias_file_path.as_str());
    s.append(
        "\"\n        fi\n    fi\n}\n\nautoload -U add-zsh-hook\nadd-zsh-hook preexec alman_preexec\n\n# Source aliases on shell startup\nalman_source_aliases\n",
    );
    s
}

fn render_fish(opts: &ShellOpts) -> (r: String)
    ensures
        r@ == fish_init(*opts),
{
    let mut s = String::from_str(
        "# Alman shell integration for fish\n# Add this to your ~/.config/fish/config.fish\n\nset -gx ALMAN_DATA_DIR \"",
    );
    s.append(opts.data_dir.as_str());
    s.append("\"\nset -gx ALMAN_BIN \"");
    s.append(opts.app_path.as_str());
    s.append("\"\n\nfunction alman_preexec --on-event fish_preexec\n    if test -n \"$argv[1]\"\n        ");
    s.append(opts.app_path.as_str());
    s.append(
        " custom \"$argv[1]\" 2>/dev/null\n    end\nend\n\nfunction alman_source_aliases\n    # Source all alias files from alman config\n    if test -f \"",
    );
    s.append(opts.data_dir.as_str());
    s.append(
        "/config.json\"\n        # Extract alias file paths from config and source them\n        for file in (cat \"$ALMAN_DATA_DIR/config.json\" | grep -o '\"[^\"]*aliases[^\"]*\"' | tr -d '\"')\n            if test -f \"$file\"\n                source \"$file\"\n            end\n        end\n    else\n        # Fallback to default alias file\n        if test -f \"",
    );
    s.append(opts.alias_file_path.as_str());
    s.append("\"\n            source \"");
    s.append(opts.alias_file_path.as_str());
    s.append(
        "\"\n        end\n    end\nend\n\n# Source aliases on shell startup\nalman_source_aliases\n",
    );
    s
}

fn render_posix(opts: &ShellOpts) -> (r: String)
    ensures
        r@ == posix_init(*opts),
{
    let mut s = String::from_str(
        "# Alman shell integration for POSIX shells (ksh, dash, etc.)\n# Add this to your ~/.profile or ~/.kshrc\n\nexport ALMAN_DATA_DIR=\"",
    );
    s.append(opts.data_dir.as_str());
    s.append("\"\nexport ALMAN_BIN=\"");
    s.append(opts.app_path.as_str());
    s.append("\"\n\nalman_preexec() {\n    if [ -n \"$1\" ]; then\n        ");
    s.append(opts.app_path.as_str());
    s.append(
        " custom \"$1\" 2>/dev/null\n    fi\n}\n\nalman_source_aliases() {\n    # Source all alias files from alman config\n    if [ -f \"",
    );
    s.append(opts.data_dir.as_str());
    s.append(
        "/config.json\" ]; then\n        # Extract alias file paths from config and source them\n        local alias_files=$(cat \"$ALMAN_DATA_DIR/config.json\" | grep -o '\"[^\"]*aliases[^\"]*\"' | tr -d '\"')\n        for file in $alias_files; do\n            if [ -f \"$file\" ]; then\n                . \"$file\"\n            fi\n        done\n    else\n        # Fallback to default alias file\n        if [ -f \"",
    );
    s.append(opts.alias_file_path.as_str());
    s.append("\" ]; then\n            . \"");
    s.append(opts.alias_file_path.as_str());
    s.append(
        "\"\n        fi\n    fi\n}\n\n# Note: POSIX shells don't have built-in preexec hooks\n# You may need to manually call alman_preexec in your PS1\n# Example: PS1='$(alman_preexec $?) $ '\n\n# Source aliases on shell startup\nalman_source_aliases\n",
    );
    s
}

/// Renders the integration script for the chosen shell.
pub fn render_shell_init(shell: InitShell, opts: &ShellOpts) -> (r: String)
    ensures
        r@ == shell_init(shell, *opts),
{
    match shell {
        InitShell::Bash => render_bash(opts),
        InitShell::Zsh => render_zsh(opts),
        InitShell::Fish => render_fish(opts),
        InitShell::Posix => render_posix(opts),
    }
}

} // verus!
