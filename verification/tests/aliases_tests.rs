//! Tests of the alias-file text format, the alias operations, and the
//! shell integration scripts.

use alman::aliases::{
    add_alias, add_alias_pair, delete_suggestion, parse_aliases, remove_alias, remove_alias_pair,
    render_aliases,
};
use alman::shellinit::{render_shell_init, InitShell, ShellOpts};
use alman::store::{Database, DeletedCommands};

#[test]
fn parse_reads_alias_lines() {
    let text = "alias gs='git status'\nalias ll=\"ls -la\"\nalias raw=pwd\n";
    let pairs = parse_aliases(text);
    assert_eq!(pairs.len(), 3);
    assert_eq!(pairs[0], ("gs".to_string(), "git status".to_string()));
    assert_eq!(pairs[1], ("ll".to_string(), "ls -la".to_string()));
    assert_eq!(pairs[2], ("raw".to_string(), "pwd".to_string()));
}

#[test]
fn parse_skips_foreign_lines() {
    let text = "# a comment\n\nexport PATH=/bin\nalias broken\nalias ok='ls'\n   alias padded = 'du -h'  \n";
    let pairs = parse_aliases(text);
    assert_eq!(pairs.len(), 2);
    assert_eq!(pairs[0], ("ok".to_string(), "ls".to_string()));
    assert_eq!(pairs[1], ("padded".to_string(), "du -h".to_string()));
}

#[test]
fn parse_splits_on_first_equals() {
    let pairs = parse_aliases("alias x='KEY=value cmd'\n");
    assert_eq!(pairs, vec![("x".to_string(), "KEY=value cmd".to_string())]);
}

#[test]
fn parse_keeps_mismatched_quotes() {
    let pairs = parse_aliases("alias odd='ls\nalias single='\n");
    assert_eq!(pairs.len(), 2);
    assert_eq!(pairs[0].1, "'ls");
    assert_eq!(pairs[1].1, "'");
}

#[test]
fn render_writes_one_line_per_pair() {
    let list = vec![
        ("gs".to_string(), "git status".to_string()),
        ("ll".to_string(), "ls -la".to_string()),
    ];
    let text = render_aliases(&list);
    assert_eq!(text, "alias gs='git status'\nalias ll='ls -la'\n");
}

#[test]
fn render_then_parse_round_trips() {
    let list = vec![
        ("gs".to_string(), "git status".to_string()),
        ("dps".to_string(), "docker ps".to_string()),
        ("up".to_string(), "cd ..".to_string()),
    ];
    let reread = parse_aliases(&render_aliases(&list));
    assert_eq!(list, reread);
}

#[test]
fn pair_list_add_and_remove() {
    let mut list: Vec<(String, String)> = Vec::new();
    add_alias_pair(&mut list, "gs", "git status");
    add_alias_pair(&mut list, "gs", "something else");
    assert_eq!(list.len(), 1);
    assert_eq!(list[0].1, "git status");
    add_alias_pair(&mut list, "ll", "ls -la");
    remove_alias_pair(&mut list, "gs");
    assert_eq!(list.len(), 1);
    assert_eq!(list[0].0, "ll");
    remove_alias_pair(&mut list, "absent");
    assert_eq!(list.len(), 1);
}

#[test]
fn add_alias_tombstones_the_command() {
    let mut db = Database::new();
    let mut dc = DeletedCommands::new();
    db.add_command_at("git status".to_string(), &dc, 100);
    let mut list: Vec<(String, String)> = Vec::new();
    add_alias(&mut db, &mut dc, &mut list, "gs", "git status");
    assert!(db.command_list.is_empty());
    assert_eq!(list, vec![("gs".to_string(), "git status".to_string())]);
    // The aliased text is no longer tracked.
    db.add_command_at("git status".to_string(), &dc, 200);
    assert!(db.command_list.is_empty());
}

#[test]
fn remove_alias_lifts_the_tombstone() {
    let mut db = Database::new();
    let mut dc = DeletedCommands::new();
    let mut list: Vec<(String, String)> = Vec::new();
    db.add_command_at("git status".to_string(), &dc, 100);
    add_alias(&mut db, &mut dc, &mut list, "gs", "git status");
    remove_alias(&mut dc, &mut list, "gs");
    assert!(list.is_empty());
    db.add_command_at("git status".to_string(), &dc, 200);
    assert_eq!(db.total_num_commands, 1);
}

#[test]
fn delete_suggestion_drops_and_tombstones() {
    let mut db = Database::new();
    let mut dc = DeletedCommands::new();
    db.add_command_at("cargo build".to_string(), &dc, 100);
    delete_suggestion("cargo build", &mut db, &mut dc);
    assert!(db.command_list.is_empty());
    assert_eq!(db.total_num_commands, 0);
    assert_eq!(db.total_score, 0);
    db.add_command_at("cargo build".to_string(), &dc, 200);
    assert!(db.command_list.is_empty());
}

fn opts() -> ShellOpts {
    ShellOpts {
        app_path: "/usr/local/bin/alman".to_string(),
        data_dir: "/home/user/.alias_suggestor".to_string(),
        alias_file_path: "/home/user/.alman/aliases".to_string(),
    }
}

#[test]
fn bash_init_script_is_exact() {
    let o = opts();
    let script = render_shell_init(InitShell::Bash, &o);
    let mut expected = String::new();
    expected.push_str("# Alman shell integration for bash\n# Add this to your ~/.bashrc\n\n");
    expected.push_str(&format!("export ALMAN_DATA_DIR=\"{}\"\n", o.data_dir));
    expected.push_str(&format!("export ALMAN_BIN=\"{}\"\n\n", o.app_path));
    expected.push_str("alman_preexec() {\n    if [ -n \"$1\" ]; then\n");
    expected.push_str(&format!("        {} custom \"$1\" 2>/dev/null\n", o.app_path));
    expected.push_str("    fi\n}\n\n");
    expected.push_str("alman_source_aliases() {\n    # Source all alias files from alman config\n");
    expected.push_str(&format!("    if [ -f \"{}/config.json\" ]; then\n", o.data_dir));
    expected.push_str("        # Extract alias file paths from config and source them\n");
    expected.push_str(
        "        local alias_files=$(cat \"$ALMAN_DATA_DIR/config.json\" | grep -o '\"[^\"]*aliases[^\"]*\"' | tr -d '\"')\n",
    );
    expected.push_str("        for file in $alias_files; do\n");
    expected.push_str("            if [ -f \"$file\" ]; then\n");
    expected.push_str("                source \"$file\"\n            fi\n        done\n");
    expected.push_str("    else\n        # Fallback to default alias file\n");
    expected.push_str(&format!("        if [ -f \"{}\" ]; then\n", o.alias_file_path));
    expected.push_str(&format!("            source \"{}\"\n", o.alias_file_path));
    expected.push_str("        fi\n    fi\n}\n\n");
    expected.push_str("if [ -n \"$BASH_VERSION\" ] && [ -n \"$PS1\" ]; then\n");
    expected.push_str("    trap 'alman_preexec \"$BASH_COMMAND\"' DEBUG\nfi\n\n");
    expected.push_str("# Source aliases on shell startup\nalman_source_aliases\n");
    assert_eq!(script, expected);
}

#[test]
fn each_shell_gets_its_dialect() {
    let o = opts();
    let bash = render_shell_init(InitShell::Bash, &o);
    assert!(bash.contains("# Alman shell integration for bash"));
    assert!(bash.contains("trap 'alman_preexec \"$BASH_COMMAND\"' DEBUG"));
    let zsh = render_shell_init(InitShell::Zsh, &o);
    assert!(zsh.contains("# Alman shell integration for zsh"));
    assert!(zsh.contains("add-zsh-hook preexec alman_preexec"));
    let fish = render_shell_init(InitShell::Fish, &o);
    assert!(fish.contains("function alman_preexec --on-event fish_preexec"));
    assert!(fish.contains("set -gx ALMAN_BIN \"/usr/local/bin/alman\""));
    let posix = render_shell_init(InitShell::Posix, &o);
    assert!(posix.contains("# Alman shell integration for POSIX shells"));
    assert!(posix.contains(". \"/home/user/.alman/aliases\""));
    for script in [&bash, &zsh, &fish, &posix] {
        assert!(script.contains("/usr/local/bin/alman custom"));
        assert!(script.ends_with("alman_source_aliases\n"));
    }
}
