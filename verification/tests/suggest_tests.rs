//! Tests of the suggestion engine: the generators, the conflict filter,
//! deduplication, and the ranking.

use alman::queries::get_suggestions_with_aliases;
use alman::store::{Database, DeletedCommands};
use alman::suggest::{AliasSuggester, AliasSuggestion};

fn suggest(cmd: &str) -> Vec<AliasSuggestion> {
    AliasSuggester::new(Vec::new(), Vec::new()).suggest_aliases(cmd)
}

fn find<'a>(s: &'a [AliasSuggestion], alias: &str) -> Option<&'a AliasSuggestion> {
    s.iter().find(|c| c.alias == alias)
}

#[test]
fn git_status_gets_gs_above_truncations() {
    let s = suggest("git status");
    let gs = find(&s, "gs").expect("semantic candidate");
    assert_eq!(gs.command, "git status");
    assert_eq!(gs.reason, "Git status");
    let gs_pos = s.iter().position(|c| c.alias == "gs").unwrap();
    for (i, c) in s.iter().enumerate() {
        if c.reason.starts_with("Truncated") {
            assert!(gs_pos < i, "gs must outrank {}", c.alias);
        }
    }
    // The ladder itself is present: "gi" for the tool word "git".
    assert!(find(&s, "gi").is_some());
}

#[test]
fn no_candidate_collides_with_snapshots() {
    let existing = vec!["gs".to_string(), "ga".to_string()];
    let system = vec!["gst".to_string(), "gstatus".to_string()];
    let suggester = AliasSuggester::new(existing.clone(), system.clone());
    let s = suggester.suggest_aliases("git status");
    assert!(!s.is_empty());
    for c in &s {
        assert!(!existing.contains(&c.alias), "{} is an existing alias", c.alias);
        assert!(!system.contains(&c.alias), "{} is a system command", c.alias);
        assert!(c.alias.chars().count() >= 2);
    }
    assert!(find(&s, "gs").is_none());
}

#[test]
fn aliases_are_deduplicated_keeping_first() {
    // "git status" yields "gs" both from the semantic table and as the
    // two-word abbreviation; only the semantic one stays.
    let s = suggest("git status");
    let count = s.iter().filter(|c| c.alias == "gs").count();
    assert_eq!(count, 1);
    let mut seen = std::collections::HashSet::new();
    for c in &s {
        assert!(seen.insert(c.alias.clone()), "alias {} repeats", c.alias);
    }
}

#[test]
fn priorities_never_rise_along_the_list() {
    for cmd in ["git status", "docker ps -a", "ship", "grep pattern file.txt", "./target/app run"] {
        let s = suggest(cmd);
        // Recompute the documented rank from the visible fields.
        let prio = |c: &AliasSuggestion| -> i64 {
            let w: i64 = match c.reason.as_str() {
                r if r.starts_with("Git ") || r.starts_with("Docker ") && !r.ends_with("abbreviation")
                    || r.starts_with("NPM ") || r.starts_with("SSH to ") => 100,
                "Abbreviation" => 90,
                "Vowel Removal" => 80,
                r if r.ends_with(" combination") => 70,
                "Syllable-based" => 65,
                r if r.starts_with("Remove prefix") || r.starts_with("Remove suffix") => 60,
                "3-letter abbreviation" | "2-letter abbreviation" | "First-last character"
                | "LazyGit abbreviation" | "Docker abbreviation" | "Node abbreviation"
                | "Executable abbreviation" => 55,
                "Phonetic" => 50,
                "Remove duplicates" | "Smart consonants" => 45,
                "Keyboard pattern" => 40,
                r if r.starts_with("Truncated") => 35,
                _ => 30,
            };
            w + 10 - c.alias.chars().count() as i64
        };
        for pair in s.windows(2) {
            assert!(
                prio(&pair[0]) >= prio(&pair[1]),
                "{}: {} before {}",
                cmd,
                pair[0].alias,
                pair[1].alias
            );
        }
    }
}

#[test]
fn semantic_tables_cover_common_tools() {
    let s = suggest("docker ps");
    let dps = find(&s, "dps").expect("docker table");
    assert_eq!(dps.command, "docker ps");
    assert_eq!(dps.reason, "Docker ps");

    let s = suggest("npm install");
    let ni = find(&s, "ni").expect("npm table");
    assert_eq!(ni.command, "npm install");

    let s = suggest("git add .");
    let gaa = find(&s, "gaa").expect("git add all");
    assert_eq!(gaa.command, "git add .");

    let s = suggest("git commit -m fix");
    let gcm = find(&s, "gcm").expect("commit with message");
    assert_eq!(gcm.command, "git commit -m \"fix\"");

    let s = suggest("ssh web.example.com");
    let web = find(&s, "web").expect("shortened host");
    assert_eq!(web.command, "ssh web.example.com");
    assert_eq!(web.reason, "SSH to web.example.com");
}

#[test]
fn git_checkout_without_branch_name_is_plain_checkout() {
    let s = suggest("git checkout -b");
    assert!(find(&s, "gcb").is_none());
    assert!(find(&s, "gco").is_some());
    let s = suggest("git checkout -b topic");
    let gcb = find(&s, "gcb").expect("new branch");
    assert_eq!(gcb.command, "git checkout -b topic");
}

#[test]
fn abbreviation_takes_first_letters() {
    let s = suggest("cargo build --release");
    let ab = find(&s, "cb-").expect("abbreviation");
    assert_eq!(ab.reason, "Abbreviation");
    assert_eq!(ab.command, "cargo build --release");
}

#[test]
fn vowel_removal_caps_runs() {
    let s = suggest("grep pattern");
    let v = find(&s, "grpptt").expect("vowel removal");
    assert_eq!(v.reason, "Vowel Removal");
}

#[test]
fn single_word_tricks() {
    let s = suggest("docker");
    assert!(find(&s, "doc").is_some());
    assert!(find(&s, "do").is_some());
    let dr = find(&s, "dr").expect("first-last");
    assert_eq!(dr.reason, "First-last character");
    let dk = find(&s, "dk").expect("compound tool name");
    assert_eq!(dk.reason, "Docker abbreviation");
}

#[test]
fn phonetic_substitution() {
    let s = suggest("ship");
    let sip = find(&s, "sip").expect("sh -> s");
    assert_eq!(sip.reason, "Phonetic");
}

#[test]
fn keyboard_pattern_takes_every_other() {
    let s = suggest("ship");
    let si = find(&s, "si").expect("every other character");
    assert_eq!(si.reason, "Keyboard pattern");
}

#[test]
fn affix_stripping() {
    let s = suggest("rebuild");
    let b = find(&s, "build").expect("prefix strip");
    assert_eq!(b.reason, "Remove prefix 're'");
    let s = suggest("government");
    let t = find(&s, "govern").expect("suffix strip");
    assert_eq!(t.reason, "Remove suffix 'ment'");
}

#[test]
fn duplicate_collapse_and_smart_consonants() {
    let s = suggest("ls committee");
    let c = find(&s, "comite").expect("adjacent duplicates collapsed");
    assert_eq!(c.reason, "Remove duplicates");
    let sc = find(&s, "cmm").expect("first three consonants");
    assert_eq!(sc.reason, "Smart consonants");
}

#[test]
fn syllable_initials() {
    let s = suggest("terminal");
    let t = find(&s, "trnl").expect("syllable initials");
    assert_eq!(t.reason, "Syllable-based");
}

#[test]
fn relative_path_commands() {
    let s = suggest("./target/debug/app run");
    let name = find(&s, "app").expect("executable base name");
    assert_eq!(name.reason, "Executable name");
    let comb = find(&s, "arun").expect("name-argument glue");
    assert!(comb.reason.ends_with(" combination"));
    // Windows-style executables lose the extension.
    let s = suggest("./tools/setup.exe");
    assert!(find(&s, "setup").is_some());
}

#[test]
fn degenerate_input_yields_nothing() {
    assert!(suggest("").is_empty());
    assert!(suggest("   ").is_empty());
}

#[test]
fn suggestions_attach_to_top_commands() {
    let mut db = Database::new();
    let dc = DeletedCommands::new();
    db.add_command_at("git status".to_string(), &dc, 100);
    db.add_command_at("docker ps -a".to_string(), &dc, 100);
    let rows = get_suggestions_with_aliases(Some(2), &mut db, Vec::new(), Vec::new());
    assert_eq!(rows.len(), 2);
    for row in &rows {
        match row.command.command_text.as_str() {
            "git status" => assert!(row.alias_suggestions.iter().any(|c| c.alias == "gs")),
            "docker ps -a" => assert!(row.alias_suggestions.iter().any(|c| c.alias == "dps")),
            other => panic!("unexpected top command {}", other),
        }
    }
}
