//! Tests of the frecency store: scoring, insertion, removal, rescale,
//! ingestion, and the persistence round trip.

use alman::entry::Command;
use alman::ingest::insert_command_at;
use alman::queries::get_suggestions;
use alman::score::compute_score;
use alman::store::{Database, DeletedCommands};

fn entry<'a>(db: &'a Database, text: &str) -> Option<&'a Command> {
    db.command_list.iter().find(|c| c.command_text == text)
}

#[test]
fn score_is_the_exact_floor() {
    // floor(4 * length^0.6 * frequency) at zero elapsed time.
    assert_eq!(compute_score(0, 1, 0, 0), 0);
    assert_eq!(compute_score(1, 1, 0, 0), 4); // 4 * 1
    assert_eq!(compute_score(2, 1, 0, 0), 6); // 4 * 2^0.6 = 6.06
    assert_eq!(compute_score(3, 1, 0, 0), 7); // 4 * 3^0.6 = 7.73
    assert_eq!(compute_score(8, 1, 0, 0), 13); // 13.93
    assert_eq!(compute_score(8, 2, 0, 0), 27); // 27.86
    assert_eq!(compute_score(32, 1, 0, 0), 32); // 4 * 32^0.6 = 32 exactly
    assert_eq!(compute_score(32767, 1, 0, 0), 2047); // 2047.96
}

#[test]
fn score_multiplier_table() {
    // length 8: 8^0.6 = 3.482; frequency 1.
    assert_eq!(compute_score(8, 1, 10_000, 10_000), 13); // dt 0 -> x4
    assert_eq!(compute_score(8, 1, 10_000, 13_600), 13); // dt 3600 -> still x4
    assert_eq!(compute_score(8, 1, 10_000, 13_601), 6); // dt 3601 -> x2
    assert_eq!(compute_score(8, 1, 10_000, 10_000 + 86_400), 6);
    assert_eq!(compute_score(8, 1, 10_000, 10_000 + 86_401), 1); // x1/2
    assert_eq!(compute_score(8, 1, 10_000, 10_000 + 604_801), 0); // x1/4
}

#[test]
fn recent_access_never_scores_lower() {
    let now = 1_000_000;
    let mut recent = Command::new_at("abcdefgh".to_string(), now - 1800);
    let mut stale = Command::new_at("abcdefgh".to_string(), now - 7200);
    recent.update_at(now);
    stale.update_at(now);
    assert_eq!(recent.score, 13);
    assert_eq!(stale.score, 6);
    assert!(recent.score >= stale.score);
}

#[test]
fn new_entry_statistics() {
    let c = Command::new_at("git add .".to_string(), 500);
    assert_eq!(c.length, 7);
    assert_eq!(c.number_of_words, 3);
    assert_eq!(c.frequency, 1);
    assert_eq!(c.last_access_time, 500);
    assert_eq!(c.score, 12); // floor(4 * 7^0.6) = 12.86
}

#[test]
fn add_command_creates_and_bumps() {
    let mut db = Database::new();
    let dc = DeletedCommands::new();
    db.add_command_at("cargo build".to_string(), &dc, 100);
    let e = entry(&db, "cargo build").expect("tracked");
    assert_eq!(e.frequency, 1);
    db.add_command_at("cargo build".to_string(), &dc, 100);
    let e = entry(&db, "cargo build").expect("tracked");
    assert_eq!(e.frequency, 2);
    assert_eq!(db.total_num_commands, 1);
}

#[test]
fn short_single_words_are_noise() {
    let mut db = Database::new();
    let dc = DeletedCommands::new();
    db.add_command_at("git".to_string(), &dc, 100);
    db.add_command_at("ls".to_string(), &dc, 100);
    assert_eq!(db.total_num_commands, 0);
    // Two words pass the filter even when short.
    db.add_command_at("ls -a".to_string(), &dc, 100);
    assert!(entry(&db, "ls -a").is_some());
}

#[test]
fn tombstoned_text_is_ignored() {
    let mut db = Database::new();
    let mut dc = DeletedCommands::new();
    db.add_command_at("cargo build".to_string(), &dc, 100);
    db.remove_command(&"cargo build".to_string(), &mut dc);
    assert!(entry(&db, "cargo build").is_none());
    db.add_command_at("cargo build".to_string(), &dc, 200);
    assert!(entry(&db, "cargo build").is_none());
    // Lifting the tombstone makes the text trackable again.
    dc.remove(&"cargo build".to_string());
    db.add_command_at("cargo build".to_string(), &dc, 300);
    assert!(entry(&db, "cargo build").is_some());
}

#[test]
fn remove_twice_equals_remove_once() {
    let mut db = Database::new();
    let mut dc = DeletedCommands::new();
    db.add_command_at("cargo build".to_string(), &dc, 100);
    db.add_command_at("cargo test".to_string(), &dc, 100);
    db.remove_command(&"cargo build".to_string(), &mut dc);
    let entries_after_one: Vec<String> =
        db.command_list.iter().map(|c| c.command_text.clone()).collect();
    let total_after_one = db.total_score;
    let count_after_one = db.total_num_commands;
    let tombs_after_one = dc.deleted_commands.len();
    db.remove_command(&"cargo build".to_string(), &mut dc);
    let entries_after_two: Vec<String> =
        db.command_list.iter().map(|c| c.command_text.clone()).collect();
    assert_eq!(entries_after_one, entries_after_two);
    assert_eq!(total_after_one, db.total_score);
    assert_eq!(count_after_one, db.total_num_commands);
    assert_eq!(tombs_after_one, dc.deleted_commands.len());
}

#[test]
fn aggregates_match_entries() {
    let mut db = Database::new();
    let dc = DeletedCommands::new();
    db.add_command_at("cargo build".to_string(), &dc, 100);
    db.add_command_at("cargo test --all".to_string(), &dc, 100);
    db.add_command_at("cargo build".to_string(), &dc, 100);
    let sum: i128 = db.command_list.iter().map(|c| c.score as i128).sum();
    assert_eq!(db.total_score, sum);
    assert_eq!(db.total_num_commands, db.command_list.len());
}

#[test]
fn ordering_is_score_desc_then_text() {
    let mut db = Database::new();
    let dc = DeletedCommands::new();
    db.add_command_at("bbbbbbbb".to_string(), &dc, 100);
    db.add_command_at("aaaaaaaa".to_string(), &dc, 100);
    db.add_command_at("cccccccc".to_string(), &dc, 100);
    db.add_command_at("cccccccc".to_string(), &dc, 100);
    let top = db.get_top_commands(None);
    // Highest score first; equal scores tie-break on the text.
    assert_eq!(top[0].command_text, "cccccccc");
    assert_eq!(top[1].command_text, "aaaaaaaa");
    assert_eq!(top[2].command_text, "bbbbbbbb");
    assert_eq!(top.len(), 3);
}

#[test]
fn get_top_commands_takes_n() {
    let mut db = Database::new();
    let dc = DeletedCommands::new();
    for t in ["cmdone --x", "cmdtwo --x", "cmdthree --x", "cmdfour --x", "cmdfive --x",
        "cmdsix --x"] {
        db.add_command_at(t.to_string(), &dc, 100);
    }
    assert_eq!(db.get_top_commands(None).len(), 5);
    assert_eq!(db.get_top_commands(Some(2)).len(), 2);
    assert_eq!(db.get_top_commands(Some(100)).len(), 6);
    assert_eq!(db.get_top_commands(Some(0)).len(), 0);
}

#[test]
fn rescale_decays_frequencies_and_drops_zero() {
    let mut db = Database::new();
    let dc = DeletedCommands::new();
    let now = 5_000;
    for _ in 0..4 {
        db.add_command_at("qwertyui".to_string(), &dc, now);
    }
    // One length-8 entry at frequency 4: floor(4 * 3.482 * 4) = 55.
    assert_eq!(db.total_score, 55);
    for _ in 0..14 {
        db.add_command_at("asdfghjk".to_string(), &dc, now);
    }
    // Second entry at frequency 14 scores 195; the sum sits exactly at the
    // threshold, which must not fire yet.
    assert_eq!(db.total_score, 250);
    assert_eq!(db.total_num_commands, 2);
    // The next sighting scores 208, pushing the sum to 263 > 250.
    db.add_command_at("asdfghjk".to_string(), &dc, now);
    let survivor = entry(&db, "asdfghjk").expect("survives");
    assert_eq!(survivor.frequency, 2); // round(15 * 0.1)
    assert!(entry(&db, "qwertyui").is_none()); // round(4 * 0.1) == 0
    assert_eq!(db.total_num_commands, 1);
    assert_eq!(db.total_score, 27); // floor(4 * 3.482 * 2) at zero elapsed time
}

#[test]
fn score_reset_rounds_half_up() {
    let mut db = Database::new();
    let dc = DeletedCommands::new();
    let now = 5_000;
    for _ in 0..15 {
        db.add_command_at("qwertyui".to_string(), &dc, now);
    }
    db.score_reset_at(now);
    assert_eq!(entry(&db, "qwertyui").unwrap().frequency, 2); // round(1.5)
    let mut db2 = Database::new();
    for _ in 0..14 {
        db2.add_command_at("qwertyui".to_string(), &dc, now);
    }
    db2.score_reset_at(now);
    assert_eq!(entry(&db2, "qwertyui").unwrap().frequency, 1); // round(1.4)
}

#[test]
fn three_inserts_build_prefix_frequencies() {
    let mut db = Database::new();
    let dc = DeletedCommands::new();
    for _ in 0..3 {
        insert_command_at("git add .".to_string(), &mut db, &dc, None, 900);
    }
    // "git" alone is short single-word noise and stays untracked.
    assert!(entry(&db, "git").is_none());
    assert_eq!(entry(&db, "git add").unwrap().frequency, 3);
    assert_eq!(entry(&db, "git add .").unwrap().frequency, 3);
    assert_eq!(db.total_num_commands, 2);
}

#[test]
fn ingestion_normalizes_whitespace() {
    let mut db = Database::new();
    let dc = DeletedCommands::new();
    insert_command_at("  git   add   .  ".to_string(), &mut db, &dc, None, 900);
    assert!(entry(&db, "git add .").is_some());
    assert!(entry(&db, "  git   add   .  ").is_none());
}

#[test]
fn ingestion_rejects_empty_and_self() {
    let mut db = Database::new();
    let dc = DeletedCommands::new();
    insert_command_at("   ".to_string(), &mut db, &dc, None, 900);
    assert_eq!(db.total_num_commands, 0);
    let own = "alman".to_string();
    insert_command_at("alman get-suggestions now".to_string(), &mut db, &dc, Some(&own), 900);
    assert_eq!(db.total_num_commands, 0);
    // Another program with the same prefix is still tracked.
    insert_command_at("almanac --today".to_string(), &mut db, &dc, Some(&own), 900);
    assert!(entry(&db, "almanac --today").is_some());
}

#[test]
fn update_db_refreshes_scores() {
    let mut db = Database::new();
    let dc = DeletedCommands::new();
    db.add_command_at("abcdefgh".to_string(), &dc, 1_000);
    assert_eq!(entry(&db, "abcdefgh").unwrap().score, 13);
    db.update_db_at(1_000 + 7_200);
    let e = entry(&db, "abcdefgh").unwrap();
    assert_eq!(e.score, 6); // x2 band
    assert_eq!(e.frequency, 1);
    assert_eq!(e.last_access_time, 1_000);
    assert_eq!(db.total_score, 6);
}

#[test]
fn get_suggestions_refreshes_and_ranks() {
    let mut db = Database::new();
    let dc = DeletedCommands::new();
    db.add_command_at("old command text".to_string(), &dc, 1_000);
    db.add_command_at("new command text".to_string(), &dc, 800_000);
    // Both scored at insertion time; a later read re-scores both as of now.
    let top = get_suggestions(Some(2), &mut db);
    assert_eq!(top.len(), 2);
    assert!(top[0].score >= top[1].score);
}

#[test]
fn snapshot_round_trip_preserves_ranking() {
    let mut db = Database::new();
    let dc = DeletedCommands::new();
    db.add_command_at("cargo build --release".to_string(), &dc, 100);
    db.add_command_at("cargo test".to_string(), &dc, 2_000);
    db.add_command_at("cargo test".to_string(), &dc, 2_500);
    db.add_command_at("python3 -m http.server".to_string(), &dc, 3_000);
    let list = db.entries_snapshot();
    let map_entries = db.entries_snapshot();
    let db2 = Database::from_parts(list, map_entries);
    for n in [0usize, 1, 2, 3, 10] {
        let a = db.get_top_commands(Some(n));
        let b = db2.get_top_commands(Some(n));
        assert_eq!(a.len(), b.len());
        for (x, y) in a.iter().zip(b.iter()) {
            assert_eq!(x.command_text, y.command_text);
            assert_eq!(x.score, y.score);
            assert_eq!(x.frequency, y.frequency);
        }
    }
    assert_eq!(db.total_score, db2.total_score);
    assert_eq!(db.total_num_commands, db2.total_num_commands);
}

#[test]
fn from_parts_reconciles_disagreeing_record() {
    let mut db = Database::new();
    let dc = DeletedCommands::new();
    db.add_command_at("cargo build".to_string(), &dc, 100);
    db.add_command_at("cargo test".to_string(), &dc, 100);
    let map_entries = db.entries_snapshot();
    // A stale, disagreeing ordered list: the map side wins.
    let db2 = Database::from_parts(Vec::new(), map_entries);
    assert_eq!(db2.total_num_commands, 2);
    assert!(db2.command_list.iter().any(|c| c.command_text == "cargo build"));
    // An empty map falls back to the list.
    let db3 = Database::from_parts(db.entries_snapshot(), Vec::new());
    assert_eq!(db3.total_num_commands, 2);
}

#[test]
fn from_parts_clamps_corrupt_entries() {
    let broken = Command {
        score: -5,
        last_access_time: -1,
        frequency: 0,
        length: -3,
        command_text: "broken record".to_string(),
        number_of_words: -2,
    };
    let twin = broken.clone();
    let db = Database::from_parts(Vec::new(), vec![broken, twin]);
    assert_eq!(db.total_num_commands, 1); // one text, first occurrence kept
    let e = &db.command_list[0];
    assert_eq!(e.score, 0);
    assert_eq!(e.frequency, 1);
    assert_eq!(e.length, 0);
    assert_eq!(e.last_access_time, 0);
    assert_eq!(e.number_of_words, 0);
    assert_eq!(db.total_score, 0);
}

#[test]
fn wall_clock_entries_are_well_formed() {
    let c = Command::new("wall clock entry".to_string());
    assert!(c.last_access_time >= 0);
    assert!(c.score >= 0);
    assert_eq!(c.frequency, 1);
}

#[test]
fn wall_clock_store_operations() {
    let mut db = Database::new();
    let dc = DeletedCommands::new();
    db.add_command("cargo build --release".to_string(), &dc);
    assert_eq!(db.total_num_commands, 1);
    db.update_db();
    assert_eq!(db.total_num_commands, 1);
    for _ in 0..5 {
        db.add_command("cargo build --release".to_string(), &dc);
    }
    db.score_reset();
    let e = entry(&db, "cargo build --release").expect("frequency 6 decays to 1");
    assert_eq!(e.frequency, 1);
    let sum: i128 = db.command_list.iter().map(|c| c.score as i128).sum();
    assert_eq!(db.get_total_score(), sum);
}

#[test]
fn tombstone_set_is_a_set() {
    let mut dc = DeletedCommands::new();
    dc.insert("ls -la".to_string());
    dc.insert("ls -la".to_string());
    assert_eq!(dc.deleted_commands.len(), 1);
    assert!(dc.contains(&"ls -la".to_string()));
    dc.remove(&"ls -la".to_string());
    assert!(!dc.contains(&"ls -la".to_string()));
    assert!(dc.deleted_commands.is_empty());
}
