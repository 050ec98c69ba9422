use hardwave::housekeeping::{move_item, selected_indices, sessions_to_prune, sort_texts, KEEP_SESSIONS};
use hardwave::notes::{parse_chord_quality, replace_selected, ChordQuality};
use hardwave::wire::{autosave_file_name, autosaves_to_prune, newest_autosave, take_file_name, FolderFile, MAX_AUTOSAVES};

#[test]
fn prune_keeps_newest_sessions() {
    let mut names: Vec<String> = (0..8).map(|i| format!("session-2026010{}-000000.log", i)).collect();
    names.push("unrelated.txt".to_string());
    names.reverse();
    let doomed = sessions_to_prune(names.clone());
    let logs: Vec<String> = names
        .iter()
        .filter(|n| n.starts_with("session-") && !doomed.contains(n))
        .cloned()
        .collect();
    assert_eq!(logs.len(), KEEP_SESSIONS - 1, "prune leaves room for the new session");
    assert!(logs.iter().all(|n| n.contains("2026010")), "kept files are session logs");
    let mut sorted = logs.clone();
    sorted.sort();
    assert!(sorted.last().unwrap().contains("20260107"), "newest session survives pruning");
    assert!(!doomed.contains(&"unrelated.txt".to_string()), "non-log files untouched");
}

#[test]
fn pruning_deletes_the_oldest_logs_in_name_order() {
    let names: Vec<String> = ["session-3.log", "session-1.log", "session-5.log", "session-2.log", "session-4.log", "session-0.log"]
        .iter()
        .map(|s| s.to_string())
        .collect();
    assert_eq!(sessions_to_prune(names), vec!["session-0.log".to_string(), "session-1.log".to_string()]);
    assert!(sessions_to_prune(vec!["session-9.log".to_string()]).is_empty());
}

#[test]
fn texts_sort_by_their_characters() {
    let out = sort_texts(vec!["b".into(), "a".into(), "ab".into(), "B".into()]);
    assert_eq!(out, vec!["B".to_string(), "a".to_string(), "ab".to_string(), "b".to_string()]);
}

#[test]
fn moving_an_item_holds_it_to_the_end() {
    let mut v = vec!['a', 'b', 'c', 'd'];
    assert_eq!(move_item(&mut v, 0, 99), 3);
    assert_eq!(v, vec!['b', 'c', 'd', 'a']);
    assert_eq!(move_item(&mut v, 3, 1), 1);
    assert_eq!(v, vec!['b', 'a', 'c', 'd']);
    assert_eq!(move_item(&mut v, 2, 2), 2);
    assert_eq!(v, vec!['b', 'a', 'c', 'd']);
}

#[test]
fn an_empty_selection_means_every_note() {
    assert_eq!(selected_indices(3, &[]), vec![0, 1, 2]);
    assert_eq!(selected_indices(3, &[2, 7, 0]), vec![2, 0]);
}

#[test]
fn a_take_is_named_readably_and_never_overwrites() {
    let base = "Take 2026-01-02 10-11-12";
    let first = take_file_name(base, 1);
    assert!(first.starts_with("Take 20"), "got {first}");
    assert!(first.ends_with(".wav"));
    let second = take_file_name(base, 2);
    assert_ne!(second, first, "a second take in the same second must differ");
    assert!(second.contains("(2)"), "got {second}");
    assert_eq!(second, "Take 2026-01-02 10-11-12 (2).wav");
}

#[test]
fn the_newest_autosave_is_found_by_name_and_time() {
    let files = vec![
        FolderFile { path: "/a/autosave-1.hwp".into(), file_name: Some("autosave-1.hwp".into()), modified_unix: 10 },
        FolderFile { path: "/a/notes.txt".into(), file_name: Some("notes.txt".into()), modified_unix: 99 },
        FolderFile { path: "/a/autosave-2.hwp".into(), file_name: Some("autosave-2.hwp".into()), modified_unix: 20 },
        FolderFile { path: "/a/autosave-3.hwp".into(), file_name: Some("autosave-3.hwp".into()), modified_unix: 15 },
    ];
    let newest = newest_autosave(&files).expect("found");
    assert_eq!(newest.path, "/a/autosave-2.hwp");
    assert_eq!(newest.modified_unix, 20);
    assert!(newest_autosave(&vec![]).is_none());
}

#[test]
fn generated_notes_take_the_place_of_the_selection() {
    let mut notes = vec!['a', 'b', 'c', 'd', 'e'];
    let n = replace_selected(&mut notes, vec![3, 1, 9], vec!['x', 'y']);
    assert_eq!(n, 2);
    assert_eq!(notes, vec!['a', 'c', 'e', 'x', 'y']);
}

#[test]
fn chord_names_parse_to_qualities() {
    assert_eq!(parse_chord_quality("major"), Ok(ChordQuality::Major));
    assert_eq!(parse_chord_quality("dim"), Ok(ChordQuality::Diminished));
    assert_eq!(parse_chord_quality("dominant7"), Ok(ChordQuality::Dominant7));
    assert_eq!(parse_chord_quality("min7"), Ok(ChordQuality::Minor7));
    assert_eq!(parse_chord_quality("sus4"), Err("Unknown chord quality: sus4".to_string()));
}

#[test]
fn old_autosaves_beyond_the_newest_three_are_pruned() {
    let file = |name: &str, t: u64| FolderFile { path: format!("/a/{name}"), file_name: Some(name.into()), modified_unix: t };
    let files = vec![
        file("autosave-1.hwp", 10),
        file("autosave-2.hwp", 30),
        file("notes.txt", 1),
        file("autosave-3.hwp", 20),
        file("autosave-4.hwp", 40),
        file("autosave-5.hwp", 30),
    ];
    assert_eq!(MAX_AUTOSAVES, 3);
    assert_eq!(autosaves_to_prune(&files), vec!["/a/autosave-3.hwp".to_string(), "/a/autosave-1.hwp".to_string()]);
    assert!(autosaves_to_prune(&vec![file("autosave-1.hwp", 10), file("autosave-2.hwp", 5)]).is_empty());
    assert_eq!(autosave_file_name(1_700_000_000), "autosave-1700000000.hwp");
}
