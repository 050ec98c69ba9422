use std::cmp::Ordering;
use hardwave::browser::{browser_rows, compare_entries, eq_ignore_ascii_case, is_audio_file, sort_entries, BrowserEntry, FolderItem};

fn names(entries: &[BrowserEntry]) -> Vec<&str> {
    entries.iter().map(|e| e.name.as_str()).collect()
}

fn item(dir: &str, name: &str, is_dir: bool, len: u64) -> FolderItem {
    FolderItem { name: name.into(), path: format!("{dir}/{name}"), is_dir, len, system_hidden: false }
}

#[test]
fn lists_folders_first_then_audio_sorted_ignoring_case() {
    let d = "/tmp/lib";
    let items = vec![
        item(d, "snares", true, 4096),
        item(d, "Kicks", true, 4096),
        item(d, "b loop.WAV", false, 1),
        item(d, "A Loop.flac", false, 3),
    ];
    let entries = browser_rows(items);
    assert_eq!(names(&entries), ["Kicks", "snares", "A Loop.flac", "b loop.WAV"]);
    assert!(entries[0].is_dir && entries[1].is_dir);
    assert!(!entries[2].is_dir && !entries[3].is_dir);
    assert_eq!(entries[0].size_bytes, 0);
    assert_eq!(entries[2].size_bytes, 3);
    assert_eq!(entries[2].path, "/tmp/lib/A Loop.flac");
}

#[test]
fn skips_hidden_entries_and_files_the_engine_cannot_import() {
    let d = "/tmp/lib";
    let mut marked = item(d, "loop.wav", false, 1);
    marked.system_hidden = true;
    let items = vec![
        item(d, ".cache", true, 0),
        item(d, ".DS_Store", false, 1),
        item(d, "._kick.wav", false, 1),
        item(d, "readme.txt", false, 1),
        item(d, "song.hwp", false, 1),
        item(d, "kick.wav", false, 1),
        marked,
    ];
    let entries = browser_rows(items);
    assert_eq!(names(&entries), ["kick.wav"]);
}

#[test]
fn audio_files_are_known_by_extension_in_any_case() {
    assert!(is_audio_file("/a/b.WAV"));
    assert!(is_audio_file("/a/b.m4a"));
    assert!(is_audio_file("/a/b.Aif"));
    assert!(!is_audio_file("/a/b.wav.txt"));
    assert!(!is_audio_file("/a/wav"));
    assert!(eq_ignore_ascii_case("FlAc", "flac"));
    assert!(!eq_ignore_ascii_case("flac", "fla"));
}

#[test]
fn equal_names_in_different_case_keep_a_stable_order() {
    let e = |name: &str, is_dir: bool| BrowserEntry { name: name.into(), path: name.into(), is_dir, size_bytes: 0 };
    let sorted = sort_entries(vec![e("b.wav", false), e("B.wav", false), e("a", true), e("A.wav", false)]);
    assert_eq!(names(&sorted), ["a", "A.wav", "B.wav", "b.wav"]);
}

fn row(name: &str, is_dir: bool) -> BrowserEntry {
    BrowserEntry { name: name.into(), path: format!("/x/{name}"), is_dir, size_bytes: 0 }
}

#[test]
fn compare_puts_folders_first_then_names_ignoring_case() {
    assert_eq!(compare_entries(&row("zeta", true), &row("alpha", false)), Ordering::Less);
    assert_eq!(compare_entries(&row("alpha", false), &row("zeta", true)), Ordering::Greater);
    assert_eq!(compare_entries(&row("apple", false), &row("Banana", false)), Ordering::Less);
    assert_eq!(compare_entries(&row("Kick", false), &row("kick", false)), Ordering::Less);
    assert_eq!(compare_entries(&row("kick", false), &row("kick", false)), Ordering::Equal);
}
