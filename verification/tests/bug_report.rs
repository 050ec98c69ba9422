use hardwave::bug_report::{friendly_os_name, tail_chars, LOG_TAIL_LIMIT};

#[test]
fn a_short_log_is_sent_whole() {
    let log = "line one\nline two\n";
    assert_eq!(tail_chars(log, 6000), log);
}

#[test]
fn a_long_log_keeps_its_end_and_says_it_was_trimmed() {
    let log: String = (0..2000).map(|i| format!("line {i}\n")).collect();
    let tail = tail_chars(&log, 200);
    assert!(tail.starts_with("[earlier lines trimmed]\n"));
    assert!(tail.ends_with("line 1999\n"), "the end is what matters");
    assert!(tail.chars().count() <= 240, "{}", tail.chars().count());
}

#[test]
fn a_trimmed_log_starts_at_a_line_not_mid_word() {
    let log: String = (0..500).map(|i| format!("timestamp {i} something happened\n")).collect();
    let tail = tail_chars(&log, 100);
    let first_real_line = tail.lines().nth(1).unwrap_or("");
    assert!(first_real_line.starts_with("timestamp "), "cut mid-line: {first_real_line}");
}

#[test]
fn the_os_name_fits_the_api_limit() {
    for os in ["windows", "macos", "linux", "freebsd", "an-operating-system-with-a-long-name"] {
        assert!(friendly_os_name(os).chars().count() <= 20);
    }
}

#[test]
fn the_known_systems_get_their_usual_names() {
    assert_eq!(friendly_os_name("windows"), "Windows");
    assert_eq!(friendly_os_name("macos"), "macOS");
    assert_eq!(friendly_os_name("linux"), "Linux");
    assert_eq!(friendly_os_name("freebsd"), "freebsd");
    assert_eq!(friendly_os_name("an-operating-system-with-a-long-name"), "an-operating-system-");
}

#[test]
fn a_log_at_the_limit_is_not_trimmed() {
    let log = "x".repeat(LOG_TAIL_LIMIT);
    assert_eq!(tail_chars(&log, LOG_TAIL_LIMIT), log);
}

#[test]
fn a_tail_without_a_line_break_keeps_the_last_characters() {
    let tail = tail_chars("abcdefghij", 4);
    assert_eq!(tail, "[earlier lines trimmed]\nghij");
}
