//! What a bug report attaches: the end of the session log, cut to the bug
//! API's budget at a line boundary, and a short operating-system name.

use vstd::prelude::*;
use crate::seqs::{first_match, lemma_first_match_at, lemma_first_match_none};
use crate::text::str_eq;

verus! {

/// Most characters of log a report carries; the API keeps at most 8000
/// characters of context, and the rest of the object needs room too.
pub const LOG_TAIL_LIMIT: usize = 6000;

/// What the report dialog shows before sending.
#[derive(Debug)]
pub struct BugReportEnv {
    pub version: String,
    pub os: String,
    pub log_available: bool,
}

/// The marker that opens a shortened log.
pub open spec fn trimmed_marker() -> Seq<char> {
    "[earlier lines trimmed]\n"@
}

/// The part of the last `limit` characters that starts at a line: after
/// the first line break in them, or all of them when there is none.
pub open spec fn tail_body(text: Seq<char>, limit: nat) -> Seq<char> {
    let tail = text.skip(text.len() - limit);
    match first_match(tail, |c: char| c == '\n') {
        Some(i) => tail.skip(i + 1),
        None => tail,
    }
}

/// A log of at most `limit` characters is sent whole; a longer one is
/// marked as trimmed and keeps its last `limit` characters from the first
/// line start among them.
pub open spec fn tail_chars_spec(text: Seq<char>, limit: nat) -> Seq<char> {
    if text.len() <= limit {
        text
    } else {
        trimmed_marker() + tail_body(text, limit)
    }
}

/// The end of a log, cut to `limit` characters at a line boundary.
pub fn tail_chars(text: &str, limit: usize) -> (r: String)
    ensures
        r@ == tail_chars_spec(text@, limit as nat),
{
    let n = text.unicode_len();
    if n <= limit {
        return String::from_str(text);
    }
    let start = n - limit;
    let ghost tail = text@.skip(start as int);
    let mut i: usize = start;
    while i < n && text.get_char(i) != '\n'
        invariant
            n == text@.len(),
            start <= i <= n,
            tail == text@.skip(start as int),
            forall|k: int| 0 <= k < i - start ==> tail[k] != '\n',
        decreases n - i,
    {
        i = i + 1;
    }
    let found = i < n;
    let cut = if found { i + 1 } else { start };
    proof {
        if found {
            assert(tail[i - start] == '\n');
            lemma_first_match_at(tail, |c: char| c == '\n', (i - start) as int);
            assert(tail.skip(cut - start) =~= text@.subrange(cut as int, n as int));
        } else {
            lemma_first_match_none(tail, |c: char| c == '\n');
            assert(tail =~= text@.subrange(start as int, n as int));
        }
    }
    let mut r = String::from_str("[earlier lines trimmed]\n");
    r.append(text.substring_char(cut, n));
    r
}

/// What the user is promised of an attached log: a short one is whole; a
/// long one is marked, ends exactly as the log does, is no longer than the
/// limit after the marker, and starts at the beginning of a line.
pub proof fn lemma_tail_keeps_the_end(text: Seq<char>, limit: nat)
    ensures
        text.len() <= limit ==> tail_chars_spec(text, limit) == text,
        text.len() > limit ==> {
            let body = tail_body(text, limit);
            &&& tail_chars_spec(text, limit) == trimmed_marker() + body
            &&& body.len() <= limit
            &&& body == text.skip(text.len() - body.len())
            &&& (body.len() < limit ==> text[text.len() - body.len() - 1] == '\n')
        },
{
    if text.len() > limit {
        let tail = text.skip(text.len() - limit);
        let pred = |c: char| c == '\n';
        match first_match(tail, pred) {
            Some(i) => {
                crate::seqs::lemma_first_match_props(tail, pred);
                let body = tail.skip(i + 1);
                assert(body =~= text.skip(text.len() - body.len()));
                assert(text[text.len() - body.len() - 1] == tail[i]);
            },
            None => {
                assert(tail =~= text.skip(text.len() - tail.len()));
            },
        }
    }
}

/// A short name for the operating system, within the API's 20 characters.
pub open spec fn friendly_os_name_spec(os: Seq<char>) -> Seq<char> {
    if os == "windows"@ {
        "Windows"@
    } else if os == "macos"@ {
        "macOS"@
    } else if os == "linux"@ {
        "Linux"@
    } else if os.len() > 20 {
        os.take(20)
    } else {
        os
    }
}

/// The name reported for the operating system `os` (as `std::env::consts::OS`
/// spells it).
pub fn friendly_os_name(os: &str) -> (r: String)
    ensures
        r@ == friendly_os_name_spec(os@),
        r@.len() <= 20,
{
    proof {
        reveal_strlit("Windows");
        reveal_strlit("macOS");
        reveal_strlit("Linux");
    }
    if str_eq(os, "windows") {
        String::from_str("Windows")
    } else if str_eq(os, "macos") {
        String::from_str("macOS")
    } else if str_eq(os, "linux") {
        String::from_str("Linux")
    } else {
        let n = os.unicode_len();
        if n > 20 {
            String::from_str(os.substring_char(0, 20))
        } else {
            String::from_str(os)
        }
    }
}

} // verus!
