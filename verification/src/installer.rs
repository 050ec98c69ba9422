//! The stand-alone installer's decisions: the version a release tag names,
//! which release asset is this platform's installer, and the records the
//! installer's window exchanges.

use vstd::prelude::*;
use crate::text::str_eq;

verus! {

/// The latest release as the installer shows it.
#[derive(Debug)]
pub struct LatestVersion {
    pub version: String,
    pub notes: String,
    pub pub_date: Option<String>,
}

/// A progress event: phase name, percent (0 to 100) and a message.
#[derive(Debug)]
pub struct InstallProgress {
    pub phase: String,
    pub percent: u32,
    pub message: String,
}

/// What the user chose before installing.
#[derive(Debug)]
pub struct InstallOptions {
    pub install_dir: String,
    pub create_desktop_shortcut: bool,
    pub create_start_menu_shortcut: bool,
    pub launch_after: bool,
}

/// `s` without any leading `v`s.
pub open spec fn strip_leading_v(s: Seq<char>) -> Seq<char>
    decreases s.len(),
{
    if s.len() > 0 && s[0] == 'v' {
        strip_leading_v(s.drop_first())
    } else {
        s
    }
}

/// The version a release tag names: the tag without its leading `v`s.
pub fn version_from_tag(tag: &str) -> (v: String)
    ensures
        v@ == strip_leading_v(tag@),
{
    let n = tag.unicode_len();
    let mut i: usize = 0;
    assert(tag@.skip(0) =~= tag@);
    while i < n && tag.get_char(i) == 'v'
        invariant
            n == tag@.len(),
            0 <= i <= n,
            strip_leading_v(tag@) == strip_leading_v(tag@.skip(i as int)),
        decreases n - i,
    {
        assert(tag@.skip(i as int).drop_first() =~= tag@.skip(i as int + 1));
        i = i + 1;
    }
    assert(tag@.skip(i as int) =~= tag@.subrange(i as int, n as int));
    String::from_str(tag.substring_char(i, n))
}

/// The end of an installer asset's name on each platform (as
/// `std::env::consts::OS` names it): the x64 setup program on Windows, a
/// disk image on macOS, an AppImage elsewhere.
pub open spec fn asset_suffix_spec(os: Seq<char>) -> Seq<char> {
    if os == "windows"@ {
        "_x64-setup.exe"@
    } else if os == "macos"@ {
        ".dmg"@
    } else {
        ".AppImage"@
    }
}

/// The release-asset suffix for the platform `os`.
pub fn target_asset_filter(os: &str) -> (s: String)
    ensures
        s@ == asset_suffix_spec(os@),
{
    if str_eq(os, "windows") {
        String::from_str("_x64-setup.exe")
    } else if str_eq(os, "macos") {
        String::from_str(".dmg")
    } else {
        String::from_str(".AppImage")
    }
}

/// The extension the downloaded installer is saved with on each platform.
pub open spec fn installer_suffix_spec(os: Seq<char>) -> Seq<char> {
    if os == "windows"@ {
        ".exe"@
    } else if os == "macos"@ {
        ".dmg"@
    } else {
        ".AppImage"@
    }
}

/// The downloaded installer's extension for the platform `os`.
pub fn installer_suffix(os: &str) -> (s: String)
    ensures
        s@ == installer_suffix_spec(os@),
{
    if str_eq(os, "windows") {
        String::from_str(".exe")
    } else if str_eq(os, "macos") {
        String::from_str(".dmg")
    } else {
        String::from_str(".AppImage")
    }
}

/// One asset of a release: its name and download link, when present.
#[derive(Debug)]
pub struct ReleaseAsset {
    pub name: Option<String>,
    pub url: Option<String>,
}

/// Whether `s` ends with `suffix`.
pub open spec fn ends_with(s: Seq<char>, suffix: Seq<char>) -> bool {
    suffix.len() <= s.len() && s.skip(s.len() - suffix.len()) == suffix
}

/// The asset is this platform's installer and can be downloaded.
pub open spec fn usable(a: ReleaseAsset, suffix: Seq<char>) -> bool {
    a.name matches Some(n) && ends_with(n@, suffix) && a.url is Some
}

fn str_ends_with(s: &str, suffix: &str) -> (r: bool)
    ensures
        r == ends_with(s@, suffix@),
{
    let n = s.unicode_len();
    let m = suffix.unicode_len();
    if m > n {
        return false;
    }
    let tail = s.substring_char(n - m, n);
    assert(s@.subrange(n - m, n as int) =~= s@.skip(n - m));
    str_eq(tail, suffix)
}

/// The download link of the first asset whose name ends with `suffix` and
/// that has a link; otherwise the error the installer shows.
pub fn pick_asset_url(assets: &[ReleaseAsset], suffix: &str) -> (r: Result<String, String>)
    ensures
        match crate::seqs::first_match(assets@, |a: ReleaseAsset| usable(a, suffix@)) {
            Some(k) => r matches Ok(u) && u@ == assets@[k].url->0@,
            None => r matches Err(m) && m@ == "Could not find an asset ending in "@ + suffix@
                + " on the latest Hardwave DAW release. Please re-run the installer, or download manually from https://github.com/Dishairano/hardwave-daw/releases/latest"@,
        },
{
    let mut i: usize = 0;
    while i < assets.len()
        invariant
            0 <= i <= assets@.len(),
            forall|k: int| 0 <= k < i ==> !usable(#[trigger] assets@[k], suffix@),
        decreases assets@.len() - i,
    {
        if let Some(name) = &assets[i].name {
            if str_ends_with(name.as_str(), suffix) {
                if let Some(url) = &assets[i].url {
                    proof {
                        crate::seqs::lemma_first_match_at(assets@, |a: ReleaseAsset| usable(a, suffix@), i as int);
                    }
                    return Ok(url.clone());
                }
            }
        }
        i = i + 1;
    }
    proof {
        crate::seqs::lemma_first_match_none(assets@, |a: ReleaseAsset| usable(a, suffix@));
    }
    let mut m = String::from_str("Could not find an asset ending in ");
    m.append(suffix);
    m.append(
        " on the latest Hardwave DAW release. Please re-run the installer, or download manually from https://github.com/Dishairano/hardwave-daw/releases/latest",
    );
    Err(m)
}

} // verus!
