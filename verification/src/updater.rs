//! The frontend updater's version contract: reading a manifest's version
//! floor and API range against the running binary, choosing between a
//! bundle hot-swap, the installer modal and a silent fallback, and the
//! cache that keeps one launch's decision stable.

use vstd::prelude::*;
use crate::seqs::{first_match, lemma_first_match_at, lemma_first_match_none};
use crate::text::{
    count_char, count_of, decimal, lemma_split_on_cons, lemma_split_on_nonempty, lemma_trim_cons, lemma_ws_free_end_bounds,
    lemma_ws_free_end_cons, push_decimal, split_char, split_on, str_eq, trim, trim_spec, ws_free_end,
};

verus! {

/// Highest manifest schema this client knows how to read.
pub const KNOWN_MANIFEST_SCHEMA: u32 = 2;

/// How long a resolved launch plan stays fresh, in nanoseconds (24 hours).
pub const LAUNCH_PLAN_CACHE_TTL_NANOS: u64 = 86_400_000_000_000;

// ---------------------------------------------------------------------------
// semver, through trusted items

/// Whether `semver::Version::parse` accepts a text.
pub uninterp spec fn semver_parses(text: Seq<char>) -> bool;

/// Whether the version parsed from `a` orders strictly before the one
/// parsed from `b` under `Version`'s `Ord`.
pub uninterp spec fn semver_precedes(a: Seq<char>, b: Seq<char>) -> bool;

/// Whether `semver::VersionReq::parse` accepts a text.
pub uninterp spec fn semver_req_parses(text: Seq<char>) -> bool;

/// Whether the requirement parsed from `req` matches the version parsed
/// from `version` (`VersionReq::matches`).
pub uninterp spec fn semver_req_matches(req: Seq<char>, version: Seq<char>) -> bool;

/// Calls `semver::Version::parse` and reports whether it succeeded; claims
/// only that this is the named fact about the text.
#[verifier::external_body]
fn version_parses(text: &str) -> (r: bool)
    ensures
        r == semver_parses(text@),
{
    semver::Version::parse(text).is_ok()
}

/// Compares two versions with `<` on `semver::Version`, after parsing each
/// text (the requirement rules out a text that does not parse). Claims the
/// result is the named order, and that a version never precedes itself,
/// since `Version`'s order is derived and total.
#[verifier::external_body]
fn version_precedes(a: &str, b: &str) -> (r: bool)
    requires
        semver_parses(a@),
        semver_parses(b@),
    ensures
        r == semver_precedes(a@, b@),
        a@ == b@ ==> !r,
{
    semver::Version::parse(a).unwrap() < semver::Version::parse(b).unwrap()
}

/// Calls `semver::VersionReq::parse` and reports whether it succeeded.
#[verifier::external_body]
fn req_parses(text: &str) -> (r: bool)
    ensures
        r == semver_req_parses(text@),
{
    semver::VersionReq::parse(text).is_ok()
}

/// Calls `VersionReq::matches` on a requirement and a version given as
/// texts that parse.
#[verifier::external_body]
fn req_matches(req: &str, version: &str) -> (r: bool)
    requires
        semver_req_parses(req@),
        semver_parses(version@),
    ensures
        r == semver_req_matches(req@, version@),
{
    semver::VersionReq::parse(req).unwrap().matches(&semver::Version::parse(version).unwrap())
}

// ---------------------------------------------------------------------------
// Version comparisons

/// A remote version is newer than a local one: by semver when both parse,
/// otherwise whenever the texts differ.
pub open spec fn version_is_newer_spec(remote: Seq<char>, local: Seq<char>) -> bool {
    if semver_parses(remote) && semver_parses(local) {
        semver_precedes(local, remote)
    } else {
        remote != local
    }
}

/// Whether `remote` is newer than `local`.
pub fn version_is_newer(remote: &str, local: &str) -> (r: bool)
    ensures
        r == version_is_newer_spec(remote@, local@),
        remote@ == local@ ==> !r,
{
    if version_parses(remote) && version_parses(local) {
        version_precedes(local, remote)
    } else {
        !str_eq(remote, local)
    }
}

/// A running version satisfies a requirement: an unparseable requirement
/// only when it is exactly `*`, an unparseable version never.
pub open spec fn api_compatible_spec(required: Seq<char>, running: Seq<char>) -> bool {
    if !semver_req_parses(required) {
        required == "*"@
    } else if !semver_parses(running) {
        false
    } else {
        semver_req_matches(required, running)
    }
}

/// Whether the running binary satisfies the manifest's API requirement.
pub fn api_compatible(required: &str, running: &str) -> (r: bool)
    ensures
        r == api_compatible_spec(required@, running@),
{
    if !req_parses(required) {
        return str_eq(required, "*");
    }
    if !version_parses(running) {
        return false;
    }
    req_matches(required, running)
}

/// A version text padded the way manifests abbreviate it: `a` is `a.0.0`
/// and `a.b` is `a.b.0`, when that parses.
pub open spec fn parse_loose_spec(s: Seq<char>) -> Option<Seq<char>> {
    let t = trim_spec(s);
    if semver_parses(t) {
        Some(t)
    } else if count_char(t, '.') == 0 && semver_parses(t + ".0.0"@) {
        Some(t + ".0.0"@)
    } else if count_char(t, '.') == 1 && semver_parses(t + ".0"@) {
        Some(t + ".0"@)
    } else {
        None
    }
}

/// The text of the version `s` stands for, padding `1` and `1.2` with
/// zeros; `None` when no such version parses.
pub fn parse_loose(s: &str) -> (r: Option<String>)
    ensures
        match parse_loose_spec(s@) {
            Some(v) => r is Some && r->0@ == v,
            None => r is None,
        },
{
    let t = trim(s);
    if version_parses(t.as_str()) {
        return Some(t);
    }
    let dots = count_of(t.as_str(), '.');
    if dots == 0 {
        let mut padded = t.clone();
        padded.append(".0.0");
        if version_parses(padded.as_str()) {
            return Some(padded);
        }
        return None;
    }
    if dots == 1 {
        let mut padded = t.clone();
        padded.append(".0");
        if version_parses(padded.as_str()) {
            return Some(padded);
        }
        return None;
    }
    None
}

/// A comparator that gives a lower bound: it starts with `>`.
pub open spec fn is_lower_comparator(p: Seq<char>) -> bool {
    p.len() >= 1 && p[0] == '>'
}

/// The operand of a `>=` or `>` comparator, trimmed.
pub open spec fn comparator_operand(p: Seq<char>) -> Seq<char> {
    if p.len() >= 2 && p[1] == '=' {
        trim_spec(p.skip(2))
    } else {
        trim_spec(p.skip(1))
    }
}

/// The lower bound of a requirement, as the forms manifests publish give
/// it: `^a.b.c` bounds at `a.b.c`, and in a comma-separated list the first
/// `>=` or `>` comparator does (`>` gives the same floor as `>=`). `*`,
/// empty and other forms have none.
pub open spec fn range_lower_bound_spec(range: Seq<char>) -> Option<Seq<char>> {
    let t = trim_spec(range);
    if t.len() == 0 || t == "*"@ {
        None
    } else if t[0] == '^' {
        parse_loose_spec(t.drop_first())
    } else {
        match first_match(split_on(t, ','), |p: Seq<char>| is_lower_comparator(trim_spec(p))) {
            Some(k) => parse_loose_spec(comparator_operand(trim_spec(split_on(t, ',')[k]))),
            None => None,
        }
    }
}

/// The lower bound of a requirement string, as version text.
pub fn range_lower_bound(range: &str) -> (r: Option<String>)
    ensures
        match range_lower_bound_spec(range@) {
            Some(v) => r is Some && r->0@ == v,
            None => r is None,
        },
{
    let t = trim(range);
    let n = t.as_str().unicode_len();
    if n == 0 || str_eq(t.as_str(), "*") {
        return None;
    }
    if t.as_str().get_char(0) == '^' {
        return parse_loose(t.as_str().substring_char(1, n));
    }
    let parts = split_char(t.as_str(), ',');
    let ghost pieces = split_on(t@, ',');
    let mut i: usize = 0;
    while i < parts.len()
        invariant
            t@ == trim_spec(range@),
            t@.len() > 0,
            t@ != "*"@,
            t@[0] != '^',
            pieces == split_on(t@, ','),
            parts@.len() == pieces.len(),
            forall|k: int| 0 <= k < parts@.len() ==> (#[trigger] parts@[k])@ == pieces[k],
            0 <= i <= parts@.len(),
            forall|k: int| 0 <= k < i ==> !is_lower_comparator(trim_spec(#[trigger] pieces[k])),
        decreases parts@.len() - i,
    {
        let part = trim(parts[i].as_str());
        let pl = part.as_str().unicode_len();
        assert(part@ == trim_spec(pieces[i as int]));
        if pl >= 1 && part.as_str().get_char(0) == '>' {
            proof {
                lemma_first_match_at(pieces, |p: Seq<char>| is_lower_comparator(trim_spec(p)), i as int);
            }
            if pl >= 2 && part.as_str().get_char(1) == '=' {
                let rest = trim(part.as_str().substring_char(2, pl));
                assert(part@.subrange(2, pl as int) =~= part@.skip(2));
                return parse_loose(rest.as_str());
            }
            let rest = trim(part.as_str().substring_char(1, pl));
            assert(part@.subrange(1, pl as int) =~= part@.skip(1));
            return parse_loose(rest.as_str());
        }
        i = i + 1;
    }
    proof {
        lemma_first_match_none(pieces, |p: Seq<char>| is_lower_comparator(trim_spec(p)));
    }
    None
}

// ---------------------------------------------------------------------------
// Manifest and launch plan

/// Which updater feed the installer uses.
#[derive(Debug, Clone, Copy, PartialEq, Eq, Structural)]
pub enum InstallerTrack {
    Stable,
    Beta,
}

impl Default for InstallerTrack {
    /// The default feed, `Stable`.
    fn default() -> (t: InstallerTrack)
        ensures
            t == InstallerTrack::Stable,
    {
        InstallerTrack::Stable
    }
}

/// Copy for the installer modal; never authoritative.
#[derive(Debug)]
pub struct InstallerHint {
    pub version: Option<String>,
    pub notes_url: Option<String>,
    pub release_url: Option<String>,
}

/// Where the frontend bundle is and what it hashes to.
#[derive(Debug)]
pub struct BundleSpec {
    pub url: String,
    pub size_bytes: u64,
    pub sha256: String,
}

/// The frontend manifest.
#[derive(Debug)]
pub struct Manifest {
    pub latest_version: String,
    pub published_at: Option<String>,
    pub requires_api: String,
    pub bundle: BundleSpec,
    pub changelog: Vec<String>,
    pub min_installer: Option<String>,
    pub installer_track: InstallerTrack,
    pub manifest_schema: u32,
    pub installer_hint: Option<InstallerHint>,
}

/// The requirement a manifest without one states: anything goes.
pub fn default_requires_api() -> (s: String)
    ensures
        s@ == "*"@,
{
    String::from_str("*")
}

/// The schema a manifest without a marker has: 1.
pub fn default_manifest_schema() -> (s: u32)
    ensures
        s == 1,
{
    1
}

/// Why the installer modal was chosen.
#[derive(Debug)]
pub enum InstallerReason {
    /// The binary is below the manifest's `min_installer`.
    VersionFloor { needed: String, have: String },
    /// The binary is below the manifest's API range.
    ApiRangeBelow { range: String, have: String },
}

/// What to do with the advertised bundle.
#[derive(Debug)]
pub enum HotSwapAction {
    NoOp,
    ApplyBundle { version: String, bundle_url: String, size_bytes: u64, sha256: String },
}

/// The launch decision.
#[derive(Debug)]
pub enum LaunchPlan {
    HotSwap { action: HotSwapAction },
    InstallerModal {
        target_version: Option<String>,
        track: InstallerTrack,
        reason: InstallerReason,
        release_url: Option<String>,
    },
    Fallback { reason: String },
}

/// An optional text by its characters.
pub open spec fn opt_text(o: Option<String>) -> Option<Seq<char>> {
    match o {
        Some(s) => Some(s@),
        None => None,
    }
}

/// The characters of an installer reason.
pub enum InstallerReasonView {
    VersionFloor { needed: Seq<char>, have: Seq<char> },
    ApiRangeBelow { range: Seq<char>, have: Seq<char> },
}

/// The characters of a hot-swap action.
pub enum HotSwapView {
    NoOp,
    ApplyBundle { version: Seq<char>, bundle_url: Seq<char>, size_bytes: u64, sha256: Seq<char> },
}

/// The characters of a launch plan.
pub enum LaunchPlanView {
    HotSwap { action: HotSwapView },
    InstallerModal {
        target_version: Option<Seq<char>>,
        track: InstallerTrack,
        reason: InstallerReasonView,
        release_url: Option<Seq<char>>,
    },
    Fallback { reason: Seq<char> },
}

impl View for InstallerReason {
    type V = InstallerReasonView;

    open spec fn view(&self) -> InstallerReasonView {
        match self {
            InstallerReason::VersionFloor { needed, have } => InstallerReasonView::VersionFloor {
                needed: needed@,
                have: have@,
            },
            InstallerReason::ApiRangeBelow { range, have } => InstallerReasonView::ApiRangeBelow {
                range: range@,
                have: have@,
            },
        }
    }
}

impl View for HotSwapAction {
    type V = HotSwapView;

    open spec fn view(&self) -> HotSwapView {
        match self {
            HotSwapAction::NoOp => HotSwapView::NoOp,
            HotSwapAction::ApplyBundle { version, bundle_url, size_bytes, sha256 } => HotSwapView::ApplyBundle {
                version: version@,
                bundle_url: bundle_url@,
                size_bytes: *size_bytes,
                sha256: sha256@,
            },
        }
    }
}

impl View for LaunchPlan {
    type V = LaunchPlanView;

    open spec fn view(&self) -> LaunchPlanView {
        match self {
            LaunchPlan::HotSwap { action } => LaunchPlanView::HotSwap { action: action@ },
            LaunchPlan::InstallerModal { target_version, track, reason, release_url } =>
                LaunchPlanView::InstallerModal {
                    target_version: opt_text(*target_version),
                    track: *track,
                    reason: reason@,
                    release_url: opt_text(*release_url),
                },
            LaunchPlan::Fallback { reason } => LaunchPlanView::Fallback { reason: reason@ },
        }
    }
}

/// The hint's version text, if the manifest has a hint with one.
pub open spec fn hint_version(m: Manifest) -> Option<Seq<char>> {
    match m.installer_hint {
        Some(h) => opt_text(h.version),
        None => None,
    }
}

/// The hint's release link, if the manifest has a hint with one.
pub open spec fn hint_release(m: Manifest) -> Option<Seq<char>> {
    match m.installer_hint {
        Some(h) => opt_text(h.release_url),
        None => None,
    }
}

/// The launch plan, checked in order: no manifest or a schema ahead of the
/// client falls back; an unparseable installed version falls back; below
/// `min_installer` asks for the installer (an unparseable floor falls
/// back); outside the API range asks for the installer when below its
/// lower bound and falls back otherwise; else the bundle is applied when
/// it is newer than the active frontend, and nothing is done when not.
pub open spec fn launch_plan_spec(installed: Seq<char>, active: Seq<char>, manifest: Option<Manifest>) -> LaunchPlanView {
    match manifest {
        None => LaunchPlanView::Fallback { reason: "manifest unavailable"@ },
        Some(m) => if m.manifest_schema > KNOWN_MANIFEST_SCHEMA {
            LaunchPlanView::Fallback {
                reason: "manifest schema "@ + decimal(m.manifest_schema as nat) + " ahead of client "@
                    + decimal(KNOWN_MANIFEST_SCHEMA as nat),
            }
        } else if !semver_parses(installed) {
            LaunchPlanView::Fallback { reason: "installed version unparseable: "@ + installed }
        } else if m.min_installer is Some && !semver_parses(m.min_installer->0@) {
            LaunchPlanView::Fallback { reason: "min_installer unparseable: "@ + m.min_installer->0@ }
        } else if m.min_installer is Some && semver_precedes(installed, m.min_installer->0@) {
            LaunchPlanView::InstallerModal {
                target_version: match hint_version(m) {
                    Some(v) => Some(v),
                    None => Some(m.min_installer->0@),
                },
                track: m.installer_track,
                reason: InstallerReasonView::VersionFloor { needed: m.min_installer->0@, have: installed },
                release_url: hint_release(m),
            }
        } else if !api_compatible_spec(m.requires_api@, installed) {
            match range_lower_bound_spec(m.requires_api@) {
                Some(lower) if semver_precedes(installed, lower) => LaunchPlanView::InstallerModal {
                    target_version: hint_version(m),
                    track: m.installer_track,
                    reason: InstallerReasonView::ApiRangeBelow { range: m.requires_api@, have: installed },
                    release_url: hint_release(m),
                },
                _ => LaunchPlanView::Fallback {
                    reason: "binary "@ + installed + " outside manifest range "@ + m.requires_api@
                        + " (treating as ahead)"@,
                },
            }
        } else if !version_is_newer_spec(m.latest_version@, active) {
            LaunchPlanView::HotSwap { action: HotSwapView::NoOp }
        } else {
            LaunchPlanView::HotSwap {
                action: HotSwapView::ApplyBundle {
                    version: m.latest_version@,
                    bundle_url: m.bundle.url@,
                    size_bytes: m.bundle.size_bytes,
                    sha256: m.bundle.sha256@,
                },
            }
        },
    }
}

fn fallback(reason: String) -> (p: LaunchPlan)
    ensures
        p@ == (LaunchPlanView::Fallback { reason: reason@ }),
{
    LaunchPlan::Fallback { reason }
}

fn hint_version_of(m: &Manifest) -> (r: Option<String>)
    ensures
        opt_text(r) == hint_version(*m),
{
    match &m.installer_hint {
        Some(h) => h.version.clone(),
        None => None,
    }
}

fn hint_release_of(m: &Manifest) -> (r: Option<String>)
    ensures
        opt_text(r) == hint_release(*m),
{
    match &m.installer_hint {
        Some(h) => h.release_url.clone(),
        None => None,
    }
}

/// Decides the launch plan from the installed binary's version, the active
/// frontend's version and the manifest, if one was fetched.
pub fn resolve_launch_plan(installed: &str, active: &str, manifest: Option<&Manifest>) -> (plan: LaunchPlan)
    ensures
        plan@ == launch_plan_spec(installed@, active@, match manifest {
            Some(m) => Some(*m),
            None => None,
        }),
{
    let m = match manifest {
        None => return fallback(String::from_str("manifest unavailable")),
        Some(m) => m,
    };
    if m.manifest_schema > KNOWN_MANIFEST_SCHEMA {
        let mut reason = String::from_str("manifest schema ");
        push_decimal(&mut reason, m.manifest_schema as u64);
        reason.append(" ahead of client ");
        push_decimal(&mut reason, KNOWN_MANIFEST_SCHEMA as u64);
        return fallback(reason);
    }
    if !version_parses(installed) {
        let mut reason = String::from_str("installed version unparseable: ");
        reason.append(installed);
        return fallback(reason);
    }
    if let Some(floor) = &m.min_installer {
        if !version_parses(floor.as_str()) {
            let mut reason = String::from_str("min_installer unparseable: ");
            reason.append(floor.as_str());
            return fallback(reason);
        }
        if version_precedes(installed, floor.as_str()) {
            let target = match hint_version_of(m) {
                Some(v) => Some(v),
                None => Some(floor.clone()),
            };
            return LaunchPlan::InstallerModal {
                target_version: target,
                track: m.installer_track,
                reason: InstallerReason::VersionFloor { needed: floor.clone(), have: String::from_str(installed) },
                release_url: hint_release_of(m),
            };
        }
    }
    if !api_compatible(m.requires_api.as_str(), installed) {
        match range_lower_bound(m.requires_api.as_str()) {
            Some(lower) => {
                if version_precedes(installed, lower.as_str()) {
                    return LaunchPlan::InstallerModal {
                        target_version: hint_version_of(m),
                        track: m.installer_track,
                        reason: InstallerReason::ApiRangeBelow {
                            range: m.requires_api.clone(),
                            have: String::from_str(installed),
                        },
                        release_url: hint_release_of(m),
                    };
                }
            },
            None => {},
        }
        let mut reason = String::from_str("binary ");
        reason.append(installed);
        reason.append(" outside manifest range ");
        reason.append(m.requires_api.as_str());
        reason.append(" (treating as ahead)");
        return fallback(reason);
    }
    if !version_is_newer(m.latest_version.as_str(), active) {
        LaunchPlan::HotSwap { action: HotSwapAction::NoOp }
    } else {
        LaunchPlan::HotSwap {
            action: HotSwapAction::ApplyBundle {
                version: m.latest_version.clone(),
                bundle_url: m.bundle.url.clone(),
                size_bytes: m.bundle.size_bytes,
                sha256: m.bundle.sha256.clone(),
            },
        }
    }
}



// ---------------------------------------------------------------------------
// Splash status, cache and the state reported to the frontend

/// Status events shown under the splash's loading bar.
#[derive(Debug)]
pub enum UpdateStatus {
    Checking,
    Downloading { downloaded: u64, total: u64 },
    UpToDate,
    Incompatible { manifest_requires: String, running: String },
    Skipped { reason: String },
    Restarting { version: String },
}

/// The API version of the running core and the active frontend's version.
#[derive(Debug)]
pub struct FrontendVersionInfo {
    pub api_version: String,
    pub active_frontend_version: Option<String>,
}

/// The active-version marker's contents, trimmed; `None` when blank.
pub open spec fn active_version_spec(contents: Seq<char>) -> Option<Seq<char>> {
    if trim_spec(contents).len() == 0 {
        None
    } else {
        Some(trim_spec(contents))
    }
}

/// The active frontend version recorded in a marker file's contents.
pub fn active_version_from_marker(contents: &str) -> (r: Option<String>)
    ensures
        opt_text(r) == active_version_spec(contents@),
{
    let t = trim(contents);
    if t.as_str().unicode_len() == 0 {
        None
    } else {
        Some(t)
    }
}

/// A resolved plan kept for the rest of the launch. `resolved_at` is a
/// reading of a monotonic clock in nanoseconds; `applied` turns true once
/// the bundle of an `ApplyBundle` plan has been staged.
#[derive(Debug)]
pub struct LaunchPlanCacheEntry {
    pub resolved_at: u64,
    pub plan: LaunchPlan,
    pub source_version: String,
    pub applied: bool,
}

/// Nanoseconds from `earlier` to `now`, zero when `now` is not later.
pub open spec fn elapsed_nanos(now: u64, earlier: u64) -> int {
    if now > earlier { now - earlier } else { 0 }
}

impl LaunchPlanCacheEntry {
    /// A fresh entry for `plan`, resolved at the monotonic reading `now`,
    /// not yet applied.
    pub fn new(plan: LaunchPlan, source_version: String, now: u64) -> (e: LaunchPlanCacheEntry)
        ensures
            e.resolved_at == now,
            e.plan@ == plan@,
            e.source_version@ == source_version@,
            !e.applied,
    {
        LaunchPlanCacheEntry { resolved_at: now, plan, source_version, applied: false }
    }

    /// Whether more than the cache's time to live has passed between the
    /// entry's resolution and `now`.
    pub fn is_stale_at(&self, now: u64) -> (r: bool)
        ensures
            r == (elapsed_nanos(now, self.resolved_at) > LAUNCH_PLAN_CACHE_TTL_NANOS),
    {
        let elapsed = now.saturating_sub(self.resolved_at);
        elapsed > LAUNCH_PLAN_CACHE_TTL_NANOS
    }
}

/// Serve the cached plan, or resolve a fresh one.
#[derive(Debug, Clone, Copy, PartialEq, Eq, Structural)]
pub enum CacheDecision {
    UseCache,
    Refresh,
}

/// The cache is served only when the caller did not force a refresh and
/// an entry exists that is not stale.
pub open spec fn cache_decision_spec(cached: Option<(u64, bool)>, force_refresh: bool, now: u64) -> CacheDecision {
    if force_refresh {
        CacheDecision::Refresh
    } else {
        match cached {
            Some((resolved_at, _)) if !(elapsed_nanos(now, resolved_at) > LAUNCH_PLAN_CACHE_TTL_NANOS) =>
                CacheDecision::UseCache,
            _ => CacheDecision::Refresh,
        }
    }
}

/// Decides between the cached entry and a fresh resolution.
pub fn select_cache_or_refresh(cached: Option<&LaunchPlanCacheEntry>, force_refresh: bool, now: u64) -> (d: CacheDecision)
    ensures
        d == cache_decision_spec(
            match cached {
                Some(e) => Some((e.resolved_at, e.applied)),
                None => None,
            },
            force_refresh,
            now,
        ),
{
    if force_refresh {
        return CacheDecision::Refresh;
    }
    match cached {
        Some(entry) => {
            if !entry.is_stale_at(now) {
                CacheDecision::UseCache
            } else {
                CacheDecision::Refresh
            }
        },
        None => CacheDecision::Refresh,
    }
}

/// The frontend's reading of the launch decision.
#[derive(Debug, Clone, Copy, PartialEq, Eq, Structural)]
pub enum VersionContractDecision {
    HotSwap,
    InstallerRequired,
    UpToDate,
    Fallback,
}

/// The launch decision as the frontend receives it.
#[derive(Debug)]
pub struct VersionContractState {
    pub decision: VersionContractDecision,
    pub installer_target: Option<String>,
    pub installer_track: InstallerTrack,
    pub release_url: Option<String>,
    pub hot_swap_version: Option<String>,
    pub reason: Option<String>,
    pub known_schema: u32,
}

/// The characters of a reported state.
pub struct VersionContractStateView {
    pub decision: VersionContractDecision,
    pub installer_target: Option<Seq<char>>,
    pub installer_track: InstallerTrack,
    pub release_url: Option<Seq<char>>,
    pub hot_swap_version: Option<Seq<char>>,
    pub reason: Option<Seq<char>>,
    pub known_schema: u32,
}

impl View for VersionContractState {
    type V = VersionContractStateView;

    open spec fn view(&self) -> VersionContractStateView {
        VersionContractStateView {
            decision: self.decision,
            installer_target: opt_text(self.installer_target),
            installer_track: self.installer_track,
            release_url: opt_text(self.release_url),
            hot_swap_version: opt_text(self.hot_swap_version),
            reason: opt_text(self.reason),
            known_schema: self.known_schema,
        }
    }
}

/// One line of copy for why the installer is needed.
pub open spec fn reason_summary_spec(r: InstallerReasonView) -> Seq<char> {
    match r {
        InstallerReasonView::VersionFloor { needed, have } =>
            "installer floor "@ + needed + " not met (running "@ + have + ")"@,
        InstallerReasonView::ApiRangeBelow { range, have } =>
            "running "@ + have + " below manifest API range "@ + range,
    }
}

/// The summary line for an installer reason.
pub fn installer_reason_summary(r: &InstallerReason) -> (s: String)
    ensures
        s@ == reason_summary_spec(r@),
{
    match r {
        InstallerReason::VersionFloor { needed, have } => {
            let mut s = String::from_str("installer floor ");
            s.append(needed.as_str());
            s.append(" not met (running ");
            s.append(have.as_str());
            s.append(")");
            s
        },
        InstallerReason::ApiRangeBelow { range, have } => {
            let mut s = String::from_str("running ");
            s.append(have.as_str());
            s.append(" below manifest API range ");
            s.append(range.as_str());
            s
        },
    }
}

/// A state with nothing but a decision, a hot-swap version and a reason.
pub open spec fn plain_state(
    decision: VersionContractDecision,
    hot_swap_version: Option<Seq<char>>,
    reason: Option<Seq<char>>,
) -> VersionContractStateView {
    VersionContractStateView {
        decision,
        installer_target: None,
        installer_track: InstallerTrack::Stable,
        release_url: None,
        hot_swap_version,
        reason,
        known_schema: KNOWN_MANIFEST_SCHEMA,
    }
}

/// What the frontend is told for each plan: a no-op hot swap is up to
/// date, a bundle to apply is a hot swap at its version, an installer
/// modal requires the installer with its target, track, link and reason
/// line, and a fallback carries its reason.
pub open spec fn plan_state_spec(plan: LaunchPlanView) -> VersionContractStateView {
    match plan {
        LaunchPlanView::HotSwap { action: HotSwapView::NoOp } =>
            plain_state(VersionContractDecision::UpToDate, None, None),
        LaunchPlanView::HotSwap { action: HotSwapView::ApplyBundle { version, .. } } =>
            plain_state(VersionContractDecision::HotSwap, Some(version), None),
        LaunchPlanView::InstallerModal { target_version, track, reason, release_url } =>
            VersionContractStateView {
                decision: VersionContractDecision::InstallerRequired,
                installer_target: target_version,
                installer_track: track,
                release_url,
                hot_swap_version: None,
                reason: Some(reason_summary_spec(reason)),
                known_schema: KNOWN_MANIFEST_SCHEMA,
            },
        LaunchPlanView::Fallback { reason } =>
            plain_state(VersionContractDecision::Fallback, None, Some(reason)),
    }
}

/// The state reported for a plan.
pub fn launch_plan_to_state(plan: &LaunchPlan) -> (s: VersionContractState)
    ensures
        s@ == plan_state_spec(plan@),
{
    match plan {
        LaunchPlan::HotSwap { action: HotSwapAction::NoOp } => VersionContractState {
            decision: VersionContractDecision::UpToDate,
            installer_target: None,
            installer_track: InstallerTrack::default(),
            release_url: None,
            hot_swap_version: None,
            reason: None,
            known_schema: KNOWN_MANIFEST_SCHEMA,
        },
        LaunchPlan::HotSwap { action: HotSwapAction::ApplyBundle { version, .. } } => VersionContractState {
            decision: VersionContractDecision::HotSwap,
            installer_target: None,
            installer_track: InstallerTrack::default(),
            release_url: None,
            hot_swap_version: Some(version.clone()),
            reason: None,
            known_schema: KNOWN_MANIFEST_SCHEMA,
        },
        LaunchPlan::InstallerModal { target_version, track, reason, release_url } => VersionContractState {
            decision: VersionContractDecision::InstallerRequired,
            installer_target: target_version.clone(),
            installer_track: *track,
            release_url: release_url.clone(),
            hot_swap_version: None,
            reason: Some(installer_reason_summary(reason)),
            known_schema: KNOWN_MANIFEST_SCHEMA,
        },
        LaunchPlan::Fallback { reason } => VersionContractState {
            decision: VersionContractDecision::Fallback,
            installer_target: None,
            installer_track: InstallerTrack::default(),
            release_url: None,
            hot_swap_version: None,
            reason: Some(reason.clone()),
            known_schema: KNOWN_MANIFEST_SCHEMA,
        },
    }
}

/// A cached plan's state: once an `ApplyBundle` plan has been staged it
/// reads as up to date at that version, waiting for a restart; every
/// other entry reads as its plan does.
pub open spec fn cached_state_spec(plan: LaunchPlanView, applied: bool) -> VersionContractStateView {
    match plan {
        LaunchPlanView::HotSwap { action: HotSwapView::ApplyBundle { version, .. } } if applied =>
            plain_state(
                VersionContractDecision::UpToDate,
                Some(version),
                Some("bundle staged; restart to apply"@),
            ),
        _ => plan_state_spec(plan),
    }
}

/// The state served from a cache entry.
pub fn cached_entry_to_state(entry: &LaunchPlanCacheEntry) -> (s: VersionContractState)
    ensures
        s@ == cached_state_spec(entry.plan@, entry.applied),
{
    if entry.applied {
        if let LaunchPlan::HotSwap { action: HotSwapAction::ApplyBundle { version, .. } } = &entry.plan {
            return VersionContractState {
                decision: VersionContractDecision::UpToDate,
                installer_target: None,
                installer_track: InstallerTrack::default(),
                release_url: None,
                hot_swap_version: Some(version.clone()),
                reason: Some(String::from_str("bundle staged; restart to apply")),
                known_schema: KNOWN_MANIFEST_SCHEMA,
            };
        }
    }
    launch_plan_to_state(&entry.plan)
}


// ---------------------------------------------------------------------------
// Laws

/// A binary below the manifest's installer floor is sent to the installer,
/// with the floor as the reason and a target version always named, and is
/// never hot-swapped.
pub proof fn lemma_below_floor_asks_for_installer(installed: Seq<char>, active: Seq<char>, m: Manifest)
    requires
        m.manifest_schema <= KNOWN_MANIFEST_SCHEMA,
        semver_parses(installed),
        m.min_installer is Some,
        semver_parses(m.min_installer->0@),
        semver_precedes(installed, m.min_installer->0@),
    ensures
        launch_plan_spec(installed, active, Some(m)) matches LaunchPlanView::InstallerModal { target_version, reason, .. }
            && target_version is Some
            && reason == (InstallerReasonView::VersionFloor { needed: m.min_installer->0@, have: installed }),
{
}

/// The reported state always carries the client's schema; installer
/// fields are set only when the installer is required, and a hot-swap
/// version only for hot swaps and up-to-date plans.
pub proof fn lemma_state_fields_follow_decision(plan: LaunchPlanView, applied: bool)
    ensures
        cached_state_spec(plan, applied).known_schema == KNOWN_MANIFEST_SCHEMA,
        cached_state_spec(plan, applied).decision != VersionContractDecision::InstallerRequired ==> {
            &&& cached_state_spec(plan, applied).installer_target is None
            &&& cached_state_spec(plan, applied).release_url is None
            &&& cached_state_spec(plan, applied).installer_track == InstallerTrack::Stable
        },
        cached_state_spec(plan, applied).hot_swap_version is Some ==> (
            cached_state_spec(plan, applied).decision == VersionContractDecision::HotSwap
            || cached_state_spec(plan, applied).decision == VersionContractDecision::UpToDate),
        !applied ==> cached_state_spec(plan, applied) == plan_state_spec(plan),
{
}

/// A fresh cache entry is served unless a refresh is forced, and a forced
/// refresh or a missing entry always resolves anew.
pub proof fn lemma_cache_first(entry: Option<(u64, bool)>, force_refresh: bool, now: u64)
    ensures
        force_refresh ==> cache_decision_spec(entry, force_refresh, now) == CacheDecision::Refresh,
        entry is None ==> cache_decision_spec(entry, force_refresh, now) == CacheDecision::Refresh,
        !force_refresh ==> (entry matches Some((t, _)) && now >= t && now - t <= LAUNCH_PLAN_CACHE_TTL_NANOS
            ==> cache_decision_spec(entry, force_refresh, now) == CacheDecision::UseCache),
{
}

/// The first piece of a split keeps the text's first character, unless
/// that character is the separator.
proof fn lemma_first_piece_starts_like(y: Seq<char>, d: char)
    requires
        y.len() > 0,
        y[0] != d,
    ensures
        split_on(y, d)[0].len() > 0,
        split_on(y, d)[0][0] == y[0],
{
    assert(y =~= seq![y[0]] + y.drop_first());
    lemma_split_on_cons(y[0], y.drop_first(), d);
    lemma_split_on_nonempty(y.drop_first(), d);
}

/// `>` and `>=` give the same floor: a requirement `>v` has the lower bound
/// of `>=v`. (The operand may not itself start with `=`, which would turn
/// `>` into `>=`.)
pub proof fn lemma_strict_and_loose_floor_agree(x: Seq<char>)
    requires
        !(x.len() > 0 && x[0] == '='),
    ensures
        range_lower_bound_spec(seq!['>'] + x) == range_lower_bound_spec(seq!['>', '='] + x),
{
    reveal_strlit("*");
    let e = ws_free_end(x);
    lemma_ws_free_end_bounds(x);
    let y = x.subrange(0, e);
    let r1 = seq!['>'] + x;
    let eq_x = seq!['='] + x;
    let r2 = seq!['>'] + eq_x;
    assert(seq!['>', '='] + x =~= r2);
    lemma_trim_cons('>', x);
    lemma_trim_cons('>', eq_x);
    lemma_ws_free_end_cons('=', x);
    assert(eq_x.subrange(0, ws_free_end(eq_x)) =~= seq!['='] + y);
    let t1 = trim_spec(r1);
    let t2 = trim_spec(r2);
    assert(t1 == seq!['>'] + y);
    assert(t2 == seq!['>'] + (seq!['='] + y));
    assert(t1[0] == '>' && t2[0] == '>');
    assert(t1 != "*"@);
    assert(t2 != "*"@);

    let eq_y = seq!['='] + y;
    lemma_split_on_cons('>', y, ',');
    lemma_split_on_cons('>', eq_y, ',');
    lemma_split_on_cons('=', y, ',');
    lemma_split_on_nonempty(y, ',');
    lemma_split_on_nonempty(eq_y, ',');
    let y0 = split_on(y, ',')[0];
    let p1 = split_on(t1, ',')[0];
    let p2 = split_on(t2, ',')[0];
    assert(p1 == seq!['>'] + y0);
    assert(p2 == seq!['>'] + (seq!['='] + y0));

    lemma_trim_cons('>', y0);
    lemma_trim_cons('>', seq!['='] + y0);
    lemma_ws_free_end_cons('=', y0);
    lemma_ws_free_end_bounds(y0);
    let z = y0.subrange(0, ws_free_end(y0));
    assert((seq!['='] + y0).subrange(0, ws_free_end(seq!['='] + y0)) =~= seq!['='] + z);
    let q1 = trim_spec(p1);
    let q2 = trim_spec(p2);
    assert(q1 == seq!['>'] + z);
    assert(q2 == seq!['>'] + (seq!['='] + z));

    let pred = |p: Seq<char>| is_lower_comparator(trim_spec(p));
    assert(pred(p1));
    assert(pred(p2));
    assert(first_match(split_on(t1, ','), pred) == Some(0int));
    assert(first_match(split_on(t2, ','), pred) == Some(0int));

    if z.len() > 0 {
        assert(y0.len() > 0);
        assert(y.len() > 0);
        if y[0] != ',' {
            lemma_first_piece_starts_like(y, ',');
        } else {
            assert(y =~= seq![y[0]] + y.drop_first());
            lemma_split_on_cons(y[0], y.drop_first(), ',');
            lemma_split_on_nonempty(y.drop_first(), ',');
        }
        assert(z[0] == y0[0]);
        assert(y[0] == x[0]);
        assert(q1[1] != '=');
    }
    assert(q1.skip(1) =~= z);
    assert(q2.skip(2) =~= z);
    assert(comparator_operand(q1) == trim_spec(z));
    assert(comparator_operand(q2) == trim_spec(z));
}

} // verus!
