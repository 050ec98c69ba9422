use hardwave::updater::{
    active_version_from_marker, api_compatible, cached_entry_to_state, default_manifest_schema,
    default_requires_api, installer_reason_summary, launch_plan_to_state, parse_loose,
    range_lower_bound, resolve_launch_plan, select_cache_or_refresh, version_is_newer, BundleSpec,
    CacheDecision, HotSwapAction, InstallerHint, InstallerReason, InstallerTrack, LaunchPlan,
    LaunchPlanCacheEntry, Manifest, VersionContractDecision, KNOWN_MANIFEST_SCHEMA,
    LAUNCH_PLAN_CACHE_TTL_NANOS,
};

fn make_manifest(latest: &str) -> Manifest {
    Manifest {
        latest_version: latest.to_string(),
        published_at: None,
        requires_api: "*".to_string(),
        bundle: BundleSpec {
            url: "https://example.invalid/bundle.zip".to_string(),
            size_bytes: 1,
            sha256: "0".repeat(64),
        },
        changelog: vec![],
        min_installer: None,
        installer_track: InstallerTrack::default(),
        manifest_schema: 1,
        installer_hint: None,
    }
}

fn bound(range: &str) -> Option<semver::Version> {
    range_lower_bound(range).map(|v| semver::Version::parse(&v).unwrap())
}

#[test]
fn newer_remote_wins() {
    assert!(version_is_newer("1.5.4", "1.5.3"));
    assert!(!version_is_newer("1.5.3", "1.5.4"));
    assert!(!version_is_newer("1.5.3", "1.5.3"));
}

#[test]
fn fallback_to_string_compare_when_unparseable() {
    assert!(version_is_newer("not-a-version", "0.0.0"));
    assert!(!version_is_newer("same", "same"));
}

#[test]
fn api_compat_basic() {
    assert!(api_compatible("^1.5", "1.5.0"));
    assert!(api_compatible("^1.5", "1.5.99"));
    assert!(!api_compatible("^1.5", "1.4.0"));
    assert!(!api_compatible("^1.5", "2.0.0"));
    assert!(api_compatible("*", "0.157.28"));
}

#[test]
fn range_lower_bound_caret_forms() {
    assert_eq!(bound("^0.157"), Some(semver::Version::parse("0.157.0").unwrap()));
    assert_eq!(bound("^1.2.3"), Some(semver::Version::parse("1.2.3").unwrap()));
}

#[test]
fn range_lower_bound_comma_form() {
    assert_eq!(bound(">=0.158, <0.160"), Some(semver::Version::parse("0.158.0").unwrap()));
    assert_eq!(bound(">=0.158.4, <0.160.0"), Some(semver::Version::parse("0.158.4").unwrap()));
}

#[test]
fn range_lower_bound_wildcard_yields_none() {
    assert!(range_lower_bound("*").is_none());
    assert!(range_lower_bound("").is_none());
}

#[test]
fn range_lower_bound_strict_greater() {
    assert_eq!(bound(">0.158"), Some(semver::Version::parse("0.158.0").unwrap()));
    assert_eq!(bound(">0.158.4"), Some(semver::Version::parse("0.158.4").unwrap()));
    assert_eq!(range_lower_bound(">0.158"), range_lower_bound(">=0.158"));
}

#[test]
fn resolver_no_manifest_falls_back() {
    let plan = resolve_launch_plan("0.157.29", "0.157.29", None);
    match plan {
        LaunchPlan::Fallback { reason } => assert!(reason.contains("manifest unavailable")),
        _ => panic!("expected Fallback when manifest is None"),
    }
}

#[test]
fn resolver_schema_too_new_falls_back() {
    let mut m = make_manifest("0.158.4");
    m.manifest_schema = KNOWN_MANIFEST_SCHEMA + 7;
    let plan = resolve_launch_plan("0.158.4", "0.158.4", Some(&m));
    match plan {
        LaunchPlan::Fallback { reason } => assert!(reason.contains("schema")),
        _ => panic!("expected Fallback when schema is ahead of client"),
    }
}

#[test]
fn resolver_min_installer_floor_triggers_modal() {
    let mut m = make_manifest("0.158.4");
    m.min_installer = Some("0.158.0".to_string());
    m.installer_hint = Some(InstallerHint {
        version: Some("0.158.0".to_string()),
        notes_url: None,
        release_url: Some("https://github.com/Dishairano/hardwave-daw/releases/tag/v0.158.0".to_string()),
    });
    let plan = resolve_launch_plan("0.157.9", "0.157.9", Some(&m));
    match plan {
        LaunchPlan::InstallerModal { target_version, reason, release_url, .. } => {
            assert_eq!(target_version.as_deref(), Some("0.158.0"));
            match reason {
                InstallerReason::VersionFloor { needed, have } => {
                    assert_eq!(needed, "0.158.0");
                    assert_eq!(have, "0.157.9");
                }
                other => panic!("expected VersionFloor, got {other:?}"),
            }
            assert!(release_url.is_some());
        }
        other => panic!("expected InstallerModal for floor mismatch, got {other:?}"),
    }
}

#[test]
fn resolver_min_installer_satisfied_then_api_below_range_modal() {
    let mut m = make_manifest("0.158.4");
    m.min_installer = Some("0.150.0".to_string());
    m.requires_api = ">=0.158, <0.160".to_string();
    let plan = resolve_launch_plan("0.157.9", "0.157.9", Some(&m));
    match plan {
        LaunchPlan::InstallerModal { reason, .. } => match reason {
            InstallerReason::ApiRangeBelow { range, have } => {
                assert_eq!(range, ">=0.158, <0.160");
                assert_eq!(have, "0.157.9");
            }
            other => panic!("expected ApiRangeBelow reason, got {other:?}"),
        },
        other => panic!("expected InstallerModal for below-range, got {other:?}"),
    }
}

#[test]
fn resolver_api_above_range_falls_back_silently() {
    let mut m = make_manifest("0.158.4");
    m.requires_api = ">=0.158, <0.160".to_string();
    let plan = resolve_launch_plan("0.161.0", "0.158.4", Some(&m));
    match plan {
        LaunchPlan::Fallback { reason } => assert!(reason.contains("outside manifest range")),
        other => panic!("expected Fallback for above-range, got {other:?}"),
    }
}

#[test]
fn resolver_hot_swap_happy_path() {
    let m = make_manifest("0.158.4");
    let plan = resolve_launch_plan("0.158.4", "0.158.0", Some(&m));
    match plan {
        LaunchPlan::HotSwap { action: HotSwapAction::ApplyBundle { version, .. } } => {
            assert_eq!(version, "0.158.4")
        }
        other => panic!("expected HotSwap::ApplyBundle, got {other:?}"),
    }
}

#[test]
fn resolver_hot_swap_noop_when_active_already_latest() {
    let m = make_manifest("0.158.4");
    let plan = resolve_launch_plan("0.158.4", "0.158.4", Some(&m));
    assert!(matches!(plan, LaunchPlan::HotSwap { action: HotSwapAction::NoOp }));
}

#[test]
fn legacy_manifest_resolves_with_the_default_fields() {
    let m = Manifest {
        latest_version: "0.157.29".into(),
        published_at: Some("2026-04-15T10:00:00Z".into()),
        requires_api: "^0.157".into(),
        bundle: BundleSpec { url: "https://example.invalid/bundle.zip".into(), size_bytes: 1024, sha256: "abc".into() },
        changelog: vec!["legacy".into()],
        min_installer: None,
        installer_track: InstallerTrack::default(),
        manifest_schema: default_manifest_schema(),
        installer_hint: None,
    };
    assert_eq!(m.installer_track, InstallerTrack::Stable);
    assert_eq!(m.manifest_schema, 1);
    assert_eq!(default_requires_api(), "*");
    let plan = resolve_launch_plan("0.157.29", "0.157.0", Some(&m));
    match plan {
        LaunchPlan::HotSwap { action: HotSwapAction::ApplyBundle { version, .. } } => {
            assert_eq!(version, "0.157.29")
        }
        other => panic!("expected HotSwap::ApplyBundle, got {other:?}"),
    }
    assert!(m.manifest_schema <= KNOWN_MANIFEST_SCHEMA);
}

#[test]
fn launch_plan_to_state_is_deterministic_for_same_plan() {
    let plan = LaunchPlan::InstallerModal {
        target_version: Some("0.158.0".to_string()),
        track: InstallerTrack::Stable,
        reason: InstallerReason::VersionFloor { needed: "0.158.0".to_string(), have: "0.157.9".to_string() },
        release_url: Some("https://example.invalid/release".to_string()),
    };
    let a = launch_plan_to_state(&plan);
    let b = launch_plan_to_state(&plan);
    assert!(matches!(a.decision, VersionContractDecision::InstallerRequired));
    assert!(matches!(b.decision, VersionContractDecision::InstallerRequired));
    assert_eq!(a.installer_target, b.installer_target);
    assert_eq!(a.release_url, b.release_url);
    assert_eq!(a.reason, b.reason);
    assert_eq!(a.known_schema, b.known_schema);
}

fn noop_entry(now: u64) -> LaunchPlanCacheEntry {
    LaunchPlanCacheEntry::new(LaunchPlan::HotSwap { action: HotSwapAction::NoOp }, "0.158.4".to_string(), now)
}

#[test]
fn cache_decision_no_cache_always_refreshes() {
    let now = 1_000;
    assert_eq!(select_cache_or_refresh(None, false, now), CacheDecision::Refresh);
    assert_eq!(select_cache_or_refresh(None, true, now), CacheDecision::Refresh);
}

#[test]
fn cache_decision_fresh_entry_uses_cache_unless_forced() {
    let entry = noop_entry(5_000);
    let now = entry.resolved_at;
    assert_eq!(select_cache_or_refresh(Some(&entry), false, now), CacheDecision::UseCache);
    assert_eq!(select_cache_or_refresh(Some(&entry), true, now), CacheDecision::Refresh);
}

#[test]
fn cache_decision_stale_entry_refreshes_even_without_force() {
    let entry = noop_entry(5_000);
    let later = entry.resolved_at + LAUNCH_PLAN_CACHE_TTL_NANOS + 60_000_000_000;
    assert!(entry.is_stale_at(later));
    assert_eq!(select_cache_or_refresh(Some(&entry), false, later), CacheDecision::Refresh);
}

#[test]
fn applied_apply_bundle_collapses_to_up_to_date() {
    let plan = LaunchPlan::HotSwap {
        action: HotSwapAction::ApplyBundle {
            version: "0.158.4".to_string(),
            bundle_url: "https://example.invalid/bundle.zip".to_string(),
            size_bytes: 1234,
            sha256: "0".repeat(64),
        },
    };
    let mut entry = LaunchPlanCacheEntry::new(plan, "0.158.4".to_string(), 0);
    let pre = cached_entry_to_state(&entry);
    assert!(matches!(pre.decision, VersionContractDecision::HotSwap));
    assert_eq!(pre.hot_swap_version.as_deref(), Some("0.158.4"));
    entry.applied = true;
    let post = cached_entry_to_state(&entry);
    assert!(matches!(post.decision, VersionContractDecision::UpToDate));
    assert_eq!(post.hot_swap_version.as_deref(), Some("0.158.4"));
    assert_eq!(post.reason.as_deref(), Some("bundle staged; restart to apply"));
}

#[test]
fn second_manifest_does_not_win_under_cache_first() {
    let m1 = make_manifest("0.158.4");
    let plan1 = resolve_launch_plan("0.158.4", "0.158.0", Some(&m1));
    assert!(matches!(plan1, LaunchPlan::HotSwap { action: HotSwapAction::ApplyBundle { .. } }));
    let entry = LaunchPlanCacheEntry::new(plan1, m1.latest_version.clone(), 42);
    let mut m2 = make_manifest("0.158.4");
    m2.min_installer = Some("0.999.0".to_string());
    let plan2 = resolve_launch_plan("0.158.4", "0.158.0", Some(&m2));
    assert!(matches!(plan2, LaunchPlan::InstallerModal { .. }));
    let now = entry.resolved_at;
    assert_eq!(select_cache_or_refresh(Some(&entry), false, now), CacheDecision::UseCache);
    let served = cached_entry_to_state(&entry);
    assert!(matches!(served.decision, VersionContractDecision::HotSwap));
}

#[test]
fn loose_versions_are_padded_with_zeros() {
    assert_eq!(parse_loose(" 1 ").as_deref(), Some("1.0.0"));
    assert_eq!(parse_loose("1.2").as_deref(), Some("1.2.0"));
    assert_eq!(parse_loose("1.2.3").as_deref(), Some("1.2.3"));
    assert!(parse_loose("x.y").is_none());
}

#[test]
fn the_marker_file_names_the_active_frontend() {
    assert_eq!(active_version_from_marker("  0.158.4\n").as_deref(), Some("0.158.4"));
    assert!(active_version_from_marker(" \n").is_none());
}

#[test]
fn installer_reasons_read_as_one_line() {
    let floor = InstallerReason::VersionFloor { needed: "0.158.0".into(), have: "0.157.9".into() };
    let below = InstallerReason::ApiRangeBelow { range: ">=0.158".into(), have: "0.157.9".into() };
    assert!(installer_reason_summary(&floor).contains("0.158.0"));
    assert_eq!(installer_reason_summary(&below), "running 0.157.9 below manifest API range >=0.158");
}
