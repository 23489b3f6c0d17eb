use std::cmp::Ordering;

use ir::rig::r_selection::{
    compare_installed_r, compare_version_parts, compare_versions, install_request,
    is_iso_date, is_numbered_oldrel, is_numeric_version, iso_date_prefix,
    native_macos_r_preference, parse_iso_date_field, parse_version, parse_version_requirement,
    rig_metadata_contains, select_available_r, select_installed_r, InstallRequest, SelectionError,
    VersionOp, VersionRequirement,
};
use ir::rig::rig_client::{AvailableR, InstalledR};
use ir::rig::rig_releases::{
    available_before_or_on, available_cache_path, embedded_available, metadata_download_failed,
    metadata_download_launch, metadata_parse_failed, metadata_response, normalize_available,
    required_available_version, required_available_version_from_candidates,
    retain_released_before_or_on, uses_embedded_metadata,
};
use ir::rig::{missing_r_version_error, resolve_installed, rig_install_hint};

fn installed(name: &str, version: &str) -> InstalledR {
    InstalledR {
        name: name.to_string(),
        version: version.to_string(),
        is_default: false,
        aliases: Vec::new(),
        path: None,
        binary: format!("/opt/R/{name}/bin/R"),
    }
}

fn release(version: &str, date: Option<&str>) -> AvailableR {
    AvailableR { name: version.to_string(), version: version.to_string(), date: date.map(str::to_string) }
}

fn req(s: &str) -> VersionRequirement {
    parse_version_requirement(s).unwrap()
}

#[test]
fn versions_parse_as_numeric_parts() {
    assert_eq!(parse_version("4.4.1"), Some(vec![4, 4, 1]));
    assert_eq!(parse_version("4"), Some(vec![4]));
    assert_eq!(parse_version("4.x"), None);
    assert_eq!(parse_version(""), None);
    assert_eq!(parse_version("4..1"), None);
    assert!(is_numeric_version("10.0"));
    assert!(!is_numeric_version("release"));
}

#[test]
fn version_parts_compare_with_missing_parts_as_zero() {
    assert_eq!(compare_version_parts(&[4, 3], &[4, 3, 0]), Ordering::Equal);
    assert_eq!(compare_version_parts(&[4, 10], &[4, 9]), Ordering::Greater);
    assert_eq!(compare_version_parts(&[3, 99], &[4]), Ordering::Less);
    assert_eq!(compare_versions("4.10.0", "4.9.3"), Ordering::Greater);
    assert_eq!(compare_versions("4.3", "4.3.0"), Ordering::Equal);
    assert_eq!(compare_versions("devel", "4.5.0"), Ordering::Greater);
    assert_eq!(compare_versions("next", "devel"), Ordering::Greater);
}

#[test]
fn version_order_is_antisymmetric_on_examples() {
    for (a, b) in [("4.3.1", "4.3"), ("4.3", "4.3.0"), ("release", "4.1"), ("1.10", "1.9")] {
        assert_eq!(compare_versions(a, b), compare_versions(b, a).reverse());
    }
}

#[test]
fn iso_dates() {
    assert!(is_iso_date("2024-01-15"));
    assert!(!is_iso_date("2024-1-15"));
    assert!(!is_iso_date("2024/01/15"));
    assert_eq!(parse_iso_date_field("exclude-newer", " 2024-01-15 ").unwrap(), "2024-01-15");
    let err = parse_iso_date_field("exclude-newer", "yesterday").unwrap_err();
    assert_eq!(err.message(), "`exclude-newer` must be a date string in YYYY-MM-DD format");
    assert_eq!(iso_date_prefix("2026-04-24T00:00:00Z").as_deref(), Some("2026-04-24"));
    assert_eq!(iso_date_prefix("2026-04-24").as_deref(), Some("2026-04-24"));
    assert_eq!(iso_date_prefix("24-04-2026"), None);
}

#[test]
fn numbered_oldrel_selectors() {
    assert!(is_numbered_oldrel("oldrel/1"));
    assert!(is_numbered_oldrel("oldrel/+2"));
    assert!(!is_numbered_oldrel("oldrel/0"));
    assert!(!is_numbered_oldrel("oldrel/"));
    assert!(!is_numbered_oldrel("oldrel/x"));
    assert!(!is_numbered_oldrel("oldrel"));
}

#[test]
fn requirements_parse() {
    match req(" >= 4.3 ") {
        VersionRequirement::Comparison { op, version, raw } => {
            assert_eq!(op, VersionOp::Gte);
            assert_eq!(version, vec![4, 3]);
            assert_eq!(raw, "4.3");
        }
        other => panic!("{other:?}"),
    }
    assert!(matches!(req("<4"), VersionRequirement::Comparison { op: VersionOp::Lt, .. }));
    assert!(matches!(req("== 4.4"), VersionRequirement::Comparison { op: VersionOp::Eq, .. }));
    match req("release") {
        VersionRequirement::Bare(s) => assert_eq!(s, "release"),
        other => panic!("{other:?}"),
    }
    let err = parse_version_requirement("   ").unwrap_err();
    assert!(matches!(err, SelectionError::EmptyRequirement));
    assert_eq!(err.message(), "`r-version` must not be empty");
    let err = parse_version_requirement(">= banana").unwrap_err();
    assert_eq!(err.message(), "`r-version` has an unsupported version spec `>= banana`");
}

#[test]
fn requirements_match_candidates() {
    let r = req("4.4");
    assert!(r.matches_candidate("x", "4.4.2", &[]));
    assert!(!r.matches_candidate("x", "4.40.0", &[]));
    assert!(r.matches_candidate("4.4", "4.5.0", &[]));
    assert!(req("dev").matches_candidate("x", "4.6.0", &["dev".to_string()]));
    assert!(req(">= 4.3").matches_candidate("x", "4.3.0", &[]));
    assert!(!req("> 4.3").matches_candidate("x", "4.3.0", &[]));
    assert!(req("== 4.4").matches_candidate("x", "4.4.9", &[]));
    assert!(!req("== 4.4.1").matches_candidate("x", "4.4.2", &[]));
    assert!(!req(">= 4").matches_candidate("devel", "devel", &[]));
}

#[test]
fn highest_matching_installed_is_selected() {
    let all = vec![installed("old", "4.4.2"), installed("new", "4.4.3"), installed("r43", "4.3.3")];
    let pick = select_installed_r(&req("4.4"), &all, false).unwrap();
    assert_eq!(pick.name, "new");
    let pick = select_installed_r(&req("== 4.4.2"), &all, false).unwrap();
    assert_eq!(pick.name, "old");
    assert!(select_installed_r(&req("4.5"), &all, false).is_none());
    assert!(all.iter().all(|i| !req("4.5").matches_installed(i)));
}

#[test]
fn ties_prefer_the_default_then_native_builds() {
    let mut a = installed("alternate", "4.6.0");
    let mut d = installed("default", "4.6.0");
    d.is_default = true;
    assert_eq!(compare_installed_r(&a, &d, false), Ordering::Less);
    let all = vec![d, installed("alternate", "4.6.0")];
    assert_eq!(select_installed_r(&req("4.6"), &all, false).unwrap().name, "default");

    a.name = "4.6-x86_64".to_string();
    let native = installed("4.6-arm64", "4.6.0");
    let plain = installed("4.6", "4.6.0");
    assert_eq!(native_macos_r_preference(&native, true), 2);
    assert_eq!(native_macos_r_preference(&plain, true), 1);
    assert_eq!(native_macos_r_preference(&a, true), 0);
    assert_eq!(native_macos_r_preference(&native, false), 0);
    let all = vec![native, plain];
    assert_eq!(select_installed_r(&req("4.6"), &all, true).unwrap().name, "4.6-arm64");
    // Equal everywhere else: the last one wins.
    assert_eq!(select_installed_r(&req("4.6"), &all, false).unwrap().name, "4.6");
}

#[test]
fn metadata_search_covers_name_and_path() {
    let mut i = installed("4.5", "4.5.0");
    assert!(!rig_metadata_contains(&i, "-arm64"));
    i.path = Some("/Library/R-4.5-arm64".to_string());
    assert!(rig_metadata_contains(&i, "-arm64"));
}

#[test]
fn available_selection_skips_development_builds() {
    let all = vec![release("4.4.1", None), release("4.5.2", None), release("4.5.10", None)];
    assert_eq!(select_available_r("4.5", &req("4.5"), &all).unwrap().version, "4.5.10");
    let mut devel = release("4.7.0", None);
    devel.name = "devel".to_string();
    let with_devel = vec![release("4.5.0", None), devel];
    assert_eq!(select_available_r("4", &req(">= 4"), &with_devel).unwrap().version, "4.5.0");
    let err = select_available_r("> 5", &req("> 5"), &all).unwrap_err();
    assert_eq!(err.message(), "no R release available through rig matches `> 5`");
}

#[test]
fn install_requests() {
    assert!(matches!(install_request(&req("4")), Ok(InstallRequest::Available)));
    assert!(matches!(install_request(&req("4.4.1")), Ok(InstallRequest::Direct("4.4.1"))));
    assert!(matches!(install_request(&req("release")), Ok(InstallRequest::Resolve("release"))));
    assert!(matches!(install_request(&req("oldrel/2")), Ok(InstallRequest::Resolve("oldrel/2"))));
    assert!(matches!(install_request(&req("devel")), Ok(InstallRequest::Direct("devel"))));
    assert!(matches!(install_request(&req("== 4.4")), Ok(InstallRequest::Direct("4.4"))));
    assert!(matches!(install_request(&req("== 4")), Ok(InstallRequest::Available)));
    assert!(matches!(install_request(&req(">= 4.3")), Ok(InstallRequest::Available)));
    let err = install_request(&req("custom")).unwrap_err();
    assert_eq!(
        err.message(),
        "cannot automatically install unsupported `r-version` selector `custom`; use a numeric version, `release`, `oldrel`, `oldrel/N`, `devel`, or `next`"
    );
}

#[test]
fn missing_r_messages() {
    assert_eq!(rig_install_hint(&req("4.4.1")), Some("4.4.1"));
    assert_eq!(rig_install_hint(&req(">= 4")), None);
    assert_eq!(
        missing_r_version_error("4.4.1", &req("4.4.1")),
        "R 4.4.1 is required but is not installed. Run `rig install 4.4.1`."
    );
    assert_eq!(
        missing_r_version_error(">= 9", &req(">= 9")),
        "R >= 9 is required but no matching R is installed. Install a matching R with `rig install`, or specify a different `r-version` or `--r-version`."
    );
    let all = vec![installed("r44", "4.4.3")];
    assert_eq!(resolve_installed("4.4", &req("4.4"), &all, false).unwrap().name, "r44");
    assert!(resolve_installed("4.5.1", &req("4.5.1"), &all, false).unwrap_err().contains("rig install 4.5.1"));
}

#[test]
fn releases_are_kept_up_to_the_day() {
    let mut all = vec![
        release("4.3.0", Some("2023-04-21")),
        release("4.4.0", Some("2024-04-24")),
        release("9.9.9", None),
        release("4.3.3", Some("2024-02-29")),
    ];
    retain_released_before_or_on(&mut all, "2024-04-24");
    let kept: Vec<&str> = all.iter().map(|a| a.version.as_str()).collect();
    assert_eq!(kept, vec!["4.3.0", "4.4.0", "4.3.3"]);
    let again = available_before_or_on("2024-04-24", all);
    assert_eq!(again.len(), 3);
    let earlier = available_before_or_on("2024-01-01", again);
    assert_eq!(earlier.len(), 1);
    assert_eq!(earlier[0].version, "4.3.0");
}

#[test]
fn dated_choice_is_released_by_the_day() {
    let all = vec![
        release("4.3.3", Some("2024-02-29")),
        release("4.4.0", Some("2024-04-24")),
        release("4.4.1", Some("2024-06-14")),
    ];
    let copy = || all.iter().map(|a| release(&a.version, a.date.as_deref())).collect::<Vec<_>>();
    let pick = required_available_version(">= 4.3", &req(">= 4.3"), Some("2024-05-01"), copy()).unwrap();
    assert_eq!(pick.version, "4.4.0");
    let pick = required_available_version(">= 4.3", &req(">= 4.3"), None, copy()).unwrap();
    assert_eq!(pick.version, "4.4.1");
    let err = required_available_version("4.4", &req("4.4"), Some("2024-03-01"), copy()).unwrap_err();
    assert_eq!(err.message(), "no R release available through rig matches `4.4`");
    let pick = required_available_version_from_candidates("4", &req("4"), &all).unwrap();
    assert_eq!(pick.version, "4.4.1");
    assert_eq!(pick.date.as_deref(), Some("2024-06-14"));
}

#[test]
fn release_metadata_is_normalized() {
    let raw = vec![
        AvailableR { name: String::new(), version: "4.6.0".to_string(), date: Some("2026-04-24T00:00:00Z".to_string()) },
        AvailableR { name: "devel".to_string(), version: "4.7.0".to_string(), date: None },
    ];
    let norm = normalize_available(&raw).unwrap();
    assert_eq!(norm[0].name, "4.6.0");
    assert_eq!(norm[0].date.as_deref(), Some("2026-04-24"));
    assert_eq!(norm[1].name, "devel");
    assert_eq!(norm[1].date, None);

    let bad = vec![AvailableR { name: "x".to_string(), version: "4.1.0".to_string(), date: Some("soon".to_string()) }];
    assert_eq!(
        normalize_available(&bad).unwrap_err(),
        "R version availability metadata returned invalid release date `soon` for R 4.1.0"
    );

    let shipped = vec![
        release("4.6.0", Some("2026-04-24")),
        release("4.7.0", Some("2026-06-18T00:00:00Z")),
    ];
    let kept = embedded_available(&shipped).unwrap();
    assert_eq!(kept.len(), 1);
    assert_eq!(kept[0].version, "4.6.0");
    assert!(uses_embedded_metadata("2026-06-17"));
    assert!(uses_embedded_metadata("2024-01-01"));
    assert!(!uses_embedded_metadata("2026-06-18"));
}

#[test]
fn release_metadata_fetch() {
    assert_eq!(available_cache_path("/c"), "/c/r-versions/available.json");
    let l = metadata_download_launch();
    assert_eq!(l.program, "Rscript");
    assert_eq!(l.args[3], "https://api.r-hub.io/rversions/r-versions");
    assert_eq!(l.args[2], "cat(readLines(commandArgs(TRUE)[[1]], warn = FALSE), sep = \"\\n\")");
    assert_eq!(metadata_response(" [] ").unwrap(), " [] ");
    assert_eq!(metadata_response("\n").unwrap_err(), "R version availability metadata response was empty");
    assert_eq!(
        metadata_download_failed("x"),
        "`Rscript --vanilla -e <read R version availability metadata>` failed: x"
    );
    assert_eq!(metadata_parse_failed("embedded metadata", "eof"), "failed to parse embedded metadata JSON: eof");
}

#[test]
fn comparisons_split_at_the_boundary() {
    for version in ["4.3.9", "4.4.0", "4.4", "4.4.1"] {
        assert_ne!(
            req(">= 4.4.0").matches_candidate("x", version, &[]),
            req("< 4.4.0").matches_candidate("x", version, &[])
        );
        assert_ne!(
            req("> 4.4.0").matches_candidate("x", version, &[]),
            req("<= 4.4.0").matches_candidate("x", version, &[])
        );
    }
    assert!(req(">= 4.4.0").matches_candidate("x", "4.4.0", &[]));
    assert!(!req("> 4.4.0").matches_candidate("x", "4.4.0", &[]));
    assert!(req("<= 4.4.0").matches_candidate("x", "4.4.0", &[]));
    assert!(!req("< 4.4.0").matches_candidate("x", "4.4.0", &[]));
}

#[test]
fn non_numeric_matches_are_selected_too() {
    let all = vec![installed("release", "devel"), installed("other", "4.4.0")];
    assert_eq!(select_installed_r(&req("release"), &all, false).unwrap().version, "devel");
}
