use std::io;

use ir::launch::{
    package_executable_launcher, quarto_spawn_error, reject_comma_rscript_args, shebang_mentions,
    spawn_error, LauncherError, PackageLauncher,
};
use ir::rig::rig_client::{
    cache_resolution_contents, cached_resolution, install_args, join_args, launch_error,
    resolution_path, resolved_version, rig_failed, rig_json_failed, rscript_from_r_binary,
    user_env_removed, user_mode_error, user_path_entries, user_rig_launch, InstalledR,
    UserInstallation,
};

#[test]
fn quarto_spawn_error_explains_missing_quarto() {
    let err = quarto_spawn_error(io::Error::from(io::ErrorKind::NotFound));
    assert!(err.contains("could not find `quarto`"), "{err}");
    assert!(err.contains("IR_QUARTO"), "{err}");
}

#[test]
fn quarto_spawn_error_reports_other_failures() {
    let err = quarto_spawn_error(io::Error::new(io::ErrorKind::PermissionDenied, "denied"));
    assert_eq!(err, "failed to launch `quarto`: denied");
}

#[test]
fn rscript_spawn_errors() {
    let err = spawn_error("Rscript", io::Error::from(io::ErrorKind::NotFound));
    assert_eq!(err, "could not find `Rscript` on PATH. Install R, or set IR_RSCRIPT to its path.");
    let err = spawn_error("/opt/R/bin/Rscript", io::Error::new(io::ErrorKind::Other, "boom"));
    assert_eq!(err, "failed to launch `/opt/R/bin/Rscript`: boom");
}

#[test]
fn shebangs_choose_the_launcher() {
    assert!(shebang_mentions("#!/usr/bin/env Rscript", "Rscript"));
    assert!(!shebang_mentions("#!/usr/bin/env Rscriptx", "Rscript"));
    assert!(shebang_mentions("#!/usr/bin/env -S Rapp --flag", "Rapp"));
    assert!(!shebang_mentions("#!/usr/bin/my_Rapp", "Rapp"));
    assert_eq!(package_executable_launcher("#!/usr/bin/env Rapp\n"), Ok(PackageLauncher::Rapp));
    assert_eq!(package_executable_launcher("#!/usr/bin/env Rscript"), Ok(PackageLauncher::Rscript));
    assert_eq!(package_executable_launcher("#!/usr/bin/env Rscript Rapp"), Ok(PackageLauncher::Rapp));
    assert_eq!(package_executable_launcher("print(1)"), Err(LauncherError::NoShebang));
    assert_eq!(package_executable_launcher("#!/bin/sh"), Err(LauncherError::UnsupportedShebang));
    assert_eq!(
        LauncherError::NoShebang.message("x/exec/tool"),
        "package executable `x/exec/tool` must start with a Rscript or Rapp shebang"
    );
    assert_eq!(
        LauncherError::UnsupportedShebang.message("t"),
        "package executable `t` must use a Rscript or Rapp shebang"
    );
}

#[test]
fn comma_rscript_args_are_refused_for_quarto() {
    assert_eq!(reject_comma_rscript_args(&["--vanilla".to_string()]), Ok(()));
    let err = reject_comma_rscript_args(&["--a".to_string(), "--b=1,2".to_string(), "--c,".to_string()]).unwrap_err();
    assert!(err.contains("--b=1,2"), "{err}");
}

#[test]
fn rig_launch_errors() {
    let err = launch_error(io::Error::from(io::ErrorKind::NotFound));
    assert!(err.starts_with("could not find `rig` on PATH."), "{err}");
    let err = launch_error(io::Error::new(io::ErrorKind::Other, "bad"));
    assert_eq!(err, "failed to launch `rig`: bad");
}

#[test]
fn rscript_sits_beside_the_r_binary() {
    assert_eq!(rscript_from_r_binary("/opt/R/4.4/bin/R", false), "/opt/R/4.4/bin/Rscript");
    assert_eq!(rscript_from_r_binary("/opt/R/4.4/bin/R", true), "/opt/R/4.4/bin/Rscript.exe");
    let i = InstalledR {
        name: "4.4".to_string(),
        version: "4.4.1".to_string(),
        is_default: false,
        aliases: Vec::new(),
        path: None,
        binary: "/opt/R/bin/R".to_string(),
    };
    assert_eq!(
        i.missing_rscript("/opt/R/bin/Rscript"),
        "rig reported R 4.4.1 at `/opt/R/bin/R`, but `/opt/R/bin/Rscript` does not exist"
    );
}

#[test]
fn resolutions_are_cached_by_selector() {
    assert_eq!(resolution_path("/c/resolutions", "oldrel/2"), "/c/resolutions/oldrel-2");
    assert_eq!(cached_resolution("/p", Ok(" 4.4.3\n".to_string())).unwrap(), Some("4.4.3".to_string()));
    assert_eq!(cached_resolution("/p", Err(io::Error::from(io::ErrorKind::NotFound))).unwrap(), None);
    let err = cached_resolution("/p", Err(io::Error::new(io::ErrorKind::Other, "eio"))).unwrap_err();
    assert_eq!(err, "failed to read cached rig resolution `/p`: eio");
}

#[test]
fn resolved_versions() {
    assert_eq!(resolved_version("release", &vec![Some("4.6.1".to_string())]).unwrap(), "4.6.1");
    assert_eq!(
        resolved_version("release", &vec![]).unwrap_err(),
        "`rig --user resolve release` returned 0 results; expected one"
    );
    assert_eq!(
        resolved_version("next", &vec![None, None, None, None, None, None, None, None, None, None, None, None]).unwrap_err(),
        "`rig --user resolve next` returned 12 results; expected one"
    );
    assert_eq!(
        resolved_version("devel", &vec![None]).unwrap_err(),
        "`rig --user resolve devel` did not return an R version"
    );
}

#[test]
fn rig_failure_messages() {
    assert_eq!(join_args(&["list", "--json"]), "list --json");
    assert_eq!(join_args(&[]), "");
    assert_eq!(rig_failed(&["list", "--json"], false, "oops"), "`rig list --json` failed: oops");
    assert_eq!(rig_failed(&["available"], true, "e"), "`rig --user available` failed: e");
    assert!(user_mode_error("  unexpected argument '--user'\n").ends_with("\nrig error: unexpected argument '--user'"));
}

#[test]
fn resolution_cache_reads_back_what_it_wrote() {
    for version in ["4.4.3", "", "4.6.0-devel"] {
        let written = cache_resolution_contents(version);
        assert_eq!(written, format!("{version}\n"));
        let read = cached_resolution("/p", Ok(written)).unwrap();
        assert_eq!(read.as_deref(), Some(version));
    }
}

#[test]
fn private_rig_installation() {
    let u = UserInstallation::new("/c", "/c/rig/bin:/usr/bin".to_string());
    assert_eq!(u.r_root, "/c/rig/r");
    assert_eq!(u.binary_dir, "/c/rig/bin");
    assert_eq!(u.home_dir, "/c/rig/home");
    assert_eq!(u.temp_dir, "/c/rig/tmp");
    assert_eq!(u.resolution_dir, "/c/rig/resolutions");
    assert_eq!(user_path_entries(&u.binary_dir, &vec!["/usr/bin".to_string()]), vec!["/c/rig/bin", "/usr/bin"]);
    let l = user_rig_launch(&u, &install_args("4.4.3"));
    assert_eq!(l.program, "rig");
    assert_eq!(l.args, vec!["--user", "add", "--without-pak", "--without-repos", "--", "4.4.3"]);
    assert!(l.env.contains(&("RIG_MODE".to_string(), "user".to_string())));
    assert!(l.env.contains(&("HOME".to_string(), "/c/rig/home".to_string())));
    assert!(l.env.contains(&("PATH".to_string(), "/c/rig/bin:/usr/bin".to_string())));
    assert_eq!(user_env_removed().len(), 5);
    assert_eq!(rig_json_failed(&["list", "--json"], true, "eof"), "failed to parse `rig --user list --json` JSON: eof");
}

#[test]
fn only_a_missing_file_is_read_as_no_cache() {
    for kind in [io::ErrorKind::PermissionDenied, io::ErrorKind::InvalidData, io::ErrorKind::Other] {
        assert!(cached_resolution("/p", Err(io::Error::from(kind))).is_err());
    }
    let err = spawn_error("R", io::Error::from(io::ErrorKind::PermissionDenied));
    assert!(err.starts_with("failed to launch `R`: "), "{err}");
}
