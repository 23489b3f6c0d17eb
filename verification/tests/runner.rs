use ir::driver::{driver_is_current, driver_paths};
use ir::frontmatter::parse_frontmatter;
use ir::launch::PackageLauncher;
use ir::lock::{package_cache_lock_path, resolver_lock_path, stable_hash};
use ir::paths::{extension_of, join_path, parent_of, with_file_name};
use ir::runner::{
    cache_dir_failure, cache_dir_from_r, executable_candidates, find_package_executable_in_dir,
    missing_package_executable,
    package_exec_dir, package_launch, quarto_launch, quarto_r_value, resolved_library,
    resolver_input, resolver_launch, run_spec, runtime_path_entries, script_launch,
    single_executable, tool_spec, unique_path,
};
use ir::rx::{
    ir_binary_path, missing_ir_error, quickstart_action, quickstart_error, quickstart_help,
    rx_action, QuickstartAction, RxAction,
};
use ir::text::decimal_string;

fn v(args: &[&str]) -> Vec<String> {
    args.iter().map(|a| a.to_string()).collect()
}

fn env(pairs: &[(&str, &str)]) -> Vec<(String, String)> {
    pairs.iter().map(|(k, v)| (k.to_string(), v.to_string())).collect()
}

#[test]
fn quarto_r_value_set_for_pathlike() {
    assert_eq!(
        quarto_r_value("/usr/local/bin/Rscript", false),
        Some("/usr/local/bin/Rscript".into())
    );
    assert_eq!(quarto_r_value("some/dir/Rscript", false), Some("some/dir/Rscript".into()));
}

#[test]
fn quarto_r_value_unset_for_bare_command() {
    assert_eq!(quarto_r_value("Rscript", false), None);
}

#[test]
fn quarto_r_value_for_existing_file_or_backslash() {
    assert_eq!(quarto_r_value("Rscript", true), Some("Rscript".into()));
    assert_eq!(quarto_r_value("C:\\R\\Rscript.exe", false), Some("C:\\R\\Rscript.exe".into()));
}

#[test]
fn script_runs_pass_options_script_and_arguments() {
    let l = script_launch("Rscript", Some("/lib"), Some("s.R"), &v(&[]), &v(&["--vanilla"]), &v(&["a"]), false);
    assert_eq!(l.program, "Rscript");
    assert_eq!(l.args, v(&["--vanilla", "s.R", "a"]));
    assert_eq!(l.env, env(&[("R_LIBS", "/lib")]));

    let l = script_launch("R", None, None, &v(&["1", "2"]), &v(&[]), &v(&["x"]), true);
    assert_eq!(l.args, v(&["-e", "1", "-e", "2", "x"]));
    assert_eq!(l.env, env(&[("R_LIBS_USER", "NULL")]));
}

#[test]
fn quarto_renders_with_pinned_r_and_knitr_args() {
    let l = quarto_launch("quarto", "/opt/R/Rscript", false, Some("/lib"), "doc.qmd", &v(&["--vanilla", "--quiet"]), &v(&["--to", "html"]), true);
    assert_eq!(l.program, "quarto");
    assert_eq!(l.args, v(&["render", "doc.qmd", "--to", "html"]));
    assert_eq!(
        l.env,
        env(&[
            ("QUARTO_R", "/opt/R/Rscript"),
            ("R_LIBS", "/lib"),
            ("QUARTO_KNITR_RSCRIPT_ARGS", "--vanilla,--quiet"),
            ("R_LIBS_USER", "NULL"),
        ])
    );
    let l = quarto_launch("quarto", "Rscript", false, None, "d.qmd", &v(&[]), &v(&[]), false);
    assert!(l.env.is_empty());
}

#[test]
fn isolated_runs_drop_the_user_library() {
    for isolated in [false, true] {
        let s = script_launch("R", Some("/l"), Some("s.R"), &v(&[]), &v(&[]), &v(&[]), isolated);
        let q = quarto_launch("q", "R", false, Some("/l"), "d", &v(&[]), &v(&[]), isolated);
        let null = ("R_LIBS_USER".to_string(), "NULL".to_string());
        let libs = ("R_LIBS".to_string(), "/l".to_string());
        assert_eq!(s.env.contains(&null), isolated);
        assert_eq!(q.env.contains(&null), isolated);
        assert!(s.env.contains(&libs));
        assert!(q.env.contains(&libs));
    }
}

#[test]
fn package_executables_run_through_their_launcher() {
    let l = package_launch("Rscript", "/lib", "/lib/pkg/exec/tool", PackageLauncher::Rapp, &v(&["--vanilla"]), &v(&["--help"]), "tool", "/a:/b");
    assert_eq!(l.args, v(&["--vanilla", "-e", "Rapp::run()", "/lib/pkg/exec/tool", "--help"]));
    assert_eq!(
        l.env,
        env(&[("R_LIBS", "/lib"), ("R_LIBS_USER", "NULL"), ("RAPP_LAUNCHER_NAME", "tool"), ("PATH", "/a:/b")])
    );
    let l = package_launch("Rscript", "/lib", "t", PackageLauncher::Rscript, &v(&[]), &v(&[]), "t", "");
    assert_eq!(l.args, v(&["t"]));
}

#[test]
fn runtime_path_starts_with_the_rscript_directory() {
    let e = runtime_path_entries("/opt/R/bin/Rscript", &v(&["/lib/a/exec"]), &v(&["/usr/bin"]));
    assert_eq!(e, v(&["/opt/R/bin", "/lib/a/exec", "/usr/bin"]));
    let e = runtime_path_entries("Rscript", &v(&[]), &v(&["/usr/bin"]));
    assert_eq!(e, v(&["/usr/bin"]));
}

#[test]
fn package_executable_lookup() {
    let dir = package_exec_dir("/lib", "cli");
    assert_eq!(dir, "/lib/cli/exec");
    assert_eq!(executable_candidates(&dir, "cli"), v(&["/lib/cli/exec/cli", "/lib/cli/exec/cli.R"]));
    assert_eq!(
        missing_package_executable("cli", "/lib", "/lib/cli/exec", "cli", false),
        "package `cli` does not have an exec directory in `/lib`"
    );
    assert_eq!(
        missing_package_executable("cli", "/lib", "/lib/cli/exec", "cli", true),
        "could not find executable `cli` or `cli.R` in `/lib/cli/exec`"
    );
    assert_eq!(find_package_executable_in_dir(&dir, "cli", true, true).as_deref(), Some("/lib/cli/exec/cli"));
    assert_eq!(find_package_executable_in_dir(&dir, "cli", false, true).as_deref(), Some("/lib/cli/exec/cli.R"));
    assert_eq!(find_package_executable_in_dir(&dir, "cli", false, false), None);
    assert_eq!(single_executable("/lib", "t", v(&["/lib/a/exec/t"])).unwrap(), "/lib/a/exec/t");
    assert_eq!(
        single_executable("/lib", "t", v(&[])).unwrap_err(),
        "could not find executable `t` or `t.R` in any package under `/lib`"
    );
    assert_eq!(
        single_executable("/lib", "t", v(&["/a", "/b"])).unwrap_err(),
        "found multiple executables named `t` in `/lib`; use a package ref whose installed package name can be inferred"
    );
}

#[test]
fn command_line_extends_the_file_spec() {
    let file = parse_frontmatter("dependencies: [cli]\nr-version: \"4.3\"\nexclude-newer: \"2024-01-01\"\n", false).unwrap();
    let spec = run_spec(file, &v(&["dplyr"]), Some("4.4"), false);
    assert_eq!(spec.dependencies, v(&["cli", "dplyr"]));
    assert_eq!(spec.r_requirement.as_deref(), Some("4.4"));
    assert_eq!(spec.exclude_newer.as_deref(), Some("2024-01-01"));
    let file = parse_frontmatter("r-version: \"4.3\"\n", false).unwrap();
    let spec = run_spec(file, &v(&[]), None, false);
    assert_eq!(spec.r_requirement.as_deref(), Some("4.3"));
    assert!(!spec.isolated);
    let file = parse_frontmatter("isolated: true\n", false).unwrap();
    assert!(run_spec(file, &v(&[]), None, false).isolated);
    let file = parse_frontmatter("isolated: false\n", false).unwrap();
    assert!(run_spec(file, &v(&[]), None, true).isolated);
    let spec = tool_spec("btw@1.0", &v(&["ellmer"]), None);
    assert_eq!(spec.dependencies, v(&["btw@1.0", "ellmer"]));
    assert!(spec.r_requirement.is_none());
    assert!(spec.exclude_newer.is_none());
    assert!(spec.isolated);
}

#[test]
fn resolver_protocol() {
    assert_eq!(resolver_input(&v(&["cli", "dplyr>=1.0"])), "cli\ndplyr>=1.0\n");
    assert_eq!(resolver_input(&v(&[])), "");
    let l = resolver_launch("Rscript", "/tmp/d.R", "/tmp/r.txt", Some("2024-01-01"));
    assert_eq!(l.args, v(&["/tmp/d.R"]));
    assert_eq!(
        l.env,
        env(&[("IR_RESOLVE_RESULT_FILE", "/tmp/r.txt"), ("R_PKG_SHOW_PROGRESS", "true"), ("IR_EXCLUDE_NEWER", "2024-01-01")])
    );
    assert_eq!(resolved_library(" /cache/lib \n"), Some("/cache/lib".to_string()));
    assert_eq!(resolved_library("  \n"), None);
}

#[test]
fn cache_dir_from_r_output() {
    assert_eq!(cache_dir_from_r("/home/u/.cache/R/ir\n").unwrap(), "/home/u/.cache/R/ir");
    assert_eq!(cache_dir_from_r("\n").unwrap_err(), "tools::R_user_dir returned an empty cache dir");
    assert_eq!(cache_dir_failure("boom"), "failed to resolve cache dir with tools::R_user_dir: boom");
}

#[test]
fn unique_paths_name_the_process_and_time() {
    assert_eq!(unique_path("/tmp", "ir-resolve", 1234, 987, "R"), "/tmp/ir-resolve-1234-987.R");
    assert_eq!(decimal_string(0), "0");
    assert_eq!(decimal_string(u128::MAX), u128::MAX.to_string());
}

#[test]
fn lock_paths() {
    assert_eq!(resolver_lock_path("/c"), "/c/locks/resolver.lock");
    assert_eq!(stable_hash(""), 0xcbf29ce484222325);
    assert_eq!(stable_hash("a"), 0xaf63dc4c8601ec8c);
    assert_eq!(stable_hash("/c"), stable_hash("/c"));
    assert_eq!(
        package_cache_lock_path("/tmp", "a"),
        format!("/tmp/ir-resolver-locks/r-user-cache-{}.lock", 0xaf63dc4c8601ec8cu64)
    );
}

#[test]
fn paths_through_std() {
    assert_eq!(extension_of("a/b.qmd").as_deref(), Some("qmd"));
    assert_eq!(extension_of("a/b"), None);
    assert_eq!(join_path("a", "b"), "a/b");
    assert_eq!(with_file_name("a/b", "c"), "a/c");
    assert_eq!(parent_of("a/b").as_deref(), Some("a"));
    assert_eq!(parent_of("b").as_deref(), Some(""));
    assert_eq!(parent_of("/"), None);
}

#[test]
fn drivers_are_reused_only_at_the_same_version() {
    let p = driver_paths("/c", "init.R");
    assert_eq!(p.dir, "/c/drivers");
    assert_eq!(p.path, "/c/drivers/init.R");
    assert_eq!(p.version_path, "/c/drivers/init.R.version");
    assert!(driver_is_current(true, Some("0.1.0"), "0.1.0"));
    assert!(!driver_is_current(false, Some("0.1.0"), "0.1.0"));
    assert!(!driver_is_current(true, Some("0.0.9"), "0.1.0"));
    assert!(!driver_is_current(true, None, "0.1.0"));
}

#[test]
fn rx_front_end() {
    match rx_action(v(&["quickstart", "-h"])) {
        RxAction::Quickstart(rest) => assert_eq!(rest, v(&["-h"])),
        other => panic!("{other:?}"),
    }
    match rx_action(v(&["btw", "--help"])) {
        RxAction::Forward(all) => assert_eq!(all, v(&["tool", "rx", "btw", "--help"])),
        other => panic!("{other:?}"),
    }
    match rx_action(v(&[])) {
        RxAction::Forward(all) => assert_eq!(all, v(&["tool", "rx"])),
        other => panic!("{other:?}"),
    }
    assert!(matches!(quickstart_action(&v(&[])), QuickstartAction::Guide));
    assert!(matches!(quickstart_action(&v(&["--help"])), QuickstartAction::Help));
    assert!(matches!(quickstart_action(&v(&["-h"])), QuickstartAction::Help));
    match quickstart_action(&v(&["-h", "x"])) {
        QuickstartAction::Unexpected(a) => assert_eq!(a, "-h"),
        other => panic!("{other:?}"),
    }
    assert_eq!(quickstart_error("x"), "unexpected argument 'x' for `rx quickstart`");
    assert!(quickstart_help().starts_with("Show a concise usage guide for AI agents"));
    assert_eq!(ir_binary_path("/bin", ".exe"), "/bin/ir.exe");
    assert_eq!(missing_ir_error("/bin/ir"), "could not find the `ir` binary at: /bin/ir");
}
