use ir::cli::{
    cmd_cache, cmd_cache_clean, cmd_cache_dir, cmd_tool, infer_self_named_executable,
    is_package_executable_name, is_r_package_name, parse_command, parse_run_args,
    parse_tool_run_args, push_with_deps, removed_files_message, CacheCommand, CliError, Command,
    RunSource, ToolCommand,
};

fn v(args: &[&str]) -> Vec<String> {
    args.iter().map(|a| a.to_string()).collect()
}

#[test]
fn run_args_split_options_script_and_script_args() {
    let run = parse_run_args(v(&[
        "--vanilla", "--with", "dplyr, tidyr", "--r-version", "4.4", "--isolated", "s.R", "--flag", "x",
    ]))
    .unwrap();
    assert_eq!(run.rscript_args, v(&["--vanilla"]));
    assert_eq!(run.with_deps, v(&["dplyr", "tidyr"]));
    assert_eq!(run.r_requirement.as_deref(), Some("4.4"));
    assert!(run.isolated);
    match &run.source {
        RunSource::Script(s) => assert_eq!(s, "s.R"),
        other => panic!("{other:?}"),
    }
    assert_eq!(run.script_args, v(&["--flag", "x"]));
}

#[test]
fn run_args_equals_forms() {
    let run = parse_run_args(v(&["--with=cli", "--r-version=>= 4.3", "s.R"])).unwrap();
    assert_eq!(run.with_deps, v(&["cli"]));
    assert_eq!(run.r_requirement.as_deref(), Some(">= 4.3"));
    assert!(!run.isolated);
}

#[test]
fn run_args_expressions_take_all_positionals_as_program_args() {
    let run = parse_run_args(v(&["-e", "1 + 1", "-e", "2", "a", "b"])).unwrap();
    match &run.source {
        RunSource::Expressions(e) => assert_eq!(e, &v(&["1 + 1", "2"])),
        other => panic!("{other:?}"),
    }
    assert_eq!(run.script_args, v(&["a", "b"]));
}

#[test]
fn run_args_errors() {
    let cases: [(&[&str], &str); 6] = [
        (&["-e"], "`-e` requires an expression (try `ir run -e '1 + 1'`)"),
        (&["--from", "x"], "`--from` is only supported by `ir tool run`"),
        (&["--from=x"], "`--from` is only supported by `ir tool run`"),
        (&["--with"], "`--with` requires a package (try `ir run --with dplyr script.R`)"),
        (&["--r-version"], "`--r-version` requires a version spec (try `ir run --r-version 4.5 script.R`)"),
        (&["--vanilla"], "`ir run` requires a script path or -e expression (try `ir run script.R`)"),
    ];
    for (args, message) in cases {
        let err = parse_run_args(v(args)).unwrap_err();
        assert_eq!(err.message(), message);
    }
    assert!(matches!(parse_run_args(v(&[])).unwrap_err(), CliError::MissingScript));
}

#[test]
fn arguments_after_the_script_pass_through() {
    let base = v(&["--with", "cli", "s.R"]);
    let mut longer = base.clone();
    longer.extend(v(&["-e", "--with", "x"]));
    let a = parse_run_args(base).unwrap();
    let b = parse_run_args(longer).unwrap();
    assert_eq!(a.with_deps, b.with_deps);
    assert_eq!(a.rscript_args, b.rscript_args);
    assert!(a.script_args.is_empty());
    assert_eq!(b.script_args, v(&["-e", "--with", "x"]));
}

#[test]
fn with_list_is_the_same_as_repeated_with() {
    let mut joined = Vec::new();
    push_with_deps(&mut joined, "a, ,b,c");
    let mut repeated = Vec::new();
    push_with_deps(&mut repeated, "a, ");
    push_with_deps(&mut repeated, "b,c");
    assert_eq!(joined, repeated);
    assert_eq!(joined, v(&["a", "b", "c"]));
    let mut none = vec!["keep".to_string()];
    push_with_deps(&mut none, " , ,");
    assert_eq!(none, v(&["keep"]));
}

#[test]
fn tool_run_args_self_named_and_from() {
    let run = parse_tool_run_args(v(&["--with", "x", "btw@1.0", "--help"])).unwrap();
    assert_eq!(run.target.package_ref, "btw@1.0");
    assert_eq!(run.target.package_name.as_deref(), Some("btw"));
    assert_eq!(run.target.executable, "btw");
    assert_eq!(run.tool_args, v(&["--help"]));
    assert_eq!(run.with_deps, v(&["x"]));

    let run = parse_tool_run_args(v(&["--from", "r-lib/cli", "cli", "a"])).unwrap();
    assert_eq!(run.target.package_ref, "r-lib/cli");
    assert_eq!(run.target.package_name, None);
    assert_eq!(run.target.executable, "cli");
    assert_eq!(run.tool_args, v(&["a"]));

    let run = parse_tool_run_args(v(&["--isolated", "--vanilla", "--from=cli", "tool"])).unwrap();
    assert_eq!(run.rscript_args, v(&["--vanilla"]));
    assert_eq!(run.target.package_name.as_deref(), Some("cli"));
}

#[test]
fn tool_run_args_errors() {
    let cases: [(&[&str], &str); 9] = [
        (&["--from"], "`--from` requires a package ref (try `ir tool run --from cli cli`)"),
        (&["--from="], "`--from` requires a package ref"),
        (&["--with"], "`--with` requires a package (try `ir tool run --with dplyr btw`)"),
        (&["--r-version"], "`--r-version` requires a version spec (try `ir tool run --r-version 4.5 btw`)"),
        (&["-e", "1"], "`-e` is not supported by `ir tool run`"),
        (&["--from", "cli"], "`--from` requires a command to run"),
        (&["--from", "cli", "bin/cli"], "`--from` requires a command name, not a path"),
        (&[], "`ir tool run` requires a package ref or `--from <pkg-ref> <command>`"),
        (&["r-lib/cli"], "self-named package tools require an inferable package name; use `--from <pkg-ref> <command>`"),
    ];
    for (args, message) in cases {
        let err = parse_tool_run_args(v(args)).unwrap_err();
        assert_eq!(err.message(), message);
    }
}

#[test]
fn package_names() {
    assert!(is_r_package_name("data.table"));
    assert!(!is_r_package_name("data."));
    assert!(!is_r_package_name("1pkg"));
    assert!(!is_r_package_name(""));
    assert!(!is_r_package_name("a_b"));
    assert_eq!(infer_self_named_executable("dplyr>=1.0").as_deref(), Some("dplyr"));
    assert_eq!(infer_self_named_executable("cli@3.6.0").as_deref(), Some("cli"));
    assert_eq!(infer_self_named_executable("github::r-lib/cli"), None);
    assert!(is_package_executable_name("rapp-tool"));
    assert!(!is_package_executable_name(""));
    assert!(!is_package_executable_name("a/b"));
    assert!(!is_package_executable_name("a\\b"));
    assert!(!is_package_executable_name("c:x"));
    assert!(!is_package_executable_name("a b"));
}

#[test]
fn tool_subcommands() {
    assert!(matches!(cmd_tool(v(&["run", "-h"])), Ok(ToolCommand::RunHelp)));
    assert!(matches!(cmd_tool(v(&["--help"])), Ok(ToolCommand::Help)));
    assert!(matches!(cmd_tool(v(&["run", "cli"])), Ok(ToolCommand::Run(_))));
    assert_eq!(cmd_tool(v(&[])).unwrap_err().message(), "`ir tool` requires a subcommand");
    assert_eq!(cmd_tool(v(&["install"])).unwrap_err().message(), "unrecognized tool subcommand `install`");
}

#[test]
fn cache_subcommands() {
    assert_eq!(cmd_cache(v(&["clean", "--force"])).unwrap(), CacheCommand::Clean);
    assert_eq!(cmd_cache(v(&["clean", "x", "-h"])).unwrap(), CacheCommand::CleanHelp);
    assert_eq!(cmd_cache(v(&["dir"])).unwrap(), CacheCommand::Dir);
    assert_eq!(cmd_cache(v(&["dir", "--help"])).unwrap(), CacheCommand::DirHelp);
    assert_eq!(cmd_cache(v(&["-h"])).unwrap(), CacheCommand::Help);
    assert_eq!(cmd_cache(v(&[])).unwrap_err().message(), "`ir cache` requires a subcommand");
    assert_eq!(cmd_cache(v(&["prune"])).unwrap_err().message(), "unrecognized subcommand `prune`");
    assert_eq!(cmd_cache_clean(&v(&["--all"])).unwrap_err().message(), "unexpected argument `--all`");
    assert_eq!(cmd_cache_dir(&v(&["x"])).unwrap_err().message(), "unexpected argument `x`");
}

#[test]
fn top_level_commands() {
    assert!(matches!(parse_command(v(&[])), Ok(Command::Help)));
    assert!(matches!(parse_command(v(&["-h"])), Ok(Command::Help)));
    assert!(matches!(parse_command(v(&["-V"])), Ok(Command::Version)));
    assert!(matches!(parse_command(v(&["--version"])), Ok(Command::Version)));
    assert!(matches!(parse_command(v(&["run", "--help"])), Ok(Command::RunHelp)));
    assert!(matches!(parse_command(v(&["run", "s.R"])), Ok(Command::Run(_))));
    match parse_command(v(&["tool", "run", "cli"])) {
        Ok(Command::Tool(rest)) => assert_eq!(rest, v(&["run", "cli"])),
        other => panic!("{other:?}"),
    }
    match parse_command(v(&["cache", "dir"])) {
        Ok(Command::Cache(rest)) => assert_eq!(rest, v(&["dir"])),
        other => panic!("{other:?}"),
    }
    assert_eq!(
        parse_command(v(&["frobnicate"])).unwrap_err().message(),
        "unknown command `frobnicate` (try `ir run script.R`)"
    );
}

#[test]
fn removed_files_report() {
    assert_eq!(removed_files_message(1), "Removed 1 file");
    assert_eq!(removed_files_message(0), "Removed 0 files");
    assert_eq!(removed_files_message(1234), "Removed 1234 files");
}
