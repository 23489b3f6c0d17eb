use ir::script::r_script_frontmatter;
use ir::init::{
    bytes_equal, initialize_script, check_init_target, executable_mode, init_precheck, check_unchanged, init_body_start, init_spawn_error,
    initialized_contents, is_r_script, newline_sequence, next_discovery_step, parse_init_result,
    push_line, init_script_header, DiscoveryState, DiscoveryStep, InitRefusal, InitResult,
    InitResultError,
};

#[test]
fn init_targets() {
    assert_eq!(check_init_target("a.R", false, true), Ok(()));
    assert_eq!(check_init_target("a.r", false, true), Ok(()));
    assert_eq!(check_init_target("a.R", true, true), Err(InitRefusal::SymbolicLink));
    assert_eq!(check_init_target("a.R", false, false), Err(InitRefusal::NotRegularFile));
    assert_eq!(check_init_target("a.py", false, true), Err(InitRefusal::NotRScript));
    assert!(is_r_script("dir/x.R"));
    assert!(!is_r_script("R"));
    assert_eq!(InitRefusal::SymbolicLink.message("a.R"), "cannot initialize symbolic link `a.R`");
    assert_eq!(InitRefusal::NotRegularFile.message("d"), "script `d` is not a regular file");
    assert_eq!(InitRefusal::NotRScript.message("a.py"), "script `a.py` must have a `.R` extension");
}

#[test]
fn body_start_and_refusals() {
    assert_eq!(init_body_start(b"print(1)\n"), Ok(0));
    assert_eq!(init_body_start(b"#!/usr/bin/env Rscript\nprint(1)\n"), Ok(23));
    assert_eq!(init_body_start(b"\xef\xbb\xbfprint(1)\n"), Err(InitRefusal::ByteOrderMark));
    assert_eq!(init_body_start(b"#| packages: []\nx\n"), Err(InitRefusal::HasFrontmatter));
    assert_eq!(init_body_start(b"#!/bin/sh\n#|x\n"), Err(InitRefusal::HasMarker));
    assert_eq!(
        InitRefusal::ByteOrderMark.message("a.R"),
        "script `a.R` starts with an unsupported UTF-8 byte order mark"
    );
    assert_eq!(InitRefusal::HasFrontmatter.message("a.R"), "`a.R` already contains ir frontmatter");
    assert_eq!(InitRefusal::HasMarker.message("a.R"), "`a.R` already starts with a #| metadata marker");
    let h = init_script_header(b"#!/bin/sh\n#| a\nx");
    assert_eq!(h.shebang_end, Some(10));
    assert!(h.frontmatter);
}

#[test]
fn newline_follows_the_first_line() {
    assert_eq!(newline_sequence(b"a\r\nb\n"), b"\r\n".to_vec());
    assert_eq!(newline_sequence(b"a\nb\r\n"), b"\n".to_vec());
    assert_eq!(newline_sequence(b"\r\n"), b"\r\n".to_vec());
    assert_eq!(newline_sequence(b"\nx"), b"\n".to_vec());
    assert_eq!(newline_sequence(b"no newline"), b"\n".to_vec());
    let mut out = b"x".to_vec();
    push_line(&mut out, b"line", b"\r\n");
    assert_eq!(out, b"xline\r\n".to_vec());
}

#[test]
fn initialized_contents_writes_frontmatter_then_body() {
    let contents = b"#!/usr/bin/env Rscript\nlibrary(cli)\n";
    let result = InitResult { refs: vec!["cli".to_string(), "say \"hi\"".to_string()], r_version: ">= 4.4".to_string() };
    let out = initialized_contents(contents, 23, &result, "2026-01-02", b"\n");
    let expected = "#!/usr/bin/env -S ir run\n#| packages:\n#|   - \"cli\"\n#|   - \"say \\\"hi\\\"\"\n#| r-version: \">= 4.4\"\n#| isolated: true\n#| exclude-newer: \"2026-01-02\"\n\nlibrary(cli)\n";
    assert_eq!(String::from_utf8(out).unwrap(), expected);

    let empty = InitResult { refs: Vec::new(), r_version: "4.5".to_string() };
    let out = initialized_contents(b"x\r\n", 0, &empty, "2026-01-02", b"\r\n");
    let expected = "#!/usr/bin/env -S ir run\r\n#| packages: []\r\n#| r-version: \"4.5\"\r\n#| isolated: true\r\n#| exclude-newer: \"2026-01-02\"\r\n\r\nx\r\n";
    assert_eq!(String::from_utf8(out).unwrap(), expected);
}

#[test]
fn discovery_results_parse() {
    let r = parse_init_result("r-version=>= 4.4\ncli\ndplyr\n").unwrap();
    assert_eq!(r.r_version, ">= 4.4");
    assert_eq!(r.refs, vec!["cli", "dplyr"]);
    let r = parse_init_result("r-version=4.5").unwrap();
    assert!(r.refs.is_empty());
    assert_eq!(parse_init_result("").unwrap_err(), InitResultError::InvalidRVersion);
    assert_eq!(parse_init_result("r-version=\ncli\n").unwrap_err(), InitResultError::InvalidRVersion);
    assert_eq!(parse_init_result("version=4\n").unwrap_err(), InitResultError::InvalidRVersion);
    assert_eq!(parse_init_result("r-version=4\ncli\n\nx\n").unwrap_err(), InitResultError::EmptyRef);
    assert_eq!(
        InitResultError::InvalidRVersion.message(),
        "script dependency discovery produced an invalid R version"
    );
    assert_eq!(
        InitResultError::EmptyRef.message(),
        "script dependency discovery produced an empty package ref"
    );
}

#[test]
fn discovery_retries_at_most_twice() {
    let s0 = DiscoveryState::initial();
    let s1 = match next_discovery_step(s0, true, false) {
        DiscoveryStep::Retry(s) => s,
        other => panic!("{other:?}"),
    };
    assert!(s1.retried_restart && !s1.safe_mode);
    assert_eq!(next_discovery_step(s1, true, false), DiscoveryStep::RepeatedRestart);
    let s2 = match next_discovery_step(s1, false, true) {
        DiscoveryStep::Retry(s) => s,
        other => panic!("{other:?}"),
    };
    assert!(s2.safe_mode && s2.retried_safe_mode);
    // A crash in safe mode is not retried again, and safe mode stays on.
    assert_eq!(next_discovery_step(s2, false, true), DiscoveryStep::Finish);
    assert_eq!(next_discovery_step(s2, true, true), DiscoveryStep::RepeatedRestart);
    assert_eq!(next_discovery_step(s0, false, false), DiscoveryStep::Finish);
}

#[test]
fn script_must_be_unchanged_before_replacing() {
    assert!(bytes_equal(b"abc", b"abc"));
    assert!(!bytes_equal(b"abc", b"abd"));
    assert!(!bytes_equal(b"abc", b"ab"));
    assert_eq!(check_unchanged(b"a", b"a", false, true), Ok(()));
    assert_eq!(check_unchanged(b"a", b"b", false, true), Err(InitRefusal::Changed));
    assert_eq!(check_unchanged(b"a", b"a", true, true), Err(InitRefusal::Changed));
    assert_eq!(check_unchanged(b"a", b"a", false, false), Err(InitRefusal::Changed));
    assert_eq!(InitRefusal::Changed.message("s.R"), "script `s.R` changed during initialization");
}

#[test]
fn discovery_launch_errors() {
    let err = init_spawn_error("Rscript", std::io::Error::from(std::io::ErrorKind::NotFound));
    assert_eq!(err, "could not find `Rscript` on PATH. Install R or set IR_RSCRIPT.");
    let err = init_spawn_error("/opt/R", std::io::Error::from(std::io::ErrorKind::PermissionDenied));
    assert!(err.starts_with("failed to start Rscript `/opt/R` for script dependency discovery: "), "{err}");
}

#[test]
fn initialized_frontmatter_reads_back() {
    let result = InitResult { refs: vec!["cli".to_string(), "a\nb".to_string()], r_version: ">= 4.4".to_string() };
    for newline in [&b"\n"[..], &b"\r\n"[..]] {
        let out = initialized_contents(b"#| x\n", 0, &result, "2026-01-02", newline);
        let (frontmatter, _) = r_script_frontmatter(&out);
        let nl = String::from_utf8(newline.to_vec()).unwrap();
        let expected = format!(
            "packages:{nl}  - \"cli\"{nl}  - \"a\\nb\"{nl}r-version: \">= 4.4\"{nl}isolated: true{nl}exclude-newer: \"2026-01-02\"{nl}"
        );
        assert_eq!(String::from_utf8(frontmatter).unwrap(), expected);
    }
}

#[test]
fn precheck_refuses_before_discovery() {
    assert_eq!(init_precheck("a.R", false, true, b"#!/bin/sh\nx\n"), Ok(10));
    assert_eq!(init_precheck("a.R", true, true, b"x"), Err(InitRefusal::SymbolicLink));
    assert_eq!(init_precheck("d", false, false, b"x"), Err(InitRefusal::NotRegularFile));
    assert_eq!(init_precheck("a.txt", false, true, b"x"), Err(InitRefusal::NotRScript));
    assert_eq!(init_precheck("a.R", false, true, b"\xef\xbb\xbfx"), Err(InitRefusal::ByteOrderMark));
    assert_eq!(init_precheck("a.R", false, true, b"#|packages: []\n"), Err(InitRefusal::HasMarker));
    assert_eq!(init_precheck("a.R", false, true, b"#| packages: []\n"), Err(InitRefusal::HasFrontmatter));
}

#[test]
fn initialized_scripts_become_executable() {
    assert_eq!(executable_mode(0o644), 0o755);
    assert_eq!(executable_mode(0o600), 0o711);
    assert_eq!(executable_mode(0o755), 0o755);
}

#[test]
fn package_refs_are_written_as_json_strings() {
    let result = InitResult { refs: vec!["\u{1}\t/é".to_string()], r_version: "4".to_string() };
    let out = String::from_utf8(initialized_contents(b"", 0, &result, "d", b"\n")).unwrap();
    assert!(out.contains("#|   - \"\\u0001\\t/é\"\n"), "{out}");
}

#[test]
fn init_round_writes_frontmatter_body_and_mode() {
    let result = InitResult { refs: vec!["cli".to_string()], r_version: ">= 4.4".to_string() };
    let script = b"#!/usr/bin/env Rscript\r\nlibrary(cli)\r\n";
    let (out, mode) = initialize_script("s.R", false, true, script, &result, "2026-01-02", 0o644).unwrap();
    assert_eq!(mode, 0o755);
    let out = String::from_utf8(out).unwrap();
    assert_eq!(
        out,
        "#!/usr/bin/env -S ir run\r\n#| packages:\r\n#|   - \"cli\"\r\n#| r-version: \">= 4.4\"\r\n#| isolated: true\r\n#| exclude-newer: \"2026-01-02\"\r\n\r\nlibrary(cli)\r\n"
    );
    let (frontmatter, _) = r_script_frontmatter(out.as_bytes());
    assert!(String::from_utf8(frontmatter).unwrap().ends_with("exclude-newer: \"2026-01-02\"\r\n"));
    assert_eq!(initialize_script("s.R", true, true, script, &result, "d", 0o644), Err(InitRefusal::SymbolicLink));
    assert_eq!(
        initialize_script("s.R", false, true, b"#| packages: []\n", &result, "d", 0o644),
        Err(InitRefusal::HasFrontmatter)
    );
    let (_, mode) = initialize_script("s.R", false, true, b"x\n", &result, "d", 0o751).unwrap();
    assert_eq!(mode, 0o751);
}
