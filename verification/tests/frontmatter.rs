use ir::frontmatter::{extract_yaml_block, is_quarto, parse_frontmatter, read_script_spec, FrontmatterError};
use ir::script::{line_end, r_script_header, read_r_script_spec, RunSource, RunSourceError};

#[test]
fn parse_frontmatter_reads_top_level_for_scripts() {
    let spec = parse_frontmatter(
        "dependencies:\n  - dplyr>=1.0\n  - tidyr\nr-version: \">= 4.0\"\n",
        false,
    )
    .unwrap();
    assert_eq!(spec.dependencies, vec!["dplyr>=1.0", "tidyr"]);
    assert_eq!(spec.r_requirement.as_deref(), Some(">= 4.0"));
}

#[test]
fn parse_frontmatter_descends_into_ir_for_quarto() {
    let yaml = "title: Demo\nir:\n  dependencies:\n    - gt@1.0\n  exclude-newer: \"2024-01-15\"\n";
    let spec = parse_frontmatter(yaml, true).unwrap();
    assert_eq!(spec.dependencies, vec!["gt@1.0"]);
    assert_eq!(spec.exclude_newer.as_deref(), Some("2024-01-15"));
}

#[test]
fn parse_frontmatter_quarto_without_ir_key_is_empty() {
    let spec = parse_frontmatter("title: Demo\nformat: html\n", true).unwrap();
    assert!(spec.dependencies.is_empty());
    assert!(spec.exclude_newer.is_none());
    assert!(spec.r_requirement.is_none());
}

#[test]
fn parse_frontmatter_quarto_null_ir_key_is_empty() {
    let spec = parse_frontmatter("ir:\n", true).unwrap();
    assert!(spec.dependencies.is_empty());
}

#[test]
fn parse_frontmatter_quarto_non_mapping_ir_errors() {
    let err = parse_frontmatter("ir: nope\n", true).unwrap_err().message();
    assert!(err.contains("`ir`"), "{err}");
}

#[test]
fn extract_yaml_block_reads_fenced_block() {
    let doc = "---\ntitle: Demo\nir:\n  dependencies:\n    - gt\n---\n\nbody\n";
    assert_eq!(
        extract_yaml_block(doc),
        "title: Demo\nir:\n  dependencies:\n    - gt\n"
    );
}

#[test]
fn extract_yaml_block_handles_crlf_and_dot_terminator() {
    let doc = "---\r\ntitle: Demo\r\n...\r\nbody\r\n";
    assert_eq!(extract_yaml_block(doc), "title: Demo\n");
}

#[test]
fn extract_yaml_block_strips_optional_bom() {
    let doc = "\u{feff}---\ntitle: Demo\n---\n";
    assert_eq!(extract_yaml_block(doc), "title: Demo\n");
}

#[test]
fn extract_yaml_block_without_opening_fence_is_empty() {
    assert_eq!(extract_yaml_block("title: Demo\nbody\n"), "");
    assert_eq!(extract_yaml_block(""), "");
}

#[test]
fn extract_yaml_block_without_closing_fence_is_empty() {
    assert_eq!(extract_yaml_block("---\ntitle: Demo\nbody\n"), "");
}

#[test]
fn yaml_block_is_the_same_with_or_without_a_bom() {
    let doc = "---\ntitle: Demo\n---\nbody\n";
    let marked = format!("\u{feff}{doc}");
    assert_eq!(extract_yaml_block(&marked), extract_yaml_block(doc));
    // Only one mark is stripped: a second one keeps the fence from opening.
    let twice = format!("\u{feff}\u{feff}{doc}");
    assert_eq!(extract_yaml_block(&twice), "");
}

#[test]
fn yaml_block_closing_fence_may_have_trailing_spaces() {
    assert_eq!(extract_yaml_block("---  \na: 1\n...   \nrest\n"), "a: 1\n");
}

#[test]
fn parse_frontmatter_blank_is_empty() {
    let spec = parse_frontmatter("  \n\t\n", false).unwrap();
    assert!(spec.dependencies.is_empty());
    assert!(spec.exclude_newer.is_none());
    assert!(spec.r_requirement.is_none());
}

#[test]
fn parse_frontmatter_null_document_is_empty() {
    let spec = parse_frontmatter("~\n", false).unwrap();
    assert!(spec.dependencies.is_empty());
}

#[test]
fn parse_frontmatter_splits_dependency_words() {
    let spec = parse_frontmatter("dependencies: dplyr  tidyr\n", false).unwrap();
    assert_eq!(spec.dependencies, vec!["dplyr", "tidyr"]);
    let spec = parse_frontmatter("dependencies:\n  - a b\n  - c\n", false).unwrap();
    assert_eq!(spec.dependencies, vec!["a", "b", "c"]);
}

#[test]
fn parse_frontmatter_trims_and_drops_empty_strings() {
    let spec = parse_frontmatter("exclude-newer: \"  2024-01-15 \"\nr-version: \"  \"\n", false).unwrap();
    assert_eq!(spec.exclude_newer.as_deref(), Some("2024-01-15"));
    assert!(spec.r_requirement.is_none());
}

#[test]
fn parse_frontmatter_errors() {
    let err = parse_frontmatter("- a\n- b\n", false).unwrap_err();
    assert!(matches!(err, FrontmatterError::NotMapping));
    assert_eq!(err.message(), "script frontmatter must be a YAML mapping");

    let err = parse_frontmatter("a: 1\n---\nb: 2\n", false).unwrap_err();
    assert!(matches!(err, FrontmatterError::DocumentCount));
    assert_eq!(err.message(), "script frontmatter must contain exactly one YAML document");

    let err = parse_frontmatter("dependencies:\n  - [a]\n", false).unwrap_err();
    assert!(matches!(err, FrontmatterError::EntryNotString(_)));
    assert_eq!(err.message(), "frontmatter `dependencies` entries must be strings");

    let err = parse_frontmatter("r-version: [4]\n", false).unwrap_err();
    assert!(matches!(err, FrontmatterError::FieldNotString(_)));
    assert_eq!(err.message(), "frontmatter `r-version` must be a string");

    let err = parse_frontmatter("a: [\n", false).unwrap_err();
    assert!(matches!(err, FrontmatterError::Yaml(_)));
    assert!(err.message().starts_with("could not parse script frontmatter as YAML: "));

    let err = parse_frontmatter("ir: nope\n", true).unwrap_err();
    assert!(matches!(err, FrontmatterError::IrNotMapping));
    assert_eq!(err.message(), "frontmatter `ir` must be a YAML mapping");
}

#[test]
fn read_script_spec_reads_hash_pipe_frontmatter() {
    let script = b"#!/usr/bin/env -S ir run\n#| dependencies:\n#|   - cli\n#| r-version: \"4.4\"\nprint(1)\n";
    let spec = read_script_spec(script, false).unwrap();
    assert_eq!(spec.dependencies, vec!["cli"]);
    assert_eq!(spec.r_requirement.as_deref(), Some("4.4"));
    let spec = read_r_script_spec(script).unwrap();
    assert_eq!(spec.dependencies, vec!["cli"]);
}

#[test]
fn read_script_spec_reads_quarto_block() {
    let doc = b"---\ntitle: x\nir:\n  dependencies: [gt]\n---\nbody\n";
    let spec = read_script_spec(doc, true).unwrap();
    assert_eq!(spec.dependencies, vec!["gt"]);
}

#[test]
fn read_script_spec_without_frontmatter_is_empty() {
    let spec = read_r_script_spec(b"print(1)\n").unwrap();
    assert!(spec.dependencies.is_empty());
    assert!(spec.r_requirement.is_none());
}

#[test]
fn read_script_spec_rejects_invalid_utf8_frontmatter() {
    let err = read_r_script_spec(b"#| dependencies: \xff\n").unwrap_err();
    assert!(matches!(err, FrontmatterError::InvalidUtf8));
    assert_eq!(err.message(), "stream did not contain valid UTF-8");
}

#[test]
fn is_quarto_by_extension() {
    assert!(is_quarto("report.qmd"));
    assert!(is_quarto("report.Rmd"));
    assert!(is_quarto("dir/REPORT.QMD"));
    assert!(!is_quarto("script.R"));
    assert!(!is_quarto("qmd"));
}

#[test]
fn header_finds_shebang_and_frontmatter() {
    let c = b"#!/bin/sh\n#| a: 1\n#| b: 2\nbody\n";
    let h = r_script_header(c);
    assert_eq!(h.shebang_end, Some(10));
    assert_eq!(h.frontmatter, Some(10..26));
    let h = r_script_header(b"body\n");
    assert_eq!(h.shebang_end, None);
    assert_eq!(h.frontmatter, None);
}

#[test]
fn line_end_is_past_the_newline_or_the_end() {
    assert_eq!(line_end(b"ab\ncd", 0), 3);
    assert_eq!(line_end(b"ab\ncd", 3), 5);
    assert_eq!(line_end(b"", 0), 0);
}

#[test]
fn run_source_from_script_arg() {
    assert!(matches!(RunSource::from_script_arg("-".to_string(), None), Ok(RunSource::Stdin)));
    match RunSource::from_script_arg("a.R".to_string(), None) {
        Ok(RunSource::Script(p)) => assert_eq!(p, "a.R"),
        other => panic!("{other:?}"),
    }
    let err = RunSource::from_script_arg("doc.qmd".to_string(), None).unwrap_err();
    assert!(matches!(err, RunSourceError::QuartoSource));
    assert_eq!(err.message(), "`ir run` does not render Quarto sources; use `ir render <source>`");
    let err = RunSource::from_script_arg("x.R".to_string(), Some("not found".to_string())).unwrap_err();
    assert_eq!(err.message(), "cannot read script `x.R`: not found");
}

#[test]
fn run_source_script_spec() {
    let spec = RunSource::Script("a.R".to_string())
        .script_spec(b"#| dependencies: cli\nx\n")
        .unwrap();
    assert_eq!(spec.dependencies, vec!["cli"]);
    let spec = RunSource::Stdin.script_spec(b"#| dependencies: cli\n").unwrap();
    assert!(spec.dependencies.is_empty());
    let spec = RunSource::Expressions(vec!["1".to_string()]).script_spec(b"").unwrap();
    assert!(spec.dependencies.is_empty());
}

#[test]
fn readme_frontmatter_declares_packages() {
    let spec = parse_frontmatter(
        "packages:\n  - dplyr\n  - tidyr==1.3.1\nr-version: \">= 4.3\"\nisolated: true\nexclude-newer: \"2024-02-01\"\n",
        false,
    )
    .unwrap();
    assert_eq!(spec.dependencies, vec!["dplyr", "tidyr==1.3.1"]);
    assert_eq!(spec.r_requirement.as_deref(), Some(">= 4.3"));
    assert_eq!(spec.exclude_newer.as_deref(), Some("2024-02-01"));
    assert!(spec.isolated);
    let spec = parse_frontmatter("packages: []\n", false).unwrap();
    assert!(spec.dependencies.is_empty());
    assert!(!spec.isolated);
}

#[test]
fn packages_come_before_dependencies() {
    let spec = parse_frontmatter("dependencies: [b]\npackages: a c\n", false).unwrap();
    assert_eq!(spec.dependencies, vec!["a", "c", "b"]);
    let err = parse_frontmatter("packages:\n  - [x]\n", false).unwrap_err();
    assert_eq!(err.message(), "frontmatter `packages` entries must be strings");
}

#[test]
fn isolated_must_be_a_boolean() {
    assert!(!parse_frontmatter("isolated: false\n", false).unwrap().isolated);
    assert!(!parse_frontmatter("isolated:\n", false).unwrap().isolated);
    let err = parse_frontmatter("isolated: \"yes\"\n", false).unwrap_err();
    assert!(matches!(err, FrontmatterError::FieldNotBoolean(_)));
    assert_eq!(err.message(), "frontmatter `isolated` must be a boolean");
    let spec = parse_frontmatter("ir:\n  isolated: true\n", true).unwrap();
    assert!(spec.isolated);
}
