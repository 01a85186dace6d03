use custom_build::output::BuildOutput;
use custom_build::BuildScriptError;

fn strs(v: &[&str]) -> Vec<String> {
    v.iter().map(|s| s.to_string()).collect()
}

#[test]
fn empty_input_gives_empty_record() {
    let out = BuildOutput::parse("", "pkg").unwrap();
    assert!(out.library_paths.is_empty());
    assert!(out.library_links.is_empty());
    assert!(out.cfgs.is_empty());
    assert!(out.metadata.is_empty());
}

#[test]
fn non_prefixed_lines_are_ignored() {
    let text = "random chatter\nwarning: something\n\npkg:cfg=yes\nnot-pkg:cfg=no\n";
    let out = BuildOutput::parse(text, "pkg").unwrap();
    assert_eq!(out.cfgs, strs(&["yes"]));
    assert!(out.metadata.is_empty());
}

#[test]
fn order_is_preserved_and_metadata_not_deduplicated() {
    let text = "pkg:answer=42\npkg:link-lib=a\npkg:answer=42\npkg:other=1\npkg:link-lib=b\n";
    let out = BuildOutput::parse(text, "pkg").unwrap();
    assert_eq!(out.library_links, strs(&["a", "b"]));
    assert_eq!(
        out.metadata,
        vec![
            ("answer".to_string(), "42".to_string()),
            ("answer".to_string(), "42".to_string()),
            ("other".to_string(), "1".to_string()),
        ]
    );
}

#[test]
fn unknown_keys_become_metadata() {
    let out = BuildOutput::parse("pkg:rootdir=/tmp/x\n", "pkg").unwrap();
    assert_eq!(
        out.metadata,
        vec![("rootdir".to_string(), "/tmp/x".to_string())]
    );
    assert!(out.library_links.is_empty());
    assert!(out.library_paths.is_empty());
    assert!(out.cfgs.is_empty());
}

#[test]
fn prefixed_line_without_equals_is_rejected() {
    let err = BuildOutput::parse("pkg:rustflag", "mypkg").unwrap_err();
    match err {
        BuildScriptError::MalformedLine { script, line } => {
            assert_eq!(line, "pkg:rustflag");
            assert_eq!(script, "build script of `mypkg`");
        }
        _ => panic!("expected a malformed-line error"),
    }
}

#[test]
fn first_fatal_line_wins_and_aborts() {
    let text = "pkg:cfg=ok\npkg:broken\npkg:also-broken\n";
    let err = BuildOutput::parse(text, "p").unwrap_err();
    match err {
        BuildScriptError::MalformedLine { line, .. } => assert_eq!(line, "pkg:broken"),
        _ => panic!("expected a malformed-line error"),
    }
}

#[test]
fn value_keeps_internal_equals_and_loses_trailing_whitespace() {
    let out = BuildOutput::parse("pkg:k=a=b \t\npkg:cfg=c  \n", "p").unwrap();
    assert_eq!(out.metadata, vec![("k".to_string(), "a=b".to_string())]);
    assert_eq!(out.cfgs, strs(&["c"]));
}

#[test]
fn recognized_keys_fill_their_lists() {
    let text = "pkg:link-lib=foo\npkg:link-search=/x\npkg:cfg=bar\npkg:answer=42\n";
    let out = BuildOutput::parse(text, "p").unwrap();
    assert_eq!(out.library_links, strs(&["foo"]));
    assert_eq!(out.library_paths, strs(&["/x"]));
    assert_eq!(out.cfgs, strs(&["bar"]));
    assert_eq!(
        out.metadata,
        vec![("answer".to_string(), "42".to_string())]
    );
}

#[test]
fn flags_directive_splits_into_paths_and_links() {
    let out = BuildOutput::parse("pkg:link-flags=-l foo -L /usr/lib\n", "p").unwrap();
    assert_eq!(out.library_links, strs(&["foo"]));
    assert_eq!(out.library_paths, strs(&["/usr/lib"]));
}

#[test]
fn flags_accumulate_with_other_directives() {
    let text = "pkg:link-lib=a\npkg:link-flags=-L p1 -l b -l c\npkg:link-search=p2\n";
    let out = BuildOutput::parse(text, "p").unwrap();
    assert_eq!(out.library_links, strs(&["a", "b", "c"]));
    assert_eq!(out.library_paths, strs(&["p1", "p2"]));
}

#[test]
fn parse_rustc_flags_accepts_l_pairs() {
    let (paths, links) = BuildOutput::parse_rustc_flags("-l foo -L /usr/lib", "w").unwrap();
    assert_eq!(links, strs(&["foo"]));
    assert_eq!(paths, strs(&["/usr/lib"]));
}

#[test]
fn parse_rustc_flags_handles_extra_whitespace() {
    let (paths, links) = BuildOutput::parse_rustc_flags("  -L  a\t-l\tb  ", "w").unwrap();
    assert_eq!(paths, strs(&["a"]));
    assert_eq!(links, strs(&["b"]));
}

#[test]
fn parse_rustc_flags_rejects_other_flags() {
    let err = BuildOutput::parse_rustc_flags("-x foo", "w").unwrap_err();
    match err {
        BuildScriptError::DisallowedFlag { script, value } => {
            assert_eq!(script, "w");
            assert_eq!(value, "-x foo");
        }
        _ => panic!("expected a disallowed-flag error"),
    }
}

#[test]
fn parse_rustc_flags_rejects_trailing_flag_without_argument() {
    let err = BuildOutput::parse_rustc_flags("-L /usr/lib -l", "w").unwrap_err();
    match err {
        BuildScriptError::MissingFlagValue { value, .. } => assert_eq!(value, "-L /usr/lib -l"),
        _ => panic!("expected a missing-value error"),
    }
}

#[test]
fn bad_flag_inside_directive_is_fatal() {
    let err = BuildOutput::parse("pkg:link-flags=-x foo\n", "p").unwrap_err();
    assert!(matches!(err, BuildScriptError::DisallowedFlag { .. }));
}

#[test]
fn clone_copies_every_list() {
    let out = BuildOutput::parse("pkg:link-lib=a\npkg:k=v\n", "p").unwrap();
    let copy = out.clone();
    assert_eq!(copy.library_links, out.library_links);
    assert_eq!(copy.library_paths, out.library_paths);
    assert_eq!(copy.cfgs, out.cfgs);
    assert_eq!(copy.metadata, out.metadata);
}
