use custom_build::registry::{BuildConfig, BuildState};
use custom_build::runner::{dep_env, prepare, record_output, DepTarget, ScriptConfig};
use custom_build::text::envify;
use custom_build::{BuildScriptError, Kind, Platform};

fn config() -> ScriptConfig {
    ScriptConfig {
        out_dir: "/build/out".to_string(),
        manifest_dir: "/src/pkg".to_string(),
        jobs: "4".to_string(),
        host_triple: "x86_64-host".to_string(),
        target_triple: "arm-target".to_string(),
        debug: true,
        opt_level: "0".to_string(),
        release: false,
        features: vec!["unicode".to_string(), "de-vendored".to_string()],
    }
}

fn empty_state() -> BuildState {
    BuildState::new(
        &BuildConfig {
            host_overrides: Vec::new(),
            target_overrides: Vec::new(),
        },
        &Vec::new(),
    )
}

#[test]
fn envify_uppercases_and_replaces_dashes() {
    assert_eq!(envify("de-vendored"), "DE_VENDORED");
    assert_eq!(envify("ssl102"), "SSL102");
    assert_eq!(envify("Answer"), "ANSWER");
}

#[test]
fn plugin_requirement_runs_host_side() {
    let p = prepare(Platform::Plugin, &config(), &Vec::new());
    assert_eq!(p.kind, Kind::Host);
    let target = p.env.iter().find(|(k, _)| k == "TARGET").unwrap();
    assert_eq!(target.1, "x86_64-host");
}

#[test]
fn target_requirement_runs_target_side() {
    for req in [Platform::Target, Platform::PluginAndTarget] {
        let p = prepare(req, &config(), &Vec::new());
        assert_eq!(p.kind, Kind::Target);
        let target = p.env.iter().find(|(k, _)| k == "TARGET").unwrap();
        assert_eq!(target.1, "arm-target");
    }
}

#[test]
fn environment_is_deterministic_and_complete() {
    let p = prepare(Platform::Target, &config(), &Vec::new());
    assert_eq!(
        p.env,
        vec![
            ("OUT_DIR".to_string(), "/build/out".to_string()),
            ("CARGO_MANIFEST_DIR".to_string(), "/src/pkg".to_string()),
            ("NUM_JOBS".to_string(), "4".to_string()),
            ("TARGET".to_string(), "arm-target".to_string()),
            ("DEBUG".to_string(), "true".to_string()),
            ("OPT_LEVEL".to_string(), "0".to_string()),
            ("PROFILE".to_string(), "debug".to_string()),
            ("HOST".to_string(), "x86_64-host".to_string()),
            ("CARGO_FEATURE_UNICODE".to_string(), "1".to_string()),
            ("CARGO_FEATURE_DE_VENDORED".to_string(), "1".to_string()),
        ]
    );
}

#[test]
fn link_dependency_closure_keeps_linkable_links_declaring_deps() {
    let deps = vec![
        DepTarget {
            pkg_id: 1,
            linkable: true,
            links: Some("zlib".to_string()),
        },
        DepTarget {
            pkg_id: 2,
            linkable: false,
            links: Some("ignored".to_string()),
        },
        DepTarget {
            pkg_id: 3,
            linkable: true,
            links: None,
        },
    ];
    let p = prepare(Platform::Target, &config(), &deps);
    assert_eq!(p.lib_deps, vec![("zlib".to_string(), 1)]);
}

#[test]
fn end_to_end_metadata_reaches_the_dependent_environment() {
    let mut state = empty_state();
    let text = "pkg:link-lib=foo\npkg:link-search=/x\npkg:cfg=bar\npkg:answer=42\n";
    record_output(&mut state, 7, Platform::Target, text, "dep").unwrap();
    let out = state.get(7, Kind::Target).unwrap();
    assert_eq!(out.library_links, vec!["foo".to_string()]);
    assert_eq!(out.library_paths, vec!["/x".to_string()]);
    assert_eq!(out.cfgs, vec!["bar".to_string()]);

    let lib_deps = vec![("mylib".to_string(), 7)];
    let env = dep_env(&state, Kind::Target, &lib_deps).unwrap();
    assert_eq!(
        env,
        vec![("DEP_MYLIB_ANSWER".to_string(), "42".to_string())]
    );
}

#[test]
fn dep_env_emits_every_metadata_pair_in_order() {
    let mut state = empty_state();
    let text = "pkg:a=1\npkg:b-c=2\n";
    record_output(&mut state, 1, Platform::PluginAndTarget, text, "d").unwrap();
    let lib_deps = vec![("n".to_string(), 1)];
    let env = dep_env(&state, Kind::Host, &lib_deps).unwrap();
    assert_eq!(
        env,
        vec![
            ("DEP_N_A".to_string(), "1".to_string()),
            ("DEP_N_B_C".to_string(), "2".to_string()),
        ]
    );
}

#[test]
fn missing_dependency_output_is_fatal() {
    let state = empty_state();
    let lib_deps = vec![("zlib".to_string(), 42)];
    let err = dep_env(&state, Kind::Target, &lib_deps).unwrap_err();
    match err {
        BuildScriptError::MissingDependencyOutput { links_name, package } => {
            assert_eq!(links_name, "zlib");
            assert_eq!(package, 42);
        }
        _ => panic!("expected a missing-dependency error"),
    }
}

#[test]
fn dep_env_respects_the_role() {
    let mut state = empty_state();
    record_output(&mut state, 3, Platform::Plugin, "pkg:k=v\n", "d").unwrap();
    let lib_deps = vec![("n".to_string(), 3)];
    assert!(dep_env(&state, Kind::Host, &lib_deps).is_ok());
    assert!(dep_env(&state, Kind::Target, &lib_deps).is_err());
}

#[test]
fn replaying_the_same_text_reproduces_the_registry_state() {
    let text = "pkg:link-lib=z\npkg:meta=1\n";
    let mut ran = empty_state();
    record_output(&mut ran, 2, Platform::Target, text, "p").unwrap();
    let mut replayed = empty_state();
    record_output(&mut replayed, 2, Platform::Target, text, "p").unwrap();
    let a = ran.get(2, Kind::Target).unwrap();
    let b = replayed.get(2, Kind::Target).unwrap();
    assert_eq!(a.library_links, b.library_links);
    assert_eq!(a.metadata, b.metadata);
}

#[test]
fn record_output_of_a_bad_text_changes_nothing() {
    let mut state = empty_state();
    let err = record_output(&mut state, 2, Platform::Target, "pkg:oops", "p");
    assert!(err.is_err());
    assert!(state.get(2, Kind::Target).is_none());
    assert!(state.get(2, Kind::Host).is_none());
}
