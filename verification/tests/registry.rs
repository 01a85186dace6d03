use custom_build::output::BuildOutput;
use custom_build::registry::{BuildConfig, BuildState, PackageDesc};
use custom_build::{Kind, Platform};

fn record(meta: &[(&str, &str)]) -> BuildOutput {
    BuildOutput {
        library_paths: Vec::new(),
        library_links: Vec::new(),
        cfgs: Vec::new(),
        metadata: meta
            .iter()
            .map(|(k, v)| (k.to_string(), v.to_string()))
            .collect(),
    }
}

fn empty_config() -> BuildConfig {
    BuildConfig {
        host_overrides: Vec::new(),
        target_overrides: Vec::new(),
    }
}

#[test]
fn dual_role_insert_fills_both_slots_with_equal_copies() {
    let mut state = BuildState::new(&empty_config(), &Vec::new());
    state.insert(1, Platform::PluginAndTarget, record(&[("a", "1")]));
    let host = state.get(1, Kind::Host).unwrap();
    let target = state.get(1, Kind::Target).unwrap();
    assert_eq!(host.metadata, target.metadata);
    assert_eq!(host.metadata, vec![("a".to_string(), "1".to_string())]);
}

#[test]
fn later_single_role_insert_leaves_other_slot_untouched() {
    let mut state = BuildState::new(&empty_config(), &Vec::new());
    state.insert(1, Platform::PluginAndTarget, record(&[("a", "1")]));
    state.insert(1, Platform::Target, record(&[("b", "2")]));
    let host = state.get(1, Kind::Host).unwrap();
    let target = state.get(1, Kind::Target).unwrap();
    assert_eq!(host.metadata, vec![("a".to_string(), "1".to_string())]);
    assert_eq!(target.metadata, vec![("b".to_string(), "2".to_string())]);
}

#[test]
fn plugin_insert_touches_only_the_host_slot() {
    let mut state = BuildState::new(&empty_config(), &Vec::new());
    state.insert(9, Platform::Plugin, record(&[("p", "x")]));
    assert!(state.get(9, Kind::Host).is_some());
    assert!(state.get(9, Kind::Target).is_none());
}

#[test]
fn overrides_seed_matching_packages_only() {
    let packages = vec![
        PackageDesc {
            id: 3,
            links: Some("zlib".to_string()),
        },
        PackageDesc { id: 4, links: None },
    ];
    let config = BuildConfig {
        host_overrides: vec![("zlib".to_string(), record(&[("h", "1")]))],
        target_overrides: vec![
            ("zlib".to_string(), record(&[("t", "2")])),
            ("unknown".to_string(), record(&[("u", "3")])),
        ],
    };
    let state = BuildState::new(&config, &packages);
    assert_eq!(
        state.get(3, Kind::Host).unwrap().metadata,
        vec![("h".to_string(), "1".to_string())]
    );
    assert_eq!(
        state.get(3, Kind::Target).unwrap().metadata,
        vec![("t".to_string(), "2".to_string())]
    );
    assert!(state.get(4, Kind::Host).is_none());
    assert!(state.get(4, Kind::Target).is_none());
}

#[test]
fn duplicate_links_name_resolves_to_the_later_package() {
    let packages = vec![
        PackageDesc {
            id: 1,
            links: Some("ssl".to_string()),
        },
        PackageDesc {
            id: 2,
            links: Some("ssl".to_string()),
        },
    ];
    let config = BuildConfig {
        host_overrides: Vec::new(),
        target_overrides: vec![("ssl".to_string(), record(&[("k", "v")]))],
    };
    let state = BuildState::new(&config, &packages);
    assert!(state.get(1, Kind::Target).is_none());
    assert!(state.get(2, Kind::Target).is_some());
}

#[test]
fn insert_replaces_an_override() {
    let packages = vec![PackageDesc {
        id: 5,
        links: Some("m".to_string()),
    }];
    let config = BuildConfig {
        host_overrides: Vec::new(),
        target_overrides: vec![("m".to_string(), record(&[("old", "1")]))],
    };
    let mut state = BuildState::new(&config, &packages);
    state.insert(5, Platform::Target, record(&[("new", "2")]));
    assert_eq!(
        state.get(5, Kind::Target).unwrap().metadata,
        vec![("new".to_string(), "2".to_string())]
    );
}
