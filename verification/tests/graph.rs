use custom_build::graph::{build_map, Graph, GraphNode};
use custom_build::{Kind, Platform};

fn node(pkg: u64, linkable: bool, has_custom_build: bool, req: Platform, deps: &[usize]) -> GraphNode {
    GraphNode {
        pkg,
        linkable,
        has_custom_build,
        requirement: req,
        deps: deps.to_vec(),
    }
}

#[test]
fn scripts_of_linkable_dependencies_are_visible_transitively() {
    // 0: leaf library with a script; 1: library with a script depending on 0;
    // 2: the root binary depending on 1. Everything target-side.
    let g = Graph {
        nodes: vec![
            node(10, true, true, Platform::Target, &[]),
            node(11, true, true, Platform::Target, &[0]),
            node(12, false, false, Platform::Target, &[1]),
        ],
    };
    let map = build_map(&g, &vec![2]);
    assert_eq!(map.get(2, Kind::Target).unwrap(), &vec![10, 11]);
    assert_eq!(map.get(1, Kind::Target).unwrap(), &vec![10]);
    assert_eq!(map.get(0, Kind::Target).unwrap(), &Vec::<u64>::new());
}

#[test]
fn duplicate_packages_are_deduplicated_and_sorted() {
    // Two middle libraries both depend on the same scripted leaf.
    let g = Graph {
        nodes: vec![
            node(30, true, true, Platform::Target, &[]),
            node(21, true, true, Platform::Target, &[0]),
            node(20, true, true, Platform::Target, &[0]),
            node(40, false, false, Platform::Target, &[1, 2]),
        ],
    };
    let map = build_map(&g, &vec![3]);
    assert_eq!(map.get(3, Kind::Target).unwrap(), &vec![20, 21, 30]);
}

#[test]
fn determinism_two_runs_give_identical_maps() {
    let g = Graph {
        nodes: vec![
            node(5, true, true, Platform::PluginAndTarget, &[]),
            node(3, true, true, Platform::Plugin, &[0]),
            node(8, true, true, Platform::Target, &[0, 1]),
            node(1, false, false, Platform::Target, &[2]),
        ],
    };
    let roots = vec![3];
    let m1 = build_map(&g, &roots);
    let m2 = build_map(&g, &roots);
    for i in 0..g.nodes.len() {
        for kind in [Kind::Host, Kind::Target] {
            assert_eq!(m1.get(i, kind), m2.get(i, kind));
        }
    }
}

#[test]
fn host_only_dependency_is_invisible_to_the_target_role() {
    // 0: a host-only ("plugin") scripted library; 1: the consumer.
    let g = Graph {
        nodes: vec![
            node(7, true, true, Platform::Plugin, &[]),
            node(9, false, false, Platform::Target, &[0]),
        ],
    };
    let map = build_map(&g, &vec![1]);
    // Under the target role the edge flips to host, so the script is excluded.
    assert_eq!(map.get(1, Kind::Target).unwrap(), &Vec::<u64>::new());
    // Under the host role the same dependency's script is visible.
    assert_eq!(map.get(1, Kind::Host).unwrap(), &vec![7]);
    // The flipped edge still visited the dependency under the host role.
    assert!(map.get(0, Kind::Host).is_some());
}

#[test]
fn unvisited_pairs_have_no_entry() {
    let g = Graph {
        nodes: vec![
            node(1, true, true, Platform::Target, &[]),
            node(2, true, true, Platform::Target, &[]),
        ],
    };
    let map = build_map(&g, &vec![0]);
    assert!(map.get(0, Kind::Target).is_some());
    assert!(map.get(1, Kind::Target).is_none());
    assert!(map.get(1, Kind::Host).is_none());
    assert!(map.get(17, Kind::Host).is_none());
}

#[test]
fn non_linkable_dependency_contributes_nothing() {
    let g = Graph {
        nodes: vec![
            node(4, false, true, Platform::Target, &[]),
            node(5, false, false, Platform::Target, &[0]),
        ],
    };
    let map = build_map(&g, &vec![1]);
    assert_eq!(map.get(1, Kind::Target).unwrap(), &Vec::<u64>::new());
}
