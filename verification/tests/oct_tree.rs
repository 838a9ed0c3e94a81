use std::collections::HashSet;
use gs_rust::oct_tree::{
    child_index, distribute_to_children, index_to_direction, should_split, split_params, SplitParams, CUBE_EDGES,
    DEFAULT_MAX_DEPTH, DEFAULT_SPLIT_LIMIT, SKIPPED,
};

#[test]
fn split_parameters_by_cloud_size() {
    assert_eq!(split_params(10), SplitParams { split_limit: DEFAULT_SPLIT_LIMIT, max_depth: DEFAULT_MAX_DEPTH });
    assert_eq!(split_params(300_000), SplitParams { split_limit: 1000, max_depth: 10 });
    assert_eq!(split_params(300_001), SplitParams { split_limit: 20_000, max_depth: 6 });
    assert_eq!(split_params(1_000_000), SplitParams { split_limit: 20_000, max_depth: 6 });
    assert_eq!(split_params(1_000_001), SplitParams { split_limit: 50_000, max_depth: 5 });
}

#[test]
fn nodes_split_while_full_and_shallow() {
    let p = SplitParams { split_limit: 1000, max_depth: 10 };
    assert!(should_split(1000, 9, p));
    assert!(!should_split(999, 0, p));
    assert!(!should_split(5000, 10, p));
}

#[test]
fn child_index_and_direction_agree() {
    assert_eq!(child_index(true, true, true), 0);
    assert_eq!(child_index(false, false, false), 7);
    assert_eq!(child_index(true, false, true), 2);
    for x in [true, false] {
        for y in [true, false] {
            for z in [true, false] {
                let d = index_to_direction(child_index(x, y, z));
                let s = |b: bool| if b { 1i8 } else { -1i8 };
                assert_eq!(d, [s(x), s(y), s(z)]);
            }
        }
    }
}

#[test]
fn splats_go_to_their_children_in_order() {
    let indices = [10usize, 11, 12, 13, 14, 15];
    let codes = [3u8, 0, 3, SKIPPED, 7, 0];
    let children = distribute_to_children(&indices, &codes);
    assert_eq!(children.len(), 8);
    assert_eq!(children[0], vec![11, 15]);
    assert_eq!(children[3], vec![10, 12]);
    assert_eq!(children[7], vec![14]);
    for c in [1usize, 2, 4, 5, 6] {
        assert!(children[c].is_empty());
    }
    let total: usize = children.iter().map(|c| c.len()).sum();
    assert_eq!(total, 5);
}

#[test]
fn cube_edges_are_the_twelve_edges() {
    let mut seen = HashSet::new();
    for e in CUBE_EDGES.iter() {
        assert!(e.iter().all(|&s| s == 1 || s == -1));
        let differing = (0..3).filter(|&k| e[k] != e[k + 3]).count();
        assert_eq!(differing, 1);
        let (a, b) = ((e[0], e[1], e[2]), (e[3], e[4], e[5]));
        let key = if a < b { (a, b) } else { (b, a) };
        assert!(seen.insert(key));
    }
    assert_eq!(seen.len(), 12);
}
