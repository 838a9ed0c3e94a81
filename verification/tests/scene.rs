use gs_rust::scene::{octree_rebuild_allowed, push_undo, MAX_UNDO, OCTREE_REBUILD_LIMIT};

#[test]
fn undo_history_keeps_the_most_recent_edits() {
    let mut stack: Vec<u32> = Vec::new();
    for op in 0..100u32 {
        push_undo(&mut stack, op);
        assert!(stack.len() <= MAX_UNDO);
        assert_eq!(*stack.last().unwrap(), op);
    }
    assert_eq!(stack.len(), 64);
    assert_eq!(stack, (36..100u32).collect::<Vec<u32>>());
}

#[test]
fn short_history_keeps_everything() {
    let mut stack = vec![1u8, 2];
    push_undo(&mut stack, 3);
    assert_eq!(stack, vec![1, 2, 3]);
}

#[test]
fn octree_rebuilds_below_five_million_splats() {
    assert_eq!(OCTREE_REBUILD_LIMIT, 5_000_000);
    assert!(octree_rebuild_allowed(0));
    assert!(octree_rebuild_allowed(4_999_999));
    assert!(!octree_rebuild_allowed(5_000_000));
    assert!(!octree_rebuild_allowed(usize::MAX));
}
