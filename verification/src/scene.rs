//! The editor's undo history.

use vstd::prelude::*;

verus! {

/// How many edits the undo history keeps.
pub const MAX_UNDO: usize = 64;

/// The history after recording `op`: the oldest entry falls out once the
/// history would exceed `MAX_UNDO` entries.
pub open spec fn pushed<T>(stack: Seq<T>, op: T) -> Seq<T> {
    if stack.len() + 1 > MAX_UNDO {
        stack.push(op).drop_first()
    } else {
        stack.push(op)
    }
}

/// The last `MAX_UNDO` of `ops`, oldest first.
pub open spec fn most_recent<T>(ops: Seq<T>) -> Seq<T> {
    if ops.len() > MAX_UNDO {
        ops.skip(ops.len() - MAX_UNDO)
    } else {
        ops
    }
}

/// Records `op` as the most recent edit.
pub fn push_undo<T>(undo_stack: &mut Vec<T>, op: T)
    ensures
        final(undo_stack)@ == pushed(old(undo_stack)@, op),
{
    undo_stack.push(op);
    if undo_stack.len() > MAX_UNDO {
        undo_stack.remove(0);
        assert(final(undo_stack)@ =~= old(undo_stack)@.push(op).drop_first());
    }
}

/// Recording edits one by one on an empty history leaves the last
/// `MAX_UNDO` of them, oldest first: each recording keeps that so.
pub proof fn lemma_history_is_most_recent<T>(ops: Seq<T>, op: T)
    ensures
        pushed(most_recent(ops), op) == most_recent(ops.push(op)),
{
    let p = ops.push(op);
    if ops.len() > MAX_UNDO {
        assert(ops.skip(ops.len() - MAX_UNDO).push(op).drop_first() =~= p.skip(p.len() - MAX_UNDO));
    } else if ops.len() == MAX_UNDO {
        assert(ops.push(op).drop_first() =~= p.skip(p.len() - MAX_UNDO));
    }
}

/// The history never holds more than `MAX_UNDO` edits, and its newest
/// entry is the edit just recorded.
pub proof fn lemma_history_bounded<T>(stack: Seq<T>, op: T)
    requires
        stack.len() <= MAX_UNDO,
    ensures
        pushed(stack, op).len() <= MAX_UNDO,
        pushed(stack, op).last() == op,
{
}

/// Scenes of this many splats or more keep their octree through edits: a
/// slightly stale octree beats a long stall.
pub const OCTREE_REBUILD_LIMIT: usize = 5_000_000;

/// Whether an edit of a scene of `splats` splats rebuilds its octree at
/// once; otherwise the octree is marked stale.
pub fn octree_rebuild_allowed(splats: usize) -> (r: bool)
    ensures
        r == (splats < OCTREE_REBUILD_LIMIT),
{
    splats < OCTREE_REBUILD_LIMIT
}

} // verus!
