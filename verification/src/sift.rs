//! The two movements that restore a heap, on the sequence of its slots.
//!
//! The slots of a heap are an implicit binary tree with the root at index 1:
//! the parent of index `i` is `i / 2`, its children are `2i` and `2i + 1`.
//! Index 0 is not part of the tree. `rel(a, b)` reads "`a` ranks above `b`".

use vstd::prelude::*;

verus! {

/// `slots` with the elements at `i` and `j` exchanged.
pub open spec fn swapped<T>(slots: Seq<T>, i: int, j: int) -> Seq<T> {
    slots.update(i, slots[j]).update(j, slots[i])
}

/// `slots` after the last element has taken the root's place, and its own
/// slot has been given up.
pub open spec fn root_replaced<T>(slots: Seq<T>) -> Seq<T> {
    slots.update(1, slots.last()).drop_last()
}

/// Sift-up from `idx`: as long as the element is not at the root and ranks
/// above its parent, the two change places and the movement goes on from the
/// parent's index.
pub open spec fn sift_up<T>(rel: spec_fn(T, T) -> bool, slots: Seq<T>, idx: int) -> Seq<T>
    decreases idx,
{
    if idx > 1 && rel(slots[idx], slots[idx / 2]) {
        sift_up(rel, swapped(slots, idx / 2, idx), idx / 2)
    } else {
        slots
    }
}

/// The child of `idx` that sift-down compares with it: the left one when it
/// is the only one, else the left one if it ranks above the right one, else
/// the right one.
pub open spec fn preferred_child<T>(rel: spec_fn(T, T) -> bool, slots: Seq<T>, idx: int) -> int {
    if 2 * idx + 1 < slots.len() && !rel(slots[2 * idx], slots[2 * idx + 1]) {
        2 * idx + 1
    } else {
        2 * idx
    }
}

/// Sift-down from `idx`: as long as the element has a child and its
/// preferred child ranks above it, the two change places and the movement
/// goes on from the child's index.
pub open spec fn sift_down<T>(rel: spec_fn(T, T) -> bool, slots: Seq<T>, idx: int) -> Seq<T>
    decreases slots.len() - idx,
{
    if idx >= 1 && 2 * idx < slots.len() {
        let child = preferred_child(rel, slots, idx);
        if rel(slots[child], slots[idx]) {
            sift_down(rel, swapped(slots, idx, child), child)
        } else {
            slots
        }
    } else {
        slots
    }
}

} // verus!
