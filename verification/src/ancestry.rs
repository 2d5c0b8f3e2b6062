//! Who lies under whom in a composite tree.

use vstd::prelude::*;
use crate::composite::{CompositeId, CompositeTree};

verus! {

/// `x` is a child of the composite `parent`.
pub open spec fn is_child_of(tree: CompositeTree, x: CompositeId, parent: CompositeId) -> bool {
    exists|i: int| tree.is_child_at(x, parent, i)
}

/// `x` is a child of some composite.
pub open spec fn has_parent(tree: CompositeTree, x: CompositeId) -> bool {
    exists|parent: CompositeId| is_child_of(tree, x, parent)
}

/// The composite that `x` is a child of, where there is one.
pub open spec fn parent_of(tree: CompositeTree, x: CompositeId) -> CompositeId {
    choose|parent: CompositeId| is_child_of(tree, x, parent)
}

/// `x` is `top`, or a child of `top`, or a child of a child, and so on.
pub open spec fn under(tree: CompositeTree, x: CompositeId, top: CompositeId) -> bool
    decreases x,
{
    x == top || (top < x && has_parent(tree, x) && parent_of(tree, x) < x && under(
        tree,
        parent_of(tree, x),
        top,
    ))
}

/// In a well-formed tree a child has one parent, which was issued before
/// it.
pub proof fn lemma_parent(tree: CompositeTree, x: CompositeId, parent: CompositeId, i: int)
    requires
        tree.wf(),
        tree.is_child_at(x, parent, i),
    ensures
        has_parent(tree, x),
        parent_of(tree, x) == parent,
        parent < x,
        tree.contains(x),
{
    assert(is_child_of(tree, x, parent));
    // The parent that was found has `x` in one of its slots, and no two
    // slots hold the same composite.
    let found = parent_of(tree, x);
    let j = choose|j: int| tree.is_child_at(x, found, j);
    assert(tree.is_child_at(x, found, j));
}

/// Nothing lies under a composite that was issued after it.
pub proof fn lemma_under_is_later(tree: CompositeTree, x: CompositeId, top: CompositeId)
    requires
        under(tree, x, top),
    ensures
        top <= x,
{
}

/// What lies under a child lies under its parent.
pub proof fn lemma_under_parent(
    tree: CompositeTree,
    x: CompositeId,
    child: CompositeId,
    parent: CompositeId,
    i: int,
)
    requires
        tree.wf(),
        tree.is_child_at(child, parent, i),
        under(tree, x, child),
    ensures
        under(tree, x, parent),
    decreases x,
{
    lemma_parent(tree, child, parent, i);
    if x == child {
        assert(under(tree, parent, parent));
    } else {
        lemma_under_parent(tree, parent_of(tree, x), child, parent, i);
    }
}

/// A composite does not lie under its sibling.
proof fn lemma_sibling_is_beside(
    tree: CompositeTree,
    one: CompositeId,
    other: CompositeId,
    parent: CompositeId,
    i: int,
    j: int,
)
    requires
        tree.wf(),
        tree.is_child_at(one, parent, i),
        tree.is_child_at(other, parent, j),
        i != j,
    ensures
        !under(tree, one, other),
{
    lemma_parent(tree, one, parent, i);
    lemma_parent(tree, other, parent, j);
    assert(!under(tree, parent, other));
}

/// What lies under one child of a composite does not lie under another.
pub proof fn lemma_siblings_are_disjoint(
    tree: CompositeTree,
    x: CompositeId,
    one: CompositeId,
    other: CompositeId,
    parent: CompositeId,
    i: int,
    j: int,
)
    requires
        tree.wf(),
        tree.is_child_at(one, parent, i),
        tree.is_child_at(other, parent, j),
        i != j,
        under(tree, x, one),
    ensures
        !under(tree, x, other),
    decreases x,
{
    lemma_sibling_is_beside(tree, one, other, parent, i, j);
    lemma_sibling_is_beside(tree, other, one, parent, j, i);
    if x != one && x != other {
        if under(tree, x, other) {
            lemma_siblings_are_disjoint(tree, parent_of(tree, x), one, other, parent, i, j);
        }
    }
}

/// A composite of a tree has in every extension of the tree the parent
/// it had, or none as before.
pub proof fn lemma_extension_keeps_parent(after: CompositeTree, before: CompositeTree, x: CompositeId)
    requires
        before.wf(),
        after.wf(),
        after.extends(before),
        before.contains(x),
    ensures
        has_parent(after, x) == has_parent(before, x),
        has_parent(before, x) ==> parent_of(after, x) == parent_of(before, x) && before.contains(
            parent_of(before, x),
        ),
{
    if has_parent(before, x) {
        let p = parent_of(before, x);
        let i = choose|i: int| before.is_child_at(x, p, i);
        lemma_parent(after, x, p, i);
    }
    if has_parent(after, x) {
        let p = parent_of(after, x);
        let i = choose|i: int| after.is_child_at(x, p, i);
        lemma_parent(after, x, p, i);
        // The parent was issued before `x`, so it is a composite of
        // `before`, and the slot is one it had there: whatever it got
        // since was issued after `x`.
        assert(before.arity(p) <= i ==> before.issued < after.child(p, i));
        lemma_parent(before, x, p, i);
    }
}

/// A composite of a tree lies in every extension of the tree under what
/// it lay under.
pub proof fn lemma_extension_keeps_under(
    after: CompositeTree,
    before: CompositeTree,
    x: CompositeId,
    top: CompositeId,
)
    requires
        before.wf(),
        after.wf(),
        after.extends(before),
        before.contains(x),
    ensures
        under(after, x, top) == under(before, x, top),
    decreases x,
{
    lemma_extension_keeps_parent(after, before, x);
    if x != top && top < x && has_parent(before, x) && parent_of(before, x) < x {
        lemma_extension_keeps_under(after, before, parent_of(before, x), top);
    }
}

} // verus!
