//! Synchronizing twice is synchronizing once.
//!
//! A composite tree is settled for a layer tree when the walk of the
//! synchronizer finds in it all that it would make: every container it
//! comes to rasterized as it is now, every slot it asks for taken. The
//! walk leaves a settled tree as it is, and the tree that the walk
//! leaves is settled.

use vstd::prelude::*;
use crate::ancestry::{
    lemma_extension_keeps_under,
    lemma_parent,
    lemma_siblings_are_disjoint,
    lemma_under_is_later,
    lemma_under_parent,
    under,
};
use crate::common::LayerId;
use crate::composite::{lemma_replace_keeps_wf, CompositeId, CompositeTree};
use crate::compositing_reason::compositing_reason_of;
use crate::compositor::{
    lemma_create_grows,
    lemma_grew_transitive,
    lemma_visit_children_grows,
    lemma_visit_children_issues,
    lemma_visit_grows,
    lemma_visit_issues,
    rasterized,
    synchronized,
    visit,
    visit_children,
};
use crate::layer_repository::LayerTree;
use crate::layer_types::LayerModel;
use crate::rasterizer::container_surface;

verus! {

/// The walk that arrives at the layer `layer_id` with the composite
/// `composite_id` finds nothing to do, there or below.
pub open spec fn settled(
    layers: LayerTree,
    composites: CompositeTree,
    layer_id: LayerId,
    composite_id: CompositeId,
) -> bool
    decreases layers.issued - layer_id, layers.layers[layer_id].children().len() + 1,
    when layers.wf() && layers.contains(layer_id)
{
    match layers.layers[layer_id] {
        LayerModel::Container(props) => {
            &&& composites.composites[composite_id].surface == Some(container_surface(props))
            &&& settled_children(layers, composites, layer_id, composite_id, 0, 0)
        },
        _ => true,
    }
}

/// The walk through the children `from ..` of the container `layer_id`,
/// of which the first that has a compositing reason gets the slot `slot`
/// of `composite_id`, finds nothing to do.
pub open spec fn settled_children(
    layers: LayerTree,
    composites: CompositeTree,
    layer_id: LayerId,
    composite_id: CompositeId,
    from: int,
    slot: int,
) -> bool
    decreases layers.issued - layer_id, layers.layers[layer_id].children().len() - from,
    when layers.wf() && layers.contains(layer_id) && 0 <= from
{
    let children = layers.layers[layer_id].children();
    if from >= children.len() {
        true
    } else {
        let child = layers.child(layer_id, from);
        match compositing_reason_of(layers.layers[child]) {
            None => settled_children(layers, composites, layer_id, composite_id, from + 1, slot),
            Some(_) => {
                &&& slot < composites.arity(composite_id)
                &&& settled(layers, composites, child, composites.child(composite_id, slot))
                &&& settled_children(
                    layers,
                    composites,
                    layer_id,
                    composite_id,
                    from + 1,
                    slot + 1,
                )
            },
        }
    }
}

/// `after` has every composite of `before` that lies under `top` as
/// `before` has it.
pub open spec fn same_under(before: CompositeTree, after: CompositeTree, top: CompositeId) -> bool {
    forall|x: CompositeId|
        before.contains(x) && #[trigger] under(before, x, top) ==> after.composites[x]
            == before.composites[x]
}

/// `after` has every composite of `before` that does not lie under `top`
/// as `before` has it.
pub open spec fn same_outside(before: CompositeTree, after: CompositeTree, top: CompositeId)
    -> bool {
    forall|x: CompositeId|
        before.contains(x) && !#[trigger] under(before, x, top) ==> after.composites[x]
            == before.composites[x]
}

/// `x` is not `parent`, and lies under none of the children of `parent`
/// from the slot `slot` on.
pub open spec fn beside(tree: CompositeTree, x: CompositeId, parent: CompositeId, slot: int)
    -> bool {
    &&& x != parent
    &&& forall|k: int|
        slot <= k < tree.arity(parent) ==> !under(tree, x, #[trigger] tree.child(parent, k))
}

/// `after` has every composite of `before` that is beside the slots of
/// `parent` from `slot` on as `before` has it.
pub open spec fn same_beside(
    before: CompositeTree,
    after: CompositeTree,
    parent: CompositeId,
    slot: int,
) -> bool {
    forall|x: CompositeId|
        before.contains(x) && #[trigger] beside(before, x, parent, slot) ==> after.composites[x]
            == before.composites[x]
}

/// The walk leaves a tree that is settled where it starts as it is.
pub proof fn lemma_settled_is_fixed(
    layers: LayerTree,
    composites: CompositeTree,
    layer_id: LayerId,
    composite_id: CompositeId,
)
    requires
        layers.wf(),
        layers.contains(layer_id),
        composites.wf(),
        composites.contains(composite_id),
        settled(layers, composites, layer_id, composite_id),
    ensures
        visit(layers, composites, layer_id, composite_id) == composites,
    decreases layers.issued - layer_id, layers.layers[layer_id].children().len() + 1,
{
    match layers.layers[layer_id] {
        LayerModel::Container(props) => {
            let painted = rasterized(composites, composite_id, props);
            assert(painted.composites =~= composites.composites);
            assert(painted == composites);
            lemma_settled_children_is_fixed(layers, composites, layer_id, composite_id, 0, 0);
        },
        _ => {},
    }
}

/// The walk through the children leaves a tree that is settled for it as
/// it is.
pub proof fn lemma_settled_children_is_fixed(
    layers: LayerTree,
    composites: CompositeTree,
    layer_id: LayerId,
    composite_id: CompositeId,
    from: int,
    slot: int,
)
    requires
        layers.wf(),
        layers.contains(layer_id),
        0 <= from,
        0 <= slot,
        composites.wf(),
        composites.contains(composite_id),
        settled_children(layers, composites, layer_id, composite_id, from, slot),
    ensures
        visit_children(layers, composites, layer_id, composite_id, from, slot) == composites,
    decreases layers.issued - layer_id, layers.layers[layer_id].children().len() - from,
{
    let children = layers.layers[layer_id].children();
    if from < children.len() {
        let child = layers.child(layer_id, from);
        assert(layers.contains(child));
        match compositing_reason_of(layers.layers[child]) {
            None => {
                lemma_settled_children_is_fixed(
                    layers,
                    composites,
                    layer_id,
                    composite_id,
                    from + 1,
                    slot,
                );
            },
            Some(reason) => {
                let child_composite = composites.child(composite_id, slot);
                assert(composites.contains(child_composite));
                lemma_settled_is_fixed(layers, composites, child, child_composite);
                lemma_settled_children_is_fixed(
                    layers,
                    composites,
                    layer_id,
                    composite_id,
                    from + 1,
                    slot + 1,
                );
            },
        }
    }
}

/// Whether a tree is settled for the walk from `composite_id` depends on
/// nothing but what lies under `composite_id`.
pub proof fn lemma_settled_carries_over(
    layers: LayerTree,
    before: CompositeTree,
    after: CompositeTree,
    layer_id: LayerId,
    composite_id: CompositeId,
)
    requires
        layers.wf(),
        layers.contains(layer_id),
        before.wf(),
        before.contains(composite_id),
        same_under(before, after, composite_id),
        settled(layers, before, layer_id, composite_id),
    ensures
        settled(layers, after, layer_id, composite_id),
    decreases layers.issued - layer_id, layers.layers[layer_id].children().len() + 1,
{
    assert(under(before, composite_id, composite_id));
    match layers.layers[layer_id] {
        LayerModel::Container(props) => {
            lemma_settled_children_carries_over(
                layers,
                before,
                after,
                layer_id,
                composite_id,
                0,
                0,
            );
        },
        _ => {},
    }
}

/// Whether a tree is settled for the walk through the children depends
/// on nothing but what lies under `composite_id`.
pub proof fn lemma_settled_children_carries_over(
    layers: LayerTree,
    before: CompositeTree,
    after: CompositeTree,
    layer_id: LayerId,
    composite_id: CompositeId,
    from: int,
    slot: int,
)
    requires
        layers.wf(),
        layers.contains(layer_id),
        0 <= from,
        0 <= slot,
        before.wf(),
        before.contains(composite_id),
        same_under(before, after, composite_id),
        settled_children(layers, before, layer_id, composite_id, from, slot),
    ensures
        settled_children(layers, after, layer_id, composite_id, from, slot),
    decreases layers.issued - layer_id, layers.layers[layer_id].children().len() - from,
{
    assert(under(before, composite_id, composite_id));
    let children = layers.layers[layer_id].children();
    if from < children.len() {
        let child = layers.child(layer_id, from);
        assert(layers.contains(child));
        match compositing_reason_of(layers.layers[child]) {
            None => {
                lemma_settled_children_carries_over(
                    layers,
                    before,
                    after,
                    layer_id,
                    composite_id,
                    from + 1,
                    slot,
                );
            },
            Some(reason) => {
                let child_composite = before.child(composite_id, slot);
                assert(before.is_child_at(child_composite, composite_id, slot));
                assert(before.contains(child_composite));
                assert forall|x: CompositeId|
                    before.contains(x) && #[trigger] under(
                        before,
                        x,
                        child_composite,
                    ) implies after.composites[x] == before.composites[x] by {
                    lemma_under_parent(before, x, child_composite, composite_id, slot);
                }
                lemma_settled_carries_over(layers, before, after, child, child_composite);
                lemma_settled_children_carries_over(
                    layers,
                    before,
                    after,
                    layer_id,
                    composite_id,
                    from + 1,
                    slot + 1,
                );
            },
        }
    }
}

/// The walk from `composite_id` settles the tree for itself, and leaves
/// alone what does not lie under `composite_id`.
pub proof fn lemma_visit_settles(
    layers: LayerTree,
    composites: CompositeTree,
    layer_id: LayerId,
    composite_id: CompositeId,
)
    requires
        layers.wf(),
        layers.contains(layer_id),
        composites.wf(),
        composites.contains(composite_id),
        visit(layers, composites, layer_id, composite_id).issued <= usize::MAX,
    ensures
        settled(layers, visit(layers, composites, layer_id, composite_id), layer_id, composite_id),
        same_outside(composites, visit(layers, composites, layer_id, composite_id), composite_id),
    decreases layers.issued - layer_id, layers.layers[layer_id].children().len() + 1,
{
    match layers.layers[layer_id] {
        LayerModel::Container(props) => {
            let painted = rasterized(composites, composite_id, props);
            let done = visit_children(layers, painted, layer_id, composite_id, 0, 0);
            lemma_replace_keeps_wf(
                composites,
                composite_id,
                composites.composites[composite_id].with_surface(container_surface(props)),
            );
            lemma_visit_children_settles(layers, painted, layer_id, composite_id, 0, 0);
            assert forall|x: CompositeId|
                composites.contains(x) && !#[trigger] under(
                    composites,
                    x,
                    composite_id,
                ) implies done.composites[x] == composites.composites[x] by {
                assert(x != composite_id);
                assert(painted.composites[x] == composites.composites[x]);
                assert forall|k: int| 0 <= k < painted.arity(composite_id) implies !under(
                    painted,
                    x,
                    #[trigger] painted.child(composite_id, k),
                ) by {
                    let c = painted.child(composite_id, k);
                    if under(painted, x, c) {
                        assert(painted.is_child_at(c, composite_id, k));
                        lemma_under_parent(painted, x, c, composite_id, k);
                        lemma_extension_keeps_under(painted, composites, x, composite_id);
                    }
                }
                assert(beside(painted, x, composite_id, 0));
            }
        },
        _ => {},
    }
}

/// The walk through the children settles the tree for itself, does not
/// rasterize the composite it fills the slots of, and leaves alone what
/// lies beside the slots it goes through.
pub proof fn lemma_visit_children_settles(
    layers: LayerTree,
    composites: CompositeTree,
    layer_id: LayerId,
    composite_id: CompositeId,
    from: int,
    slot: int,
)
    requires
        layers.wf(),
        layers.contains(layer_id),
        0 <= from,
        composites.wf(),
        composites.contains(composite_id),
        0 <= slot <= composites.arity(composite_id),
        visit_children(layers, composites, layer_id, composite_id, from, slot).issued <= usize::MAX,
    ensures
        ({
            let done = visit_children(layers, composites, layer_id, composite_id, from, slot);
            &&& settled_children(layers, done, layer_id, composite_id, from, slot)
            &&& same_beside(composites, done, composite_id, slot)
            &&& done.composites[composite_id].surface == composites.composites[composite_id].surface
        }),
    decreases layers.issued - layer_id, layers.layers[layer_id].children().len() - from,
{
    let children = layers.layers[layer_id].children();
    if from < children.len() {
        let child = layers.child(layer_id, from);
        assert(layers.contains(child));
        match compositing_reason_of(layers.layers[child]) {
            None => {
                lemma_visit_children_settles(layers, composites, layer_id, composite_id, from + 1, slot);
            },
            Some(reason) => {
                let created = composites.create_nth_child_if_not_exists(
                    composite_id,
                    slot,
                    child,
                    reason,
                ).0;
                let child_composite = created.child(composite_id, slot);
                let walked = visit(layers, created, child, child_composite);
                let done = visit_children(layers, walked, layer_id, composite_id, from + 1, slot + 1);
                // The three steps, and what each of them keeps.
                lemma_visit_issues(layers, created, child, child_composite);
                lemma_visit_children_issues(
                    layers,
                    walked,
                    layer_id,
                    composite_id,
                    from + 1,
                    slot + 1,
                );
                lemma_create_grows(layers, composites, composite_id, slot, child, reason);
                lemma_visit_grows(layers, created, child, child_composite);
                lemma_visit_settles(layers, created, child, child_composite);
                assert(created.contains(composite_id));
                assert(walked.contains(composite_id));
                assert(walked.child(composite_id, slot) == child_composite);
                lemma_visit_children_grows(
                    layers,
                    walked,
                    layer_id,
                    composite_id,
                    from + 1,
                    slot + 1,
                );
                lemma_visit_children_settles(
                    layers,
                    walked,
                    layer_id,
                    composite_id,
                    from + 1,
                    slot + 1,
                );
                assert(done.child(composite_id, slot) == child_composite);
                assert(created.is_child_at(child_composite, composite_id, slot));
                assert(walked.is_child_at(child_composite, composite_id, slot));
                lemma_parent(created, child_composite, composite_id, slot);
                // The composite that the slots are filled of is rasterized by none of them.
                assert(walked.composites[composite_id] == created.composites[composite_id]) by {
                    if under(created, composite_id, child_composite) {
                        lemma_under_is_later(created, composite_id, child_composite);
                    }
                }
                // What the walk into the child settled, the walk through the rest leaves alone.
                assert forall|x: CompositeId|
                    walked.contains(x) && #[trigger] under(
                        walked,
                        x,
                        child_composite,
                    ) implies done.composites[x] == walked.composites[x] by {
                    lemma_under_is_later(walked, x, child_composite);
                    assert forall|k: int| slot + 1 <= k < walked.arity(composite_id) implies !under(
                        walked,
                        x,
                        #[trigger] walked.child(composite_id, k),
                    ) by {
                        let other = walked.child(composite_id, k);
                        assert(walked.is_child_at(other, composite_id, k));
                        lemma_siblings_are_disjoint(
                            walked,
                            x,
                            child_composite,
                            other,
                            composite_id,
                            slot,
                            k,
                        );
                    }
                    assert(beside(walked, x, composite_id, slot + 1));
                }
                lemma_settled_carries_over(layers, walked, done, child, child_composite);
                // What lay beside the slots from `slot` on, none of the three steps touched.
                assert forall|x: CompositeId|
                    composites.contains(x) && #[trigger] beside(
                        composites,
                        x,
                        composite_id,
                        slot,
                    ) implies done.composites[x] == composites.composites[x] by {
                    assert(created.composites[x] == composites.composites[x]);
                    assert(created.contains(x));
                    assert(walked.contains(x));
                    assert(!under(created, x, child_composite)) by {
                        if slot < composites.arity(composite_id) {
                            assert(child_composite == composites.child(composite_id, slot));
                        } else {
                            if under(created, x, child_composite) {
                                lemma_under_is_later(created, x, child_composite);
                            }
                        }
                    }
                    assert(walked.composites[x] == created.composites[x]);
                    assert forall|k: int| slot + 1 <= k < walked.arity(composite_id) implies !under(
                        walked,
                        x,
                        #[trigger] walked.child(composite_id, k),
                    ) by {
                        let other = walked.child(composite_id, k);
                        if k < composites.arity(composite_id) {
                            assert(created.child(composite_id, k) == composites.child(composite_id, k));
                            assert(other == composites.child(composite_id, k));
                            lemma_grew_transitive(layers, composites, created, walked);
                            lemma_extension_keeps_under(walked, composites, x, other);
                        } else {
                            lemma_grew_transitive(layers, composites, created, walked);
                            assert(composites.issued < other);
                            if under(walked, x, other) {
                                lemma_under_is_later(walked, x, other);
                            }
                        }
                    }
                    assert(beside(walked, x, composite_id, slot + 1));
                }
            },
        }
    }
}

/// Synchronizing twice, with no change to the layers in between, gives
/// the composite tree that synchronizing once gives: the same ids, the
/// same children, the same surfaces.
pub proof fn synchronize_is_idempotent(layers: LayerTree, composites: CompositeTree)
    requires
        layers.wf(),
        composites.wf(),
        synchronized(layers, composites).issued <= usize::MAX,
    ensures
        synchronized(layers, synchronized(layers, composites)) == synchronized(layers, composites),
{
    let once = synchronized(layers, composites);
    assert(composites.contains(composites.root));
    lemma_visit_grows(layers, composites, layers.root, composites.root);
    lemma_visit_settles(layers, composites, layers.root, composites.root);
    assert(once.root == composites.root);
    lemma_settled_is_fixed(layers, once, layers.root, once.root);
}

} // verus!
