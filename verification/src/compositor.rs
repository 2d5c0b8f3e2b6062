//! The synchronizer: grows the composite tree to match the layer tree.
//!
//! The walk goes through the layers depth first, from the root, and
//! through the composites alongside. At a container it rasterizes the
//! container into the composite it arrived with, and gives each child
//! that has a compositing reason a slot among the children of that
//! composite, in the order of the layers: the n-th such child gets slot
//! n. An empty slot is filled with a fresh composite; a slot that is
//! taken is left as it is. The walk then goes on into the child with the
//! composite of its slot.

use vstd::prelude::*;
use crate::common::LayerId;
use crate::composite::{
    lemma_append_child_keeps_wf,
    lemma_replace_keeps_wf,
    CompositeId,
    CompositeRepository,
    CompositeTree,
};
use crate::compositing_reason::{compositing_reason_of, get_compositing_reason, CompositingReason};
use crate::container::{ContainerModel, ContainerProps};
use crate::geometry::Size;
use crate::layer_repository::{LayerRepository, LayerTree};
use crate::layer_types::{Layer, LayerModel};
use crate::rasterizer::{container_surface, rasterize_container_layer};

verus! {

/// `composites` with the composite `id` showing the container `props`.
pub open spec fn rasterized(composites: CompositeTree, id: CompositeId, props: ContainerModel)
    -> CompositeTree {
    composites.replace(id, composites.composites[id].with_surface(container_surface(props)))
}

/// The composite tree after the walk has gone through the layer
/// `layer_id` and everything below it, having arrived there with the
/// composite `composite_id`.
pub open spec fn visit(
    layers: LayerTree,
    composites: CompositeTree,
    layer_id: LayerId,
    composite_id: CompositeId,
) -> CompositeTree
    decreases layers.issued - layer_id, layers.layers[layer_id].children().len() + 1,
    when layers.wf() && layers.contains(layer_id)
{
    match layers.layers[layer_id] {
        LayerModel::Container(props) => visit_children(
            layers,
            rasterized(composites, composite_id, props),
            layer_id,
            composite_id,
            0,
            0,
        ),
        _ => composites,
    }
}

/// The composite tree after the walk has gone through the children
/// `from ..` of the container `layer_id`, of which the first that has a
/// compositing reason gets the slot `slot` of `composite_id`.
pub open spec fn visit_children(
    layers: LayerTree,
    composites: CompositeTree,
    layer_id: LayerId,
    composite_id: CompositeId,
    from: int,
    slot: int,
) -> CompositeTree
    decreases layers.issued - layer_id, layers.layers[layer_id].children().len() - from,
    when layers.wf() && layers.contains(layer_id) && 0 <= from
{
    let children = layers.layers[layer_id].children();
    if from >= children.len() {
        composites
    } else {
        let child = layers.child(layer_id, from);
        match compositing_reason_of(layers.layers[child]) {
            None => visit_children(layers, composites, layer_id, composite_id, from + 1, slot),
            Some(reason) => {
                let created = composites.create_nth_child_if_not_exists(
                    composite_id,
                    slot,
                    child,
                    reason,
                ).0;
                let walked = visit(layers, created, child, created.child(composite_id, slot));
                visit_children(layers, walked, layer_id, composite_id, from + 1, slot + 1)
            },
        }
    }
}

/// The composite tree after one synchronization with `layers`.
pub open spec fn synchronized(layers: LayerTree, composites: CompositeTree) -> CompositeTree {
    visit(layers, composites, layers.root, composites.root)
}

/// Every composite of `after` that `before` did not have is bound to a
/// layer of `layers` that has a compositing reason, and carries that
/// reason.
pub open spec fn promotes_only(layers: LayerTree, before: CompositeTree, after: CompositeTree)
    -> bool {
    forall|x: CompositeId|
        before.issued < x <= after.issued ==> {
            &&& layers.contains(#[trigger] after.composites[x].source_layer_id)
            &&& compositing_reason_of(layers.layers[after.composites[x].source_layer_id]) == Some(
                after.composites[x].compositing_reason,
            )
        }
}

/// `after` came out of `before` by steps of the walk: it is well-formed,
/// it extends `before`, and what it has more is there for a reason.
pub open spec fn grew(layers: LayerTree, before: CompositeTree, after: CompositeTree) -> bool {
    &&& after.wf()
    &&& after.extends(before)
    &&& promotes_only(layers, before, after)
}

/// What grew out of what grew out of a tree grew out of the tree.
pub proof fn lemma_grew_transitive(
    layers: LayerTree,
    first: CompositeTree,
    second: CompositeTree,
    third: CompositeTree,
)
    requires
        first.wf(),
        grew(layers, first, second),
        grew(layers, second, third),
    ensures
        grew(layers, first, third),
{
    assert forall|x: CompositeId| #[trigger] first.contains(x) implies {
        &&& third.composites[x].source_layer_id == first.composites[x].source_layer_id
        &&& third.composites[x].compositing_reason == first.composites[x].compositing_reason
        &&& third.composites[x].rect == first.composites[x].rect
        &&& first.arity(x) <= third.arity(x)
    } by {
        assert(second.contains(x));
    }
    assert forall|x: CompositeId, i: int|
        first.contains(x) && 0 <= i < first.arity(x) implies #[trigger] third.child(x, i)
        == first.child(x, i) by {}
    assert forall|x: CompositeId, i: int|
        first.contains(x) && first.arity(x) <= i < third.arity(x) implies first.issued
        < #[trigger] third.child(x, i) by {}
    assert forall|x: CompositeId| first.issued < x <= third.issued implies {
        &&& layers.contains(#[trigger] third.composites[x].source_layer_id)
        &&& compositing_reason_of(layers.layers[third.composites[x].source_layer_id]) == Some(
            third.composites[x].compositing_reason,
        )
    } by {
        if x <= second.issued {
            assert(second.contains(x));
        }
    }
}

/// The walk issues ids and takes none back.
pub proof fn lemma_visit_issues(
    layers: LayerTree,
    composites: CompositeTree,
    layer_id: LayerId,
    composite_id: CompositeId,
)
    requires
        layers.wf(),
        layers.contains(layer_id),
    ensures
        composites.issued <= visit(layers, composites, layer_id, composite_id).issued,
    decreases layers.issued - layer_id, layers.layers[layer_id].children().len() + 1,
{
    match layers.layers[layer_id] {
        LayerModel::Container(props) => {
            lemma_visit_children_issues(
                layers,
                rasterized(composites, composite_id, props),
                layer_id,
                composite_id,
                0,
                0,
            );
        },
        _ => {},
    }
}

/// The walk through the children issues ids and takes none back.
pub proof fn lemma_visit_children_issues(
    layers: LayerTree,
    composites: CompositeTree,
    layer_id: LayerId,
    composite_id: CompositeId,
    from: int,
    slot: int,
)
    requires
        layers.wf(),
        layers.contains(layer_id),
        0 <= from,
    ensures
        composites.issued <= visit_children(
            layers,
            composites,
            layer_id,
            composite_id,
            from,
            slot,
        ).issued,
    decreases layers.issued - layer_id, layers.layers[layer_id].children().len() - from,
{
    let children = layers.layers[layer_id].children();
    if from < children.len() {
        let child = layers.child(layer_id, from);
        match compositing_reason_of(layers.layers[child]) {
            None => {
                lemma_visit_children_issues(layers, composites, layer_id, composite_id, from + 1, slot);
            },
            Some(reason) => {
                let created = composites.create_nth_child_if_not_exists(
                    composite_id,
                    slot,
                    child,
                    reason,
                ).0;
                let walked = visit(layers, created, child, created.child(composite_id, slot));
                lemma_visit_issues(layers, created, child, created.child(composite_id, slot));
                lemma_visit_children_issues(
                    layers,
                    walked,
                    layer_id,
                    composite_id,
                    from + 1,
                    slot + 1,
                );
            },
        }
    }
}

/// What one step of filling a slot does to a well-formed tree, where the
/// slot is the next free one at most.
pub proof fn lemma_create_grows(
    layers: LayerTree,
    composites: CompositeTree,
    composite_id: CompositeId,
    slot: int,
    child: LayerId,
    reason: CompositingReason,
)
    requires
        composites.wf(),
        composites.contains(composite_id),
        0 <= slot <= composites.arity(composite_id),
        layers.contains(child),
        compositing_reason_of(layers.layers[child]) == Some(reason),
        composites.create_nth_child_if_not_exists(composite_id, slot, child, reason).0.issued
            <= usize::MAX,
    ensures
        ({
            let created = composites.create_nth_child_if_not_exists(
                composite_id,
                slot,
                child,
                reason,
            ).0;
            &&& grew(layers, composites, created)
            &&& slot < created.arity(composite_id)
            &&& created.contains(created.child(composite_id, slot))
            &&& created.composites[composite_id].surface
                == composites.composites[composite_id].surface
        }),
{
    if slot == composites.arity(composite_id) {
        lemma_append_child_keeps_wf(composites, composite_id, child, reason);
    }
}

/// The walk keeps a well-formed composite tree well-formed, and only
/// adds to it: see [`CompositeTree::extends`] and [`promotes_only`].
pub proof fn lemma_visit_grows(
    layers: LayerTree,
    composites: CompositeTree,
    layer_id: LayerId,
    composite_id: CompositeId,
)
    requires
        layers.wf(),
        layers.contains(layer_id),
        composites.wf(),
        composites.contains(composite_id),
        visit(layers, composites, layer_id, composite_id).issued <= usize::MAX,
    ensures
        grew(layers, composites, visit(layers, composites, layer_id, composite_id)),
    decreases layers.issued - layer_id, layers.layers[layer_id].children().len() + 1,
{
    match layers.layers[layer_id] {
        LayerModel::Container(props) => {
            let painted = rasterized(composites, composite_id, props);
            lemma_replace_keeps_wf(
                composites,
                composite_id,
                composites.composites[composite_id].with_surface(container_surface(props)),
            );
            lemma_visit_children_grows(layers, painted, layer_id, composite_id, 0, 0);
            lemma_grew_transitive(
                layers,
                composites,
                painted,
                visit_children(layers, painted, layer_id, composite_id, 0, 0),
            );
        },
        _ => {},
    }
}

/// The walk through the children keeps a well-formed composite tree
/// well-formed, and only adds to it.
pub proof fn lemma_visit_children_grows(
    layers: LayerTree,
    composites: CompositeTree,
    layer_id: LayerId,
    composite_id: CompositeId,
    from: int,
    slot: int,
)
    requires
        layers.wf(),
        layers.contains(layer_id),
        0 <= from,
        composites.wf(),
        composites.contains(composite_id),
        0 <= slot <= composites.arity(composite_id),
        visit_children(layers, composites, layer_id, composite_id, from, slot).issued <= usize::MAX,
    ensures
        grew(
            layers,
            composites,
            visit_children(layers, composites, layer_id, composite_id, from, slot),
        ),
    decreases layers.issued - layer_id, layers.layers[layer_id].children().len() - from,
{
    let children = layers.layers[layer_id].children();
    if from < children.len() {
        let child = layers.child(layer_id, from);
        match compositing_reason_of(layers.layers[child]) {
            None => {
                lemma_visit_children_grows(layers, composites, layer_id, composite_id, from + 1, slot);
            },
            Some(reason) => {
                let created = composites.create_nth_child_if_not_exists(
                    composite_id,
                    slot,
                    child,
                    reason,
                ).0;
                let child_composite = created.child(composite_id, slot);
                let walked = visit(layers, created, child, child_composite);
                let done = visit_children(layers, walked, layer_id, composite_id, from + 1, slot + 1);
                lemma_visit_issues(layers, created, child, child_composite);
                lemma_visit_children_issues(
                    layers,
                    walked,
                    layer_id,
                    composite_id,
                    from + 1,
                    slot + 1,
                );
                lemma_create_grows(layers, composites, composite_id, slot, child, reason);
                lemma_visit_grows(layers, created, child, child_composite);
                lemma_visit_children_grows(
                    layers,
                    walked,
                    layer_id,
                    composite_id,
                    from + 1,
                    slot + 1,
                );
                lemma_grew_transitive(layers, composites, created, walked);
                lemma_grew_transitive(layers, composites, walked, done);
            },
        }
    }
}

/// No leaf is ever given a composite: whatever composite a
/// synchronization creates is bound to a container of the layer tree, and
/// carries the reason for which that container has one.
pub proof fn synchronize_promotes_no_leaf(
    layers: LayerTree,
    composites: CompositeTree,
    created: CompositeId,
)
    requires
        layers.wf(),
        composites.wf(),
        synchronized(layers, composites).issued <= usize::MAX,
        synchronized(layers, composites).contains(created),
        !composites.contains(created),
    ensures
        ({
            let composite = synchronized(layers, composites).composites[created];
            &&& layers.contains(composite.source_layer_id)
            &&& layers.layers[composite.source_layer_id] is Container
            &&& compositing_reason_of(layers.layers[composite.source_layer_id]) == Some(
                composite.compositing_reason,
            )
        }),
{
    lemma_visit_grows(layers, composites, layers.root, composites.root);
}

/// Synchronizing takes no composite away and binds none to another
/// layer: the ids issued before stand for composites of the same layers,
/// and the ids issued by it are greater than all of them.
pub proof fn synchronize_keeps_composites(layers: LayerTree, composites: CompositeTree)
    requires
        layers.wf(),
        composites.wf(),
        synchronized(layers, composites).issued <= usize::MAX,
    ensures
        synchronized(layers, composites).wf(),
        synchronized(layers, composites).extends(composites),
{
    lemma_visit_grows(layers, composites, layers.root, composites.root);
}

/// The synchronizer.
#[derive(Debug)]
pub struct Compositor {
    /// The size of the scene that the composites are made for.
    pub size: Size,
}

impl Compositor {
    /// A synchronizer for a scene of no extent.
    pub fn new() -> (compositor: Compositor)
        ensures
            compositor.size == (Size { width: 0, height: 0 }),
    {
        Compositor { size: Size::new(0, 0) }
    }

    /// Grows the composite tree to match the layer tree: walks the layers
    /// from the root, alongside the composites from their root.
    ///
    /// No composite is removed, moved or bound to another layer; each one
    /// that a container arrives with is rasterized anew; each one that is
    /// created is bound to a container, and is the last child of its
    /// parent at the time.
    pub fn synchronize_composites(
        &mut self,
        layer_repo: &LayerRepository,
        composite_repo: &mut CompositeRepository,
    )
        requires
            layer_repo.wf(),
            old(composite_repo).wf(),
        ensures
            *final(self) == *old(self),
            final(composite_repo)@ == synchronized(layer_repo@, old(composite_repo)@),
            final(composite_repo).wf(),
            final(composite_repo)@.extends(old(composite_repo)@),
            promotes_only(layer_repo@, old(composite_repo)@, final(composite_repo)@),
    {
        let root_layer_id = *layer_repo.root_layer_id();
        let root_composite_id = *composite_repo.root_composite_id();
        self.visit(layer_repo, composite_repo, &root_layer_id, &root_composite_id);
    }

    fn visit(
        &mut self,
        layer_repo: &LayerRepository,
        composite_repo: &mut CompositeRepository,
        layer_id: &LayerId,
        composite_id: &CompositeId,
    )
        requires
            layer_repo.wf(),
            layer_repo@.contains(*layer_id),
            old(composite_repo).wf(),
            old(composite_repo)@.contains(*composite_id),
        ensures
            *final(self) == *old(self),
            final(composite_repo)@ == visit(
                layer_repo@,
                old(composite_repo)@,
                *layer_id,
                *composite_id,
            ),
            grew(layer_repo@, old(composite_repo)@, final(composite_repo)@),
        decreases layer_repo@.issued - *layer_id, 1nat,
    {
        match layer_repo.get_layer_by_id(layer_id) {
            Layer::Container(props) => {
                self.visit_container_layer(
                    layer_repo,
                    composite_repo,
                    props,
                    composite_id,
                    Ghost(*layer_id),
                );
            },
            _ => {},
        }
    }

    fn visit_container_layer(
        &mut self,
        layer_repo: &LayerRepository,
        composite_repo: &mut CompositeRepository,
        props: &ContainerProps,
        parent_composite_id: &CompositeId,
        Ghost(layer_id): Ghost<LayerId>,
    )
        requires
            layer_repo.wf(),
            layer_repo@.contains(layer_id),
            layer_repo@.layers[layer_id] == LayerModel::Container(props@),
            old(composite_repo).wf(),
            old(composite_repo)@.contains(*parent_composite_id),
        ensures
            *final(self) == *old(self),
            final(composite_repo)@ == visit(
                layer_repo@,
                old(composite_repo)@,
                layer_id,
                *parent_composite_id,
            ),
            grew(layer_repo@, old(composite_repo)@, final(composite_repo)@),
        decreases layer_repo@.issued - layer_id, 0nat,
    {
        let ghost layers = layer_repo@;
        let ghost before = composite_repo@;
        let composite = composite_repo.get_composite_by_id_mut(parent_composite_id);
        rasterize_container_layer(composite, props);
        let ghost painted = composite_repo@;
        proof {
            lemma_replace_keeps_wf(
                before,
                *parent_composite_id,
                before.composites[*parent_composite_id].with_surface(container_surface(props@)),
            );
        }
        let mut child_comp_idx: usize = 0;
        let mut child_layer_idx: usize = 0;
        while child_layer_idx < props.children.len()
            invariant
                *self == *old(self),
                layers == layer_repo@,
                layers.wf(),
                layers.contains(layer_id),
                layers.layers[layer_id] == LayerModel::Container(props@),
                child_layer_idx <= props@.children.len(),
                child_comp_idx <= child_layer_idx,
                painted.wf(),
                composite_repo.wf(),
                composite_repo@.contains(*parent_composite_id),
                child_comp_idx <= composite_repo@.arity(*parent_composite_id),
                grew(layers, painted, composite_repo@),
                visit_children(
                    layers,
                    composite_repo@,
                    layer_id,
                    *parent_composite_id,
                    child_layer_idx as int,
                    child_comp_idx as int,
                ) == visit_children(layers, painted, layer_id, *parent_composite_id, 0, 0),
            decreases props@.children.len() - child_layer_idx,
        {
            let ghost current = composite_repo@;
            let child_layer_id = props.children[child_layer_idx];
            let child_layer = layer_repo.get_layer_by_id(&child_layer_id);
            if let Some(compositing_reason) = get_compositing_reason(child_layer) {
                composite_repo.create_nth_child_if_not_exists(
                    parent_composite_id,
                    child_comp_idx,
                    &child_layer_id,
                    compositing_reason,
                );
                let ghost created = composite_repo@;
                proof {
                    lemma_create_grows(
                        layers,
                        current,
                        *parent_composite_id,
                        child_comp_idx as int,
                        child_layer_id,
                        compositing_reason,
                    );
                }
                let child_composite_id = composite_repo.get_composite_by_id(
                    parent_composite_id,
                ).children[child_comp_idx];
                self.visit(layer_repo, composite_repo, &child_layer_id, &child_composite_id);
                proof {
                    lemma_grew_transitive(layers, current, created, composite_repo@);
                    lemma_grew_transitive(layers, painted, current, composite_repo@);
                    assert(created.contains(*parent_composite_id));
                }
                child_comp_idx += 1;
            }
            child_layer_idx += 1;
        }
        proof {
            lemma_grew_transitive(layers, before, painted, composite_repo@);
        }
    }
}

} // verus!
