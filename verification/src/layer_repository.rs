//! The layer tree: every layer of a scene, addressed by its id.

use vstd::prelude::*;
use crate::common::{CompositingFlag, LayerId, Opacity};
use crate::container::{ContainerModel, ContainerProps};
use crate::geometry::{lemma_anchored_has_room, Point, Rect, Size, Transform};
use crate::layer_types::{Layer, LayerModel};
use crate::rect::RectProps;
use crate::sample::{SampleLayerCreationCommand, SampleLayerProps};

verus! {

/// The layer tree as contracts see it.
pub struct LayerTree {
    /// The id of the root.
    pub root: LayerId,
    /// How many ids have been issued. They are `1 ..= issued`, in the
    /// order of issue.
    pub issued: nat,
    /// The layer behind each issued id.
    pub layers: Map<LayerId, LayerModel>,
    /// The pending work recorded for later passes.
    pub flags: Seq<CompositingFlag>,
}

impl LayerTree {
    /// `id` has been issued.
    pub open spec fn contains(self, id: LayerId) -> bool {
        1 <= id <= self.issued
    }

    /// The `i`-th child of the layer `id`.
    pub open spec fn child(self, id: LayerId, i: int) -> LayerId {
        self.layers[id].children()[i]
    }

    /// The number of children of the layer `id`.
    pub open spec fn arity(self, id: LayerId) -> int {
        self.layers[id].children().len() as int
    }

    /// The id that the next layer will get.
    pub open spec fn next_id(self) -> LayerId {
        (self.issued + 1) as LayerId
    }

    /// `x` is the `i`-th child of the layer `parent`.
    pub open spec fn is_child_at(self, x: LayerId, parent: LayerId, i: int) -> bool {
        self.contains(parent) && 0 <= i < self.arity(parent) && self.child(parent, i) == x
    }

    /// `x` is a child of some layer.
    pub open spec fn has_parent(self, x: LayerId) -> bool {
        exists|parent: LayerId, i: int| self.is_child_at(x, parent, i)
    }

    /// The layers form a tree that grew by appending:
    /// - the root is the first layer, and it is a container;
    /// - the layers are those whose id has been issued;
    /// - a child was issued after its parent;
    /// - the children of a container stand in the order in which they
    ///   were created;
    /// - no layer is a child twice, of one container or of two;
    /// - every layer but the root is a child.
    pub open spec fn wf(self) -> bool {
        &&& self.root == 1
        &&& 1 <= self.issued <= usize::MAX
        &&& forall|id: LayerId| self.layers.contains_key(id) <==> self.contains(id)
        &&& self.layers[self.root] is Container
        &&& forall|id: LayerId, i: int|
            self.contains(id) && 0 <= i < self.arity(id)
                ==> id < #[trigger] self.child(id, i) <= self.issued
        &&& forall|id: LayerId, i: int, j: int|
            self.contains(id) && 0 <= i < j < self.arity(id)
                ==> #[trigger] self.child(id, i) < #[trigger] self.child(id, j)
        &&& forall|x: LayerId, p: LayerId, i: int, q: LayerId, j: int|
            #[trigger] self.is_child_at(x, p, i) && #[trigger] self.is_child_at(x, q, j)
                ==> p == q && i == j
        &&& forall|id: LayerId|
            self.contains(id) && id != self.root ==> #[trigger] self.has_parent(id)
    }

    /// The tree that holds nothing but an opaque, empty root container of
    /// the given size at the origin.
    pub open spec fn initial(size: Size) -> LayerTree {
        LayerTree {
            root: 1,
            issued: 1,
            layers: Map::empty().insert(
                1,
                LayerModel::Container(
                    ContainerModel {
                        content_rect: Rect { origin: Point { x: 0, y: 0 }, size },
                        border: None,
                        fill: None,
                        opacity: Opacity::opaque(),
                        children: Seq::empty(),
                    },
                ),
            ),
            flags: Seq::empty(),
        }
    }

    /// `parent` can take a new child: it is a container of this tree.
    pub open spec fn accepts_child(self, parent: LayerId) -> bool {
        self.contains(parent) && self.layers[parent] is Container
    }

    /// The tree after `layer` has been created under `parent`: `layer`
    /// stands behind the next id, and that id is the last child of
    /// `parent`.
    pub open spec fn create(self, parent: LayerId, layer: LayerModel) -> LayerTree {
        LayerTree {
            issued: self.issued + 1,
            layers: self.layers.insert(
                parent,
                self.layers[parent].with_child(self.next_id()),
            ).insert(self.next_id(), layer),
            ..self
        }
    }

    /// Each of `children` is a layer of this tree.
    pub open spec fn admits(self, children: Seq<LayerId>) -> bool {
        forall|i: int| 0 <= i < children.len() ==> self.contains(#[trigger] children[i])
    }

    /// A bound on the number of levels that lie under a layer with these
    /// children: none under a leaf, and fewer under each child than under
    /// its parent.
    pub open spec fn rank(self, children: Seq<LayerId>) -> nat {
        (self.issued + 1 - lowest(children, (self.issued + 1) as int)) as nat
    }

    /// The tree with `layer` in the place of the layer `id`.
    pub open spec fn replace(self, id: LayerId, layer: LayerModel) -> LayerTree {
        LayerTree { layers: self.layers.insert(id, layer), ..self }
    }
}

/// The smallest of `ids` and `cap`.
pub open spec fn lowest(ids: Seq<LayerId>, cap: int) -> int
    decreases ids.len(),
{
    if ids.len() == 0 {
        cap
    } else {
        let rest = lowest(ids.drop_last(), cap);
        if ids.last() < rest {
            ids.last() as int
        } else {
            rest
        }
    }
}

/// `lowest` is a lower bound of `cap` and of each of `ids`.
pub proof fn lemma_lowest_is_lower_bound(ids: Seq<LayerId>, cap: int)
    ensures
        lowest(ids, cap) <= cap,
        forall|i: int| 0 <= i < ids.len() ==> lowest(ids, cap) <= #[trigger] ids[i],
    decreases ids.len(),
{
    if ids.len() > 0 {
        lemma_lowest_is_lower_bound(ids.drop_last(), cap);
        assert forall|i: int| 0 <= i < ids.len() implies lowest(ids, cap) <= #[trigger] ids[i] by {
            if i < ids.len() - 1 {
                assert(ids.drop_last()[i] == ids[i]);
            }
        }
    }
}

/// `lowest` is above whatever `cap` and each of `ids` are above.
pub proof fn lemma_lowest_is_above(ids: Seq<LayerId>, cap: int, bound: int)
    requires
        bound < cap,
        forall|i: int| 0 <= i < ids.len() ==> bound < #[trigger] ids[i],
    ensures
        bound < lowest(ids, cap),
    decreases ids.len(),
{
    if ids.len() > 0 {
        let front = ids.drop_last();
        assert forall|i: int| 0 <= i < front.len() implies bound < #[trigger] front[i] by {}
        lemma_lowest_is_above(ids.drop_last(), cap, bound);
    }
}

/// The children of a layer of a tree are layers of the tree.
pub proof fn lemma_children_are_layers(tree: LayerTree, id: LayerId)
    requires
        tree.wf(),
        tree.contains(id),
    ensures
        tree.admits(tree.layers[id].children()),
{
    let children = tree.layers[id].children();
    assert forall|i: int| 0 <= i < children.len() implies tree.contains(#[trigger] children[i]) by {
        assert(children[i] == tree.child(id, i));
    }
}

/// Going from a list of children to the children of one of them lowers
/// the rank, and leads to layers of the tree again.
pub proof fn lemma_rank_of_child(tree: LayerTree, children: Seq<LayerId>, i: int)
    requires
        tree.wf(),
        tree.admits(children),
        0 <= i < children.len(),
    ensures
        tree.contains(children[i]),
        tree.admits(tree.layers[children[i]].children()),
        tree.rank(tree.layers[children[i]].children()) < tree.rank(children),
        tree.rank(children) <= tree.issued,
{
    let child = children[i];
    let below = tree.layers[child].children();
    let cap: int = (tree.issued + 1) as int;
    lemma_lowest_is_lower_bound(children, cap);
    lemma_lowest_is_above(children, cap, 0);
    lemma_children_are_layers(tree, child);
    assert forall|k: int| 0 <= k < below.len() implies child < #[trigger] below[k] by {
        assert(below[k] == tree.child(child, k));
    }
    lemma_lowest_is_above(below, cap, child as int);
    lemma_lowest_is_lower_bound(below, cap);
}

/// No list of layers of a tree has more levels under it than the tree
/// has layers, so an anchored transform has room for them all.
pub proof fn lemma_rank_is_bounded(tree: LayerTree, children: Seq<LayerId>, transform: Transform)
    requires
        tree.wf(),
        tree.admits(children),
    ensures
        tree.rank(children) <= tree.issued,
        transform.anchored() ==> transform.has_room(tree.rank(children) + 1),
{
    lemma_lowest_is_above(children, (tree.issued + 1) as int, 0);
    if transform.anchored() {
        lemma_anchored_has_room(transform, tree.rank(children) + 1);
    }
}

/// A well-formed tree is still one after a childless layer has been
/// created under one of its containers.
pub proof fn lemma_create_keeps_wf(tree: LayerTree, parent: LayerId, layer: LayerModel)
    requires
        tree.wf(),
        tree.issued < usize::MAX,
        tree.accepts_child(parent),
        layer.children().len() == 0,
    ensures
        tree.create(parent, layer).wf(),
{
    let next = tree.create(parent, layer);
    let id = tree.next_id();
    assert forall|x: LayerId| next.layers.contains_key(x) <==> next.contains(x) by {
        assert(tree.layers.contains_key(x) <==> tree.contains(x));
    }
    assert forall|x: LayerId, i: int| next.contains(x) && 0 <= i < next.arity(x) implies x
        < #[trigger] next.child(x, i) <= next.issued by {
        if x != id && i < tree.arity(x) {
            assert(next.child(x, i) == tree.child(x, i));
        }
    }
    assert forall|x: LayerId, i: int, j: int|
        next.contains(x) && 0 <= i < j < next.arity(x) implies #[trigger] next.child(x, i)
        < #[trigger] next.child(x, j) by {
        if x != id {
            assert(next.child(x, i) == tree.child(x, i));
            if j < tree.arity(x) {
                assert(next.child(x, j) == tree.child(x, j));
            }
        }
    }
    assert forall|x: LayerId, p: LayerId, i: int, q: LayerId, j: int|
        #[trigger] next.is_child_at(x, p, i) && #[trigger] next.is_child_at(x, q, j) implies p == q
        && i == j by {
        if x != id {
            assert(tree.is_child_at(x, p, i));
            assert(tree.is_child_at(x, q, j));
        } else {
            if p != parent || i != tree.arity(parent) {
                assert(next.child(p, i) == tree.child(p, i));
            }
            if q != parent || j != tree.arity(parent) {
                assert(next.child(q, j) == tree.child(q, j));
            }
        }
    }
    assert forall|x: LayerId| next.contains(x) && x != next.root implies #[trigger] next.has_parent(
        x,
    ) by {
        if x == id {
            assert(next.is_child_at(x, parent, tree.arity(parent)));
        } else {
            assert(tree.has_parent(x));
            let (p, i) = choose|p: LayerId, i: int| tree.is_child_at(x, p, i);
            assert(next.is_child_at(x, p, i));
        }
    }
}

/// A well-formed tree is still one after a layer has been replaced by one
/// of the same structure.
pub proof fn lemma_replace_keeps_wf(tree: LayerTree, id: LayerId, layer: LayerModel)
    requires
        tree.wf(),
        tree.contains(id),
        tree.layers[id].same_structure(layer),
    ensures
        tree.replace(id, layer).wf(),
{
    let next = tree.replace(id, layer);
    assert forall|x: LayerId| next.layers.contains_key(x) <==> next.contains(x) by {
        assert(tree.layers.contains_key(x) <==> tree.contains(x));
    }
    assert forall|x: LayerId, i: int| next.contains(x) && 0 <= i < next.arity(x) implies x
        < #[trigger] next.child(x, i) <= next.issued by {
        assert(next.child(x, i) == tree.child(x, i));
    }
    assert forall|x: LayerId, i: int, j: int|
        next.contains(x) && 0 <= i < j < next.arity(x) implies #[trigger] next.child(x, i)
        < #[trigger] next.child(x, j) by {
        assert(next.child(x, i) == tree.child(x, i));
        assert(next.child(x, j) == tree.child(x, j));
    }
    assert forall|x: LayerId, p: LayerId, i: int, q: LayerId, j: int|
        #[trigger] next.is_child_at(x, p, i) && #[trigger] next.is_child_at(x, q, j) implies p == q
        && i == j by {
        assert(tree.is_child_at(x, p, i));
        assert(tree.is_child_at(x, q, j));
    }
    assert forall|x: LayerId| next.contains(x) && x != next.root implies #[trigger] next.has_parent(
        x,
    ) by {
        assert(tree.has_parent(x));
        let (p, i) = choose|p: LayerId, i: int| tree.is_child_at(x, p, i);
        assert(next.is_child_at(x, p, i));
    }
}

/// Ids are issued in increasing order and none is issued twice: the id
/// that a creation issues was not in use before, is in use in every
/// later state of the tree, and is less than the id that any later
/// creation issues.
pub proof fn layer_ids_increase(
    tree: LayerTree,
    parent: LayerId,
    layer: LayerModel,
    later: LayerTree,
)
    requires
        tree.create(parent, layer).issued <= later.issued < usize::MAX,
    ensures
        !tree.contains(tree.next_id()),
        tree.create(parent, layer).contains(tree.next_id()),
        later.contains(tree.next_id()),
        tree.next_id() < later.next_id(),
{
}

/// The owner of the layer tree.
pub struct LayerRepository {
    root_layer_id: LayerId,
    /// The layer with id `i` is `layers[i - 1]`.
    layers: Vec<Layer>,
    flags: Vec<CompositingFlag>,
}

impl View for LayerRepository {
    type V = LayerTree;

    closed spec fn view(&self) -> LayerTree {
        LayerTree {
            root: self.root_layer_id,
            issued: self.layers@.len(),
            layers: Map::new(
                |id: LayerId| 1 <= id <= self.layers@.len(),
                |id: LayerId| self.layers@[id - 1]@,
            ),
            flags: self.flags@,
        }
    }
}

impl LayerRepository {
    /// The layers form a tree: see [`LayerTree::wf`].
    pub open spec fn wf(&self) -> bool {
        self@.wf()
    }

    /// A repository whose only layer is the root: an opaque, empty
    /// container of the given size at the origin.
    pub fn new(initial_size: Size) -> (repo: LayerRepository)
        ensures
            repo@ == LayerTree::initial(initial_size),
            repo.wf(),
    {
        let mut layers: Vec<Layer> = Vec::new();
        layers.push(
            Layer::Container(
                ContainerProps {
                    content_rect: Rect::new(Point::origin(), initial_size),
                    opacity: Opacity::opaque(),
                    border: None,
                    fill: None,
                    children: Vec::new(),
                },
            ),
        );
        let repo = LayerRepository { root_layer_id: 1, layers, flags: Vec::new() };
        assert(repo@.layers =~= LayerTree::initial(initial_size).layers);
        repo
    }

    /// The number of layers, which is the greatest id in use.
    pub fn len(&self) -> (len: usize)
        ensures
            len == self@.issued,
    {
        self.layers.len()
    }

    /// Whether `id` is the id of a layer.
    pub fn contains(&self, id: &LayerId) -> (found: bool)
        ensures
            found == self@.contains(*id),
    {
        1 <= *id && *id <= self.layers.len()
    }

    /// Whether `id` is the id of a container: whether a layer can be
    /// created under it.
    pub fn is_container(&self, id: &LayerId) -> (container: bool)
        ensures
            container == self@.accepts_child(*id),
    {
        if 1 <= *id && *id <= self.layers.len() {
            match &self.layers[*id - 1] {
                Layer::Container(_) => true,
                _ => false,
            }
        } else {
            false
        }
    }

    /// Creates a sample layer that draws into `content_rect`, as the last
    /// child of `parent_id`.
    pub fn create_sample_layer(
        &mut self,
        parent_id: &LayerId,
        content_rect: &Rect,
    ) -> (layer_id: LayerId)
        requires
            old(self)@.accepts_child(*parent_id),
        ensures
            layer_id == old(self)@.next_id(),
            final(self)@ == old(self)@.create(
                *parent_id,
                LayerModel::Sample(
                    SampleLayerProps::new(SampleLayerCreationCommand(*content_rect)),
                ),
            ),
            old(self).wf() ==> final(self).wf(),
    {
        self.create_layer(
            parent_id,
            Layer::Sample(SampleLayerProps::new(SampleLayerCreationCommand(*content_rect))),
        )
    }

    /// Creates a rectangle leaf as the last child of `parent_id`.
    pub fn create_rect_layer(
        &mut self,
        parent_id: &LayerId,
        props: RectProps,
    ) -> (layer_id: LayerId)
        requires
            old(self)@.accepts_child(*parent_id),
        ensures
            layer_id == old(self)@.next_id(),
            final(self)@ == old(self)@.create(*parent_id, LayerModel::Rect(props)),
            old(self).wf() ==> final(self).wf(),
    {
        self.create_layer(parent_id, Layer::Rect(props))
    }

    /// Creates a container as the last child of `parent_id`.
    pub fn create_container_layer(
        &mut self,
        parent_id: &LayerId,
        props: ContainerProps,
    ) -> (layer_id: LayerId)
        requires
            old(self)@.accepts_child(*parent_id),
        ensures
            layer_id == old(self)@.next_id(),
            final(self)@ == old(self)@.create(*parent_id, LayerModel::Container(props@)),
            old(self).wf() && props@.children.len() == 0 ==> final(self).wf(),
    {
        self.create_layer(parent_id, Layer::Container(props))
    }

    /// Creates `layer` as the last child of `parent_id` and returns its
    /// id, which is greater than every id issued before.
    ///
    /// The tree stays well-formed when the new layer brings no children
    /// of its own.
    pub fn create_layer(&mut self, parent_id: &LayerId, layer: Layer) -> (layer_id: LayerId)
        requires
            old(self)@.accepts_child(*parent_id),
        ensures
            layer_id == old(self)@.next_id(),
            layer_id == old(self)@.issued + 1,
            final(self)@ == old(self)@.create(*parent_id, layer@),
            old(self).wf() && layer@.children().len() == 0 ==> final(self).wf(),
    {
        let ghost before = self@;
        self.layers.push(layer);
        let layer_id = self.layers.len();
        self.push_child_to_container(parent_id, &layer_id);
        proof {
            assert(self@.layers =~= before.create(*parent_id, layer@).layers);
            if before.wf() && layer@.children().len() == 0 {
                lemma_create_keeps_wf(before, *parent_id, layer@);
            }
        }
        layer_id
    }

    /// The properties of the root.
    pub fn root_container_layer(&self) -> (props: &ContainerProps)
        requires
            self.wf(),
        ensures
            self@.layers[self@.root] == LayerModel::Container(props@),
    {
        match &self.layers[self.root_layer_id - 1] {
            Layer::Container(props) => props,
            _ => vstd::pervasive::unreached(),
        }
    }

    pub fn root_layer_id(&self) -> (id: &LayerId)
        ensures
            *id == self@.root,
    {
        &self.root_layer_id
    }

    /// The layer behind `id`.
    pub fn get_layer_by_id(&self, id: &LayerId) -> (layer: &Layer)
        requires
            self@.contains(*id),
        ensures
            layer@ == self@.layers[*id],
    {
        &self.layers[*id - 1]
    }

    /// The layer behind `id`, to be changed in place. Whatever it is
    /// changed into stands behind `id` afterwards; nothing else changes.
    pub fn get_layer_by_id_mut(&mut self, id: &LayerId) -> (layer: &mut Layer)
        requires
            old(self)@.contains(*id),
        ensures
            layer@ == old(self)@.layers[*id],
            final(self)@ == old(self)@.replace(*id, final(layer)@),
            old(self).wf() && old(self)@.layers[*id].same_structure(final(layer)@)
                ==> final(self).wf(),
    {
        let index: usize = *id - 1;
        proof {
            let before = old(self)@;
            // Whatever the layer is changed into, the tree is the old one
            // with that layer in its place.
            assert forall|layer: Layer|
                final(self).layers@ == old(self).layers@.update(index as int, layer)
                implies final(self)@.layers == before.replace(*id, layer@).layers by {}
            assert forall|layer: LayerModel|
                before.wf() && before.layers[*id].same_structure(layer)
                implies #[trigger] before.replace(*id, layer).wf() by {
                lemma_replace_keeps_wf(before, *id, layer);
            }
        }
        &mut self.layers[index]
    }

    /// The root.
    pub fn get_root_layer(&self) -> (layer: &Layer)
        requires
            self.wf(),
        ensures
            layer@ == self@.layers[self@.root],
    {
        &self.layers[self.root_layer_id - 1]
    }

    /// The root, to be changed in place.
    pub fn get_root_layer_mut(&mut self) -> (layer: &mut Layer)
        requires
            old(self).wf(),
        ensures
            layer@ == old(self)@.layers[old(self)@.root],
            final(self)@ == old(self)@.replace(old(self)@.root, final(layer)@),
            old(self)@.layers[old(self)@.root].same_structure(final(layer)@) ==> final(self).wf(),
    {
        let id: LayerId = self.root_layer_id;
        self.get_layer_by_id_mut(&id)
    }

    /// Clears every recorded flag. The layers are left alone.
    pub fn clear_all_flags(&mut self)
        ensures
            final(self)@.flags.len() == old(self)@.flags.len(),
            forall|i: int| 0 <= i < final(self)@.flags.len() ==> final(self)@.flags[i].is_clear(),
            final(self)@.root == old(self)@.root,
            final(self)@.issued == old(self)@.issued,
            final(self)@.layers == old(self)@.layers,
    {
        let mut i: usize = 0;
        while i < self.flags.len()
            invariant
                i <= self.flags.len(),
                self.flags.len() == old(self).flags.len(),
                self.layers == old(self).layers,
                self.root_layer_id == old(self).root_layer_id,
                forall|k: int| 0 <= k < i ==> self.flags@[k].is_clear(),
            decreases self.flags.len() - i,
        {
            let mut flag = self.flags[i];
            flag.clear();
            self.flags.set(i, flag);
            i += 1;
        }
    }

    fn push_child_to_container(&mut self, parent_id: &LayerId, child_id: &LayerId)
        requires
            1 <= *parent_id <= old(self).layers@.len(),
            old(self).layers@[*parent_id - 1] is Container,
        ensures
            final(self).root_layer_id == old(self).root_layer_id,
            final(self).flags == old(self).flags,
            final(self).layers@.len() == old(self).layers@.len(),
            forall|i: int|
                0 <= i < old(self).layers@.len() && i != *parent_id - 1
                    ==> final(self).layers@[i] == old(self).layers@[i],
            final(self).layers@[*parent_id - 1]@
                == old(self).layers@[*parent_id - 1]@.with_child(*child_id),
    {
        let index: usize = *parent_id - 1;
        match &mut self.layers[index] {
            Layer::Container(props) => {
                props.children.push(*child_id);
            },
            _ => vstd::pervasive::unreached(),
        }
    }
}

} // verus!
