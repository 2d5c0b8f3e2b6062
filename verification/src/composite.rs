//! The composite tree: one node for each layer that is rendered into a
//! surface of its own.

use vstd::prelude::*;
use crate::common::LayerId;
use crate::compositing_reason::CompositingReason;
use crate::display_list::PaintCommand;
use crate::geometry::{Rect, Size};

verus! {

/// The identity of a composite within one repository.
pub type CompositeId = usize;

/// The retained drawing of one composite: how large its backing store is,
/// and the commands that paint it, in the coordinate space of the layer
/// that it belongs to.
#[derive(Debug, PartialEq)]
pub struct Surface {
    pub size: Size,
    pub commands: Vec<PaintCommand>,
}

/// A surface as contracts see it.
pub struct SurfaceModel {
    pub size: Size,
    pub commands: Seq<PaintCommand>,
}

impl View for Surface {
    type V = SurfaceModel;

    open spec fn view(&self) -> SurfaceModel {
        SurfaceModel { size: self.size, commands: self.commands@ }
    }
}

/// The rendering unit of one layer.
#[derive(Debug, PartialEq)]
pub struct Composite {
    /// The layer that this composite renders.
    pub source_layer_id: LayerId,
    pub compositing_reason: CompositingReason,
    /// The composites of the layers below, in the order of their
    /// creation.
    pub children: Vec<CompositeId>,
    /// Where the composite is placed.
    pub rect: Rect,
    /// What the composite shows, once it has been rasterized.
    pub surface: Option<Surface>,
}

/// A composite as contracts see it.
pub struct CompositeModel {
    pub source_layer_id: LayerId,
    pub compositing_reason: CompositingReason,
    pub children: Seq<CompositeId>,
    pub rect: Rect,
    pub surface: Option<SurfaceModel>,
}

impl View for Composite {
    type V = CompositeModel;

    open spec fn view(&self) -> CompositeModel {
        CompositeModel {
            source_layer_id: self.source_layer_id,
            compositing_reason: self.compositing_reason,
            children: self.children@,
            rect: self.rect,
            surface: match self.surface {
                Some(surface) => Some(surface@),
                None => None,
            },
        }
    }
}

impl CompositeModel {
    /// A composite as it is created: bound to its layer, without
    /// children, placed nowhere and not yet rasterized.
    pub open spec fn fresh(source_layer_id: LayerId, compositing_reason: CompositingReason)
        -> CompositeModel {
        CompositeModel {
            source_layer_id,
            compositing_reason,
            children: Seq::empty(),
            rect: Rect::zero(),
            surface: None,
        }
    }

    /// This composite with `child` as its new last child.
    pub open spec fn with_child(self, child: CompositeId) -> CompositeModel {
        CompositeModel { children: self.children.push(child), ..self }
    }

    /// This composite showing `surface`.
    pub open spec fn with_surface(self, surface: SurfaceModel) -> CompositeModel {
        CompositeModel { surface: Some(surface), ..self }
    }

    /// The two differ in nothing but what they show.
    pub open spec fn same_structure(self, other: CompositeModel) -> bool {
        &&& self.source_layer_id == other.source_layer_id
        &&& self.compositing_reason == other.compositing_reason
        &&& self.children == other.children
        &&& self.rect == other.rect
    }
}

/// The composite tree as contracts see it.
pub struct CompositeTree {
    /// The id of the root.
    pub root: CompositeId,
    /// How many ids have been issued. They are `1 ..= issued`, in the
    /// order of issue.
    pub issued: nat,
    /// The composite behind each issued id.
    pub composites: Map<CompositeId, CompositeModel>,
}

impl CompositeTree {
    /// `id` has been issued.
    pub open spec fn contains(self, id: CompositeId) -> bool {
        1 <= id <= self.issued
    }

    /// The `i`-th child of the composite `id`.
    pub open spec fn child(self, id: CompositeId, i: int) -> CompositeId {
        self.composites[id].children[i]
    }

    /// The number of children of the composite `id`.
    pub open spec fn arity(self, id: CompositeId) -> int {
        self.composites[id].children.len() as int
    }

    /// The id that the next composite will get.
    pub open spec fn next_id(self) -> CompositeId {
        (self.issued + 1) as CompositeId
    }

    /// `x` is the `i`-th child of the composite `parent`.
    pub open spec fn is_child_at(self, x: CompositeId, parent: CompositeId, i: int) -> bool {
        self.contains(parent) && 0 <= i < self.arity(parent) && self.child(parent, i) == x
    }

    /// The composites form a tree that grew by appending:
    /// - the root is the first composite;
    /// - the composites are those whose id has been issued;
    /// - a child was issued after its parent;
    /// - the children of a composite stand in the order in which they
    ///   were created;
    /// - no composite is a child twice, of one composite or of two.
    pub open spec fn wf(self) -> bool {
        &&& self.root == 1
        &&& 1 <= self.issued <= usize::MAX
        &&& forall|id: CompositeId| self.composites.contains_key(id) <==> self.contains(id)
        &&& forall|id: CompositeId, i: int|
            self.contains(id) && 0 <= i < self.arity(id)
                ==> id < #[trigger] self.child(id, i) <= self.issued
        &&& forall|id: CompositeId, i: int, j: int|
            self.contains(id) && 0 <= i < j < self.arity(id)
                ==> #[trigger] self.child(id, i) < #[trigger] self.child(id, j)
        &&& forall|x: CompositeId, p: CompositeId, i: int, q: CompositeId, j: int|
            #[trigger] self.is_child_at(x, p, i) && #[trigger] self.is_child_at(x, q, j)
                ==> p == q && i == j
    }

    /// The tree that holds nothing but the root composite, bound to the
    /// layer `root_layer_id`.
    pub open spec fn initial(root_layer_id: LayerId) -> CompositeTree {
        CompositeTree {
            root: 1,
            issued: 1,
            composites: Map::empty().insert(
                1,
                CompositeModel::fresh(root_layer_id, CompositingReason::NewCoordSystem),
            ),
        }
    }

    /// The tree with `composite` behind the next id, not yet the child of
    /// anything.
    pub open spec fn add(self, composite: CompositeModel) -> CompositeTree {
        CompositeTree {
            issued: self.issued + 1,
            composites: self.composites.insert(self.next_id(), composite),
            ..self
        }
    }

    /// The tree with `composite` in the place of the composite `id`.
    pub open spec fn replace(self, id: CompositeId, composite: CompositeModel) -> CompositeTree {
        CompositeTree { composites: self.composites.insert(id, composite), ..self }
    }

    /// The tree with a fresh composite for `source_layer_id` as the new
    /// last child of `parent`.
    pub open spec fn append_child(
        self,
        parent: CompositeId,
        source_layer_id: LayerId,
        compositing_reason: CompositingReason,
    ) -> CompositeTree {
        let added = self.add(CompositeModel::fresh(source_layer_id, compositing_reason));
        added.replace(parent, added.composites[parent].with_child(self.next_id()))
    }

    /// The tree in which `parent` has a child in slot `nth` if it can be
    /// had by appending one, and whether one was appended: the tree is
    /// left alone where the slot is taken, and gets a fresh composite for
    /// `source_layer_id` as the last child of `parent` where it is not.
    pub open spec fn create_nth_child_if_not_exists(
        self,
        parent: CompositeId,
        nth: int,
        source_layer_id: LayerId,
        compositing_reason: CompositingReason,
    ) -> (CompositeTree, bool) {
        if nth < self.arity(parent) {
            (self, false)
        } else {
            (self.append_child(parent, source_layer_id, compositing_reason), true)
        }
    }

    /// This tree grew out of `before`: every composite of `before` is
    /// still there, bound to the same layer for the same reason and placed
    /// where it was, and has the children it had in the slots they had;
    /// whatever it has beyond them was issued after `before`.
    pub open spec fn extends(self, before: CompositeTree) -> bool {
        &&& self.root == before.root
        &&& before.issued <= self.issued
        &&& forall|x: CompositeId| #[trigger]
            before.contains(x) ==> {
                &&& self.composites[x].source_layer_id == before.composites[x].source_layer_id
                &&& self.composites[x].compositing_reason
                    == before.composites[x].compositing_reason
                &&& self.composites[x].rect == before.composites[x].rect
                &&& before.arity(x) <= self.arity(x)
            }
        &&& forall|x: CompositeId, i: int|
            before.contains(x) && 0 <= i < before.arity(x)
                ==> #[trigger] self.child(x, i) == before.child(x, i)
        &&& forall|x: CompositeId, i: int|
            before.contains(x) && before.arity(x) <= i < self.arity(x)
                ==> before.issued < #[trigger] self.child(x, i)
    }
}

/// A well-formed tree is still one with one more composite that has no
/// children.
pub proof fn lemma_add_keeps_wf(tree: CompositeTree, composite: CompositeModel)
    requires
        tree.wf(),
        tree.issued < usize::MAX,
        composite.children.len() == 0,
    ensures
        tree.add(composite).wf(),
        tree.add(composite).extends(tree),
{
    let next = tree.add(composite);
    assert forall|id: CompositeId| next.composites.contains_key(id) <==> next.contains(id) by {
        assert(tree.composites.contains_key(id) <==> tree.contains(id));
    }
    assert forall|id: CompositeId, i: int| next.contains(id) && 0 <= i < next.arity(id) implies id
        < #[trigger] next.child(id, i) <= next.issued by {
        assert(next.child(id, i) == tree.child(id, i));
    }
    assert forall|id: CompositeId, i: int, j: int|
        next.contains(id) && 0 <= i < j < next.arity(id) implies #[trigger] next.child(id, i)
        < #[trigger] next.child(id, j) by {
        assert(next.child(id, i) == tree.child(id, i));
        assert(next.child(id, j) == tree.child(id, j));
    }
    assert forall|x: CompositeId, p: CompositeId, i: int, q: CompositeId, j: int|
        #[trigger] next.is_child_at(x, p, i) && #[trigger] next.is_child_at(x, q, j) implies p == q
        && i == j by {
        assert(tree.is_child_at(x, p, i));
        assert(tree.is_child_at(x, q, j));
    }
}

/// A well-formed tree is still one after a composite has been replaced by
/// one that differs only in what it shows.
pub proof fn lemma_replace_keeps_wf(tree: CompositeTree, id: CompositeId, composite: CompositeModel)
    requires
        tree.wf(),
        tree.contains(id),
        tree.composites[id].same_structure(composite),
    ensures
        tree.replace(id, composite).wf(),
        tree.replace(id, composite).extends(tree),
{
    let next = tree.replace(id, composite);
    assert forall|x: CompositeId| next.composites.contains_key(x) <==> next.contains(x) by {
        assert(tree.composites.contains_key(x) <==> tree.contains(x));
    }
    assert forall|x: CompositeId, i: int| next.contains(x) && 0 <= i < next.arity(x) implies x
        < #[trigger] next.child(x, i) <= next.issued by {
        assert(next.child(x, i) == tree.child(x, i));
    }
    assert forall|id: CompositeId, i: int, j: int|
        next.contains(id) && 0 <= i < j < next.arity(id) implies #[trigger] next.child(id, i)
        < #[trigger] next.child(id, j) by {
        assert(next.child(id, i) == tree.child(id, i));
        assert(next.child(id, j) == tree.child(id, j));
    }
    assert forall|x: CompositeId, p: CompositeId, i: int, q: CompositeId, j: int|
        #[trigger] next.is_child_at(x, p, i) && #[trigger] next.is_child_at(x, q, j) implies p == q
        && i == j by {
        assert(tree.is_child_at(x, p, i));
        assert(tree.is_child_at(x, q, j));
    }
    assert forall|x: CompositeId, i: int| tree.contains(x) && 0 <= i < tree.arity(x) implies
        #[trigger] next.child(x, i) == tree.child(x, i) by {}
}

/// A well-formed tree is still one after a fresh composite has become
/// the last child of one of its composites.
pub proof fn lemma_append_child_keeps_wf(
    tree: CompositeTree,
    parent: CompositeId,
    source_layer_id: LayerId,
    compositing_reason: CompositingReason,
)
    requires
        tree.wf(),
        tree.issued < usize::MAX,
        tree.contains(parent),
    ensures
        tree.append_child(parent, source_layer_id, compositing_reason).wf(),
        tree.append_child(parent, source_layer_id, compositing_reason).extends(tree),
        tree.append_child(parent, source_layer_id, compositing_reason).issued == tree.issued + 1,
        tree.append_child(parent, source_layer_id, compositing_reason).composites[parent]
            == tree.composites[parent].with_child(tree.next_id()),
        tree.append_child(parent, source_layer_id, compositing_reason).composites[tree.next_id()]
            == CompositeModel::fresh(source_layer_id, compositing_reason),
{
    let id = tree.next_id();
    let next = tree.append_child(parent, source_layer_id, compositing_reason);
    assert forall|x: CompositeId| next.composites.contains_key(x) <==> next.contains(x) by {
        assert(tree.composites.contains_key(x) <==> tree.contains(x));
    }
    assert forall|x: CompositeId, i: int| next.contains(x) && 0 <= i < next.arity(x) implies x
        < #[trigger] next.child(x, i) <= next.issued by {
        if x != id && i < tree.arity(x) {
            assert(next.child(x, i) == tree.child(x, i));
        }
    }
    assert forall|x: CompositeId, i: int, j: int|
        next.contains(x) && 0 <= i < j < next.arity(x) implies #[trigger] next.child(x, i)
        < #[trigger] next.child(x, j) by {
        if x != id {
            assert(next.child(x, i) == tree.child(x, i));
            if j < tree.arity(x) {
                assert(next.child(x, j) == tree.child(x, j));
            }
        }
    }
    assert forall|x: CompositeId, p: CompositeId, i: int, q: CompositeId, j: int|
        #[trigger] next.is_child_at(x, p, i) && #[trigger] next.is_child_at(x, q, j) implies p == q
        && i == j by {
        if x != id {
            assert(tree.is_child_at(x, p, i));
            assert(tree.is_child_at(x, q, j));
        } else {
            if p != parent || i != tree.arity(parent) {
                assert(next.child(p, i) == tree.child(p, i));
            }
            if q != parent || j != tree.arity(parent) {
                assert(next.child(q, j) == tree.child(q, j));
            }
        }
    }
    assert forall|x: CompositeId, i: int| tree.contains(x) && 0 <= i < tree.arity(x) implies
        #[trigger] next.child(x, i) == tree.child(x, i) by {}
    assert forall|x: CompositeId, i: int|
        tree.contains(x) && tree.arity(x) <= i < next.arity(x) implies tree.issued
        < #[trigger] next.child(x, i) by {}
}

/// Ids are issued in increasing order and none is issued twice: the id
/// that a new composite gets was not in use before, is in use in every
/// later state of the tree, and is less than the id that any later
/// composite gets.
pub proof fn composite_ids_increase(
    tree: CompositeTree,
    composite: CompositeModel,
    later: CompositeTree,
)
    requires
        tree.add(composite).issued <= later.issued < usize::MAX,
    ensures
        !tree.contains(tree.next_id()),
        tree.add(composite).contains(tree.next_id()),
        later.contains(tree.next_id()),
        tree.next_id() < later.next_id(),
{
}

/// The owner of the composite tree.
pub struct CompositeRepository {
    /// The composite with id `i` is `composites[i - 1]`.
    composites: Vec<Composite>,
    root_composite_id: CompositeId,
}

impl View for CompositeRepository {
    type V = CompositeTree;

    closed spec fn view(&self) -> CompositeTree {
        CompositeTree {
            root: self.root_composite_id,
            issued: self.composites@.len(),
            composites: Map::new(
                |id: CompositeId| 1 <= id <= self.composites@.len(),
                |id: CompositeId| self.composites@[id - 1]@,
            ),
        }
    }
}

impl CompositeRepository {
    /// The composites form a tree: see [`CompositeTree::wf`].
    pub open spec fn wf(&self) -> bool {
        self@.wf()
    }

    /// A repository whose only composite is the root, bound to the root
    /// of the layer tree.
    pub fn new(root_layer_id: &LayerId) -> (repo: CompositeRepository)
        ensures
            repo@ == CompositeTree::initial(*root_layer_id),
            repo.wf(),
    {
        let mut composites: Vec<Composite> = Vec::new();
        composites.push(
            Composite {
                source_layer_id: *root_layer_id,
                compositing_reason: CompositingReason::NewCoordSystem,
                children: Vec::new(),
                rect: Rect::zero(),
                surface: None,
            },
        );
        let repo = CompositeRepository { composites, root_composite_id: 1 };
        assert(repo@.composites =~= CompositeTree::initial(*root_layer_id).composites);
        assert(repo@.wf()) by {
            assert forall|x: CompositeId, p: CompositeId, i: int, q: CompositeId, j: int|
                #[trigger] repo@.is_child_at(x, p, i) && #[trigger] repo@.is_child_at(
                    x,
                    q,
                    j,
                ) implies p == q && i == j by {}
        }
        repo
    }

    /// The number of composites, which is the greatest id in use.
    pub fn len(&self) -> (len: usize)
        ensures
            len == self@.issued,
    {
        self.composites.len()
    }

    /// Whether `id` is the id of a composite.
    pub fn contains(&self, id: &CompositeId) -> (found: bool)
        ensures
            found == self@.contains(*id),
    {
        1 <= *id && *id <= self.composites.len()
    }

    pub fn root_composite_id(&self) -> (id: &CompositeId)
        ensures
            *id == self@.root,
    {
        &self.root_composite_id
    }

    /// The composite behind `id`.
    pub fn get_composite_by_id(&self, id: &CompositeId) -> (composite: &Composite)
        requires
            self@.contains(*id),
        ensures
            composite@ == self@.composites[*id],
    {
        &self.composites[*id - 1]
    }

    /// The composite behind `id`, to be changed in place. Whatever it is
    /// changed into stands behind `id` afterwards; nothing else changes.
    pub fn get_composite_by_id_mut(&mut self, id: &CompositeId) -> (composite: &mut Composite)
        requires
            old(self)@.contains(*id),
        ensures
            composite@ == old(self)@.composites[*id],
            final(self)@ == old(self)@.replace(*id, final(composite)@),
            old(self).wf() && old(self)@.composites[*id].same_structure(final(composite)@)
                ==> final(self).wf(),
    {
        let index: usize = *id - 1;
        proof {
            let before = old(self)@;
            assert forall|composite: CompositeModel|
                before.wf() && before.composites[*id].same_structure(composite)
                implies #[trigger] before.replace(*id, composite).wf() by {
                lemma_replace_keeps_wf(before, *id, composite);
            }
            assert forall|composite: Composite|
                final(self).composites@ == old(self).composites@.update(
                    index as int,
                    composite,
                ) implies final(self)@.composites == before.replace(*id, composite@).composites by {}
        }
        &mut self.composites[index]
    }

    /// Takes `composite` into the repository and returns its id, which is
    /// greater than every id issued before. The composite is not made the
    /// child of anything.
    pub fn new_composite(&mut self, composite: Composite) -> (id: CompositeId)
        ensures
            id == old(self)@.next_id(),
            id == old(self)@.issued + 1,
            final(self)@ == old(self)@.add(composite@),
            old(self).wf() && composite@.children.len() == 0 ==> final(self).wf(),
    {
        let ghost before = self@;
        self.composites.push(composite);
        let id = self.composites.len();
        proof {
            assert(self@.composites =~= before.add(composite@).composites);
            if before.wf() && composite@.children.len() == 0 {
                lemma_add_keeps_wf(before, composite@);
            }
        }
        id
    }

    /// Sees to it that `parent_composite_id` has a child in slot `nth`,
    /// as far as appending one child can: where the slot is empty, a
    /// fresh composite for `source_layer_id` becomes the last child.
    /// Returns whether it did. A composite that is in the slot already
    /// stays as it is, whatever layer it is bound to.
    pub fn create_nth_child_if_not_exists(
        &mut self,
        parent_composite_id: &CompositeId,
        nth: usize,
        source_layer_id: &LayerId,
        compositing_reason: CompositingReason,
    ) -> (created: bool)
        requires
            old(self)@.contains(*parent_composite_id),
        ensures
            (final(self)@, created) == old(self)@.create_nth_child_if_not_exists(
                *parent_composite_id,
                nth as int,
                *source_layer_id,
                compositing_reason,
            ),
            old(self).wf() ==> final(self).wf(),
    {
        let ghost before = self@;
        let have_no_matching_composite = nth >= self.get_composite_by_id(
            parent_composite_id,
        ).children.len();
        if have_no_matching_composite {
            let child_composite_id = self.new_composite(
                Composite {
                    source_layer_id: *source_layer_id,
                    compositing_reason,
                    children: Vec::new(),
                    rect: Rect::zero(),
                    surface: None,
                },
            );
            let parent_composite = self.get_composite_by_id_mut(parent_composite_id);
            parent_composite.children.push(child_composite_id);
            proof {
                if before.wf() {
                    lemma_append_child_keeps_wf(
                        before,
                        *parent_composite_id,
                        *source_layer_id,
                        compositing_reason,
                    );
                }
            }
        }
        have_no_matching_composite
    }
}

} // verus!
