//! Where the walk paints what: every layer under the translations of
//! the containers around it, composed.

use vstd::prelude::*;
use crate::common::{Border, Fill, LayerId, Opacity};
use crate::display_list::PaintCommand;
use crate::geometry::{lemma_post_translate_room, lemma_room_for_fewer, Rect, Transform};
use crate::layer_renderer::{
    box_commands,
    children_commands,
    grouped,
    layer_commands,
    rect_commands,
    scene_commands,
};
use crate::layer_repository::{
    lemma_children_are_layers,
    lemma_rank_is_bounded,
    lemma_rank_of_child,
    LayerTree,
};
use crate::layer_types::LayerModel;

verus! {

/// The `len` commands of `whole` from the index `at` on.
pub open spec fn slice(whole: Seq<PaintCommand>, at: int, len: nat) -> Seq<PaintCommand> {
    whole.subrange(at, at + len)
}

/// `part` is a run of consecutive commands of `whole`.
pub open spec fn occurs_in(part: Seq<PaintCommand>, whole: Seq<PaintCommand>) -> bool {
    exists|at: int|
        0 <= at && at + part.len() <= whole.len() && #[trigger] slice(whole, at, part.len()) == part
}

/// `path` leads from `layer` downwards: it gives, level by level, the
/// index of the child to go to.
pub open spec fn is_path(tree: LayerTree, layer: LayerModel, path: Seq<int>) -> bool
    decreases path.len(),
{
    path.len() == 0 || (0 <= path[0] < layer.children().len() && is_path(
        tree,
        tree.layers[layer.children()[path[0]]],
        path.drop_first(),
    ))
}

/// The layer that `path` leads to from `layer`.
pub open spec fn layer_along(tree: LayerTree, layer: LayerModel, path: Seq<int>) -> LayerModel
    decreases path.len(),
{
    if path.len() == 0 {
        layer
    } else {
        layer_along(tree, tree.layers[layer.children()[path[0]]], path.drop_first())
    }
}

/// The sum of the origins of the layers that `path` leaves behind on its
/// way down from `layer`: of `layer` and of every layer on the way, but
/// not of the layer that the path leads to.
pub open spec fn origins_along(tree: LayerTree, layer: LayerModel, path: Seq<int>) -> (int, int)
    decreases path.len(),
{
    if path.len() == 0 {
        (0, 0)
    } else {
        let below = origins_along(
            tree,
            tree.layers[layer.children()[path[0]]],
            path.drop_first(),
        );
        (layer.content_rect().origin.x + below.0, layer.content_rect().origin.y + below.1)
    }
}

/// `commands` with every transform moved by `by`.
pub open spec fn shifted_all(commands: Seq<PaintCommand>, by: Transform) -> Seq<PaintCommand> {
    commands.map_values(|command: PaintCommand| command.shifted(by))
}

/// Moving `transform` by `by` stays inside `i128`.
pub open spec fn can_shift(transform: Transform, by: Transform) -> bool {
    &&& i128::MIN <= transform.dx + by.dx <= i128::MAX
    &&& i128::MIN <= transform.dy + by.dy <= i128::MAX
}

/// A run of a part of a drawing is a run of the drawing.
pub proof fn lemma_occurs_in_middle(
    part: Seq<PaintCommand>,
    before: Seq<PaintCommand>,
    middle: Seq<PaintCommand>,
    after: Seq<PaintCommand>,
)
    requires
        occurs_in(part, middle),
    ensures
        occurs_in(part, before + middle + after),
{
    let at = choose|at: int|
        0 <= at && at + part.len() <= middle.len() && #[trigger] slice(middle, at, part.len())
            == part;
    let whole = before + middle + after;
    assert(slice(whole, before.len() + at, part.len()) == part);
}

/// A drawing is a run of itself.
pub proof fn lemma_occurs_in_itself(whole: Seq<PaintCommand>)
    ensures
        occurs_in(whole, whole),
{
    assert(slice(whole, 0, whole.len()) == whole);
}

/// A run of a run is a run.
pub proof fn lemma_occurs_in_transitive(
    part: Seq<PaintCommand>,
    middle: Seq<PaintCommand>,
    whole: Seq<PaintCommand>,
)
    requires
        occurs_in(part, middle),
        occurs_in(middle, whole),
    ensures
        occurs_in(part, whole),
{
    let at = choose|at: int|
        0 <= at && at + middle.len() <= whole.len() && #[trigger] slice(whole, at, middle.len())
            == middle;
    let before = whole.subrange(0, at);
    let after = whole.subrange(at + middle.len(), whole.len() as int);
    assert(whole == before + middle + after);
    lemma_occurs_in_middle(part, before, middle, after);
}

/// The drawing of a layer is a run of the drawing of whatever it is
/// grouped into.
pub proof fn lemma_occurs_in_group(
    part: Seq<PaintCommand>,
    opacity: Opacity,
    body: Seq<PaintCommand>,
)
    requires
        occurs_in(part, body),
    ensures
        occurs_in(part, grouped(opacity, body)),
{
    if !opacity.is_opaque() {
        lemma_occurs_in_middle(
            part,
            seq![PaintCommand::PushLayer { opacity }],
            body,
            seq![PaintCommand::PopLayer],
        );
    }
}

/// The drawing of each child is a run of the drawing of the children.
pub proof fn lemma_child_occurs(
    tree: LayerTree,
    transform: Transform,
    children: Seq<LayerId>,
    from: int,
    i: int,
)
    requires
        tree.wf(),
        tree.admits(children),
        0 <= from <= i < children.len(),
    ensures
        occurs_in(
            layer_commands(tree, transform, tree.layers[children[i]]),
            children_commands(tree, transform, children, from),
        ),
    decreases i - from,
{
    let this = layer_commands(tree, transform, tree.layers[children[from]]);
    let rest = children_commands(tree, transform, children, from + 1);
    let empty = Seq::<PaintCommand>::empty();
    lemma_rank_of_child(tree, children, from);
    if from == i {
        lemma_occurs_in_itself(this);
        lemma_occurs_in_middle(this, empty, this, rest);
    } else {
        lemma_child_occurs(tree, transform, children, from + 1, i);
        lemma_occurs_in_middle(
            layer_commands(tree, transform, tree.layers[children[i]]),
            this,
            rest,
            empty,
        );
    }
}

/// Transforms compose along the tree: the walk paints every layer under
/// the transform it started with, composed with the translations to the
/// origins of all the containers between the layer it started at and
/// that layer. What it paints there is a run of the whole drawing.
pub proof fn layers_are_painted_under_composed_transforms(
    tree: LayerTree,
    transform: Transform,
    layer: LayerModel,
    path: Seq<int>,
)
    requires
        tree.wf(),
        tree.admits(layer.children()),
        transform.has_room(tree.rank(layer.children()) + 1),
        is_path(tree, layer, path),
    ensures
        ({
            let sum = origins_along(tree, layer, path);
            &&& i128::MIN <= transform.dx + sum.0 <= i128::MAX
            &&& i128::MIN <= transform.dy + sum.1 <= i128::MAX
            &&& occurs_in(
                layer_commands(
                    tree,
                    Transform { dx: (transform.dx + sum.0) as i128, dy: (transform.dy + sum.1) as i128 },
                    layer_along(tree, layer, path),
                ),
                layer_commands(tree, transform, layer),
            )
        }),
    decreases path.len(),
{
    if path.len() == 0 {
        lemma_occurs_in_itself(layer_commands(tree, transform, layer));
    } else {
        let props = layer->Container_0;
        let i = path[0];
        let child = tree.layers[props.children[i]];
        let below = transform.spec_post_translate(props.content_rect.origin);
        lemma_rank_of_child(tree, props.children, i);
        lemma_post_translate_room(
            transform,
            props.content_rect.origin,
            tree.rank(props.children) + 1,
        );
        layers_are_painted_under_composed_transforms(tree, below, child, path.drop_first());
        let sum = origins_along(tree, layer, path);
        let target = layer_commands(
            tree,
            Transform { dx: (transform.dx + sum.0) as i128, dy: (transform.dy + sum.1) as i128 },
            layer_along(tree, layer, path),
        );
        let own = box_commands(transform, props.content_rect, props.fill, props.border);
        let inner = children_commands(tree, below, props.children, 0);
        lemma_child_occurs(tree, below, props.children, 0, i);
        lemma_occurs_in_transitive(target, layer_commands(tree, below, child), inner);
        lemma_occurs_in_middle(target, own, inner, Seq::empty());
        lemma_occurs_in_group(target, props.opacity, own + inner);
    }
}

/// The layer that `id` is a child of, and the slot it has there.
pub open spec fn place_of(tree: LayerTree, id: LayerId) -> (LayerId, int) {
    choose|parent: LayerId, i: int| tree.is_child_at(id, parent, i)
}

/// The path that leads from the root to the layer `id`.
pub open spec fn path_to(tree: LayerTree, id: LayerId) -> Seq<int>
    decreases id,
{
    let (parent, i) = place_of(tree, id);
    if id != tree.root && tree.has_parent(id) && parent < id {
        path_to(tree, parent).push(i)
    } else {
        Seq::empty()
    }
}

/// A path with one more step leads to a child of where it led to.
pub proof fn lemma_path_extended(tree: LayerTree, layer: LayerModel, path: Seq<int>, i: int)
    requires
        is_path(tree, layer, path),
        0 <= i < layer_along(tree, layer, path).children().len(),
    ensures
        is_path(tree, layer, path.push(i)),
        layer_along(tree, layer, path.push(i)) == tree.layers[layer_along(
            tree,
            layer,
            path,
        ).children()[i]],
        origins_along(tree, layer, path.push(i)) == (
            origins_along(tree, layer, path).0 + layer_along(
                tree,
                layer,
                path,
            ).content_rect().origin.x,
            origins_along(tree, layer, path).1 + layer_along(
                tree,
                layer,
                path,
            ).content_rect().origin.y,
        ),
    decreases path.len(),
{
    let longer = path.push(i);
    if path.len() == 0 {
        let child = tree.layers[layer.children()[i]];
        assert(is_path(tree, child, longer.drop_first()));
        assert(layer_along(tree, child, longer.drop_first()) == child);
        assert(origins_along(tree, child, longer.drop_first()) == (0int, 0int));
    } else {
        assert(longer.drop_first() =~= path.drop_first().push(i));
        lemma_path_extended(tree, tree.layers[layer.children()[path[0]]], path.drop_first(), i);
    }
}

/// Every layer of a tree can be reached from the root: the path to it
/// is a path from the root, and leads to it.
pub proof fn lemma_path_leads_to(tree: LayerTree, id: LayerId)
    requires
        tree.wf(),
        tree.contains(id),
    ensures
        is_path(tree, tree.layers[tree.root], path_to(tree, id)),
        layer_along(tree, tree.layers[tree.root], path_to(tree, id)) == tree.layers[id],
    decreases id,
{
    if id != tree.root {
        let (parent, i) = place_of(tree, id);
        assert(parent < tree.child(parent, i));
        lemma_path_leads_to(tree, parent);
        lemma_path_extended(tree, tree.layers[tree.root], path_to(tree, parent), i);
    }
}

/// Every layer of a scene is painted, and where it belongs: what the
/// walk paints for the layer, under the transform of the scene composed
/// with the translations to the origins of the containers around the
/// layer, is a run of the drawing of the scene.
pub proof fn every_layer_is_painted(tree: LayerTree, transform: Transform, id: LayerId)
    requires
        tree.wf(),
        tree.contains(id),
        transform.anchored(),
    ensures
        ({
            let sum = origins_along(tree, tree.layers[tree.root], path_to(tree, id));
            &&& i128::MIN <= transform.dx + sum.0 <= i128::MAX
            &&& i128::MIN <= transform.dy + sum.1 <= i128::MAX
            &&& occurs_in(
                layer_commands(
                    tree,
                    Transform { dx: (transform.dx + sum.0) as i128, dy: (transform.dy + sum.1) as i128 },
                    tree.layers[id],
                ),
                scene_commands(tree, transform),
            )
        }),
{
    let root = tree.layers[tree.root];
    lemma_children_are_layers(tree, tree.root);
    lemma_rank_is_bounded(tree, root.children(), transform);
    lemma_path_leads_to(tree, id);
    layers_are_painted_under_composed_transforms(tree, transform, root, path_to(tree, id));
}

/// A rectangle leaf paints its rectangle under the transform it is
/// painted under: its fill, where it has one, is the command that fills
/// its content rectangle under that transform.
pub proof fn rect_is_filled_where_it_lies(transform: Transform, props: crate::rect::RectProps)
    requires
        props.fill is Some,
    ensures
        occurs_in(
            seq![
                PaintCommand::Fill { transform, rect: props.content_rect, fill: props.fill->0 },
            ],
            rect_commands(transform, props),
        ),
{
    let fill = seq![PaintCommand::Fill { transform, rect: props.content_rect, fill: props.fill->0 }];
    let stroked = match props.border {
        Some(border) => seq![
            PaintCommand::Stroke {
                transform,
                rect: props.content_rect,
                fill: border.fill,
                width: border.width,
            },
        ],
        None => Seq::empty(),
    };
    lemma_occurs_in_itself(fill);
    lemma_occurs_in_middle(fill, Seq::empty(), fill, stroked);
    lemma_occurs_in_group(fill, props.opacity, fill + stroked);
}

/// Moving a box moves its commands.
proof fn lemma_box_shifts(
    transform: Transform,
    by: Transform,
    rect: Rect,
    fill: Option<Fill>,
    border: Option<Border>,
)
    ensures
        box_commands(transform.shifted(by), rect, fill, border) == shifted_all(
            box_commands(transform, rect, fill, border),
            by,
        ),
{
    assert(box_commands(transform.shifted(by), rect, fill, border) =~= shifted_all(
        box_commands(transform, rect, fill, border),
        by,
    ));
}

/// Moving what is in a group moves the group.
proof fn lemma_group_shifts(opacity: Opacity, body: Seq<PaintCommand>, by: Transform)
    ensures
        grouped(opacity, shifted_all(body, by)) == shifted_all(grouped(opacity, body), by),
{
}

/// Painting moves with the transform: under a transform moved by `by`
/// the walk paints what it paints under the transform itself, with every
/// command moved by `by`.
pub proof fn painting_moves_with_the_transform(
    tree: LayerTree,
    transform: Transform,
    by: Transform,
    layer: LayerModel,
)
    requires
        tree.wf(),
        tree.admits(layer.children()),
        transform.has_room(tree.rank(layer.children()) + 1),
        can_shift(transform, by),
        transform.shifted(by).has_room(tree.rank(layer.children()) + 1),
    ensures
        layer_commands(tree, transform.shifted(by), layer) == shifted_all(
            layer_commands(tree, transform, layer),
            by,
        ),
    decreases tree.rank(layer.children()), layer.children().len() + 1,
{
    match layer {
        LayerModel::Container(props) => {
            let origin = props.content_rect.origin;
            let below = transform.spec_post_translate(origin);
            let own = box_commands(transform, props.content_rect, props.fill, props.border);
            let inner = children_commands(tree, below, props.children, 0);
            lemma_post_translate_room(transform, origin, tree.rank(props.children) + 1);
            lemma_post_translate_room(transform.shifted(by), origin, tree.rank(props.children) + 1);
            children_move_with_the_transform(tree, below, by, props.children, 0);
            lemma_box_shifts(transform, by, props.content_rect, props.fill, props.border);
            lemma_group_shifts(props.opacity, own + inner, by);
        },
        LayerModel::Rect(props) => {
            lemma_box_shifts(transform, by, props.content_rect, props.fill, props.border);
            lemma_group_shifts(
                props.opacity,
                box_commands(transform, props.content_rect, props.fill, props.border),
                by,
            );
        },
        LayerModel::Sample(props) => {
            let body = seq![PaintCommand::Sample { transform, rect: props.content_rect }];
            assert(seq![
                PaintCommand::Sample { transform: transform.shifted(by), rect: props.content_rect },
            ] =~= shifted_all(body, by));
            lemma_group_shifts(props.opacity, body, by);
        },
    }
}

/// The painting of a run of children moves with the transform.
pub proof fn children_move_with_the_transform(
    tree: LayerTree,
    transform: Transform,
    by: Transform,
    children: Seq<LayerId>,
    from: int,
)
    requires
        tree.wf(),
        tree.admits(children),
        0 <= from,
        transform.has_room(tree.rank(children)),
        can_shift(transform, by),
        transform.shifted(by).has_room(tree.rank(children)),
    ensures
        children_commands(tree, transform.shifted(by), children, from) == shifted_all(
            children_commands(tree, transform, children, from),
            by,
        ),
    decreases tree.rank(children), children.len() - from,
{
    if from < children.len() {
        lemma_rank_of_child(tree, children, from);
        let child = tree.layers[children[from]];
        lemma_room_for_fewer(transform, tree.rank(children), tree.rank(child.children()) + 1);
        lemma_room_for_fewer(
            transform.shifted(by),
            tree.rank(children),
            tree.rank(child.children()) + 1,
        );
        painting_moves_with_the_transform(tree, transform, by, child);
        children_move_with_the_transform(tree, transform, by, children, from + 1);
    }
}

} // verus!
