//! The painting walk: turns a tree of layers into the paint commands of
//! one frame.
//!
//! A container opens an opacity group when it is not opaque, paints its
//! own fill and border under the transform of its parent, and paints its
//! children, in order, under that transform composed with the translation
//! to its own origin. A leaf paints what it is made of, under the same
//! rule for opacity.

use vstd::prelude::*;
use crate::common::{Border, Fill, LayerId, Opacity};
use crate::container::ContainerProps;
use crate::display_list::{DisplayList, PaintCommand};
use crate::geometry::{lemma_post_translate_room, Rect, Transform};
use crate::layer_repository::{
    lemma_children_are_layers,
    lemma_rank_is_bounded,
    lemma_rank_of_child,
    LayerRepository,
    LayerTree,
};
use crate::layer_types::{Layer, LayerModel};
use crate::rect::RectProps;
use crate::sample::SampleLayerProps;
use crate::traits::{DimensionLayer, TransparentLayer};

verus! {

/// The commands that fill `rect` and then stroke its edge, each only if
/// there is something to do it with. The border is a stroke along the
/// rectangle itself, whichever side the border is meant to lie on.
pub open spec fn box_commands(
    transform: Transform,
    rect: Rect,
    fill: Option<Fill>,
    border: Option<Border>,
) -> Seq<PaintCommand> {
    let filled = match fill {
        Some(fill) => seq![PaintCommand::Fill { transform, rect, fill }],
        None => Seq::empty(),
    };
    let stroked = match border {
        Some(border) => seq![
            PaintCommand::Stroke { transform, rect, fill: border.fill, width: border.width },
        ],
        None => Seq::empty(),
    };
    filled + stroked
}

/// `body` as a layer of the given opacity shows it: as it is when the
/// layer is opaque, inside an opacity group when it is not.
pub open spec fn grouped(opacity: Opacity, body: Seq<PaintCommand>) -> Seq<PaintCommand> {
    if opacity.is_opaque() {
        body
    } else {
        seq![PaintCommand::PushLayer { opacity }] + body + seq![PaintCommand::PopLayer]
    }
}

/// The commands of a rectangle leaf.
pub open spec fn rect_commands(transform: Transform, props: RectProps) -> Seq<PaintCommand> {
    grouped(props.opacity, box_commands(transform, props.content_rect, props.fill, props.border))
}

/// The commands of a sample leaf.
pub open spec fn sample_commands(transform: Transform, props: SampleLayerProps) -> Seq<
    PaintCommand,
> {
    grouped(props.opacity, seq![PaintCommand::Sample { transform, rect: props.content_rect }])
}

/// The commands of `layer`, painted under `transform`, where `tree` holds
/// the layers that the ids of its children stand for.
pub open spec fn layer_commands(tree: LayerTree, transform: Transform, layer: LayerModel) -> Seq<
    PaintCommand,
>
    decreases tree.rank(layer.children()), layer.children().len() + 1,
    when tree.wf() && tree.admits(layer.children())
{
    match layer {
        LayerModel::Container(props) => grouped(
            props.opacity,
            box_commands(transform, props.content_rect, props.fill, props.border)
                + children_commands(
                tree,
                transform.spec_post_translate(props.content_rect.origin),
                props.children,
                0,
            ),
        ),
        LayerModel::Rect(props) => rect_commands(transform, props),
        LayerModel::Sample(props) => sample_commands(transform, props),
    }
}

/// The commands of the layers `children[from..]`, one after the other,
/// all painted under `transform`.
pub open spec fn children_commands(
    tree: LayerTree,
    transform: Transform,
    children: Seq<LayerId>,
    from: int,
) -> Seq<PaintCommand>
    decreases tree.rank(children), children.len() - from,
    when tree.wf() && tree.admits(children) && 0 <= from
{
    if from >= children.len() {
        Seq::empty()
    } else {
        proof {
            lemma_rank_of_child(tree, children, from);
        }
        layer_commands(tree, transform, tree.layers[children[from]]) + children_commands(
            tree,
            transform,
            children,
            from + 1,
        )
    }
}

/// The commands of a whole scene: those of the root, painted under
/// `transform`.
pub open spec fn scene_commands(tree: LayerTree, transform: Transform) -> Seq<PaintCommand> {
    layer_commands(tree, transform, tree.layers[tree.root])
}

/// Paints the scene that `layer_repo` holds.
pub fn render_scene(layer_repo: &LayerRepository, draw_target: &mut DisplayList)
    requires
        layer_repo.wf(),
        old(draw_target).transform.anchored(),
    ensures
        final(draw_target).transform == old(draw_target).transform,
        final(draw_target).commands@ == old(draw_target).commands@ + scene_commands(
            layer_repo@,
            old(draw_target).transform,
        ),
{
    let root = layer_repo.root_container_layer();
    proof {
        lemma_children_are_layers(layer_repo@, layer_repo@.root);
        lemma_rank_is_bounded(layer_repo@, root@.children, draw_target.transform);
    }
    render_container(draw_target, root, layer_repo);
}

/// Paints `layer`, and under it the layers of `layer_repo` that it leads
/// to.
///
/// The transform of the target has to leave room for the levels under
/// `layer`, as every anchored transform does: see
/// [`lemma_rank_is_bounded`].
pub fn render_layer(layer: &Layer, layer_repo: &LayerRepository, draw_target: &mut DisplayList)
    requires
        layer_repo.wf(),
        layer_repo@.admits(layer@.children()),
        old(draw_target).transform.has_room(layer_repo@.rank(layer@.children()) + 1),
    ensures
        final(draw_target).transform == old(draw_target).transform,
        final(draw_target).commands@ == old(draw_target).commands@ + layer_commands(
            layer_repo@,
            old(draw_target).transform,
            layer@,
        ),
    decreases layer_repo@.rank(layer@.children()), 1nat,
{
    match layer {
        Layer::Container(props) => render_container(draw_target, props, layer_repo),
        Layer::Rect(props) => render_rect(draw_target, props),
        Layer::Sample(props) => paint_sample_layer(draw_target, props),
    }
}

/// Paints a container and, under the transform composed with the
/// translation to its origin, its children.
pub fn render_container(
    draw_target: &mut DisplayList,
    props: &ContainerProps,
    layer_repo: &LayerRepository,
)
    requires
        layer_repo.wf(),
        layer_repo@.admits(props@.children),
        old(draw_target).transform.has_room(layer_repo@.rank(props@.children) + 1),
    ensures
        final(draw_target).transform == old(draw_target).transform,
        final(draw_target).commands@ == old(draw_target).commands@ + layer_commands(
            layer_repo@,
            old(draw_target).transform,
            LayerModel::Container(props@),
        ),
    decreases layer_repo@.rank(props@.children), 0nat,
{
    let ghost tree = layer_repo@;
    let ghost children = props@.children;
    let ghost before = draw_target.commands@;
    let opaque = props.is_opaque();
    if !opaque {
        draw_target.push_layer(props.opacity);
    }
    if props.fill.is_some() || props.border.is_some() {
        paint_container(draw_target, props);
    }
    let prev_transform = *draw_target.get_transform();
    proof {
        lemma_post_translate_room(
            prev_transform,
            props.content_rect.origin,
            tree.rank(children) + 1,
        );
    }
    let next_transform = prev_transform.post_translate(props.content_rect.origin);
    draw_target.set_transform(&next_transform);
    let ghost painted = draw_target.commands@;
    assert(painted == (if opaque {
        before
    } else {
        before.push(PaintCommand::PushLayer { opacity: props.opacity })
    }) + box_commands(prev_transform, props.content_rect, props.fill, props.border));
    let mut i: usize = 0;
    while i < props.children.len()
        invariant
            i <= children.len(),
            children == props@.children,
            tree == layer_repo@,
            tree.wf(),
            tree.admits(children),
            draw_target.transform == next_transform,
            next_transform.has_room(tree.rank(children)),
            draw_target.commands@ + children_commands(tree, next_transform, children, i as int)
                == painted + children_commands(tree, next_transform, children, 0),
        decreases children.len() - i,
    {
        let child_id = props.children[i];
        proof {
            lemma_rank_of_child(tree, children, i as int);
        }
        let child_layer = layer_repo.get_layer_by_id(&child_id);
        render_layer(child_layer, layer_repo, draw_target);
        i += 1;
    }
    draw_target.set_transform(&prev_transform);
    if !opaque {
        draw_target.pop_layer();
    }
    proof {
        let inner = children_commands(tree, next_transform, children, 0);
        let own = box_commands(prev_transform, props.content_rect, props.fill, props.border);
        assert(children_commands(tree, next_transform, children, children.len() as int)
            == Seq::<PaintCommand>::empty());
        if !opaque {
            let push = seq![PaintCommand::PushLayer { opacity: props.opacity }];
            let pop = seq![PaintCommand::PopLayer];
            assert((before.push(PaintCommand::PushLayer { opacity: props.opacity }) + own + inner).push(
                PaintCommand::PopLayer,
            ) == before + (push + (own + inner) + pop));
        }
    }
}

/// Paints a rectangle leaf.
pub fn render_rect(draw_target: &mut DisplayList, props: &RectProps)
    ensures
        final(draw_target).transform == old(draw_target).transform,
        final(draw_target).commands@ == old(draw_target).commands@ + rect_commands(
            old(draw_target).transform,
            *props,
        ),
{
    paint_rect(draw_target, props);
}

/// Paints a sample leaf.
pub fn paint_sample_layer(draw_target: &mut DisplayList, props: &SampleLayerProps)
    ensures
        final(draw_target).transform == old(draw_target).transform,
        final(draw_target).commands@ == old(draw_target).commands@ + sample_commands(
            old(draw_target).transform,
            *props,
        ),
{
    let ghost before = draw_target.commands@;
    let ghost transform = draw_target.transform;
    let opaque = props.is_opaque();
    if !opaque {
        draw_target.push_layer(props.opacity);
    }
    let rect = props.content_rect();
    draw_target.sample(&rect);
    if !opaque {
        draw_target.pop_layer();
    }
    proof {
        let body = seq![PaintCommand::Sample { transform, rect: props.content_rect }];
        if !opaque {
            assert(before.push(PaintCommand::PushLayer { opacity: props.opacity }).push(body[0]).push(
                PaintCommand::PopLayer,
            ) == before + (seq![PaintCommand::PushLayer { opacity: props.opacity }] + body
                + seq![PaintCommand::PopLayer]));
        }
    }
}

fn paint_fill(draw_target: &mut DisplayList, fill: &Fill, rect: &Rect)
    ensures
        final(draw_target).transform == old(draw_target).transform,
        final(draw_target).commands@ == old(draw_target).commands@.push(
            PaintCommand::Fill { transform: old(draw_target).transform, rect: *rect, fill: *fill },
        ),
{
    draw_target.fill(rect, fill);
}

fn paint_border(draw_target: &mut DisplayList, border: &Border, rect: &Rect)
    ensures
        final(draw_target).transform == old(draw_target).transform,
        final(draw_target).commands@ == old(draw_target).commands@.push(
            PaintCommand::Stroke {
                transform: old(draw_target).transform,
                rect: *rect,
                fill: border.fill,
                width: border.width,
            },
        ),
{
    draw_target.stroke(rect, &border.fill, border.width);
}

/// Fills and strokes `rect`, as far as there is a fill and a border.
fn paint_box(
    draw_target: &mut DisplayList,
    rect: &Rect,
    fill: &Option<Fill>,
    border: &Option<Border>,
)
    ensures
        final(draw_target).transform == old(draw_target).transform,
        final(draw_target).commands@ == old(draw_target).commands@ + box_commands(
            old(draw_target).transform,
            *rect,
            *fill,
            *border,
        ),
{
    if let Some(fill) = fill {
        paint_fill(draw_target, fill, rect);
    }
    if let Some(border) = border {
        paint_border(draw_target, border, rect);
    }
}

fn paint_rect(draw_target: &mut DisplayList, props: &RectProps)
    ensures
        final(draw_target).transform == old(draw_target).transform,
        final(draw_target).commands@ == old(draw_target).commands@ + rect_commands(
            old(draw_target).transform,
            *props,
        ),
{
    let ghost before = draw_target.commands@;
    let ghost body = box_commands(
        draw_target.transform,
        props.content_rect,
        props.fill,
        props.border,
    );
    let opaque = props.is_opaque();
    if !opaque {
        draw_target.push_layer(props.opacity);
    }
    paint_box(draw_target, &props.content_rect, &props.fill, &props.border);
    if !opaque {
        draw_target.pop_layer();
    }
    proof {
        if !opaque {
            assert((before.push(PaintCommand::PushLayer { opacity: props.opacity }) + body).push(
                PaintCommand::PopLayer,
            ) == before + (seq![PaintCommand::PushLayer { opacity: props.opacity }] + body
                + seq![PaintCommand::PopLayer]));
        }
    }
}

fn paint_container(draw_target: &mut DisplayList, props: &ContainerProps)
    ensures
        final(draw_target).transform == old(draw_target).transform,
        final(draw_target).commands@ == old(draw_target).commands@ + box_commands(
            old(draw_target).transform,
            props.content_rect,
            props.fill,
            props.border,
        ),
{
    paint_box(draw_target, &props.content_rect, &props.fill, &props.border);
}

} // verus!
