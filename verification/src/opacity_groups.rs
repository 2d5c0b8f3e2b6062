//! The opacity groups of a drawing: one for each layer that is not
//! opaque, opened before the layer paints and closed after it, so that
//! the groups of nested layers nest.

use vstd::prelude::*;
use crate::common::LayerId;
use crate::display_list::PaintCommand;
use crate::geometry::Transform;
use crate::layer_renderer::{box_commands, children_commands, grouped, layer_commands};
use crate::layer_repository::{lemma_rank_of_child, LayerTree};
use crate::layer_types::LayerModel;

verus! {

/// How many groups are open after `commands`, when `open` were open
/// before; `None` where the commands close a group that is not open.
pub open spec fn open_after(commands: Seq<PaintCommand>, open: nat) -> Option<nat>
    decreases commands.len(),
{
    if commands.len() == 0 {
        Some(open)
    } else {
        match commands.first() {
            PaintCommand::PushLayer { .. } => open_after(commands.drop_first(), open + 1),
            PaintCommand::PopLayer => if open == 0 {
                None
            } else {
                open_after(commands.drop_first(), (open - 1) as nat)
            },
            _ => open_after(commands.drop_first(), open),
        }
    }
}

/// The commands close every group they open, and none that they did not
/// open.
pub open spec fn well_nested(commands: Seq<PaintCommand>) -> bool {
    open_after(commands, 0) == Some(0nat)
}

/// How many of `commands` open a group.
pub open spec fn pushes(commands: Seq<PaintCommand>) -> nat
    decreases commands.len(),
{
    if commands.len() == 0 {
        0
    } else {
        pushes(commands.drop_first()) + if commands.first() is PushLayer {
            1nat
        } else {
            0nat
        }
    }
}

/// How many layers that are not opaque the walk comes to at `layer` and
/// below.
pub open spec fn translucent_layers(tree: LayerTree, layer: LayerModel) -> nat
    decreases tree.rank(layer.children()), layer.children().len() + 1,
    when tree.wf() && tree.admits(layer.children())
{
    translucent_children(tree, layer.children(), 0) + if layer.opacity().is_opaque() {
        0nat
    } else {
        1nat
    }
}

/// How many layers that are not opaque the walk comes to at the layers
/// `children[from..]` and below.
pub open spec fn translucent_children(tree: LayerTree, children: Seq<LayerId>, from: int) -> nat
    decreases tree.rank(children), children.len() - from,
    when tree.wf() && tree.admits(children) && 0 <= from
{
    if from >= children.len() {
        0
    } else {
        proof {
            lemma_rank_of_child(tree, children, from);
        }
        translucent_layers(tree, tree.layers[children[from]]) + translucent_children(
            tree,
            children,
            from + 1,
        )
    }
}

/// Running one drawing after another is running the second from where
/// the first ends.
pub proof fn lemma_open_after_concat(first: Seq<PaintCommand>, second: Seq<PaintCommand>, open: nat)
    ensures
        open_after(first + second, open) == match open_after(first, open) {
            Some(between) => open_after(second, between),
            None => None,
        },
    decreases first.len(),
{
    if first.len() > 0 {
        assert((first + second).drop_first() == first.drop_first() + second);
        match first.first() {
            PaintCommand::PushLayer { .. } => {
                lemma_open_after_concat(first.drop_first(), second, open + 1);
            },
            PaintCommand::PopLayer => {
                if open > 0 {
                    lemma_open_after_concat(first.drop_first(), second, (open - 1) as nat);
                }
            },
            _ => {
                lemma_open_after_concat(first.drop_first(), second, open);
            },
        }
    }
}

/// A drawing that is well nested leaves open the groups that were open
/// before it.
pub proof fn lemma_well_nested_from(commands: Seq<PaintCommand>, open: nat)
    requires
        well_nested(commands),
    ensures
        open_after(commands, open) == Some(open),
{
    lemma_open_after_lifts(commands, 0, open);
}

proof fn lemma_open_after_lifts(commands: Seq<PaintCommand>, open: nat, by: nat)
    requires
        open_after(commands, open) is Some,
    ensures
        open_after(commands, open + by) == Some(open_after(commands, open)->0 + by),
    decreases commands.len(),
{
    if commands.len() > 0 {
        match commands.first() {
            PaintCommand::PushLayer { .. } => {
                lemma_open_after_lifts(commands.drop_first(), open + 1, by);
            },
            PaintCommand::PopLayer => {
                lemma_open_after_lifts(commands.drop_first(), (open - 1) as nat, by);
            },
            _ => {
                lemma_open_after_lifts(commands.drop_first(), open, by);
            },
        }
    }
}

/// Two well nested drawings, one after the other, are a well nested
/// drawing.
pub proof fn lemma_well_nested_concat(first: Seq<PaintCommand>, second: Seq<PaintCommand>)
    requires
        well_nested(first),
        well_nested(second),
    ensures
        well_nested(first + second),
{
    lemma_open_after_concat(first, second, 0);
}

/// The pushes of two drawings add up.
pub proof fn lemma_pushes_concat(first: Seq<PaintCommand>, second: Seq<PaintCommand>)
    ensures
        pushes(first + second) == pushes(first) + pushes(second),
    decreases first.len(),
{
    if first.len() > 0 {
        assert((first + second).drop_first() == first.drop_first() + second);
        lemma_pushes_concat(first.drop_first(), second);
    }
}

/// What a drawing of one command opens and closes.
proof fn lemma_single(command: PaintCommand, open: nat)
    ensures
        pushes(seq![command]) == if command is PushLayer {
            1nat
        } else {
            0nat
        },
        open_after(seq![command], open) == match command {
            PaintCommand::PushLayer { .. } => Some(open + 1),
            PaintCommand::PopLayer => if open == 0 {
                None
            } else {
                Some((open - 1) as nat)
            },
            _ => Some(open),
        },
{
    reveal_with_fuel(pushes, 2);
    reveal_with_fuel(open_after, 2);
}

/// A group is opened exactly for what is not opaque: around a body that
/// opens `inner` groups and is well nested, a layer of the given opacity
/// opens `inner` groups when it is opaque and one more when it is not,
/// and the whole is well nested again.
pub proof fn lemma_grouped(opacity: crate::common::Opacity, body: Seq<PaintCommand>)
    requires
        well_nested(body),
    ensures
        well_nested(grouped(opacity, body)),
        pushes(grouped(opacity, body)) == pushes(body) + if opacity.is_opaque() {
            0nat
        } else {
            1nat
        },
{
    if !opacity.is_opaque() {
        let push = seq![PaintCommand::PushLayer { opacity }];
        let pop = seq![PaintCommand::PopLayer];
        lemma_pushes_concat(push + body, pop);
        lemma_pushes_concat(push, body);
        lemma_single(PaintCommand::PushLayer { opacity }, 0);
        lemma_single(PaintCommand::PopLayer, 1);
        lemma_open_after_concat(push + body, pop, 0);
        lemma_open_after_concat(push, body, 0);
        lemma_well_nested_from(body, 1);
    }
}

/// The fill and the stroke of a rectangle open and close no group.
pub proof fn lemma_box_has_no_groups(
    transform: Transform,
    rect: crate::geometry::Rect,
    fill: Option<crate::common::Fill>,
    border: Option<crate::common::Border>,
)
    ensures
        well_nested(box_commands(transform, rect, fill, border)),
        pushes(box_commands(transform, rect, fill, border)) == 0,
{
    let filled = match fill {
        Some(fill) => seq![PaintCommand::Fill { transform, rect, fill }],
        None => Seq::empty(),
    };
    let stroked = match border {
        Some(border) => seq![
            PaintCommand::Stroke { transform, rect, fill: border.fill, width: border.width },
        ],
        None => Seq::empty(),
    };
    assert(well_nested(filled) && pushes(filled) == 0) by {
        if let Some(fill) = fill {
            lemma_single(PaintCommand::Fill { transform, rect, fill }, 0);
        }
    }
    assert(well_nested(stroked) && pushes(stroked) == 0) by {
        if let Some(border) = border {
            lemma_single(
                PaintCommand::Stroke { transform, rect, fill: border.fill, width: border.width },
                0,
            );
        }
    }
    lemma_well_nested_concat(filled, stroked);
    lemma_pushes_concat(filled, stroked);
}

/// An opacity group is opened exactly for the layers that are not
/// opaque: the drawing of a layer opens as many groups as there are
/// layers that are not opaque at it and below, and it closes every group
/// it opens, in the reverse order of opening.
pub proof fn groups_match_translucent_layers(
    tree: LayerTree,
    transform: Transform,
    layer: LayerModel,
)
    requires
        tree.wf(),
        tree.admits(layer.children()),
    ensures
        pushes(layer_commands(tree, transform, layer)) == translucent_layers(tree, layer),
        well_nested(layer_commands(tree, transform, layer)),
    decreases tree.rank(layer.children()), layer.children().len() + 1,
{
    match layer {
        LayerModel::Container(props) => {
            let own = box_commands(transform, props.content_rect, props.fill, props.border);
            let inner = children_commands(
                tree,
                transform.spec_post_translate(props.content_rect.origin),
                props.children,
                0,
            );
            lemma_box_has_no_groups(transform, props.content_rect, props.fill, props.border);
            groups_match_translucent_children(
                tree,
                transform.spec_post_translate(props.content_rect.origin),
                props.children,
                0,
            );
            lemma_well_nested_concat(own, inner);
            lemma_pushes_concat(own, inner);
            lemma_grouped(props.opacity, own + inner);
        },
        LayerModel::Rect(props) => {
            lemma_box_has_no_groups(transform, props.content_rect, props.fill, props.border);
            lemma_grouped(
                props.opacity,
                box_commands(transform, props.content_rect, props.fill, props.border),
            );
        },
        LayerModel::Sample(props) => {
            let body = seq![PaintCommand::Sample { transform, rect: props.content_rect }];
            lemma_single(PaintCommand::Sample { transform, rect: props.content_rect }, 0);
            lemma_grouped(props.opacity, body);
        },
    }
}

/// The drawing of a run of children opens as many groups as there are
/// layers that are not opaque at them and below, and closes every group
/// it opens.
pub proof fn groups_match_translucent_children(
    tree: LayerTree,
    transform: Transform,
    children: Seq<LayerId>,
    from: int,
)
    requires
        tree.wf(),
        tree.admits(children),
        0 <= from,
    ensures
        pushes(children_commands(tree, transform, children, from)) == translucent_children(
            tree,
            children,
            from,
        ),
        well_nested(children_commands(tree, transform, children, from)),
    decreases tree.rank(children), children.len() - from,
{
    if from < children.len() {
        lemma_rank_of_child(tree, children, from);
        let this = layer_commands(tree, transform, tree.layers[children[from]]);
        let rest = children_commands(tree, transform, children, from + 1);
        groups_match_translucent_layers(tree, transform, tree.layers[children[from]]);
        groups_match_translucent_children(tree, transform, children, from + 1);
        lemma_well_nested_concat(this, rest);
        lemma_pushes_concat(this, rest);
    }
}

} // verus!
