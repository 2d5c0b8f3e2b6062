//! Painting one container by itself, in its own coordinate space.

use vstd::prelude::*;
use crate::container::{ContainerModel, ContainerProps};
use crate::display_list::{DisplayList, PaintCommand};
use crate::geometry::{Rect, Transform};
use crate::layer_renderer::box_commands;

verus! {

/// The commands that paint the fill and the border of a container in its
/// own coordinate space, in which its rectangle starts at the origin.
pub open spec fn container_commands(transform: Transform, props: ContainerModel) -> Seq<
    PaintCommand,
> {
    box_commands(transform, Rect::local(props.content_rect.size), props.fill, props.border)
}

/// Paints the fill and the border of `props`, not its children, with the
/// origin of the container where the transform of the target puts the
/// origin.
pub fn rasterize_container_layer(draw_target: &mut DisplayList, props: &ContainerProps)
    ensures
        final(draw_target).transform == old(draw_target).transform,
        final(draw_target).commands@ == old(draw_target).commands@ + container_commands(
            old(draw_target).transform,
            props@,
        ),
{
    let rect = Rect::local(props.content_rect.size);
    if let Some(fill) = props.fill {
        draw_target.fill(&rect, &fill);
    }
    if let Some(border) = props.border {
        draw_target.stroke(&rect, &border.fill, border.width);
    }
}

} // verus!
