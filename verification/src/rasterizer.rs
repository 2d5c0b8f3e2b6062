//! Rasterizing a container into the surface of its composite.

use vstd::prelude::*;
use crate::composite::{Composite, Surface, SurfaceModel};
use crate::container::{ContainerModel, ContainerProps};
use crate::display_list::DisplayList;
use crate::geometry::Transform;
use crate::layer_rasterizer::container_commands;

verus! {

/// What the composite of a container shows: a surface of the size of the
/// container, painted with its fill and its border and nothing else.
pub open spec fn container_surface(props: ContainerModel) -> SurfaceModel {
    SurfaceModel {
        size: props.content_rect.size,
        commands: container_commands(Transform::identity(), props),
    }
}

/// Gives `composite` a fresh surface that shows the container `props`.
/// Nothing else about the composite changes.
pub fn rasterize_container_layer(composite: &mut Composite, props: &ContainerProps)
    ensures
        final(composite)@ == old(composite)@.with_surface(container_surface(props@)),
{
    let mut draw_target = DisplayList::new();
    crate::layer_rasterizer::rasterize_container_layer(&mut draw_target, props);
    composite.surface = Some(
        Surface { size: props.content_rect.size, commands: draw_target.commands },
    );
}

} // verus!
