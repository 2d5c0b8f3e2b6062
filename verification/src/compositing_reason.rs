//! Which layers get a composite of their own, and why.

use vstd::prelude::*;
use crate::container::ContainerProps;
use crate::layer_types::{Layer, LayerModel};

verus! {

/// Why a layer is rendered into a surface of its own.
#[derive(Clone, Copy, Debug, PartialEq, Eq)]
pub enum CompositingReason {
    /// The layer gives its children a coordinate space of their own.
    NewCoordSystem,
}

/// The reason for which `layer` gets a composite of its own, if it gets
/// one: every container does, for the coordinate space it opens, and no
/// leaf does.
pub open spec fn compositing_reason_of(layer: LayerModel) -> Option<CompositingReason> {
    match layer {
        LayerModel::Container(_) => Some(CompositingReason::NewCoordSystem),
        _ => None,
    }
}

/// The reason for which `layer` gets a composite of its own, if it gets
/// one.
pub fn get_compositing_reason(layer: &Layer) -> (reason: Option<CompositingReason>)
    ensures
        reason == compositing_reason_of(layer@),
{
    match layer {
        Layer::Container(props) => reason_of_container(props),
        _ => None,
    }
}

fn reason_of_container(_props: &ContainerProps) -> (reason: Option<CompositingReason>)
    ensures
        reason == Some(CompositingReason::NewCoordSystem),
{
    Some(CompositingReason::NewCoordSystem)
}

} // verus!
