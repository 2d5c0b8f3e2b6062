//! What the painting walk asks of the properties of a layer, whatever
//! kind of layer they belong to.

use vstd::prelude::*;
use crate::common::{Border, Fill, Opacity};
use crate::geometry::Rect;

verus! {

/// A layer whose rectangle may be filled.
pub trait FillableLayer {
    spec fn spec_fill(&self) -> Option<Fill>;

    fn fill(&self) -> (fill: Option<Fill>)
        ensures
            fill == self.spec_fill(),
    ;
}

/// A layer whose rectangle may be stroked.
pub trait BorderLayer {
    spec fn spec_border(&self) -> Option<Border>;

    fn border(&self) -> (border: Option<Border>)
        ensures
            border == self.spec_border(),
    ;
}

/// A layer that may let what lies beneath it show through.
pub trait TransparentLayer {
    spec fn spec_opacity(&self) -> Opacity;

    fn opacity(&self) -> (opacity: Opacity)
        ensures
            opacity == self.spec_opacity(),
    ;

    /// A layer is opaque exactly when its opacity is at least one.
    fn is_opaque(&self) -> (opaque: bool)
        ensures
            opaque == self.spec_opacity().is_opaque(),
    {
        self.opacity().is_opaque()
    }
}

/// A layer that occupies a rectangle of its parent's coordinate space.
pub trait DimensionLayer {
    spec fn spec_content_rect(&self) -> Rect;

    /// The rectangle that the layer was given.
    fn content_rect(&self) -> (rect: Rect)
        ensures
            rect == self.spec_content_rect(),
    ;

    /// The rectangle that the layer paints into. No kind of layer paints
    /// outside the rectangle it was given.
    fn effective_rect(&self) -> (rect: Rect)
        ensures
            rect == self.spec_content_rect(),
    ;
}

} // verus!
