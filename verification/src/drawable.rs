//! What the compositor asks of a layer, whatever kind it is.

use vstd::prelude::*;
use crate::common::Opacity;
use crate::geometry::Rect;
use crate::layer_types::Layer;

verus! {

/// Something that occupies a rectangle and may let what lies beneath it
/// show through.
pub trait Drawable {
    spec fn spec_content_rect(&self) -> Rect;

    spec fn spec_opacity(&self) -> Opacity;

    fn content_rect(&self) -> (rect: Rect)
        ensures
            rect == self.spec_content_rect(),
    ;

    fn opacity(&self) -> (opacity: Opacity)
        ensures
            opacity == self.spec_opacity(),
    ;

    /// It is opaque exactly when its opacity is at least one.
    fn is_opaque(&self) -> (opaque: bool)
        ensures
            opaque == self.spec_opacity().is_opaque(),
    {
        self.opacity().is_opaque()
    }
}

impl Drawable for Layer {
    open spec fn spec_content_rect(&self) -> Rect {
        self@.content_rect()
    }

    open spec fn spec_opacity(&self) -> Opacity {
        self@.opacity()
    }

    fn content_rect(&self) -> (rect: Rect) {
        match self {
            Layer::Container(props) => props.content_rect,
            Layer::Rect(props) => props.content_rect,
            Layer::Sample(props) => props.content_rect,
        }
    }

    fn opacity(&self) -> (opacity: Opacity) {
        match self {
            Layer::Container(props) => props.opacity,
            Layer::Rect(props) => props.opacity,
            Layer::Sample(props) => props.opacity,
        }
    }
}

} // verus!
