//! The properties of a run of text.

use vstd::prelude::*;
use crate::common::{Fill, Opacity};
use crate::geometry::Rect;
use crate::traits::{DimensionLayer, TransparentLayer};

verus! {

/// A line of text, the colour it is set in and the rectangle it is set
/// into.
#[derive(Debug, PartialEq)]
pub struct SimpleTextProps {
    pub content_rect: Rect,
    pub fill: Fill,
    pub opacity: Opacity,
    pub text: String,
}

impl DimensionLayer for SimpleTextProps {
    open spec fn spec_content_rect(&self) -> Rect {
        self.content_rect
    }

    fn content_rect(&self) -> (rect: Rect) {
        self.content_rect
    }

    fn effective_rect(&self) -> (rect: Rect) {
        self.content_rect
    }
}

impl TransparentLayer for SimpleTextProps {
    open spec fn spec_opacity(&self) -> Opacity {
        self.opacity
    }

    fn opacity(&self) -> (opacity: Opacity) {
        self.opacity
    }
}

} // verus!
