//! The plain rectangle: a leaf that paints its own fill and border.

use vstd::prelude::*;
use crate::common::{Border, Fill, Opacity};
use crate::geometry::Rect;
use crate::traits::{BorderLayer, DimensionLayer, FillableLayer, TransparentLayer};

verus! {

/// The properties of a rectangle leaf.
#[derive(Clone, Copy, Debug, PartialEq, Eq)]
pub struct RectProps {
    /// Where the rectangle lies, in its parent's coordinate space.
    pub content_rect: Rect,
    pub border: Option<Border>,
    pub fill: Option<Fill>,
    pub opacity: Opacity,
}

/// A change to one property of a rectangle leaf.
#[derive(Clone, Copy, Debug, PartialEq, Eq)]
pub enum RectUpdateCommand {
    SetContentRect(Rect),
    SetBorder(Option<Border>),
    SetFill(Option<Fill>),
    SetOpacity(Opacity),
}

impl RectProps {
    /// These properties after `command`.
    pub open spec fn updated(self, command: RectUpdateCommand) -> RectProps {
        match command {
            RectUpdateCommand::SetContentRect(content_rect) => RectProps { content_rect, ..self },
            RectUpdateCommand::SetBorder(border) => RectProps { border, ..self },
            RectUpdateCommand::SetFill(fill) => RectProps { fill, ..self },
            RectUpdateCommand::SetOpacity(opacity) => RectProps { opacity, ..self },
        }
    }

    /// Changes the one property that `command` names.
    pub fn update(&mut self, command: RectUpdateCommand)
        ensures
            *final(self) == old(self).updated(command),
    {
        match command {
            RectUpdateCommand::SetContentRect(content_rect) => {
                self.content_rect = content_rect;
            },
            RectUpdateCommand::SetBorder(border) => {
                self.border = border;
            },
            RectUpdateCommand::SetFill(fill) => {
                self.fill = fill;
            },
            RectUpdateCommand::SetOpacity(opacity) => {
                self.opacity = opacity;
            },
        }
    }
}

impl DimensionLayer for RectProps {
    open spec fn spec_content_rect(&self) -> Rect {
        self.content_rect
    }

    fn content_rect(&self) -> (rect: Rect) {
        self.content_rect
    }

    fn effective_rect(&self) -> (rect: Rect) {
        self.content_rect
    }
}

impl FillableLayer for RectProps {
    open spec fn spec_fill(&self) -> Option<Fill> {
        self.fill
    }

    fn fill(&self) -> (fill: Option<Fill>) {
        self.fill
    }
}

impl BorderLayer for RectProps {
    open spec fn spec_border(&self) -> Option<Border> {
        self.border
    }

    fn border(&self) -> (border: Option<Border>) {
        self.border
    }
}

impl TransparentLayer for RectProps {
    open spec fn spec_opacity(&self) -> Opacity {
        self.opacity
    }

    fn opacity(&self) -> (opacity: Opacity) {
        self.opacity
    }
}

} // verus!
