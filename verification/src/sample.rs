//! The sample layer: a leaf that shows a fixed decorative drawing, scaled
//! to its rectangle.

use vstd::prelude::*;
use crate::common::{Border, Fill, Opacity};
use crate::geometry::Rect;
use crate::traits::{BorderLayer, DimensionLayer, FillableLayer, TransparentLayer};

verus! {

/// The properties of a sample leaf.
#[derive(Clone, Copy, Debug, PartialEq, Eq)]
pub struct SampleLayerProps {
    /// Where the drawing lies, in its parent's coordinate space.
    pub content_rect: Rect,
    pub border: Option<Border>,
    pub fill: Option<Fill>,
    pub opacity: Opacity,
}

/// All that a new sample layer needs: the rectangle to draw into.
#[derive(Clone, Copy, Debug, PartialEq, Eq)]
pub struct SampleLayerCreationCommand(pub Rect);

/// A change to one property of a sample leaf.
#[derive(Clone, Copy, Debug, PartialEq, Eq)]
pub enum SampleLayerUpdateCommand {
    SetContentRect(Rect),
}

impl SampleLayerProps {
    /// The properties of a sample layer as `command` creates it: opaque,
    /// with neither fill nor border.
    pub open spec fn spec_new(command: SampleLayerCreationCommand) -> SampleLayerProps {
        SampleLayerProps {
            content_rect: command.0,
            border: None,
            fill: None,
            opacity: Opacity::opaque(),
        }
    }

    /// The properties of a sample layer as `command` creates it.
    #[verifier::when_used_as_spec(spec_new)]
    pub fn new(command: SampleLayerCreationCommand) -> (props: SampleLayerProps)
        ensures
            props == SampleLayerProps::spec_new(command),
    {
        SampleLayerProps {
            content_rect: command.0,
            border: None,
            fill: None,
            opacity: Opacity::opaque(),
        }
    }

    /// These properties after `command`.
    pub open spec fn updated(self, command: SampleLayerUpdateCommand) -> SampleLayerProps {
        match command {
            SampleLayerUpdateCommand::SetContentRect(content_rect) => SampleLayerProps {
                content_rect,
                ..self
            },
        }
    }

    /// Changes the one property that `command` names.
    pub fn update(&mut self, command: SampleLayerUpdateCommand)
        ensures
            *final(self) == old(self).updated(command),
    {
        match command {
            SampleLayerUpdateCommand::SetContentRect(content_rect) => {
                self.content_rect = content_rect;
            },
        }
    }
}

impl DimensionLayer for SampleLayerProps {
    open spec fn spec_content_rect(&self) -> Rect {
        self.content_rect
    }

    fn content_rect(&self) -> (rect: Rect) {
        self.content_rect
    }

    fn effective_rect(&self) -> (rect: Rect) {
        self.content_rect
    }
}

impl FillableLayer for SampleLayerProps {
    open spec fn spec_fill(&self) -> Option<Fill> {
        self.fill
    }

    fn fill(&self) -> (fill: Option<Fill>) {
        self.fill
    }
}

impl BorderLayer for SampleLayerProps {
    open spec fn spec_border(&self) -> Option<Border> {
        self.border
    }

    fn border(&self) -> (border: Option<Border>) {
        self.border
    }
}

impl TransparentLayer for SampleLayerProps {
    open spec fn spec_opacity(&self) -> Opacity {
        self.opacity
    }

    fn opacity(&self) -> (opacity: Opacity) {
        self.opacity
    }
}

} // verus!
