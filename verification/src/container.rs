//! The container: the one kind of layer that has children, and that gives
//! them a coordinate space of their own.

use vstd::prelude::*;
use crate::common::{Border, Fill, LayerId, Opacity};
use crate::geometry::Rect;
use crate::traits::{BorderLayer, DimensionLayer, FillableLayer, TransparentLayer};

verus! {

/// The properties of a container.
#[derive(Debug, PartialEq)]
pub struct ContainerProps {
    /// Where the container lies, in its parent's coordinate space. Its
    /// origin is the origin of the space that its children live in.
    pub content_rect: Rect,
    pub border: Option<Border>,
    pub fill: Option<Fill>,
    pub opacity: Opacity,
    /// The children, in the order in which they are painted.
    pub children: Vec<LayerId>,
}

/// A container as contracts see it: its properties, with the children as
/// a sequence.
pub struct ContainerModel {
    pub content_rect: Rect,
    pub border: Option<Border>,
    pub fill: Option<Fill>,
    pub opacity: Opacity,
    pub children: Seq<LayerId>,
}

impl View for ContainerProps {
    type V = ContainerModel;

    open spec fn view(&self) -> ContainerModel {
        ContainerModel {
            content_rect: self.content_rect,
            border: self.border,
            fill: self.fill,
            opacity: self.opacity,
            children: self.children@,
        }
    }
}

/// A change to one property of a container. None of them touches the
/// children.
#[derive(Clone, Copy, Debug, PartialEq, Eq)]
pub enum ContainerUpdateCommand {
    SetContentRect(Rect),
    SetBorder(Option<Border>),
    SetFill(Option<Fill>),
    SetOpacity(Opacity),
}

impl ContainerModel {
    /// This container after `command`.
    pub open spec fn updated(self, command: ContainerUpdateCommand) -> ContainerModel {
        match command {
            ContainerUpdateCommand::SetContentRect(content_rect) => ContainerModel {
                content_rect,
                ..self
            },
            ContainerUpdateCommand::SetBorder(border) => ContainerModel { border, ..self },
            ContainerUpdateCommand::SetFill(fill) => ContainerModel { fill, ..self },
            ContainerUpdateCommand::SetOpacity(opacity) => ContainerModel { opacity, ..self },
        }
    }

    /// This container with `child` as its new last child.
    pub open spec fn with_child(self, child: LayerId) -> ContainerModel {
        ContainerModel { children: self.children.push(child), ..self }
    }
}

impl ContainerProps {
    /// Changes the one property that `command` names.
    pub fn update(&mut self, command: ContainerUpdateCommand)
        ensures
            final(self)@ == old(self)@.updated(command),
    {
        match command {
            ContainerUpdateCommand::SetContentRect(content_rect) => {
                self.content_rect = content_rect;
            },
            ContainerUpdateCommand::SetBorder(border) => {
                self.border = border;
            },
            ContainerUpdateCommand::SetFill(fill) => {
                self.fill = fill;
            },
            ContainerUpdateCommand::SetOpacity(opacity) => {
                self.opacity = opacity;
            },
        }
    }
}

impl DimensionLayer for ContainerProps {
    open spec fn spec_content_rect(&self) -> Rect {
        self.content_rect
    }

    fn content_rect(&self) -> (rect: Rect) {
        self.content_rect
    }

    fn effective_rect(&self) -> (rect: Rect) {
        self.content_rect
    }
}

impl BorderLayer for ContainerProps {
    open spec fn spec_border(&self) -> Option<Border> {
        self.border
    }

    fn border(&self) -> (border: Option<Border>) {
        self.border
    }
}

impl TransparentLayer for ContainerProps {
    open spec fn spec_opacity(&self) -> Opacity {
        self.opacity
    }

    fn opacity(&self) -> (opacity: Opacity) {
        self.opacity
    }
}

impl FillableLayer for ContainerProps {
    open spec fn spec_fill(&self) -> Option<Fill> {
        self.fill
    }

    fn fill(&self) -> (fill: Option<Fill>) {
        self.fill
    }
}

} // verus!
