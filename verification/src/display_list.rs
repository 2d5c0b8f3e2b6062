//! The display list: the paint commands of a drawing, in the order in
//! which a rasterizer carries them out.

use vstd::prelude::*;
use crate::common::{Fill, Opacity};
use crate::geometry::{Rect, Transform};

verus! {

/// One step of a drawing.
#[derive(Clone, Copy, Debug, PartialEq, Eq)]
pub enum PaintCommand {
    /// Opens an opacity group: what is drawn until the matching
    /// [`PaintCommand::PopLayer`] is blended as a whole, by `opacity`, into
    /// what was there before.
    PushLayer { opacity: Opacity },
    /// Closes the innermost open opacity group.
    PopLayer,
    /// Fills the rectangle `rect`, moved by `transform`, with `fill`.
    Fill { transform: Transform, rect: Rect, fill: Fill },
    /// Strokes the edge of the rectangle `rect`, moved by `transform`,
    /// with a line of width `width`, centred on the edge.
    Stroke { transform: Transform, rect: Rect, fill: Fill, width: u32 },
    /// Draws the sample drawing, scaled to `rect` and moved by
    /// `transform`.
    Sample { transform: Transform, rect: Rect },
}

impl PaintCommand {
    /// This command with its transform moved by `by`. The commands that
    /// open and close groups have none.
    pub open spec fn shifted(self, by: Transform) -> PaintCommand {
        match self {
            PaintCommand::PushLayer { opacity } => self,
            PaintCommand::PopLayer => self,
            PaintCommand::Fill { transform, rect, fill } => PaintCommand::Fill {
                transform: transform.shifted(by),
                rect,
                fill,
            },
            PaintCommand::Stroke { transform, rect, fill, width } => PaintCommand::Stroke {
                transform: transform.shifted(by),
                rect,
                fill,
                width,
            },
            PaintCommand::Sample { transform, rect } => PaintCommand::Sample {
                transform: transform.shifted(by),
                rect,
            },
        }
    }
}

/// A drawing in the making: the commands recorded so far, and the
/// transform under which the next shape is recorded.
#[derive(Debug, PartialEq)]
pub struct DisplayList {
    pub transform: Transform,
    pub commands: Vec<PaintCommand>,
}

impl DisplayList {
    /// The empty drawing, under the identity transform.
    pub fn new() -> (list: DisplayList)
        ensures
            list.transform == Transform::identity(),
            list.commands@ == Seq::<PaintCommand>::empty(),
    {
        DisplayList { transform: Transform::identity(), commands: Vec::new() }
    }

    /// Forgets every command. The transform stays.
    pub fn clear(&mut self)
        ensures
            final(self).transform == old(self).transform,
            final(self).commands@ == Seq::<PaintCommand>::empty(),
    {
        self.commands.clear();
    }

    pub fn get_transform(&self) -> (transform: &Transform)
        ensures
            *transform == self.transform,
    {
        &self.transform
    }

    pub fn set_transform(&mut self, transform: &Transform)
        ensures
            final(self).transform == *transform,
            final(self).commands@ == old(self).commands@,
    {
        self.transform = *transform;
    }

    /// Opens an opacity group.
    pub fn push_layer(&mut self, opacity: Opacity)
        ensures
            final(self).transform == old(self).transform,
            final(self).commands@ == old(self).commands@.push(PaintCommand::PushLayer { opacity }),
    {
        self.commands.push(PaintCommand::PushLayer { opacity });
    }

    /// Closes the innermost open opacity group.
    pub fn pop_layer(&mut self)
        ensures
            final(self).transform == old(self).transform,
            final(self).commands@ == old(self).commands@.push(PaintCommand::PopLayer),
    {
        self.commands.push(PaintCommand::PopLayer);
    }

    /// Fills `rect` under the current transform.
    pub fn fill(&mut self, rect: &Rect, fill: &Fill)
        ensures
            final(self).transform == old(self).transform,
            final(self).commands@ == old(self).commands@.push(
                PaintCommand::Fill { transform: old(self).transform, rect: *rect, fill: *fill },
            ),
    {
        let transform = self.transform;
        self.commands.push(PaintCommand::Fill { transform, rect: *rect, fill: *fill });
    }

    /// Strokes the edge of `rect` under the current transform.
    pub fn stroke(&mut self, rect: &Rect, fill: &Fill, width: u32)
        ensures
            final(self).transform == old(self).transform,
            final(self).commands@ == old(self).commands@.push(
                PaintCommand::Stroke { transform: old(self).transform, rect: *rect, fill: *fill, width },
            ),
    {
        let transform = self.transform;
        self.commands.push(PaintCommand::Stroke { transform, rect: *rect, fill: *fill, width });
    }

    /// Draws the sample drawing into `rect` under the current transform.
    pub fn sample(&mut self, rect: &Rect)
        ensures
            final(self).transform == old(self).transform,
            final(self).commands@ == old(self).commands@.push(
                PaintCommand::Sample { transform: old(self).transform, rect: *rect },
            ),
    {
        let transform = self.transform;
        self.commands.push(PaintCommand::Sample { transform, rect: *rect });
    }
}

} // verus!
