//! The closed set of layer kinds.

use vstd::prelude::*;
use crate::common::{LayerId, Opacity};
use crate::container::{ContainerModel, ContainerProps};
use crate::geometry::Rect;
use crate::rect::RectProps;
use crate::sample::SampleLayerProps;

verus! {

/// One node of the layer tree.
#[derive(Debug, PartialEq)]
pub enum Layer {
    /// The only kind that has children.
    Container(ContainerProps),
    /// A leaf that paints a filled and stroked rectangle.
    Rect(RectProps),
    /// A leaf that paints the sample drawing.
    Sample(SampleLayerProps),
}

/// A layer as contracts see it.
pub enum LayerModel {
    Container(ContainerModel),
    Rect(RectProps),
    Sample(SampleLayerProps),
}

impl View for Layer {
    type V = LayerModel;

    open spec fn view(&self) -> LayerModel {
        match self {
            Layer::Container(props) => LayerModel::Container(props@),
            Layer::Rect(props) => LayerModel::Rect(*props),
            Layer::Sample(props) => LayerModel::Sample(*props),
        }
    }
}

impl LayerModel {
    /// The children of the layer, in paint order; a leaf has none.
    pub open spec fn children(self) -> Seq<LayerId> {
        match self {
            LayerModel::Container(props) => props.children,
            _ => Seq::empty(),
        }
    }

    /// The rectangle of the layer, in its parent's coordinate space.
    pub open spec fn content_rect(self) -> Rect {
        match self {
            LayerModel::Container(props) => props.content_rect,
            LayerModel::Rect(props) => props.content_rect,
            LayerModel::Sample(props) => props.content_rect,
        }
    }

    pub open spec fn opacity(self) -> Opacity {
        match self {
            LayerModel::Container(props) => props.opacity,
            LayerModel::Rect(props) => props.opacity,
            LayerModel::Sample(props) => props.opacity,
        }
    }

    /// The layer with `child` as its new last child. A leaf takes none.
    pub open spec fn with_child(self, child: LayerId) -> LayerModel {
        match self {
            LayerModel::Container(props) => LayerModel::Container(props.with_child(child)),
            _ => self,
        }
    }

    /// Both are containers or both are leaves, and they have the same
    /// children: what the shape of the tree depends on.
    pub open spec fn same_structure(self, other: LayerModel) -> bool {
        &&& self is Container <==> other is Container
        &&& self.children() == other.children()
    }

    /// The empty, opaque container at the origin.
    pub open spec fn empty_container() -> LayerModel {
        LayerModel::Container(
            ContainerModel {
                content_rect: Rect::zero(),
                border: None,
                fill: None,
                opacity: Opacity::opaque(),
                children: Seq::empty(),
            },
        )
    }
}

impl Default for Layer {
    /// The empty, opaque container at the origin, with neither fill nor
    /// border.
    fn default() -> (layer: Layer)
        ensures
            layer@ == LayerModel::empty_container(),
    {
        Layer::Container(
            ContainerProps {
                opacity: Opacity::opaque(),
                content_rect: Rect::zero(),
                border: None,
                fill: None,
                children: Vec::new(),
            },
        )
    }
}

} // verus!
