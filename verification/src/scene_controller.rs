//! One scene as its host drives it: the layers, their composites, and
//! the steps of a frame: changing layers, synchronizing the composites,
//! rendering.

use vstd::prelude::*;
use crate::common::LayerId;
use crate::composite::{CompositeId, CompositeRepository, CompositeTree, Surface};
use crate::compositor::{promotes_only, synchronized, Compositor};
use crate::container::{ContainerProps, ContainerUpdateCommand};
use crate::display_list::DisplayList;
use crate::geometry::{Rect, Size, Transform};
use crate::layer_renderer::{render_scene, scene_commands};
use crate::layer_repository::{LayerRepository, LayerTree};
use crate::layer_types::{Layer, LayerModel};
use crate::rect::RectProps;
use crate::sample::{SampleLayerCreationCommand, SampleLayerProps};

verus! {

/// The composites belong to the layers: both trees are well-formed, the
/// root composite is bound to the root layer, and every composite is
/// bound to a container of the layer tree.
pub open spec fn consistent(layers: LayerTree, composites: CompositeTree) -> bool {
    &&& layers.wf()
    &&& composites.wf()
    &&& composites.composites[composites.root].source_layer_id == layers.root
    &&& forall|id: CompositeId|
        composites.contains(id) ==> layers.accepts_child(
            #[trigger] composites.composites[id].source_layer_id,
        )
}

/// The container `root` with its rectangle as large as `size`.
pub open spec fn resized(root: LayerModel, size: Size) -> LayerModel {
    match root {
        LayerModel::Container(props) => LayerModel::Container(
            props.updated(
                ContainerUpdateCommand::SetContentRect(
                    Rect { origin: props.content_rect.origin, size },
                ),
            ),
        ),
        _ => root,
    }
}

/// A scene and what is derived from it.
pub struct SceneController {
    layer_repository: LayerRepository,
    composite_repository: CompositeRepository,
    compositor: Compositor,
}

impl SceneController {
    /// The layers of the scene.
    pub closed spec fn layers(&self) -> LayerTree {
        self.layer_repository@
    }

    /// The composites of the scene.
    pub closed spec fn composites(&self) -> CompositeTree {
        self.composite_repository@
    }

    /// The composites of the scene belong to its layers: see
    /// [`consistent`]. This holds of a new scene, and every operation
    /// keeps it.
    pub open spec fn wf(&self) -> bool {
        consistent(self.layers(), self.composites())
    }

    /// The size of the scene: that of the rectangle of the root layer.
    pub open spec fn size(&self) -> Size {
        self.layers().layers[self.layers().root].content_rect().size
    }

    /// A scene of the given size that holds nothing but its root.
    pub fn new(size: Size) -> (scene: SceneController)
        ensures
            scene.wf(),
            scene.layers() == LayerTree::initial(size),
            scene.composites() == CompositeTree::initial(1),
            scene.size() == size,
    {
        let layer_repository = LayerRepository::new(size);
        let composite_repository = CompositeRepository::new(layer_repository.root_layer_id());
        SceneController { layer_repository, composite_repository, compositor: Compositor::new() }
    }

    pub fn layer_repository(&self) -> (repo: &LayerRepository)
        ensures
            repo@ == self.layers(),
    {
        &self.layer_repository
    }

    pub fn composite_repository(&self) -> (repo: &CompositeRepository)
        ensures
            repo@ == self.composites(),
    {
        &self.composite_repository
    }

    /// Creates a container without children as the last child of
    /// `parent_id`.
    pub fn create_container(&mut self, parent_id: &LayerId, props: ContainerProps) -> (layer_id:
        LayerId)
        requires
            old(self).wf(),
            old(self).layers().accepts_child(*parent_id),
            props@.children.len() == 0,
        ensures
            final(self).wf(),
            layer_id == old(self).layers().next_id(),
            final(self).layers() == old(self).layers().create(
                *parent_id,
                LayerModel::Container(props@),
            ),
            final(self).composites() == old(self).composites(),
    {
        self.create_layer(parent_id, Layer::Container(props))
    }

    /// Creates a rectangle leaf as the last child of `parent_id`.
    pub fn create_leaf(&mut self, parent_id: &LayerId, props: RectProps) -> (layer_id: LayerId)
        requires
            old(self).wf(),
            old(self).layers().accepts_child(*parent_id),
        ensures
            final(self).wf(),
            layer_id == old(self).layers().next_id(),
            final(self).layers() == old(self).layers().create(*parent_id, LayerModel::Rect(props)),
            final(self).composites() == old(self).composites(),
    {
        self.create_layer(parent_id, Layer::Rect(props))
    }

    /// Creates a sample leaf that draws into `content_rect`, as the last
    /// child of `parent_id`.
    pub fn create_sample(&mut self, parent_id: &LayerId, content_rect: &Rect) -> (layer_id: LayerId)
        requires
            old(self).wf(),
            old(self).layers().accepts_child(*parent_id),
        ensures
            final(self).wf(),
            layer_id == old(self).layers().next_id(),
            final(self).layers() == old(self).layers().create(
                *parent_id,
                LayerModel::Sample(SampleLayerProps::new(SampleLayerCreationCommand(*content_rect))),
            ),
            final(self).composites() == old(self).composites(),
    {
        self.create_layer(
            parent_id,
            Layer::Sample(SampleLayerProps::new(SampleLayerCreationCommand(*content_rect))),
        )
    }

    fn create_layer(&mut self, parent_id: &LayerId, layer: Layer) -> (layer_id: LayerId)
        requires
            old(self).wf(),
            old(self).layers().accepts_child(*parent_id),
            layer@.children().len() == 0,
        ensures
            final(self).wf(),
            layer_id == old(self).layers().next_id(),
            final(self).layers() == old(self).layers().create(*parent_id, layer@),
            final(self).composites() == old(self).composites(),
    {
        let ghost before = self.layer_repository@;
        let layer_id = self.layer_repository.create_layer(parent_id, layer);
        proof {
            let after = self.layer_repository@;
            assert forall|id: LayerId| before.accepts_child(id) implies after.accepts_child(
                id,
            ) by {}
        }
        layer_id
    }

    /// Synchronizes the composites with the layers as they are now.
    pub fn update(&mut self)
        requires
            old(self).wf(),
        ensures
            final(self).wf(),
            final(self).layers() == old(self).layers(),
            final(self).composites() == synchronized(old(self).layers(), old(self).composites()),
            final(self).composites().extends(old(self).composites()),
            promotes_only(old(self).layers(), old(self).composites(), final(self).composites()),
    {
        let ghost before = self.composite_repository@;
        self.compositor.synchronize_composites(
            &self.layer_repository,
            &mut self.composite_repository,
        );
        proof {
            let after = self.composite_repository@;
            assert forall|id: CompositeId| after.contains(id) implies self.layer_repository@.accepts_child(
                #[trigger] after.composites[id].source_layer_id,
            ) by {
                if id <= before.issued {
                    assert(before.contains(id));
                }
            }
        }
    }

    /// The frame that shows the scene as it is now: as large as the
    /// root layer, and painted from nothing but the layers.
    pub fn render(&self) -> (frame: Surface)
        requires
            self.wf(),
        ensures
            frame@.size == self.size(),
            frame@.commands == scene_commands(self.layers(), Transform::identity()),
    {
        let mut draw_target = DisplayList::new();
        render_scene(&self.layer_repository, &mut draw_target);
        let size = self.layer_repository.root_container_layer().content_rect.size;
        Surface { size, commands: draw_target.commands }
    }

    /// Makes the scene as large as `size`. The root keeps its origin, and
    /// everything else stays as it is.
    pub fn handle_resize(&mut self, size: Size)
        requires
            old(self).wf(),
        ensures
            final(self).wf(),
            final(self).size() == size,
            final(self).composites() == old(self).composites(),
            final(self).layers() == old(self).layers().replace(
                old(self).layers().root,
                resized(old(self).layers().layers[old(self).layers().root], size),
            ),
    {
        let ghost before = self.layer_repository@;
        let root = self.layer_repository.get_root_layer_mut();
        match root {
            Layer::Container(props) => {
                let origin = props.content_rect.origin;
                props.update(ContainerUpdateCommand::SetContentRect(Rect::new(origin, size)));
            },
            _ => {},
        }
        proof {
            let after = self.layer_repository@;
            assert forall|id: LayerId| before.accepts_child(id) implies after.accepts_child(
                id,
            ) by {}
        }
    }
}

} // verus!
