//! A retained tree of visual layers, the tree of composites derived from
//! it, and the walk that paints a frame.
//!
//! - [`layer_repository`] owns the layers: containers, which have
//!   children and give them a coordinate space of their own, and leaves,
//!   which paint.
//! - [`compositing_reason`] decides which layers are rendered into a
//!   surface of their own, [`composite`] owns the composites that stand
//!   for them, and [`compositor`] grows the composite tree to match the
//!   layer tree.
//! - [`layer_renderer`] paints a tree of layers into a
//!   [`display_list`]: the paint commands of one frame, with every
//!   transform composed and every opacity group bracketed. Turning paint
//!   commands into pixels is left to a rasterizer.
//! - [`scene_controller`] holds one scene and runs the steps of a frame.
//!
//! Coordinates are integers. An opacity is the bit pattern of a
//! single-precision number, which the library hands on and compares with
//! one.
//!
//! What holds of all trees is proved next to what it is about:
//! [`settling`] shows that synchronizing twice is synchronizing once,
//! [`opacity_groups`] that groups are opened for exactly the layers that
//! are not opaque and nest, [`placement`] that every layer is painted
//! under the composed translations of the containers around it.

pub mod ancestry;
pub mod common;
pub mod composite;
pub mod compositing_reason;
pub mod compositor;
pub mod container;
pub mod display_list;
pub mod drawable;
pub mod geometry;
pub mod layer_rasterizer;
pub mod layer_renderer;
pub mod layer_repository;
pub mod layer_types;
pub mod opacity_groups;
pub mod placement;
pub mod rasterizer;
pub mod rect;
pub mod sample;
pub mod scene_controller;
pub mod settling;
pub mod simple_text;
pub mod traits;
