//! Turns a decoded world of leaves, faces and textures into a scene: a node
//! for each visibility cluster, and below it one vertex buffer for each
//! texture that the cluster's faces are drawn with; the same, without a
//! parent, for the faces of the world's models.

pub mod batch;
pub mod format;
pub mod grouping;
pub mod laws;
pub mod lumps;
pub mod scene;
pub mod vertex;
pub mod world;

pub use bsp;

pub use crate::format::{BspAsset, BspFormat, LoadFailure};
pub use crate::scene::{assemble, BspPrefabElement, Cluster, Resolution, Scene, SceneNode, TextureRef};
pub use crate::world::World;
