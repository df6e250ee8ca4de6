//! The decoded world: textures, the leaves with their faces, and the models.
//!
//! A world is plain data without an invariant. A face may name a texture
//! that does not exist, and a leaf may belong to no cluster (a negative
//! cluster id); what becomes of those is decided where the scene is built.

use crate::vertex::Vertex;
use vstd::prelude::*;

verus! {

/// A texture of the world: its name, and whether surfaces that carry it are
/// drawn at all (sky, trigger and clip surfaces are not).
#[derive(Clone, Debug, PartialEq, Eq)]
pub struct Texture {
    pub name: String,
    pub drawable: bool,
}

/// A polygon: the index of its texture and its vertices in order.
#[derive(Clone, Debug, PartialEq, Eq)]
pub struct Face {
    pub texture: i32,
    pub vertices: Vec<Vertex>,
}

/// A leaf of the space partition: the cluster it belongs to (negative: none)
/// and its faces.
#[derive(Clone, Debug, PartialEq, Eq)]
pub struct Leaf {
    pub cluster: i32,
    pub faces: Vec<Face>,
}

/// A model: faces that stand outside the clusters.
#[derive(Clone, Debug, PartialEq, Eq)]
pub struct Model {
    pub faces: Vec<Face>,
}

/// A decoded world.
#[derive(Clone, Debug, PartialEq, Eq)]
pub struct World {
    pub textures: Vec<Texture>,
    pub leaves: Vec<Leaf>,
    pub models: Vec<Model>,
}

/// What a texture holds.
pub struct TextureView {
    pub name: Seq<char>,
    pub drawable: bool,
}

/// What a face holds.
pub struct FaceView {
    pub texture: int,
    pub vertices: Seq<Vertex>,
}

/// What a leaf holds.
pub struct LeafView {
    pub cluster: int,
    pub faces: Seq<FaceView>,
}

/// What a world holds: its textures, its leaves, and the faces of each model.
pub struct WorldView {
    pub textures: Seq<TextureView>,
    pub leaves: Seq<LeafView>,
    pub models: Seq<Seq<FaceView>>,
}

impl View for Texture {
    type V = TextureView;

    open spec fn view(&self) -> TextureView {
        TextureView { name: self.name@, drawable: self.drawable }
    }
}

impl View for Face {
    type V = FaceView;

    open spec fn view(&self) -> FaceView {
        FaceView { texture: self.texture as int, vertices: self.vertices@ }
    }
}

/// The views of a list of faces.
pub open spec fn face_views(faces: Seq<Face>) -> Seq<FaceView> {
    faces.map_values(|f: Face| f@)
}

impl View for Leaf {
    type V = LeafView;

    open spec fn view(&self) -> LeafView {
        LeafView { cluster: self.cluster as int, faces: face_views(self.faces@) }
    }
}

impl View for Model {
    type V = Seq<FaceView>;

    open spec fn view(&self) -> Seq<FaceView> {
        face_views(self.faces@)
    }
}

impl View for World {
    type V = WorldView;

    open spec fn view(&self) -> WorldView {
        WorldView {
            textures: self.textures@.map_values(|t: Texture| t@),
            leaves: self.leaves@.map_values(|l: Leaf| l@),
            models: self.models@.map_values(|m: Model| m@),
        }
    }
}

/// The face filter: a face with texture index `texture` gives geometry
/// exactly if that texture exists and is drawable.
pub open spec fn contributes(w: WorldView, texture: int) -> bool {
    0 <= texture < w.textures.len() && w.textures[texture].drawable
}

impl World {
    /// The texture with the given index, if there is one.
    pub fn texture(&self, index: i32) -> (found: Option<&Texture>)
        ensures
            found is Some <==> 0 <= index < self.textures@.len(),
            found matches Some(t) ==> *t == self.textures@[index as int],
    {
        if index < 0 {
            return None;
        }
        let at = index as usize;
        if at < self.textures.len() {
            Some(&self.textures[at])
        } else {
            None
        }
    }

    /// The face filter.
    pub fn draws(&self, face: &Face) -> (yes: bool)
        ensures
            yes == contributes(self@, face@.texture),
    {
        match self.texture(face.texture) {
            Some(texture) => texture.drawable,
            None => false,
        }
    }
}

} // verus!
