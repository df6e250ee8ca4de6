//! The tables of a decoded world file, as the file has them: rows that refer
//! to one another by index, and to runs of rows by a first index and a count.

use crate::vertex::Vertex;
use crate::world::{
    face_views, Face, FaceView, Leaf, LeafView, Model, Texture, TextureView, World, WorldView,
};
use vstd::prelude::*;

verus! {

/// A texture row: the name, and the surface and content flags as bit sets.
#[derive(Clone, Debug, PartialEq, Eq)]
pub struct TextureLump {
    pub name: String,
    pub surface: u32,
    pub contents: u32,
}

/// A face row: its texture, and its run of vertex rows.
#[derive(Clone, Copy, Debug, PartialEq, Eq)]
pub struct FaceLump {
    pub texture: i32,
    pub first_vertex: i32,
    pub vertex_count: i32,
}

/// A leaf row: its cluster, and its run in the table of leaf faces.
#[derive(Clone, Copy, Debug, PartialEq, Eq)]
pub struct LeafLump {
    pub cluster: i32,
    pub first_leaf_face: i32,
    pub leaf_face_count: i32,
}

/// A model row: its run of face rows.
#[derive(Clone, Copy, Debug, PartialEq, Eq)]
pub struct ModelLump {
    pub first_face: i32,
    pub face_count: i32,
}

/// The tables of a world file that the scene is built from.
#[derive(Clone, Debug, PartialEq, Eq)]
pub struct Lumps {
    pub textures: Vec<TextureLump>,
    pub vertices: Vec<Vertex>,
    pub faces: Vec<FaceLump>,
    /// The leaves' faces: each entry is the index of a face row.
    pub leaf_faces: Vec<i32>,
    pub leaves: Vec<LeafLump>,
    pub models: Vec<ModelLump>,
}

/// What a texture row holds.
pub struct TextureLumpView {
    pub name: Seq<char>,
    pub surface: u32,
    pub contents: u32,
}

/// What the tables hold.
pub struct LumpsView {
    pub textures: Seq<TextureLumpView>,
    pub vertices: Seq<Vertex>,
    pub faces: Seq<FaceLump>,
    pub leaf_faces: Seq<i32>,
    pub leaves: Seq<LeafLump>,
    pub models: Seq<ModelLump>,
}

impl View for TextureLump {
    type V = TextureLumpView;

    open spec fn view(&self) -> TextureLumpView {
        TextureLumpView { name: self.name@, surface: self.surface, contents: self.contents }
    }
}

/// What the rows of a texture table hold.
pub open spec fn texture_lump_views(rows: Seq<TextureLump>) -> Seq<TextureLumpView> {
    rows.map_values(|t: TextureLump| t@)
}

impl View for Lumps {
    type V = LumpsView;

    open spec fn view(&self) -> LumpsView {
        LumpsView {
            textures: texture_lump_views(self.textures@),
            vertices: self.vertices@,
            faces: self.faces@,
            leaf_faces: self.leaf_faces@,
            leaves: self.leaves@,
            models: self.models@,
        }
    }
}

/// The surface flags of a texture that is not drawn: sky (`0x4`) and
/// no-draw (`0x80`).
pub const UNDRAWN_SURFACES: u32 = 0x0000_0084u32;

/// The content flags of a texture that is not drawn: player clip
/// (`0x1_0000`), monster clip (`0x2_0000`) and trigger (`0x4000_0000`).
pub const UNDRAWN_CONTENTS: u32 = 0x4003_0000u32;

/// A texture is drawn unless one of those flags is set on it.
pub open spec fn draw_eligible(surface: u32, contents: u32) -> bool {
    surface & UNDRAWN_SURFACES == 0 && contents & UNDRAWN_CONTENTS == 0
}

/// A run of `count` rows from row `first` lies in a table of `len` rows: it
/// is not empty, and none of its rows is missing.
pub open spec fn run_fits(first: int, count: int, len: int) -> bool {
    count > 0 && 0 <= first && first + count <= len
}

/// The rows of a run: `count` rows of the table from row `first` on, if the
/// run lies in the table, and no row otherwise.
pub open spec fn run_of<T>(table: Seq<T>, first: int, count: int) -> Seq<T> {
    if run_fits(first, count, table.len() as int) {
        table.subrange(first, first + count)
    } else {
        Seq::empty()
    }
}

/// The texture of a texture row: its name, and whether its flags let it be drawn.
pub open spec fn texture_of(row: TextureLumpView) -> TextureView {
    TextureView { name: row.name, drawable: draw_eligible(row.surface, row.contents) }
}

/// The face of a face row: its texture index, and the vertices of its run.
pub open spec fn face_of(l: LumpsView, row: FaceLump) -> FaceView {
    FaceView {
        texture: row.texture as int,
        vertices: run_of(l.vertices, row.first_vertex as int, row.vertex_count as int),
    }
}

/// The faces that a list of leaf faces names, in the order of the list. An
/// entry that is the index of no face row is left out.
pub open spec fn named_faces(l: LumpsView, entries: Seq<i32>) -> Seq<FaceView>
    decreases entries.len(),
{
    if entries.len() == 0 {
        Seq::empty()
    } else {
        let before = named_faces(l, entries.drop_last());
        let entry = entries.last();
        if 0 <= entry < l.faces.len() {
            before.push(face_of(l, l.faces[entry as int]))
        } else {
            before
        }
    }
}

/// The leaf of a leaf row: its cluster, and the faces that its run in the
/// table of leaf faces names. Where the run lies in the table these are the
/// faces that `bsp::Handle::<Leaf>::faces` walks; where it does not, that
/// function panics, and the leaf has no faces here.
pub open spec fn leaf_of(l: LumpsView, row: LeafLump) -> LeafView {
    LeafView {
        cluster: row.cluster as int,
        faces: named_faces(
            l,
            run_of(l.leaf_faces, row.first_leaf_face as int, row.leaf_face_count as int),
        ),
    }
}

/// The model of a model row: the faces of its run of face rows.
pub open spec fn model_of(l: LumpsView, row: ModelLump) -> Seq<FaceView> {
    run_of(l.faces, row.first_face as int, row.face_count as int).map_values(
        |face: FaceLump| face_of(l, face),
    )
}

/// The world that the tables describe. Every table describes one: a row
/// that refers to rows which are not there refers to nothing.
pub open spec fn world_of(l: LumpsView) -> WorldView {
    WorldView {
        textures: l.textures.map_values(|row: TextureLumpView| texture_of(row)),
        leaves: l.leaves.map_values(|row: LeafLump| leaf_of(l, row)),
        models: l.models.map_values(|row: ModelLump| model_of(l, row)),
    }
}

/// Whether a texture with these flags is drawn.
pub fn is_draw_eligible(surface: u32, contents: u32) -> (yes: bool)
    ensures
        yes == draw_eligible(surface, contents),
{
    surface & UNDRAWN_SURFACES == 0 && contents & UNDRAWN_CONTENTS == 0
}

/// Where a run begins and ends in a table of `len` rows; a run that does not
/// lie in the table begins and ends at row 0.
fn run_bounds(first: i32, count: i32, len: usize) -> (bounds: (usize, usize))
    ensures
        bounds.0 <= bounds.1 <= len,
        run_fits(first as int, count as int, len as int) ==> bounds.0 == first && bounds.1 == first
            + count,
        !run_fits(first as int, count as int, len as int) ==> bounds.0 == 0 && bounds.1 == 0,
{
    if count > 0 && first >= 0 && first as u64 + count as u64 <= len as u64 {
        (first as usize, first as usize + count as usize)
    } else {
        (0, 0)
    }
}

impl Lumps {
    fn face(&self, row: &FaceLump) -> (face: Face)
        ensures
            face@ == face_of(self@, *row),
    {
        let (start, end) = run_bounds(row.first_vertex, row.vertex_count, self.vertices.len());
        let mut vertices: Vec<Vertex> = Vec::new();
        let mut j: usize = start;
        while j < end
            invariant
                start <= j <= end <= self.vertices.len(),
                vertices@ == self.vertices@.subrange(start as int, j as int),
            decreases end - j,
        {
            vertices.push(self.vertices[j]);
            assert(vertices@ =~= self.vertices@.subrange(start as int, j + 1));
            j += 1;
        }
        let face = Face { texture: row.texture, vertices };
        assert(face@.vertices =~= face_of(self@, *row).vertices);
        face
    }

    fn leaf(&self, row: &LeafLump) -> (leaf: Leaf)
        ensures
            leaf@ == leaf_of(self@, *row),
    {
        let (start, end) = run_bounds(
            row.first_leaf_face,
            row.leaf_face_count,
            self.leaf_faces.len(),
        );
        let ghost entries = self.leaf_faces@.subrange(start as int, end as int);
        let mut faces: Vec<Face> = Vec::new();
        let mut j: usize = start;
        assert(entries.take(0) =~= Seq::<i32>::empty());
        while j < end
            invariant
                start <= j <= end <= self.leaf_faces.len(),
                entries == self.leaf_faces@.subrange(start as int, end as int),
                face_views(faces@) == named_faces(self@, entries.take(j - start)),
            decreases end - j,
        {
            let entry = self.leaf_faces[j];
            let ghost earlier = faces@;
            assert(entries.take(j + 1 - start).drop_last() =~= entries.take(j - start));
            assert(entries.take(j + 1 - start).last() == entry);
            if entry >= 0 && (entry as usize) < self.faces.len() {
                faces.push(self.face(&self.faces[entry as usize]));
                assert(face_views(faces@) =~= face_views(earlier).push(
                    face_of(self@, self.faces@[entry as int]),
                ));
            }
            j += 1;
        }
        assert(entries.take(end - start) =~= entries);
        assert(entries =~= run_of(
            self@.leaf_faces,
            row.first_leaf_face as int,
            row.leaf_face_count as int,
        ));
        Leaf { cluster: row.cluster, faces }
    }

    fn model(&self, row: &ModelLump) -> (model: Model)
        ensures
            model@ == model_of(self@, *row),
    {
        let (start, end) = run_bounds(row.first_face, row.face_count, self.faces.len());
        let mut faces: Vec<Face> = Vec::new();
        let mut j: usize = start;
        while j < end
            invariant
                start <= j <= end <= self.faces.len(),
                faces@.len() == j - start,
                forall|n: int|
                    0 <= n < j - start ==> (#[trigger] faces@[n])@ == face_of(
                        self@,
                        self.faces@[start + n],
                    ),
            decreases end - j,
        {
            faces.push(self.face(&self.faces[j]));
            j += 1;
        }
        let model = Model { faces };
        assert(model@ =~= model_of(self@, *row));
        model
    }

    fn textures(&self) -> (textures: Vec<Texture>)
        ensures
            textures@.map_values(|t: Texture| t@) == world_of(self@).textures,
    {
        let mut textures: Vec<Texture> = Vec::new();
        let mut t: usize = 0;
        while t < self.textures.len()
            invariant
                t <= self.textures.len(),
                textures@.len() == t,
                forall|n: int|
                    0 <= n < t ==> (#[trigger] textures@[n])@ == texture_of(self.textures@[n]@),
            decreases self.textures.len() - t,
        {
            let row = &self.textures[t];
            textures.push(
                Texture {
                    name: row.name.clone(),
                    drawable: is_draw_eligible(row.surface, row.contents),
                },
            );
            t += 1;
        }
        assert(textures@.map_values(|t: Texture| t@) =~= world_of(self@).textures);
        textures
    }

    /// The world that the tables describe.
    pub fn resolve(&self) -> (world: World)
        ensures
            world@ == world_of(self@),
    {
        let mut leaves: Vec<Leaf> = Vec::new();
        let mut i: usize = 0;
        while i < self.leaves.len()
            invariant
                i <= self.leaves.len(),
                leaves@.len() == i,
                forall|n: int|
                    0 <= n < i ==> (#[trigger] leaves@[n])@ == leaf_of(self@, self.leaves@[n]),
            decreases self.leaves.len() - i,
        {
            leaves.push(self.leaf(&self.leaves[i]));
            i += 1;
        }
        let mut models: Vec<Model> = Vec::new();
        let mut m: usize = 0;
        while m < self.models.len()
            invariant
                m <= self.models.len(),
                models@.len() == m,
                forall|n: int|
                    0 <= n < m ==> (#[trigger] models@[n])@ == model_of(self@, self.models@[n]),
            decreases self.models.len() - m,
        {
            models.push(self.model(&self.models[m]));
            m += 1;
        }
        let world = World { textures: self.textures(), leaves, models };
        assert(world@.leaves =~= world_of(self@).leaves);
        assert(world@.models =~= world_of(self@).models);
        world
    }
}

} // verus!
