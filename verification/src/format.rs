//! Loading a world file: the bytes are decoded by the `bsp` crate, the
//! decoded tables are read out of its value, resolved into a world, and the
//! world is turned into its scene.

use crate::lumps::{
    texture_lump_views, world_of, FaceLump, LeafLump, Lumps, LumpsView, ModelLump, TextureLump,
    TextureLumpView,
};
use crate::scene::{assemble, scene_of, Scene};
use crate::vertex::Vertex;
use bsp::Bsp;
use vstd::prelude::*;

verus! {

/// The decoder's world; nothing of its inside is known here.
#[verifier::external_type_specification]
#[verifier::external_body]
pub struct ExBsp(bsp::Bsp);

/// The error that the decoder gives.
#[verifier::external_type_specification]
#[verifier::external_body]
pub struct ExIoError(std::io::Error);

/// A decoded world file.
pub struct BspAsset(pub Bsp);

/// The rows of the texture table of a decoded world.
pub uninterp spec fn texture_table(world: Bsp) -> Seq<TextureLumpView>;

/// The rows of the vertex table of a decoded world.
pub uninterp spec fn vertex_table(world: Bsp) -> Seq<Vertex>;

/// The rows of the face table of a decoded world.
pub uninterp spec fn face_table(world: Bsp) -> Seq<FaceLump>;

/// The rows of the table of leaf faces of a decoded world.
pub uninterp spec fn leaf_face_table(world: Bsp) -> Seq<i32>;

/// The rows of the leaf table of a decoded world.
pub uninterp spec fn leaf_table(world: Bsp) -> Seq<LeafLump>;

/// The rows of the model table of a decoded world.
pub uninterp spec fn model_table(world: Bsp) -> Seq<ModelLump>;

/// The tables that the decoder finds in a file, if it accepts the file.
pub uninterp spec fn decoded(bytes: Seq<u8>) -> Option<LumpsView>;

/// The tables that a decoded world holds.
pub open spec fn tables(world: Bsp) -> LumpsView {
    LumpsView {
        textures: texture_table(world),
        vertices: vertex_table(world),
        faces: face_table(world),
        leaf_faces: leaf_face_table(world),
        leaves: leaf_table(world),
        models: model_table(world),
    }
}

/// The texture table of a decoded world.
///
/// Reads the field `textures` of `bsp::Bsp`: each row gives its name as a
/// string and its two flag sets as their bits.
#[verifier::external_body]
fn texture_rows(world: &Bsp) -> (rows: Vec<TextureLump>)
    ensures
        texture_lump_views(rows@) == texture_table(*world),
{
    world.textures.iter().map(
        |t| TextureLump {
            name: t.name.to_string(),
            surface: t.flags.bits(),
            contents: t.contents.bits(),
        },
    ).collect()
}

/// The vertex table of a decoded world.
///
/// Reads the field `vertexes` of `bsp::Bsp`: of each row the position, the
/// normal and the first texture coordinate (the one on the surface), every
/// number as its bit pattern.
#[verifier::external_body]
fn vertex_rows(world: &Bsp) -> (rows: Vec<Vertex>)
    ensures
        rows@ == vertex_table(*world),
{
    world.vertexes.iter().map(
        |v| Vertex {
            position: v.position.map(|c| c.to_bits()),
            normal: v.normal.map(|c| c.to_bits()),
            surface_texcoord: v.tex_coord1.map(|c| c.to_bits()),
        },
    ).collect()
}

/// The face table of a decoded world.
///
/// Reads the field `faces` of `bsp::Bsp`: of each row the texture index and
/// the run of vertex rows.
#[verifier::external_body]
fn face_rows(world: &Bsp) -> (rows: Vec<FaceLump>)
    ensures
        rows@ == face_table(*world),
{
    world.faces.iter().map(
        |f| FaceLump { texture: f.texture, first_vertex: f.vertex, vertex_count: f.num_vertexes },
    ).collect()
}

/// The table of leaf faces of a decoded world.
///
/// Reads the field `leaf_faces` of `bsp::Bsp`: each row is a face index.
#[verifier::external_body]
fn leaf_face_rows(world: &Bsp) -> (rows: Vec<i32>)
    ensures
        rows@ == leaf_face_table(*world),
{
    world.leaf_faces.iter().map(|l| l.face).collect()
}

/// The leaf table of a decoded world.
///
/// Reads the field `leafs` of `bsp::Bsp`: of each row the cluster and the
/// run in the table of leaf faces.
#[verifier::external_body]
fn leaf_rows(world: &Bsp) -> (rows: Vec<LeafLump>)
    ensures
        rows@ == leaf_table(*world),
{
    world.leafs.iter().map(
        |l| LeafLump {
            cluster: l.cluster,
            first_leaf_face: l.leaf_face,
            leaf_face_count: l.num_leaf_faces,
        },
    ).collect()
}

/// The model table of a decoded world.
///
/// Reads the field `models` of `bsp::Bsp`: of each row the run of face rows.
#[verifier::external_body]
fn model_rows(world: &Bsp) -> (rows: Vec<ModelLump>)
    ensures
        rows@ == model_table(*world),
{
    world.models.iter().map(|m| ModelLump { first_face: m.face, face_count: m.num_faces }).collect()
}

/// The tables of a decoded world.
pub fn lumps_of(world: &Bsp) -> (lumps: Lumps)
    ensures
        lumps@ == tables(*world),
{
    Lumps {
        textures: texture_rows(world),
        vertices: vertex_rows(world),
        faces: face_rows(world),
        leaf_faces: leaf_face_rows(world),
        leaves: leaf_rows(world),
        models: model_rows(world),
    }
}

/// Where the directory of a world file ends: after the four bytes of the
/// mark, the four of the version, and seventeen entries of eight bytes.
pub const DIRECTORY_END: usize = 144;

/// The directory entry of the visibility data, the last one.
pub const VISIBILITY: usize = 16;

/// The version of the format that the decoder reads.
pub const VERSION: u64 = 0x2e;

/// The first number that a signed 32-bit word cannot hold.
pub const WORD_LIMIT: u64 = 0x8000_0000;

/// The four bytes at `at` as an unsigned little-endian number. Read as a
/// signed word the number is negative exactly if it is not below `WORD_LIMIT`.
pub open spec fn word_at(bytes: Seq<u8>, at: int) -> int {
    bytes[at] + 256 * bytes[at + 1] + 65536 * bytes[at + 2] + 16777216 * bytes[at + 3]
}

/// The file is long enough for a directory and begins with the mark `IBSP`
/// and the version: the decoder will go on to read the directory.
pub open spec fn claims_world(bytes: Seq<u8>) -> bool {
    &&& bytes.len() >= DIRECTORY_END
    &&& bytes[0] == 0x49
    &&& bytes[1] == 0x42
    &&& bytes[2] == 0x53
    &&& bytes[3] == 0x50
    &&& word_at(bytes, 4) == VERSION
}

/// The length of entry `k` of the directory is not negative. Where the
/// entry points and whether the file reaches that far is left to the decoder.
pub open spec fn length_fits(bytes: Seq<u8>, k: int) -> bool {
    word_at(bytes, 12 + 8 * k) < WORD_LIMIT
}

/// The visibility data, where its offset is not negative and the file is
/// long enough to hold its head of two words there, names no more vectors
/// than the rest of the file can hold: the number of vectors or their size
/// is zero; or neither is negative, and their product is at most the number
/// of bytes that follow the head. The length of its directory entry plays
/// no part.
pub open spec fn visibility_fits(bytes: Seq<u8>) -> bool {
    let at = word_at(bytes, 8 + 8 * VISIBILITY);
    at < WORD_LIMIT && at + 8 <= bytes.len() ==> {
        let vectors = word_at(bytes, at);
        let size = word_at(bytes, at + 4);
        vectors == 0 || size == 0 || (vectors < WORD_LIMIT && size < WORD_LIMIT && vectors * size
            <= bytes.len() - at - 8)
    }
}

/// The file can be handed to the decoder: if it claims to be a world, then
/// no entry before that of the visibility data has a negative length, and
/// the visibility data fits.
pub open spec fn guarded(bytes: Seq<u8>) -> bool {
    claims_world(bytes) ==> visibility_fits(bytes) && forall|k: int|
        0 <= k < VISIBILITY ==> #[trigger] length_fits(bytes, k)
}

fn word(bytes: &Vec<u8>, at: usize) -> (w: u64)
    requires
        at + 4 <= bytes.len(),
    ensures
        w == word_at(bytes@, at as int),
        w < 0x1_0000_0000,
{
    let b0 = bytes[at] as u64;
    let b1 = bytes[at + 1] as u64;
    let b2 = bytes[at + 2] as u64;
    let b3 = bytes[at + 3] as u64;
    b0 + 256 * b1 + 65536 * b2 + 16777216 * b3
}

fn is_world(bytes: &Vec<u8>) -> (yes: bool)
    ensures
        yes == claims_world(bytes@),
{
    bytes.len() >= DIRECTORY_END && bytes[0] == 0x49 && bytes[1] == 0x42 && bytes[2] == 0x53
        && bytes[3] == 0x50 && word(bytes, 4) == VERSION
}

fn visibility_is_bounded(bytes: &Vec<u8>) -> (yes: bool)
    requires
        bytes.len() >= DIRECTORY_END,
    ensures
        yes == visibility_fits(bytes@),
{
    let offset = word(bytes, 8 + 8 * VISIBILITY);
    if offset >= WORD_LIMIT || offset + 8 > bytes.len() as u64 {
        return true;
    }
    let at = offset as usize;
    let vectors = word(bytes, at);
    let size = word(bytes, at + 4);
    if vectors == 0 || size == 0 {
        return true;
    }
    if vectors >= WORD_LIMIT || size >= WORD_LIMIT {
        return false;
    }
    assert(vectors * size <= 0x8000_0000 * 0x8000_0000) by (nonlinear_arith)
        requires
            vectors < 0x8000_0000,
            size < 0x8000_0000,
    ;
    vectors * size <= (bytes.len() - at - 8) as u64
}

/// Whether the file can be handed to the decoder.
pub fn is_guarded(bytes: &Vec<u8>) -> (yes: bool)
    ensures
        yes == guarded(bytes@),
{
    if !is_world(bytes) {
        return true;
    }
    let mut k: usize = 0;
    while k < VISIBILITY
        invariant
            k <= VISIBILITY,
            bytes.len() >= DIRECTORY_END,
            claims_world(bytes@),
            forall|j: int| 0 <= j < k ==> #[trigger] length_fits(bytes@, j),
        decreases VISIBILITY - k,
    {
        if word(bytes, 12 + 8 * k) >= WORD_LIMIT {
            assert(!length_fits(bytes@, k as int));
            return false;
        }
        k += 1;
    }
    visibility_is_bounded(bytes)
}

/// Why a world file could not be loaded.
#[derive(Debug)]
pub enum LoadFailure {
    /// The file claims to be a world, but its directory holds a negative
    /// length, or its visibility data names a negative number of bytes or
    /// more than the file holds: the decoder cannot be asked.
    Directory,
    /// The decoder did not accept the file.
    Decode(std::io::Error),
}

/// Decodes a world file.
///
/// Calls `bsp::Bsp::read` on a cursor over the bytes. That function answers
/// from the bytes alone, so what it finds has a name, `decoded`: it accepts
/// the file exactly if `decoded` is `Some`, and the world it then gives
/// holds the tables named. It reads the mark and the
/// version, then the directory as seventeen pairs of little-endian words,
/// and allocates for each entry but the last as its length says, before it
/// reads; for the visibility data it allocates as the product of the two
/// words at the entry's offset says. On a negative length that allocation
/// panics, and so does the product or its allocation where a count or size
/// is negative and neither is zero; a product larger than the file is
/// allocated for nothing: `guarded` leaves those files out, and no others. An entry
/// that points beyond the file makes the decoder read less or fail; it does
/// not make it panic.
#[verifier::external_body]
fn read_world(bytes: Vec<u8>) -> (read: Result<Bsp, std::io::Error>)
    requires
        guarded(bytes@),
    ensures
        read is Ok <==> decoded(bytes@) is Some,
        read matches Ok(world) ==> decoded(bytes@) == Some(tables(world)),
{
    Bsp::read(std::io::Cursor::new(bytes))
}

/// What loading a file as a decoded world gives: the decoder's world with
/// the tables that the decoder finds in the file; or the failure, which is
/// `Directory` exactly if the file cannot be handed to the decoder, and
/// `Decode` exactly if it can and the decoder does not accept it.
pub open spec fn is_asset_of(bytes: Seq<u8>, loaded: Result<BspAsset, LoadFailure>) -> bool {
    if !guarded(bytes) {
        loaded matches Err(LoadFailure::Directory)
    } else {
        match decoded(bytes) {
            None => loaded matches Err(LoadFailure::Decode(_)),
            Some(found) => loaded matches Ok(asset) && tables(asset.0) == found,
        }
    }
}

/// What loading a file as a scene gives: the scene of the world that the
/// decoded tables describe; or the failure, which is as for a decoded world.
/// A file that the decoder accepts always has a scene.
pub open spec fn is_scene_of(bytes: Seq<u8>, loaded: Result<Scene, LoadFailure>) -> bool {
    if !guarded(bytes) {
        loaded matches Err(LoadFailure::Directory)
    } else {
        match decoded(bytes) {
            None => loaded matches Err(LoadFailure::Decode(_)),
            Some(found) => loaded matches Ok(scene) && scene@ == scene_of(world_of(found)),
        }
    }
}

/// The scene of a decoded world.
pub fn scene_from(world: &Bsp) -> (scene: Scene)
    ensures
        scene@ == scene_of(world_of(tables(*world))),
{
    assemble(&lumps_of(world).resolve())
}

/// The format of world files.
#[derive(Clone, Debug)]
pub struct BspFormat;

impl BspFormat {
    /// Loads a world file as a decoded world.
    pub fn import_asset(&self, bytes: Vec<u8>) -> (loaded: Result<BspAsset, LoadFailure>)
        ensures
            is_asset_of(bytes@, loaded),
            guarded(bytes@) ==> (loaded is Ok <==> decoded(bytes@) is Some),
    {
        if !is_guarded(&bytes) {
            return Err(LoadFailure::Directory);
        }
        match read_world(bytes) {
            Ok(world) => Ok(BspAsset(world)),
            Err(failure) => Err(LoadFailure::Decode(failure)),
        }
    }

    /// Loads a world file as a scene. A file that the decoder accepts always
    /// loads: what its tables leave open gives less geometry, not a failure.
    pub fn import(&self, bytes: Vec<u8>) -> (loaded: Result<Scene, LoadFailure>)
        ensures
            is_scene_of(bytes@, loaded),
            guarded(bytes@) ==> (loaded is Ok <==> decoded(bytes@) is Some),
    {
        if !is_guarded(&bytes) {
            return Err(LoadFailure::Directory);
        }
        match read_world(bytes) {
            Ok(world) => Ok(scene_from(&world)),
            Err(failure) => Err(LoadFailure::Decode(failure)),
        }
    }
}

} // verus!
