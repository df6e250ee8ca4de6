//! Batches: the faces of one cluster, or of one model, grouped by texture and
//! turned into one vertex buffer for each texture that is drawn.

use crate::grouping::{as_ints, group_by_key, has_group, is_grouping, positions_of};
use crate::vertex::{transcode, transcoded, PosNormTex, Vertex};
use crate::world::{contributes, Face, FaceView, World, WorldView};
use vstd::prelude::*;

verus! {

/// The vertex buffer of one texture.
#[derive(Clone, Debug)]
pub struct Batch {
    pub texture: usize,
    pub vertices: Vec<PosNormTex>,
}

/// What a batch holds.
pub struct BatchView {
    pub texture: int,
    pub vertices: Seq<PosNormTex>,
}

impl View for Batch {
    type V = BatchView;

    open spec fn view(&self) -> BatchView {
        BatchView { texture: self.texture as int, vertices: self.vertices@ }
    }
}

/// What a list of batches holds.
pub open spec fn batch_views(batches: Seq<Batch>) -> Seq<BatchView> {
    batches.map_values(|b: Batch| b@)
}

/// The views of the faces that a working list refers to.
pub open spec fn ref_views(faces: Seq<&Face>) -> Seq<FaceView> {
    faces.map_values(|f: &Face| f@)
}

/// The faces that carry the texture with index `texture`, in their order.
pub open spec fn faces_with(faces: Seq<FaceView>, texture: int) -> Seq<FaceView> {
    faces.filter(|f: FaceView| f.texture == texture)
}

/// The vertices of the faces: face after face, each face's in its own order.
pub open spec fn vertices_of(faces: Seq<FaceView>) -> Seq<Vertex>
    decreases faces.len(),
{
    if faces.len() == 0 {
        Seq::empty()
    } else {
        vertices_of(faces.drop_last()) + faces.last().vertices
    }
}

/// The vertices of the faces in the renderer's convention.
pub open spec fn mesh_of(faces: Seq<FaceView>) -> Seq<PosNormTex> {
    vertices_of(faces).map_values(|v: Vertex| transcoded(v))
}

/// The batch of texture `texture`: everything that the faces with that
/// texture hold.
pub open spec fn batch_for(faces: Seq<FaceView>, texture: int) -> BatchView {
    BatchView { texture, vertices: mesh_of(faces_with(faces, texture)) }
}

/// Whether texture `texture` gets a batch: it passes the face filter, and
/// its faces have at least one vertex between them.
pub open spec fn emits(w: WorldView, faces: Seq<FaceView>, texture: int) -> bool {
    contributes(w, texture) && batch_for(faces, texture).vertices.len() > 0
}

/// The batches of the textures with an index below `n`, by ascending index.
pub open spec fn batches_below(w: WorldView, faces: Seq<FaceView>, n: int) -> Seq<BatchView>
    decreases n,
{
    if n <= 0 {
        Seq::empty()
    } else {
        let lower = batches_below(w, faces, n - 1);
        if emits(w, faces, n - 1) {
            lower.push(batch_for(faces, n - 1))
        } else {
            lower
        }
    }
}

/// The batches of a list of faces: one for each texture of the world that
/// gets one, by ascending texture index.
pub open spec fn batches(w: WorldView, faces: Seq<FaceView>) -> Seq<BatchView> {
    batches_below(w, faces, w.textures.len() as int)
}

/// The faces at the given positions.
pub open spec fn picked(faces: Seq<FaceView>, positions: Seq<int>) -> Seq<FaceView> {
    Seq::new(positions.len(), |i: int| faces[positions[i]])
}

proof fn lemma_positions_pick(faces: Seq<FaceView>, keys: Seq<i32>, key: i32)
    requires
        keys.len() == faces.len(),
        forall|i: int| 0 <= i < keys.len() ==> #[trigger] keys[i] as int == faces[i].texture,
    ensures
        forall|i: int|
            0 <= i < positions_of(keys, key).len() ==> 0 <= #[trigger] positions_of(keys, key)[i]
                < keys.len(),
        picked(faces, positions_of(keys, key)) == faces_with(faces, key as int),
    decreases keys.len(),
{
    reveal(Seq::filter);
    if keys.len() == 0 {
        assert(picked(faces, positions_of(keys, key)) =~= faces_with(faces, key as int));
    } else {
        let n = keys.len() as int;
        let rest = positions_of(keys.drop_last(), key);
        lemma_positions_pick(faces.drop_last(), keys.drop_last(), key);
        if keys.last() == key {
            assert(picked(faces, rest.push(n - 1)) =~= picked(faces, rest).push(faces[n - 1]));
        }
    }
}

/// No face carries the texture with index `texture`.
pub open spec fn unused(faces: Seq<FaceView>, texture: int) -> bool {
    forall|i: int| 0 <= i < faces.len() ==> (#[trigger] faces[i]).texture != texture
}

proof fn lemma_no_face(faces: Seq<FaceView>, texture: int)
    requires
        unused(faces, texture),
    ensures
        faces_with(faces, texture) == Seq::<FaceView>::empty(),
    decreases faces.len(),
{
    reveal(Seq::filter);
    if faces.len() > 0 {
        lemma_no_face(faces.drop_last(), texture);
    }
}

proof fn lemma_batches_skip(w: WorldView, faces: Seq<FaceView>, lo: int, hi: int)
    requires
        0 <= lo <= hi,
        forall|t: int| lo <= t < hi ==> #[trigger] unused(faces, t),
    ensures
        batches_below(w, faces, hi) == batches_below(w, faces, lo),
    decreases hi - lo,
{
    if lo < hi {
        lemma_batches_skip(w, faces, lo, hi - 1);
        lemma_no_face(faces, hi - 1);
    }
}

proof fn lemma_mesh_push(faces: Seq<FaceView>, face: FaceView)
    ensures
        mesh_of(faces.push(face)) == mesh_of(faces) + face.vertices.map_values(
            |v: Vertex| transcoded(v),
        ),
{
    assert(faces.push(face).drop_last() =~= faces);
    assert(mesh_of(faces.push(face)) =~= mesh_of(faces) + face.vertices.map_values(
        |v: Vertex| transcoded(v),
    ));
}

/// The texture index of each face of the working list.
fn texture_keys(faces: &Vec<&Face>) -> (keys: Vec<i32>)
    ensures
        keys@.len() == faces@.len(),
        forall|i: int|
            0 <= i < keys@.len() ==> #[trigger] keys@[i] as int == ref_views(faces@)[i].texture,
{
    let mut keys: Vec<i32> = Vec::new();
    let mut i: usize = 0;
    while i < faces.len()
        invariant
            i <= faces.len(),
            keys@.len() == i,
            forall|j: int| 0 <= j < i ==> #[trigger] keys@[j] as int == ref_views(faces@)[j].texture,
        decreases faces.len() - i,
    {
        keys.push(faces[i].texture);
        i += 1;
    }
    keys
}

/// The vertices of the faces at `members`, in the renderer's convention.
fn gather(faces: &Vec<&Face>, members: &Vec<usize>) -> (mesh: Vec<PosNormTex>)
    requires
        forall|i: int| 0 <= i < members@.len() ==> #[trigger] members@[i] < faces@.len(),
    ensures
        mesh@ == mesh_of(picked(ref_views(faces@), as_ints(members@))),
{
    let ghost chosen = picked(ref_views(faces@), as_ints(members@));
    let mut mesh: Vec<PosNormTex> = Vec::new();
    let mut i: usize = 0;
    while i < members.len()
        invariant
            i <= members.len(),
            chosen == picked(ref_views(faces@), as_ints(members@)),
            forall|k: int| 0 <= k < members@.len() ==> #[trigger] members@[k] < faces@.len(),
            mesh@ == mesh_of(chosen.take(i as int)),
        decreases members.len() - i,
    {
        let face = faces[members[i]];
        let ghost before = mesh@;
        let mut j: usize = 0;
        while j < face.vertices.len()
            invariant
                j <= face.vertices.len(),
                mesh@ == before + face.vertices@.take(j as int).map_values(
                    |v: Vertex| transcoded(v),
                ),
            decreases face.vertices.len() - j,
        {
            mesh.push(transcode(&face.vertices[j]));
            assert(mesh@ =~= before + face.vertices@.take(j + 1).map_values(
                |v: Vertex| transcoded(v),
            ));
            j += 1;
        }
        proof {
            assert(chosen.take(i + 1) =~= chosen.take(i as int).push(chosen[i as int]));
            lemma_mesh_push(chosen.take(i as int), chosen[i as int]);
        }
        i += 1;
    }
    assert(chosen.take(i as int) =~= chosen);
    mesh
}

/// Groups the faces of a working list by texture and builds the batch of each
/// texture that passes the face filter and has vertices.
pub fn batches_of(world: &World, faces: &Vec<&Face>) -> (out: Vec<Batch>)
    ensures
        batch_views(out@) == batches(world@, ref_views(faces@)),
        forall|i: int| 0 <= i < out@.len() ==> (#[trigger] out@[i]).texture < world.textures@.len(),
{
    let keys = texture_keys(faces);
    let groups = group_by_key(&keys);
    let ghost w = world@;
    let ghost fv = ref_views(faces@);
    let ghost mut bound: int = 0;
    let mut out: Vec<Batch> = Vec::new();
    let mut g: usize = 0;
    while g < groups.len()
        invariant
            g <= groups.len(),
            w == world@,
            fv == ref_views(faces@),
            keys@.len() == fv.len(),
            forall|i: int| 0 <= i < keys@.len() ==> #[trigger] keys@[i] as int == fv[i].texture,
            is_grouping(keys@, groups@),
            0 <= bound <= w.textures.len(),
            forall|j: int|
                0 <= j < g ==> (#[trigger] groups[j]).key < bound || groups[j].key
                    >= w.textures.len(),
            forall|j: int|
                g <= j < groups.len() ==> (#[trigger] groups[j]).key >= bound || groups[j].key < 0,
            batch_views(out@) == batches_below(w, fv, bound),
            forall|i: int|
                0 <= i < out@.len() ==> (#[trigger] out@[i]).texture < world.textures@.len(),
        decreases groups.len() - g,
    {
        let key = groups[g].key;
        if let Some(texture) = world.texture(key) {
            proof {
                assert forall|t: int| bound <= t < key implies #[trigger] unused(fv, t) by {
                    assert forall|i: int| 0 <= i < fv.len() implies (#[trigger] fv[i]).texture
                        != t by {
                        if fv[i].texture == t {
                            let j = choose|j: int|
                                0 <= j < groups.len() && (#[trigger] groups[j]).key == keys@[i];
                            if j > g {
                                assert(groups[g as int].key < groups[j].key);
                            }
                        }
                    }
                }
                lemma_batches_skip(w, fv, bound, key as int);
                lemma_positions_pick(fv, keys@, key);
                let members = groups[g as int].members@;
                assert forall|i: int| 0 <= i < members.len() implies #[trigger] members[i]
                    < faces@.len() by {
                    assert(as_ints(members)[i] == positions_of(keys@, key)[i]);
                }
            }
            if texture.drawable {
                let mesh = gather(faces, &groups[g].members);
                if mesh.len() > 0 {
                    let ghost earlier = out@;
                    out.push(Batch { texture: key as usize, vertices: mesh });
                    assert(batch_views(out@) =~= batch_views(earlier).push(
                        batch_for(fv, key as int),
                    ));
                }
            }
            proof {
                bound = key + 1;
                assert forall|j: int| g + 1 <= j < groups.len() implies (#[trigger] groups[j]).key
                    >= bound || groups[j].key < 0 by {
                    assert(groups[g as int].key < groups[j].key);
                }
            }
        }
        g += 1;
    }
    proof {
        assert forall|t: int| bound <= t < w.textures.len() implies #[trigger] unused(fv, t) by {
            assert forall|i: int| 0 <= i < fv.len() implies (#[trigger] fv[i]).texture != t by {
                if fv[i].texture == t {
                    assert(has_group(groups@, keys@[i]));
                }
            }
        }
        lemma_batches_skip(w, fv, bound, w.textures.len() as int);
    }
    out
}

} // verus!
