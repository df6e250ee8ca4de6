//! The scene: the node hierarchy that a world is turned into.
//!
//! Node 0 is the root, an empty node without a parent. After it comes, for
//! each cluster of the world by ascending id, the cluster's own node (a child
//! of the root) followed by one renderable node for each of its batches
//! (children of the cluster's node). Last come the renderable nodes of the
//! models, model after model; they have no parent.

use crate::batch::{batch_views, batches, batches_of, ref_views, Batch, BatchView};
use crate::grouping::{
    as_ints, group_by_key, has_group, is_grouping, lemma_positions_hold_key, positions_of,
};
use crate::laws::lemma_scene_well_formed;
use crate::vertex::PosNormTex;
use crate::world::{face_views, Face, FaceView, LeafView, World, WorldView};
use vstd::prelude::*;

verus! {

/// Cluster ids are the non-negative values of an `i32`; this is the first
/// value that is none.
pub const CLUSTER_LIMIT: u32 = 0x8000_0000u32;

/// The mark of a cluster's node.
#[derive(Clone, Copy, Debug, PartialEq, Eq)]
pub struct Cluster {
    pub id: i32,
}

impl Default for Cluster {
    fn default() -> (cluster: Cluster)
        ensures
            cluster.id == 0,
    {
        Cluster { id: 0 }
    }
}

/// How a texture reference is to be resolved by whoever loads the image.
#[derive(Clone, Copy, Debug, PartialEq, Eq)]
pub enum Resolution {
    /// Load the named image; a failure to load it is a failure.
    Direct,
    /// Load the named image; where that fails, take the placeholder image.
    FallbackOnError,
}

/// What comes of loading a referenced image: the image where it was loaded;
/// where it was not, the placeholder if the reference falls back to it, and
/// the failure otherwise.
pub open spec fn settled<T, E>(resolution: Resolution, loaded: Result<T, E>, placeholder: T) -> Result<
    T,
    E,
> {
    match loaded {
        Ok(image) => Ok(image),
        Err(failure) => match resolution {
            Resolution::Direct => Err(failure),
            Resolution::FallbackOnError => Ok(placeholder),
        },
    }
}

impl Resolution {
    /// Decides what a reference resolves to, given what loading the image
    /// gave and the placeholder image.
    pub fn settle<T, E>(self, loaded: Result<T, E>, placeholder: T) -> (out: Result<T, E>)
        ensures
            out == settled(self, loaded, placeholder),
    {
        match loaded {
            Ok(image) => Ok(image),
            Err(failure) => match self {
                Resolution::Direct => Err(failure),
                Resolution::FallbackOnError => Ok(placeholder),
            },
        }
    }
}

/// A reference to a texture that is yet to be loaded.
#[derive(Clone, Debug, PartialEq, Eq)]
pub struct TextureRef {
    pub name: String,
    pub resolution: Resolution,
}

/// What a node carries: the mark of a cluster, or a texture and a mesh.
#[derive(Clone, Debug, PartialEq, Eq)]
pub struct BspPrefabElement {
    pub cluster: Option<Cluster>,
    pub texture: Option<TextureRef>,
    pub mesh: Option<Vec<PosNormTex>>,
}

impl Default for BspPrefabElement {
    fn default() -> (element: BspPrefabElement)
        ensures
            element.cluster is None,
            element.texture is None,
            element.mesh is None,
    {
        BspPrefabElement { cluster: None, texture: None, mesh: None }
    }
}

/// A node of the scene: the index of its parent, if it has one, and what it
/// carries, if anything.
#[derive(Clone, Debug, PartialEq, Eq)]
pub struct SceneNode {
    pub parent: Option<usize>,
    pub data: Option<BspPrefabElement>,
}

/// A scene: its nodes, each known to the others by its index.
#[derive(Clone, Debug, PartialEq, Eq)]
pub struct Scene {
    pub nodes: Vec<SceneNode>,
}

/// What a texture reference holds.
pub struct TextureRefView {
    pub name: Seq<char>,
    pub resolution: Resolution,
}

/// What a node carries.
pub struct ElementView {
    pub cluster: Option<int>,
    pub texture: Option<TextureRefView>,
    pub mesh: Option<Seq<PosNormTex>>,
}

/// What a node holds.
pub struct NodeView {
    pub parent: Option<int>,
    pub data: Option<ElementView>,
}

impl View for TextureRef {
    type V = TextureRefView;

    open spec fn view(&self) -> TextureRefView {
        TextureRefView { name: self.name@, resolution: self.resolution }
    }
}

impl View for BspPrefabElement {
    type V = ElementView;

    open spec fn view(&self) -> ElementView {
        ElementView {
            cluster: match self.cluster {
                Some(c) => Some(c.id as int),
                None => None,
            },
            texture: match self.texture {
                Some(t) => Some(t@),
                None => None,
            },
            mesh: match self.mesh {
                Some(m) => Some(m@),
                None => None,
            },
        }
    }
}

/// The index of the parent as an integer.
pub open spec fn parent_view(parent: Option<usize>) -> Option<int> {
    match parent {
        Some(p) => Some(p as int),
        None => None,
    }
}

impl View for SceneNode {
    type V = NodeView;

    open spec fn view(&self) -> NodeView {
        NodeView {
            parent: parent_view(self.parent),
            data: match self.data {
                Some(e) => Some(e@),
                None => None,
            },
        }
    }
}

/// What a list of nodes holds.
pub open spec fn node_views(nodes: Seq<SceneNode>) -> Seq<NodeView> {
    nodes.map_values(|n: SceneNode| n@)
}

impl View for Scene {
    type V = Seq<NodeView>;

    open spec fn view(&self) -> Seq<NodeView> {
        node_views(self.nodes@)
    }
}

/// The root: no parent, nothing carried.
pub open spec fn root_node() -> NodeView {
    NodeView { parent: None, data: None }
}

/// The node of cluster `id`: a child of the root that carries the id.
pub open spec fn cluster_node(id: int) -> NodeView {
    NodeView {
        parent: Some(0),
        data: Some(ElementView { cluster: Some(id), texture: None, mesh: None }),
    }
}

/// The node of a batch: it carries the batch's vertices and a reference to
/// the batch's texture by name, to be resolved with the placeholder as fallback.
pub open spec fn renderable_node(w: WorldView, batch: BatchView, parent: Option<int>) -> NodeView {
    NodeView {
        parent,
        data: Some(
            ElementView {
                cluster: None,
                texture: Some(
                    TextureRefView {
                        name: w.textures[batch.texture].name,
                        resolution: Resolution::FallbackOnError,
                    },
                ),
                mesh: Some(batch.vertices),
            },
        ),
    }
}

/// The renderable nodes of a list of faces, one for each batch.
pub open spec fn renderables(w: WorldView, faces: Seq<FaceView>, parent: Option<int>) -> Seq<
    NodeView,
> {
    batches(w, faces).map_values(|b: BatchView| renderable_node(w, b, parent))
}

/// Whether some leaf belongs to cluster `id`.
pub open spec fn has_cluster(leaves: Seq<LeafView>, id: int) -> bool {
    exists|i: int| 0 <= i < leaves.len() && (#[trigger] leaves[i]).cluster == id
}

/// The faces of cluster `id`: those of its leaves, leaf after leaf.
pub open spec fn cluster_faces(leaves: Seq<LeafView>, id: int) -> Seq<FaceView>
    decreases leaves.len(),
{
    if leaves.len() == 0 {
        Seq::empty()
    } else {
        let before = cluster_faces(leaves.drop_last(), id);
        if leaves.last().cluster == id {
            before + leaves.last().faces
        } else {
            before
        }
    }
}

/// The nodes of cluster `id`, where the cluster's own node is node `at`.
pub open spec fn cluster_section(w: WorldView, id: int, at: int) -> Seq<NodeView> {
    seq![cluster_node(id)] + renderables(w, cluster_faces(w.leaves, id), Some(at))
}

/// The root and the nodes of all clusters with an id below `n`.
pub open spec fn with_clusters(w: WorldView, n: int) -> Seq<NodeView>
    decreases n,
{
    if n <= 0 {
        seq![root_node()]
    } else {
        let lower = with_clusters(w, n - 1);
        if has_cluster(w.leaves, n - 1) {
            lower + cluster_section(w, n - 1, lower.len() as int)
        } else {
            lower
        }
    }
}

/// The root, the nodes of all clusters, and those of the first `m` models.
pub open spec fn with_models(w: WorldView, m: int) -> Seq<NodeView>
    decreases m,
{
    if m <= 0 {
        with_clusters(w, CLUSTER_LIMIT as int)
    } else {
        with_models(w, m - 1) + renderables(w, w.models[m - 1], None)
    }
}

/// The scene of a world.
pub open spec fn scene_of(w: WorldView) -> Seq<NodeView> {
    with_models(w, w.models.len() as int)
}

/// A cluster's node: a child of the root that carries a cluster id and
/// nothing else.
pub open spec fn is_cluster_node(n: NodeView) -> bool {
    n.parent == Some(0int) && match n.data {
        Some(e) => e.cluster is Some && e.texture is None && e.mesh is None,
        None => false,
    }
}

/// A renderable node: it carries no cluster id, a texture reference that
/// falls back to the placeholder, and a mesh that is not empty.
pub open spec fn is_renderable_node(n: NodeView) -> bool {
    match n.data {
        Some(e) => e.cluster is None && (match e.texture {
            Some(r) => r.resolution == Resolution::FallbackOnError,
            None => false,
        }) && (match e.mesh {
            Some(m) => m.len() > 0,
            None => false,
        }),
        None => false,
    }
}

/// What holds of every scene that is built here: it begins with the root;
/// every other node is a cluster's node or a renderable node; and a
/// renderable node stands alone or below a cluster's node that comes before it.
pub open spec fn well_formed(scene: Seq<NodeView>) -> bool {
    &&& scene.len() > 0
    &&& scene[0] == root_node()
    &&& forall|i: int|
        0 < i < scene.len() ==> is_cluster_node(#[trigger] scene[i]) || is_renderable_node(
            scene[i],
        )
    &&& forall|i: int|
        0 < i < scene.len() && is_renderable_node(#[trigger] scene[i]) ==> match scene[i].parent {
            Some(p) => 0 < p < i && is_cluster_node(scene[p]),
            None => true,
        }
}

/// The cluster ids that the nodes of a scene carry, in the order of the nodes.
pub open spec fn cluster_ids(scene: Seq<NodeView>) -> Seq<int>
    decreases scene.len(),
{
    if scene.len() == 0 {
        Seq::empty()
    } else {
        let before = cluster_ids(scene.drop_last());
        match scene.last().data {
            Some(e) => match e.cluster {
                Some(id) => before.push(id),
                None => before,
            },
            None => before,
        }
    }
}

/// The faces of the leaves at the given positions, leaf after leaf.
pub open spec fn faces_at(leaves: Seq<LeafView>, positions: Seq<int>) -> Seq<FaceView>
    decreases positions.len(),
{
    if positions.len() == 0 {
        Seq::empty()
    } else {
        faces_at(leaves, positions.drop_last()) + leaves[positions.last()].faces
    }
}

proof fn lemma_faces_at_prefix(leaves: Seq<LeafView>, positions: Seq<int>)
    requires
        leaves.len() > 0,
        forall|i: int| 0 <= i < positions.len() ==> 0 <= #[trigger] positions[i] < leaves.len() - 1,
    ensures
        faces_at(leaves, positions) == faces_at(leaves.drop_last(), positions),
    decreases positions.len(),
{
    if positions.len() > 0 {
        lemma_faces_at_prefix(leaves, positions.drop_last());
    }
}

proof fn lemma_cluster_faces_at(leaves: Seq<LeafView>, keys: Seq<i32>, key: i32)
    requires
        keys.len() == leaves.len(),
        forall|i: int| 0 <= i < keys.len() ==> #[trigger] keys[i] as int == leaves[i].cluster,
    ensures
        faces_at(leaves, positions_of(keys, key)) == cluster_faces(leaves, key as int),
    decreases keys.len(),
{
    if keys.len() > 0 {
        let n = keys.len() as int;
        let rest = positions_of(keys.drop_last(), key);
        lemma_cluster_faces_at(leaves.drop_last(), keys.drop_last(), key);
        lemma_positions_hold_key(keys.drop_last(), key);
        lemma_faces_at_prefix(leaves, rest);
        if keys.last() == key {
            assert(rest.push(n - 1).drop_last() =~= rest);
        }
    }
}

proof fn lemma_clusters_skip(w: WorldView, lo: int, hi: int)
    requires
        0 <= lo <= hi,
        forall|c: int| lo <= c < hi ==> !#[trigger] has_cluster(w.leaves, c),
    ensures
        with_clusters(w, hi) == with_clusters(w, lo),
    decreases hi - lo,
{
    if lo < hi {
        lemma_clusters_skip(w, lo, hi - 1);
    }
}

/// The cluster id of each leaf.
fn cluster_keys(world: &World) -> (keys: Vec<i32>)
    ensures
        keys@.len() == world@.leaves.len(),
        forall|i: int|
            0 <= i < keys@.len() ==> #[trigger] keys@[i] as int == world@.leaves[i].cluster,
{
    let mut keys: Vec<i32> = Vec::new();
    let mut i: usize = 0;
    while i < world.leaves.len()
        invariant
            i <= world.leaves.len(),
            keys@.len() == i,
            forall|j: int| 0 <= j < i ==> #[trigger] keys@[j] as int == world@.leaves[j].cluster,
        decreases world.leaves.len() - i,
    {
        keys.push(world.leaves[i].cluster);
        i += 1;
    }
    keys
}

/// The faces of the leaves at `members`, leaf after leaf.
fn leaf_faces<'a>(world: &'a World, members: &Vec<usize>) -> (faces: Vec<&'a Face>)
    requires
        forall|i: int| 0 <= i < members@.len() ==> #[trigger] members@[i] < world.leaves@.len(),
    ensures
        ref_views(faces@) == faces_at(world@.leaves, as_ints(members@)),
{
    let ghost positions = as_ints(members@);
    let mut faces: Vec<&'a Face> = Vec::new();
    let mut i: usize = 0;
    while i < members.len()
        invariant
            i <= members.len(),
            positions == as_ints(members@),
            forall|k: int| 0 <= k < members@.len() ==> #[trigger] members@[k] < world.leaves@.len(),
            ref_views(faces@) == faces_at(world@.leaves, positions.take(i as int)),
        decreases members.len() - i,
    {
        let leaf = &world.leaves[members[i]];
        let ghost before = ref_views(faces@);
        let mut j: usize = 0;
        while j < leaf.faces.len()
            invariant
                j <= leaf.faces.len(),
                ref_views(faces@) == before + face_views(leaf.faces@).take(j as int),
            decreases leaf.faces.len() - j,
        {
            let ghost earlier = faces@;
            faces.push(&leaf.faces[j]);
            assert(ref_views(faces@) =~= ref_views(earlier).push(leaf.faces@[j as int]@));
            assert(face_views(leaf.faces@).take(j + 1) =~= face_views(leaf.faces@).take(
                j as int,
            ).push(leaf.faces@[j as int]@));
            j += 1;
        }
        proof {
            assert(positions.take(i + 1).drop_last() =~= positions.take(i as int));
        }
        i += 1;
    }
    assert(positions.take(i as int) =~= positions);
    faces
}

/// The faces of a model.
fn model_faces<'a>(faces: &'a Vec<Face>) -> (out: Vec<&'a Face>)
    ensures
        ref_views(out@) == face_views(faces@),
{
    let mut out: Vec<&'a Face> = Vec::new();
    let mut j: usize = 0;
    while j < faces.len()
        invariant
            j <= faces.len(),
            ref_views(out@) == face_views(faces@).take(j as int),
        decreases faces.len() - j,
    {
        let ghost earlier = out@;
        out.push(&faces[j]);
        assert(ref_views(out@) =~= ref_views(earlier).push(faces@[j as int]@));
        assert(face_views(faces@).take(j + 1) =~= face_views(faces@).take(j as int).push(
            faces@[j as int]@,
        ));
        j += 1;
    }
    out
}

/// The reference that a renderable node gets for the texture named `name`:
/// by that name, with the placeholder as fallback.
pub fn texture_reference(name: &String) -> (reference: TextureRef)
    ensures
        reference@ == (TextureRefView { name: name@, resolution: Resolution::FallbackOnError }),
{
    TextureRef { name: name.clone(), resolution: Resolution::FallbackOnError }
}

/// Adds one renderable node for each batch, all with the given parent.
fn push_renderables(
    world: &World,
    nodes: &mut Vec<SceneNode>,
    found: Vec<Batch>,
    parent: Option<usize>,
)
    requires
        forall|i: int| 0 <= i < found@.len() ==> (#[trigger] found@[i]).texture < world.textures@.len(),
    ensures
        node_views(final(nodes)@) == node_views(old(nodes)@) + batch_views(found@).map_values(
            |b: BatchView| renderable_node(world@, b, parent_view(parent)),
        ),
{
    let ghost before = node_views(nodes@);
    let ghost w = world@;
    let ghost all = batch_views(found@);
    let ghost up = parent_view(parent);
    let ghost count = found@.len();
    assert(node_views(nodes@) =~= before + all.take(0).map_values(
        |b: BatchView| renderable_node(w, b, up),
    ));
    for batch in it: found.into_iter()
        invariant
            w == world@,
            up == parent_view(parent),
            it.seq().len() == count,
            batch_views(it.seq()) == all,
            forall|i: int|
                0 <= i < it.seq().len() ==> (#[trigger] it.seq()[i]).texture < world.textures@.len(),
            node_views(nodes@) == before + all.take(it.index()).map_values(
                |b: BatchView| renderable_node(w, b, up),
            ),
    {
        let ghost earlier = nodes@;
        let ghost at = it.index();
        let reference = texture_reference(&world.textures[batch.texture].name);
        let element = BspPrefabElement {
            cluster: None,
            texture: Some(reference),
            mesh: Some(batch.vertices),
        };
        let node = SceneNode { parent, data: Some(element) };
        nodes.push(node);
        assert(node_views(nodes@) =~= node_views(earlier).push(renderable_node(w, all[at], up)));
    }
}

/// Builds the scene of a world.
pub fn assemble(world: &World) -> (scene: Scene)
    ensures
        scene@ == scene_of(world@),
        well_formed(scene@),
{
    let ghost w = world@;
    let mut nodes: Vec<SceneNode> = Vec::new();
    nodes.push(SceneNode { parent: None, data: None });
    let keys = cluster_keys(world);
    let groups = group_by_key(&keys);
    let ghost mut bound: int = 0;
    let mut g: usize = 0;
    while g < groups.len()
        invariant
            g <= groups.len(),
            w == world@,
            keys@.len() == w.leaves.len(),
            forall|i: int| 0 <= i < keys@.len() ==> #[trigger] keys@[i] as int == w.leaves[i].cluster,
            is_grouping(keys@, groups@),
            0 <= bound <= CLUSTER_LIMIT,
            forall|j: int| 0 <= j < g ==> (#[trigger] groups[j]).key < bound,
            forall|j: int|
                g <= j < groups.len() ==> (#[trigger] groups[j]).key >= bound || groups[j].key < 0,
            node_views(nodes@) == with_clusters(w, bound),
        decreases groups.len() - g,
    {
        let key = groups[g].key;
        if key >= 0 {
            proof {
                assert forall|c: int| bound <= c < key implies !#[trigger] has_cluster(
                    w.leaves,
                    c,
                ) by {
                    if has_cluster(w.leaves, c) {
                        let i = choose|i: int|
                            0 <= i < w.leaves.len() && (#[trigger] w.leaves[i]).cluster == c;
                        let j = choose|j: int|
                            0 <= j < groups.len() && (#[trigger] groups[j]).key == keys@[i];
                        if j > g {
                            assert(groups[g as int].key < groups[j].key);
                        }
                    }
                }
                lemma_clusters_skip(w, bound, key as int);
                lemma_positions_hold_key(keys@, key);
                lemma_cluster_faces_at(w.leaves, keys@, key);
                let members = groups[g as int].members@;
                assert forall|i: int| 0 <= i < members.len() implies #[trigger] members[i]
                    < world.leaves@.len() by {
                    assert(as_ints(members)[i] == positions_of(keys@, key)[i]);
                }
                let first = positions_of(keys@, key)[0];
                assert(w.leaves[first].cluster == key);
            }
            let at = nodes.len();
            let ghost earlier = nodes@;
            nodes.push(
                SceneNode {
                    parent: Some(0),
                    data: Some(
                        BspPrefabElement {
                            cluster: Some(Cluster { id: key }),
                            texture: None,
                            mesh: None,
                        },
                    ),
                },
            );
            assert(node_views(nodes@) =~= node_views(earlier) + seq![cluster_node(key as int)]);
            let faces = leaf_faces(world, &groups[g].members);
            let found = batches_of(world, &faces);
            push_renderables(world, &mut nodes, found, Some(at));
            proof {
                assert(node_views(nodes@) =~= with_clusters(w, key as int) + cluster_section(
                    w,
                    key as int,
                    at as int,
                ));
                bound = key + 1;
                assert forall|j: int| g + 1 <= j < groups.len() implies (#[trigger] groups[j]).key
                    >= bound || groups[j].key < 0 by {
                    assert(groups[g as int].key < groups[j].key);
                }
            }
        }
        g += 1;
    }
    proof {
        assert forall|c: int| bound <= c < CLUSTER_LIMIT implies !#[trigger] has_cluster(
            w.leaves,
            c,
        ) by {
            if has_cluster(w.leaves, c) {
                let i = choose|i: int|
                    0 <= i < w.leaves.len() && (#[trigger] w.leaves[i]).cluster == c;
                assert(has_group(groups@, keys@[i]));
            }
        }
        lemma_clusters_skip(w, bound, CLUSTER_LIMIT as int);
    }
    let mut m: usize = 0;
    while m < world.models.len()
        invariant
            m <= world.models.len(),
            w == world@,
            node_views(nodes@) == with_models(w, m as int),
        decreases world.models.len() - m,
    {
        let faces = model_faces(&world.models[m].faces);
        let found = batches_of(world, &faces);
        push_renderables(world, &mut nodes, found, None);
        m += 1;
    }
    proof {
        lemma_scene_well_formed(w);
    }
    Scene { nodes }
}

} // verus!
