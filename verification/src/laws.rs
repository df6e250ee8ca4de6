//! What holds of every scene, stated over the scene of a world's view.

use crate::batch::{batch_for, batches, batches_below, faces_with};
use crate::scene::{
    cluster_faces, cluster_ids, cluster_node, cluster_section, has_cluster, is_cluster_node,
    is_renderable_node, renderables, root_node, scene_of, settled, well_formed, with_clusters,
    with_models, NodeView, CLUSTER_LIMIT,
};
use crate::world::{contributes, FaceView, LeafView, World, WorldView};
use vstd::prelude::*;

verus! {

/// Grouping goes by the texture alone, wherever its faces stand in the list:
/// the batches come by strictly ascending texture index, so no texture has
/// two; each is the batch of a texture that passes the face filter, it holds
/// what all faces with that texture hold, and it is not empty.
pub proof fn lemma_one_batch_per_texture(w: WorldView, faces: Seq<FaceView>, n: int)
    ensures
        forall|i: int, j: int|
            0 <= i < j < batches_below(w, faces, n).len() ==> (#[trigger] batches_below(
                w,
                faces,
                n,
            )[i]).texture < (#[trigger] batches_below(w, faces, n)[j]).texture,
        forall|i: int|
            0 <= i < batches_below(w, faces, n).len() ==> {
                let b = #[trigger] batches_below(w, faces, n)[i];
                &&& 0 <= b.texture < n
                &&& contributes(w, b.texture)
                &&& b == batch_for(faces, b.texture)
                &&& b.vertices.len() > 0
            },
    decreases n,
{
    if n > 0 {
        lemma_one_batch_per_texture(w, faces, n - 1);
        let lower = batches_below(w, faces, n - 1);
        let all = batches_below(w, faces, n);
        assert forall|i: int| 0 <= i < all.len() implies {
            let b = #[trigger] all[i];
            &&& 0 <= b.texture < n
            &&& contributes(w, b.texture)
            &&& b == batch_for(faces, b.texture)
            &&& b.vertices.len() > 0
        } by {
            if i < lower.len() {
                assert(all[i] == lower[i]);
            }
        }
        assert forall|i: int, j: int| 0 <= i < j < all.len() implies (#[trigger] all[i]).texture < (
        #[trigger] all[j]).texture by {
            if j < lower.len() {
                assert(all[j] == lower[j]);
            }
        }
    }
}

proof fn lemma_batches_below_by_texture(
    w: WorldView,
    a: Seq<FaceView>,
    b: Seq<FaceView>,
    n: int,
)
    requires
        forall|t: int| #[trigger] faces_with(a, t) == faces_with(b, t),
    ensures
        batches_below(w, a, n) == batches_below(w, b, n),
    decreases n,
{
    if n > 0 {
        lemma_batches_below_by_texture(w, a, b, n - 1);
        assert(faces_with(a, n - 1) == faces_with(b, n - 1));
    }
}

/// How the faces of different textures are interleaved plays no part: two
/// lists in which every texture has the same faces in the same order have
/// the same batches.
pub proof fn lemma_batches_ignore_interleaving(w: WorldView, a: Seq<FaceView>, b: Seq<FaceView>)
    requires
        forall|t: int| #[trigger] faces_with(a, t) == faces_with(b, t),
    ensures
        batches(w, a) == batches(w, b),
{
    lemma_batches_below_by_texture(w, a, b, w.textures.len() as int);
}

proof fn lemma_renderables_are_renderable(w: WorldView, faces: Seq<FaceView>, parent: Option<int>)
    ensures
        forall|i: int|
            0 <= i < renderables(w, faces, parent).len() ==> is_renderable_node(
                #[trigger] renderables(w, faces, parent)[i],
            ) && renderables(w, faces, parent)[i].parent == parent,
{
    lemma_one_batch_per_texture(w, faces, w.textures.len() as int);
    assert forall|i: int| 0 <= i < renderables(w, faces, parent).len() implies is_renderable_node(
        #[trigger] renderables(w, faces, parent)[i],
    ) && renderables(w, faces, parent)[i].parent == parent by {
        let b = batches(w, faces)[i];
        assert(b.vertices.len() > 0);
    }
}

proof fn lemma_clusters_well_formed(w: WorldView, n: int)
    ensures
        well_formed(with_clusters(w, n)),
    decreases n,
{
    if n > 0 {
        lemma_clusters_well_formed(w, n - 1);
        let lower = with_clusters(w, n - 1);
        if has_cluster(w.leaves, n - 1) {
            let at = lower.len() as int;
            let faces = cluster_faces(w.leaves, n - 1);
            let scene = with_clusters(w, n);
            lemma_renderables_are_renderable(w, faces, Some(at));
            assert forall|i: int| 0 < i < scene.len() implies is_cluster_node(#[trigger] scene[i])
                || is_renderable_node(scene[i]) by {
                if i < at {
                    assert(scene[i] == lower[i]);
                } else if i > at {
                    assert(scene[i] == renderables(w, faces, Some(at))[i - at - 1]);
                }
            }
            assert forall|i: int|
                0 < i < scene.len() && is_renderable_node(
                    #[trigger] scene[i],
                ) implies match scene[i].parent {
                Some(p) => 0 < p < i && is_cluster_node(scene[p]),
                None => true,
            } by {
                if i < at {
                    match lower[i].parent {
                        Some(p) => {
                            assert(scene[p] == lower[p]);
                        },
                        None => {},
                    }
                } else if i > at {
                    assert(scene[i] == renderables(w, faces, Some(at))[i - at - 1]);
                }
            }
        }
    }
}

proof fn lemma_models_well_formed(w: WorldView, m: int)
    ensures
        well_formed(with_models(w, m)),
    decreases m,
{
    if m <= 0 {
        lemma_clusters_well_formed(w, CLUSTER_LIMIT as int);
    } else {
        lemma_models_well_formed(w, m - 1);
        let lower = with_models(w, m - 1);
        let added = renderables(w, w.models[m - 1], None);
        let scene = with_models(w, m);
        lemma_renderables_are_renderable(w, w.models[m - 1], None);
        assert forall|i: int| 0 < i < scene.len() implies is_cluster_node(#[trigger] scene[i])
            || is_renderable_node(scene[i]) by {
            if i < lower.len() {
                assert(scene[i] == lower[i]);
            } else {
                assert(scene[i] == added[i - lower.len()]);
            }
        }
        assert forall|i: int|
            0 < i < scene.len() && is_renderable_node(
                #[trigger] scene[i],
            ) implies match scene[i].parent {
            Some(p) => 0 < p < i && is_cluster_node(scene[p]),
            None => true,
        } by {
            if i < lower.len() {
                match lower[i].parent {
                    Some(p) => {
                        assert(scene[p] == lower[p]);
                    },
                    None => {},
                }
            } else {
                assert(scene[i] == added[i - lower.len()]);
            }
        }
    }
}

/// The scene of any world is well formed. In particular no renderable node
/// has an empty mesh, every texture reference falls back to the placeholder,
/// and a cluster's node comes before the nodes below it.
pub proof fn lemma_scene_well_formed(w: WorldView)
    ensures
        well_formed(scene_of(w)),
{
    lemma_models_well_formed(w, w.models.len() as int);
}

/// Where loading the image of a texture reference of the scene fails, the
/// reference resolves to the placeholder: the failure never gets through.
pub proof fn lemma_failed_texture_gets_placeholder<T, E>(
    w: WorldView,
    i: int,
    failure: E,
    placeholder: T,
)
    requires
        0 <= i < scene_of(w).len(),
        scene_of(w)[i].data is Some,
        scene_of(w)[i].data->0.texture is Some,
    ensures
        settled(scene_of(w)[i].data->0.texture->0.resolution, Err::<T, E>(failure), placeholder)
            == Ok::<T, E>(placeholder),
{
    lemma_scene_well_formed(w);
    let node = scene_of(w)[i];
    assert(is_cluster_node(node) || is_renderable_node(node));
}

proof fn lemma_cluster_ids_concat(a: Seq<NodeView>, b: Seq<NodeView>)
    ensures
        cluster_ids(a + b) == cluster_ids(a) + cluster_ids(b),
    decreases b.len(),
{
    if b.len() == 0 {
        assert(cluster_ids(a) + cluster_ids(b) =~= cluster_ids(a));
    } else {
        lemma_cluster_ids_concat(a, b.drop_last());
        assert((a + b).drop_last() =~= a + b.drop_last());
        match b.last().data {
            Some(e) => match e.cluster {
                Some(id) => {
                    assert(cluster_ids(a + b) =~= cluster_ids(a) + cluster_ids(b));
                },
                None => {},
            },
            None => {},
        }
    }
}

proof fn lemma_renderables_have_no_ids(nodes: Seq<NodeView>)
    requires
        forall|i: int| 0 <= i < nodes.len() ==> is_renderable_node(#[trigger] nodes[i]),
    ensures
        cluster_ids(nodes) == Seq::<int>::empty(),
    decreases nodes.len(),
{
    if nodes.len() > 0 {
        lemma_renderables_have_no_ids(nodes.drop_last());
    }
}

proof fn lemma_cluster_ids_single(node: NodeView)
    ensures
        cluster_ids(seq![node]) == match node.data {
            Some(e) => match e.cluster {
                Some(id) => seq![id],
                None => Seq::<int>::empty(),
            },
            None => Seq::<int>::empty(),
        },
{
    reveal_with_fuel(cluster_ids, 2);
    let one = seq![node];
    match node.data {
        Some(e) => match e.cluster {
            Some(id) => {
                assert(cluster_ids(one) =~= seq![id]);
            },
            None => {},
        },
        None => {},
    }
}

proof fn lemma_cluster_ids_below(w: WorldView, n: int)
    ensures
        forall|i: int, j: int|
            0 <= i < j < cluster_ids(with_clusters(w, n)).len() ==> #[trigger] cluster_ids(
                with_clusters(w, n),
            )[i] < #[trigger] cluster_ids(with_clusters(w, n))[j],
        forall|id: int|
            #[trigger] cluster_ids(with_clusters(w, n)).contains(id) <==> 0 <= id < n
                && has_cluster(w.leaves, id),
    decreases n,
{
    let ids = cluster_ids(with_clusters(w, n));
    if n <= 0 {
        lemma_cluster_ids_single(root_node());
    } else {
        lemma_cluster_ids_below(w, n - 1);
        let lower = with_clusters(w, n - 1);
        let below = cluster_ids(lower);
        if has_cluster(w.leaves, n - 1) {
            let at = lower.len() as int;
            let children = renderables(w, cluster_faces(w.leaves, n - 1), Some(at));
            lemma_renderables_are_renderable(w, cluster_faces(w.leaves, n - 1), Some(at));
            lemma_renderables_have_no_ids(children);
            lemma_cluster_ids_concat(lower, cluster_section(w, n - 1, at));
            lemma_cluster_ids_concat(seq![cluster_node(n - 1)], children);
            lemma_cluster_ids_single(cluster_node(n - 1));
            assert forall|i: int, j: int| 0 <= i < j < ids.len() implies #[trigger] ids[i]
                < #[trigger] ids[j] by {
                assert(below.contains(ids[i]));
                if j < below.len() {
                    assert(ids[i] == below[i] && ids[j] == below[j]);
                }
            }
            assert forall|id: int| #[trigger] ids.contains(id) <==> 0 <= id < n && has_cluster(
                w.leaves,
                id,
            ) by {
                if ids.contains(id) {
                    let k = choose|k: int| 0 <= k < ids.len() && ids[k] == id;
                    if k < below.len() {
                        assert(below.contains(id));
                    }
                }
                if 0 <= id < n && has_cluster(w.leaves, id) {
                    if id == n - 1 {
                        assert(ids[below.len() as int] == id);
                    } else {
                        assert(below.contains(id));
                        let k = choose|k: int| 0 <= k < below.len() && below[k] == id;
                        assert(ids[k] == id);
                    }
                }
            }
        }
    }
}

proof fn lemma_models_add_no_ids(w: WorldView, m: int)
    ensures
        cluster_ids(with_models(w, m)) == cluster_ids(with_clusters(w, CLUSTER_LIMIT as int)),
    decreases m,
{
    if m > 0 {
        lemma_models_add_no_ids(w, m - 1);
        let added = renderables(w, w.models[m - 1], None);
        lemma_renderables_are_renderable(w, w.models[m - 1], None);
        lemma_renderables_have_no_ids(added);
        lemma_cluster_ids_concat(with_models(w, m - 1), added);
        assert(cluster_ids(with_models(w, m - 1)) + cluster_ids(added) =~= cluster_ids(
            with_models(w, m - 1),
        ));
    }
}

/// Every cluster of the world has exactly one node, and no other cluster has
/// one: the cluster ids that the scene's nodes carry ascend strictly, so none
/// comes twice, and they are the ids of the clusters that a leaf belongs to.
/// Whether the cluster has anything to draw plays no part.
pub proof fn lemma_one_node_per_cluster(w: WorldView)
    ensures
        forall|i: int, j: int|
            0 <= i < j < cluster_ids(scene_of(w)).len() ==> #[trigger] cluster_ids(scene_of(w))[i]
                < #[trigger] cluster_ids(scene_of(w))[j],
        forall|id: int|
            #[trigger] cluster_ids(scene_of(w)).contains(id) <==> 0 <= id < CLUSTER_LIMIT
                && has_cluster(w.leaves, id),
{
    lemma_models_add_no_ids(w, w.models.len() as int);
    lemma_cluster_ids_below(w, CLUSTER_LIMIT as int);
}

/// The faces that pass the face filter.
pub open spec fn kept(w: WorldView, faces: Seq<FaceView>) -> Seq<FaceView> {
    faces.filter(|f: FaceView| contributes(w, f.texture))
}

/// The leaves, each with only those of its faces that pass the face filter.
pub open spec fn pruned_leaves(w: WorldView, leaves: Seq<LeafView>) -> Seq<LeafView> {
    leaves.map_values(|l: LeafView| LeafView { cluster: l.cluster, faces: kept(w, l.faces) })
}

/// The world without the faces that the face filter rejects: those whose
/// texture index names no texture, and those whose texture is not drawn.
pub open spec fn pruned(w: WorldView) -> WorldView {
    WorldView {
        textures: w.textures,
        leaves: pruned_leaves(w, w.leaves),
        models: w.models.map_values(|m: Seq<FaceView>| kept(w, m)),
    }
}

proof fn lemma_kept_faces_with(w: WorldView, faces: Seq<FaceView>, texture: int)
    requires
        contributes(w, texture),
    ensures
        faces_with(kept(w, faces), texture) == faces_with(faces, texture),
    decreases faces.len(),
{
    reveal(Seq::filter);
    if faces.len() > 0 {
        let front = faces.drop_last();
        let last = faces.last();
        lemma_kept_faces_with(w, front, texture);
        if contributes(w, last.texture) {
            kept(w, front).lemma_filter_push(last, |f: FaceView| f.texture == texture);
        }
    }
}

proof fn lemma_kept_batches(w: WorldView, v: WorldView, faces: Seq<FaceView>, n: int)
    requires
        v.textures == w.textures,
    ensures
        batches_below(v, kept(w, faces), n) == batches_below(w, faces, n),
    decreases n,
{
    if n > 0 {
        lemma_kept_batches(w, v, faces, n - 1);
        if contributes(w, n - 1) {
            lemma_kept_faces_with(w, faces, n - 1);
        }
    }
}

proof fn lemma_kept_renderables(w: WorldView, faces: Seq<FaceView>, parent: Option<int>)
    ensures
        renderables(pruned(w), kept(w, faces), parent) == renderables(w, faces, parent),
{
    lemma_kept_batches(w, pruned(w), faces, w.textures.len() as int);
}

proof fn lemma_kept_cluster_faces(w: WorldView, leaves: Seq<LeafView>, id: int)
    ensures
        cluster_faces(pruned_leaves(w, leaves), id) == kept(w, cluster_faces(leaves, id)),
        has_cluster(pruned_leaves(w, leaves), id) == has_cluster(leaves, id),
    decreases leaves.len(),
{
    let after = pruned_leaves(w, leaves);
    if leaves.len() == 0 {
        assert(kept(w, Seq::<FaceView>::empty()) =~= Seq::<FaceView>::empty()) by {
            reveal(Seq::filter);
        }
    } else {
        let front = leaves.drop_last();
        lemma_kept_cluster_faces(w, front, id);
        assert(after.drop_last() =~= pruned_leaves(w, front));
        if leaves.last().cluster == id {
            Seq::filter_distributes_over_add(
                cluster_faces(front, id),
                leaves.last().faces,
                |f: FaceView| contributes(w, f.texture),
            );
        }
    }
    if has_cluster(leaves, id) {
        let i = choose|i: int| 0 <= i < leaves.len() && (#[trigger] leaves[i]).cluster == id;
        assert(after[i].cluster == id);
    }
    if has_cluster(after, id) {
        let i = choose|i: int| 0 <= i < after.len() && (#[trigger] after[i]).cluster == id;
    }
}

proof fn lemma_pruned_clusters(w: WorldView, n: int)
    ensures
        with_clusters(pruned(w), n) == with_clusters(w, n),
    decreases n,
{
    if n > 0 {
        lemma_pruned_clusters(w, n - 1);
        lemma_kept_cluster_faces(w, w.leaves, n - 1);
        lemma_kept_renderables(
            w,
            cluster_faces(w.leaves, n - 1),
            Some(with_clusters(w, n - 1).len() as int),
        );
    }
}

proof fn lemma_pruned_models(w: WorldView, m: int)
    requires
        m <= w.models.len(),
    ensures
        with_models(pruned(w), m) == with_models(w, m),
    decreases m,
{
    if m <= 0 {
        lemma_pruned_clusters(w, CLUSTER_LIMIT as int);
    } else {
        lemma_pruned_models(w, m - 1);
        lemma_kept_renderables(w, w.models[m - 1], None);
    }
}

/// A face that the face filter rejects leaves no trace in the scene: with
/// or without the faces whose texture index names no texture or names a
/// texture that is not drawn, a world has the same scene.
pub proof fn lemma_rejected_faces_leave_no_trace(w: WorldView)
    ensures
        scene_of(pruned(w)) == scene_of(w),
{
    lemma_pruned_models(w, w.models.len() as int);
}

/// The scene depends on nothing but what the world holds: two worlds with
/// the same view have the same scene, node for node and vertex for vertex.
pub proof fn lemma_scene_is_determined(a: World, b: World)
    requires
        a@ == b@,
    ensures
        scene_of(a@) == scene_of(b@),
{
}

} // verus!
