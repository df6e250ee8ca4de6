use bsp_scene::lumps::{is_draw_eligible, FaceLump, LeafLump, Lumps, ModelLump, TextureLump};
use bsp_scene::vertex::Vertex;

fn point(x: f32) -> Vertex {
    Vertex {
        position: [x.to_bits(), 0.0f32.to_bits(), 0.0f32.to_bits()],
        normal: [0.0f32.to_bits(), 0.0f32.to_bits(), 1.0f32.to_bits()],
        surface_texcoord: [0.0f32.to_bits(), 1.0f32.to_bits()],
    }
}

fn tables() -> Lumps {
    Lumps {
        textures: vec![
            TextureLump { name: "brick".to_string(), surface: 0, contents: 1 },
            TextureLump { name: "sky".to_string(), surface: 0x4, contents: 0 },
        ],
        vertices: vec![point(0.0), point(1.0), point(2.0), point(3.0), point(4.0)],
        faces: vec![
            FaceLump { texture: 0, first_vertex: 0, vertex_count: 3 },
            FaceLump { texture: 1, first_vertex: 3, vertex_count: 2 },
            FaceLump { texture: 9, first_vertex: 1, vertex_count: 4 },
        ],
        leaf_faces: vec![2, 0, 1, 0],
        leaves: vec![
            LeafLump { cluster: 7, first_leaf_face: 1, leaf_face_count: 3 },
            LeafLump { cluster: -1, first_leaf_face: 0, leaf_face_count: 1 },
        ],
        models: vec![ModelLump { first_face: 1, face_count: 2 }],
    }
}

fn xs(vertices: &Vec<Vertex>) -> Vec<f32> {
    vertices.iter().map(|v| f32::from_bits(v.position[0])).collect()
}

#[test]
fn tables_resolve_into_their_world() {
    let world = tables().resolve();
    assert_eq!(world.textures.len(), 2);
    assert_eq!(world.textures[0].name, "brick");
    assert!(world.textures[0].drawable);
    assert_eq!(world.textures[1].name, "sky");
    assert!(!world.textures[1].drawable);

    assert_eq!(world.leaves.len(), 2);
    assert_eq!(world.leaves[0].cluster, 7);
    let textures: Vec<i32> = world.leaves[0].faces.iter().map(|f| f.texture).collect();
    assert_eq!(textures, vec![0, 1, 0]);
    assert_eq!(xs(&world.leaves[0].faces[0].vertices), vec![0.0, 1.0, 2.0]);
    assert_eq!(xs(&world.leaves[0].faces[1].vertices), vec![3.0, 4.0]);
    assert_eq!(world.leaves[0].faces[0].vertices[1], point(1.0));
    assert_eq!(world.leaves[1].cluster, -1);
    assert_eq!(world.leaves[1].faces.len(), 1);
    assert_eq!(world.leaves[1].faces[0].texture, 9);
    assert_eq!(xs(&world.leaves[1].faces[0].vertices), vec![1.0, 2.0, 3.0, 4.0]);

    assert_eq!(world.models.len(), 1);
    let textures: Vec<i32> = world.models[0].faces.iter().map(|f| f.texture).collect();
    assert_eq!(textures, vec![1, 9]);
    assert_eq!(xs(&world.models[0].faces[0].vertices), vec![3.0, 4.0]);
}

#[test]
fn empty_tables_resolve_into_the_empty_world() {
    let lumps = Lumps {
        textures: vec![],
        vertices: vec![],
        faces: vec![],
        leaf_faces: vec![],
        leaves: vec![],
        models: vec![],
    };
    let world = lumps.resolve();
    assert!(world.textures.is_empty() && world.leaves.is_empty() && world.models.is_empty());
}

#[test]
fn an_empty_run_gives_nothing_wherever_it_begins() {
    let mut lumps = tables();
    lumps.faces[0] = FaceLump { texture: 0, first_vertex: -5, vertex_count: 0 };
    lumps.leaves[1] = LeafLump { cluster: 2, first_leaf_face: 1000, leaf_face_count: 0 };
    lumps.models[0] = ModelLump { first_face: i32::MIN, face_count: 0 };
    let world = lumps.resolve();
    assert!(world.leaves[0].faces[0].vertices.is_empty());
    assert_eq!(world.leaves[0].faces.len(), 3);
    assert!(world.leaves[1].faces.is_empty());
    assert!(world.models[0].faces.is_empty());
}

#[test]
fn a_run_may_end_with_its_table() {
    let mut lumps = tables();
    lumps.faces[2] = FaceLump { texture: 0, first_vertex: 4, vertex_count: 1 };
    lumps.leaves[1] = LeafLump { cluster: 0, first_leaf_face: 3, leaf_face_count: 1 };
    lumps.models[0] = ModelLump { first_face: 0, face_count: 3 };
    let world = lumps.resolve();
    assert_eq!(xs(&world.models[0].faces[2].vertices), vec![4.0]);
    assert_eq!(world.leaves[1].faces.len(), 1);
    assert_eq!(xs(&world.leaves[1].faces[0].vertices), vec![0.0, 1.0, 2.0]);
    assert_eq!(world.models[0].faces.len(), 3);
}

#[test]
fn a_vertex_run_beyond_the_table_gives_no_vertices() {
    for (first_vertex, vertex_count) in [(4, 2), (-1, 2), (i32::MAX, i32::MAX), (5, 1), (0, 6), (0, -1), (2, i32::MIN)] {
        let mut lumps = tables();
        lumps.faces[2] = FaceLump { texture: 0, first_vertex, vertex_count };
        let world = lumps.resolve();
        assert_eq!(world.leaves[1].faces.len(), 1);
        assert_eq!(world.leaves[1].faces[0].texture, 0);
        assert!(world.leaves[1].faces[0].vertices.is_empty());
        assert_eq!(world.models[0].faces.len(), 2);
        assert!(world.models[0].faces[1].vertices.is_empty());
        assert_eq!(xs(&world.models[0].faces[0].vertices), vec![3.0, 4.0]);
        assert_eq!(world.leaves[0].faces.len(), 3);
    }
}

#[test]
fn a_leaf_run_beyond_the_table_gives_no_faces() {
    for (first_leaf_face, leaf_face_count) in [(2, 3), (-1, 2), (4, 1), (0, 5), (1, -3), (i32::MAX, 1)] {
        let mut lumps = tables();
        lumps.leaves[0] = LeafLump { cluster: 7, first_leaf_face, leaf_face_count };
        let world = lumps.resolve();
        assert_eq!(world.leaves[0].cluster, 7);
        assert!(world.leaves[0].faces.is_empty());
        assert_eq!(world.leaves[1].faces.len(), 1);
    }
}

#[test]
fn a_leaf_face_that_is_no_face_is_left_out() {
    for missing in [3, -1, i32::MAX, i32::MIN] {
        let mut lumps = tables();
        lumps.leaf_faces[2] = missing;
        let world = lumps.resolve();
        let textures: Vec<i32> = world.leaves[0].faces.iter().map(|f| f.texture).collect();
        assert_eq!(textures, vec![0, 0]);
        assert_eq!(world.leaves[1].faces.len(), 1);
    }
    let mut lumps = tables();
    lumps.leaf_faces = vec![5, 5, 5, 5];
    let world = lumps.resolve();
    assert!(world.leaves[0].faces.is_empty());
    assert!(world.leaves[1].faces.is_empty());
    let mut lumps = tables();
    lumps.leaf_faces[2] = 2;
    let world = lumps.resolve();
    let textures: Vec<i32> = world.leaves[0].faces.iter().map(|f| f.texture).collect();
    assert_eq!(textures, vec![0, 9, 0]);
}

#[test]
fn a_leaf_face_outside_every_run_is_not_looked_at() {
    let mut lumps = tables();
    lumps.leaf_faces.push(77);
    assert_eq!(lumps.resolve().leaves, tables().resolve().leaves);
}

#[test]
fn a_model_run_beyond_the_table_gives_no_faces() {
    for (first_face, face_count) in [(2, 2), (-1, 1), (3, 1), (0, 4), (0, -2)] {
        let mut lumps = tables();
        lumps.models[0] = ModelLump { first_face, face_count };
        let world = lumps.resolve();
        assert_eq!(world.models.len(), 1);
        assert!(world.models[0].faces.is_empty());
        assert_eq!(world.leaves[0].faces.len(), 3);
    }
}

#[test]
fn sky_no_draw_clip_and_trigger_are_not_drawn() {
    assert!(is_draw_eligible(0, 0));
    assert!(!is_draw_eligible(0x4, 0));
    assert!(!is_draw_eligible(0x80, 0));
    assert!(!is_draw_eligible(0x84, 0));
    assert!(!is_draw_eligible(0, 0x1_0000));
    assert!(!is_draw_eligible(0, 0x2_0000));
    assert!(!is_draw_eligible(0, 0x4000_0000));
    assert!(!is_draw_eligible(0x4, 0x4000_0000));
    assert!(is_draw_eligible(!0x84, !0x4003_0000));
    assert!(is_draw_eligible(0x1 | 0x2 | 0x8 | 0x100 | 0x200, 0x1 | 0x20 | 0x8000_0000));
}
