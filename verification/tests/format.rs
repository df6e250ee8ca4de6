use bsp_scene::format::{is_guarded, lumps_of, scene_from, BspFormat, LoadFailure};
use bsp_scene::scene::Scene;
use bsp_scene::lumps::{FaceLump, LeafLump, ModelLump};
use bsp_scene::scene::Cluster;

const ENTITIES: usize = 0;
const PLANES: usize = 2;
const TEXTURES: usize = 1;
const LEAVES: usize = 4;
const LEAF_FACES: usize = 5;
const MODELS: usize = 7;
const VERTICES: usize = 10;
const FACES: usize = 13;
const VISIBILITY: usize = 16;

fn word(out: &mut Vec<u8>, value: i32) {
    out.extend_from_slice(&value.to_le_bytes());
}

fn number(out: &mut Vec<u8>, value: f32) {
    out.extend_from_slice(&value.to_le_bytes());
}

fn texture_row(name: &str, surface: u32, contents: u32) -> Vec<u8> {
    let mut row = vec![0u8; 64];
    row[..name.len()].copy_from_slice(name.as_bytes());
    row.extend_from_slice(&surface.to_le_bytes());
    row.extend_from_slice(&contents.to_le_bytes());
    row
}

fn vertex_row(position: [f32; 3], normal: [f32; 3], surface: [f32; 2]) -> Vec<u8> {
    let mut row = Vec::new();
    for c in position {
        number(&mut row, c);
    }
    for c in surface {
        number(&mut row, c);
    }
    for c in [9.0f32, 9.0] {
        number(&mut row, c);
    }
    for c in normal {
        number(&mut row, c);
    }
    row.extend_from_slice(&[255, 255, 255, 255]);
    row
}

fn face_row(texture: i32, first_vertex: i32, vertex_count: i32) -> Vec<u8> {
    let mut row = Vec::new();
    for value in [texture, -1, 1, first_vertex, vertex_count, 0, 0, -1, 0, 0, 0, 0] {
        word(&mut row, value);
    }
    for _ in 0..12 {
        number(&mut row, 0.0);
    }
    word(&mut row, 0);
    word(&mut row, 0);
    row
}

fn leaf_row(cluster: i32, first_leaf_face: i32, leaf_face_count: i32) -> Vec<u8> {
    let mut row = Vec::new();
    for value in [cluster, 0, 0, 0, 0, 0, 0, 0, first_leaf_face, leaf_face_count, 0, 0] {
        word(&mut row, value);
    }
    row
}

fn model_row(first_face: i32, face_count: i32) -> Vec<u8> {
    let mut row = Vec::new();
    for _ in 0..6 {
        number(&mut row, 0.0);
    }
    for value in [first_face, face_count, 0, 0] {
        word(&mut row, value);
    }
    row
}

fn file(parts: Vec<(usize, Vec<u8>)>) -> Vec<u8> {
    let mut directory = vec![(144i32, 0i32); 17];
    let mut body = Vec::new();
    for (entry, bytes) in parts {
        directory[entry] = (144 + body.len() as i32, bytes.len() as i32);
        body.extend_from_slice(&bytes);
    }
    let mut out = b"IBSP".to_vec();
    word(&mut out, 0x2e);
    for (offset, length) in directory {
        word(&mut out, offset);
        word(&mut out, length);
    }
    out.extend_from_slice(&body);
    out
}

fn world_file(leaf: Vec<u8>, leaf_faces: [i32; 2], entities: &[u8]) -> Vec<u8> {
    let mut vertices = Vec::new();
    for (x, y, z) in [(10.0, 1.0, 2.0), (11.0, 3.0, 4.0), (12.0, 5.0, 6.0), (20.0, 0.0, 0.0), (21.0, 0.0, 0.0), (22.0, 0.0, 0.0)] {
        vertices.extend(vertex_row([x, y, z], [0.0, 0.0, 1.0], [0.25, 0.75]));
    }
    let mut entries = Vec::new();
    word(&mut entries, leaf_faces[0]);
    word(&mut entries, leaf_faces[1]);
    file(vec![
        (TEXTURES, [texture_row("brick", 0, 1), texture_row("sky", 0x4, 0)].concat()),
        (VERTICES, vertices),
        (FACES, [face_row(0, 0, 3), face_row(1, 3, 3)].concat()),
        (LEAF_FACES, entries),
        (LEAVES, leaf),
        (VISIBILITY, vec![0u8; 8]),
        (ENTITIES, entities.to_vec()),
    ])
}

fn brick_and_sky(leaf: Vec<u8>) -> Vec<u8> {
    world_file(leaf, [0, 1], b"{ \"classname\" \"worldspawn\" }")
}

fn visibility_at(bytes: &Vec<u8>) -> usize {
    let at = 8 + 8 * VISIBILITY;
    i32::from_le_bytes([bytes[at], bytes[at + 1], bytes[at + 2], bytes[at + 3]]) as usize
}

fn set_word(bytes: &mut Vec<u8>, at: usize, value: i32) {
    bytes[at..at + 4].copy_from_slice(&value.to_le_bytes());
}

fn decodes(bytes: &Vec<u8>) -> bool {
    bsp_scene::bsp::Bsp::read(std::io::Cursor::new(bytes.clone())).is_ok()
}

fn brick_scene() -> Scene {
    BspFormat.import(brick_and_sky(leaf_row(7, 0, 2))).unwrap()
}

#[test]
fn a_file_with_a_brick_face_and_a_sky_face_loads_as_its_scene() {
    let scene = brick_scene();
    assert_eq!(scene.nodes.len(), 3);
    assert!(scene.nodes[0].data.is_none());
    assert_eq!(scene.nodes[1].parent, Some(0));
    assert_eq!(scene.nodes[1].data.as_ref().unwrap().cluster, Some(Cluster { id: 7 }));
    let brick = scene.nodes[2].data.as_ref().unwrap();
    assert_eq!(scene.nodes[2].parent, Some(1));
    assert_eq!(brick.texture.as_ref().unwrap().name, "brick");
    let mesh = brick.mesh.as_ref().unwrap();
    let positions: Vec<[f32; 3]> = mesh.iter().map(|v| v.position.map(f32::from_bits)).collect();
    assert_eq!(positions, vec![[10.0, 2.0, -1.0], [11.0, 4.0, -3.0], [12.0, 6.0, -5.0]]);
    assert!(mesh.iter().all(|v| v.normal.map(f32::from_bits) == [0.0, 1.0, 0.0]));
    assert!(mesh.iter().all(|v| v.tex_coord.map(f32::from_bits) == [0.25, 0.75]));
}

#[test]
fn a_file_loads_as_the_decoder_s_world() {
    let bytes = brick_and_sky(leaf_row(7, 0, 2));
    assert!(is_guarded(&bytes));
    let asset = BspFormat.import_asset(bytes).unwrap();
    assert_eq!(asset.0.textures.len(), 2);
    assert_eq!(asset.0.vertexes.len(), 6);
    assert_eq!(asset.0.leafs[0].cluster, 7);

    let lumps = lumps_of(&asset.0);
    assert_eq!(lumps.textures[0].name, "brick");
    assert_eq!((lumps.textures[0].surface, lumps.textures[0].contents), (0, 1));
    assert_eq!((lumps.textures[1].surface, lumps.textures[1].contents), (4, 0));
    assert_eq!(lumps.vertices.len(), 6);
    assert_eq!(lumps.vertices[1].position.map(f32::from_bits), [11.0, 3.0, 4.0]);
    assert_eq!(lumps.vertices[1].normal.map(f32::from_bits), [0.0, 0.0, 1.0]);
    assert_eq!(lumps.vertices[1].surface_texcoord.map(f32::from_bits), [0.25, 0.75]);
    assert_eq!(
        lumps.faces,
        vec![
            FaceLump { texture: 0, first_vertex: 0, vertex_count: 3 },
            FaceLump { texture: 1, first_vertex: 3, vertex_count: 3 },
        ]
    );
    assert_eq!(lumps.leaf_faces, vec![0, 1]);
    assert_eq!(lumps.leaves, vec![LeafLump { cluster: 7, first_leaf_face: 0, leaf_face_count: 2 }]);
    assert!(lumps.models.is_empty());

    assert_eq!(scene_from(&asset.0), brick_scene());
}

#[test]
fn the_models_of_a_file_are_read() {
    let bytes = file(vec![
        (TEXTURES, texture_row("wall", 0, 0)),
        (VERTICES, vertex_row([1.0, 2.0, 3.0], [1.0, 0.0, 0.0], [0.0, 0.0])),
        (FACES, face_row(0, 0, 1)),
        (MODELS, [model_row(0, 1), model_row(0, 0)].concat()),
        (VISIBILITY, vec![0u8; 8]),
    ]);
    let asset = BspFormat.import_asset(bytes.clone()).unwrap();
    assert_eq!(
        lumps_of(&asset.0).models,
        vec![ModelLump { first_face: 0, face_count: 1 }, ModelLump { first_face: 0, face_count: 0 }]
    );
    let scene = BspFormat.import(bytes).unwrap();
    assert_eq!(scene.nodes.len(), 2);
    assert_eq!(scene.nodes[1].parent, None);
    let mesh = scene.nodes[1].data.as_ref().unwrap().mesh.as_ref().unwrap();
    assert_eq!(mesh[0].position.map(f32::from_bits), [1.0, 3.0, -2.0]);
    assert_eq!(mesh[0].normal.map(f32::from_bits), [1.0, 0.0, 0.0]);
    assert_eq!(mesh[0].normal[2], (-0.0f32).to_bits());
}

#[test]
fn a_file_that_is_cut_short_is_refused_by_the_decoder() {
    let whole = brick_and_sky(leaf_row(7, 0, 2));
    let at = visibility_at(&whole);
    for bytes in [vec![], b"IBSP".to_vec(), whole[..143].to_vec(), whole[..144].to_vec(), whole[..at + 7].to_vec(), whole[..at + 3].to_vec()] {
        assert!(is_guarded(&bytes));
        assert!(!decodes(&bytes));
        assert!(matches!(BspFormat.import(bytes.clone()), Err(LoadFailure::Decode(_))));
        assert!(matches!(BspFormat.import_asset(bytes), Err(LoadFailure::Decode(_))));
    }
}

#[test]
fn a_file_with_another_mark_or_version_is_refused_by_the_decoder() {
    let mut bytes = brick_and_sky(leaf_row(7, 0, 2));
    bytes[0] = b'V';
    set_word(&mut bytes, 12, -1);
    assert!(is_guarded(&bytes));
    match BspFormat.import(bytes) {
        Err(LoadFailure::Decode(failure)) => assert_eq!(failure.kind(), std::io::ErrorKind::InvalidData),
        other => panic!("{:?}", other.map(|s| s.nodes.len())),
    }
    let mut bytes = brick_and_sky(leaf_row(7, 0, 2));
    set_word(&mut bytes, 4, 0x2f);
    set_word(&mut bytes, 12, -1);
    assert!(is_guarded(&bytes));
    assert!(matches!(BspFormat.import_asset(bytes), Err(LoadFailure::Decode(_))));
}

#[test]
fn a_negative_length_in_the_directory_is_refused_before_the_decoder() {
    for entry in 0..16 {
        for length in [-1, -72, i32::MIN] {
            let mut bytes = brick_and_sky(leaf_row(7, 0, 2));
            set_word(&mut bytes, 12 + 8 * entry, length);
            assert!(!is_guarded(&bytes));
            assert!(matches!(BspFormat.import(bytes.clone()), Err(LoadFailure::Directory)));
            assert!(matches!(BspFormat.import_asset(bytes), Err(LoadFailure::Directory)));
        }
    }
}

#[test]
fn the_length_of_the_visibility_entry_plays_no_part() {
    for length in [-1, 0, 7, i32::MAX, i32::MIN] {
        let mut bytes = brick_and_sky(leaf_row(7, 0, 2));
        set_word(&mut bytes, 12 + 8 * VISIBILITY, length);
        assert!(is_guarded(&bytes));
        assert!(decodes(&bytes));
        assert_eq!(BspFormat.import(bytes).unwrap(), brick_scene());
    }
}

#[test]
fn an_empty_entry_may_point_anywhere() {
    let whole = brick_and_sky(leaf_row(7, 0, 2));
    for entry in [PLANES, MODELS, 3, 6, 8, 9, 11, 12, 14, 15] {
        for offset in [whole.len() as i32, whole.len() as i32 + 1000, i32::MAX, -1, i32::MIN, 0] {
            let mut bytes = whole.clone();
            set_word(&mut bytes, 8 + 8 * entry, offset);
            set_word(&mut bytes, 12 + 8 * entry, 0);
            assert!(is_guarded(&bytes));
            assert!(decodes(&bytes));
            assert_eq!(BspFormat.import(bytes.clone()).unwrap(), brick_scene());
            assert!(BspFormat.import_asset(bytes).is_ok());
        }
    }
}

#[test]
fn the_entities_are_read_as_far_as_the_file_goes() {
    let whole = brick_and_sky(leaf_row(7, 0, 2));
    let mut bytes = whole.clone();
    set_word(&mut bytes, 12, 1000);
    assert!(is_guarded(&bytes));
    assert!(decodes(&bytes));
    assert_eq!(BspFormat.import(bytes).unwrap(), brick_scene());
    let mut bytes = whole.clone();
    set_word(&mut bytes, 8, -1);
    assert!(is_guarded(&bytes));
    assert!(decodes(&bytes));
    assert_eq!(BspFormat.import(bytes).unwrap(), brick_scene());
}

#[test]
fn an_entry_with_rows_beyond_the_file_is_refused_by_the_decoder() {
    let whole = brick_and_sky(leaf_row(7, 0, 2));
    for (entry, offset) in [(TEXTURES, whole.len() as i32 - 143), (FACES, -4), (VERTICES, i32::MAX), (LEAVES, whole.len() as i32)] {
        let mut bytes = whole.clone();
        set_word(&mut bytes, 8 + 8 * entry, offset);
        assert!(is_guarded(&bytes));
        assert!(!decodes(&bytes));
        assert!(matches!(BspFormat.import(bytes.clone()), Err(LoadFailure::Decode(_))));
        assert!(matches!(BspFormat.import_asset(bytes), Err(LoadFailure::Decode(_))));
    }
    let mut bytes = whole.clone();
    set_word(&mut bytes, 12 + 8 * TEXTURES, 72 * 1000);
    assert!(is_guarded(&bytes));
    assert!(matches!(BspFormat.import(bytes), Err(LoadFailure::Decode(_))));
}

#[test]
fn visibility_data_larger_than_the_file_is_refused_before_the_decoder() {
    let whole = brick_and_sky(leaf_row(7, 0, 2));
    let at = visibility_at(&whole);
    let follows = (whole.len() - at - 8) as i32;
    for (vectors, size) in [(-1, 1), (1, -1), (-1, -1), (i32::MIN, 2), (follows + 1, 1), (1, follows + 1), (i32::MAX, i32::MAX)] {
        let mut bytes = whole.clone();
        set_word(&mut bytes, at, vectors);
        set_word(&mut bytes, at + 4, size);
        assert!(!is_guarded(&bytes));
        assert!(matches!(BspFormat.import(bytes.clone()), Err(LoadFailure::Directory)));
        assert!(matches!(BspFormat.import_asset(bytes), Err(LoadFailure::Directory)));
    }
    for (vectors, size) in [(1000, 0), (0, 1000), (-1, 0), (0, -1), (i32::MIN, 0), (follows, 1), (1, follows), (2, follows / 2)] {
        let mut bytes = whole.clone();
        set_word(&mut bytes, at, vectors);
        set_word(&mut bytes, at + 4, size);
        assert!(is_guarded(&bytes));
        assert!(decodes(&bytes));
        assert_eq!(BspFormat.import(bytes).unwrap(), brick_scene());
    }
}

#[test]
fn visibility_data_that_is_not_in_the_file_is_left_to_the_decoder() {
    let whole = brick_and_sky(leaf_row(7, 0, 2));
    for offset in [-1, i32::MIN, whole.len() as i32, whole.len() as i32 - 7, i32::MAX] {
        let mut bytes = whole.clone();
        set_word(&mut bytes, 8 + 8 * VISIBILITY, offset);
        assert!(is_guarded(&bytes));
        assert!(!decodes(&bytes));
        assert!(matches!(BspFormat.import(bytes), Err(LoadFailure::Decode(_))));
    }
}

#[test]
fn a_texture_with_unknown_flags_is_refused_by_the_decoder() {
    let bytes = file(vec![(TEXTURES, texture_row("odd", 0x8000_0000, 0)), (VISIBILITY, vec![0u8; 8])]);
    assert!(is_guarded(&bytes));
    assert!(matches!(BspFormat.import(bytes), Err(LoadFailure::Decode(_))));
}

#[test]
fn a_leaf_run_beyond_the_table_loads_without_its_faces() {
    for leaf in [leaf_row(7, 1, 2), leaf_row(7, 2, 1), leaf_row(7, -1, 2), leaf_row(7, 0, -1), leaf_row(7, 0, 3)] {
        let bytes = brick_and_sky(leaf);
        assert!(is_guarded(&bytes));
        assert!(decodes(&bytes));
        let scene = BspFormat.import(bytes.clone()).unwrap();
        assert_eq!(scene.nodes.len(), 2);
        assert_eq!(scene.nodes[1].data.as_ref().unwrap().cluster, Some(Cluster { id: 7 }));
        let asset = BspFormat.import_asset(bytes).unwrap();
        assert_eq!(scene_from(&asset.0), scene);
    }
}

#[test]
fn a_leaf_face_that_is_no_face_loads_without_it() {
    for missing in [2, -1, i32::MAX] {
        let bytes = world_file(leaf_row(7, 0, 2), [missing, 0], b"");
        assert!(decodes(&bytes));
        assert_eq!(BspFormat.import(bytes).unwrap(), brick_scene());
        let bytes = world_file(leaf_row(7, 0, 2), [0, missing], b"");
        assert_eq!(BspFormat.import(bytes).unwrap(), brick_scene());
        let bytes = world_file(leaf_row(7, 0, 2), [missing, missing], b"");
        assert_eq!(BspFormat.import(bytes).unwrap().nodes.len(), 2);
    }
}

#[test]
fn the_decoder_s_own_leaf_faces_are_the_ones_resolved() {
    for entries in [[0, 1], [1, 0], [2, 0], [1, -1], [7, 7], [1, 1]] {
        let bytes = world_file(leaf_row(7, 0, 2), entries, b"");
        let asset = BspFormat.import_asset(bytes).unwrap();
        let theirs: Vec<i32> = asset.0.leaf(0).unwrap().faces().map(|f| f.texture).collect();
        let world = lumps_of(&asset.0).resolve();
        let ours: Vec<i32> = world.leaves[0].faces.iter().map(|f| f.texture).collect();
        assert_eq!(ours, theirs);
    }
}

#[test]
fn a_face_run_beyond_the_vertices_loads_without_them() {
    let mut vertices = Vec::new();
    for x in [1.0, 2.0, 3.0] {
        vertices.extend(vertex_row([x, 0.0, 0.0], [0.0, 0.0, 1.0], [0.0, 0.0]));
    }
    let bytes = file(vec![
        (TEXTURES, [texture_row("a", 0, 0), texture_row("b", 0, 0)].concat()),
        (VERTICES, vertices),
        (FACES, [face_row(0, 1, 3), face_row(1, 1, 2), face_row(0, -1, 1), face_row(0, 0, -3)].concat()),
        (MODELS, [model_row(0, 4), model_row(3, 2), model_row(-1, 1)].concat()),
        (VISIBILITY, vec![0u8; 8]),
    ]);
    assert!(decodes(&bytes));
    let scene = BspFormat.import(bytes).unwrap();
    assert_eq!(scene.nodes.len(), 2);
    let node = scene.nodes[1].data.as_ref().unwrap();
    assert_eq!(node.texture.as_ref().unwrap().name, "b");
    let xs: Vec<f32> = node.mesh.as_ref().unwrap().iter().map(|v| f32::from_bits(v.position[0])).collect();
    assert_eq!(xs, vec![2.0, 3.0]);
}
