use caevern::cae::{
    decimal_bytes, make_mesh_key, parse_cae_data, read_string, read_u32, ByteReader, CaeError,
};
use caevern::transform::Vec3Bits;

fn word(out: &mut Vec<u8>, x: u32) {
    out.extend_from_slice(&x.to_le_bytes());
}

fn name(out: &mut Vec<u8>, s: &[u8]) {
    word(out, s.len() as u32);
    out.extend_from_slice(s);
}

fn vec3(out: &mut Vec<u8>, v: [f32; 3]) {
    for c in v {
        word(out, c.to_bits());
    }
}

fn bits(v: [f32; 3]) -> Vec3Bits {
    Vec3Bits { x: v[0].to_bits(), y: v[1].to_bits(), z: v[2].to_bits() }
}

fn header(out: &mut Vec<u8>, version: u32) {
    out.extend_from_slice(b"CAEV");
    word(out, version);
}

/// One mesh "Tri" with three vertices and the given indices.
fn one_mesh_file(indices: &[u32]) -> Vec<u8> {
    let mut d = Vec::new();
    header(&mut d, 1);
    word(&mut d, 1);
    name(&mut d, b"Tri");
    word(&mut d, 3);
    vec3(&mut d, [0.0, 0.0, 0.0]);
    vec3(&mut d, [1.0, 0.0, 0.0]);
    vec3(&mut d, [0.0, 1.0, 0.0]);
    word(&mut d, indices.len() as u32);
    for i in indices {
        word(&mut d, *i);
    }
    d
}

#[test]
fn empty_scene_parses() {
    let mut d = Vec::new();
    header(&mut d, 3);
    word(&mut d, 0);
    word(&mut d, 0);
    let scene = parse_cae_data(&d).unwrap();
    assert_eq!(scene.version, 3);
    assert!(scene.meshes.is_empty());
    assert!(scene.objects.is_empty());
}

#[test]
fn wrong_magic_is_refused() {
    let mut d = Vec::new();
    d.extend_from_slice(b"CAEX");
    word(&mut d, 1);
    word(&mut d, 0);
    word(&mut d, 0);
    assert!(matches!(parse_cae_data(&d), Err(CaeError::NotCaevern)));
}

#[test]
fn short_header_is_truncated() {
    assert!(matches!(parse_cae_data(b"CAE"), Err(CaeError::Truncated)));
    assert!(matches!(parse_cae_data(b""), Err(CaeError::Truncated)));
    assert!(matches!(parse_cae_data(b"CAEV\x01\x00"), Err(CaeError::Truncated)));
}

#[test]
fn mesh_corners_follow_indices() {
    let mut d = one_mesh_file(&[2, 0, 1, 2]);
    word(&mut d, 0);
    let scene = parse_cae_data(&d).unwrap();
    assert_eq!(scene.meshes.len(), 1);
    let m = &scene.meshes[0];
    assert_eq!(m.key, b"tri@0".to_vec());
    assert_eq!(
        m.corners,
        vec![bits([0.0, 1.0, 0.0]), bits([0.0, 0.0, 0.0]), bits([1.0, 0.0, 0.0]), bits([0.0, 1.0, 0.0])]
    );
}

#[test]
fn index_beyond_vertices_is_refused() {
    let mut d = one_mesh_file(&[0, 3, 1]);
    word(&mut d, 0);
    assert!(matches!(parse_cae_data(&d), Err(CaeError::VertexIndexOutOfRange)));
}

#[test]
fn truncated_indices_are_reported_before_a_bad_index() {
    let mut d = one_mesh_file(&[7]);
    // claim two indices, give one
    let n = d.len();
    d[n - 8..n - 4].copy_from_slice(&2u32.to_le_bytes());
    assert!(matches!(parse_cae_data(&d), Err(CaeError::Truncated)));
}

#[test]
fn invalid_utf8_name_is_refused() {
    let mut d = Vec::new();
    header(&mut d, 1);
    word(&mut d, 1);
    name(&mut d, &[0xff, 0x41]);
    assert!(matches!(parse_cae_data(&d), Err(CaeError::InvalidName)));
}

#[test]
fn instances_resolve_by_key_and_unknown_ones_carry_no_transform() {
    let mut d = one_mesh_file(&[0, 1, 2]);
    word(&mut d, 2); // two objects
    // object 1: two instances, one known, one unknown
    name(&mut d, b"House");
    vec3(&mut d, [1.0, 2.0, 3.0]);
    vec3(&mut d, [90.0, 0.0, 0.0]);
    vec3(&mut d, [1.0, 1.0, 1.0]);
    word(&mut d, 2);
    name(&mut d, b"TRI@0");
    vec3(&mut d, [5.0, 0.0, 0.0]);
    vec3(&mut d, [0.0, 0.0, 0.0]);
    vec3(&mut d, [2.0, 2.0, 2.0]);
    name(&mut d, b"missing@3");
    // object 2: no instances
    name(&mut d, b"Empty");
    vec3(&mut d, [0.0, 0.0, 0.0]);
    vec3(&mut d, [0.0, 0.0, 0.0]);
    vec3(&mut d, [1.0, 1.0, 1.0]);
    word(&mut d, 0);
    let scene = parse_cae_data(&d).unwrap();
    assert_eq!(scene.objects.len(), 2);
    let house = &scene.objects[0];
    assert_eq!(house.name, b"house".to_vec());
    assert_eq!(house.position, bits([1.0, 2.0, 3.0]));
    assert_eq!(house.rotation, bits([90.0, 0.0, 0.0]));
    assert_eq!(house.instances.len(), 2);
    let placed = house.instances[0].placement.unwrap();
    assert_eq!(house.instances[0].key, b"tri@0".to_vec());
    assert_eq!(placed.mesh, 0);
    assert_eq!(placed.position, bits([5.0, 0.0, 0.0]));
    assert_eq!(placed.scale, bits([2.0, 2.0, 2.0]));
    assert_eq!(house.instances[1].key, b"missing@3".to_vec());
    assert!(house.instances[1].placement.is_none());
    assert_eq!(scene.objects[1].name, b"empty".to_vec());
    assert!(scene.objects[1].instances.is_empty());
}

#[test]
fn meshes_with_the_same_name_get_distinct_keys() {
    let mut d = Vec::new();
    header(&mut d, 1);
    word(&mut d, 2);
    for _ in 0..2 {
        name(&mut d, b"Leaf");
        word(&mut d, 0);
        word(&mut d, 0);
    }
    word(&mut d, 0);
    let scene = parse_cae_data(&d).unwrap();
    assert_eq!(scene.meshes[0].key, b"leaf@0".to_vec());
    assert_eq!(scene.meshes[1].key, b"leaf@1".to_vec());
    assert_ne!(scene.meshes[0].key, scene.meshes[1].key);
}

#[test]
fn decimal_digits() {
    assert_eq!(decimal_bytes(0), b"0".to_vec());
    assert_eq!(decimal_bytes(7), b"7".to_vec());
    assert_eq!(decimal_bytes(12), b"12".to_vec());
    assert_eq!(decimal_bytes(4294967295), b"4294967295".to_vec());
    assert_eq!(make_mesh_key(b"rock".to_vec(), 105), b"rock@105".to_vec());
}

#[test]
fn words_are_little_endian_and_names_lower_case() {
    let mut d = Vec::new();
    word(&mut d, 0x0403_0201);
    name(&mut d, b"MiXeD_1");
    let mut r = ByteReader::new(&d);
    assert_eq!(read_u32(&mut r).unwrap(), 0x0403_0201);
    assert_eq!(read_string(&mut r).unwrap(), b"mixed_1".to_vec());
    assert_eq!(r.pos(), d.len());
    assert!(matches!(read_u32(&mut r), Err(CaeError::Truncated)));
}
