use scene_assets::byte_reader::ByteReader;
use scene_assets::error::LoadError;
use scene_assets::math::Matrix4;
use scene_assets::math::Scalar;
use scene_assets::math::Vector2;
use scene_assets::math::Vector3;
use scene_assets::math::Vector4;
use scene_assets::model::Material;
use scene_assets::model::Model;
use scene_assets::model::Rgb;
use scene_assets::model::Texture;
use scene_assets::model_loader::load_model;
use scene_assets::model_loader::read_and_box;
use scene_assets::model_loader::read_bool;
use scene_assets::model_loader::read_index;
use scene_assets::model_loader::read_material;
use scene_assets::model_loader::read_string;
use scene_assets::model_loader::read_texcoord;
use scene_assets::model_loader::read_texture;
use scene_assets::model_loader::read_transform;
use scene_assets::model_loader::read_u16;
use scene_assets::model_loader::read_vertex;

fn s(x: f32) -> Scalar {
    Scalar::from_bits(x.to_bits())
}

fn v3(x: f32, y: f32, z: f32) -> Vector3 {
    Vector3 { x: s(x), y: s(y), z: s(z) }
}

fn v2(x: f32, y: f32) -> Vector2 {
    Vector2 { x: s(x), y: s(y) }
}

fn put_string(out: &mut Vec<u8>, text: &str) {
    out.extend_from_slice(&(text.len() as u16).to_be_bytes());
    out.extend_from_slice(text.as_bytes());
}

fn put_floats(out: &mut Vec<u8>, floats: &[f32]) {
    for f in floats {
        out.extend_from_slice(&f.to_be_bytes());
    }
}

fn put_count(out: &mut Vec<u8>, count: u32) {
    out.extend_from_slice(&count.to_be_bytes());
}

fn transform_floats() -> Vec<f32> {
    (0..16).map(|i| i as f32 + 0.5).collect()
}

fn transform() -> Matrix4 {
    let column = |c: usize| Vector4 {
        x: s(4.0 * c as f32 + 0.5),
        y: s(4.0 * c as f32 + 1.5),
        z: s(4.0 * c as f32 + 2.5),
        w: s(4.0 * c as f32 + 3.5),
    };
    Matrix4 { x: column(0), y: column(1), z: column(2), w: column(3) }
}

/// A model without materials: one triangle over three vertices.
fn triangle_bytes(name: &str, indices: &[u32], vertices: usize, texcoords: usize) -> Vec<u8> {
    let mut out = Vec::new();
    put_string(&mut out, name);
    put_floats(&mut out, &transform_floats());
    put_count(&mut out, 0);
    put_count(&mut out, indices.len() as u32);
    for i in indices {
        out.extend_from_slice(&i.to_be_bytes());
    }
    put_count(&mut out, vertices as u32);
    for i in 0..vertices {
        put_floats(&mut out, &[i as f32, 10.0 + i as f32, 20.0 + i as f32]);
    }
    put_count(&mut out, texcoords as u32);
    for i in 0..texcoords {
        put_floats(&mut out, &[0.25 * i as f32, 1.0 - 0.25 * i as f32]);
    }
    out
}

fn triangle_model(name: &str) -> Model {
    Model {
        name: name.to_string(),
        transform: transform(),
        materials: vec![],
        indices: vec![0, 1, 2],
        vertices: vec![v3(0.0, 10.0, 20.0), v3(1.0, 11.0, 21.0), v3(2.0, 12.0, 22.0)],
        texcoords: vec![v2(0.0, 1.0), v2(0.25, 0.75), v2(0.5, 0.5)],
    }
}

#[test]
fn flag_is_set_by_the_byte_one_only() {
    let bytes = [1u8, 0, 2, 255];
    let mut reader = ByteReader::new(&bytes);
    assert_eq!(read_bool(&mut reader), Ok(true));
    assert_eq!(read_bool(&mut reader), Ok(false));
    assert_eq!(read_bool(&mut reader), Ok(false));
    assert_eq!(read_bool(&mut reader), Ok(false));
    assert_eq!(reader.offset(), 4);
    assert_eq!(read_bool(&mut reader), Err(LoadError::IoFailure));
    assert_eq!(reader.offset(), 4);
}

#[test]
fn numbers_are_big_endian() {
    let bytes = [0x12u8, 0x34, 0xde, 0xad, 0xbe, 0xef, 0x00, 0x00, 0x00, 0x01];
    let mut reader = ByteReader::new(&bytes);
    assert_eq!(read_u16(&mut reader), Ok(0x1234));
    assert_eq!(read_index(&mut reader), Ok(0xdead_beef));
    assert_eq!(read_index(&mut reader), Ok(1));
    assert_eq!(reader.offset(), 10);
}

#[test]
fn short_numbers_fail_and_consume_nothing() {
    let bytes = [0x12u8, 0x34, 0x56];
    let mut reader = ByteReader::new(&bytes);
    assert_eq!(read_index(&mut reader), Err(LoadError::IoFailure));
    assert_eq!(reader.offset(), 0);
    assert_eq!(read_u16(&mut reader), Ok(0x1234));
    assert_eq!(read_u16(&mut reader), Err(LoadError::IoFailure));
    assert_eq!(reader.offset(), 2);
}

#[test]
fn string_is_length_then_text() {
    let mut bytes = Vec::new();
    put_string(&mut bytes, "monkey");
    put_string(&mut bytes, "");
    put_string(&mut bytes, "grüße 🐒");
    let mut reader = ByteReader::new(&bytes);
    assert_eq!(read_string(&mut reader), Ok("monkey".to_string()));
    assert_eq!(reader.offset(), 8);
    assert_eq!(read_string(&mut reader), Ok(String::new()));
    assert_eq!(read_string(&mut reader), Ok("grüße 🐒".to_string()));
    assert_eq!(reader.left(), 0);
}

#[test]
fn string_cut_short_fails_and_consumes_nothing() {
    let bytes = [0u8, 5, b'a', b'b', b'c'];
    let mut reader = ByteReader::new(&bytes);
    assert_eq!(read_string(&mut reader), Err(LoadError::IoFailure));
    assert_eq!(reader.offset(), 0);
    let mut reader = ByteReader::new(&bytes[..1]);
    assert_eq!(read_string(&mut reader), Err(LoadError::IoFailure));
    assert_eq!(reader.offset(), 0);
}

#[test]
fn string_that_is_not_utf8_fails_and_consumes_nothing() {
    let bytes = [0u8, 2, 0xc3, 0x28, 7];
    let mut reader = ByteReader::new(&bytes);
    assert_eq!(read_string(&mut reader), Err(LoadError::IoFailure));
    assert_eq!(reader.offset(), 0);
}

#[test]
fn vertex_is_three_scalars() {
    let mut bytes = Vec::new();
    put_floats(&mut bytes, &[1.0, -2.5, 3.25, 9.0]);
    let mut reader = ByteReader::new(&bytes);
    assert_eq!(read_vertex(&mut reader), Ok(v3(1.0, -2.5, 3.25)));
    assert_eq!(reader.offset(), 12);
    assert_eq!(read_vertex(&mut reader), Err(LoadError::IoFailure));
    assert_eq!(reader.offset(), 12);
}

#[test]
fn texcoord_is_two_scalars() {
    let mut bytes = Vec::new();
    put_floats(&mut bytes, &[0.25, 0.75, 9.0]);
    let mut reader = ByteReader::new(&bytes);
    assert_eq!(read_texcoord(&mut reader), Ok(v2(0.25, 0.75)));
    assert_eq!(reader.offset(), 8);
    assert_eq!(read_texcoord(&mut reader), Err(LoadError::IoFailure));
}

#[test]
fn scalar_bits_are_kept_exactly() {
    let bytes = [0x7f, 0xc0, 0x12, 0x34, 0x80, 0, 0, 0];
    let mut reader = ByteReader::new(&bytes);
    let found = read_texcoord(&mut reader).unwrap();
    assert_eq!(found.x.to_bits(), 0x7fc0_1234);
    assert_eq!(found.y.to_bits(), 0x8000_0000);
}

#[test]
fn transform_is_sixteen_scalars_by_column() {
    let mut bytes = Vec::new();
    put_floats(&mut bytes, &transform_floats());
    bytes.push(0xff);
    let mut reader = ByteReader::new(&bytes);
    assert_eq!(read_transform(&mut reader), Ok(transform()));
    assert_eq!(reader.offset(), 64);
    let mut reader = ByteReader::new(&bytes[..63]);
    assert_eq!(read_transform(&mut reader), Err(LoadError::IoFailure));
    assert_eq!(reader.offset(), 0);
}

#[test]
fn empty_texture_slot_is_one_byte() {
    let bytes = [0u8, 1];
    let mut reader = ByteReader::new(&bytes);
    assert_eq!(read_texture(&mut reader), Ok(None));
    assert_eq!(reader.offset(), 1);
}

#[test]
fn texture_is_size_then_pixels() {
    let mut bytes = vec![1u8, 0, 2, 0, 3];
    for i in 0..6u8 {
        bytes.extend_from_slice(&[i, 10 + i, 20 + i]);
    }
    bytes.push(0xff);
    let mut reader = ByteReader::new(&bytes);
    let texture = read_texture(&mut reader).unwrap().unwrap();
    assert_eq!(texture.width, 2);
    assert_eq!(texture.height, 3);
    assert_eq!(texture.pixels.len(), 6);
    assert_eq!(texture.pixels[0], Rgb { r: 0, g: 10, b: 20 });
    assert_eq!(texture.pixels[5], Rgb { r: 5, g: 15, b: 25 });
    assert_eq!(reader.offset(), 5 + 18);
}

#[test]
fn texture_without_pixels_is_five_bytes() {
    let bytes = [1u8, 0, 0, 0, 9];
    let mut reader = ByteReader::new(&bytes);
    let empty = Texture { width: 0, height: 9, pixels: vec![] };
    assert_eq!(read_texture(&mut reader), Ok(Some(empty)));
    assert_eq!(reader.offset(), 5);
}

#[test]
fn texture_cut_short_fails_and_consumes_nothing() {
    let mut bytes = vec![1u8, 0, 2, 0, 2];
    bytes.extend_from_slice(&[0; 11]);
    for cut in [0, 1, 2, 4, 5, 10, 16] {
        let mut reader = ByteReader::new(&bytes[..cut]);
        assert_eq!(read_texture(&mut reader), Err(LoadError::IoFailure), "cut at {}", cut);
        assert_eq!(reader.offset(), 0);
    }
    let huge = [1u8, 0xff, 0xff, 0xff, 0xff, 0, 0, 0];
    let mut reader = ByteReader::new(&huge);
    assert_eq!(read_texture(&mut reader), Err(LoadError::IoFailure));
    assert_eq!(reader.offset(), 0);
}

fn material_bytes() -> Vec<u8> {
    let mut bytes = Vec::new();
    put_string(&mut bytes, "skin");
    put_string(&mut bytes, "assets/shader.vert");
    put_string(&mut bytes, "assets/shader.frag");
    bytes.push(0);
    bytes.extend_from_slice(&[1, 0, 1, 0, 1, 7, 8, 9]);
    bytes.push(0);
    bytes
}

fn material() -> Material {
    Material {
        name: "skin".to_string(),
        shader_vertex: "assets/shader.vert".to_string(),
        shader_fragment: "assets/shader.frag".to_string(),
        normals: None,
        diffuse: Some(Texture { width: 1, height: 1, pixels: vec![Rgb { r: 7, g: 8, b: 9 }] }),
        specular: None,
    }
}

#[test]
fn material_is_three_strings_and_three_slots() {
    let mut bytes = material_bytes();
    let length = bytes.len();
    bytes.extend_from_slice(b"more");
    let mut reader = ByteReader::new(&bytes);
    assert_eq!(read_material(&mut reader), Ok(material()));
    assert_eq!(reader.offset(), length);
}

#[test]
fn material_cut_short_fails_and_consumes_nothing() {
    let bytes = material_bytes();
    for cut in 0..bytes.len() {
        let mut padded = vec![0xaa, 0xbb];
        padded.extend_from_slice(&bytes[..cut]);
        let mut reader = ByteReader::new(&padded);
        assert_eq!(read_u16(&mut reader), Ok(0xaabb));
        assert_eq!(read_material(&mut reader), Err(LoadError::IoFailure), "cut at {}", cut);
        assert_eq!(reader.offset(), 2);
    }
}

#[test]
fn array_is_count_then_items() {
    let bytes = [0u8, 0, 0, 3, 0, 0, 0, 7, 0, 0, 0, 8, 0, 0, 1, 0, 0xff];
    let mut reader = ByteReader::new(&bytes);
    assert_eq!(read_and_box::<u32>(&mut reader), Ok(vec![7, 8, 256]));
    assert_eq!(reader.offset(), 16);
}

#[test]
fn empty_array_is_its_count() {
    let bytes = [0u8, 0, 0, 0, 5];
    let mut reader = ByteReader::new(&bytes);
    assert_eq!(read_and_box::<Vector3>(&mut reader), Ok(vec![]));
    assert_eq!(reader.offset(), 4);
}

#[test]
fn array_of_materials_reads_each_in_turn() {
    let mut bytes = vec![0u8, 0, 0, 2];
    bytes.extend_from_slice(&material_bytes());
    bytes.extend_from_slice(&material_bytes());
    let mut reader = ByteReader::new(&bytes);
    assert_eq!(read_and_box::<Material>(&mut reader), Ok(vec![material(), material()]));
    assert_eq!(reader.left(), 0);
}

#[test]
fn truncated_array_fails_and_consumes_nothing() {
    let bytes = [0u8, 0, 0, 3, 0, 0, 0, 7, 0, 0, 0, 8, 0, 0, 1];
    let mut reader = ByteReader::new(&bytes);
    assert_eq!(read_and_box::<u32>(&mut reader), Err(LoadError::IoFailure));
    assert_eq!(reader.offset(), 0);
    let announced = [0xffu8, 0xff, 0xff, 0xff, 1, 2, 3, 4];
    let mut reader = ByteReader::new(&announced);
    assert_eq!(read_and_box::<Vector2>(&mut reader), Err(LoadError::IoFailure));
    assert_eq!(reader.offset(), 0);
    let mut reader = ByteReader::new(&bytes[..3]);
    assert_eq!(read_and_box::<u32>(&mut reader), Err(LoadError::IoFailure));
}

#[test]
fn model_without_materials_loads_exactly() {
    let mut bytes = triangle_bytes("", &[0, 1, 2], 3, 3);
    let length = bytes.len();
    assert_eq!(length, 2 + 64 + 4 + (4 + 12) + (4 + 36) + (4 + 24));
    bytes.extend_from_slice(b"what follows");
    let mut reader = ByteReader::new(&bytes);
    let model = load_model(&mut reader).unwrap();
    assert_eq!(model, triangle_model(""));
    assert_eq!(reader.offset(), length);
    assert_eq!(reader.left(), 12);
}

#[test]
fn model_name_is_read() {
    let bytes = triangle_bytes("monkey", &[0, 1, 2], 3, 3);
    let mut reader = ByteReader::new(&bytes);
    assert_eq!(load_model(&mut reader), Ok(triangle_model("monkey")));
    assert_eq!(reader.left(), 0);
}

#[test]
fn model_with_materials_loads() {
    let mut bytes = Vec::new();
    put_string(&mut bytes, "m");
    put_floats(&mut bytes, &transform_floats());
    put_count(&mut bytes, 1);
    bytes.extend_from_slice(&material_bytes());
    put_count(&mut bytes, 0);
    put_count(&mut bytes, 0);
    put_count(&mut bytes, 0);
    let mut reader = ByteReader::new(&bytes);
    let model = load_model(&mut reader).unwrap();
    assert_eq!(model.materials, vec![material()]);
    assert!(model.indices.is_empty());
    assert!(model.vertices.is_empty());
    assert!(model.texcoords.is_empty());
    assert_eq!(reader.left(), 0);
}

#[test]
fn two_models_in_a_row_load_one_after_the_other() {
    let mut bytes = triangle_bytes("first", &[0, 1, 2], 3, 3);
    let first = bytes.len();
    bytes.extend_from_slice(&triangle_bytes("second", &[2, 1, 0], 3, 3));
    let mut reader = ByteReader::new(&bytes);
    assert_eq!(load_model(&mut reader).unwrap().name, "first");
    assert_eq!(reader.offset(), first);
    let second = load_model(&mut reader).unwrap();
    assert_eq!(second.name, "second");
    assert_eq!(second.indices, vec![2, 1, 0]);
    assert_eq!(reader.left(), 0);
    assert_eq!(load_model(&mut reader), Err(LoadError::IoFailure));
}

#[test]
fn truncated_model_is_an_io_failure_and_consumes_nothing() {
    let bytes = triangle_bytes("monkey", &[0, 1, 2], 3, 3);
    for cut in 0..bytes.len() {
        let mut reader = ByteReader::new(&bytes[..cut]);
        assert_eq!(load_model(&mut reader), Err(LoadError::IoFailure), "cut at {}", cut);
        assert_eq!(reader.offset(), 0);
    }
}

#[test]
fn model_name_that_is_not_utf8_is_an_io_failure() {
    let mut bytes = triangle_bytes("ab", &[0, 1, 2], 3, 3);
    bytes[2] = 0xff;
    let mut reader = ByteReader::new(&bytes);
    assert_eq!(load_model(&mut reader), Err(LoadError::IoFailure));
    assert_eq!(reader.offset(), 0);
}

#[test]
fn indices_that_make_no_whole_triangles_are_malformed() {
    for indices in [&[0u32][..], &[0, 1], &[0, 1, 2, 0]] {
        let bytes = triangle_bytes("m", indices, 3, 3);
        let mut reader = ByteReader::new(&bytes);
        assert_eq!(load_model(&mut reader), Err(LoadError::MalformedStream));
        assert_eq!(reader.offset(), 0);
    }
}

#[test]
fn index_beyond_the_vertices_is_out_of_range() {
    let bytes = triangle_bytes("m", &[0, 1, 3], 3, 4);
    let mut reader = ByteReader::new(&bytes);
    assert_eq!(load_model(&mut reader), Err(LoadError::IndexOutOfRange));
    assert_eq!(reader.offset(), 0);
}

#[test]
fn index_beyond_the_texcoords_is_out_of_range() {
    let bytes = triangle_bytes("m", &[0, 1, 2], 3, 2);
    let mut reader = ByteReader::new(&bytes);
    assert_eq!(load_model(&mut reader), Err(LoadError::IndexOutOfRange));
    let bytes = triangle_bytes("m", &[0, 1, 2], 3, 0);
    let mut reader = ByteReader::new(&bytes);
    assert_eq!(load_model(&mut reader), Err(LoadError::IndexOutOfRange));
}

#[test]
fn ragged_indices_are_reported_before_range() {
    let bytes = triangle_bytes("m", &[0, 9], 3, 3);
    let mut reader = ByteReader::new(&bytes);
    assert_eq!(load_model(&mut reader), Err(LoadError::MalformedStream));
}

#[test]
fn loaded_model_is_well_formed() {
    let bytes = triangle_bytes("m", &[2, 2, 0, 1, 0, 1], 3, 5);
    let mut reader = ByteReader::new(&bytes);
    let model = load_model(&mut reader).unwrap();
    assert_eq!(model.indices.len() % 3, 0);
    assert!(model
        .indices
        .iter()
        .all(|i| (*i as usize) < model.vertices.len() && (*i as usize) < model.texcoords.len()));
}
