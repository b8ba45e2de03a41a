use scene_assets::byte_reader::ByteReader;
use scene_assets::error::LoadError;
use scene_assets::math::Scalar;
use scene_assets::math::Vector3;
use scene_assets::md2::compute_frame;
use scene_assets::md2::read_frames;
use scene_assets::md2::read_header;
use scene_assets::md2::read_md2_model;
use scene_assets::md2::read_texcoords;
use scene_assets::md2::read_triangles;
use scene_assets::md2::Md2Corner;
use scene_assets::md2::Md2Frame;
use scene_assets::md2::Md2Header;
use scene_assets::md2::Md2Texcoord;
use scene_assets::md2::Md2Triangle;
use scene_assets::md2::Md2Vertex;

fn v3(x: f32, y: f32, z: f32) -> Vector3 {
    Vector3 {
        x: Scalar::from_bits(x.to_bits()),
        y: Scalar::from_bits(y.to_bits()),
        z: Scalar::from_bits(z.to_bits()),
    }
}

fn header() -> Md2Header {
    Md2Header {
        ident: 844121161,
        version: 8,
        skinwidth: 256,
        skinheight: 128,
        framesize: 52,
        num_skins: 0,
        num_vertices: 3,
        num_st: 3,
        num_tris: 2,
        num_glcmds: 0,
        num_frames: 2,
        offset_skins: 68,
        offset_st: 68,
        offset_tris: 80,
        offset_frames: 104,
        offset_glcmds: 208,
        offset_end: 208,
    }
}

fn header_bytes(h: &Md2Header) -> Vec<u8> {
    let fields = [
        h.ident,
        h.version,
        h.skinwidth,
        h.skinheight,
        h.framesize,
        h.num_skins,
        h.num_vertices,
        h.num_st,
        h.num_tris,
        h.num_glcmds,
        h.num_frames,
        h.offset_skins,
        h.offset_st,
        h.offset_tris,
        h.offset_frames,
        h.offset_glcmds,
        h.offset_end,
    ];
    fields.iter().flat_map(|f| f.to_le_bytes()).collect()
}

fn texcoords() -> Vec<Md2Texcoord> {
    vec![
        Md2Texcoord { s: 0, t: 0 },
        Md2Texcoord { s: 255, t: -1 },
        Md2Texcoord { s: -32768, t: 32767 },
    ]
}

fn triangles() -> Vec<Md2Triangle> {
    vec![
        Md2Triangle { vertex: [0, 1, 2], st: [2, 1, 0] },
        Md2Triangle { vertex: [2, 1, 0], st: [0, 0, 1] },
    ]
}

fn name(text: &str) -> String {
    let mut padded = text.to_string();
    while padded.len() < 16 {
        padded.push('\0');
    }
    padded
}

fn frames() -> Vec<Md2Frame> {
    vec![
        Md2Frame {
            scale: v3(1.0, 2.0, 3.0),
            translate: v3(-1.0, -2.0, -3.0),
            name: name("stand01"),
            verts: vec![
                Md2Vertex { v: [1, 2, 3], normal_index: 4 },
                Md2Vertex { v: [5, 6, 7], normal_index: 8 },
                Md2Vertex { v: [9, 10, 11], normal_index: 12 },
            ],
        },
        Md2Frame {
            scale: v3(0.5, 0.5, 0.5),
            translate: v3(0.0, 0.0, 0.0),
            name: name("stand02"),
            verts: vec![
                Md2Vertex { v: [21, 22, 23], normal_index: 24 },
                Md2Vertex { v: [25, 26, 27], normal_index: 28 },
                Md2Vertex { v: [29, 30, 31], normal_index: 161 },
            ],
        },
    ]
}

fn file() -> Vec<u8> {
    let mut out = header_bytes(&header());
    for t in texcoords() {
        out.extend_from_slice(&t.s.to_le_bytes());
        out.extend_from_slice(&t.t.to_le_bytes());
    }
    for t in triangles() {
        for x in t.vertex.iter().chain(t.st.iter()) {
            out.extend_from_slice(&x.to_le_bytes());
        }
    }
    for f in frames() {
        for s in [f.scale.x, f.scale.y, f.scale.z, f.translate.x, f.translate.y, f.translate.z] {
            out.extend_from_slice(&s.to_bits().to_le_bytes());
        }
        out.extend_from_slice(f.name.as_bytes());
        for v in &f.verts {
            out.extend_from_slice(&v.v);
            out.push(v.normal_index);
        }
    }
    assert_eq!(out.len(), 208);
    out
}

#[test]
fn header_is_seventeen_little_endian_numbers() {
    let bytes = file();
    let mut reader = ByteReader::new(&bytes);
    assert_eq!(read_header(&mut reader), Ok(header()));
    assert_eq!(reader.offset(), 68);
}

#[test]
fn header_bytes_are_read_least_significant_first() {
    let mut bytes = vec![0u8; 68];
    bytes[0..4].copy_from_slice(&[0x49, 0x44, 0x50, 0x32]);
    bytes[64..68].copy_from_slice(&[0x01, 0x02, 0x03, 0x04]);
    let mut reader = ByteReader::new(&bytes);
    let h = read_header(&mut reader).unwrap();
    assert_eq!(h.ident, 0x3250_4449);
    assert_eq!(h.offset_end, 0x0403_0201);
    assert_eq!(h.version, 0);
}

#[test]
fn short_header_fails_and_consumes_nothing() {
    let bytes = file();
    let mut reader = ByteReader::new(&bytes[..67]);
    assert_eq!(read_header(&mut reader), Err(LoadError::IoFailure));
    assert_eq!(reader.offset(), 0);
}

#[test]
fn texcoords_are_signed_texel_pairs() {
    let bytes = file();
    let mut reader = ByteReader::new(&bytes);
    assert_eq!(read_texcoords(&mut reader, &header()), Ok(texcoords()));
    assert_eq!(reader.offset(), 80);
}

#[test]
fn triangles_are_vertex_and_texcoord_indices() {
    let bytes = file();
    let mut reader = ByteReader::new(&bytes);
    assert_eq!(read_triangles(&mut reader, &header()), Ok(triangles()));
    assert_eq!(reader.offset(), 104);
}

#[test]
fn frames_hold_scale_translation_name_and_vertices() {
    let bytes = file();
    let mut reader = ByteReader::new(&bytes);
    assert_eq!(read_frames(&mut reader, &header()), Ok(frames()));
    assert_eq!(reader.offset(), 208);
}

#[test]
fn tables_are_found_by_their_offsets_wherever_the_cursor_stands() {
    let bytes = file();
    let mut reader = ByteReader::new(&bytes);
    assert!(reader.seek(200));
    assert_eq!(read_triangles(&mut reader, &header()), Ok(triangles()));
    assert_eq!(read_texcoords(&mut reader, &header()), Ok(texcoords()));
}

#[test]
fn table_beyond_the_source_fails_and_leaves_the_cursor() {
    let bytes = file();
    let mut h = header();
    h.num_st = 36;
    let mut reader = ByteReader::new(&bytes);
    assert!(reader.seek(5));
    assert_eq!(read_texcoords(&mut reader, &h), Err(LoadError::IoFailure));
    assert_eq!(reader.offset(), 5);
    h.offset_tris = 209;
    h.num_tris = 0;
    assert_eq!(read_triangles(&mut reader, &h), Err(LoadError::IoFailure));
    h.offset_frames = 105;
    assert_eq!(read_frames(&mut reader, &h), Err(LoadError::IoFailure));
    h.offset_frames = 104;
    h.num_vertices = u32::MAX;
    h.num_frames = u32::MAX;
    assert_eq!(read_frames(&mut reader, &h), Err(LoadError::IoFailure));
    assert_eq!(reader.offset(), 5);
}

#[test]
fn empty_tables_are_read_as_empty() {
    let bytes = file();
    let mut h = header();
    h.num_st = 0;
    h.num_tris = 0;
    h.num_frames = 0;
    h.offset_frames = 208;
    let mut reader = ByteReader::new(&bytes);
    assert_eq!(read_texcoords(&mut reader, &h), Ok(vec![]));
    assert_eq!(read_triangles(&mut reader, &h), Ok(vec![]));
    assert_eq!(read_frames(&mut reader, &h), Ok(vec![]));
    assert_eq!(reader.offset(), 208);
}

#[test]
fn frame_name_that_is_not_utf8_fails() {
    let mut bytes = file();
    bytes[104 + 52 + 24] = 0xff;
    let mut reader = ByteReader::new(&bytes);
    assert_eq!(read_frames(&mut reader, &header()), Err(LoadError::IoFailure));
    assert_eq!(reader.offset(), 0);
}

#[test]
fn whole_model_is_header_and_tables() {
    let model = read_md2_model(&file()).unwrap();
    assert_eq!(model.header, header());
    assert_eq!(model.texcoords, texcoords());
    assert_eq!(model.triangles, triangles());
    assert_eq!(model.frames, frames());
}

#[test]
fn truncated_model_is_an_io_failure() {
    let bytes = file();
    for cut in [0, 10, 67, 68, 79, 103, 150, 207] {
        assert_eq!(read_md2_model(&bytes[..cut]), Err(LoadError::IoFailure), "cut at {}", cut);
    }
}

#[test]
fn corners_are_resolved_in_the_first_frame() {
    let f = frames();
    let t = texcoords();
    let corners = compute_frame(&triangles(), &f, &t).unwrap();
    let corner = |v: usize, st: usize| Md2Corner { vertex: f[0].verts[v], texcoord: t[st] };
    assert_eq!(
        corners,
        vec![corner(0, 2), corner(1, 1), corner(2, 0), corner(2, 0), corner(1, 0), corner(0, 1)]
    );
}

#[test]
fn no_triangles_give_no_corners() {
    assert_eq!(compute_frame(&vec![], &frames(), &texcoords()), Ok(vec![]));
}

#[test]
fn corners_need_a_first_frame() {
    assert_eq!(
        compute_frame(&triangles(), &vec![], &texcoords()),
        Err(LoadError::IndexOutOfRange)
    );
    assert_eq!(compute_frame(&vec![], &vec![], &vec![]), Err(LoadError::IndexOutOfRange));
}

#[test]
fn corner_outside_the_tables_is_out_of_range() {
    let bad_vertex = vec![Md2Triangle { vertex: [0, 1, 3], st: [0, 0, 0] }];
    assert_eq!(
        compute_frame(&bad_vertex, &frames(), &texcoords()),
        Err(LoadError::IndexOutOfRange)
    );
    let bad_st = vec![Md2Triangle { vertex: [0, 1, 2], st: [3, 0, 0] }];
    assert_eq!(compute_frame(&bad_st, &frames(), &texcoords()), Err(LoadError::IndexOutOfRange));
    assert_eq!(
        compute_frame(&triangles(), &frames(), &vec![]),
        Err(LoadError::IndexOutOfRange)
    );
}
