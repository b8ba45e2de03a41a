//! Reading the keyframe model layout.
//!
//! The layout starts with a header of seventeen 32-bit numbers, little-endian
//! like everything in it. The header tells where each table starts, counted
//! in bytes from the start of the source, and how many records it holds.
//! Every record has a fixed size, so a table is read whole or not at all.
//!
//! Texture coordinates are kept in texels, and frame vertices in their
//! compressed form next to the scale and the translation of their frame:
//! the division by the skin size and the scaling are left to the renderer.

use crate::byte_reader::advanced;
use crate::byte_reader::ByteReader;
use crate::endian::le_i16;
use crate::endian::le_u16;
use crate::endian::le_u32;
use crate::endian::read_le_i16;
use crate::endian::read_le_u16;
use crate::endian::read_le_u32;
use crate::error::LoadError;
use crate::math::Scalar;
use crate::math::Vector3;
use crate::text::text_from_utf8;
use vstd::prelude::*;
use vstd::slice::slice_subrange;
use vstd::slice::slice_to_vec;
use vstd::utf8::decode_utf8;
use vstd::utf8::valid_utf8;

verus! {

/// The header: what the model is, and where its tables are.
#[derive(Clone, Copy, Debug, PartialEq, Eq, Structural)]
pub struct Md2Header {
    pub ident: u32,
    pub version: u32,
    pub skinwidth: u32,
    pub skinheight: u32,
    pub framesize: u32,
    pub num_skins: u32,
    pub num_vertices: u32,
    pub num_st: u32,
    pub num_tris: u32,
    pub num_glcmds: u32,
    pub num_frames: u32,
    pub offset_skins: u32,
    pub offset_st: u32,
    pub offset_tris: u32,
    pub offset_frames: u32,
    pub offset_glcmds: u32,
    pub offset_end: u32,
}

/// A texture coordinate in texels. Divided by the skin's width and height
/// it is the coordinate that the renderer uses.
#[derive(Clone, Copy, Debug, PartialEq, Eq, Structural)]
pub struct Md2Texcoord {
    pub s: i16,
    pub t: i16,
}

/// A triangle: for each corner, the index of its vertex in a frame and the
/// index of its texture coordinate.
#[derive(Clone, Copy, Debug, PartialEq, Eq)]
pub struct Md2Triangle {
    pub vertex: [u16; 3],
    pub st: [u16; 3],
}

/// A compressed vertex of a frame. Scaled by the frame's scale and moved by
/// its translation it is the position that the renderer uses.
#[derive(Clone, Copy, Debug, PartialEq, Eq)]
pub struct Md2Vertex {
    pub v: [u8; 3],
    pub normal_index: u8,
}

/// One keyframe.
#[derive(Debug, PartialEq, Eq)]
pub struct Md2Frame {
    pub scale: Vector3,
    pub translate: Vector3,
    /// The sixteen bytes of the name as text, padding included.
    pub name: String,
    pub verts: Vec<Md2Vertex>,
}

/// The model of an [`Md2Frame`].
pub struct Md2FrameView {
    pub scale: Vector3,
    pub translate: Vector3,
    pub name: Seq<char>,
    pub verts: Seq<Md2Vertex>,
}

impl View for Md2Frame {
    type V = Md2FrameView;

    open spec fn view(&self) -> Md2FrameView {
        Md2FrameView {
            scale: self.scale,
            translate: self.translate,
            name: self.name@,
            verts: self.verts@,
        }
    }
}

/// The models of a sequence of frames, in the same order.
pub open spec fn frames_view(frames: Seq<Md2Frame>) -> Seq<Md2FrameView> {
    Seq::new(frames.len(), |i: int| frames[i]@)
}

/// One corner of a triangle, resolved: its compressed vertex and its
/// texture coordinate in texels.
#[derive(Clone, Copy, Debug, PartialEq, Eq)]
pub struct Md2Corner {
    pub vertex: Md2Vertex,
    pub texcoord: Md2Texcoord,
}

/// A whole model: the header and the three tables that the renderer uses.
#[derive(Debug, PartialEq, Eq)]
pub struct Md2Model {
    pub header: Md2Header,
    pub texcoords: Vec<Md2Texcoord>,
    pub triangles: Vec<Md2Triangle>,
    pub frames: Vec<Md2Frame>,
}

/// The model of an [`Md2Model`].
pub struct Md2ModelView {
    pub header: Md2Header,
    pub texcoords: Seq<Md2Texcoord>,
    pub triangles: Seq<Md2Triangle>,
    pub frames: Seq<Md2FrameView>,
}

impl View for Md2Model {
    type V = Md2ModelView;

    open spec fn view(&self) -> Md2ModelView {
        Md2ModelView {
            header: self.header,
            texcoords: self.texcoords@,
            triangles: self.triangles@,
            frames: frames_view(self.frames@),
        }
    }
}

/// The size of the header in bytes.
pub open spec fn header_size() -> nat {
    68
}

/// The 32-bit number at `at`.
pub open spec fn u32_at(bytes: Seq<u8>, at: int) -> u32 {
    le_u32(bytes.subrange(at, at + 4))
}

/// The unsigned 16-bit number at `at`.
pub open spec fn u16_at(bytes: Seq<u8>, at: int) -> u16 {
    le_u16(bytes.subrange(at, at + 2))
}

/// The signed 16-bit number at `at`.
pub open spec fn i16_at(bytes: Seq<u8>, at: int) -> i16 {
    le_i16(bytes.subrange(at, at + 2))
}

/// The scalar whose bit pattern stands at `at`.
pub open spec fn scalar_at(bytes: Seq<u8>, at: int) -> Scalar {
    Scalar { bits: u32_at(bytes, at) }
}

/// Three scalars in a row, from `at` on.
pub open spec fn vector3_at(bytes: Seq<u8>, at: int) -> Vector3 {
    Vector3 { x: scalar_at(bytes, at), y: scalar_at(bytes, at + 4), z: scalar_at(bytes, at + 8) }
}

/// The header at the head of `bytes`.
pub open spec fn parsed_header(bytes: Seq<u8>) -> Option<Md2Header> {
    if bytes.len() < header_size() {
        None
    } else {
        Some(
            Md2Header {
                ident: u32_at(bytes, 0),
                version: u32_at(bytes, 4),
                skinwidth: u32_at(bytes, 8),
                skinheight: u32_at(bytes, 12),
                framesize: u32_at(bytes, 16),
                num_skins: u32_at(bytes, 20),
                num_vertices: u32_at(bytes, 24),
                num_st: u32_at(bytes, 28),
                num_tris: u32_at(bytes, 32),
                num_glcmds: u32_at(bytes, 36),
                num_frames: u32_at(bytes, 40),
                offset_skins: u32_at(bytes, 44),
                offset_st: u32_at(bytes, 48),
                offset_tris: u32_at(bytes, 52),
                offset_frames: u32_at(bytes, 56),
                offset_glcmds: u32_at(bytes, 60),
                offset_end: u32_at(bytes, 64),
            },
        )
    }
}

/// The texture coordinate that starts at `at`: four bytes.
pub open spec fn texcoord_at(bytes: Seq<u8>, at: int) -> Md2Texcoord {
    Md2Texcoord { s: i16_at(bytes, at), t: i16_at(bytes, at + 2) }
}

/// The triangle that starts at `at`: twelve bytes.
pub open spec fn triangle_at(bytes: Seq<u8>, at: int) -> Md2Triangle {
    Md2Triangle {
        vertex: [u16_at(bytes, at), u16_at(bytes, at + 2), u16_at(bytes, at + 4)],
        st: [u16_at(bytes, at + 6), u16_at(bytes, at + 8), u16_at(bytes, at + 10)],
    }
}

/// The compressed vertex that starts at `at`: four bytes.
pub open spec fn vertex_at(bytes: Seq<u8>, at: int) -> Md2Vertex {
    Md2Vertex { v: [bytes[at], bytes[at + 1], bytes[at + 2]], normal_index: bytes[at + 3] }
}

/// The size in bytes of a frame of `vertices` vertices.
pub open spec fn frame_size(vertices: nat) -> nat {
    40 + 4 * vertices
}

/// The bytes of the name of the frame that starts at `at`.
pub open spec fn frame_name_bytes(bytes: Seq<u8>, at: int) -> Seq<u8> {
    bytes.subrange(at + 24, at + 40)
}

/// The frame of `vertices` vertices that starts at `at`: scale,
/// translation, sixteen bytes of name, and the vertices.
pub open spec fn frame_at(bytes: Seq<u8>, at: int, vertices: nat) -> Md2FrameView {
    Md2FrameView {
        scale: vector3_at(bytes, at),
        translate: vector3_at(bytes, at + 12),
        name: decode_utf8(frame_name_bytes(bytes, at)),
        verts: Seq::new(vertices, |j: int| vertex_at(bytes, at + 40 + 4 * j)),
    }
}

/// The table of texture coordinates that a header announces, read from the
/// whole source: `None` where the table does not lie within the source.
pub open spec fn parsed_texcoords(source: Seq<u8>, header: Md2Header) -> Option<Seq<Md2Texcoord>> {
    if header.offset_st + 4 * header.num_st > source.len() {
        None
    } else {
        Some(
            Seq::new(
                header.num_st as nat,
                |i: int| texcoord_at(source, header.offset_st + 4 * i),
            ),
        )
    }
}

/// The table of triangles that a header announces, read from the whole
/// source: `None` where the table does not lie within the source.
pub open spec fn parsed_triangles(source: Seq<u8>, header: Md2Header) -> Option<Seq<Md2Triangle>> {
    if header.offset_tris + 12 * header.num_tris > source.len() {
        None
    } else {
        Some(
            Seq::new(
                header.num_tris as nat,
                |i: int| triangle_at(source, header.offset_tris + 12 * i),
            ),
        )
    }
}

/// Where the frame of number `i` starts.
pub open spec fn frame_start(header: Md2Header, i: int) -> int {
    header.offset_frames + i * frame_size(header.num_vertices as nat)
}

/// The table of frames that a header announces, read from the whole
/// source: `None` where the table does not lie within the source, or the
/// name of a frame is not UTF-8.
pub open spec fn parsed_frames(source: Seq<u8>, header: Md2Header) -> Option<Seq<Md2FrameView>> {
    if frame_start(header, header.num_frames as int) > source.len() {
        None
    } else if exists|i: int|
        0 <= i < header.num_frames && !valid_utf8(
            #[trigger] frame_name_bytes(source, frame_start(header, i)),
        ) {
        None
    } else {
        Some(
            Seq::new(
                header.num_frames as nat,
                |i: int| frame_at(source, frame_start(header, i), header.num_vertices as nat),
            ),
        )
    }
}

/// The whole model, read from a source that starts with its header.
pub open spec fn parsed_model(source: Seq<u8>) -> Option<Md2ModelView> {
    match parsed_header(source) {
        None => None,
        Some(header) => match parsed_texcoords(source, header) {
            None => None,
            Some(texcoords) => match parsed_triangles(source, header) {
                None => None,
                Some(triangles) => match parsed_frames(source, header) {
                    None => None,
                    Some(frames) => Some(Md2ModelView { header, texcoords, triangles, frames }),
                },
            },
        },
    }
}

/// The corner of number `k`, counting the corners triangle after triangle.
pub open spec fn corner(
    triangles: Seq<Md2Triangle>,
    frame: Md2FrameView,
    texcoords: Seq<Md2Texcoord>,
    k: int,
) -> Md2Corner {
    let triangle = triangles[k / 3];
    Md2Corner {
        vertex: frame.verts[triangle.vertex[k % 3] as int],
        texcoord: texcoords[triangle.st[k % 3] as int],
    }
}

/// Whether the corner of number `k` points at a vertex of the frame and at
/// a texture coordinate.
pub open spec fn corner_in_range(
    triangles: Seq<Md2Triangle>,
    frame: Md2FrameView,
    texcoords: Seq<Md2Texcoord>,
    k: int,
) -> bool {
    let triangle = triangles[k / 3];
    triangle.vertex[k % 3] < frame.verts.len() && triangle.st[k % 3] < texcoords.len()
}

/// The corners of all triangles in the first frame: three per triangle, in
/// the order of the triangles. There must be a first frame, and every
/// corner must point at one of its vertices and at a texture coordinate.
pub open spec fn computed_frame(
    triangles: Seq<Md2Triangle>,
    frames: Seq<Md2FrameView>,
    texcoords: Seq<Md2Texcoord>,
) -> Result<Seq<Md2Corner>, LoadError> {
    if frames.len() == 0 {
        Err(LoadError::IndexOutOfRange)
    } else if !(forall|k: int|
        0 <= k < 3 * triangles.len() ==> #[trigger] corner_in_range(
            triangles,
            frames[0],
            texcoords,
            k,
        )) {
        Err(LoadError::IndexOutOfRange)
    } else {
        Ok(Seq::new(3 * triangles.len(), |k: int| corner(triangles, frames[0], texcoords, k)))
    }
}

fn u32_in(bytes: &[u8], at: usize) -> (value: u32)
    requires
        at + 4 <= bytes.len(),
    ensures
        value == u32_at(bytes@, at as int),
{
    read_le_u32(slice_subrange(bytes, at, at + 4))
}

fn u16_in(bytes: &[u8], at: usize) -> (value: u16)
    requires
        at + 2 <= bytes.len(),
    ensures
        value == u16_at(bytes@, at as int),
{
    read_le_u16(slice_subrange(bytes, at, at + 2))
}

fn i16_in(bytes: &[u8], at: usize) -> (value: i16)
    requires
        at + 2 <= bytes.len(),
    ensures
        value == i16_at(bytes@, at as int),
{
    read_le_i16(slice_subrange(bytes, at, at + 2))
}

fn vector3_in(bytes: &[u8], at: usize) -> (vector: Vector3)
    requires
        at + 12 <= bytes.len(),
    ensures
        vector == vector3_at(bytes@, at as int),
{
    Vector3 {
        x: Scalar::from_bits(u32_in(bytes, at)),
        y: Scalar::from_bits(u32_in(bytes, at + 4)),
        z: Scalar::from_bits(u32_in(bytes, at + 8)),
    }
}

/// A stretch of a stretch is a stretch of the whole.
proof fn lemma_window(source: Seq<u8>, from: int, to: int, a: int, b: int)
    requires
        0 <= from <= to <= source.len(),
        0 <= a <= b <= to - from,
    ensures
        source.subrange(from, to).subrange(a, b) == source.subrange(from + a, from + b),
{
    assert(source.subrange(from, to).subrange(a, b) =~= source.subrange(from + a, from + b));
}

/// Reads the header.
pub fn read_header(reader: &mut ByteReader) -> (r: Result<Md2Header, LoadError>)
    ensures
        match parsed_header(old(reader).remaining()) {
            Some(header) => r matches Ok(found) && found == header && advanced(
                *old(reader),
                *final(reader),
                header_size(),
            ),
            None => r matches Err(e) && e == LoadError::IoFailure && advanced(
                *old(reader),
                *final(reader),
                0,
            ),
        },
{
    let ghost rest = reader.remaining();
    let bytes = match reader.take(68) {
        Some(bytes) => bytes,
        None => {
            return Err(LoadError::IoFailure);
        },
    };
    proof {
        assert forall|at: int| 0 <= at && at + 4 <= 68 implies u32_at(bytes@, at) == u32_at(
            rest,
            at,
        ) by {
            assert(rest.take(68).subrange(at, at + 4) =~= rest.subrange(at, at + 4));
        }
    }
    Ok(
        Md2Header {
            ident: u32_in(bytes, 0),
            version: u32_in(bytes, 4),
            skinwidth: u32_in(bytes, 8),
            skinheight: u32_in(bytes, 12),
            framesize: u32_in(bytes, 16),
            num_skins: u32_in(bytes, 20),
            num_vertices: u32_in(bytes, 24),
            num_st: u32_in(bytes, 28),
            num_tris: u32_in(bytes, 32),
            num_glcmds: u32_in(bytes, 36),
            num_frames: u32_in(bytes, 40),
            offset_skins: u32_in(bytes, 44),
            offset_st: u32_in(bytes, 48),
            offset_tris: u32_in(bytes, 52),
            offset_frames: u32_in(bytes, 56),
            offset_glcmds: u32_in(bytes, 60),
            offset_end: u32_in(bytes, 64),
        },
    )
}

/// Moves to `offset` and hands out the `total` bytes from there on. Where
/// the source does not reach that far, nothing is handed out and the cursor
/// stays.
fn take_table<'a>(reader: &mut ByteReader<'a>, offset: u32, total: u128) -> (r: Option<&'a [u8]>)
    ensures
        final(reader).source() == old(reader).source(),
        final(reader).position() <= final(reader).source().len(),
        match r {
            Some(bytes) => offset + total <= old(reader).source().len() && bytes@ == old(
                reader,
            ).source().subrange(offset as int, offset + total) && final(reader).position()
                == offset + total,
            None => offset + total > old(reader).source().len() && final(reader).position()
                == old(reader).position(),
        },
{
    let start = reader.offset();
    if !reader.seek(offset as usize) {
        return None;
    }
    if total > reader.left() as u128 {
        reader.seek(start);
        return None;
    }
    match reader.take(total as usize) {
        Some(bytes) => {
            proof {
                assert(bytes@ =~= old(reader).source().subrange(offset as int, offset + total));
            }
            Some(bytes)
        },
        None => {
            reader.seek(start);
            None
        },
    }
}

/// Reads the table of texture coordinates that the header announces. On
/// success the cursor stands behind the table; on failure it stands where
/// it stood.
pub fn read_texcoords(reader: &mut ByteReader, header: &Md2Header) -> (r: Result<
    Vec<Md2Texcoord>,
    LoadError,
>)
    ensures
        final(reader).source() == old(reader).source(),
        match parsed_texcoords(old(reader).source(), *header) {
            Some(table) => r matches Ok(found) && found@ == table && final(reader).position()
                == header.offset_st + 4 * header.num_st,
            None => r matches Err(e) && e == LoadError::IoFailure && final(reader).position()
                == old(reader).position(),
        },
{
    let ghost source = reader.source();
    let total: u128 = 4 * (header.num_st as u128);
    let bytes = match take_table(reader, header.offset_st, total) {
        Some(bytes) => bytes,
        None => {
            return Err(LoadError::IoFailure);
        },
    };
    let count = header.num_st as usize;
    let mut table: Vec<Md2Texcoord> = Vec::new();
    let mut i: usize = 0;
    while i < count
        invariant
            i <= count,
            count == header.num_st,
            bytes.len() == 4 * count,
            header.offset_st + 4 * count <= source.len(),
            bytes@ == source.subrange(header.offset_st as int, header.offset_st + 4 * count),
            table@.len() == i,
            forall|j: int|
                0 <= j < i ==> table@[j] == texcoord_at(source, header.offset_st + 4 * j),
        decreases count - i,
    {
        let at = 4 * i;
        proof {
            lemma_window(
                source,
                header.offset_st as int,
                header.offset_st + 4 * count,
                at as int,
                at + 2,
            );
            lemma_window(
                source,
                header.offset_st as int,
                header.offset_st + 4 * count,
                at + 2,
                at + 4,
            );
        }
        table.push(Md2Texcoord { s: i16_in(bytes, at), t: i16_in(bytes, at + 2) });
        i += 1;
    }
    proof {
        assert(table@ =~= parsed_texcoords(source, *header)->0);
    }
    Ok(table)
}

/// Reads the table of triangles that the header announces. On success the
/// cursor stands behind the table; on failure it stands where it stood.
pub fn read_triangles(reader: &mut ByteReader, header: &Md2Header) -> (r: Result<
    Vec<Md2Triangle>,
    LoadError,
>)
    ensures
        final(reader).source() == old(reader).source(),
        match parsed_triangles(old(reader).source(), *header) {
            Some(table) => r matches Ok(found) && found@ == table && final(reader).position()
                == header.offset_tris + 12 * header.num_tris,
            None => r matches Err(e) && e == LoadError::IoFailure && final(reader).position()
                == old(reader).position(),
        },
{
    let ghost source = reader.source();
    let total: u128 = 12 * (header.num_tris as u128);
    let bytes = match take_table(reader, header.offset_tris, total) {
        Some(bytes) => bytes,
        None => {
            return Err(LoadError::IoFailure);
        },
    };
    let count = header.num_tris as usize;
    let ghost from = header.offset_tris as int;
    let mut table: Vec<Md2Triangle> = Vec::new();
    let mut i: usize = 0;
    while i < count
        invariant
            i <= count,
            count == header.num_tris,
            from == header.offset_tris,
            bytes.len() == 12 * count,
            from + 12 * count <= source.len(),
            bytes@ == source.subrange(from, from + 12 * count),
            table@.len() == i,
            forall|j: int| 0 <= j < i ==> table@[j] == triangle_at(source, from + 12 * j),
        decreases count - i,
    {
        let at = 12 * i;
        proof {
            lemma_window(source, from, from + 12 * count, at as int, at + 2);
            lemma_window(source, from, from + 12 * count, at + 2, at + 4);
            lemma_window(source, from, from + 12 * count, at + 4, at + 6);
            lemma_window(source, from, from + 12 * count, at + 6, at + 8);
            lemma_window(source, from, from + 12 * count, at + 8, at + 10);
            lemma_window(source, from, from + 12 * count, at + 10, at + 12);
        }
        let triangle = Md2Triangle {
            vertex: [u16_in(bytes, at), u16_in(bytes, at + 2), u16_in(bytes, at + 4)],
            st: [u16_in(bytes, at + 6), u16_in(bytes, at + 8), u16_in(bytes, at + 10)],
        };
        proof {
            assert(triangle.vertex@ =~= triangle_at(source, from + at).vertex@);
            assert(triangle.st@ =~= triangle_at(source, from + at).st@);
        }
        table.push(triangle);
        i += 1;
    }
    proof {
        assert(table@ =~= parsed_triangles(source, *header)->0);
    }
    Ok(table)
}

fn vertex_in(bytes: &[u8], at: usize) -> (vertex: Md2Vertex)
    requires
        at + 4 <= bytes.len(),
    ensures
        vertex == vertex_at(bytes@, at as int),
{
    let vertex = Md2Vertex {
        v: [bytes[at], bytes[at + 1], bytes[at + 2]],
        normal_index: bytes[at + 3],
    };
    proof {
        assert(vertex.v@ =~= vertex_at(bytes@, at as int).v@);
    }
    vertex
}

/// Reads the frame of `vertices` vertices that starts at `at`. `None` where
/// its name is not UTF-8.
fn frame_in(bytes: &[u8], at: usize, vertices: usize) -> (frame: Option<Md2Frame>)
    requires
        at + 40 + 4 * vertices <= bytes.len(),
    ensures
        match frame {
            Some(found) => valid_utf8(frame_name_bytes(bytes@, at as int)) && found@ == frame_at(
                bytes@,
                at as int,
                vertices as nat,
            ),
            None => !valid_utf8(frame_name_bytes(bytes@, at as int)),
        },
{
    let scale = vector3_in(bytes, at);
    let translate = vector3_in(bytes, at + 12);
    let name = match text_from_utf8(slice_to_vec(slice_subrange(bytes, at + 24, at + 40))) {
        Some(name) => name,
        None => {
            return None;
        },
    };
    let mut verts: Vec<Md2Vertex> = Vec::new();
    let mut j: usize = 0;
    while j < vertices
        invariant
            j <= vertices,
            at + 40 + 4 * vertices <= bytes.len(),
            verts@.len() == j,
            forall|k: int| 0 <= k < j ==> verts@[k] == vertex_at(bytes@, at + 40 + 4 * k),
        decreases vertices - j,
    {
        verts.push(vertex_in(bytes, at + 40 + 4 * j));
        j += 1;
    }
    let frame = Md2Frame { scale, translate, name, verts };
    proof {
        assert(frame@.verts =~= frame_at(bytes@, at as int, vertices as nat).verts);
    }
    Some(frame)
}

/// A frame read from a stretch of the source is the frame at the same place
/// of the source.
proof fn lemma_frame_window(source: Seq<u8>, from: int, to: int, at: int, vertices: nat)
    requires
        0 <= from <= to <= source.len(),
        0 <= at,
        at + frame_size(vertices) <= to - from,
    ensures
        frame_name_bytes(source.subrange(from, to), at) == frame_name_bytes(source, from + at),
        frame_at(source.subrange(from, to), at, vertices) == frame_at(source, from + at, vertices),
{
    let window = source.subrange(from, to);
    lemma_window(source, from, to, at + 24, at + 40);
    lemma_window(source, from, to, at, at + 4);
    lemma_window(source, from, to, at + 4, at + 8);
    lemma_window(source, from, to, at + 8, at + 12);
    lemma_window(source, from, to, at + 12, at + 16);
    lemma_window(source, from, to, at + 16, at + 20);
    lemma_window(source, from, to, at + 20, at + 24);
    assert(frame_at(window, at, vertices).verts =~= frame_at(source, from + at, vertices).verts);
}

/// Reads the table of frames that the header announces. On success the
/// cursor stands behind the table; on failure it stands where it stood.
pub fn read_frames(reader: &mut ByteReader, header: &Md2Header) -> (r: Result<
    Vec<Md2Frame>,
    LoadError,
>)
    ensures
        final(reader).source() == old(reader).source(),
        match parsed_frames(old(reader).source(), *header) {
            Some(table) => r matches Ok(found) && frames_view(found@) == table
                && final(reader).position() == frame_start(*header, header.num_frames as int),
            None => r matches Err(e) && e == LoadError::IoFailure && final(reader).position()
                == old(reader).position(),
        },
{
    let ghost source = reader.source();
    let start = reader.offset();
    let size: u64 = 40 + 4 * (header.num_vertices as u64);
    assert(0 <= (header.num_frames as int) * (size as int) <= 0xffff_ffff * 0x4_0000_0028)
        by (nonlinear_arith)
        requires
            0 <= header.num_frames <= 0xffff_ffff,
            0 <= size <= 0x4_0000_0028,
    ;
    let total: u128 = (header.num_frames as u128) * (size as u128);
    let bytes = match take_table(reader, header.offset_frames, total) {
        Some(bytes) => bytes,
        None => {
            return Err(LoadError::IoFailure);
        },
    };
    let count = header.num_frames as usize;
    let ghost from = header.offset_frames as int;
    let ghost vertices = header.num_vertices as nat;
    let mut table: Vec<Md2Frame> = Vec::new();
    if count == 0 {
        proof {
            assert(frames_view(table@) =~= parsed_frames(source, *header)->0);
        }
        return Ok(table);
    }
    assert(size <= count * size) by (nonlinear_arith)
        requires
            count >= 1,
            size >= 0,
    ;
    assert(bytes.len() == count * size);
    let step = size as usize;
    let vertex_count = header.num_vertices as usize;
    let mut i: usize = 0;
    let mut at: usize = 0;
    while i < count
        invariant
            i <= count,
            count == header.num_frames,
            from == header.offset_frames,
            vertices == header.num_vertices,
            vertex_count == header.num_vertices,
            step == frame_size(vertices),
            at == i * step,
            bytes.len() == count * step,
            from + count * step <= source.len(),
            bytes@ == source.subrange(from, from + count * step),
            reader.source() == source,
            source == old(reader).source(),
            start == old(reader).position(),
            start <= source.len(),
            reader.position() == from + count * step,
            table@.len() == i,
            forall|j: int|
                0 <= j < i ==> valid_utf8(
                    #[trigger] frame_name_bytes(source, frame_start(*header, j)),
                ),
            forall|j: int|
                0 <= j < i ==> (#[trigger] table@[j])@ == frame_at(
                    source,
                    frame_start(*header, j),
                    vertices,
                ),
        decreases count - i,
    {
        assert((i + 1) * step <= count * step && (i + 1) * step == i * step + step)
            by (nonlinear_arith)
            requires
                i + 1 <= count,
                step >= 0,
        ;
        proof {
            lemma_frame_window(source, from, from + count * step, at as int, vertices);
            assert(frame_start(*header, i as int) == from + at);
        }
        let frame = match frame_in(bytes, at, vertex_count) {
            Some(frame) => frame,
            None => {
                reader.seek(start);
                return Err(LoadError::IoFailure);
            },
        };
        table.push(frame);
        i += 1;
        at += step;
    }
    proof {
        assert(frame_start(*header, header.num_frames as int) == from + count * step);
        assert(frames_view(table@) =~= parsed_frames(source, *header)->0);
    }
    Ok(table)
}

fn corner_of(
    triangle: &Md2Triangle,
    c: usize,
    frame: &Md2Frame,
    texcoords: &Vec<Md2Texcoord>,
) -> (r: Option<Md2Corner>)
    requires
        c < 3,
    ensures
        match r {
            Some(found) => triangle.vertex[c as int] < frame.verts@.len() && triangle.st[c as int]
                < texcoords@.len() && found.vertex == frame.verts@[triangle.vertex[c as int] as int]
                && found.texcoord == texcoords@[triangle.st[c as int] as int],
            None => !(triangle.vertex[c as int] < frame.verts@.len() && triangle.st[c as int]
                < texcoords@.len()),
        },
{
    let vertex = triangle.vertex[c] as usize;
    let st = triangle.st[c] as usize;
    if vertex < frame.verts.len() && st < texcoords.len() {
        Some(Md2Corner { vertex: frame.verts[vertex], texcoord: texcoords[st] })
    } else {
        None
    }
}

/// Resolves the corners of all triangles in the first frame: for each
/// corner its compressed vertex and its texture coordinate, three corners
/// per triangle, in the order of the triangles.
pub fn compute_frame(
    tris: &Vec<Md2Triangle>,
    frames: &Vec<Md2Frame>,
    texcoords: &Vec<Md2Texcoord>,
) -> (r: Result<Vec<Md2Corner>, LoadError>)
    ensures
        match computed_frame(tris@, frames_view(frames@), texcoords@) {
            Ok(corners) => r matches Ok(found) && found@ == corners,
            Err(e) => r matches Err(failure) && failure == e,
        },
{
    if frames.len() == 0 {
        return Err(LoadError::IndexOutOfRange);
    }
    let frame = &frames[0];
    let ghost model = frames_view(frames@)[0];
    let mut corners: Vec<Md2Corner> = Vec::new();
    let mut t: usize = 0;
    while t < tris.len()
        invariant
            t <= tris.len(),
            frames@.len() > 0,
            *frame == frames@[0],
            model == frames_view(frames@)[0],
            model == frame@,
            corners@.len() == 3 * t,
            forall|k: int|
                0 <= k < 3 * t ==> #[trigger] corner_in_range(tris@, model, texcoords@, k),
            forall|k: int|
                0 <= k < 3 * t ==> corners@[k] == corner(tris@, model, texcoords@, k),
        decreases tris.len() - t,
    {
        let triangle = &tris[t];
        let mut c: usize = 0;
        while c < 3
            invariant
                c <= 3,
                t < tris.len(),
                *triangle == tris@[t as int],
                frames@.len() > 0,
                model == frames_view(frames@)[0],
                model == frame@,
                corners@.len() == 3 * t + c,
                forall|k: int|
                    0 <= k < 3 * t + c ==> #[trigger] corner_in_range(tris@, model, texcoords@, k),
                forall|k: int|
                    0 <= k < 3 * t + c ==> corners@[k] == corner(tris@, model, texcoords@, k),
            decreases 3 - c,
        {
            let ghost k = 3 * t + c;
            assert(k / 3 == t && k % 3 == c);
            match corner_of(triangle, c, frame, texcoords) {
                Some(found) => {
                    corners.push(found);
                },
                None => {
                    proof {
                        assert(!corner_in_range(tris@, model, texcoords@, k as int));
                    }
                    return Err(LoadError::IndexOutOfRange);
                },
            }
            c += 1;
        }
        t += 1;
    }
    proof {
        assert(corners@ =~= Seq::new(
            3 * tris@.len(),
            |k: int| corner(tris@, model, texcoords@, k),
        ));
    }
    Ok(corners)
}

/// Reads a whole model from the bytes of its file: the header at the
/// start, then the tables of texture coordinates, triangles and frames
/// where the header says they are.
pub fn read_md2_model(bytes: &[u8]) -> (r: Result<Md2Model, LoadError>)
    ensures
        match parsed_model(bytes@) {
            Some(model) => r matches Ok(found) && found@ == model,
            None => r matches Err(e) && e == LoadError::IoFailure,
        },
{
    let mut reader = ByteReader::new(bytes);
    assert(reader.remaining() =~= bytes@);
    let header = read_header(&mut reader)?;
    let texcoords = read_texcoords(&mut reader, &header)?;
    let triangles = read_triangles(&mut reader, &header)?;
    let frames = read_frames(&mut reader, &header)?;
    Ok(Md2Model { header, texcoords, triangles, frames })
}

} // verus!
