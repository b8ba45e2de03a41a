//! Reading the flat binary model layout.
//!
//! The layout is a plain sequence of fields with big-endian numbers and no
//! delimiters: a name, a 4×4 transform, the materials, the indices, the
//! vertices and the texture coordinates. A string is its length in bytes as
//! a 16-bit number and then its UTF-8 text; an array is its item count as a
//! 32-bit number and then the items.
//!
//! For every field there is a specification function `parsed_*` that says
//! which value stands at the head of a byte sequence and how many bytes it
//! takes, and a `read_*` function that reads that value from a cursor. A
//! read that fails leaves the cursor where it stood.

use crate::byte_reader::advanced;
use crate::byte_reader::ByteReader;
use crate::endian::be_u16;
use crate::endian::be_u32;
use crate::endian::read_be_u16;
use crate::endian::read_be_u32;
use crate::error::LoadError;
use crate::math::Matrix4;
use crate::math::Scalar;
use crate::math::Vector2;
use crate::math::Vector3;
use crate::math::Vector4;
use crate::model::Material;
use crate::model::MaterialView;
use crate::model::Model;
use crate::model::ModelView;
use crate::model::Rgb;
use crate::model::Texture;
use crate::model::TextureView;
use crate::text::text_from_utf8;
use vstd::prelude::*;
use vstd::slice::slice_subrange;
use vstd::slice::slice_to_vec;
use vstd::utf8::decode_utf8;
use vstd::utf8::valid_utf8;

verus! {

/// A flag: one byte, set where the byte is 1.
pub open spec fn parsed_bool(bytes: Seq<u8>) -> Option<(bool, nat)> {
    if bytes.len() >= 1 {
        Some((bytes[0] == 1, 1))
    } else {
        None
    }
}

/// A 16-bit number, big-endian.
pub open spec fn parsed_u16(bytes: Seq<u8>) -> Option<(u16, nat)> {
    if bytes.len() >= 2 {
        Some((be_u16(bytes), 2))
    } else {
        None
    }
}

/// A 32-bit number, big-endian.
pub open spec fn parsed_u32(bytes: Seq<u8>) -> Option<(u32, nat)> {
    if bytes.len() >= 4 {
        Some((be_u32(bytes), 4))
    } else {
        None
    }
}

/// A string: its length in bytes as a 16-bit number, then that many bytes
/// of UTF-8.
#[verifier::opaque]
pub open spec fn parsed_string(bytes: Seq<u8>) -> Option<(Seq<char>, nat)> {
    if bytes.len() < 2 {
        None
    } else {
        let length = be_u16(bytes) as int;
        if bytes.len() < 2 + length {
            None
        } else if !valid_utf8(bytes.subrange(2, 2 + length)) {
            None
        } else {
            Some((decode_utf8(bytes.subrange(2, 2 + length)), (2 + length) as nat))
        }
    }
}

/// The scalar whose big-endian bit pattern stands at `at`.
pub open spec fn scalar_at(bytes: Seq<u8>, at: int) -> Scalar {
    Scalar { bits: be_u32(bytes.subrange(at, at + 4)) }
}

/// Four scalars in a row, from `at` on.
pub open spec fn vector4_at(bytes: Seq<u8>, at: int) -> Vector4 {
    Vector4 {
        x: scalar_at(bytes, at),
        y: scalar_at(bytes, at + 4),
        z: scalar_at(bytes, at + 8),
        w: scalar_at(bytes, at + 12),
    }
}

/// A texture coordinate: two scalars.
pub open spec fn parsed_texcoord(bytes: Seq<u8>) -> Option<(Vector2, nat)> {
    if bytes.len() >= 8 {
        Some((Vector2 { x: scalar_at(bytes, 0), y: scalar_at(bytes, 4) }, 8))
    } else {
        None
    }
}

/// A vertex: three scalars.
pub open spec fn parsed_vertex(bytes: Seq<u8>) -> Option<(Vector3, nat)> {
    if bytes.len() >= 12 {
        Some(
            (
                Vector3 { x: scalar_at(bytes, 0), y: scalar_at(bytes, 4), z: scalar_at(bytes, 8) },
                12,
            ),
        )
    } else {
        None
    }
}

/// A transform: sixteen scalars, column after column.
#[verifier::opaque]
pub open spec fn parsed_transform(bytes: Seq<u8>) -> Option<(Matrix4, nat)> {
    if bytes.len() >= 64 {
        Some(
            (
                Matrix4 {
                    x: vector4_at(bytes, 0),
                    y: vector4_at(bytes, 16),
                    z: vector4_at(bytes, 32),
                    w: vector4_at(bytes, 48),
                },
                64,
            ),
        )
    } else {
        None
    }
}

/// The pixel that starts at byte `at`.
pub open spec fn pixel_at(bytes: Seq<u8>, at: int) -> Rgb {
    Rgb { r: bytes[at], g: bytes[at + 1], b: bytes[at + 2] }
}

/// A texture slot: a flag, and where the flag is set, the width and the
/// height as 16-bit numbers and then width × height pixels of three bytes
/// each. A slot whose flag is not set holds no texture.
#[verifier::opaque]
pub open spec fn parsed_texture(bytes: Seq<u8>) -> Option<(Option<TextureView>, nat)> {
    if bytes.len() < 1 {
        None
    } else if bytes[0] != 1 {
        Some((None, 1))
    } else if bytes.len() < 5 {
        None
    } else {
        let width = be_u16(bytes.subrange(1, 3));
        let height = be_u16(bytes.subrange(3, 5));
        let count = width as int * height as int;
        if bytes.len() < 5 + 3 * count {
            None
        } else {
            Some(
                (
                    Some(
                        TextureView {
                            width,
                            height,
                            pixels: Seq::new(count as nat, |i: int| pixel_at(bytes, 5 + 3 * i)),
                        },
                    ),
                    (5 + 3 * count) as nat,
                ),
            )
        }
    }
}

/// The three strings that a material starts with: its name and the paths
/// of its vertex and fragment shader sources.
#[verifier::opaque]
pub open spec fn parsed_names(bytes: Seq<u8>) -> Option<
    ((Seq<char>, Seq<char>, Seq<char>), nat),
> {
    match parsed_string(bytes) {
        None => None,
        Some((name, a)) => match parsed_string(bytes.skip(a as int)) {
            None => None,
            Some((shader_vertex, b)) => match parsed_string(bytes.skip((a + b) as int)) {
                None => None,
                Some((shader_fragment, c)) => Some(
                    ((name, shader_vertex, shader_fragment), a + b + c),
                ),
            },
        },
    }
}

/// The three texture slots that a material ends with: normal, diffuse and
/// specular.
#[verifier::opaque]
pub open spec fn parsed_slots(bytes: Seq<u8>) -> Option<
    ((Option<TextureView>, Option<TextureView>, Option<TextureView>), nat),
> {
    match parsed_texture(bytes) {
        None => None,
        Some((normals, a)) => match parsed_texture(bytes.skip(a as int)) {
            None => None,
            Some((diffuse, b)) => match parsed_texture(bytes.skip((a + b) as int)) {
                None => None,
                Some((specular, c)) => Some(((normals, diffuse, specular), a + b + c)),
            },
        },
    }
}

/// A material: its name and the paths of its vertex and fragment shader
/// sources as strings, then the slots of its normal, diffuse and specular
/// textures.
#[verifier::opaque]
pub open spec fn parsed_material(bytes: Seq<u8>) -> Option<(MaterialView, nat)> {
    match parsed_names(bytes) {
        None => None,
        Some(((name, shader_vertex, shader_fragment), a)) => match parsed_slots(
            bytes.skip(a as int),
        ) {
            None => None,
            Some(((normals, diffuse, specular), b)) => Some(
                (
                    MaterialView {
                        name,
                        shader_vertex,
                        shader_fragment,
                        normals,
                        diffuse,
                        specular,
                    },
                    a + b,
                ),
            ),
        },
    }
}

/// Reads a flag.
pub fn read_bool(reader: &mut ByteReader) -> (r: Result<bool, LoadError>)
    ensures
        match parsed_bool(old(reader).remaining()) {
            Some((value, length)) => r matches Ok(found) && found == value && advanced(
                *old(reader),
                *final(reader),
                length,
            ),
            None => r matches Err(e) && e == LoadError::IoFailure && advanced(
                *old(reader),
                *final(reader),
                0,
            ),
        },
{
    match reader.take(1) {
        Some(bytes) => Ok(bytes[0] == 1),
        None => Err(LoadError::IoFailure),
    }
}

/// Reads a 16-bit number.
pub fn read_u16(reader: &mut ByteReader) -> (r: Result<u16, LoadError>)
    ensures
        match parsed_u16(old(reader).remaining()) {
            Some((value, length)) => r matches Ok(found) && found == value && advanced(
                *old(reader),
                *final(reader),
                length,
            ),
            None => r matches Err(e) && e == LoadError::IoFailure && advanced(
                *old(reader),
                *final(reader),
                0,
            ),
        },
{
    match reader.take(2) {
        Some(bytes) => {
            proof {
                assert(be_u16(bytes@) == be_u16(old(reader).remaining()));
            }
            Ok(read_be_u16(bytes))
        },
        None => Err(LoadError::IoFailure),
    }
}

/// Reads one index: a 32-bit number.
pub fn read_index(reader: &mut ByteReader) -> (r: Result<u32, LoadError>)
    ensures
        match parsed_u32(old(reader).remaining()) {
            Some((value, length)) => r matches Ok(found) && found == value && advanced(
                *old(reader),
                *final(reader),
                length,
            ),
            None => r matches Err(e) && e == LoadError::IoFailure && advanced(
                *old(reader),
                *final(reader),
                0,
            ),
        },
{
    match reader.take(4) {
        Some(bytes) => {
            proof {
                assert(be_u32(bytes@) == be_u32(old(reader).remaining()));
            }
            Ok(read_be_u32(bytes))
        },
        None => Err(LoadError::IoFailure),
    }
}

/// Reads a string.
pub fn read_string(reader: &mut ByteReader) -> (r: Result<String, LoadError>)
    ensures
        match parsed_string(old(reader).remaining()) {
            Some((value, length)) => r matches Ok(found) && found@ == value && advanced(
                *old(reader),
                *final(reader),
                length,
            ),
            None => r matches Err(e) && e == LoadError::IoFailure && advanced(
                *old(reader),
                *final(reader),
                0,
            ),
        },
{
    proof {
        reveal(parsed_string);
    }
    let start = reader.offset();
    let ghost bytes = reader.remaining();
    let length = match read_u16(reader) {
        Ok(length) => length,
        Err(e) => {
            return Err(e);
        },
    };
    let text = match reader.take(length as usize) {
        Some(text) => text,
        None => {
            reader.seek(start);
            return Err(LoadError::IoFailure);
        },
    };
    proof {
        assert(text@ =~= bytes.subrange(2, 2 + length as int));
    }
    match text_from_utf8(slice_to_vec(text)) {
        Some(string) => Ok(string),
        None => {
            reader.seek(start);
            Err(LoadError::IoFailure)
        },
    }
}

fn scalar_in(bytes: &[u8], at: usize) -> (scalar: Scalar)
    requires
        at + 4 <= bytes.len(),
    ensures
        scalar == scalar_at(bytes@, at as int),
{
    Scalar::from_bits(read_be_u32(slice_subrange(bytes, at, at + 4)))
}

/// What is left after `a` bytes and then `b` more is what is left after
/// `a + b`.
proof fn lemma_skip_skip(bytes: Seq<u8>, a: int, b: int)
    requires
        0 <= a,
        0 <= b,
        a + b <= bytes.len(),
    ensures
        bytes.skip(a).skip(b) == bytes.skip(a + b),
{
    assert(bytes.skip(a).skip(b) =~= bytes.skip(a + b));
}

/// The scalar at a place of a stretch is the scalar at that place of any
/// sequence that starts with the stretch.
proof fn lemma_scalar_at_prefix(bytes: Seq<u8>, n: int, at: int)
    requires
        0 <= at,
        at + 4 <= n <= bytes.len(),
    ensures
        scalar_at(bytes.take(n), at) == scalar_at(bytes, at),
{
    assert(bytes.take(n).subrange(at, at + 4) =~= bytes.subrange(at, at + 4));
}

/// Reads one vertex.
pub fn read_vertex(reader: &mut ByteReader) -> (r: Result<Vector3, LoadError>)
    ensures
        match parsed_vertex(old(reader).remaining()) {
            Some((value, length)) => r matches Ok(found) && found == value && advanced(
                *old(reader),
                *final(reader),
                length,
            ),
            None => r matches Err(e) && e == LoadError::IoFailure && advanced(
                *old(reader),
                *final(reader),
                0,
            ),
        },
{
    let ghost rest = reader.remaining();
    match reader.take(12) {
        Some(bytes) => {
            proof {
                lemma_scalar_at_prefix(rest, 12, 0);
                lemma_scalar_at_prefix(rest, 12, 4);
                lemma_scalar_at_prefix(rest, 12, 8);
            }
            Ok(Vector3 { x: scalar_in(bytes, 0), y: scalar_in(bytes, 4), z: scalar_in(bytes, 8) })
        },
        None => Err(LoadError::IoFailure),
    }
}

/// Reads one texture coordinate.
pub fn read_texcoord(reader: &mut ByteReader) -> (r: Result<Vector2, LoadError>)
    ensures
        match parsed_texcoord(old(reader).remaining()) {
            Some((value, length)) => r matches Ok(found) && found == value && advanced(
                *old(reader),
                *final(reader),
                length,
            ),
            None => r matches Err(e) && e == LoadError::IoFailure && advanced(
                *old(reader),
                *final(reader),
                0,
            ),
        },
{
    let ghost rest = reader.remaining();
    match reader.take(8) {
        Some(bytes) => {
            proof {
                lemma_scalar_at_prefix(rest, 8, 0);
                lemma_scalar_at_prefix(rest, 8, 4);
            }
            Ok(Vector2 { x: scalar_in(bytes, 0), y: scalar_in(bytes, 4) })
        },
        None => Err(LoadError::IoFailure),
    }
}

fn vector4_in(bytes: &[u8], at: usize) -> (vector: Vector4)
    requires
        at + 16 <= bytes.len(),
    ensures
        vector == vector4_at(bytes@, at as int),
{
    Vector4 {
        x: scalar_in(bytes, at),
        y: scalar_in(bytes, at + 4),
        z: scalar_in(bytes, at + 8),
        w: scalar_in(bytes, at + 12),
    }
}

/// Reads the transform.
pub fn read_transform(reader: &mut ByteReader) -> (r: Result<Matrix4, LoadError>)
    ensures
        match parsed_transform(old(reader).remaining()) {
            Some((value, length)) => r matches Ok(found) && found == value && advanced(
                *old(reader),
                *final(reader),
                length,
            ),
            None => r matches Err(e) && e == LoadError::IoFailure && advanced(
                *old(reader),
                *final(reader),
                0,
            ),
        },
{
    proof {
        reveal(parsed_transform);
    }
    let ghost rest = reader.remaining();
    match reader.take(64) {
        Some(bytes) => {
            proof {
                assert forall|at: int| 0 <= at && at + 4 <= 64 implies scalar_at(bytes@, at)
                    == scalar_at(rest, at) by {
                    lemma_scalar_at_prefix(rest, 64, at);
                }
            }
            Ok(
                Matrix4 {
                    x: vector4_in(bytes, 0),
                    y: vector4_in(bytes, 16),
                    z: vector4_in(bytes, 32),
                    w: vector4_in(bytes, 48),
                },
            )
        },
        None => Err(LoadError::IoFailure),
    }
}

/// Reads one texture slot.
pub fn read_texture(reader: &mut ByteReader) -> (r: Result<Option<Texture>, LoadError>)
    ensures
        match parsed_texture(old(reader).remaining()) {
            Some((value, length)) => r matches Ok(found) && found.deep_view() == value
                && advanced(*old(reader), *final(reader), length),
            None => r matches Err(e) && e == LoadError::IoFailure && advanced(
                *old(reader),
                *final(reader),
                0,
            ),
        },
        r matches Ok(Some(texture)) ==> texture@.well_formed(),
{
    proof {
        reveal(parsed_texture);
    }
    let start = reader.offset();
    let ghost rest = reader.remaining();
    let present = match read_bool(reader) {
        Ok(present) => present,
        Err(e) => {
            return Err(e);
        },
    };
    if !present {
        return Ok(None);
    }
    let width = match read_u16(reader) {
        Ok(width) => width,
        Err(e) => {
            reader.seek(start);
            return Err(e);
        },
    };
    proof {
        lemma_skip_skip(old(reader).source(), start as int, 1);
        assert(rest.skip(1).take(2) =~= rest.subrange(1, 3));
        assert(be_u16(rest.skip(1)) == be_u16(rest.subrange(1, 3)));
    }
    let height = match read_u16(reader) {
        Ok(height) => height,
        Err(e) => {
            reader.seek(start);
            return Err(e);
        },
    };
    proof {
        lemma_skip_skip(old(reader).source(), start as int, 3);
        assert(be_u16(rest.skip(3)) == be_u16(rest.subrange(3, 5)));
    }
    assert(0 <= width as int * height as int <= 0xffff * 0xffff) by (nonlinear_arith)
        requires
            0 <= width <= 0xffff,
            0 <= height <= 0xffff,
    ;
    let count: u64 = width as u64 * height as u64;
    let needed: u64 = 3 * count;
    if needed > reader.left() as u64 {
        reader.seek(start);
        return Err(LoadError::IoFailure);
    }
    let bytes = match reader.take(needed as usize) {
        Some(bytes) => bytes,
        None => {
            reader.seek(start);
            return Err(LoadError::IoFailure);
        },
    };
    proof {
        lemma_skip_skip(old(reader).source(), start as int, 5);
        assert(bytes@ =~= rest.subrange(5, 5 + needed as int));
    }
    let mut pixels: Vec<Rgb> = Vec::new();
    let mut i: usize = 0;
    while i < count as usize
        invariant
            i <= count,
            count <= 0xffff * 0xffff,
            bytes.len() == 3 * count,
            bytes@ == rest.subrange(5, 5 + 3 * count),
            5 + 3 * count <= rest.len(),
            pixels@.len() == i,
            forall|j: int| 0 <= j < i ==> pixels@[j] == pixel_at(rest, 5 + 3 * j),
        decreases count - i,
    {
        let at = 3 * i;
        pixels.push(Rgb { r: bytes[at], g: bytes[at + 1], b: bytes[at + 2] });
        i += 1;
    }
    let texture = Texture { width, height, pixels };
    proof {
        assert(texture@.pixels =~= Seq::new(count as nat, |i: int| pixel_at(rest, 5 + 3 * i)));
    }
    Ok(Some(texture))
}

fn read_names(reader: &mut ByteReader) -> (r: Result<(String, String, String), LoadError>)
    ensures
        match parsed_names(old(reader).remaining()) {
            Some((value, length)) => r matches Ok(found) && found.0@ == value.0 && found.1@
                == value.1 && found.2@ == value.2 && advanced(
                *old(reader),
                *final(reader),
                length,
            ),
            None => r matches Err(e) && e == LoadError::IoFailure && advanced(
                *old(reader),
                *final(reader),
                0,
            ),
        },
{
    proof {
        reveal(parsed_names);
    }
    let start = reader.offset();
    let ghost source = reader.source();
    let ghost rest = reader.remaining();
    let name = match read_string(reader) {
        Ok(name) => name,
        Err(e) => {
            return Err(e);
        },
    };
    let ghost a = (reader.position() - start) as nat;
    proof {
        lemma_skip_skip(source, start as int, a as int);
        assert(parsed_string(rest) == Some((name@, a)));
    }
    let shader_vertex = match read_string(reader) {
        Ok(text) => text,
        Err(e) => {
            reader.seek(start);
            return Err(e);
        },
    };
    let ghost b = (reader.position() - start - a) as nat;
    proof {
        lemma_skip_skip(source, start as int, (a + b) as int);
        assert(parsed_string(rest.skip(a as int)) == Some((shader_vertex@, b)));
    }
    let shader_fragment = match read_string(reader) {
        Ok(text) => text,
        Err(e) => {
            reader.seek(start);
            return Err(e);
        },
    };
    let ghost c = (reader.position() - start - a - b) as nat;
    proof {
        assert(parsed_string(rest.skip((a + b) as int)) == Some((shader_fragment@, c)));
    }
    Ok((name, shader_vertex, shader_fragment))
}

fn read_slots(reader: &mut ByteReader) -> (r: Result<
    (Option<Texture>, Option<Texture>, Option<Texture>),
    LoadError,
>)
    ensures
        match parsed_slots(old(reader).remaining()) {
            Some((value, length)) => r matches Ok(found) && found.0.deep_view() == value.0
                && found.1.deep_view() == value.1 && found.2.deep_view() == value.2 && advanced(
                *old(reader),
                *final(reader),
                length,
            ),
            None => r matches Err(e) && e == LoadError::IoFailure && advanced(
                *old(reader),
                *final(reader),
                0,
            ),
        },
{
    proof {
        reveal(parsed_slots);
    }
    let start = reader.offset();
    let ghost source = reader.source();
    let ghost rest = reader.remaining();
    let normals = match read_texture(reader) {
        Ok(texture) => texture,
        Err(e) => {
            return Err(e);
        },
    };
    let ghost a = (reader.position() - start) as nat;
    proof {
        lemma_skip_skip(source, start as int, a as int);
        assert(parsed_texture(rest) == Some((normals.deep_view(), a)));
    }
    let diffuse = match read_texture(reader) {
        Ok(texture) => texture,
        Err(e) => {
            reader.seek(start);
            return Err(e);
        },
    };
    let ghost b = (reader.position() - start - a) as nat;
    proof {
        lemma_skip_skip(source, start as int, (a + b) as int);
        assert(parsed_texture(rest.skip(a as int)) == Some((diffuse.deep_view(), b)));
    }
    let specular = match read_texture(reader) {
        Ok(texture) => texture,
        Err(e) => {
            reader.seek(start);
            return Err(e);
        },
    };
    let ghost c = (reader.position() - start - a - b) as nat;
    proof {
        assert(parsed_texture(rest.skip((a + b) as int)) == Some((specular.deep_view(), c)));
    }
    Ok((normals, diffuse, specular))
}

/// Reads one material.
pub fn read_material(reader: &mut ByteReader) -> (r: Result<Material, LoadError>)
    ensures
        match parsed_material(old(reader).remaining()) {
            Some((value, length)) => r matches Ok(found) && found@ == value && advanced(
                *old(reader),
                *final(reader),
                length,
            ),
            None => r matches Err(e) && e == LoadError::IoFailure && advanced(
                *old(reader),
                *final(reader),
                0,
            ),
        },
{
    proof {
        reveal(parsed_material);
    }
    let start = reader.offset();
    let ghost source = reader.source();
    let (name, shader_vertex, shader_fragment) = match read_names(reader) {
        Ok(names) => names,
        Err(e) => {
            return Err(e);
        },
    };
    let ghost a = (reader.position() - start) as nat;
    proof {
        lemma_skip_skip(source, start as int, a as int);
    }
    let (normals, diffuse, specular) = match read_slots(reader) {
        Ok(slots) => slots,
        Err(e) => {
            reader.seek(start);
            return Err(e);
        },
    };
    Ok(Material { name, shader_vertex, shader_fragment, normals, diffuse, specular })
}

/// A kind of item that an array of the layout can hold.
pub trait Record: Sized + DeepView {
    /// The item at the head of `bytes` and the number of bytes it takes;
    /// `None` where `bytes` does not start with a whole item.
    spec fn parsed(bytes: Seq<u8>) -> Option<(Self::V, nat)>;

    /// Reads one item. A read that fails leaves the cursor where it stood.
    fn read(reader: &mut ByteReader) -> (r: Result<Self, LoadError>)
        ensures
            match Self::parsed(old(reader).remaining()) {
                Some((value, length)) => r matches Ok(found) && found.deep_view() == value
                    && advanced(*old(reader), *final(reader), length),
                None => r matches Err(e) && e == LoadError::IoFailure && advanced(
                    *old(reader),
                    *final(reader),
                    0,
                ),
            },
    ;

    /// An item is read from its own bytes alone.
    proof fn lemma_reads_only_its_bytes(bytes: Seq<u8>, other: Seq<u8>)
        ensures
            reads_only_its_bytes(|b: Seq<u8>| Self::parsed(b), bytes, other),
    ;
}

impl Record for u32 {
    open spec fn parsed(bytes: Seq<u8>) -> Option<(u32, nat)> {
        parsed_u32(bytes)
    }

    fn read(reader: &mut ByteReader) -> (r: Result<u32, LoadError>) {
        read_index(reader)
    }

    proof fn lemma_reads_only_its_bytes(bytes: Seq<u8>, other: Seq<u8>) {
        lemma_index_reads_only_its_bytes(bytes, other);
    }
}

impl Record for Vector3 {
    open spec fn parsed(bytes: Seq<u8>) -> Option<(Vector3, nat)> {
        parsed_vertex(bytes)
    }

    fn read(reader: &mut ByteReader) -> (r: Result<Vector3, LoadError>) {
        read_vertex(reader)
    }

    proof fn lemma_reads_only_its_bytes(bytes: Seq<u8>, other: Seq<u8>) {
        lemma_vertex_reads_only_its_bytes(bytes, other);
    }
}

impl Record for Vector2 {
    open spec fn parsed(bytes: Seq<u8>) -> Option<(Vector2, nat)> {
        parsed_texcoord(bytes)
    }

    fn read(reader: &mut ByteReader) -> (r: Result<Vector2, LoadError>) {
        read_texcoord(reader)
    }

    proof fn lemma_reads_only_its_bytes(bytes: Seq<u8>, other: Seq<u8>) {
        lemma_texcoord_reads_only_its_bytes(bytes, other);
    }
}

impl Record for Material {
    open spec fn parsed(bytes: Seq<u8>) -> Option<(MaterialView, nat)> {
        parsed_material(bytes)
    }

    fn read(reader: &mut ByteReader) -> (r: Result<Material, LoadError>) {
        read_material(reader)
    }

    proof fn lemma_reads_only_its_bytes(bytes: Seq<u8>, other: Seq<u8>) {
        lemma_material_reads_only_its_bytes(bytes, other);
    }
}

/// The first `count` items at the head of `bytes`, one after the other, and
/// the number of bytes they take together.
pub open spec fn parsed_records<T: Record>(bytes: Seq<u8>, count: nat) -> Option<(Seq<T::V>, nat)>
    decreases count,
{
    if count == 0 {
        Some((Seq::empty(), 0))
    } else {
        match parsed_records::<T>(bytes, (count - 1) as nat) {
            None => None,
            Some((items, used)) => match T::parsed(bytes.skip(used as int)) {
                None => None,
                Some((item, length)) => Some((items.push(item), used + length)),
            },
        }
    }
}

/// An array: the item count as a 32-bit number, then that many items.
#[verifier::opaque]
pub open spec fn parsed_array<T: Record>(bytes: Seq<u8>) -> Option<(Seq<T::V>, nat)> {
    if bytes.len() < 4 {
        None
    } else {
        match parsed_records::<T>(bytes.skip(4), be_u32(bytes) as nat) {
            None => None,
            Some((items, used)) => Some((items, 4 + used)),
        }
    }
}

/// Where the first `k` items cannot be read, no larger number of items can.
pub proof fn lemma_records_fail_onward<T: Record>(bytes: Seq<u8>, k: nat, count: nat)
    requires
        k <= count,
        parsed_records::<T>(bytes, k) is None,
    ensures
        parsed_records::<T>(bytes, count) is None,
    decreases count,
{
    if k < count {
        lemma_records_fail_onward::<T>(bytes, k, (count - 1) as nat);
    }
}

/// Reads an array: the item count, then the items one after the other.
pub fn read_and_box<T: Record>(reader: &mut ByteReader) -> (r: Result<Vec<T>, LoadError>)
    ensures
        match parsed_array::<T>(old(reader).remaining()) {
            Some((value, length)) => r matches Ok(found) && found.deep_view() == value
                && advanced(*old(reader), *final(reader), length),
            None => r matches Err(e) && e == LoadError::IoFailure && advanced(
                *old(reader),
                *final(reader),
                0,
            ),
        },
{
    proof {
        reveal(parsed_array);
    }
    let start = reader.offset();
    let ghost source = reader.source();
    let ghost rest = reader.remaining();
    let count = match read_index(reader) {
        Ok(count) => count,
        Err(e) => {
            return Err(e);
        },
    };
    let ghost body = rest.skip(4);
    proof {
        lemma_skip_skip(source, start as int, 4);
    }
    let mut items: Vec<T> = Vec::new();
    let ghost mut used: nat = 0;
    let mut i: u32 = 0;
    proof {
        assert(items.deep_view() =~= Seq::<T::V>::empty());
    }
    while i < count
        invariant
            i <= count,
            count == be_u32(rest),
            rest.len() >= 4,
            body == rest.skip(4),
            rest == source.skip(start as int),
            start == old(reader).position(),
            source == old(reader).source(),
            reader.source() == source,
            reader.position() == start + 4 + used,
            reader.position() <= source.len(),
            parsed_records::<T>(body, i as nat) == Some((items.deep_view(), used)),
        decreases count - i,
    {
        proof {
            lemma_skip_skip(source, start as int, 4 + used as int);
            lemma_skip_skip(rest, 4, used as int);
        }
        let ghost before = items.deep_view();
        let item = match T::read(reader) {
            Ok(item) => item,
            Err(e) => {
                proof {
                    reveal(parsed_array);
                    lemma_records_fail_onward::<T>(body, (i + 1) as nat, count as nat);
                }
                reader.seek(start);
                return Err(e);
            },
        };
        let ghost model = item.deep_view();
        items.push(item);
        proof {
            assert(items.deep_view() =~= before.push(model));
            used = (reader.position() - start - 4) as nat;
        }
        i += 1;
        let _ = reader.offset();
    }
    Ok(items)
}

/// What stands before the geometry: the name, the transform and the
/// materials.
#[verifier::opaque]
pub open spec fn parsed_header(bytes: Seq<u8>) -> Option<
    ((Seq<char>, Matrix4, Seq<MaterialView>), nat),
> {
    match parsed_string(bytes) {
        None => None,
        Some((name, a)) => match parsed_transform(bytes.skip(a as int)) {
            None => None,
            Some((transform, b)) => match parsed_array::<Material>(bytes.skip((a + b) as int)) {
                None => None,
                Some((materials, c)) => Some(((name, transform, materials), a + b + c)),
            },
        },
    }
}

/// The geometry: the indices, the vertices and the texture coordinates,
/// each as an array.
#[verifier::opaque]
pub open spec fn parsed_geometry(bytes: Seq<u8>) -> Option<
    ((Seq<u32>, Seq<Vector3>, Seq<Vector2>), nat),
> {
    match parsed_array::<u32>(bytes) {
        None => None,
        Some((indices, a)) => match parsed_array::<Vector3>(bytes.skip(a as int)) {
            None => None,
            Some((vertices, b)) => match parsed_array::<Vector2>(bytes.skip((a + b) as int)) {
                None => None,
                Some((texcoords, c)) => Some(((indices, vertices, texcoords), a + b + c)),
            },
        },
    }
}

/// The whole layout: name, transform, materials, indices, vertices and
/// texture coordinates.
#[verifier::opaque]
pub open spec fn parsed_model(bytes: Seq<u8>) -> Option<(ModelView, nat)> {
    match parsed_header(bytes) {
        None => None,
        Some(((name, transform, materials), a)) => match parsed_geometry(bytes.skip(a as int)) {
            None => None,
            Some(((indices, vertices, texcoords), b)) => Some(
                (ModelView { name, transform, materials, indices, vertices, texcoords }, a + b),
            ),
        },
    }
}

/// What loading a model from the head of `bytes` comes to: the model and
/// the number of bytes it takes, or the reason why there is none. Bytes that
/// end early or hold a string that is not UTF-8 are an I/O failure; indices
/// that do not make whole triangles are a malformed stream; an index beyond
/// the vertices or the texture coordinates is out of range.
pub open spec fn loaded_model(bytes: Seq<u8>) -> Result<(ModelView, nat), LoadError> {
    match parsed_model(bytes) {
        None => Err(LoadError::IoFailure),
        Some((model, length)) => if !model.whole_triangles() {
            Err(LoadError::MalformedStream)
        } else if !model.indices_in_range() {
            Err(LoadError::IndexOutOfRange)
        } else {
            Ok((model, length))
        },
    }
}

fn read_header(reader: &mut ByteReader) -> (r: Result<(String, Matrix4, Vec<Material>), LoadError>)
    ensures
        match parsed_header(old(reader).remaining()) {
            Some((value, length)) => r matches Ok(found) && found.0@ == value.0 && found.1
                == value.1 && found.2.deep_view() == value.2 && advanced(
                *old(reader),
                *final(reader),
                length,
            ),
            None => r matches Err(e) && e == LoadError::IoFailure && advanced(
                *old(reader),
                *final(reader),
                0,
            ),
        },
{
    proof {
        reveal(parsed_header);
    }
    let start = reader.offset();
    let ghost source = reader.source();
    let ghost rest = reader.remaining();
    let name = match read_string(reader) {
        Ok(name) => name,
        Err(e) => {
            return Err(e);
        },
    };
    let ghost a = (reader.position() - start) as nat;
    proof {
        lemma_skip_skip(source, start as int, a as int);
        assert(parsed_string(rest) == Some((name@, a)));
    }
    let transform = match read_transform(reader) {
        Ok(transform) => transform,
        Err(e) => {
            reader.seek(start);
            return Err(e);
        },
    };
    let ghost b = (reader.position() - start - a) as nat;
    proof {
        lemma_skip_skip(source, start as int, (a + b) as int);
        assert(parsed_transform(rest.skip(a as int)) == Some((transform, b)));
    }
    let materials = match read_and_box::<Material>(reader) {
        Ok(materials) => materials,
        Err(e) => {
            reader.seek(start);
            return Err(e);
        },
    };
    let ghost c = (reader.position() - start - a - b) as nat;
    proof {
        assert(parsed_array::<Material>(rest.skip((a + b) as int)) == Some(
            (materials.deep_view(), c),
        ));
    }
    Ok((name, transform, materials))
}

fn read_geometry(reader: &mut ByteReader) -> (r: Result<
    (Vec<u32>, Vec<Vector3>, Vec<Vector2>),
    LoadError,
>)
    ensures
        match parsed_geometry(old(reader).remaining()) {
            Some((value, length)) => r matches Ok(found) && found.0@ == value.0 && found.1@
                == value.1 && found.2@ == value.2 && advanced(
                *old(reader),
                *final(reader),
                length,
            ),
            None => r matches Err(e) && e == LoadError::IoFailure && advanced(
                *old(reader),
                *final(reader),
                0,
            ),
        },
{
    proof {
        reveal(parsed_geometry);
    }
    let start = reader.offset();
    let ghost source = reader.source();
    let ghost rest = reader.remaining();
    let indices = match read_and_box::<u32>(reader) {
        Ok(indices) => indices,
        Err(e) => {
            return Err(e);
        },
    };
    let ghost a = (reader.position() - start) as nat;
    proof {
        lemma_skip_skip(source, start as int, a as int);
        assert(indices.deep_view() =~= indices@);
        assert(parsed_array::<u32>(rest) == Some((indices@, a)));
    }
    let vertices = match read_and_box::<Vector3>(reader) {
        Ok(vertices) => vertices,
        Err(e) => {
            reader.seek(start);
            return Err(e);
        },
    };
    let ghost b = (reader.position() - start - a) as nat;
    proof {
        lemma_skip_skip(source, start as int, (a + b) as int);
        assert(vertices.deep_view() =~= vertices@);
        assert(parsed_array::<Vector3>(rest.skip(a as int)) == Some((vertices@, b)));
    }
    let texcoords = match read_and_box::<Vector2>(reader) {
        Ok(texcoords) => texcoords,
        Err(e) => {
            reader.seek(start);
            return Err(e);
        },
    };
    let ghost c = (reader.position() - start - a - b) as nat;
    proof {
        assert(texcoords.deep_view() =~= texcoords@);
        assert(parsed_array::<Vector2>(rest.skip((a + b) as int)) == Some((texcoords@, c)));
    }
    Ok((indices, vertices, texcoords))
}

fn parse_model(reader: &mut ByteReader) -> (r: Result<Model, LoadError>)
    ensures
        match parsed_model(old(reader).remaining()) {
            Some((value, length)) => r matches Ok(found) && found@ == value && advanced(
                *old(reader),
                *final(reader),
                length,
            ),
            None => r matches Err(e) && e == LoadError::IoFailure && advanced(
                *old(reader),
                *final(reader),
                0,
            ),
        },
{
    proof {
        reveal(parsed_model);
    }
    let start = reader.offset();
    let ghost source = reader.source();
    let ghost rest = reader.remaining();
    let (name, transform, materials) = match read_header(reader) {
        Ok(header) => header,
        Err(e) => {
            return Err(e);
        },
    };
    let ghost a = (reader.position() - start) as nat;
    proof {
        lemma_skip_skip(source, start as int, a as int);
    }
    let (indices, vertices, texcoords) = match read_geometry(reader) {
        Ok(geometry) => geometry,
        Err(e) => {
            reader.seek(start);
            return Err(e);
        },
    };
    Ok(Model { name, transform, materials, indices, vertices, texcoords })
}

fn indices_fit(model: &Model) -> (fit: bool)
    ensures
        fit == model@.indices_in_range(),
{
    let mut i: usize = 0;
    while i < model.indices.len()
        invariant
            i <= model.indices.len(),
            forall|j: int|
                0 <= j < i ==> (#[trigger] model.indices@[j]) < model.vertices@.len()
                    && model.indices@[j] < model.texcoords@.len(),
        decreases model.indices.len() - i,
    {
        let index = model.indices[i] as usize;
        if index >= model.vertices.len() || index >= model.texcoords.len() {
            proof {
                let index = model@.indices[i as int];
                assert(!(index < model@.vertices.len() && index < model@.texcoords.len()));
            }
            return false;
        }
        i += 1;
    }
    true
}

/// Loads a model: reads the whole layout and checks that its indices make
/// whole triangles and stay within the vertices and the texture
/// coordinates. On success the cursor stands right behind the model; on
/// failure it stands where it stood.
pub fn load_model(reader: &mut ByteReader) -> (r: Result<Model, LoadError>)
    ensures
        match loaded_model(old(reader).remaining()) {
            Ok((value, length)) => r matches Ok(found) && found@ == value && advanced(
                *old(reader),
                *final(reader),
                length,
            ),
            Err(e) => r matches Err(failure) && failure == e && advanced(
                *old(reader),
                *final(reader),
                0,
            ),
        },
        r matches Ok(found) ==> found@.well_formed(),
{
    let start = reader.offset();
    let model = parse_model(reader)?;
    if model.indices.len() % 3 != 0 {
        reader.seek(start);
        return Err(LoadError::MalformedStream);
    }
    if !indices_fit(&model) {
        reader.seek(start);
        return Err(LoadError::IndexOutOfRange);
    }
    Ok(model)
}

/// Two byte sequences start with the same `n` bytes.
pub open spec fn same_head(a: Seq<u8>, b: Seq<u8>, n: nat) -> bool {
    &&& n <= a.len()
    &&& n <= b.len()
    &&& forall|i: int| 0 <= i < n ==> a[i] == b[i]
}

/// How many bytes a value takes, where there is one.
pub open spec fn taken<V>(parsed: Option<(V, nat)>) -> nat {
    match parsed {
        Some((_, length)) => length,
        None => 0,
    }
}

/// Whether `parse` reads a value off `bytes` from the value's own bytes
/// alone: they lie within `bytes`, and `parse` finds the same value in the
/// same number of bytes at the head of `other` if `other` starts with them.
pub open spec fn reads_only_its_bytes<V>(
    parse: spec_fn(Seq<u8>) -> Option<(V, nat)>,
    bytes: Seq<u8>,
    other: Seq<u8>,
) -> bool {
    match parse(bytes) {
        Some((value, length)) => length <= bytes.len() && (same_head(bytes, other, length)
            ==> parse(other) == Some((value, length))),
        None => true,
    }
}

/// Sequences with the same head have, behind the first `k` bytes of it, the
/// rest of it as their head.
proof fn lemma_same_head_later(a: Seq<u8>, b: Seq<u8>, n: nat, k: nat, m: nat)
    requires
        same_head(a, b, n),
        k + m <= n,
    ensures
        same_head(a, b, k),
        same_head(a.skip(k as int), b.skip(k as int), m),
{
    assert forall|i: int| 0 <= i < m implies a.skip(k as int)[i] == b.skip(k as int)[i] by {
        assert(a[i + k] == b[i + k]);
    }
}

/// Sequences with the same head hold the same bytes in every stretch of it.
proof fn lemma_same_head_stretch(a: Seq<u8>, b: Seq<u8>, n: nat, from: int, to: int)
    requires
        same_head(a, b, n),
        0 <= from <= to <= n,
    ensures
        a.subrange(from, to) == b.subrange(from, to),
{
    assert(a.subrange(from, to) =~= b.subrange(from, to));
}

/// A 16-bit number is read from its own bytes alone.
pub proof fn lemma_u16_reads_only_its_bytes(bytes: Seq<u8>, other: Seq<u8>)
    ensures
        reads_only_its_bytes(|b: Seq<u8>| parsed_u16(b), bytes, other),
{
}

/// An index is read from its own bytes alone.
pub proof fn lemma_index_reads_only_its_bytes(bytes: Seq<u8>, other: Seq<u8>)
    ensures
        reads_only_its_bytes(|b: Seq<u8>| parsed_u32(b), bytes, other),
{
}

/// A string is read from its own bytes alone.
pub proof fn lemma_string_reads_only_its_bytes(bytes: Seq<u8>, other: Seq<u8>)
    ensures
        reads_only_its_bytes(|b: Seq<u8>| parsed_string(b), bytes, other),
{
    reveal(parsed_string);
    if let Some((_, length)) = parsed_string(bytes) {
        if same_head(bytes, other, length) {
            lemma_same_head_stretch(bytes, other, length, 2, length as int);
        }
    }
}

/// A vertex is read from its own bytes alone.
pub proof fn lemma_vertex_reads_only_its_bytes(bytes: Seq<u8>, other: Seq<u8>)
    ensures
        reads_only_its_bytes(|b: Seq<u8>| parsed_vertex(b), bytes, other),
{
    if parsed_vertex(bytes) is Some && same_head(bytes, other, 12) {
        lemma_same_head_stretch(bytes, other, 12, 0, 4);
        lemma_same_head_stretch(bytes, other, 12, 4, 8);
        lemma_same_head_stretch(bytes, other, 12, 8, 12);
    }
}

/// A texture coordinate is read from its own bytes alone.
pub proof fn lemma_texcoord_reads_only_its_bytes(bytes: Seq<u8>, other: Seq<u8>)
    ensures
        reads_only_its_bytes(|b: Seq<u8>| parsed_texcoord(b), bytes, other),
{
    if parsed_texcoord(bytes) is Some && same_head(bytes, other, 8) {
        lemma_same_head_stretch(bytes, other, 8, 0, 4);
        lemma_same_head_stretch(bytes, other, 8, 4, 8);
    }
}

/// A transform is read from its own bytes alone.
pub proof fn lemma_transform_reads_only_its_bytes(bytes: Seq<u8>, other: Seq<u8>)
    ensures
        reads_only_its_bytes(|b: Seq<u8>| parsed_transform(b), bytes, other),
{
    reveal(parsed_transform);
    if parsed_transform(bytes) is Some && same_head(bytes, other, 64) {
        assert forall|at: int| 0 <= at && at + 4 <= 64 implies scalar_at(bytes, at) == scalar_at(
            other,
            at,
        ) by {
            lemma_same_head_stretch(bytes, other, 64, at, at + 4);
        }
    }
}

/// A texture slot is read from its own bytes alone.
pub proof fn lemma_texture_reads_only_its_bytes(bytes: Seq<u8>, other: Seq<u8>)
    ensures
        reads_only_its_bytes(|b: Seq<u8>| parsed_texture(b), bytes, other),
{
    reveal(parsed_texture);
    if let Some((value, length)) = parsed_texture(bytes) {
        if same_head(bytes, other, length) && bytes[0] == 1 {
            lemma_same_head_stretch(bytes, other, length, 1, 3);
            lemma_same_head_stretch(bytes, other, length, 3, 5);
            match (parsed_texture(other), value) {
                (Some((Some(found), _)), Some(texture)) => {
                    assert(found.pixels =~= texture.pixels);
                },
                _ => {},
            }
        }
    }
}

/// The strings of a material are read from their own bytes alone.
pub proof fn lemma_names_read_only_their_bytes(bytes: Seq<u8>, other: Seq<u8>)
    ensures
        reads_only_its_bytes(|b: Seq<u8>| parsed_names(b), bytes, other),
{
    reveal(parsed_names);
    if let Some((_, length)) = parsed_names(bytes) {
        let a = taken(parsed_string(bytes));
        lemma_string_reads_only_its_bytes(bytes, other);
        let b = taken(parsed_string(bytes.skip(a as int)));
        lemma_string_reads_only_its_bytes(bytes.skip(a as int), other.skip(a as int));
        let ab = a + b;
        let c = taken(parsed_string(bytes.skip(ab as int)));
        lemma_string_reads_only_its_bytes(bytes.skip(ab as int), other.skip(ab as int));
        assert(length == ab + c);
        if same_head(bytes, other, length) {
            lemma_same_head_later(bytes, other, length, 0, a);
            lemma_same_head_later(bytes, other, length, a, b);
            lemma_same_head_later(bytes, other, length, ab, c);
        }
    }
}

/// The texture slots of a material are read from their own bytes alone.
pub proof fn lemma_slots_read_only_their_bytes(bytes: Seq<u8>, other: Seq<u8>)
    ensures
        reads_only_its_bytes(|b: Seq<u8>| parsed_slots(b), bytes, other),
{
    reveal(parsed_slots);
    if let Some((_, length)) = parsed_slots(bytes) {
        let a = taken(parsed_texture(bytes));
        lemma_texture_reads_only_its_bytes(bytes, other);
        let b = taken(parsed_texture(bytes.skip(a as int)));
        lemma_texture_reads_only_its_bytes(bytes.skip(a as int), other.skip(a as int));
        let ab = a + b;
        let c = taken(parsed_texture(bytes.skip(ab as int)));
        lemma_texture_reads_only_its_bytes(bytes.skip(ab as int), other.skip(ab as int));
        assert(length == ab + c);
        if same_head(bytes, other, length) {
            lemma_same_head_later(bytes, other, length, 0, a);
            lemma_same_head_later(bytes, other, length, a, b);
            lemma_same_head_later(bytes, other, length, ab, c);
        }
    }
}

/// A material is read from its own bytes alone.
pub proof fn lemma_material_reads_only_its_bytes(bytes: Seq<u8>, other: Seq<u8>)
    ensures
        reads_only_its_bytes(|b: Seq<u8>| parsed_material(b), bytes, other),
{
    reveal(parsed_material);
    if let Some((_, length)) = parsed_material(bytes) {
        let a = taken(parsed_names(bytes));
        lemma_names_read_only_their_bytes(bytes, other);
        let b = taken(parsed_slots(bytes.skip(a as int)));
        lemma_slots_read_only_their_bytes(bytes.skip(a as int), other.skip(a as int));
        assert(length == a + b);
        if same_head(bytes, other, length) {
            lemma_same_head_later(bytes, other, length, 0, a);
            lemma_same_head_later(bytes, other, length, a, b);
        }
    }
}

/// A run of items is read from its own bytes alone.
pub proof fn lemma_records_read_only_their_bytes<T: Record>(
    bytes: Seq<u8>,
    other: Seq<u8>,
    count: nat,
)
    ensures
        reads_only_its_bytes(|b: Seq<u8>| parsed_records::<T>(b, count), bytes, other),
    decreases count,
{
    if count > 0 {
        if let Some((_, length)) = parsed_records::<T>(bytes, count) {
            let used = taken(parsed_records::<T>(bytes, (count - 1) as nat));
            lemma_records_read_only_their_bytes::<T>(bytes, other, (count - 1) as nat);
            T::lemma_reads_only_its_bytes(bytes.skip(used as int), other.skip(used as int));
            let last = taken(T::parsed(bytes.skip(used as int)));
            assert(length == used + last);
            if same_head(bytes, other, length) {
                lemma_same_head_later(bytes, other, length, used, last);
            }
        }
    }
}

/// An array is read from its own bytes alone.
pub proof fn lemma_array_reads_only_its_bytes<T: Record>(bytes: Seq<u8>, other: Seq<u8>)
    ensures
        reads_only_its_bytes(|b: Seq<u8>| parsed_array::<T>(b), bytes, other),
{
    reveal(parsed_array);
    if let Some((_, length)) = parsed_array::<T>(bytes) {
        let count = be_u32(bytes) as nat;
        lemma_records_read_only_their_bytes::<T>(bytes.skip(4), other.skip(4), count);
        if same_head(bytes, other, length) {
            lemma_same_head_later(bytes, other, length, 4, (length - 4) as nat);
        }
    }
}

/// What stands before the geometry is read from its own bytes alone.
pub proof fn lemma_header_reads_only_its_bytes(bytes: Seq<u8>, other: Seq<u8>)
    ensures
        reads_only_its_bytes(|b: Seq<u8>| parsed_header(b), bytes, other),
{
    reveal(parsed_header);
    if let Some((_, length)) = parsed_header(bytes) {
        let a = taken(parsed_string(bytes));
        lemma_string_reads_only_its_bytes(bytes, other);
        let b = taken(parsed_transform(bytes.skip(a as int)));
        lemma_transform_reads_only_its_bytes(bytes.skip(a as int), other.skip(a as int));
        let ab = a + b;
        let c = taken(parsed_array::<Material>(bytes.skip(ab as int)));
        lemma_array_reads_only_its_bytes::<Material>(bytes.skip(ab as int), other.skip(ab as int));
        assert(length == ab + c);
        if same_head(bytes, other, length) {
            lemma_same_head_later(bytes, other, length, 0, a);
            lemma_same_head_later(bytes, other, length, a, b);
            lemma_same_head_later(bytes, other, length, ab, c);
        }
    }
}

/// The geometry is read from its own bytes alone.
pub proof fn lemma_geometry_reads_only_its_bytes(bytes: Seq<u8>, other: Seq<u8>)
    ensures
        reads_only_its_bytes(|b: Seq<u8>| parsed_geometry(b), bytes, other),
{
    reveal(parsed_geometry);
    if let Some((_, length)) = parsed_geometry(bytes) {
        let a = taken(parsed_array::<u32>(bytes));
        lemma_array_reads_only_its_bytes::<u32>(bytes, other);
        let b = taken(parsed_array::<Vector3>(bytes.skip(a as int)));
        lemma_array_reads_only_its_bytes::<Vector3>(bytes.skip(a as int), other.skip(a as int));
        let ab = a + b;
        let c = taken(parsed_array::<Vector2>(bytes.skip(ab as int)));
        lemma_array_reads_only_its_bytes::<Vector2>(bytes.skip(ab as int), other.skip(ab as int));
        assert(length == ab + c);
        if same_head(bytes, other, length) {
            lemma_same_head_later(bytes, other, length, 0, a);
            lemma_same_head_later(bytes, other, length, a, b);
            lemma_same_head_later(bytes, other, length, ab, c);
        }
    }
}

/// A model is read from its own bytes alone.
pub proof fn lemma_model_reads_only_its_bytes(bytes: Seq<u8>, other: Seq<u8>)
    ensures
        reads_only_its_bytes(|b: Seq<u8>| parsed_model(b), bytes, other),
{
    reveal(parsed_model);
    if let Some((_, length)) = parsed_model(bytes) {
        let a = taken(parsed_header(bytes));
        lemma_header_reads_only_its_bytes(bytes, other);
        let b = taken(parsed_geometry(bytes.skip(a as int)));
        lemma_geometry_reads_only_its_bytes(bytes.skip(a as int), other.skip(a as int));
        assert(length == a + b);
        if same_head(bytes, other, length) {
            lemma_same_head_later(bytes, other, length, 0, a);
            lemma_same_head_later(bytes, other, length, a, b);
        }
    }
}

/// Loading reads a model from the model's own bytes alone: where a load
/// succeeds, the bytes it takes lie within the source; a load from any bytes
/// that start with them gives the same model and takes as many; so does a
/// load from those bytes by themselves, and one from the source with more
/// bytes behind it.
pub proof fn lemma_load_reads_only_its_bytes(bytes: Seq<u8>, other: Seq<u8>, more: Seq<u8>)
    requires
        loaded_model(bytes) is Ok,
    ensures
        taken(parsed_model(bytes)) <= bytes.len(),
        same_head(bytes, other, taken(parsed_model(bytes))) ==> loaded_model(other)
            == loaded_model(bytes),
        loaded_model(bytes.take(taken(parsed_model(bytes)) as int)) == loaded_model(bytes),
        loaded_model(bytes + more) == loaded_model(bytes),
{
    let length = taken(parsed_model(bytes));
    lemma_model_reads_only_its_bytes(bytes, other);
    lemma_model_reads_only_its_bytes(bytes, bytes.take(length as int));
    lemma_model_reads_only_its_bytes(bytes, bytes + more);
}

} // verus!
