//! From a node's name and raw properties to a typed node.
//!
//! The functions on plain arrays ([`decode_polygon_indices`],
//! [`chunk_vector3`], [`chunk_vector2`]) hold the rules; the `parse_*`
//! functions read the one property that a geometry node must carry and hand
//! its array to them.

use crate::error::LoadError;
use crate::fbx::node::FbxNode;
use crate::fbx::node::FbxNodeView;
use crate::fbx::node::NodeType;
use crate::fbx::node::NodeTypeView;
use crate::fbx::property::float_bits;
use crate::fbx::property::float_array_of;
use crate::fbx::property::int_array;
use crate::fbx::property::int_array_of;
use crate::math::Scalar;
use crate::math::Vector2;
use crate::math::Vector3;
use crate::mesh::GeometryKind;
use fbx_direct::common::OwnedProperty;
use vstd::prelude::*;

verus! {

/// The index that a raw element of a polygon index block stands for. The
/// last corner of each face is stored as `-(i + 1)`; every other corner is
/// stored as `i` itself.
pub open spec fn decoded_index(raw: i32) -> i32 {
    if raw < 0 {
        (-(raw + 1)) as i32
    } else {
        raw
    }
}

/// The raw element that marks index `i` as the last corner of a face.
pub open spec fn terminal_encoding(i: i32) -> i32
    recommends
        i >= 0,
{
    (-(i + 1)) as i32
}

/// A raw block with every element decoded.
pub open spec fn decoded_indices(raw: Seq<i32>) -> Seq<i32> {
    Seq::new(raw.len(), |k: int| decoded_index(raw[k]))
}

/// The face kind that a raw block announces: triangles when its third
/// element closes a face, quads otherwise.
pub open spec fn inferred_kind(raw: Seq<i32>) -> GeometryKind
    recommends
        raw.len() >= 3,
{
    if raw[2] < 0 {
        GeometryKind::Triangles
    } else {
        GeometryKind::Quads
    }
}

/// Consecutive groups of three scalars.
pub open spec fn triples(floats: Seq<u32>) -> Seq<Vector3> {
    Seq::new(
        (floats.len() / 3) as nat,
        |k: int|
            Vector3 {
                x: Scalar { bits: floats[3 * k] },
                y: Scalar { bits: floats[3 * k + 1] },
                z: Scalar { bits: floats[3 * k + 2] },
            },
    )
}

/// Consecutive groups of two scalars.
pub open spec fn pairs(floats: Seq<u32>) -> Seq<Vector2> {
    Seq::new(
        (floats.len() / 2) as nat,
        |k: int|
            Vector2 { x: Scalar { bits: floats[2 * k] }, y: Scalar { bits: floats[2 * k + 1] } },
    )
}

/// What decoding a raw polygon index block gives: the kind that its third
/// element announces and every element decoded, or a refusal where there is
/// no third element.
pub open spec fn polygon_indices(raw: Seq<i32>) -> Result<(GeometryKind, Seq<i32>), LoadError> {
    if raw.len() < 3 {
        Err(LoadError::UnexpectedPropertyShape)
    } else {
        Ok((inferred_kind(raw), decoded_indices(raw)))
    }
}

/// What grouping a float array by three gives: the 3-vectors, or a refusal
/// where the length is not a multiple of three.
pub open spec fn vector3_chunks(floats: Seq<u32>) -> Result<Seq<Vector3>, LoadError> {
    if floats.len() % 3 != 0 {
        Err(LoadError::UnexpectedPropertyShape)
    } else {
        Ok(triples(floats))
    }
}

/// What grouping a float array by two gives: the 2-vectors, or a refusal
/// where the length is odd.
pub open spec fn vector2_chunks(floats: Seq<u32>) -> Result<Seq<Vector2>, LoadError> {
    if floats.len() % 2 != 0 {
        Err(LoadError::UnexpectedPropertyShape)
    } else {
        Ok(pairs(floats))
    }
}

/// Decoding undoes the end-of-face encoding, and leaves a plain index alone.
pub proof fn lemma_terminator_round_trip(i: i32)
    requires
        i >= 0,
    ensures
        terminal_encoding(i) < 0,
        decoded_index(terminal_encoding(i)) == i,
        decoded_index(i) == i,
{
}

/// A block of indices with the chosen ones marked as face ends.
pub open spec fn encoded_block(indices: Seq<i32>, closes_face: Seq<bool>) -> Seq<i32>
    recommends
        closes_face.len() == indices.len(),
{
    Seq::new(
        indices.len(),
        |k: int|
            if closes_face[k] {
                terminal_encoding(indices[k])
            } else {
                indices[k]
            },
    )
}

/// Decoding a block gives back the indices that were encoded, whichever of
/// them were marked as face ends.
pub proof fn lemma_block_round_trip(indices: Seq<i32>, closes_face: Seq<bool>)
    requires
        closes_face.len() == indices.len(),
        forall|k: int| 0 <= k < indices.len() ==> indices[k] >= 0,
    ensures
        decoded_indices(encoded_block(indices, closes_face)) == indices,
{
    assert(decoded_indices(encoded_block(indices, closes_face)) =~= indices);
}

/// A block of at least three elements is always decoded, as triangles
/// exactly where its third element is negative and as quads otherwise, and
/// element by element.
pub proof fn lemma_kind_follows_third_element(raw: Seq<i32>)
    requires
        raw.len() >= 3,
    ensures
        polygon_indices(raw) is Ok,
        raw[2] < 0 ==> polygon_indices(raw)->Ok_0.0 == GeometryKind::Triangles,
        raw[2] >= 0 ==> polygon_indices(raw)->Ok_0.0 == GeometryKind::Quads,
        polygon_indices(raw)->Ok_0.1.len() == raw.len(),
        forall|k: int|
            0 <= k < raw.len() ==> polygon_indices(raw)->Ok_0.1[k] == decoded_index(raw[k]),
{
}

/// A float array whose length is no multiple of the vector size is refused.
pub proof fn lemma_ragged_arrays_are_refused(floats: Seq<u32>)
    ensures
        floats.len() % 3 != 0 <==> vector3_chunks(floats) is Err,
        floats.len() % 2 != 0 <==> vector2_chunks(floats) is Err,
        vector3_chunks(floats) matches Ok(vectors) ==> 3 * vectors.len() == floats.len(),
        vector2_chunks(floats) matches Ok(vectors) ==> 2 * vectors.len() == floats.len(),
{
}

/// A decoded index is never negative.
pub proof fn lemma_decoded_index_is_natural(raw: i32)
    ensures
        decoded_index(raw) >= 0,
        raw < 0 ==> decoded_index(raw) == -raw - 1,
{
}

/// Decodes one raw element of a polygon index block.
pub fn decode_index(raw: i32) -> (index: i32)
    ensures
        index == decoded_index(raw),
{
    if raw < 0 {
        -(raw + 1)
    } else {
        raw
    }
}

/// Infers the face kind of a raw polygon index block from its third element
/// and decodes every element. A block of fewer than three elements has no
/// third element to go by and is refused.
pub fn decode_polygon_indices(raw: &Vec<i32>) -> (r: Result<(GeometryKind, Vec<i32>), LoadError>)
    ensures
        match polygon_indices(raw@) {
            Ok((kind, indices)) => r matches Ok(found) && found.0 == kind && found.1@ == indices,
            Err(e) => r matches Err(failure) && failure == e,
        },
{
    if raw.len() < 3 {
        return Err(LoadError::UnexpectedPropertyShape);
    }
    let kind = if raw[2] < 0 {
        GeometryKind::Triangles
    } else {
        GeometryKind::Quads
    };
    let mut indices: Vec<i32> = Vec::with_capacity(raw.len());
    let mut k: usize = 0;
    while k < raw.len()
        invariant
            k <= raw.len(),
            indices@ == decoded_indices(raw@.take(k as int)),
        decreases raw.len() - k,
    {
        indices.push(decode_index(raw[k]));
        k += 1;
        assert(indices@ =~= decoded_indices(raw@.take(k as int)));
    }
    assert(raw@.take(k as int) =~= raw@);
    Ok((kind, indices))
}

/// Groups a float array into 3-vectors, in the order met. Refuses an array
/// whose length is not a multiple of three.
pub fn chunk_vector3(floats: &Vec<u32>) -> (r: Result<Vec<Vector3>, LoadError>)
    ensures
        match vector3_chunks(floats@) {
            Ok(chunks) => r matches Ok(vectors) && vectors@ == chunks,
            Err(e) => r matches Err(failure) && failure == e,
        },
{
    if floats.len() % 3 != 0 {
        return Err(LoadError::UnexpectedPropertyShape);
    }
    let count = floats.len() / 3;
    let mut vectors: Vec<Vector3> = Vec::with_capacity(count);
    let mut k: usize = 0;
    while k < count
        invariant
            k <= count,
            count == floats@.len() / 3,
            3 * count <= floats.len(),
            vectors@.len() == k,
            forall|j: int| 0 <= j < k ==> vectors@[j] == triples(floats@)[j],
        decreases count - k,
    {
        let v = Vector3 {
            x: Scalar::from_bits(floats[3 * k]),
            y: Scalar::from_bits(floats[3 * k + 1]),
            z: Scalar::from_bits(floats[3 * k + 2]),
        };
        vectors.push(v);
        k += 1;
    }
    assert(vectors@ =~= triples(floats@));
    Ok(vectors)
}

/// Groups a float array into 2-vectors, in the order met. Refuses an array
/// whose length is odd.
pub fn chunk_vector2(floats: &Vec<u32>) -> (r: Result<Vec<Vector2>, LoadError>)
    ensures
        match vector2_chunks(floats@) {
            Ok(chunks) => r matches Ok(vectors) && vectors@ == chunks,
            Err(e) => r matches Err(failure) && failure == e,
        },
{
    if floats.len() % 2 != 0 {
        return Err(LoadError::UnexpectedPropertyShape);
    }
    let count = floats.len() / 2;
    let mut vectors: Vec<Vector2> = Vec::with_capacity(count);
    let mut k: usize = 0;
    while k < count
        invariant
            k <= count,
            count == floats@.len() / 2,
            2 * count <= floats.len(),
            vectors@.len() == k,
            forall|j: int| 0 <= j < k ==> vectors@[j] == pairs(floats@)[j],
        decreases count - k,
    {
        let v = Vector2 {
            x: Scalar::from_bits(floats[2 * k]),
            y: Scalar::from_bits(floats[2 * k + 1]),
        };
        vectors.push(v);
        k += 1;
    }
    assert(vectors@ =~= pairs(floats@));
    Ok(vectors)
}

/// A `Vertices` or `Normals` node whose float array is not made of whole
/// 3-vectors is refused, and so is a `UV` node whose float array is not made
/// of whole 2-vectors.
pub proof fn lemma_ragged_geometry_is_refused(properties: Seq<OwnedProperty>)
    requires
        sole_float_array(properties) is Ok,
    ensures
        sole_float_array(properties)->Ok_0.len() % 3 != 0 ==> vertices_node(properties) == Err::<
            FbxNodeView,
            LoadError,
        >(LoadError::UnexpectedPropertyShape) && normals_node(properties) == Err::<
            FbxNodeView,
            LoadError,
        >(LoadError::UnexpectedPropertyShape),
        sole_float_array(properties)->Ok_0.len() % 3 == 0 ==> vertices_node(properties) is Ok
            && normals_node(properties) is Ok,
        sole_float_array(properties)->Ok_0.len() % 2 != 0 ==> uv_node(properties) == Err::<
            FbxNodeView,
            LoadError,
        >(LoadError::UnexpectedPropertyShape),
        sole_float_array(properties)->Ok_0.len() % 2 == 0 ==> uv_node(properties) is Ok,
{
}

/// A node of the given type and properties that has no children.
pub open spec fn leaf(node_type: NodeTypeView, properties: Seq<OwnedProperty>) -> FbxNodeView {
    FbxNodeView { node_type, properties, children: Seq::empty() }
}

/// The float array of a geometry node: its properties must be exactly one,
/// a float array.
pub open spec fn sole_float_array(properties: Seq<OwnedProperty>) -> Result<Seq<u32>, LoadError> {
    if properties.len() != 1 {
        Err(LoadError::UnexpectedPropertyShape)
    } else {
        match float_array_of(properties[0]) {
            Some(floats) => Ok(floats),
            None => Err(LoadError::UnexpectedPropertyShape),
        }
    }
}

/// The integer array of an index node: its properties must be exactly one,
/// an array of 32-bit integers.
pub open spec fn sole_int_array(properties: Seq<OwnedProperty>) -> Result<Seq<i32>, LoadError> {
    if properties.len() != 1 {
        Err(LoadError::UnexpectedPropertyShape)
    } else {
        match int_array_of(properties[0]) {
            Some(elements) => Ok(elements),
            None => Err(LoadError::UnexpectedPropertyShape),
        }
    }
}

/// The `Vertices` node that the given properties make.
pub open spec fn vertices_node(properties: Seq<OwnedProperty>) -> Result<FbxNodeView, LoadError> {
    match sole_float_array(properties) {
        Err(e) => Err(e),
        Ok(floats) => match vector3_chunks(floats) {
            Err(e) => Err(e),
            Ok(positions) => Ok(leaf(NodeTypeView::Vertices(positions), Seq::empty())),
        },
    }
}

/// The `Normals` node that the given properties make.
pub open spec fn normals_node(properties: Seq<OwnedProperty>) -> Result<FbxNodeView, LoadError> {
    match sole_float_array(properties) {
        Err(e) => Err(e),
        Ok(floats) => match vector3_chunks(floats) {
            Err(e) => Err(e),
            Ok(normals) => Ok(leaf(NodeTypeView::Normals(normals), Seq::empty())),
        },
    }
}

/// The `UV` node that the given properties make.
pub open spec fn uv_node(properties: Seq<OwnedProperty>) -> Result<FbxNodeView, LoadError> {
    match sole_float_array(properties) {
        Err(e) => Err(e),
        Ok(floats) => match vector2_chunks(floats) {
            Err(e) => Err(e),
            Ok(coordinates) => Ok(leaf(NodeTypeView::UV(coordinates), Seq::empty())),
        },
    }
}

/// The `UVIndex` node that the given properties make: the integers as stored.
pub open spec fn uv_index_node(properties: Seq<OwnedProperty>) -> Result<FbxNodeView, LoadError> {
    match sole_int_array(properties) {
        Err(e) => Err(e),
        Ok(elements) => Ok(leaf(NodeTypeView::UVIndex(elements), Seq::empty())),
    }
}

/// The `PolygonVertexIndex` node that the given properties make.
pub open spec fn polygon_index_node(properties: Seq<OwnedProperty>) -> Result<
    FbxNodeView,
    LoadError,
> {
    match sole_int_array(properties) {
        Err(e) => Err(e),
        Ok(raw) => match polygon_indices(raw) {
            Err(e) => Err(e),
            Ok((kind, indices)) => Ok(
                leaf(NodeTypeView::PolygonVertexIndex(kind, indices), Seq::empty()),
            ),
        },
    }
}

/// Whether a name is one of the fixed set that the library interprets.
pub open spec fn is_recognised(name: Seq<char>) -> bool {
    ||| name == "Vertices"@
    ||| name == "Normals"@
    ||| name == "PolygonVertexIndex"@
    ||| name == "UV"@
    ||| name == "UVIndex"@
    ||| name == "Objects"@
    ||| name == "Geometry"@
    ||| name == "Definitions"@
    ||| name == "LayerElementNormal"@
    ||| name == "LayerElementUV"@
}

/// The typed node for a name and its raw properties. The name decides, by
/// exact match; a name outside the fixed set gives an `Other` node that
/// keeps the name and the properties.
pub open spec fn classified(name: Seq<char>, properties: Seq<OwnedProperty>) -> Result<
    FbxNodeView,
    LoadError,
> {
    if name == "Vertices"@ {
        vertices_node(properties)
    } else if name == "Normals"@ {
        normals_node(properties)
    } else if name == "PolygonVertexIndex"@ {
        polygon_index_node(properties)
    } else if name == "UV"@ {
        uv_node(properties)
    } else if name == "UVIndex"@ {
        uv_index_node(properties)
    } else if name == "Objects"@ {
        Ok(leaf(NodeTypeView::Objects, Seq::empty()))
    } else if name == "Geometry"@ {
        Ok(leaf(NodeTypeView::Geometry, Seq::empty()))
    } else if name == "Definitions"@ {
        Ok(leaf(NodeTypeView::Definitions, Seq::empty()))
    } else if name == "LayerElementNormal"@ {
        Ok(leaf(NodeTypeView::LayerElementNormal, Seq::empty()))
    } else if name == "LayerElementUV"@ {
        Ok(leaf(NodeTypeView::LayerElementUV, Seq::empty()))
    } else {
        Ok(leaf(NodeTypeView::Other(name), properties))
    }
}

/// Whether a result agrees with its specification: the same failure, or a
/// node whose model is the specified one.
pub open spec fn node_result_is(
    r: Result<FbxNode, LoadError>,
    expected: Result<FbxNodeView, LoadError>,
) -> bool {
    match expected {
        Ok(model) => r matches Ok(node) && node@ == model,
        Err(e) => r matches Err(failure) && failure == e,
    }
}

impl FbxNode {
    /// A node of the given type with no children.
    pub fn leaf(node_type: NodeType, properties: Vec<OwnedProperty>) -> (node: FbxNode)
        ensures
            node@ == leaf(node_type@, properties@),
            node.node_type == node_type,
            node.properties == properties,
            node.children@.len() == 0,
    {
        let node = FbxNode { node_type, properties, children: Vec::new() };
        assert(node@.children =~= Seq::empty());
        node
    }
}

fn read_sole_float_array(properties: &Vec<OwnedProperty>) -> (r: Result<Vec<u32>, LoadError>)
    ensures
        match sole_float_array(properties@) {
            Ok(floats) => r matches Ok(v) && v@ == floats,
            Err(e) => r matches Err(failure) && failure == e,
        },
{
    if properties.len() != 1 {
        return Err(LoadError::UnexpectedPropertyShape);
    }
    match float_bits(&properties[0]) {
        Some(floats) => Ok(floats),
        None => Err(LoadError::UnexpectedPropertyShape),
    }
}

fn read_sole_int_array(properties: &Vec<OwnedProperty>) -> (r: Result<Vec<i32>, LoadError>)
    ensures
        match sole_int_array(properties@) {
            Ok(elements) => r matches Ok(v) && v@ == elements,
            Err(e) => r matches Err(failure) && failure == e,
        },
{
    if properties.len() != 1 {
        return Err(LoadError::UnexpectedPropertyShape);
    }
    match int_array(&properties[0]) {
        Some(elements) => Ok(elements),
        None => Err(LoadError::UnexpectedPropertyShape),
    }
}

/// Builds a `Vertices` node: exactly one property, a float array whose
/// length is a multiple of three, grouped into positions.
pub fn parse_vertices(properties: Vec<OwnedProperty>) -> (r: Result<FbxNode, LoadError>)
    ensures
        node_result_is(r, vertices_node(properties@)),
{
    let floats = read_sole_float_array(&properties)?;
    let positions = chunk_vector3(&floats)?;
    Ok(FbxNode::leaf(NodeType::Vertices(positions), Vec::new()))
}

/// Builds a `Normals` node: exactly one property, a float array whose
/// length is a multiple of three, grouped into normals.
pub fn parse_normals(properties: Vec<OwnedProperty>) -> (r: Result<FbxNode, LoadError>)
    ensures
        node_result_is(r, normals_node(properties@)),
{
    let floats = read_sole_float_array(&properties)?;
    let normals = chunk_vector3(&floats)?;
    Ok(FbxNode::leaf(NodeType::Normals(normals), Vec::new()))
}

/// Builds a `UV` node: exactly one property, a float array of even length,
/// grouped into coordinate pairs.
pub fn parse_uv(properties: Vec<OwnedProperty>) -> (r: Result<FbxNode, LoadError>)
    ensures
        node_result_is(r, uv_node(properties@)),
{
    let floats = read_sole_float_array(&properties)?;
    let coordinates = chunk_vector2(&floats)?;
    Ok(FbxNode::leaf(NodeType::UV(coordinates), Vec::new()))
}

/// Builds a `UVIndex` node: exactly one property, an integer array, kept as
/// it is. This stream marks no face ends, so nothing is decoded.
pub fn parse_uvindex(properties: Vec<OwnedProperty>) -> (r: Result<FbxNode, LoadError>)
    ensures
        node_result_is(r, uv_index_node(properties@)),
{
    let elements = read_sole_int_array(&properties)?;
    Ok(FbxNode::leaf(NodeType::UVIndex(elements), Vec::new()))
}

/// Builds a `PolygonVertexIndex` node: exactly one property, an integer
/// array of at least three elements, with the face kind inferred and every
/// element decoded.
pub fn parse_indices(properties: Vec<OwnedProperty>) -> (r: Result<FbxNode, LoadError>)
    ensures
        node_result_is(r, polygon_index_node(properties@)),
{
    let raw = read_sole_int_array(&properties)?;
    let (kind, indices) = decode_polygon_indices(&raw)?;
    Ok(FbxNode::leaf(NodeType::PolygonVertexIndex(kind, indices), Vec::new()))
}

fn name_is(name: &String, literal: &str) -> (same: bool)
    ensures
        same == (name@ == literal@),
{
    *name == literal.to_owned()
}

/// Classifies a node by its name and converts its raw properties.
pub fn convert_node(name: String, properties: Vec<OwnedProperty>) -> (r: Result<FbxNode, LoadError>)
    ensures
        node_result_is(r, classified(name@, properties@)),
{
    if name_is(&name, "Vertices") {
        parse_vertices(properties)
    } else if name_is(&name, "Normals") {
        parse_normals(properties)
    } else if name_is(&name, "PolygonVertexIndex") {
        parse_indices(properties)
    } else if name_is(&name, "UV") {
        parse_uv(properties)
    } else if name_is(&name, "UVIndex") {
        parse_uvindex(properties)
    } else if name_is(&name, "Objects") {
        Ok(FbxNode::leaf(NodeType::Objects, Vec::new()))
    } else if name_is(&name, "Geometry") {
        Ok(FbxNode::leaf(NodeType::Geometry, Vec::new()))
    } else if name_is(&name, "Definitions") {
        Ok(FbxNode::leaf(NodeType::Definitions, Vec::new()))
    } else if name_is(&name, "LayerElementNormal") {
        Ok(FbxNode::leaf(NodeType::LayerElementNormal, Vec::new()))
    } else if name_is(&name, "LayerElementUV") {
        Ok(FbxNode::leaf(NodeType::LayerElementUV, Vec::new()))
    } else {
        Ok(FbxNode::leaf(NodeType::Other(name), properties))
    }
}

} // verus!
