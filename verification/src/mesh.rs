//! Renderable mesh data, and its assembly from an interchange tree.
//!
//! The tree holds positions, texture coordinates and polygon indices as
//! separate streams, each with an index space of its own. Assembly resolves
//! them into one vertex per face corner, so that the draw indices are simply
//! `0, 1, 2, …`: a position shared by several faces is stored once per
//! corner.

use crate::error::LoadError;
use crate::fbx::find::corner_positions;
use crate::fbx::find::corner_texcoords;
use crate::fbx::find::gather;
use crate::fbx::node::FbxNode;
use crate::fbx::node::FbxNodeView;
use crate::math::Vector2;
use crate::math::Vector3;
use vstd::prelude::*;

verus! {

/// What the faces of a mesh are. One kind holds for the whole mesh.
#[derive(Clone, Copy, Debug, PartialEq, Eq, Hash, Structural)]
pub enum GeometryKind {
    Triangles,
    Quads,
}

impl GeometryKind {
    /// How many draw indices make one face.
    pub open spec fn arity(self) -> int {
        match self {
            GeometryKind::Triangles => 3,
            GeometryKind::Quads => 4,
        }
    }

    /// How many draw indices make one face.
    pub fn corners(&self) -> (n: usize)
        ensures
            n == self.arity(),
    {
        match self {
            GeometryKind::Triangles => 3,
            GeometryKind::Quads => 4,
        }
    }
}

/// One entry of the vertex buffer.
#[derive(Clone, Copy, Debug, PartialEq, Eq)]
pub struct Vertex {
    pub position: Vector3,
    pub normal: Option<Vector3>,
    /// The texture coordinate as the tree stores it, with `y` measured from
    /// the bottom edge. A renderer that measures from the top uses `1 - y`.
    pub uv: Option<Vector2>,
}

/// A vertex buffer, the draw indices into it, and the kind of face that
/// consecutive draw indices make.
#[derive(Debug, PartialEq, Eq)]
pub struct AssembledMesh {
    pub vertices: Vec<Vertex>,
    pub indices: Vec<u32>,
    pub kind: GeometryKind,
}

/// The model of an [`AssembledMesh`].
pub struct AssembledMeshView {
    pub vertices: Seq<Vertex>,
    pub indices: Seq<u32>,
    pub kind: GeometryKind,
}

impl View for AssembledMesh {
    type V = AssembledMeshView;

    open spec fn view(&self) -> AssembledMeshView {
        AssembledMeshView { vertices: self.vertices@, indices: self.indices@, kind: self.kind }
    }
}

impl AssembledMeshView {
    /// The draw indices make whole faces, and each points at a vertex.
    pub open spec fn well_formed(self) -> bool {
        &&& self.indices.len() % (self.kind.arity() as nat) == 0
        &&& forall|i: int|
            0 <= i < self.indices.len() ==> (#[trigger] self.indices[i]) < self.vertices.len()
    }
}

/// The model of a list that may be absent.
pub open spec fn optional_view<T>(list: Option<Vec<T>>) -> Option<Seq<T>> {
    match list {
        Some(elements) => Some(elements@),
        None => None,
    }
}

/// The element at `i`, where the list reaches that far.
pub open spec fn item_at<T>(list: Seq<T>, i: int) -> Option<T> {
    if 0 <= i < list.len() {
        Some(list[i])
    } else {
        None
    }
}

/// The element at `i`, where there is a list and it reaches that far.
pub open spec fn element_at<T>(list: Option<Seq<T>>, i: int) -> Option<T> {
    match list {
        Some(elements) => item_at(elements, i),
        None => None,
    }
}

/// One vertex per position, each with the normal and the texture coordinate
/// that stand at the same place in their lists. A vertex beyond the end of
/// a list goes without.
pub open spec fn zipped(
    positions: Seq<Vector3>,
    normals: Option<Seq<Vector3>>,
    texcoords: Seq<Vector2>,
) -> Seq<Vertex> {
    Seq::new(
        positions.len(),
        |i: int|
            Vertex {
                position: positions[i],
                normal: element_at(normals, i),
                uv: item_at(texcoords, i),
            },
    )
}

/// The draw indices `0, 1, …, count - 1`.
pub open spec fn identity_indices(count: nat) -> Seq<u32> {
    Seq::new(count, |i: int| i as u32)
}

/// The normals for the face corners: none unless asked for; the payload of
/// the first `Normals` node where asked for, which must then be in the tree.
///
/// This is a decision, and it is meant: normals are found by a search of
/// their own, for a `Normals` node. The search for positions is not reused
/// for them, so a caller never gets the corner positions handed out in the
/// place of normals, and one who counted on that will see other lighting.
/// No index stream is resolved for normals either: the normal of a corner
/// is the one that stands at the corner's own place in the list.
pub open spec fn requested_normals(tree: FbxNodeView, with_normals: bool) -> Result<
    Option<Seq<Vector3>>,
    LoadError,
> {
    if !with_normals {
        Ok(None)
    } else {
        match tree.normals() {
            Some(normals) => Ok(Some(normals)),
            None => Err(LoadError::MissingRequiredNode),
        }
    }
}

/// The face kind of the first `PolygonVertexIndex` node in pre-order.
pub open spec fn face_kind(tree: FbxNodeView) -> GeometryKind
    recommends
        tree.polygon_indices() is Some,
{
    match tree.polygon_indices() {
        Some((kind, _)) => kind,
        None => GeometryKind::Triangles,
    }
}

/// The decoded index block of the first `PolygonVertexIndex` node in
/// pre-order.
pub open spec fn index_block(tree: FbxNodeView) -> Seq<i32>
    recommends
        tree.polygon_indices() is Some,
{
    match tree.polygon_indices() {
        Some((_, indices)) => indices,
        None => Seq::empty(),
    }
}

/// The mesh that a tree assembles to.
///
/// The checks come in this order, and the first that fails decides the
/// error: the `Vertices` and `PolygonVertexIndex` nodes are there; every
/// polygon index points at a position; the corners make whole faces; their
/// number fits a 32-bit draw index; every texture index points at a
/// coordinate; the `Normals` node is there if normals are asked for.
///
/// A tree without a `UVIndex` or a `UV` node is no failure: its vertices go
/// without texture coordinates. Normals are taken from the `Normals` node
/// and from nowhere else (see [`requested_normals`]).
pub open spec fn assembled(tree: FbxNodeView, with_normals: bool) -> Result<
    AssembledMeshView,
    LoadError,
> {
    match corner_positions(tree) {
        Err(e) => Err(e),
        Ok(positions) => {
            let kind = face_kind(tree);
            if positions.len() % (kind.arity() as nat) != 0 {
                Err(LoadError::MalformedStream)
            } else if positions.len() > u32::MAX {
                Err(LoadError::IndexOutOfRange)
            } else {
                match corner_texcoords(tree) {
                    Err(e) => Err(e),
                    Ok(texcoords) => match requested_normals(tree, with_normals) {
                        Err(e) => Err(e),
                        Ok(normals) => Ok(
                            AssembledMeshView {
                                vertices: zipped(positions, normals, texcoords),
                                indices: identity_indices(positions.len()),
                                kind,
                            },
                        ),
                    },
                }
            }
        },
    }
}

/// A tree without a `PolygonVertexIndex` node assembles to no mesh.
pub proof fn lemma_missing_indices_fail(tree: FbxNodeView, with_normals: bool)
    requires
        tree.polygon_indices() is None,
    ensures
        assembled(tree, with_normals) == Err::<AssembledMeshView, LoadError>(
            LoadError::MissingRequiredNode,
        ),
{
}

/// A tree without a `Vertices` node assembles to no mesh.
pub proof fn lemma_missing_positions_fail(tree: FbxNodeView, with_normals: bool)
    requires
        tree.positions() is None,
    ensures
        assembled(tree, with_normals) == Err::<AssembledMeshView, LoadError>(
            LoadError::MissingRequiredNode,
        ),
{
}

/// An assembled mesh has one vertex per element of the decoded polygon
/// index block, at the position that the element selects, and its draw
/// indices count the vertices up.
pub proof fn lemma_vertices_expand_indices(tree: FbxNodeView, with_normals: bool)
    requires
        assembled(tree, with_normals) is Ok,
    ensures
        tree.polygon_indices() is Some,
        tree.positions() is Some,
        ({
            let mesh = assembled(tree, with_normals)->Ok_0;
            let indices = index_block(tree);
            let positions = tree.positions()->0;
            &&& mesh.kind == face_kind(tree)
            &&& mesh.vertices.len() == indices.len()
            &&& mesh.indices.len() == indices.len()
            &&& mesh.well_formed()
            &&& forall|i: int|
                0 <= i < indices.len() ==> 0 <= #[trigger] indices[i] < positions.len()
                    && mesh.vertices[i].position == positions[indices[i] as int]
                    && mesh.indices[i] == i
        }),
{
}

/// The lack of a `UVIndex` node or of a `UV` node fails no assembly: such a
/// tree assembles exactly when its positions, its faces and its normals
/// allow, and no vertex of its mesh carries a texture coordinate.
pub proof fn lemma_mesh_without_texcoords(tree: FbxNodeView, with_normals: bool)
    requires
        tree.uv_indices() is None || tree.uv() is None,
    ensures
        assembled(tree, with_normals) is Ok <==> (corner_positions(tree) matches Ok(positions)
            && positions.len() % (face_kind(tree).arity() as nat) == 0 && positions.len()
            <= u32::MAX && requested_normals(tree, with_normals) is Ok),
        assembled(tree, with_normals) matches Ok(mesh) ==> forall|i: int|
            0 <= i < mesh.vertices.len() ==> (#[trigger] mesh.vertices[i]).uv is None,
{
}

/// Where the tree has as many texture indices as polygon indices, every
/// vertex of the assembled mesh carries the coordinate that its texture
/// index selects.
pub proof fn lemma_uv_correspondence(tree: FbxNodeView, with_normals: bool)
    requires
        assembled(tree, with_normals) is Ok,
        tree.uv_indices() is Some,
        tree.uv() is Some,
        tree.uv_indices()->0.len() == index_block(tree).len(),
    ensures
        ({
            let mesh = assembled(tree, with_normals)->Ok_0;
            let uv_indices = tree.uv_indices()->0;
            let uv = tree.uv()->0;
            forall|i: int|
                0 <= i < mesh.vertices.len() ==> 0 <= #[trigger] uv_indices[i] < uv.len()
                    && mesh.vertices[i].uv == Some(uv[uv_indices[i] as int])
        }),
{
}

/// Assembles the mesh of a tree: one vertex per face corner, draw indices
/// that count the vertices up, and the face kind of the polygon index block.
/// Every vertex gets its texture coordinate where the tree resolves one, and
/// its normal where normals are asked for.
pub fn assemble_mesh(root: &FbxNode, with_normals: bool) -> (r: Result<AssembledMesh, LoadError>)
    ensures
        match assembled(root@, with_normals) {
            Ok(mesh) => r matches Ok(found) && found@ == mesh,
            Err(e) => r matches Err(failure) && failure == e,
        },
        r matches Ok(found) ==> found@.well_formed(),
{
    let source = match root.get_positions() {
        Some(source) => source,
        None => {
            return Err(LoadError::MissingRequiredNode);
        },
    };
    let (kind, polygon_indices) = match root.get_indices() {
        Some(found) => found,
        None => {
            return Err(LoadError::MissingRequiredNode);
        },
    };
    let positions = gather(&source, &polygon_indices)?;
    if positions.len() % kind.corners() != 0 {
        return Err(LoadError::MalformedStream);
    }
    if positions.len() > u32::MAX as usize {
        return Err(LoadError::IndexOutOfRange);
    }
    let texcoords = root.get_texcoords()?;
    let normals = if with_normals {
        match root.get_normals() {
            Some(normals) => Some(normals),
            None => {
                return Err(LoadError::MissingRequiredNode);
            },
        }
    } else {
        None
    };
    let ghost normal_model = optional_view(normals);
    let count = positions.len();
    let mut vertices: Vec<Vertex> = Vec::with_capacity(count);
    let mut indices: Vec<u32> = Vec::with_capacity(count);
    let mut i: usize = 0;
    while i < count
        invariant
            i <= count,
            count == positions@.len(),
            count <= u32::MAX,
            vertices@.len() == i,
            indices@.len() == i,
            normal_model == optional_view(normals),
            forall|j: int|
                0 <= j < i ==> vertices@[j] == zipped(positions@, normal_model, texcoords@)[j],
            forall|j: int| 0 <= j < i ==> indices@[j] == j,
        decreases count - i,
    {
        let normal = match &normals {
            Some(list) => if i < list.len() {
                Some(list[i])
            } else {
                None
            },
            None => None,
        };
        let uv = if i < texcoords.len() {
            Some(texcoords[i])
        } else {
            None
        };
        vertices.push(Vertex { position: positions[i], normal, uv });
        indices.push(i as u32);
        i += 1;
    }
    let mesh = AssembledMesh { vertices, indices, kind };
    proof {
        assert(mesh@.vertices =~= zipped(positions@, normal_model, texcoords@));
        assert(mesh@.indices =~= identity_indices(positions@.len()));
    }
    Ok(mesh)
}

} // verus!
