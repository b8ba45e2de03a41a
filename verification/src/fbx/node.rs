//! Nodes of the interchange tree and their mathematical model.

use crate::math::Vector2;
use crate::math::Vector3;
use crate::mesh::GeometryKind;
use fbx_direct::common::OwnedProperty;
use vstd::prelude::*;

verus! {

/// What a node is, with the payload of the kinds that carry geometry.
#[derive(Debug, PartialEq)]
pub enum NodeType {
    Root,
    Definitions,
    Objects,
    Geometry,
    LayerElementNormal,
    LayerElementUV,
    /// The face kind, and the position index of every face corner with the
    /// end-of-face marks already decoded.
    PolygonVertexIndex(GeometryKind, Vec<i32>),
    Vertices(Vec<Vector3>),
    Normals(Vec<Vector3>),
    /// Texture coordinates as stored, with `y` measured from the bottom
    /// edge. A renderer that measures from the top uses `1 - y`.
    UV(Vec<Vector2>),
    UVIndex(Vec<i32>),
    /// A node of a name that the library does not interpret.
    Other(String),
}

/// The model of a [`NodeType`]: the same variants over sequences.
pub enum NodeTypeView {
    Root,
    Definitions,
    Objects,
    Geometry,
    LayerElementNormal,
    LayerElementUV,
    PolygonVertexIndex(GeometryKind, Seq<i32>),
    Vertices(Seq<Vector3>),
    Normals(Seq<Vector3>),
    UV(Seq<Vector2>),
    UVIndex(Seq<i32>),
    Other(Seq<char>),
}

impl View for NodeType {
    type V = NodeTypeView;

    open spec fn view(&self) -> NodeTypeView {
        match *self {
            NodeType::Root => NodeTypeView::Root,
            NodeType::Definitions => NodeTypeView::Definitions,
            NodeType::Objects => NodeTypeView::Objects,
            NodeType::Geometry => NodeTypeView::Geometry,
            NodeType::LayerElementNormal => NodeTypeView::LayerElementNormal,
            NodeType::LayerElementUV => NodeTypeView::LayerElementUV,
            NodeType::PolygonVertexIndex(kind, indices) => NodeTypeView::PolygonVertexIndex(
                kind,
                indices@,
            ),
            NodeType::Vertices(positions) => NodeTypeView::Vertices(positions@),
            NodeType::Normals(normals) => NodeTypeView::Normals(normals@),
            NodeType::UV(coordinates) => NodeTypeView::UV(coordinates@),
            NodeType::UVIndex(indices) => NodeTypeView::UVIndex(indices@),
            NodeType::Other(name) => NodeTypeView::Other(name@),
        }
    }
}

/// One node of the tree. A node owns its children; nothing is shared.
#[derive(Debug)]
pub struct FbxNode {
    pub node_type: NodeType,
    /// The raw properties, kept on the nodes that the library does not
    /// convert into a typed payload.
    pub properties: Vec<OwnedProperty>,
    pub children: Vec<FbxNode>,
}

/// The model of an [`FbxNode`].
pub struct FbxNodeView {
    pub node_type: NodeTypeView,
    pub properties: Seq<OwnedProperty>,
    pub children: Seq<FbxNodeView>,
}

/// The models of a sequence of nodes, in the same order.
pub open spec fn forest_view(nodes: Seq<FbxNode>) -> Seq<FbxNodeView>
    decreases nodes,
{
    Seq::new(
        nodes.len(),
        |i: int|
            if 0 <= i < nodes.len() {
                node_view(nodes[i])
            } else {
                arbitrary()
            },
    )
}

/// The model of one node.
pub open spec fn node_view(node: FbxNode) -> FbxNodeView
    decreases node,
{
    FbxNodeView {
        node_type: node.node_type@,
        properties: node.properties@,
        children: forest_view(node.children@),
    }
}

impl FbxNodeView {
    /// The nodes of the tree in pre-order: the node itself, then the nodes
    /// of each child's tree, children taken left to right.
    pub open spec fn preorder(self) -> Seq<FbxNodeView>
        decreases self,
    {
        seq![self] + forest_preorder(self.children)
    }

    /// No node of the tree is an `Other` node.
    pub open spec fn free_of_others(self) -> bool {
        forall|i: int|
            0 <= i < self.preorder().len() ==> !((#[trigger] self.preorder()[i]).node_type is Other)
    }

    /// The tree with every `Other` node taken out, together with all that
    /// is below it. The node itself stays whatever it is.
    pub open spec fn without_others(self) -> FbxNodeView
        decreases self,
    {
        FbxNodeView {
            node_type: self.node_type,
            properties: self.properties,
            children: forest_without_others(self.children),
        }
    }

    /// The payload of the first `PolygonVertexIndex` node in pre-order.
    pub open spec fn polygon_indices(self) -> Option<(GeometryKind, Seq<i32>)> {
        first_some(self.preorder(), |node: FbxNodeView| node.node_type.as_polygon_indices())
    }

    /// The payload of the first `Vertices` node in pre-order.
    pub open spec fn positions(self) -> Option<Seq<Vector3>> {
        first_some(self.preorder(), |node: FbxNodeView| node.node_type.as_positions())
    }

    /// The payload of the first `Normals` node in pre-order.
    pub open spec fn normals(self) -> Option<Seq<Vector3>> {
        first_some(self.preorder(), |node: FbxNodeView| node.node_type.as_normals())
    }

    /// The payload of the first `UV` node in pre-order.
    pub open spec fn uv(self) -> Option<Seq<Vector2>> {
        first_some(self.preorder(), |node: FbxNodeView| node.node_type.as_uv())
    }

    /// The payload of the first `UVIndex` node in pre-order.
    pub open spec fn uv_indices(self) -> Option<Seq<i32>> {
        first_some(self.preorder(), |node: FbxNodeView| node.node_type.as_uv_indices())
    }
}

impl NodeTypeView {
    /// The payload, if this is a `PolygonVertexIndex`.
    pub open spec fn as_polygon_indices(self) -> Option<(GeometryKind, Seq<i32>)> {
        match self {
            NodeTypeView::PolygonVertexIndex(kind, indices) => Some((kind, indices)),
            _ => None,
        }
    }

    /// The payload, if this is a `Vertices`.
    pub open spec fn as_positions(self) -> Option<Seq<Vector3>> {
        match self {
            NodeTypeView::Vertices(positions) => Some(positions),
            _ => None,
        }
    }

    /// The payload, if this is a `Normals`.
    pub open spec fn as_normals(self) -> Option<Seq<Vector3>> {
        match self {
            NodeTypeView::Normals(normals) => Some(normals),
            _ => None,
        }
    }

    /// The payload, if this is a `UV`.
    pub open spec fn as_uv(self) -> Option<Seq<Vector2>> {
        match self {
            NodeTypeView::UV(coordinates) => Some(coordinates),
            _ => None,
        }
    }

    /// The payload, if this is a `UVIndex`.
    pub open spec fn as_uv_indices(self) -> Option<Seq<i32>> {
        match self {
            NodeTypeView::UVIndex(indices) => Some(indices),
            _ => None,
        }
    }
}

/// The nodes of several trees in pre-order, one tree after the other.
pub open spec fn forest_preorder(nodes: Seq<FbxNodeView>) -> Seq<FbxNodeView>
    decreases nodes,
{
    if nodes.len() == 0 {
        Seq::empty()
    } else {
        forest_preorder(nodes.drop_last()) + nodes.last().preorder()
    }
}

/// The trees with every `Other` node taken out, at the top and below.
pub open spec fn forest_without_others(nodes: Seq<FbxNodeView>) -> Seq<FbxNodeView>
    decreases nodes,
{
    if nodes.len() == 0 {
        Seq::empty()
    } else if nodes.last().node_type is Other {
        forest_without_others(nodes.drop_last())
    } else {
        forest_without_others(nodes.drop_last()).push(nodes.last().without_others())
    }
}

/// Taking the `Other` nodes out of trees in a row is taking them out of
/// each.
pub proof fn lemma_forest_without_others_concat(a: Seq<FbxNodeView>, b: Seq<FbxNodeView>)
    ensures
        forest_without_others(a + b) == forest_without_others(a) + forest_without_others(b),
    decreases b.len(),
{
    if b.len() == 0 {
        assert(a + b =~= a);
        assert(forest_without_others(a) + forest_without_others(b) =~= forest_without_others(a));
    } else {
        lemma_forest_without_others_concat(a, b.drop_last());
        assert((a + b).drop_last() =~= a + b.drop_last());
        assert((a + b).last() == b.last());
        assert(forest_without_others(a + b) =~= forest_without_others(a) + forest_without_others(
            b,
        ));
    }
}

/// The pre-order of trees in a row is the row of their pre-orders.
pub proof fn lemma_forest_preorder_concat(a: Seq<FbxNodeView>, b: Seq<FbxNodeView>)
    ensures
        forest_preorder(a + b) == forest_preorder(a) + forest_preorder(b),
    decreases b.len(),
{
    if b.len() == 0 {
        assert(a + b =~= a);
        assert(forest_preorder(a) + forest_preorder(b) =~= forest_preorder(a));
    } else {
        lemma_forest_preorder_concat(a, b.drop_last());
        assert((a + b).drop_last() =~= a + b.drop_last());
        assert((a + b).last() == b.last());
        assert(forest_preorder(a + b) =~= forest_preorder(a) + forest_preorder(b));
    }
}

/// The pre-order of a single tree, taken as a forest.
pub proof fn lemma_forest_preorder_single(node: FbxNodeView)
    ensures
        forest_preorder(seq![node]) == node.preorder(),
{
    assert(seq![node].drop_last() =~= Seq::<FbxNodeView>::empty());
    assert(seq![node].last() == node);
    assert(forest_preorder(Seq::<FbxNodeView>::empty()) =~= Seq::<FbxNodeView>::empty());
    assert(forest_preorder(seq![node]) =~= node.preorder());
}

/// What `pick` makes of the first node that it makes anything of.
pub open spec fn first_some<T>(
    nodes: Seq<FbxNodeView>,
    pick: spec_fn(FbxNodeView) -> Option<T>,
) -> Option<T>
    decreases nodes.len(),
{
    if nodes.len() == 0 {
        None
    } else if pick(nodes[0]) is Some {
        pick(nodes[0])
    } else {
        first_some(nodes.skip(1), pick)
    }
}

impl View for FbxNode {
    type V = FbxNodeView;

    open spec fn view(&self) -> FbxNodeView {
        node_view(*self)
    }
}

} // verus!
