//! Depth-first search in a tree.

use crate::error::LoadError;
use crate::fbx::node::first_some;
use crate::fbx::node::forest_preorder;
use crate::fbx::node::forest_view;
use crate::fbx::node::FbxNode;
use crate::fbx::node::FbxNodeView;
use crate::fbx::node::NodeType;
use crate::math::Vector2;
use crate::math::Vector3;
use crate::mesh::GeometryKind;
use vstd::prelude::*;

verus! {

/// The nodes that a search visits, in the order of the visits: the node
/// itself, then those of each child's tree, children taken left to right.
/// Their models are the model's [`FbxNodeView::preorder`].
pub open spec fn visited(node: FbxNode) -> Seq<FbxNode>
    decreases node,
{
    seq![node] + forest_visited(node.children@)
}

/// The nodes that a search of several trees visits, one tree after the
/// other.
pub open spec fn forest_visited(nodes: Seq<FbxNode>) -> Seq<FbxNode>
    decreases nodes,
{
    if nodes.len() == 0 {
        Seq::empty()
    } else {
        forest_visited(nodes.drop_last()) + visited(nodes.last())
    }
}

/// Whether `answer` is what asking the nodes one after the other can end in:
/// the first `Some` that `ask` gives, or `None` once every node has been
/// asked and none gave one.
pub open spec fn first_answer<T, F: Fn(&FbxNode) -> Option<T>>(
    ask: &F,
    nodes: Seq<FbxNode>,
    answer: Option<T>,
) -> bool {
    match answer {
        Some(_) => exists|i: int|
            0 <= i < nodes.len() && call_ensures(ask, (&nodes[i],), answer) && forall|j: int|
                0 <= j < i ==> call_ensures(ask, (&#[trigger] nodes[j],), None::<T>),
        None => forall|j: int|
            0 <= j < nodes.len() ==> call_ensures(ask, (&#[trigger] nodes[j],), None::<T>),
    }
}

/// Whether `ask` may be called on every one of the nodes.
pub open spec fn can_ask<T, F: Fn(&FbxNode) -> Option<T>>(ask: &F, nodes: Seq<FbxNode>) -> bool {
    forall|i: int| 0 <= i < nodes.len() ==> call_requires(ask, (&#[trigger] nodes[i],))
}

impl FbxNode {
    /// Asks `find_fn` about this node, then about the nodes below it in
    /// pre-order, and returns the first `Some` it gives. `find_fn` is only
    /// ever called on nodes of this tree.
    pub fn find_node<T, F>(&self, find_fn: &F) -> (r: Option<T>) where
        F: Fn(&FbxNode) -> Option<T>,

        requires
            can_ask(find_fn, visited(*self)),
        ensures
            first_answer(find_fn, visited(*self), r),
        decreases *self,
    {
        proof {
            assert(visited(*self)[0] == *self);
        }
        match find_fn(self) {
            Some(value) => {
                return Some(value);
            },
            None => {},
        }
        let mut k: usize = 0;
        while k < self.children.len()
            invariant
                k <= self.children.len(),
                can_ask(find_fn, visited(*self)),
                call_ensures(find_fn, (self,), None::<T>),
                first_answer(
                    find_fn,
                    forest_visited(self.children@.take(k as int)),
                    None::<T>,
                ),
            decreases self.children.len() - k,
        {
            let ghost all = visited(*self);
            let ghost whole = forest_visited(self.children@);
            let ghost before = forest_visited(self.children@.take(k as int));
            let ghost below = visited(self.children@[k as int]);
            let ghost part = before + below;
            proof {
                assert(self.children@.take(k + 1).drop_last() =~= self.children@.take(k as int));
                assert(forest_visited(self.children@.take(k + 1)) == part);
                lemma_forest_visited_prefix(self.children@, k as int + 1);
                assert(part == whole.take(part.len() as int));
                assert forall|j: int| 0 <= j < part.len() implies all[1 + j] == part[j] by {
                    assert(whole.take(part.len() as int)[j] == whole[j]);
                    assert(all[1 + j] == whole[j]);
                }
                assert forall|i: int| 0 <= i < below.len() implies call_requires(
                    find_fn,
                    (&#[trigger] below[i],),
                ) by {
                    assert(part[before.len() + i] == below[i]);
                    assert(all[1 + before.len() + i] == below[i]);
                }
            }
            let found = self.children[k].find_node(find_fn);
            if found.is_some() {
                proof {
                    let i = choose|i: int|
                        0 <= i < below.len() && call_ensures(find_fn, (&below[i],), found)
                            && forall|j: int|
                            0 <= j < i ==> call_ensures(
                                find_fn,
                                (&#[trigger] below[j],),
                                None::<T>,
                            );
                    let at = 1 + before.len() + i;
                    assert(part[before.len() + i] == below[i]);
                    assert(all[at] == below[i]);
                    assert forall|j: int| 0 <= j < at implies call_ensures(
                        find_fn,
                        (&#[trigger] all[j],),
                        None::<T>,
                    ) by {
                        if j == 0 {
                            assert(all[0] == *self);
                        } else if j < 1 + before.len() {
                            assert(all[j] == part[j - 1]);
                            assert(part[j - 1] == before[j - 1]);
                        } else {
                            assert(all[j] == part[j - 1]);
                            assert(part[j - 1] == below[j - 1 - before.len()]);
                        }
                    }
                }
                return found;
            }
            k += 1;
        }
        proof {
            assert(self.children@.take(k as int) =~= self.children@);
            let all = visited(*self);
            let below = forest_visited(self.children@);
            assert forall|j: int| 0 <= j < all.len() implies call_ensures(
                find_fn,
                (&#[trigger] all[j],),
                None::<T>,
            ) by {
                if j > 0 {
                    assert(all[j] == below[j - 1]);
                } else {
                    assert(all[0] == *self);
                }
            }
        }
        None
    }
}

/// What selecting from `source` by each of `indices` gives: the selected
/// elements in the order of the indices, or a refusal where an index is
/// negative or reaches past the end of `source`.
pub open spec fn gathered<T>(source: Seq<T>, indices: Seq<i32>) -> Result<Seq<T>, LoadError> {
    if forall|i: int| 0 <= i < indices.len() ==> 0 <= #[trigger] indices[i] < source.len() {
        Ok(Seq::new(indices.len(), |i: int| source[indices[i] as int]))
    } else {
        Err(LoadError::IndexOutOfRange)
    }
}

/// The position of every face corner: the first `Vertices` payload selected
/// by the first `PolygonVertexIndex` payload.
pub open spec fn corner_positions(tree: FbxNodeView) -> Result<Seq<Vector3>, LoadError> {
    match tree.positions() {
        None => Err(LoadError::MissingRequiredNode),
        Some(positions) => match tree.polygon_indices() {
            None => Err(LoadError::MissingRequiredNode),
            Some((_, indices)) => gathered(positions, indices),
        },
    }
}

/// The texture coordinates of the face corners: the first `UV` payload
/// selected by the first `UVIndex` payload. A tree that lacks either node
/// has no texture coordinates, which is no failure: the list is empty.
pub open spec fn corner_texcoords(tree: FbxNodeView) -> Result<Seq<Vector2>, LoadError> {
    match tree.uv_indices() {
        None => Ok(Seq::empty()),
        Some(indices) => match tree.uv() {
            None => Ok(Seq::empty()),
            Some(coordinates) => gathered(coordinates, indices),
        },
    }
}

/// A tree without a `UVIndex` node or without a `UV` node has an empty list
/// of texture coordinates; with both, the list fails only on an index that
/// points outside the coordinates.
pub proof fn lemma_texcoords_fall_back_to_empty(tree: FbxNodeView)
    ensures
        tree.uv_indices() is None || tree.uv() is None ==> corner_texcoords(tree) == Ok::<
            Seq<Vector2>,
            LoadError,
        >(Seq::empty()),
        corner_texcoords(tree) matches Err(e) ==> e == LoadError::IndexOutOfRange,
        corner_texcoords(tree) is Err ==> tree.uv_indices() is Some && tree.uv() is Some,
{
}

/// Selects from `source` by each of `indices`, in their order. Refuses an
/// index that is negative or reaches past the end of `source`.
pub fn gather<T: Copy>(source: &Vec<T>, indices: &Vec<i32>) -> (r: Result<Vec<T>, LoadError>)
    ensures
        match gathered(source@, indices@) {
            Ok(selected) => r matches Ok(v) && v@ == selected,
            Err(e) => r matches Err(failure) && failure == e,
        },
{
    let mut selected: Vec<T> = Vec::with_capacity(indices.len());
    let mut k: usize = 0;
    while k < indices.len()
        invariant
            k <= indices.len(),
            selected@.len() == k,
            forall|i: int| 0 <= i < k ==> 0 <= #[trigger] indices@[i] < source@.len(),
            forall|i: int| 0 <= i < k ==> selected@[i] == source@[indices@[i] as int],
        decreases indices.len() - k,
    {
        let index = indices[k];
        if index < 0 || index as usize >= source.len() {
            return Err(LoadError::IndexOutOfRange);
        }
        selected.push(source[index as usize]);
        k += 1;
    }
    assert(selected@ =~= Seq::new(indices@.len(), |i: int| source@[indices@[i] as int]));
    Ok(selected)
}

impl FbxNode {
    /// The face kind and the decoded index block of the first
    /// `PolygonVertexIndex` node in pre-order.
    pub fn get_indices(&self) -> (r: Option<(GeometryKind, Vec<i32>)>)
        ensures
            match self@.polygon_indices() {
                Some((kind, indices)) => r matches Some(found) && found.0 == kind && found.1@
                    == indices,
                None => r is None,
            },
    {
        let ask = |node: &FbxNode| -> (out: Option<(GeometryKind, Vec<i32>)>)
            ensures
                match node@.node_type.as_polygon_indices() {
                    Some((kind, indices)) => out matches Some(found) && found.0 == kind
                        && found.1@ == indices,
                    None => out is None,
                },
            {
                match &node.node_type {
                    NodeType::PolygonVertexIndex(kind, indices) => Some((*kind, indices.clone())),
                    _ => None,
                }
            };
        let r = self.find_node(&ask);
        proof {
            lemma_visited_models(*self);
            lemma_search_outcome(
                &ask,
                visited(*self),
                self@.preorder(),
                r,
                |node: FbxNodeView| node.node_type.as_polygon_indices(),
                |found: (GeometryKind, Vec<i32>), model: (GeometryKind, Seq<i32>)|
                    found.0 == model.0 && found.1@ == model.1,
            );
        }
        r
    }

    /// The payload of the first `Vertices` node in pre-order.
    pub fn get_positions(&self) -> (r: Option<Vec<Vector3>>)
        ensures
            match self@.positions() {
                Some(positions) => r matches Some(found) && found@ == positions,
                None => r is None,
            },
    {
        let ask = |node: &FbxNode| -> (out: Option<Vec<Vector3>>)
            ensures
                match node@.node_type.as_positions() {
                    Some(positions) => out matches Some(found) && found@ == positions,
                    None => out is None,
                },
            {
                match &node.node_type {
                    NodeType::Vertices(positions) => Some(positions.clone()),
                    _ => None,
                }
            };
        let r = self.find_node(&ask);
        proof {
            lemma_visited_models(*self);
            lemma_search_outcome(
                &ask,
                visited(*self),
                self@.preorder(),
                r,
                |node: FbxNodeView| node.node_type.as_positions(),
                |found: Vec<Vector3>, model: Seq<Vector3>| found@ == model,
            );
        }
        r
    }

    /// The payload of the first `Normals` node in pre-order.
    pub fn get_normals(&self) -> (r: Option<Vec<Vector3>>)
        ensures
            match self@.normals() {
                Some(normals) => r matches Some(found) && found@ == normals,
                None => r is None,
            },
    {
        let ask = |node: &FbxNode| -> (out: Option<Vec<Vector3>>)
            ensures
                match node@.node_type.as_normals() {
                    Some(normals) => out matches Some(found) && found@ == normals,
                    None => out is None,
                },
            {
                match &node.node_type {
                    NodeType::Normals(normals) => Some(normals.clone()),
                    _ => None,
                }
            };
        let r = self.find_node(&ask);
        proof {
            lemma_visited_models(*self);
            lemma_search_outcome(
                &ask,
                visited(*self),
                self@.preorder(),
                r,
                |node: FbxNodeView| node.node_type.as_normals(),
                |found: Vec<Vector3>, model: Seq<Vector3>| found@ == model,
            );
        }
        r
    }

    /// The payload of the first `UV` node in pre-order.
    pub fn get_uv(&self) -> (r: Option<Vec<Vector2>>)
        ensures
            match self@.uv() {
                Some(coordinates) => r matches Some(found) && found@ == coordinates,
                None => r is None,
            },
    {
        let ask = |node: &FbxNode| -> (out: Option<Vec<Vector2>>)
            ensures
                match node@.node_type.as_uv() {
                    Some(coordinates) => out matches Some(found) && found@ == coordinates,
                    None => out is None,
                },
            {
                match &node.node_type {
                    NodeType::UV(coordinates) => Some(coordinates.clone()),
                    _ => None,
                }
            };
        let r = self.find_node(&ask);
        proof {
            lemma_visited_models(*self);
            lemma_search_outcome(
                &ask,
                visited(*self),
                self@.preorder(),
                r,
                |node: FbxNodeView| node.node_type.as_uv(),
                |found: Vec<Vector2>, model: Seq<Vector2>| found@ == model,
            );
        }
        r
    }

    /// The payload of the first `UVIndex` node in pre-order.
    pub fn get_uv_indices(&self) -> (r: Option<Vec<i32>>)
        ensures
            match self@.uv_indices() {
                Some(indices) => r matches Some(found) && found@ == indices,
                None => r is None,
            },
    {
        let ask = |node: &FbxNode| -> (out: Option<Vec<i32>>)
            ensures
                match node@.node_type.as_uv_indices() {
                    Some(indices) => out matches Some(found) && found@ == indices,
                    None => out is None,
                },
            {
                match &node.node_type {
                    NodeType::UVIndex(indices) => Some(indices.clone()),
                    _ => None,
                }
            };
        let r = self.find_node(&ask);
        proof {
            lemma_visited_models(*self);
            lemma_search_outcome(
                &ask,
                visited(*self),
                self@.preorder(),
                r,
                |node: FbxNodeView| node.node_type.as_uv_indices(),
                |found: Vec<i32>, model: Seq<i32>| found@ == model,
            );
        }
        r
    }

    /// The position of every face corner: the first `Vertices` payload
    /// selected by the first `PolygonVertexIndex` payload. Both nodes must
    /// be in the tree, and every index must point into the positions.
    pub fn get_vertices(&self) -> (r: Result<Vec<Vector3>, LoadError>)
        ensures
            match corner_positions(self@) {
                Ok(corners) => r matches Ok(found) && found@ == corners,
                Err(e) => r matches Err(failure) && failure == e,
            },
    {
        let positions = match self.get_positions() {
            Some(positions) => positions,
            None => {
                return Err(LoadError::MissingRequiredNode);
            },
        };
        let (_, indices) = match self.get_indices() {
            Some(found) => found,
            None => {
                return Err(LoadError::MissingRequiredNode);
            },
        };
        gather(&positions, &indices)
    }

    /// The texture coordinate of every face corner: the first `UV` payload
    /// selected by the first `UVIndex` payload. Where the tree lacks either
    /// node the list is empty; that is the one case in which a load goes on
    /// without data. With both nodes there, every index must point into the
    /// coordinates.
    pub fn get_texcoords(&self) -> (r: Result<Vec<Vector2>, LoadError>)
        ensures
            match corner_texcoords(self@) {
                Ok(corners) => r matches Ok(found) && found@ == corners,
                Err(e) => r matches Err(failure) && failure == e,
            },
            self@.uv_indices() is None || self@.uv() is None ==> (r matches Ok(found)
                && found@.len() == 0),
    {
        let indices = match self.get_uv_indices() {
            Some(indices) => indices,
            None => {
                return Ok(Vec::new());
            },
        };
        let coordinates = match self.get_uv() {
            Some(coordinates) => coordinates,
            None => {
                return Ok(Vec::new());
            },
        };
        gather(&coordinates, &indices)
    }
}

/// The pre-order of the first `k` trees is a prefix of the pre-order of all.
pub proof fn lemma_forest_visited_prefix(nodes: Seq<FbxNode>, k: int)
    requires
        0 <= k <= nodes.len(),
    ensures
        forest_visited(nodes.take(k)).len() <= forest_visited(nodes).len(),
        forest_visited(nodes.take(k)) == forest_visited(nodes).take(
            forest_visited(nodes.take(k)).len() as int,
        ),
    decreases nodes.len(),
{
    if k == nodes.len() {
        assert(nodes.take(k) =~= nodes);
        assert(forest_visited(nodes).take(forest_visited(nodes).len() as int) =~= forest_visited(
            nodes,
        ));
    } else {
        lemma_forest_visited_prefix(nodes.drop_last(), k);
        assert(nodes.drop_last().take(k) =~= nodes.take(k));
        let shorter = forest_visited(nodes.drop_last());
        let part = forest_visited(nodes.take(k));
        assert(forest_visited(nodes) == shorter + visited(nodes.last()));
        assert(part =~= forest_visited(nodes).take(part.len() as int));
    }
}

/// The models of the nodes that a search visits are the pre-order of the
/// tree's model.
pub proof fn lemma_visited_models(node: FbxNode)
    ensures
        visited(node).len() == node@.preorder().len(),
        forall|i: int|
            0 <= i < visited(node).len() ==> (#[trigger] visited(node)[i])@
                == node@.preorder()[i],
    decreases node,
{
    lemma_forest_visited_models(node.children@);
}

/// The same for several trees.
pub proof fn lemma_forest_visited_models(nodes: Seq<FbxNode>)
    ensures
        forest_visited(nodes).len() == forest_preorder(forest_view(nodes)).len(),
        forall|i: int|
            0 <= i < forest_visited(nodes).len() ==> (#[trigger] forest_visited(nodes)[i])@
                == forest_preorder(forest_view(nodes))[i],
    decreases nodes,
{
    if nodes.len() > 0 {
        lemma_forest_visited_models(nodes.drop_last());
        lemma_visited_models(nodes.last());
        assert(forest_view(nodes).drop_last() =~= forest_view(nodes.drop_last()));
        assert(forest_view(nodes).last() == nodes.last()@);
    }
}

/// Where a search function answers, for every node, with what `pick` makes
/// of the node's model (up to `same`), the outcome of the search is what
/// `pick` makes of the first node in pre-order that it makes anything of.
pub proof fn lemma_search_outcome<T, U, F: Fn(&FbxNode) -> Option<T>>(
    ask: &F,
    nodes: Seq<FbxNode>,
    models: Seq<FbxNodeView>,
    answer: Option<T>,
    pick: spec_fn(FbxNodeView) -> Option<U>,
    same: spec_fn(T, U) -> bool,
)
    requires
        first_answer(ask, nodes, answer),
        nodes.len() == models.len(),
        forall|i: int| 0 <= i < nodes.len() ==> (#[trigger] nodes[i])@ == models[i],
        forall|node: &FbxNode, out: Option<T>| #[trigger]
            call_ensures(ask, (node,), out) ==> match pick(node@) {
                Some(u) => out matches Some(t) && same(t, u),
                None => out is None,
            },
    ensures
        match first_some(models, pick) {
            Some(u) => answer matches Some(t) && same(t, u),
            None => answer is None,
        },
    decreases nodes.len(),
{
    if nodes.len() > 0 {
        let head = &nodes[0];
        if pick(models[0]) is Some {
            if answer is None {
                assert(call_ensures(ask, (head,), None::<T>));
            } else {
                let i = choose|i: int|
                    0 <= i < nodes.len() && call_ensures(ask, (&nodes[i],), answer) && forall|j: int|
                        0 <= j < i ==> call_ensures(ask, (&#[trigger] nodes[j],), None::<T>);
                if i > 0 {
                    assert(call_ensures(ask, (head,), None::<T>));
                }
            }
        } else {
            let tail = nodes.skip(1);
            match answer {
                Some(_) => {
                    let i = choose|i: int|
                        0 <= i < nodes.len() && call_ensures(ask, (&nodes[i],), answer)
                            && forall|j: int|
                            0 <= j < i ==> call_ensures(ask, (&#[trigger] nodes[j],), None::<T>);
                    assert(i > 0);
                    assert(tail[i - 1] == nodes[i]);
                    assert forall|j: int| 0 <= j < i - 1 implies call_ensures(
                        ask,
                        (&#[trigger] tail[j],),
                        None::<T>,
                    ) by {
                        assert(tail[j] == nodes[j + 1]);
                    }
                },
                None => {
                    assert forall|j: int| 0 <= j < tail.len() implies call_ensures(
                        ask,
                        (&#[trigger] tail[j],),
                        None::<T>,
                    ) by {
                        assert(tail[j] == nodes[j + 1]);
                    }
                },
            }
            assert forall|i: int| 0 <= i < tail.len() implies (#[trigger] tail[i])@ == models.skip(
                1,
            )[i] by {
                assert(tail[i] == nodes[i + 1]);
            }
            lemma_search_outcome(ask, tail, models.skip(1), answer, pick, same);
        }
    }
}

} // verus!
