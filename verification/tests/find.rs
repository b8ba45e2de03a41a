use scene_assets::error::LoadError;
use scene_assets::fbx::find::gather;
use scene_assets::fbx::node::FbxNode;
use scene_assets::fbx::node::NodeType;
use scene_assets::math::Scalar;
use scene_assets::math::Vector2;
use scene_assets::math::Vector3;
use scene_assets::mesh::GeometryKind;

fn v3(x: f32, y: f32, z: f32) -> Vector3 {
    Vector3 {
        x: Scalar::from_bits(x.to_bits()),
        y: Scalar::from_bits(y.to_bits()),
        z: Scalar::from_bits(z.to_bits()),
    }
}

fn v2(x: f32, y: f32) -> Vector2 {
    Vector2 { x: Scalar::from_bits(x.to_bits()), y: Scalar::from_bits(y.to_bits()) }
}

fn node(node_type: NodeType, children: Vec<FbxNode>) -> FbxNode {
    FbxNode { node_type, properties: Vec::new(), children }
}

fn leaf(node_type: NodeType) -> FbxNode {
    node(node_type, Vec::new())
}

/// ```text
/// Root
///   Definitions
///     UVIndex [9]
///   Objects
///     Geometry
///       Vertices [a b c d]
///       PolygonVertexIndex Quads [3 2 1 0]
///       LayerElementUV
///         UV [p q]
///         UVIndex [1 0 0 1]
///     Geometry
///       Vertices [z]
///       PolygonVertexIndex Triangles [0 0 0]
/// ```
fn sample() -> FbxNode {
    node(
        NodeType::Root,
        vec![
            node(NodeType::Definitions, vec![leaf(NodeType::UVIndex(vec![9]))]),
            node(
                NodeType::Objects,
                vec![
                    node(
                        NodeType::Geometry,
                        vec![
                            leaf(NodeType::Vertices(vec![
                                v3(0.0, 0.0, 0.0),
                                v3(1.0, 0.0, 0.0),
                                v3(1.0, 1.0, 0.0),
                                v3(0.0, 1.0, 0.0),
                            ])),
                            leaf(NodeType::PolygonVertexIndex(
                                GeometryKind::Quads,
                                vec![3, 2, 1, 0],
                            )),
                            node(
                                NodeType::LayerElementUV,
                                vec![
                                    leaf(NodeType::UV(vec![v2(0.0, 0.0), v2(1.0, 1.0)])),
                                    leaf(NodeType::UVIndex(vec![1, 0, 0, 1])),
                                ],
                            ),
                        ],
                    ),
                    node(
                        NodeType::Geometry,
                        vec![
                            leaf(NodeType::Vertices(vec![v3(7.0, 7.0, 7.0)])),
                            leaf(NodeType::PolygonVertexIndex(
                                GeometryKind::Triangles,
                                vec![0, 0, 0],
                            )),
                        ],
                    ),
                ],
            ),
        ],
    )
}

#[test]
fn search_asks_the_node_itself_first() {
    let tree = sample();
    let found = tree.find_node(&|n: &FbxNode| Some(format!("{:?}", n.node_type)));
    assert_eq!(found, Some("Root".to_string()));
}

#[test]
fn search_goes_depth_first_left_to_right() {
    let tree = sample();
    let visits = std::cell::RefCell::new(Vec::new());
    let found: Option<()> = tree.find_node(&|n: &FbxNode| {
        visits.borrow_mut().push(match &n.node_type {
            NodeType::Root => "Root",
            NodeType::Definitions => "Definitions",
            NodeType::Objects => "Objects",
            NodeType::Geometry => "Geometry",
            NodeType::LayerElementUV => "LayerElementUV",
            NodeType::Vertices(_) => "Vertices",
            NodeType::PolygonVertexIndex(..) => "PolygonVertexIndex",
            NodeType::UV(_) => "UV",
            NodeType::UVIndex(_) => "UVIndex",
            _ => "?",
        });
        None
    });
    assert_eq!(found, None);
    assert_eq!(
        visits.into_inner(),
        vec![
            "Root",
            "Definitions",
            "UVIndex",
            "Objects",
            "Geometry",
            "Vertices",
            "PolygonVertexIndex",
            "LayerElementUV",
            "UV",
            "UVIndex",
            "Geometry",
            "Vertices",
            "PolygonVertexIndex",
        ]
    );
}

#[test]
fn search_stops_at_the_first_answer() {
    let tree = sample();
    let asked = std::cell::Cell::new(0);
    let found = tree.find_node(&|n: &FbxNode| {
        asked.set(asked.get() + 1);
        match n.node_type {
            NodeType::Geometry => Some(n.children.len()),
            _ => None,
        }
    });
    assert_eq!(found, Some(3));
    assert_eq!(asked.get(), 5);
}

#[test]
fn first_payload_in_preorder_wins() {
    let tree = sample();
    assert_eq!(tree.get_indices(), Some((GeometryKind::Quads, vec![3, 2, 1, 0])));
    assert_eq!(tree.get_positions().unwrap().len(), 4);
    assert_eq!(tree.get_uv_indices(), Some(vec![9]));
    assert_eq!(tree.get_uv(), Some(vec![v2(0.0, 0.0), v2(1.0, 1.0)]));
    assert_eq!(tree.get_normals(), None);
}

#[test]
fn getters_search_from_the_node_they_are_called_on() {
    let tree = sample();
    let second = &tree.children[1].children[1];
    assert_eq!(second.get_indices(), Some((GeometryKind::Triangles, vec![0, 0, 0])));
    assert_eq!(second.get_positions(), Some(vec![v3(7.0, 7.0, 7.0)]));
    let first = &tree.children[1].children[0];
    assert_eq!(first.get_uv_indices(), Some(vec![1, 0, 0, 1]));
    let vertices = &first.children[0];
    assert_eq!(vertices.get_positions().unwrap().len(), 4);
    assert_eq!(vertices.get_indices(), None);
}

#[test]
fn empty_tree_has_no_payload() {
    let tree = leaf(NodeType::Root);
    assert_eq!(tree.get_indices(), None);
    assert_eq!(tree.get_positions(), None);
    assert_eq!(tree.get_normals(), None);
    assert_eq!(tree.get_uv(), None);
    assert_eq!(tree.get_uv_indices(), None);
}

#[test]
fn corner_positions_follow_the_polygon_indices() {
    let tree = sample();
    assert_eq!(
        tree.get_vertices(),
        Ok(vec![v3(0.0, 1.0, 0.0), v3(1.0, 1.0, 0.0), v3(1.0, 0.0, 0.0), v3(0.0, 0.0, 0.0)])
    );
    assert_eq!(tree.children[1].children[1].get_vertices(), Ok(vec![v3(7.0, 7.0, 7.0); 3]));
}

#[test]
fn corner_positions_need_both_nodes() {
    assert_eq!(leaf(NodeType::Root).get_vertices(), Err(LoadError::MissingRequiredNode));
    let only_positions = node(NodeType::Root, vec![leaf(NodeType::Vertices(vec![]))]);
    assert_eq!(only_positions.get_vertices(), Err(LoadError::MissingRequiredNode));
    let only_indices = node(
        NodeType::Root,
        vec![leaf(NodeType::PolygonVertexIndex(GeometryKind::Triangles, vec![]))],
    );
    assert_eq!(only_indices.get_vertices(), Err(LoadError::MissingRequiredNode));
}

#[test]
fn polygon_index_beyond_the_positions_is_out_of_range() {
    let tree = node(
        NodeType::Root,
        vec![
            leaf(NodeType::Vertices(vec![v3(0.0, 0.0, 0.0); 3])),
            leaf(NodeType::PolygonVertexIndex(GeometryKind::Triangles, vec![0, 1, 3])),
        ],
    );
    assert_eq!(tree.get_vertices(), Err(LoadError::IndexOutOfRange));
}

#[test]
fn corner_texcoords_follow_the_texture_indices() {
    let geometry = &sample().children[1].children[0];
    assert_eq!(
        geometry.get_texcoords(),
        Ok(vec![v2(1.0, 1.0), v2(0.0, 0.0), v2(0.0, 0.0), v2(1.0, 1.0)])
    );
}

#[test]
fn corner_texcoords_are_empty_without_their_nodes() {
    assert_eq!(leaf(NodeType::Root).get_texcoords(), Ok(vec![]));
    let only_uv = node(NodeType::Root, vec![leaf(NodeType::UV(vec![v2(0.0, 0.0)]))]);
    assert_eq!(only_uv.get_texcoords(), Ok(vec![]));
    let only_index = node(NodeType::Root, vec![leaf(NodeType::UVIndex(vec![0]))]);
    assert_eq!(only_index.get_texcoords(), Ok(vec![]));
    let bad_index_alone = node(NodeType::Root, vec![leaf(NodeType::UVIndex(vec![-1, 99]))]);
    assert_eq!(bad_index_alone.get_texcoords(), Ok(vec![]));
}

#[test]
fn corner_texcoords_without_their_nodes_do_not_fail_a_tree_with_geometry() {
    let second = &sample().children[1].children[1];
    assert_eq!(second.get_texcoords(), Ok(vec![]));
    assert_eq!(second.get_vertices().unwrap().len(), 3);
}

#[test]
fn texture_index_outside_the_coordinates_is_out_of_range() {
    assert_eq!(sample().get_texcoords(), Err(LoadError::IndexOutOfRange));
    let negative = node(
        NodeType::Root,
        vec![leaf(NodeType::UV(vec![v2(0.0, 0.0)])), leaf(NodeType::UVIndex(vec![0, -1]))],
    );
    assert_eq!(negative.get_texcoords(), Err(LoadError::IndexOutOfRange));
}

#[test]
fn gather_selects_in_index_order() {
    assert_eq!(gather(&vec![10u8, 20, 30], &vec![2, 0, 0, 1]), Ok(vec![30, 10, 10, 20]));
    assert_eq!(gather(&vec![10u8, 20, 30], &vec![]), Ok(vec![]));
    assert_eq!(gather(&Vec::<u8>::new(), &vec![]), Ok(vec![]));
}

#[test]
fn gather_refuses_indices_outside_the_source() {
    assert_eq!(gather(&vec![10u8, 20, 30], &vec![0, 3]), Err(LoadError::IndexOutOfRange));
    assert_eq!(gather(&vec![10u8, 20, 30], &vec![-1]), Err(LoadError::IndexOutOfRange));
    assert_eq!(gather(&Vec::<u8>::new(), &vec![0]), Err(LoadError::IndexOutOfRange));
    assert_eq!(gather(&vec![1u8], &vec![i32::MAX]), Err(LoadError::IndexOutOfRange));
    assert_eq!(gather(&vec![1u8], &vec![i32::MIN]), Err(LoadError::IndexOutOfRange));
}
