use scene_assets::error::LoadError;
use scene_assets::fbx::node::FbxNode;
use scene_assets::fbx::node::NodeType;
use scene_assets::math::Scalar;
use scene_assets::math::Vector2;
use scene_assets::math::Vector3;
use scene_assets::mesh::assemble_mesh;
use scene_assets::mesh::GeometryKind;
use scene_assets::mesh::Vertex;

fn v3(x: f32, y: f32, z: f32) -> Vector3 {
    Vector3 {
        x: Scalar::from_bits(x.to_bits()),
        y: Scalar::from_bits(y.to_bits()),
        z: Scalar::from_bits(z.to_bits()),
    }
}

fn v2(x: f32, y: f32) -> Vector2 {
    Vector2 { x: Scalar::from_bits(x.to_bits()), y: Scalar::from_bits(y.to_bits()) }
}

fn tree(payloads: Vec<NodeType>) -> FbxNode {
    FbxNode {
        node_type: NodeType::Root,
        properties: Vec::new(),
        children: vec![FbxNode {
            node_type: NodeType::Geometry,
            properties: Vec::new(),
            children: payloads
                .into_iter()
                .map(|node_type| FbxNode::leaf(node_type, Vec::new()))
                .collect(),
        }],
    }
}

fn square() -> Vec<Vector3> {
    vec![v3(0.0, 0.0, 0.0), v3(1.0, 0.0, 0.0), v3(1.0, 1.0, 0.0), v3(0.0, 1.0, 0.0)]
}

fn two_triangles() -> NodeType {
    NodeType::PolygonVertexIndex(GeometryKind::Triangles, vec![0, 1, 2, 0, 2, 3])
}

#[test]
fn kinds_have_three_and_four_corners() {
    assert_eq!(GeometryKind::Triangles.corners(), 3);
    assert_eq!(GeometryKind::Quads.corners(), 4);
}

#[test]
fn vertices_expand_by_the_polygon_indices() {
    let root = tree(vec![NodeType::Vertices(square()), two_triangles()]);
    let mesh = assemble_mesh(&root, false).unwrap();
    let p = square();
    assert_eq!(mesh.kind, GeometryKind::Triangles);
    assert_eq!(mesh.vertices.len(), 6);
    let positions: Vec<Vector3> = mesh.vertices.iter().map(|v| v.position).collect();
    assert_eq!(positions, vec![p[0], p[1], p[2], p[0], p[2], p[3]]);
    assert_eq!(mesh.indices, vec![0, 1, 2, 3, 4, 5]);
    assert!(mesh.vertices.iter().all(|v| v.normal.is_none() && v.uv.is_none()));
}

#[test]
fn quads_keep_their_kind() {
    let root = tree(vec![
        NodeType::Vertices(square()),
        NodeType::PolygonVertexIndex(GeometryKind::Quads, vec![3, 2, 1, 0]),
    ]);
    let mesh = assemble_mesh(&root, false).unwrap();
    assert_eq!(mesh.kind, GeometryKind::Quads);
    assert_eq!(mesh.indices, vec![0, 1, 2, 3]);
    assert_eq!(mesh.vertices[0].position, v3(0.0, 1.0, 0.0));
    assert_eq!(mesh.vertices[3].position, v3(0.0, 0.0, 0.0));
}

#[test]
fn empty_index_block_gives_empty_mesh() {
    let root = tree(vec![
        NodeType::Vertices(square()),
        NodeType::PolygonVertexIndex(GeometryKind::Quads, vec![]),
    ]);
    let mesh = assemble_mesh(&root, false).unwrap();
    assert!(mesh.vertices.is_empty());
    assert!(mesh.indices.is_empty());
}

#[test]
fn every_vertex_gets_the_coordinate_its_texture_index_selects() {
    let uv = vec![v2(0.0, 0.0), v2(1.0, 0.0), v2(0.5, 1.0)];
    let uv_index = vec![2, 1, 0, 0, 0, 2];
    let root = tree(vec![
        NodeType::Vertices(square()),
        two_triangles(),
        NodeType::UV(uv.clone()),
        NodeType::UVIndex(uv_index.clone()),
    ]);
    let mesh = assemble_mesh(&root, false).unwrap();
    assert_eq!(mesh.vertices.len(), uv_index.len());
    for (i, vertex) in mesh.vertices.iter().enumerate() {
        assert_eq!(vertex.uv, Some(uv[uv_index[i] as usize]));
    }
    assert_eq!(
        mesh.vertices[0],
        Vertex { position: v3(0.0, 0.0, 0.0), normal: None, uv: Some(v2(0.5, 1.0)) }
    );
}

#[test]
fn texture_coordinates_are_absent_without_their_nodes() {
    let without_index = tree(vec![
        NodeType::Vertices(square()),
        two_triangles(),
        NodeType::UV(vec![v2(0.0, 0.0)]),
    ]);
    let mesh = assemble_mesh(&without_index, false).unwrap();
    assert!(mesh.vertices.iter().all(|v| v.uv.is_none()));
    let without_uv = tree(vec![
        NodeType::Vertices(square()),
        two_triangles(),
        NodeType::UVIndex(vec![0, 0, 0, 0, 0, 0]),
    ]);
    let mesh = assemble_mesh(&without_uv, false).unwrap();
    assert!(mesh.vertices.iter().all(|v| v.uv.is_none()));
}

#[test]
fn shorter_texture_index_list_leaves_later_vertices_bare() {
    let root = tree(vec![
        NodeType::Vertices(square()),
        two_triangles(),
        NodeType::UV(vec![v2(0.25, 0.5)]),
        NodeType::UVIndex(vec![0, 0]),
    ]);
    let mesh = assemble_mesh(&root, false).unwrap();
    let uv: Vec<Option<Vector2>> = mesh.vertices.iter().map(|v| v.uv).collect();
    assert_eq!(uv, vec![Some(v2(0.25, 0.5)), Some(v2(0.25, 0.5)), None, None, None, None]);
}

#[test]
fn texture_index_out_of_range_fails_the_assembly() {
    let root = tree(vec![
        NodeType::Vertices(square()),
        two_triangles(),
        NodeType::UV(vec![v2(0.0, 0.0)]),
        NodeType::UVIndex(vec![0, 0, 1, 0, 0, 0]),
    ]);
    assert_eq!(assemble_mesh(&root, false).unwrap_err(), LoadError::IndexOutOfRange);
}

#[test]
fn normals_come_from_the_normals_node_when_asked_for() {
    let normals: Vec<Vector3> = (0..6).map(|i| v3(0.0, 0.0, i as f32)).collect();
    let root = tree(vec![
        NodeType::Vertices(square()),
        two_triangles(),
        NodeType::Normals(normals.clone()),
    ]);
    let with = assemble_mesh(&root, true).unwrap();
    let found: Vec<Option<Vector3>> = with.vertices.iter().map(|v| v.normal).collect();
    assert_eq!(found, normals.iter().map(|n| Some(*n)).collect::<Vec<_>>());
    let without = assemble_mesh(&root, false).unwrap();
    assert!(without.vertices.iter().all(|v| v.normal.is_none()));
}

#[test]
fn normals_asked_for_but_missing_fail_the_assembly() {
    let root = tree(vec![NodeType::Vertices(square()), two_triangles()]);
    assert_eq!(assemble_mesh(&root, true).unwrap_err(), LoadError::MissingRequiredNode);
}

#[test]
fn shorter_normal_list_leaves_later_vertices_bare() {
    let root = tree(vec![
        NodeType::Vertices(square()),
        two_triangles(),
        NodeType::Normals(vec![v3(0.0, 0.0, 1.0)]),
    ]);
    let mesh = assemble_mesh(&root, true).unwrap();
    assert_eq!(mesh.vertices[0].normal, Some(v3(0.0, 0.0, 1.0)));
    assert!(mesh.vertices[1..].iter().all(|v| v.normal.is_none()));
}

#[test]
fn tree_without_polygon_indices_assembles_to_nothing() {
    let root = tree(vec![NodeType::Vertices(square())]);
    assert_eq!(assemble_mesh(&root, false).unwrap_err(), LoadError::MissingRequiredNode);
    assert_eq!(assemble_mesh(&root, true).unwrap_err(), LoadError::MissingRequiredNode);
    let bare = tree(vec![]);
    assert_eq!(assemble_mesh(&bare, false).unwrap_err(), LoadError::MissingRequiredNode);
}

#[test]
fn tree_without_positions_assembles_to_nothing() {
    let root = tree(vec![two_triangles()]);
    assert_eq!(assemble_mesh(&root, false).unwrap_err(), LoadError::MissingRequiredNode);
}

#[test]
fn polygon_index_out_of_range_fails_the_assembly() {
    let root = tree(vec![
        NodeType::Vertices(square()),
        NodeType::PolygonVertexIndex(GeometryKind::Triangles, vec![0, 1, 4]),
    ]);
    assert_eq!(assemble_mesh(&root, false).unwrap_err(), LoadError::IndexOutOfRange);
    let negative = tree(vec![
        NodeType::Vertices(square()),
        NodeType::PolygonVertexIndex(GeometryKind::Triangles, vec![0, 1, -1]),
    ]);
    assert_eq!(assemble_mesh(&negative, false).unwrap_err(), LoadError::IndexOutOfRange);
}

#[test]
fn corners_that_make_no_whole_faces_fail_the_assembly() {
    let ragged_triangles = tree(vec![
        NodeType::Vertices(square()),
        NodeType::PolygonVertexIndex(GeometryKind::Triangles, vec![0, 1, 2, 3]),
    ]);
    assert_eq!(assemble_mesh(&ragged_triangles, false).unwrap_err(), LoadError::MalformedStream);
    let ragged_quads = tree(vec![
        NodeType::Vertices(square()),
        NodeType::PolygonVertexIndex(GeometryKind::Quads, vec![0, 1, 2, 3, 0, 1]),
    ]);
    assert_eq!(assemble_mesh(&ragged_quads, false).unwrap_err(), LoadError::MalformedStream);
}

#[test]
fn out_of_range_is_reported_before_ragged_faces() {
    let root = tree(vec![
        NodeType::Vertices(square()),
        NodeType::PolygonVertexIndex(GeometryKind::Triangles, vec![0, 1, 2, 9]),
    ]);
    assert_eq!(assemble_mesh(&root, false).unwrap_err(), LoadError::IndexOutOfRange);
}

#[test]
fn draw_indices_stay_within_the_vertices() {
    let root = tree(vec![NodeType::Vertices(square()), two_triangles()]);
    let mesh = assemble_mesh(&root, false).unwrap();
    assert_eq!(mesh.indices.len() % mesh.kind.corners(), 0);
    assert!(mesh.indices.iter().all(|i| (*i as usize) < mesh.vertices.len()));
}
