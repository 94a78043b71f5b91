use glam::{Vec3, Vec4};
use stag_toolkit::extension::trimesh::TriangleMesh as ExtensionTriangleMesh;
use stag_toolkit::mesh::topology::{
    edge_from_key, edge_key, Edge, EdgeOperations, Triangle, TriangleOperations,
};
use stag_toolkit::mesh::trimesh::{EdgeTriangles, TriangleMesh};

/// Sanity test. Validate that EdgeMapEdge does not take extra memory.
#[test]
fn type_sizes() {
    assert_eq!(8 * 2, std::mem::size_of::<Edge>(), "edge");
    assert_eq!(
        8 * 2,
        std::mem::size_of::<EdgeTriangles>(),
        "edge triangles"
    );
    assert_eq!(8 * 3, std::mem::size_of::<Triangle>(), "triangle");
}

#[test]
fn trimesh_test_remove_unused() {
    let positions: Vec<Vec3> = vec![
        Vec3::new(0.0, 0.0, 0.0), // 0
        Vec3::new(1.0, 0.0, 0.0), // 1
        Vec3::new(0.0, 1.0, 0.0), // 2
        Vec3::new(0.0, 1.0, 0.0), // 3
        Vec3::new(0.0, 0.0, 1.0), // 4
        Vec3::new(0.0, 0.0, 1.0), // 5
    ];
    let normals: Vec<Vec3> = positions.clone();
    let tris: Vec<Triangle> = vec![[1, 4, 3], [3, 4, 1]];
    let indices: Vec<usize> = vec![1, 4, 3, 3, 4, 1];

    let mut mesh = TriangleMesh::new(tris.clone(), positions.clone(), Some(normals.clone()), None);
    let mut index_mesh =
        TriangleMesh::from_indices(indices.clone(), positions.clone(), Some(normals.clone()));

    assert_eq!(
        tris, mesh.triangles,
        "created TriangleMesh has the same triangles"
    );
    assert_eq!(
        positions, mesh.positions,
        "created TriangleMesh has the same vertex positions"
    );
    assert_eq!(
        normals, mesh.normals,
        "created TriangleMesh has the same vertex normals"
    );
    assert_eq!(
        indices,
        mesh.indices(),
        "created TriangleMesh has the same indices"
    );

    assert_eq!(
        tris, index_mesh.triangles,
        "INDEXED TriangleMesh has the same triangles"
    );
    assert_eq!(
        positions, index_mesh.positions,
        "INDEXED TriangleMesh has the same vertex positions"
    );
    assert_eq!(
        normals, index_mesh.normals,
        "INDEXED TriangleMesh has the same vertex normals"
    );
    assert_eq!(
        indices,
        mesh.indices(),
        "created TriangleMesh has the same indices"
    );

    // Remove unused positions
    mesh.remove_unused();
    index_mesh.remove_unused();

    // Mesh vertex buffers shrank
    assert_eq!(3, mesh.positions.len(), "only 3 positions remain");
    assert_eq!(3, mesh.normals.len(), "only 3 normals remain");
    assert_eq!(3, index_mesh.positions.len(), "only 3 positions remain");
    assert_eq!(3, index_mesh.normals.len(), "only 3 normals remain");

    // Mesh should only contain our expected positions
    let positions_expected: Vec<Vec3> = vec![
        Vec3::new(1.0, 0.0, 0.0),
        Vec3::new(0.0, 1.0, 0.0),
        Vec3::new(0.0, 0.0, 1.0),
    ];
    assert_eq!(positions_expected, mesh.positions);
    assert_eq!(positions_expected, index_mesh.positions);

    // Indices should have been adjusted for resized buffers
    let indices_expected: Vec<usize> = vec![0, 2, 1, 1, 2, 0];
    assert_eq!(
        indices_expected,
        mesh.indices(),
        "should return expected vertex indices"
    );
    assert_eq!(
        indices_expected,
        index_mesh.indices(),
        "should return expected vertex indices"
    );

    // The triangle mesh of the Godot extension behaves the same way.
    let mut ext_mesh =
        ExtensionTriangleMesh::new(tris.clone(), positions.clone(), Some(normals.clone()));
    let mut ext_index_mesh =
        ExtensionTriangleMesh::from_indices(indices.clone(), positions.clone(), Some(normals.clone()));
    assert_eq!(tris, ext_mesh.triangles, "created TriangleMesh has the same triangles");
    assert_eq!(positions, ext_mesh.positions, "created TriangleMesh has the same vertex positions");
    assert_eq!(normals, ext_mesh.normals, "created TriangleMesh has the same vertex normals");
    assert_eq!(indices, ext_mesh.indices(), "created TriangleMesh has the same indices");
    assert_eq!(tris, ext_index_mesh.triangles, "INDEXED TriangleMesh has the same triangles");
    assert_eq!(
        positions, ext_index_mesh.positions,
        "INDEXED TriangleMesh has the same vertex positions"
    );
    assert_eq!(
        normals, ext_index_mesh.normals,
        "INDEXED TriangleMesh has the same vertex normals"
    );
    ext_mesh.remove_unused();
    ext_index_mesh.remove_unused();
    assert_eq!(3, ext_mesh.positions.len(), "only 3 positions remain");
    assert_eq!(3, ext_mesh.normals.len(), "only 3 normals remain");
    assert_eq!(3, ext_index_mesh.positions.len(), "only 3 positions remain");
    assert_eq!(3, ext_index_mesh.normals.len(), "only 3 normals remain");
    assert_eq!(positions_expected, ext_mesh.positions);
    assert_eq!(positions_expected, ext_index_mesh.positions);
    assert_eq!(indices_expected, ext_mesh.indices(), "should return expected vertex indices");
    assert_eq!(
        indices_expected,
        ext_index_mesh.indices(),
        "should return expected vertex indices"
    );
}

#[test]
fn trimesh_test_join() {
    let positions1: Vec<Vec3> = vec![Vec3::X, Vec3::Y, Vec3::Z];
    let positions2: Vec<Vec3> = vec![Vec3::NEG_X, Vec3::NEG_Y, Vec3::NEG_Z];

    let triangles = vec![[0, 1, 2]];
    let mut mesh1 = TriangleMesh::new(triangles.clone(), positions1.clone(), None, None);
    let mesh2 = TriangleMesh::new(triangles.clone(), positions2.clone(), None, None);

    assert_eq!(
        1,
        mesh1.triangles.len(),
        "mesh 1 should only have one triangle"
    );
    assert_eq!(
        1,
        mesh2.triangles.len(),
        "mesh 2 should only have one triangle"
    );
    assert_eq!(3, mesh1.positions.len(), "mesh 1 should have 3 vertices");
    assert_eq!(3, mesh2.positions.len(), "mesh 2 should have 3 vertices");

    mesh1.join(&mesh2);
    assert_eq!(
        6,
        mesh1.positions.len(),
        "joined mesh should have 6 vertices"
    );
    assert_eq!(
        2,
        mesh1.triangles.len(),
        "joined mesh should have 2 triangles"
    );

    assert_eq!(
        vec![
            Vec3::X,
            Vec3::Y,
            Vec3::Z,
            Vec3::NEG_X,
            Vec3::NEG_Y,
            Vec3::NEG_Z
        ],
        mesh1.positions
    );
    assert_eq!(vec![[0, 1, 2], [3, 4, 5]], mesh1.triangles);
}

#[test]
fn extension_trimesh_join() {
    let mut mesh1 = ExtensionTriangleMesh::new(vec![[0, 1, 2]], vec![Vec3::X, Vec3::Y, Vec3::Z], None);
    let mesh2 = ExtensionTriangleMesh::new(
        vec![[2, 1, 0]],
        vec![Vec3::NEG_X, Vec3::NEG_Y, Vec3::NEG_Z],
        Some(vec![Vec3::ONE; 3]),
    );
    mesh1.join(&mesh2);
    assert_eq!(mesh1.positions.len(), 6);
    assert_eq!(mesh1.normals, vec![Vec3::ONE; 3]);
    assert_eq!(mesh1.triangles, vec![[0, 1, 2], [5, 4, 3]]);
}

#[test]
fn new_mesh_buffers() {
    let mesh = TriangleMesh::new(vec![[0, 1, 2]], vec![Vec3::ZERO; 3], None, Some(vec![Vec4::ONE; 3]));
    assert!(mesh.normals.is_empty());
    assert_eq!(mesh.colors, vec![Vec4::ONE; 3]);
    assert!(mesh.uv1.is_none() && mesh.uv2.is_none());
    assert_eq!(mesh.count_vertices(), 3);

    let from = TriangleMesh::from_indices(vec![0, 1, 2, 2, 1, 3, 7], vec![Vec3::ZERO; 4], None);
    assert_eq!(from.triangles, vec![[0, 1, 2], [2, 1, 3]], "a trailing partial triangle is dropped");
    assert!(from.colors.is_empty());
}

#[test]
fn indices_round_trip() {
    let tris: Vec<Triangle> = vec![[0, 1, 2], [2, 1, 3], [3, 4, 0]];
    let mesh = TriangleMesh::new(tris.clone(), vec![Vec3::ZERO; 5], None, None);
    let indices = mesh.indices();
    assert_eq!(indices, vec![0, 1, 2, 2, 1, 3, 3, 4, 0]);
    let again = TriangleMesh::from_indices(indices, vec![Vec3::ZERO; 5], None);
    assert_eq!(again.triangles, tris);
}

#[test]
fn edge_and_triangle_operations() {
    let e: Edge = [3, 8];
    assert_eq!(e.flip(), [8, 3]);
    let t: Triangle = [1, 2, 3];
    assert!(t.equals(&[1, 2, 3]));
    assert!(!t.equals(&[1, 3, 2]));
    assert_eq!(TriangleOperations::flip(&t), [2, 1, 3]);
    assert!(t.has_edge(&[1, 2]));
    assert!(t.has_edge(&[2, 3]));
    assert!(t.has_edge(&[3, 1]));
    assert!(!t.has_edge(&[2, 1]));
    assert!(!t.has_edge(&[1, 3]));
    assert_eq!(t.edges(), [[1, 2], [2, 3], [3, 1]]);
}

#[test]
fn edge_keys_round_trip() {
    for e in [[0usize, 0usize], [1, 2], [2, 1], [usize::MAX, 7], [7, usize::MAX]] {
        let k = edge_key(&e);
        assert_eq!(edge_from_key(k), e);
    }
    assert_eq!(edge_key(&[1, 2]), (1u128 << 64) + 2);
    assert_ne!(edge_key(&[1, 2]), edge_key(&[2, 1]));
}

#[test]
fn tris_for_edge_finds_both_faces() {
    let tris: Vec<Triangle> = vec![[0, 1, 2], [1, 0, 3], [0, 1, 4]];
    let mesh = TriangleMesh::new(tris, vec![Vec3::ZERO; 5], None, None);
    let (left, right) = mesh.tris_for_edge(&[0, 1]);
    assert_eq!(right, Some([0, 1, 2]), "first face along the edge");
    assert_eq!(left, Some([1, 0, 3]), "first face along the reversed edge");
    assert_eq!(mesh.tris_for_edge(&[2, 3]), (None, None));

    let ext = ExtensionTriangleMesh::new(vec![[0, 1, 2], [2, 1, 3]], vec![Vec3::ZERO; 4], None);
    assert_eq!(ext.tris_for_edge(&[1, 2]), (Some([2, 1, 3]), Some([0, 1, 2])));
}

#[test]
fn edge_map_of_two_faces() {
    // two triangles sharing the edge 0-1 in opposite directions
    let positions = vec![
        Vec3::new(1.0, 0.0, 0.0),
        Vec3::new(-1.0, 0.0, 0.0),
        Vec3::new(0.0, 0.0, 1.0),
        Vec3::new(0.0, 0.0, -1.0),
    ];
    let mesh = TriangleMesh::new(vec![[0, 1, 2], [0, 3, 1]], positions, None, None);
    let edges = mesh.edge_map();
    assert_eq!(5, edges.len());
    assert_eq!(edges.get(&edge_key(&[0, 1])), Some(&(0, 1)), "shared edge has both faces");
    assert_eq!(edges.get(&edge_key(&[1, 2])), Some(&(0, 0)));
    assert_eq!(edges.get(&edge_key(&[2, 0])), Some(&(0, 0)));
    assert_eq!(edges.get(&edge_key(&[0, 3])), Some(&(1, 0)));
    assert_eq!(edges.get(&edge_key(&[3, 1])), Some(&(1, 0)));
    assert_eq!(edges.get(&edge_key(&[1, 0])), None, "the reverse of a keyed edge is not a key");
    for t in mesh.triangles.iter() {
        for e in [[t[0], t[1]], [t[1], t[2]], [t[2], t[0]]] {
            let forward = edges.contains_key(&edge_key(&e));
            let backward = edges.contains_key(&edge_key(&[e[1], e[0]]));
            assert!(forward != backward, "every edge is keyed exactly one way");
        }
    }
    for (k, (left, right)) in edges.iter() {
        let e = edge_from_key(*k);
        assert!(mesh.triangles[*left].has_edge(&e));
        if *right != 0 {
            assert!(mesh.triangles[*right].has_edge(&e.flip()));
        }
    }

    let ext = ExtensionTriangleMesh::new(vec![[0, 1, 2], [0, 3, 1]], vec![Vec3::ZERO; 4], None);
    let ext_edges = ext.edge_map();
    assert_eq!(ext_edges.len(), 5);
    assert_eq!(ext_edges.get(&edge_key(&[0, 1])), Some(&[0, 1]));
    assert_eq!(ext_edges.get(&edge_key(&[3, 1])), Some(&[1, 0]));
}

#[test]
fn edge_collapse_merges_into_midpoint() {
    let positions = vec![
        Vec3::new(0.0, 0.0, 0.0),
        Vec3::new(2.0, 0.0, 0.0),
        Vec3::new(0.0, 2.0, 0.0),
        Vec3::new(2.0, 2.0, 0.0),
    ];
    let mut mesh = TriangleMesh::new(vec![[0, 1, 2], [1, 3, 2]], positions.clone(), None, None);
    mesh.edge_collapse(&[1, 2]);
    assert_eq!(mesh.positions.len(), 5);
    assert_eq!(mesh.positions[4], Vec3::new(1.0, 1.0, 0.0));
    assert_eq!(mesh.triangles, vec![[0, 4, 4], [4, 3, 4]]);
    mesh.remove_degenerate();
    assert!(mesh.triangles.is_empty());

    let mut ext = ExtensionTriangleMesh::new(vec![[0, 1, 2], [1, 3, 2]], positions, None);
    ext.edge_collapse(&[0, 3]);
    assert_eq!(ext.positions[4], Vec3::new(1.0, 1.0, 0.0));
    assert_eq!(ext.triangles, vec![[4, 1, 2], [1, 4, 2]]);
}

#[test]
fn swap_indices_in_order() {
    let mut mesh = TriangleMesh::new(vec![[0, 1, 2], [2, 3, 0]], vec![Vec3::ZERO; 4], None, None);
    mesh.swap_indices(vec![(0, 5), (5, 6), (3, 1)]);
    assert_eq!(mesh.triangles, vec![[6, 1, 2], [2, 1, 6]]);
    mesh.swap_indices(vec![]);
    assert_eq!(mesh.triangles, vec![[6, 1, 2], [2, 1, 6]]);

    let mut ext = ExtensionTriangleMesh::new(vec![[0, 1, 2]], vec![Vec3::ZERO; 3], None);
    ext.swap_indices(vec![(2, 0)]);
    assert_eq!(ext.triangles, vec![[0, 1, 0]]);
    ext.remove_degenerate();
    assert!(ext.triangles.is_empty());
}

#[test]
fn remove_degenerate_keeps_order() {
    let mut mesh = TriangleMesh::new(
        vec![[0, 1, 2], [1, 1, 2], [2, 3, 4], [4, 3, 4], [5, 6, 5], [6, 7, 8]],
        vec![Vec3::ZERO; 9],
        None,
        None,
    );
    mesh.remove_degenerate();
    assert_eq!(mesh.triangles, vec![[0, 1, 2], [2, 3, 4], [6, 7, 8]]);
}

#[test]
fn shrink_to_fit_keeps_contents() {
    let mut mesh = TriangleMesh::new(vec![[0, 1, 2]], vec![Vec3::X, Vec3::Y, Vec3::Z], None, None);
    mesh.uv2 = Some(vec![glam::Vec2::ONE; 3]);
    let before = mesh.clone();
    mesh.shrink_to_fit();
    assert!(mesh == before);
    assert!(mesh.uv1.is_none());
    assert_eq!(mesh.uv2, Some(vec![glam::Vec2::ONE; 3]));
}

#[test]
fn extension_bake_normals_changes_nothing() {
    let mut ext = ExtensionTriangleMesh::new(vec![[0, 1, 2]], vec![Vec3::X, Vec3::Y, Vec3::Z], None);
    ext.bake_normals();
    assert!(ext.normals.is_empty());
    assert_eq!(ext.count_vertices(), 3);
}
