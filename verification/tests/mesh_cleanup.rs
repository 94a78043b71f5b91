use glam::{vec3, Vec3};
use stag_toolkit::extension::trimesh::TriangleMesh as ExtensionTriangleMesh;
use stag_toolkit::mesh::topology::Triangle;
use stag_toolkit::mesh::trimesh::TriangleMesh;

/// The face normal the toolkit uses: up for a face without area.
fn face_normal(positions: &[Vec3], tri: &Triangle) -> Vec3 {
    let u = positions[tri[1]] - positions[tri[0]];
    let v = positions[tri[2]] - positions[tri[0]];
    let c = u.cross(v);
    let len = c.length_squared();
    if len <= 1e-6 {
        return Vec3::Y;
    }
    c / len.sqrt()
}

/// The toolkit's planarity test: the angle between two faces is below `threshold`.
fn planar_within(threshold: f32) -> impl Fn(&Vec<Vec3>, &Triangle, &Triangle) -> bool {
    move |p: &Vec<Vec3>, a: &Triangle, b: &Triangle| {
        face_normal(p, a).angle_between(face_normal(p, b)) < threshold
    }
}

/// The toolkit's closeness test: two vertices are within `threshold` of each other.
fn within(threshold: f32) -> impl Fn(&Vec3, &Vec3) -> bool {
    let t2 = threshold * threshold;
    move |a: &Vec3, b: &Vec3| threshold > 0.0 && a.distance_squared(*b) <= t2
}

#[test]
fn trimesh_test_planar_decimation() {
    let positions: Vec<Vec3> = vec![
        vec3(1.0, 0.0, 0.0),
        vec3(-1.0, 0.0, 0.0),
        vec3(0.0, 0.0, 1.0),
        vec3(0.0, 0.0, -1.0),
    ];
    let triangles: Vec<Triangle> = vec![[0, 1, 2], [0, 3, 1]];
    let mut mesh = TriangleMesh::new(triangles.clone(), positions.clone(), None, None);

    let edges = mesh.edge_map();
    assert_eq!(5, edges.len());

    mesh.decimate_planar(planar_within(0.1), 10, 0);
    assert_eq!(0, mesh.triangles.len());
}

#[test]
fn test_merge_by_distance() {
    let positions: Vec<Vec3> = vec![
        vec3(1.0, 0.0, -1.0),
        vec3(-1.0, 0.0, -1.0),
        vec3(0.0, 0.0, 1.0),
        vec3(1.0, 1e-6, -1.0),
        vec3(-1.0, 1e-6, -1.0),
        vec3(0.0, 0.0, -1.0),
    ];
    let triangles = vec![[0, 1, 2], [3, 4, 5]];
    let mut mesh = TriangleMesh::new(triangles.clone(), positions.clone(), None, None);

    mesh.merge_by_distance(within(1e-5));

    assert_eq!(2, mesh.triangles.len()); // Mesh still retains both triangles
    assert_eq!(
        vec![[0, 1, 2], [0, 1, 5]],
        mesh.triangles,
        "mesh uses only necessary points"
    );
    assert_eq!(6, mesh.positions.len()); // Mesh retained vertices but is not using them

    mesh.remove_unused();
    assert_eq!(4, mesh.positions.len(), "unused vertices should be removed");

    let mut mesh = TriangleMesh::new(triangles.clone(), positions.clone(), None, None);
    mesh.optimize(within(1e-5));
    assert_eq!(
        vec![[0, 1, 2], [0, 1, 3]],
        mesh.triangles,
        "optimize only uses necessary points"
    );
    assert_eq!(4, mesh.positions.len(), "optimize should do all cleanup");
}

#[test]
fn merge_with_disabled_threshold_changes_nothing() {
    let positions = vec![Vec3::ZERO, Vec3::ZERO, Vec3::X];
    let mut mesh = TriangleMesh::new(vec![[0, 1, 2]], positions, None, None);
    mesh.merge_by_distance(within(0.0));
    assert_eq!(mesh.triangles, vec![[0, 1, 2]]);
    mesh.merge_by_distance(within(0.5));
    assert_eq!(mesh.triangles, vec![[0, 0, 2]]);
    mesh.remove_degenerate();
    assert!(mesh.triangles.is_empty());
}

#[test]
fn merge_chains_into_the_earliest_vertex() {
    // vertex 2 is close to 1 and vertex 1 to 0: both end up at 0
    let positions = vec![vec3(0.0, 0.0, 0.0), vec3(0.3, 0.0, 0.0), vec3(0.55, 0.0, 0.0), Vec3::Y];
    let mut mesh = TriangleMesh::new(vec![[2, 3, 1]], positions, None, None);
    mesh.merge_by_distance(within(0.3));
    assert_eq!(mesh.triangles, vec![[0, 3, 0]]);
}

#[test]
fn decimation_keeps_a_fold() {
    // two faces at a right angle: not planar, nothing collapses
    let positions = vec![
        vec3(0.0, 0.0, 0.0),
        vec3(1.0, 0.0, 0.0),
        vec3(0.0, 1.0, 0.0),
        vec3(0.0, 0.0, 1.0),
        vec3(5.0, 5.0, 5.0),
    ];
    let mut mesh = TriangleMesh::new(vec![[0, 1, 2], [1, 0, 3]], positions, None, None);
    mesh.decimate_planar(planar_within(0.1), 3, 0);
    assert_eq!(mesh.triangles, vec![[0, 1, 2], [1, 0, 3]]);
    assert_eq!(mesh.positions.len(), 4, "the unused vertex is dropped");

    let mut untouched = TriangleMesh::new(vec![[0, 1, 2]], vec![Vec3::ZERO; 4], None, None);
    untouched.decimate_planar(planar_within(0.1), 0, 0);
    assert_eq!(untouched.positions.len(), 4, "no passes, no cleanup");
}

#[test]
fn extension_mesh_cleanup() {
    let positions: Vec<Vec3> = vec![
        vec3(1.0, 0.0, -1.0),
        vec3(-1.0, 0.0, -1.0),
        vec3(0.0, 0.0, 1.0),
        vec3(1.0, 1e-6, -1.0),
        vec3(-1.0, 1e-6, -1.0),
        vec3(0.0, 0.0, -1.0),
    ];
    let triangles = vec![[0, 1, 2], [3, 4, 5]];
    let mut mesh = ExtensionTriangleMesh::new(triangles.clone(), positions.clone(), None);
    mesh.optimize(within(1e-5));
    assert_eq!(mesh.triangles, vec![[0, 1, 2], [0, 1, 3]]);
    assert_eq!(mesh.positions.len(), 4);

    let flat = vec![
        vec3(1.0, 0.0, 0.0),
        vec3(-1.0, 0.0, 0.0),
        vec3(0.0, 0.0, 1.0),
        vec3(0.0, 0.0, -1.0),
    ];
    let mut flat_mesh = ExtensionTriangleMesh::new(vec![[0, 1, 2], [0, 3, 1]], flat, None);
    flat_mesh.decimate_planar(planar_within(0.1), 10, 0);
    assert!(flat_mesh.triangles.is_empty());
    assert!(flat_mesh.positions.is_empty());
}
