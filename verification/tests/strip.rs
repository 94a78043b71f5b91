use glam::{Vec2, Vec3};
use stag_toolkit::mesh::strip::TriangleStripMesh;

#[test]
fn strip_indices_follow_push_order() {
    let mut strip = TriangleStripMesh::new(4);
    assert_eq!(strip.buffer_position, 0);
    assert!(strip.index.is_empty() && strip.position.is_empty());
    assert!(strip.index.capacity() >= 6);
    for i in 0..5 {
        strip.push(Vec3::splat(i as f32), Vec3::Y, Vec2::new(0.0, i as f32));
    }
    assert_eq!(strip.index, vec![0, 1, 2, 3, 4]);
    assert_eq!(strip.buffer_position, 5);
    assert_eq!(strip.position[3], Vec3::splat(3.0));
    assert_eq!(strip.normal, vec![Vec3::Y; 5]);
    assert_eq!(strip.uv1[4], Vec2::new(0.0, 4.0));
}
