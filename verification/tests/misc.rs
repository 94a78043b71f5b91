use stag_toolkit::classes::line::{StagLineMeshBoundingMode, StagLineMeshUVMode};
use stag_toolkit::math::sdf::{ShapeOperation, ShapeType};
use stag_toolkit::utils::worker_count;

#[test]
fn worker_count_rounds_up() {
    assert_eq!(worker_count(1, 8), 1);
    assert_eq!(worker_count(8, 8), 1);
    assert_eq!(worker_count(9, 8), 2);
    assert_eq!(worker_count(100, 7), 15);
    assert_eq!(worker_count(64, 4), 16);
    assert_eq!(worker_count(usize::MAX, 1), usize::MAX);
    assert_eq!(worker_count(usize::MAX, usize::MAX), 1);
}

#[test]
fn line_mesh_mode_defaults() {
    assert_eq!(StagLineMeshUVMode::default(), StagLineMeshUVMode::Factor);
    assert_eq!(StagLineMeshBoundingMode::default(), StagLineMeshBoundingMode::All);
    assert_ne!(StagLineMeshUVMode::Length, StagLineMeshUVMode::FactorProportional);
}

#[test]
fn shape_kinds_compare() {
    assert_eq!(ShapeType::Torus, ShapeType::Torus);
    assert_ne!(ShapeType::Sphere, ShapeType::RoundedBox);
    assert_ne!(ShapeOperation::Union, ShapeOperation::Subtraction);
}
