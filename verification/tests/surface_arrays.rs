use glam::{Vec2, Vec3, Vec4};
use stag_toolkit::extension::godot::{ArrayType, GodotSurfaceArrays, SurfaceArray};
use stag_toolkit::extension::trimesh::TriangleMesh;
use stag_toolkit::extension::types::{packed_index_array_u32, packed_index_array_usize};

fn kind(a: &SurfaceArray) -> &'static str {
    match a {
        SurfaceArray::Nil => "nil",
        SurfaceArray::Empty => "empty",
        SurfaceArray::Int32(_) => "int32",
        SurfaceArray::Vector3(_) => "vector3",
        SurfaceArray::Vector2(_) => "vector2",
        SurfaceArray::Color(_) => "color",
    }
}

#[test]
fn array_type_slots() {
    assert_eq!(ArrayType::Vertex.ord(), 0);
    assert_eq!(ArrayType::Normal.ord(), 1);
    assert_eq!(ArrayType::Color.ord(), 3);
    assert_eq!(ArrayType::TexUv2.ord(), 5);
    assert_eq!(ArrayType::Weights.ord(), 11);
    assert_eq!(ArrayType::Index.ord(), 12);
    assert_eq!(ArrayType::Max.ord(), 13);
}

#[test]
fn new_surface_arrays_layout() {
    let arrays = GodotSurfaceArrays::new().get_surface_arrays();
    assert_eq!(arrays.len(), 13);
    for (i, a) in arrays.iter().enumerate() {
        let expected = if i == 0 || i == 12 { "empty" } else { "nil" };
        assert_eq!(kind(a), expected, "slot {i}");
    }
    let default_arrays = GodotSurfaceArrays::default().get_surface_arrays();
    let kinds: Vec<&str> = default_arrays.iter().map(kind).collect();
    let expected: Vec<&str> = arrays.iter().map(kind).collect();
    assert_eq!(kinds, expected);
}

#[test]
fn setters_fill_their_slot() {
    let mut surface = GodotSurfaceArrays::new();
    surface.set_indices(vec![0, 1, 2]);
    surface.set_vertices(vec![Vec3::X; 3]);
    surface.set_normals(vec![Vec3::Y; 3]);
    surface.set_tangents(vec![Vec3::Z; 3]);
    surface.set_colors(vec![Vec4::ONE; 3]);
    surface.set_uv1(vec![Vec2::ZERO; 3]);
    surface.set_uv2(vec![Vec2::ONE; 3]);
    let arrays = surface.get_surface_arrays();
    assert_eq!(arrays.len(), 13);
    assert!(matches!(&arrays[12], SurfaceArray::Int32(v) if *v == vec![0, 1, 2]));
    assert!(matches!(&arrays[0], SurfaceArray::Vector3(v) if *v == vec![Vec3::X; 3]));
    assert!(matches!(&arrays[1], SurfaceArray::Vector3(v) if *v == vec![Vec3::Y; 3]));
    assert!(matches!(&arrays[2], SurfaceArray::Vector3(v) if *v == vec![Vec3::Z; 3]));
    assert!(matches!(&arrays[3], SurfaceArray::Color(v) if *v == vec![Vec4::ONE; 3]));
    assert!(matches!(&arrays[4], SurfaceArray::Vector2(v) if *v == vec![Vec2::ZERO; 3]));
    assert!(matches!(&arrays[5], SurfaceArray::Vector2(v) if *v == vec![Vec2::ONE; 3]));
    for i in 6..12 {
        assert_eq!(kind(&arrays[i]), "nil", "slot {i}");
    }
    // a second write replaces the buffer
    surface.set_indices(vec![5]);
    assert!(matches!(&surface.get_surface_arrays()[12], SurfaceArray::Int32(v) if *v == vec![5]));
}

#[test]
fn surface_from_trimesh() {
    let mesh = TriangleMesh::new(
        vec![[0, 1, 2], [2, 1, 3]],
        vec![Vec3::X, Vec3::Y, Vec3::Z, Vec3::ONE],
        Some(vec![Vec3::NEG_Z; 4]),
    );
    let arrays = GodotSurfaceArrays::from_trimesh(&mesh).get_surface_arrays();
    assert!(matches!(&arrays[0], SurfaceArray::Vector3(v) if *v == mesh.positions));
    assert!(matches!(&arrays[1], SurfaceArray::Vector3(v) if *v == mesh.normals));
    assert!(matches!(&arrays[12], SurfaceArray::Int32(v) if *v == vec![0, 1, 2, 2, 1, 3]));
    assert_eq!(kind(&arrays[3]), "nil");
}

#[test]
fn packed_index_arrays() {
    assert_eq!(packed_index_array_usize(vec![0, 5, 9]), vec![0, 5, 9]);
    assert_eq!(packed_index_array_u32(vec![3, 2, 1]), vec![3, 2, 1]);
    assert_eq!(packed_index_array_usize(vec![]), Vec::<i32>::new());
    assert_eq!(packed_index_array_u32(vec![u32::MAX]), vec![-1]);
}
