use std::collections::HashMap;
use stag_toolkit::simulation::rope::get_surrounding_bind_indices;

#[test]
fn surrounding_binds_between_two() {
    let mut binds: HashMap<usize, ()> = HashMap::new();
    binds.insert(2, ());
    binds.insert(7, ());
    binds.insert(9, ());
    assert_eq!(get_surrounding_bind_indices(10, 5, &binds), (2, true, 7, true));
    assert_eq!(get_surrounding_bind_indices(10, 7, &binds), (2, true, 9, true));
    assert_eq!(get_surrounding_bind_indices(10, 8, &binds), (7, true, 9, true));
}

#[test]
fn surrounding_binds_at_the_ends() {
    let mut binds: HashMap<usize, u8> = HashMap::new();
    binds.insert(0, 1);
    binds.insert(4, 1);
    // nothing below index 0, so the first bind is not counted as smaller
    assert_eq!(get_surrounding_bind_indices(6, 0, &binds), (0, false, 4, true));
    assert_eq!(get_surrounding_bind_indices(6, 1, &binds), (0, true, 4, true));
    // nothing above index 4 within the rope: the last point stands in
    assert_eq!(get_surrounding_bind_indices(6, 4, &binds), (0, true, 5, false));
    assert_eq!(get_surrounding_bind_indices(6, 5, &binds), (4, true, 5, false));
}

#[test]
fn surrounding_binds_ignore_points_past_the_rope() {
    let mut binds: HashMap<usize, i32> = HashMap::new();
    binds.insert(12, 0);
    assert_eq!(get_surrounding_bind_indices(10, 3, &binds), (0, false, 9, false));
    let empty: HashMap<usize, i32> = HashMap::new();
    assert_eq!(get_surrounding_bind_indices(1, 0, &empty), (0, false, 0, false));
}
