use stag_toolkit::extension::volumetric::VolumeData;

#[test]
fn test_volumedata_indexxing() {
    let vol = VolumeData::new(1.0f32, [4, 4, 4]);
    assert_eq!(vol.size(), 4 * 4 * 4, "volume size matches expected");

    // Index zero
    assert_eq!(vol.linearize(0, 0, 0), 0, "Linearize at 0,0,0");
    assert_eq!(vol.delinearize(0), [0, 0, 0], "Delinearize index 0");

    // Max index
    let idx_max = (vol.size() as u32) - 1;
    assert_eq!(vol.linearize(3, 3, 3), idx_max, "Linearize at 3,3,3");
    assert_eq!(
        vol.delinearize(idx_max),
        [3, 3, 3],
        "Delinearize at index {0}",
        idx_max
    );

    // Test clamping
    assert_eq!(vol.linearize(0, 0, 0), 0, "Linearize at -1,-1,-1");
    assert_eq!(vol.linearize(4, 4, 4), idx_max, "Linearize at 4,4,4");
}

#[test]
fn extension_volume_round_trip_and_access() {
    let mut vol = VolumeData::new(0u8, [2, 3, 4]);
    assert_eq!(vol.size(), 24);
    for i in 0..24u32 {
        let [x, y, z] = vol.delinearize(i);
        assert_eq!(vol.linearize(x, y, z), i);
    }
    assert_eq!(vol.linearize(1, 2, 3), 1 + 2 * 2 + 6 * 3);
    assert_eq!(vol.linearize(9, 9, 9), 23);
    vol.set_linear(5, 8);
    assert_eq!(vol.get_linear(5), 8);
    assert_eq!(vol.get_linear(4), 0);
}

#[test]
fn extension_volume_trim_padding() {
    let mut vol = VolumeData::new(1i32, [3, 3, 3]);
    assert!(vol.is_margin(0, 1, 1, 1));
    assert!(!vol.is_margin(1, 1, 1, 1));
    assert!(!vol.is_margin(0, 0, 0, 0));
    assert!(!vol.is_margin(3, 3, 3, 0), "zero padding is never a margin");
    assert!(!vol.is_margin(2, 0, 1, 0), "zero padding is never a margin");
    vol.trim_padding(1, 10);
    for i in 0..27u32 {
        let expected = if i == 13 { 1 } else { 10 };
        assert_eq!(vol.get_linear(i as usize), expected, "cell {i}");
    }
}
