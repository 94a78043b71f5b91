use stag_toolkit::math::volumetric::{VolumeData, VolumeWorker};

#[test]
fn test_volume_data_indexing() {
    let vol = VolumeData::new(1.0f32, [4, 4, 4]);
    assert_eq!(vol.size(), 4 * 4 * 4, "volume size matches expected");

    // Index zero
    assert_eq!(vol.linearize(0, 0, 0), 0, "Linearize at 0,0,0");
    assert_eq!(vol.delinearize(0), [0, 0, 0], "Delinearize index 0");

    // Max index
    let idx_max = vol.size() - 1;
    assert_eq!(vol.linearize(3, 3, 3), idx_max, "Linearize at 3,3,3");
    assert_eq!(
        vol.delinearize(idx_max),
        [3, 3, 3],
        "Delinearize at index {idx_max}"
    );

    // Test clamping
    assert_eq!(vol.linearize(0, 0, 0), 0, "Linearize at -1,-1,-1");
    assert_eq!(vol.linearize(4, 4, 4), idx_max, "Linearize at 4,4,4");
}

#[test]
fn volume_new_fills_every_cell() {
    let vol = VolumeData::new(7u8, [2, 3, 5]);
    assert_eq!(vol.size(), 30);
    assert_eq!(vol.get_dimensions(), [2, 3, 5]);
    assert_eq!(vol.data, vec![7u8; 30]);
}

#[test]
fn volume_linear_access() {
    let mut vol = VolumeData::new(0i32, [3, 3, 3]);
    vol.set_linear(13, 42);
    assert_eq!(vol.get_linear(13), 42);
    assert_eq!(vol.get_linear(12), 0);
    assert_eq!(vol.data.iter().filter(|v| **v == 42).count(), 1);
}

#[test]
fn volume_linearize_delinearize_round_trip() {
    let vol = VolumeData::new(0u8, [3, 4, 5]);
    for i in 0..vol.size() {
        let [x, y, z] = vol.delinearize(i);
        assert!(x < 3 && y < 4 && z < 5);
        assert_eq!(vol.linearize(x, y, z), i);
        assert_eq!(vol.linearize_fast(x, y, z), i);
    }
    for z in 0..5 {
        for y in 0..4 {
            for x in 0..3 {
                assert_eq!(vol.delinearize(vol.linearize(x, y, z)), [x, y, z]);
            }
        }
    }
}

#[test]
fn volume_linearize_exact_values() {
    let vol = VolumeData::new(0u8, [3, 4, 5]);
    assert_eq!(vol.linearize(1, 2, 3), 1 + 3 * 2 + 12 * 3);
    assert_eq!(vol.linearize_fast(2, 1, 1), 2 + 3 + 12);
    // clamped onto the far faces
    assert_eq!(vol.linearize(100, 2, 3), 2 + 3 * 2 + 12 * 3);
    assert_eq!(vol.linearize(100, 100, 100), 59);
    assert_eq!(vol.delinearize(59), [2, 3, 4]);
}

#[test]
fn volume_is_margin() {
    let vol = VolumeData::new(0u8, [5, 5, 5]);
    assert!(!vol.is_margin(0, 0, 0, 0), "zero padding is never a margin");
    assert!(!vol.is_margin(4, 4, 4, 0), "zero padding is never a margin");
    assert!(vol.is_margin(0, 2, 2, 1));
    assert!(vol.is_margin(2, 4, 2, 1));
    assert!(vol.is_margin(2, 2, 4, 1));
    assert!(!vol.is_margin(2, 2, 2, 1));
    assert!(!vol.is_margin(1, 3, 2, 1));
    assert!(vol.is_margin(1, 2, 2, 2));
}

#[test]
fn volume_set_padding() {
    let mut vol = VolumeData::new(0i32, [4, 4, 4]);
    vol.set_padding(1, 9);
    for i in 0..vol.size() {
        let [x, y, z] = vol.delinearize(i);
        let inner = (1..3).contains(&x) && (1..3).contains(&y) && (1..3).contains(&z);
        assert_eq!(vol.get_linear(i), if inner { 0 } else { 9 }, "cell {i}");
    }
    assert_eq!(vol.data.iter().filter(|v| **v == 0).count(), 8);

    let mut untouched = VolumeData::new(3i32, [2, 2, 2]);
    untouched.set_padding(0, 9);
    assert_eq!(untouched.data, vec![3; 8]);
}

#[test]
fn volume_to_workers_tiles_the_volume() {
    let mut vol = VolumeData::new(0u32, [2, 2, 3]);
    for i in 0..vol.size() {
        vol.set_linear(i, i as u32 * 10);
    }
    let workers = vol.to_workers(5, true);
    assert_eq!(workers.len(), 3);
    assert_eq!((workers[0].range_min, workers[0].range_max, workers[0].range_width), (0, 5, 5));
    assert_eq!((workers[1].range_min, workers[1].range_max, workers[1].range_width), (5, 10, 5));
    assert_eq!((workers[2].range_min, workers[2].range_max, workers[2].range_width), (10, 12, 2));
    assert_eq!(workers[0].data, vec![0, 10, 20, 30, 40]);
    assert_eq!(workers[2].data, vec![100, 110]);

    let blank = vol.to_workers(4, false);
    assert_eq!(blank.len(), 3);
    for w in blank.iter() {
        assert_eq!(w.data, vec![0u32; 4]);
    }

    let single = vol.to_workers(100, true);
    assert_eq!(single.len(), 1);
    assert_eq!(single[0].range_max, 12);
    assert_eq!(single[0].data, vol.data);
}

#[test]
fn volume_worker_copy_from() {
    let mut vol = VolumeData::new(0u16, [4, 1, 1]);
    for i in 0..4 {
        vol.set_linear(i, (i as u16 + 1) * 11);
    }
    let mut worker = VolumeWorker {
        data: vec![0u16; 3],
        range_min: 1,
        range_max: 3,
        range_width: 2,
    };
    worker.copy_from(&vol);
    assert_eq!(worker.data, vec![22, 33, 0]);
    assert_eq!((worker.range_min, worker.range_max, worker.range_width), (1, 3, 2));

    let mut workers = vol.to_workers(3, false);
    for w in workers.iter_mut() {
        w.copy_from(&vol);
    }
    assert_eq!(workers[0].data, vec![11, 22, 33]);
    assert_eq!(workers[1].data, vec![44]);

    // a split without the data, once copied in, is the split that keeps the data
    let kept = vol.to_workers(3, true);
    assert_eq!(workers.len(), kept.len());
    for (w, k) in workers.iter().zip(kept.iter()) {
        assert_eq!(w.data, k.data);
        assert_eq!((w.range_min, w.range_max, w.range_width), (k.range_min, k.range_max, k.range_width));
    }
}

#[test]
fn volume_zero_padding_changes_nothing() {
    let mut vol = VolumeData::new(0i32, [3, 2, 4]);
    for i in 0..vol.size() {
        vol.set_linear(i, i as i32);
    }
    let before = vol.data.clone();
    vol.set_padding(0, -1);
    assert_eq!(vol.data, before);
    for i in 0..vol.size() {
        let [x, y, z] = vol.delinearize(i);
        assert!(!vol.is_margin(x, y, z, 0));
    }
}

#[test]
fn volume_edge_cases() {
    let empty = VolumeData::new(0u8, [0, 3, 3]);
    assert_eq!(empty.size(), 0);
    assert!(empty.to_workers(0, true).is_empty(), "an empty volume splits into no workers");
    assert!(empty.to_workers(4, false).is_empty());

    // the stride products wrap around without checks
    let vol = VolumeData::new(0u8, [2, 3, 4]);
    let y = usize::MAX / 2 + 1;
    assert_eq!(vol.linearize_fast(1, y, 0), 1);
}
