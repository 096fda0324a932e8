use rmi_core::data::ModelData;
use rmi_core::data::ModelDataWrapper;
use rmi_core::floatbits::f64_bits_to_u64_trunc;

#[test]
fn test_scale() {
    let mut v = ModelData::IntKeyToIntPos(vec![(0, 0), (1, 1), (3, 2), (100, 3)]);

    v.scale_targets_to(50, 4);

    let results = v.as_int_int();
    assert_eq!(results[0].1, 0);
    assert_eq!(results[1].1, 12);
    assert_eq!(results[2].1, 25);
    assert_eq!(results[3].1, 37);
}

#[test]
fn test_iter() {
    let data = vec![(0, 1), (1, 2), (3, 3), (100, 4)];

    let v = ModelData::IntKeyToIntPos(data.clone());

    let iterated: Vec<(u64, u64)> = v.iter_int_int().collect_remaining();
    assert_eq!(data, iterated);
}

#[test]
fn test_iter_bound_window() {
    let v = ModelData::IntKeyToIntPos(vec![(0, 1), (1, 2), (3, 3), (100, 4)]);
    let mut it = v.iter_int_int();
    it.bound(1, 3);
    assert_eq!(it.next(), Some((1, 2)));
    assert_eq!(it.next(), Some((3, 3)));
    assert_eq!(it.next(), None);
}

#[test]
fn test_scaled_view_and_neutral_scale() {
    let v = ModelData::IntKeyToIntPos(vec![(10, 4), (20, 9)]);
    let mut w = ModelDataWrapper::new(&v);
    assert_eq!(w.get(0), (10, 4));
    assert_eq!(w.get(1), (20, 9));
    w.set_scale(1, 2);
    assert_eq!(w.get(0), (10, 2));
    assert_eq!(w.get(1), (20, 4));
    let collected: Vec<(u64, u64)> = w.iter_int_int().collect_remaining();
    assert_eq!(collected, vec![(10, 2), (20, 4)]);
}

#[test]
fn test_lower_bound() {
    let v = ModelData::IntKeyToIntPos(vec![(10, 0), (11, 1), (13, 2), (13, 3), (15, 4)]);
    let w = ModelDataWrapper::new(&v);
    assert_eq!(w.lower_bound(9), 0);
    assert_eq!(w.lower_bound(10), 0);
    assert_eq!(w.lower_bound(12), 2);
    assert_eq!(w.lower_bound(13), 2);
    assert_eq!(w.lower_bound(14), 4);
    assert_eq!(w.lower_bound(16), 5);
}

#[test]
fn test_empty_and_len() {
    let e = ModelData::empty();
    assert_eq!(e.len(), 0);
    let v = ModelData::IntKeyToIntPos(vec![(1, 1), (2, 2)]);
    assert_eq!(v.len(), 2);
    let w = ModelDataWrapper::new(&v);
    assert_eq!(w.len(), 2);
    assert_eq!(w.get_key(1), 2);
    let copy = w.into_data();
    assert_eq!(copy.len(), 2);
}

#[test]
fn test_get_raw_words() {
    let v = ModelData::FloatKeyToIntPos(vec![(2.5f64.to_bits(), 7)]);
    assert_eq!(v.get_raw(0), (2.5f64.to_bits(), 7));
    let w = ModelData::IntKeyToIntPos(vec![(3, 4), (5, 6)]);
    assert_eq!(w.get_raw(1), (5, 6));
}

#[test]
fn test_get_key_float_keys_truncate() {
    let v = ModelData::FloatKeyToIntPos(vec![(2.9f64.to_bits(), 7), (100.2f64.to_bits(), 9)]);
    assert_eq!(v.get_key(0), 2);
    assert_eq!(v.get_key(1), 100);
}

#[test]
fn test_float_bits_trunc_matches_cast() {
    let samples: Vec<f64> = vec![
        0.0,
        0.5,
        1.0,
        2.9,
        3.7,
        1048576.0,
        9.000000001e15,
        -0.5,
        -2.5,
        f64::NAN,
        f64::INFINITY,
        f64::NEG_INFINITY,
        1.8446744073709552e19,
    ];
    for x in samples {
        assert_eq!(f64_bits_to_u64_trunc(x.to_bits()), x as u64, "mismatch for {}", x);
    }
}

#[test]
fn test_float_bits_trunc_is_floor_of_clamped() {
    // the projection from a real-valued prediction to an index
    let samples: Vec<f64> = vec![0.2, 1.9, 42.0, -7.3, 123456.75];
    for x in samples {
        assert_eq!(
            f64_bits_to_u64_trunc(x.to_bits()),
            f64::max(0.0, x.floor()) as u64,
            "mismatch for {}",
            x
        );
    }
}
