use rmi_core::model::ModelInput;
use rmi_core::model::ModelRestriction;
use rmi_core::model::layering_allowed;
use rmi_core::params::ModelParam;
use rmi_core::params::u64_to_decimal;
use rmi_core::train::leaf_partitions;
use rmi_core::train::max_abs_error;

#[test]
fn test_leaf_partitions_tile_input() {
    // sorted assignments over 4 leaves, with leaf 2 empty
    let assignments: Vec<u64> = vec![0, 0, 1, 1, 1, 3, 3];
    let ranges = leaf_partitions(&assignments, 4);
    assert_eq!(ranges, vec![(0, 2), (2, 5), (5, 5), (5, 7)]);
    // start_j <= stop_j, stop_j == start_{j+1}, union covers [0, len)
    assert_eq!(ranges[0].0, 0);
    assert_eq!(ranges[3].1, assignments.len() as u64);
    for w in ranges.windows(2) {
        assert!(w[0].0 <= w[0].1);
        assert_eq!(w[0].1, w[1].0);
    }
}

#[test]
fn test_leaf_partitions_all_one_leaf() {
    let assignments: Vec<u64> = vec![1, 1, 1];
    let ranges = leaf_partitions(&assignments, 2);
    assert_eq!(ranges, vec![(0, 0), (0, 3)]);
}

#[test]
fn test_max_abs_error() {
    // predictions vs indices 0..5
    let preds: Vec<u64> = vec![0, 3, 2, 1, 9];
    assert_eq!(max_abs_error(&preds, 0, 5), 5);
    assert_eq!(max_abs_error(&preds, 0, 4), 2);
    assert_eq!(max_abs_error(&preds, 2, 3), 0);
    assert_eq!(max_abs_error(&preds, 3, 3), 0);
}

#[test]
fn test_layering() {
    assert!(layering_allowed(&ModelRestriction::Anywhere, &ModelRestriction::Anywhere));
    assert!(layering_allowed(&ModelRestriction::MustBeTop, &ModelRestriction::Anywhere));
    assert!(!layering_allowed(&ModelRestriction::Anywhere, &ModelRestriction::MustBeTop));
    assert!(!layering_allowed(&ModelRestriction::MustBeBottom, &ModelRestriction::Anywhere));
}

#[test]
fn test_model_input_as_int() {
    assert_eq!(ModelInput::Int(42).as_int(), 42);
    assert_eq!(ModelInput::Float(41.9f64.to_bits()).as_int(), 41);
    assert_eq!(ModelInput::Float((-1.5f64).to_bits()).as_int(), 0);
}

#[test]
fn test_decimal_rendering() {
    assert_eq!(u64_to_decimal(0), "0".to_string());
    assert_eq!(u64_to_decimal(7), "7".to_string());
    assert_eq!(u64_to_decimal(1234567890), "1234567890".to_string());
    assert_eq!(u64_to_decimal(u64::MAX), format!("{}", u64::MAX));
}

#[test]
fn test_c_val() {
    assert_eq!(ModelParam::Int(981).c_val(), "981UL".to_string());
    assert_eq!(ModelParam::ShortArray(vec![]).c_val(), "{  }".to_string());
    assert_eq!(ModelParam::ShortArray(vec![5]).c_val(), "{ 5 }".to_string());
    assert_eq!(
        ModelParam::IntArray(vec![1, 22, 333]).c_val(),
        "{ 1UL, 22UL, 333UL }".to_string()
    );
    assert_eq!(ModelParam::Int32Array(vec![9, 8]).c_val(), "{ 9UL, 8UL }".to_string());
}
