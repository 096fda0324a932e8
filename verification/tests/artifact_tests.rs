use rmi_core::artifact::RmiArtifact;
use rmi_core::artifact::ARTIFACT_HEADER_SIZE;
use rmi_core::params::ModelParam;
use rmi_core::params::read_u64_le;

fn sample(bounds_checked: bool) -> RmiArtifact {
    RmiArtifact {
        top_params: vec![
            ModelParam::Float(1.5f64.to_bits()),
            ModelParam::Float(0.25f64.to_bits()),
        ],
        leaf_params: vec![
            vec![ModelParam::Int(11), ModelParam::Int(22)],
            vec![ModelParam::ShortArray(vec![1, 2, 3])],
        ],
        leaf_errors: vec![4, 9],
        bounds_checked,
    }
}

#[test]
fn test_rmi_size() {
    let a = sample(true);
    // two 8-byte top params, 16 + 6 bytes of leaf params, one u64 per leaf
    assert_eq!(a.rmi_size(false), 16 + 22 + 16);
    assert_eq!(a.rmi_size(true), 16 + 22 + 16 + ARTIFACT_HEADER_SIZE);
    let b = sample(false);
    assert_eq!(b.rmi_size(false), 16 + 22);
}

#[test]
fn test_write_params_layout() {
    let a = sample(true);
    let mut blob: Vec<u8> = Vec::new();
    a.write_params(&mut blob);
    assert_eq!(blob.len(), 16 + 22 + 16);
    // top model floats, bit-exact
    assert_eq!(read_u64_le(&blob, 0), 1.5f64.to_bits());
    assert_eq!(read_u64_le(&blob, 8), 0.25f64.to_bits());
    // first leaf params, then its error bound
    assert_eq!(read_u64_le(&blob, 16), 11);
    assert_eq!(read_u64_le(&blob, 24), 22);
    assert_eq!(read_u64_le(&blob, 32), 4);
    // second leaf: three shorts, then its error bound
    assert_eq!(&blob[40..46], &[1, 0, 2, 0, 3, 0]);
    assert_eq!(read_u64_le(&blob, 46), 9);
}

#[test]
fn test_write_params_without_bounds_checks() {
    let a = sample(false);
    let mut blob: Vec<u8> = Vec::new();
    a.write_params(&mut blob);
    assert_eq!(blob.len(), 16 + 22);
    assert_eq!(read_u64_le(&blob, 16), 11);
}
