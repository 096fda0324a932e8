use rmi_core::params::ModelDataType;
use rmi_core::params::ModelParam;
use rmi_core::params::read_u16_le;
use rmi_core::params::read_u32_le;
use rmi_core::params::read_u64_le;

#[test]
fn test_param_sizes() {
    assert_eq!(ModelParam::Int(7).size(), 8);
    assert_eq!(ModelParam::Float(1.5f64.to_bits()).size(), 8);
    assert_eq!(ModelParam::ShortArray(vec![1, 2, 3]).size(), 6);
    assert_eq!(ModelParam::IntArray(vec![1, 2, 3]).size(), 24);
    assert_eq!(ModelParam::Int32Array(vec![1, 2, 3]).size(), 12);
    assert_eq!(ModelParam::FloatArray(vec![1.0f64.to_bits()]).size(), 8);
}

#[test]
fn test_param_lens_and_arrays() {
    assert_eq!(ModelParam::Int(7).len(), 1);
    assert_eq!(ModelParam::ShortArray(vec![1, 2, 3]).len(), 3);
    assert!(!ModelParam::Int(7).is_array());
    assert!(ModelParam::IntArray(vec![1]).is_array());
}

#[test]
fn test_c_type_projection() {
    assert_eq!(ModelParam::Int(7).c_type(), "uint64_t");
    assert_eq!(ModelParam::Float(0).c_type(), "double");
    assert_eq!(ModelParam::ShortArray(vec![]).c_type(), "short");
    assert_eq!(ModelParam::Int32Array(vec![]).c_type(), "uint32_t");
    assert_eq!(ModelParam::Int(7).c_type_mod(), "");
    assert_eq!(ModelParam::IntArray(vec![]).c_type_mod(), "[]");
    assert_eq!(ModelDataType::Int.c_type(), "uint64_t");
    assert_eq!(ModelDataType::Float.c_type(), "double");
}

#[test]
fn test_is_same_type() {
    assert!(ModelParam::Int(1).is_same_type(&ModelParam::Int(2)));
    assert!(!ModelParam::Int(1).is_same_type(&ModelParam::Float(2)));
    assert!(ModelParam::FloatArray(vec![]).is_same_type(&ModelParam::FloatArray(vec![1])));
}

#[test]
fn test_write_scalar_little_endian() {
    let mut blob: Vec<u8> = Vec::new();
    ModelParam::Int(0x0102030405060708).write_to(&mut blob);
    assert_eq!(blob, vec![8, 7, 6, 5, 4, 3, 2, 1]);
}

#[test]
fn test_float_blob_matches_native_encoding() {
    let x: f64 = 3.14159;
    let mut blob: Vec<u8> = Vec::new();
    ModelParam::Float(x.to_bits()).write_to(&mut blob);
    assert_eq!(blob, x.to_le_bytes().to_vec());
}

#[test]
fn test_param_blob_round_trip() {
    let x: f64 = -2.5e-3;
    let mut blob: Vec<u8> = Vec::new();
    ModelParam::Int(u64::MAX - 1).write_to(&mut blob);
    ModelParam::Float(x.to_bits()).write_to(&mut blob);
    ModelParam::ShortArray(vec![1, 0xffff]).write_to(&mut blob);
    ModelParam::Int32Array(vec![7, 0xdead_beef]).write_to(&mut blob);
    ModelParam::IntArray(vec![42]).write_to(&mut blob);

    assert_eq!(blob.len(), 8 + 8 + 4 + 8 + 8);
    assert_eq!(read_u64_le(&blob, 0), u64::MAX - 1);
    assert_eq!(f64::from_bits(read_u64_le(&blob, 8)).to_bits(), x.to_bits());
    assert_eq!(read_u16_le(&blob, 16), 1);
    assert_eq!(read_u16_le(&blob, 18), 0xffff);
    assert_eq!(read_u32_le(&blob, 20), 7);
    assert_eq!(read_u32_le(&blob, 24), 0xdead_beef);
    assert_eq!(read_u64_le(&blob, 28), 42);
}
