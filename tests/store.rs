use array2d::array::{
    f2vec64, f64clear_decoded, f64data_count, f64decode, f64height, f64merge_slice,
    f64read_data, f64resize, f64serialize, f64serialize_init, f64set_dim, f64width, f64write,
    slice2f64, Array2d, Float64, Meta,
};
use prost::Message;

use array2d::slot::{read_opt, write_opt, write_opt_init, Slot, SlotError};

fn elements(st: &Array2d) -> Vec<f64> {
    f64read_data(&st.decoded, |d: &Vec<u64>| {
        Ok(d.iter().map(|b| f64::from_bits(*b)).collect::<Vec<f64>>())
    })
    .unwrap()
}

#[test]
fn resize_on_empty_store_fills_array() {
    let mut st = Array2d::new();
    let r = f64resize(&mut st, 3, 4, 1.5f64.to_bits());
    assert!(r >= 12);
    assert_eq!(f64data_count(&st), 12);
    assert_eq!(f64width(&st), 3);
    assert_eq!(f64height(&st), 4);
    assert_eq!(elements(&st), vec![1.5; 12]);
}

#[test]
fn resize_zero_by_zero() {
    let mut st = Array2d::new();
    assert!(f64resize(&mut st, 0, 0, 0) >= 0);
    assert_eq!(f64data_count(&st), 0);
    assert_eq!(f64width(&st), 0);
    assert_eq!(f64height(&st), 0);
}

#[test]
fn resize_existing_keeps_prefix_and_metadata() {
    let mut st = Array2d::new();
    f64resize(&mut st, 2, 2, 1.0f64.to_bits());
    assert!(f64resize(&mut st, 3, 2, 2.0f64.to_bits()) >= 6);
    assert_eq!(elements(&st), vec![1.0, 1.0, 1.0, 1.0, 2.0, 2.0]);
    assert_eq!(f64width(&st), 2);
    assert_eq!(f64height(&st), 2);
    assert!(f64resize(&mut st, 1, 1, 9.0f64.to_bits()) >= 1);
    assert_eq!(elements(&st), vec![1.0]);
}

#[test]
fn resize_refuses_negative_dims() {
    let mut st = Array2d::new();
    assert_eq!(f64resize(&mut st, -1, 2, 0), -1);
    assert_eq!(f64data_count(&st), -1);
    assert!(st.decoded.value.is_none());
    f64resize(&mut st, 2, 2, 0);
    assert_eq!(f64resize(&mut st, 2, -3, 0), -1);
    assert_eq!(f64data_count(&st), 4);
}

#[test]
fn serialize_then_decode_on_fresh_store() {
    let mut st = Array2d::new();
    f64resize(&mut st, 2, 3, 0.25f64.to_bits());
    f64set_dim(&mut st, 3, 2);
    let n = f64serialize(&mut st);
    assert!(n > 0);
    let mut fresh = Array2d::new();
    fresh.serialized.value = st.serialized.value.take();
    assert_eq!(f64decode(&mut fresh, 6), n);
    assert_eq!(elements(&fresh), vec![0.25; 6]);
    assert_eq!(f64width(&fresh), 3);
    assert_eq!(f64height(&fresh), 2);
    let a = fresh.decoded.value.as_ref().unwrap();
    let m = a.meta.as_ref().unwrap();
    assert_eq!(m.raw, Some(Vec::new()));
}

#[test]
fn serialize_replaces_buffer() {
    let mut st = Array2d::new();
    f64resize(&mut st, 2, 2, 1.0f64.to_bits());
    let first = f64serialize(&mut st);
    let again = f64serialize(&mut st);
    assert_eq!(first, again);
    assert_eq!(st.serialized.value.as_ref().unwrap().len() as i32, first);
}

#[test]
fn clear_keeps_capacity() {
    let mut st = Array2d::new();
    let before = f64resize(&mut st, 3, 3, 7);
    let after = f64clear_decoded(&mut st);
    assert!(after >= before);
    assert_eq!(f64data_count(&st), 0);
    assert_eq!(f64width(&st), -1);
    assert_eq!(f64height(&st), -1);
}

#[test]
fn clear_on_empty_store_fails() {
    let mut st = Array2d::new();
    assert_eq!(f64clear_decoded(&mut st), -1);
}

#[test]
fn write_while_held_is_refused() {
    let mut st = Array2d::new();
    f64resize(&mut st, 1, 1, 0);
    assert_eq!(st.decoded.begin_write(), Ok(()));
    assert_eq!(st.decoded.begin_write(), Err(SlotError::LockUnavailable));
    let r = f64write(&mut st.decoded, |f: Float64| (f, Ok(1)));
    assert_eq!(r, Err(SlotError::LockUnavailable));
    assert_eq!(f64resize(&mut st, 2, 2, 0), -1);
    assert_eq!(f64data_count(&st), -1);
    st.decoded.end_write();
    assert_eq!(f64data_count(&st), 1);
}

#[test]
fn read_hold_blocks_writes_only() {
    let mut s: Slot<u32> = Slot::new();
    assert_eq!(write_opt(&mut s, |v: u32| (v, Ok(()))), Err(SlotError::NoData));
    assert_eq!(write_opt_init(&mut s, |v: u32| (v + 1, Ok(v)), || 5), Ok(5));
    assert_eq!(s.value, Some(6));
    assert_eq!(s.begin_read(), Ok(()));
    assert_eq!(read_opt(&s, |v: &u32| Ok(*v)), Ok(6));
    assert_eq!(write_opt(&mut s, |v: u32| (v, Ok(()))), Err(SlotError::LockUnavailable));
    s.end_read();
    assert_eq!(write_opt(&mut s, |v: u32| (v * 2, Ok(()))), Ok(()));
    assert_eq!(s.value, Some(12));
}

#[test]
fn failed_init_leaves_slot_empty() {
    let mut s: Slot<u32> = Slot::new();
    let r: Result<(), SlotError> =
        write_opt_init(&mut s, |v: u32| (v, Err(SlotError::InvalidArgument)), || 3);
    assert_eq!(r, Err(SlotError::InvalidArgument));
    assert_eq!(s.value, None);
}

#[test]
fn set_dim_needs_metadata() {
    let mut st = Array2d::new();
    assert!(!f64set_dim(&mut st, 5, 7));
    f64resize(&mut st, 2, 3, 0);
    assert!(f64set_dim(&mut st, 5, 7));
    assert_eq!(f64width(&st), 5);
    assert_eq!(f64height(&st), 7);
    assert_eq!(f64data_count(&st), 6);
    assert!(!f64set_dim(&mut st, -5, 7));
    assert_eq!(f64width(&st), 5);
}

#[test]
fn decode_malformed_bytes_fails() {
    let mut st = Array2d::new();
    st.serialized.value = Some(vec![0x12, 0x05, 0x01]);
    assert_eq!(f64decode(&mut st, 4), -1);
    assert!(st.decoded.value.is_none());
    f64resize(&mut st, 1, 2, 3);
    st.serialized.value = Some(vec![0xff]);
    assert_eq!(f64decode(&mut st, 4), -1);
    assert_eq!(f64data_count(&st), 2);
    assert_eq!(f64width(&st), 1);
}

#[test]
fn decode_without_buffer_fails() {
    let mut st = Array2d::new();
    assert_eq!(f64decode(&mut st, 0), -1);
}

#[test]
fn decode_merges_into_existing_array() {
    let mut st = Array2d::new();
    f64resize(&mut st, 1, 1, 1.0f64.to_bits());
    let n = f64serialize(&mut st);
    assert!(n > 0);
    assert!(f64decode(&mut st, 0) > n);
    assert_eq!(elements(&st), vec![1.0, 1.0]);
    assert_eq!(f64width(&st), 1);
}

#[test]
fn serialize_init_sizes_empty_buffer() {
    let mut st = Array2d::new();
    assert_eq!(f64serialize_init(&mut st), -1);
    f64resize(&mut st, 2, 2, 0);
    assert_eq!(f64serialize_init(&mut st), 0);
    assert_eq!(st.serialized.value.as_ref().map(|v| v.len()), Some(0));
    let n = f64serialize(&mut st);
    assert_eq!(f64serialize_init(&mut st), n);
}

#[test]
fn serialize_on_empty_store_fails() {
    let mut st = Array2d::new();
    assert_eq!(f64serialize(&mut st), -1);
    assert!(st.serialized.value.is_none());
}

#[test]
fn encoding_of_small_array() {
    let m = Float64 {
        meta: Some(Meta { raw: Some(Vec::new()), width: 1, height: 300 }),
        data: vec![1.0f64.to_bits()],
    };
    let expected: Vec<u8> = vec![
        0x0a, 0x07, 0x0a, 0x00, 0x10, 0x01, 0x18, 0xac, 0x02, 0x12, 0x08, 0x00, 0x00, 0x00, 0x00,
        0x00, 0x00, 0xf0, 0x3f,
    ];
    assert_eq!(f2vec64(&m), expected);
}

#[test]
fn decode_unpacked_and_unknown_fields() {
    let mut bytes: Vec<u8> = vec![0x11];
    bytes.extend_from_slice(&2.5f64.to_bits().to_le_bytes());
    bytes.extend_from_slice(&[0x18, 0x05, 0x25, 1, 2, 3, 4]);
    let f = slice2f64(&bytes).unwrap();
    assert!(f.meta.is_none());
    assert_eq!(f.data, vec![2.5f64.to_bits()]);
}

#[test]
fn decode_refuses_bad_lengths() {
    assert_eq!(slice2f64(&[0x12, 0x03, 1, 2, 3]).err(), Some(SlotError::CodecFailure));
    assert_eq!(slice2f64(&[0x08]).err(), Some(SlotError::CodecFailure));
    assert_eq!(slice2f64(&[0x00, 0x01]).err(), Some(SlotError::CodecFailure));
    assert_eq!(slice2f64(&[0x0a, 0x02, 0x10]).err(), Some(SlotError::CodecFailure));
    assert!(slice2f64(&[]).is_ok());
}

#[test]
fn merge_keeps_value_on_failure() {
    let mut f = Float64 { meta: None, data: vec![7] };
    assert_eq!(f64merge_slice(&[0x11, 1, 2], &mut f), Err(SlotError::CodecFailure));
    assert_eq!(f.data, vec![7]);
    assert!(f.meta.is_none());
    assert_eq!(f64merge_slice(&[0x0a, 0x02, 0x10, 0x04], &mut f), Ok(()));
    assert_eq!(f.meta.as_ref().map(|m| m.width), Some(4));
    assert_eq!(f.data, vec![7]);
}

#[test]
fn annotations_are_checked_and_merged() {
    let mut fields = std::collections::BTreeMap::new();
    fields.insert(
        "unit".to_string(),
        prost_types::Value { kind: Some(prost_types::value::Kind::StringValue("m".to_string())) },
    );
    let good = prost_types::Struct { fields }.encode_to_vec();
    let m = Float64 {
        meta: Some(Meta { raw: Some(good.clone()), width: 2, height: 1 }),
        data: vec![1, 2],
    };
    let bytes = f2vec64(&m);
    let back = slice2f64(&bytes).unwrap();
    assert_eq!(back.meta.as_ref().unwrap().raw, Some(good.clone()));
    assert_eq!(back.data, vec![1, 2]);

    let bad = Float64 {
        meta: Some(Meta { raw: Some(vec![0x0a, 0x05, 0x0a]), width: 2, height: 1 }),
        data: vec![],
    };
    assert_eq!(slice2f64(&f2vec64(&bad)).err(), Some(SlotError::CodecFailure));
}
