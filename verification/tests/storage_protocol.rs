use vm_core::bytes::{top_decode_u64, top_encode_u64, trim_leading_zeros, trim_signed_bytes};
use vm_core::context::{TxContext, TxInput, STATUS_USER_ERROR};
use vm_core::storage::{
    storage_get, storage_get_len, storage_set, BigIntValue, BigUintValue, DecodeTarget,
    StorageGetInput, TypedValue,
};

fn make_store_ctx() -> TxContext {
    TxContext::new(TxInput {
        from: vec![1u8; 32],
        to: vec![2u8; 32],
        egld_value: vec![],
        func_name: b"store".to_vec(),
        args: vec![],
        gas_limit: 0,
        gas_price: 0,
    })
}

#[test]
fn number_encoding_is_minimal_big_endian() {
    assert_eq!(top_encode_u64(0), Vec::<u8>::new());
    assert_eq!(top_encode_u64(1), vec![1]);
    assert_eq!(top_encode_u64(256), vec![1, 0]);
    assert_eq!(top_encode_u64(1125), vec![4, 101]);
    assert_eq!(top_encode_u64(u64::MAX), vec![0xff; 8]);
}

#[test]
fn number_decoding_reads_big_endian() {
    assert_eq!(top_decode_u64(&vec![]), Some(0));
    assert_eq!(top_decode_u64(&vec![0, 0, 1, 0]), Some(256));
    assert_eq!(top_decode_u64(&vec![0xff; 8]), Some(u64::MAX));
    assert_eq!(top_decode_u64(&vec![0; 9]), None);
}

#[test]
fn trimming_normalizes_representations() {
    assert_eq!(trim_leading_zeros(&vec![0, 0, 4, 101]), vec![4, 101]);
    assert_eq!(trim_leading_zeros(&vec![0, 0]), Vec::<u8>::new());
    assert_eq!(trim_signed_bytes(&vec![0xff, 0xff, 0x9b]), vec![0x9b]);
    assert_eq!(trim_signed_bytes(&vec![0, 0, 0x7f]), vec![0x7f]);
    assert_eq!(trim_signed_bytes(&vec![0]), Vec::<u8>::new());
    // a leading zero protecting a high bit is not redundant
    assert_eq!(trim_signed_bytes(&vec![0, 0x80]), vec![0, 0x80]);
}

#[test]
fn round_trip_buffer() {
    let mut ctx = make_store_ctx();
    let key = b"k".to_vec();
    storage_set(&mut ctx, &key, &TypedValue::Buffer(b"hello".to_vec()));
    match storage_get(&ctx, &key, DecodeTarget::Buffer).unwrap() {
        TypedValue::Buffer(b) => assert_eq!(b, b"hello".to_vec()),
        _ => panic!("expected a buffer"),
    }
    assert_eq!(storage_get_len(&ctx, &key), 5);
}

#[test]
fn round_trip_big_uint_including_zero() {
    let mut ctx = make_store_ctx();
    let key = b"k".to_vec();
    let v = BigUintValue::from_bytes_be(&vec![0, 0, 4, 101]);
    assert_eq!(v.bytes, vec![4, 101]);
    storage_set(&mut ctx, &key, &TypedValue::BigUint(v));
    match storage_get(&ctx, &key, DecodeTarget::BigUint).unwrap() {
        TypedValue::BigUint(u) => assert_eq!(u.bytes, vec![4, 101]),
        _ => panic!("expected a big uint"),
    }
    let zero = BigUintValue::from_bytes_be(&vec![0, 0]);
    assert_eq!(zero.bytes, Vec::<u8>::new());
    storage_set(&mut ctx, &key, &TypedValue::BigUint(zero));
    match storage_get(&ctx, &key, DecodeTarget::BigUint).unwrap() {
        TypedValue::BigUint(u) => assert_eq!(u.bytes, Vec::<u8>::new()),
        _ => panic!("expected a big uint"),
    }
}

#[test]
fn round_trip_big_int_zero_and_negative() {
    let mut ctx = make_store_ctx();
    let key = b"k".to_vec();
    // -101 in minimal two's complement
    let v = BigIntValue::from_signed_bytes_be(&vec![0xff, 0xff, 0x9b]);
    assert_eq!(v.bytes, vec![0x9b]);
    storage_set(&mut ctx, &key, &TypedValue::BigInt(v));
    match storage_get(&ctx, &key, DecodeTarget::BigInt).unwrap() {
        TypedValue::BigInt(i) => assert_eq!(i.bytes, vec![0x9b]),
        _ => panic!("expected a big int"),
    }
    let zero = BigIntValue::from_signed_bytes_be(&vec![0]);
    assert_eq!(zero.bytes, Vec::<u8>::new());
    storage_set(&mut ctx, &key, &TypedValue::BigInt(zero));
    match storage_get(&ctx, &key, DecodeTarget::BigInt).unwrap() {
        TypedValue::BigInt(i) => assert_eq!(i.bytes, Vec::<u8>::new()),
        _ => panic!("expected a big int"),
    }
}

#[test]
fn round_trip_u64_through_generic_path() {
    let mut ctx = make_store_ctx();
    let key = b"k".to_vec();
    storage_set(&mut ctx, &key, &TypedValue::U64(1125));
    match storage_get(&ctx, &key, DecodeTarget::U64).unwrap() {
        TypedValue::U64(n) => assert_eq!(n, 1125),
        _ => panic!("expected a number"),
    }
    // the slot holds the minimal big-endian encoding
    match storage_get(&ctx, &key, DecodeTarget::Buffer).unwrap() {
        TypedValue::Buffer(b) => assert_eq!(b, vec![4, 101]),
        _ => panic!("expected a buffer"),
    }
}

#[test]
fn over_length_numeric_decode_aborts_with_prefix() {
    let mut ctx = make_store_ctx();
    let key = b"k".to_vec();
    storage_set(&mut ctx, &key, &TypedValue::Buffer(vec![1; 9]));
    let e = storage_get(&ctx, &key, DecodeTarget::U64).unwrap_err();
    assert_eq!(e.status, STATUS_USER_ERROR);
    assert_eq!(e.message, b"storage decode error: input too long".to_vec());
    assert!(e.message.starts_with(b"storage decode error: "));
}

#[test]
fn missing_key_reads_as_empty() {
    let ctx = make_store_ctx();
    let key = b"absent".to_vec();
    assert_eq!(storage_get_len(&ctx, &key), 0);
    match storage_get(&ctx, &key, DecodeTarget::BigUint).unwrap() {
        TypedValue::BigUint(u) => assert_eq!(u.bytes, Vec::<u8>::new()),
        _ => panic!("expected a big uint"),
    }
    match storage_get(&ctx, &key, DecodeTarget::U64).unwrap() {
        TypedValue::U64(n) => assert_eq!(n, 0),
        _ => panic!("expected a number"),
    }
}

#[test]
fn overwriting_a_slot_keeps_other_slots() {
    let mut ctx = make_store_ctx();
    let k1 = b"k1".to_vec();
    let k2 = b"k2".to_vec();
    storage_set(&mut ctx, &k1, &TypedValue::Buffer(b"a".to_vec()));
    storage_set(&mut ctx, &k2, &TypedValue::Buffer(b"b".to_vec()));
    storage_set(&mut ctx, &k1, &TypedValue::Buffer(b"c".to_vec()));
    match storage_get(&ctx, &k1, DecodeTarget::Buffer).unwrap() {
        TypedValue::Buffer(b) => assert_eq!(b, b"c".to_vec()),
        _ => panic!("expected a buffer"),
    }
    match storage_get(&ctx, &k2, DecodeTarget::Buffer).unwrap() {
        TypedValue::Buffer(b) => assert_eq!(b, b"b".to_vec()),
        _ => panic!("expected a buffer"),
    }
}

#[test]
fn specialized_big_uint_normalizes_stored_bytes() {
    let mut ctx = make_store_ctx();
    let key = b"k".to_vec();
    storage_set(&mut ctx, &key, &TypedValue::Buffer(vec![0, 0, 7]));
    match storage_get(&ctx, &key, DecodeTarget::BigUint).unwrap() {
        TypedValue::BigUint(u) => assert_eq!(u.bytes, vec![7]),
        _ => panic!("expected a big uint"),
    }
}

#[test]
fn decode_source_byte_len_and_bounded_decode() {
    let input = StorageGetInput::new(vec![1, 2, 3, 4]);
    assert_eq!(input.byte_len(), 4);
    assert_eq!(input.into_max_size_buffer(4).unwrap(), vec![1, 2, 3, 4]);

    let input = StorageGetInput::new(vec![1, 2, 3, 4]);
    let e = input.into_max_size_buffer(3).unwrap_err();
    assert_eq!(e.status, STATUS_USER_ERROR);
    assert!(e.message.starts_with(b"storage decode error: "));
}

#[test]
fn specialization_dispatch_covers_each_target() {
    assert!(StorageGetInput::supports_specialized_type(DecodeTarget::Buffer));
    assert!(StorageGetInput::supports_specialized_type(DecodeTarget::BigUint));
    assert!(StorageGetInput::supports_specialized_type(DecodeTarget::BigInt));
    assert!(!StorageGetInput::supports_specialized_type(DecodeTarget::U64));
    let input = StorageGetInput::new(vec![0, 9]);
    match input.into_specialized(DecodeTarget::BigUint) {
        TypedValue::BigUint(u) => assert_eq!(u.bytes, vec![9]),
        _ => panic!("expected a big uint"),
    }
}
