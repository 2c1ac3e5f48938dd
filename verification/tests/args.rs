use vm_core::context::{TxContext, TxInput, STATUS_ARG_OUT_OF_RANGE, STATUS_USER_ERROR};

fn make_ctx(args: Vec<Vec<u8>>) -> TxContext {
    TxContext::new(TxInput {
        from: vec![1u8; 32],
        to: vec![2u8; 32],
        egld_value: vec![],
        func_name: b"test_fn".to_vec(),
        args,
        gas_limit: 0,
        gas_price: 0,
    })
}

#[test]
fn num_arguments_and_each_len() {
    let ctx = make_ctx(vec![vec![1, 2, 3], vec![], vec![9; 5]]);
    assert_eq!(ctx.get_num_arguments(), 3);
    assert_eq!(ctx.get_argument_len(0).unwrap(), 3);
    assert_eq!(ctx.get_argument_len(1).unwrap(), 0);
    assert_eq!(ctx.get_argument_len(2).unwrap(), 5);
}

#[test]
fn argument_len_bad_index_is_status_4() {
    let ctx = make_ctx(vec![vec![1, 2, 3]]);
    let e = ctx.get_argument_len(1).unwrap_err();
    assert_eq!(e.status, STATUS_USER_ERROR);
    assert_eq!(e.message, b"Tx arg index out of range".to_vec());
    let e = ctx.get_argument_len(-1).unwrap_err();
    assert_eq!(e.status, STATUS_USER_ERROR);
}

#[test]
fn argument_bytes_come_back_verbatim() {
    let ctx = make_ctx(vec![vec![0, 7, 0], vec![255]]);
    assert_eq!(ctx.get_argument_vec_u8(0).unwrap(), vec![0, 7, 0]);
    assert_eq!(ctx.get_argument_vec_u8(1).unwrap(), vec![255]);
}

#[test]
fn argument_u64_decodes_big_endian() {
    let ctx = make_ctx(vec![vec![1, 0], vec![], vec![0xff; 8], vec![0, 0, 0, 5]]);
    assert_eq!(ctx.get_argument_u64(0).unwrap(), 256);
    assert_eq!(ctx.get_argument_u64(1).unwrap(), 0);
    assert_eq!(ctx.get_argument_u64(2).unwrap(), u64::MAX);
    assert_eq!(ctx.get_argument_u64(3).unwrap(), 5);
}

#[test]
fn argument_i64_decodes_twos_complement() {
    let ctx = make_ctx(vec![
        vec![0xff],
        vec![0x80],
        vec![0x80, 0, 0, 0, 0, 0, 0, 0],
        vec![0x7f, 0xff, 0xff, 0xff, 0xff, 0xff, 0xff, 0xff],
    ]);
    assert_eq!(ctx.get_argument_i64(0).unwrap(), -1);
    assert_eq!(ctx.get_argument_i64(1).unwrap(), -128);
    assert_eq!(ctx.get_argument_i64(2).unwrap(), i64::MIN);
    assert_eq!(ctx.get_argument_i64(3).unwrap(), i64::MAX);
}

#[test]
fn argument_u64_too_large_is_status_10_not_4() {
    // nine non-zero bytes: magnitude exceeds 64 bits
    let ctx = make_ctx(vec![vec![1, 0, 0, 0, 0, 0, 0, 0, 0]]);
    let e = ctx.get_argument_u64(0).unwrap_err();
    assert_eq!(e.status, STATUS_ARG_OUT_OF_RANGE);
    assert_ne!(e.status, STATUS_USER_ERROR);
    assert_eq!(e.message, b"argument out of range".to_vec());
}

#[test]
fn argument_i64_too_large_is_status_10_not_4() {
    let ctx = make_ctx(vec![vec![0x80, 0, 0, 0, 0, 0, 0, 0, 0]]);
    let e = ctx.get_argument_i64(0).unwrap_err();
    assert_eq!(e.status, STATUS_ARG_OUT_OF_RANGE);
    assert_eq!(e.message, b"argument out of range".to_vec());
}

#[test]
fn argument_bad_index_is_status_4_never_10() {
    let ctx = make_ctx(vec![vec![1]]);
    let e = ctx.get_argument_i64(7).unwrap_err();
    assert_eq!(e.status, STATUS_USER_ERROR);
    assert_ne!(e.status, STATUS_ARG_OUT_OF_RANGE);
    let e = ctx.get_argument_u64(7).unwrap_err();
    assert_eq!(e.status, STATUS_USER_ERROR);
}

#[test]
fn negative_argument_fails_u64_narrowing() {
    // a negative two's-complement value has unsigned magnitude above u64::MAX
    let ctx = make_ctx(vec![vec![0xff; 9]]);
    let e = ctx.get_argument_u64(0).unwrap_err();
    assert_eq!(e.status, STATUS_ARG_OUT_OF_RANGE);
}

#[test]
fn load_argument_overwrites_managed_buffer() {
    let mut ctx = make_ctx(vec![vec![4, 5, 6]]);
    let h = ctx.alloc_managed_value(vm_core::context::ManagedValue::Buffer(vec![9, 9]));
    ctx.load_argument_managed_buffer(0, h).unwrap();
    match &ctx.arena[h] {
        vm_core::context::ManagedValue::Buffer(b) => assert_eq!(b, &vec![4, 5, 6]),
        _ => panic!("expected a buffer slot"),
    }
}
