use vm_core::context::{ArgBuffer, ManagedValue, TxContext, TxInput};

fn make_log_ctx() -> TxContext {
    TxContext::new(TxInput {
        from: vec![1u8; 32],
        to: vec![2u8; 32],
        egld_value: vec![],
        func_name: b"do_log".to_vec(),
        args: vec![],
        gas_limit: 0,
        gas_price: 0,
    })
}

#[test]
fn event_log_splits_packed_topics_in_order() {
    let mut ctx = make_log_ctx();
    let mut ab = ArgBuffer::new();
    ab.push_arg(&b"ab".to_vec());
    ab.push_arg(&b"".to_vec());
    ab.push_arg(&b"cde".to_vec());
    ctx.write_event_log(&ab, b"payload");
    assert_eq!(ctx.result.result_logs.len(), 1);
    let log = &ctx.result.result_logs[0];
    assert_eq!(log.address, vec![2u8; 32]);
    assert_eq!(log.endpoint, b"do_log".to_vec());
    assert_eq!(
        log.topics,
        vec![b"ab".to_vec(), b"".to_vec(), b"cde".to_vec()]
    );
    assert_eq!(log.data, b"payload".to_vec());
}

#[test]
fn legacy_log_converts_fixed_topics() {
    let mut ctx = make_log_ctx();
    let t1 = [7u8; 32];
    let mut t2 = [0u8; 32];
    t2[31] = 1;
    ctx.write_legacy_log(&[t1, t2], b"legacy");
    let log = &ctx.result.result_logs[0];
    assert_eq!(log.topics.len(), 2);
    assert_eq!(log.topics[0], vec![7u8; 32]);
    assert_eq!(log.topics[1], t2.to_vec());
    assert_eq!(log.data, b"legacy".to_vec());
}

#[test]
fn managed_log_flattens_and_matches_event_log_shape() {
    let mut ctx = make_log_ctx();
    let topics_handle = ctx.alloc_managed_value(ManagedValue::BufferSeq(vec![
        b"first".to_vec(),
        b"second".to_vec(),
    ]));
    let data_handle = ctx.alloc_managed_value(ManagedValue::Buffer(b"managed data".to_vec()));
    ctx.managed_write_log(topics_handle, data_handle);

    // the same call through the packed encoding gives an identical entry
    let mut ctx2 = make_log_ctx();
    let mut ab = ArgBuffer::new();
    ab.push_arg(&b"first".to_vec());
    ab.push_arg(&b"second".to_vec());
    ctx2.write_event_log(&ab, b"managed data");

    let a = &ctx.result.result_logs[0];
    let b = &ctx2.result.result_logs[0];
    assert_eq!(a.address, b.address);
    assert_eq!(a.endpoint, b.endpoint);
    assert_eq!(a.topics, b.topics);
    assert_eq!(a.data, b.data);
}

#[test]
fn three_log_apis_preserve_emission_order() {
    let mut ctx = make_log_ctx();

    let mut ab = ArgBuffer::new();
    ab.push_arg(&b"one".to_vec());
    ctx.write_event_log(&ab, b"d1");

    let t = [3u8; 32];
    ctx.write_legacy_log(&[t], b"d2");

    let th = ctx.alloc_managed_value(ManagedValue::BufferSeq(vec![b"three".to_vec()]));
    let dh = ctx.alloc_managed_value(ManagedValue::Buffer(b"d3".to_vec()));
    ctx.managed_write_log(th, dh);

    let logs = &ctx.result.result_logs;
    assert_eq!(logs.len(), 3);
    assert_eq!(logs[0].topics, vec![b"one".to_vec()]);
    assert_eq!(logs[0].data, b"d1".to_vec());
    assert_eq!(logs[1].topics, vec![vec![3u8; 32]]);
    assert_eq!(logs[1].data, b"d2".to_vec());
    assert_eq!(logs[2].topics, vec![b"three".to_vec()]);
    assert_eq!(logs[2].data, b"d3".to_vec());
}
