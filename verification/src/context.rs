//! Per-call execution state: the transaction input, the accumulated output
//! (status, return values, logs), the managed-value arena, and the
//! contract-facing argument and log APIs.
use vstd::prelude::*;

use crate::bigint::{big_signed_to_i64, big_unsigned_to_u64};
use crate::bytes::{be_signed, be_unsigned, clone_bytes, copy_range};

verus! {

/// Status code of a successful call.
pub const STATUS_OK: u64 = 0;

/// Generic bounds/validation failure status.
pub const STATUS_USER_ERROR: u64 = 4;

/// Distinguished status for a big integer that does not fit 64 bits.
pub const STATUS_ARG_OUT_OF_RANGE: u64 = 10;

/// "Tx arg index out of range"
pub open spec fn msg_arg_index_out_of_range() -> Seq<u8> {
    seq![
        84u8, 120u8, 32u8, 97u8, 114u8, 103u8, 32u8, 105u8, 110u8, 100u8, 101u8, 120u8, 32u8,
        111u8, 117u8, 116u8, 32u8, 111u8, 102u8, 32u8, 114u8, 97u8, 110u8, 103u8, 101u8,
    ]
}

/// "argument out of range"
pub open spec fn msg_arg_out_of_range() -> Seq<u8> {
    seq![
        97u8, 114u8, 103u8, 117u8, 109u8, 101u8, 110u8, 116u8, 32u8, 111u8, 117u8, 116u8, 32u8,
        111u8, 102u8, 32u8, 114u8, 97u8, 110u8, 103u8, 101u8,
    ]
}

/// Abnormal termination of the current transaction: a status code plus a
/// diagnostic message, reported on the transaction output by the executor.
#[derive(Debug)]
pub struct TxPanic {
    pub status: u64,
    pub message: Vec<u8>,
}

impl TxPanic {
    fn arg_index_out_of_range() -> (r: TxPanic)
        ensures
            r.status == STATUS_USER_ERROR,
            r.message@ == msg_arg_index_out_of_range(),
    {
        let message: Vec<u8> = vec![
            84u8, 120u8, 32u8, 97u8, 114u8, 103u8, 32u8, 105u8, 110u8, 100u8, 101u8, 120u8, 32u8,
            111u8, 117u8, 116u8, 32u8, 111u8, 102u8, 32u8, 114u8, 97u8, 110u8, 103u8, 101u8,
        ];
        proof {
            assert(message@ =~= msg_arg_index_out_of_range());
        }
        TxPanic { status: STATUS_USER_ERROR, message }
    }

    fn arg_out_of_range() -> (r: TxPanic)
        ensures
            r.status == STATUS_ARG_OUT_OF_RANGE,
            r.message@ == msg_arg_out_of_range(),
    {
        let message: Vec<u8> = vec![
            97u8, 114u8, 103u8, 117u8, 109u8, 101u8, 110u8, 116u8, 32u8, 111u8, 117u8, 116u8,
            32u8, 111u8, 102u8, 32u8, 114u8, 97u8, 110u8, 103u8, 101u8,
        ];
        proof {
            assert(message@ =~= msg_arg_out_of_range());
        }
        TxPanic { status: STATUS_ARG_OUT_OF_RANGE, message }
    }
}

/// One transaction's immutable input.
pub struct TxInput {
    pub from: Vec<u8>,
    pub to: Vec<u8>,
    pub egld_value: Vec<u8>,
    pub func_name: Vec<u8>,
    pub args: Vec<Vec<u8>>,
    pub gas_limit: u64,
    pub gas_price: u64,
}

impl TxInput {
    /// The value transferred is kept canonical and the argument count fits
    /// the signed 32-bit count the argument API reports.
    pub open spec fn wf(self) -> bool {
        &&& crate::bytes::canonical_mag(self.egld_value@)
        &&& self.args@.len() <= i32::MAX
    }
}

/// One emitted event: address and endpoint of the emitting call, ordered
/// topics, and an opaque data payload.
#[derive(Debug)]
pub struct TxLog {
    pub address: Vec<u8>,
    pub endpoint: Vec<u8>,
    pub topics: Vec<Vec<u8>>,
    pub data: Vec<u8>,
}

pub open spec fn log_matches(
    l: TxLog,
    address: Seq<u8>,
    endpoint: Seq<u8>,
    topics: Seq<Seq<u8>>,
    data: Seq<u8>,
) -> bool {
    &&& l.address@ == address
    &&& l.endpoint@ == endpoint
    &&& l.topics.deep_view() == topics
    &&& l.data@ == data
}

/// The transaction's accumulated result.
#[derive(Debug)]
pub struct TxResult {
    pub result_status: u64,
    pub result_message: Vec<u8>,
    pub result_values: Vec<Vec<u8>>,
    pub result_logs: Vec<TxLog>,
}

/// One slot of the buffered contract storage.
#[derive(Clone, Debug)]
pub struct StorageEntry {
    pub key: Vec<u8>,
    pub value: Vec<u8>,
}

/// Storage keys are unique.
pub open spec fn storage_wf(entries: Seq<StorageEntry>) -> bool {
    forall|i: int, j: int|
        0 <= i < j < entries.len() ==> entries[i].key@ != entries[j].key@
}

/// The bytes held under a key; a missing key holds the empty byte string.
pub open spec fn storage_lookup(entries: Seq<StorageEntry>, key: Seq<u8>) -> Seq<u8>
    decreases entries.len(),
{
    if entries.len() == 0 {
        Seq::empty()
    } else if entries[0].key@ == key {
        entries[0].value@
    } else {
        storage_lookup(entries.drop_first(), key)
    }
}

/// A context-local managed value, referenced by its arena index.
pub enum ManagedValue {
    Buffer(Vec<u8>),
    BufferSeq(Vec<Vec<u8>>),
}

/// The byte string a Buffer arena slot holds.
pub open spec fn arena_buffer(v: ManagedValue) -> Seq<u8> {
    match v {
        ManagedValue::Buffer(b) => b@,
        ManagedValue::BufferSeq(_) => Seq::empty(),
    }
}

/// The buffer sequence a BufferSeq arena slot holds.
pub open spec fn arena_buffers(v: ManagedValue) -> Seq<Seq<u8>> {
    match v {
        ManagedValue::Buffer(_) => Seq::empty(),
        ManagedValue::BufferSeq(bs) => bs.deep_view(),
    }
}

/// Per-call execution context: owns the input, the buffered storage of the
/// executing account, the pending output, and the managed-value arena.
pub struct TxContext {
    pub input: TxInput,
    pub storage: Vec<StorageEntry>,
    pub result: TxResult,
    pub arena: Vec<ManagedValue>,
}

/// The parts of a context that only the transaction pipeline may touch are
/// unchanged, and exactly one log was appended with the given shape.
pub open spec fn appended_log(
    pre: TxContext,
    post: TxContext,
    topics: Seq<Seq<u8>>,
    data: Seq<u8>,
) -> bool {
    &&& post.input == pre.input
    &&& post.storage == pre.storage
    &&& post.arena == pre.arena
    &&& post.result.result_status == pre.result.result_status
    &&& post.result.result_message == pre.result.result_message
    &&& post.result.result_values == pre.result.result_values
    &&& post.result.result_logs@.len() == pre.result.result_logs@.len() + 1
    &&& post.result.result_logs@.drop_last() == pre.result.result_logs@
    &&& log_matches(
        post.result.result_logs@.last(),
        pre.input.to@,
        pre.input.func_name@,
        topics,
        data,
    )
}

/// Topics of a log call, as an ordered sequence of variable-length byte
/// strings packed into one data buffer plus a parallel length sequence.
pub struct ArgBuffer {
    pub data: Vec<u8>,
    pub lengths: Vec<usize>,
}

/// The sum of a sequence of lengths.
pub open spec fn total_len(lengths: Seq<usize>) -> nat
    decreases lengths.len(),
{
    if lengths.len() == 0 {
        0
    } else {
        (lengths[0] as nat) + total_len(lengths.drop_first())
    }
}

/// Splits `data` back into the topics declared by `lengths`, starting at
/// offset `off`.
pub open spec fn split_topics(data: Seq<u8>, lengths: Seq<usize>, off: int) -> Seq<Seq<u8>>
    decreases lengths.len(),
{
    if lengths.len() == 0 {
        Seq::empty()
    } else {
        seq![data.subrange(off, off + lengths[0])] + split_topics(
            data,
            lengths.drop_first(),
            off + lengths[0],
        )
    }
}

/// The concatenation of an ordered sequence of byte strings.
pub open spec fn concat_topics(ts: Seq<Seq<u8>>) -> Seq<u8>
    decreases ts.len(),
{
    if ts.len() == 0 {
        Seq::empty()
    } else {
        ts[0] + concat_topics(ts.drop_first())
    }
}

pub proof fn lemma_concat_push(ts: Seq<Seq<u8>>, t: Seq<u8>)
    ensures
        concat_topics(ts.push(t)) == concat_topics(ts) + t,
    decreases ts.len(),
{
    if ts.len() == 0 {
        let p = ts.push(t);
        assert(p[0] == t);
        assert(p.drop_first() =~= Seq::<Seq<u8>>::empty());
        assert(concat_topics(p.drop_first()) =~= Seq::<u8>::empty());
        assert(concat_topics(ts) =~= Seq::<u8>::empty());
        assert(concat_topics(p) =~= concat_topics(ts) + t);
    } else {
        assert(ts.push(t).drop_first() =~= ts.drop_first().push(t));
        lemma_concat_push(ts.drop_first(), t);
        assert(concat_topics(ts.push(t)) =~= concat_topics(ts) + t);
    }
}

/// Splitting a packed buffer by the lengths of the strings it was packed
/// from yields those strings back, in order.
pub proof fn lemma_split_concat(data: Seq<u8>, lengths: Seq<usize>, ts: Seq<Seq<u8>>, off: int)
    requires
        lengths.len() == ts.len(),
        forall|i: int| 0 <= i < ts.len() ==> (#[trigger] lengths[i]) as nat == ts[i].len(),
        0 <= off <= data.len(),
        data.subrange(off, data.len() as int) == concat_topics(ts),
    ensures
        split_topics(data, lengths, off) == ts,
    decreases ts.len(),
{
    if ts.len() == 0 {
        assert(split_topics(data, lengths, off) =~= ts);
    } else {
        let l0 = lengths[0] as int;
        let tail = data.subrange(off, data.len() as int);
        assert(tail.len() == ts[0].len() + concat_topics(ts.drop_first()).len());
        assert(off + l0 <= data.len());
        assert(data.subrange(off, off + l0) =~= ts[0]) by {
            assert forall|k: int| 0 <= k < l0 implies data.subrange(off, off + l0)[k]
                == ts[0][k] by {
                assert(tail[k] == (ts[0] + concat_topics(ts.drop_first()))[k]);
            }
        }
        assert(data.subrange(off + l0, data.len() as int) =~= concat_topics(ts.drop_first())) by {
            assert forall|k: int| 0 <= k < data.len() - off - l0 implies data.subrange(
                off + l0,
                data.len() as int,
            )[k] == concat_topics(ts.drop_first())[k] by {
                assert(tail[k + l0] == (ts[0] + concat_topics(ts.drop_first()))[k + l0]);
            }
        }
        lemma_split_concat(data, lengths.drop_first(), ts.drop_first(), off + l0);
        assert(split_topics(data, lengths, off) =~= ts);
    }
}

impl ArgBuffer {
    /// Lengths and data agree: the declared lengths consume the whole buffer.
    pub open spec fn wf(self) -> bool {
        total_len(self.lengths@) == self.data@.len()
    }

    pub fn new() -> (r: ArgBuffer)
        ensures
            r.wf(),
            r.data@ == Seq::<u8>::empty(),
            r.lengths@ == Seq::<usize>::empty(),
    {
        let r = ArgBuffer { data: Vec::new(), lengths: Vec::new() };
        proof {
            assert(total_len(r.lengths@) == 0);
        }
        r
    }

    /// Appends one topic: its bytes to the data buffer, its length to the
    /// parallel length sequence.
    pub fn push_arg(&mut self, arg: &Vec<u8>)
        requires
            old(self).wf(),
        ensures
            final(self).wf(),
            final(self).data@ == old(self).data@ + arg@,
            final(self).lengths@ == old(self).lengths@.push(arg@.len() as usize),
    {
        proof {
            lemma_total_len_push(self.lengths@, arg@.len() as usize);
        }
        let ghost pre_data = self.data@;
        self.data.extend_from_slice(arg.as_slice());
        proof {
            assert(self.data@ =~= pre_data + arg@);
        }
        self.lengths.push(arg.len());
    }
}

pub proof fn lemma_total_len_push(lengths: Seq<usize>, l: usize)
    ensures
        total_len(lengths.push(l)) == total_len(lengths) + l,
    decreases lengths.len(),
{
    if lengths.len() == 0 {
        assert(lengths.push(l).drop_first() =~= Seq::<usize>::empty());
        assert(total_len(Seq::<usize>::empty()) == 0);
        assert(lengths.push(l)[0] == l);
    } else {
        assert(lengths.push(l).drop_first() =~= lengths.drop_first().push(l));
        lemma_total_len_push(lengths.drop_first(), l);
    }
}

impl TxContext {
    /// A fresh context for one call: empty storage, output, and arena.
    pub fn new(input: TxInput) -> (r: TxContext)
        ensures
            r.input == input,
            r.storage@ == Seq::<StorageEntry>::empty(),
            r.result.result_status == STATUS_OK,
            r.result.result_message@ == Seq::<u8>::empty(),
            r.result.result_values@ == Seq::<Vec<u8>>::empty(),
            r.result.result_logs@ == Seq::<TxLog>::empty(),
            r.arena@ == Seq::<ManagedValue>::empty(),
    {
        TxContext {
            input,
            storage: Vec::new(),
            result: TxResult {
                result_status: STATUS_OK,
                result_message: Vec::new(),
                result_values: Vec::new(),
                result_logs: Vec::new(),
            },
            arena: Vec::new(),
        }
    }

    /// Allocates a fresh arena slot holding the given value; the returned
    /// handle refers to it for the rest of this call.
    pub fn alloc_managed_value(&mut self, v: ManagedValue) -> (h: usize)
        ensures
            final(self).arena@ == old(self).arena@.push(v),
            h == old(self).arena@.len(),
            final(self).input == old(self).input,
            final(self).storage == old(self).storage,
            final(self).result == old(self).result,
    {
        let h = self.arena.len();
        self.arena.push(v);
        h
    }

    /// The number of arguments this call was given.
    pub fn get_num_arguments(&self) -> (r: i32)
        requires
            self.input.wf(),
        ensures
            r == self.input.args@.len(),
    {
        self.input.args.len() as i32
    }

    /// The raw bytes of argument `arg_index`; fails with the generic bounds
    /// status when the index is out of range.
    pub fn get_argument_vec_u8(&self, arg_index: i32) -> (r: Result<Vec<u8>, TxPanic>)
        ensures
            0 <= arg_index < self.input.args@.len() ==> (r matches Ok(v) && v@
                == self.input.args@[arg_index as int]@),
            !(0 <= arg_index < self.input.args@.len()) ==> (r matches Err(e) && e.status
                == STATUS_USER_ERROR && e.message@ == msg_arg_index_out_of_range()),
    {
        if arg_index < 0 || arg_index as usize >= self.input.args.len() {
            Err(TxPanic::arg_index_out_of_range())
        } else {
            Ok(clone_bytes(&self.input.args[arg_index as usize]))
        }
    }

    /// The byte length of argument `arg_index`; fails with the generic
    /// bounds status when the index is out of range.
    pub fn get_argument_len(&self, arg_index: i32) -> (r: Result<usize, TxPanic>)
        ensures
            0 <= arg_index < self.input.args@.len() ==> (r matches Ok(l) && l
                == self.input.args@[arg_index as int]@.len()),
            !(0 <= arg_index < self.input.args@.len()) ==> (r matches Err(e) && e.status
                == STATUS_USER_ERROR && e.message@ == msg_arg_index_out_of_range()),
    {
        let arg = self.get_argument_vec_u8(arg_index)?;
        Ok(arg.len())
    }

    /// Copies argument `arg_index` verbatim over the buffer at arena slot
    /// `dest`; fails with the generic bounds status on a bad index.
    pub fn load_argument_managed_buffer(&mut self, arg_index: i32, dest: usize) -> (r: Result<
        (),
        TxPanic,
    >)
        requires
            dest < old(self).arena@.len(),
        ensures
            final(self).input == old(self).input,
            final(self).storage == old(self).storage,
            final(self).result == old(self).result,
            0 <= arg_index < old(self).input.args@.len() ==> (r is Ok && final(self).arena@.len()
                == old(self).arena@.len() && final(self).arena@[dest as int] is Buffer
                && arena_buffer(final(self).arena@[dest as int])
                == old(self).input.args@[arg_index as int]@ && (forall|j: int|
                0 <= j < old(self).arena@.len() && j != dest ==> final(self).arena@[j] == old(
                    self,
                ).arena@[j])),
            !(0 <= arg_index < old(self).input.args@.len()) ==> (r matches Err(e) && e.status
                == STATUS_USER_ERROR && e.message@ == msg_arg_index_out_of_range() && *final(self)
                == *old(self)),
    {
        let arg_bytes = self.get_argument_vec_u8(arg_index)?;
        proof {
            assert(arg_bytes@ == old(self).input.args@[arg_index as int]@);
        }
        self.arena[dest] = ManagedValue::Buffer(arg_bytes);
        Ok(())
    }

    /// Interprets argument `arg_index` as a big-endian two's-complement big
    /// integer and narrows it to 64 bits. A value that does not fit fails
    /// with the distinguished out-of-range status, never the bounds status;
    /// a bad index fails with the bounds status, never the out-of-range one.
    pub fn get_argument_i64(&self, arg_index: i32) -> (r: Result<i64, TxPanic>)
        ensures
            ({
                let valid = 0 <= arg_index < self.input.args@.len();
                let value = be_signed(self.input.args@[arg_index as int]@);
                &&& (valid && i64::MIN <= value <= i64::MAX) ==> (r matches Ok(v) && v == value)
                &&& (valid && !(i64::MIN <= value <= i64::MAX)) ==> (r matches Err(e) && e.status
                    == STATUS_ARG_OUT_OF_RANGE && e.message@ == msg_arg_out_of_range())
                &&& !valid ==> (r matches Err(e) && e.status == STATUS_USER_ERROR && e.message@
                    == msg_arg_index_out_of_range())
            }),
    {
        let bytes = self.get_argument_vec_u8(arg_index)?;
        match big_signed_to_i64(&bytes) {
            Some(v) => Ok(v),
            None => Err(TxPanic::arg_out_of_range()),
        }
    }

    /// Interprets argument `arg_index` as a big-endian unsigned big integer
    /// and narrows it to 64 bits, with the same status distinction as the
    /// signed accessor.
    pub fn get_argument_u64(&self, arg_index: i32) -> (r: Result<u64, TxPanic>)
        ensures
            ({
                let valid = 0 <= arg_index < self.input.args@.len();
                let value = be_unsigned(self.input.args@[arg_index as int]@);
                &&& (valid && value <= u64::MAX) ==> (r matches Ok(v) && v == value)
                &&& (valid && value > u64::MAX) ==> (r matches Err(e) && e.status
                    == STATUS_ARG_OUT_OF_RANGE && e.message@ == msg_arg_out_of_range())
                &&& !valid ==> (r matches Err(e) && e.status == STATUS_USER_ERROR && e.message@
                    == msg_arg_index_out_of_range())
            }),
    {
        let bytes = self.get_argument_vec_u8(arg_index)?;
        match big_unsigned_to_u64(&bytes) {
            Some(v) => Ok(v),
            None => Err(TxPanic::arg_out_of_range()),
        }
    }

    /// Appends one log entry tagged with this call's recipient address and
    /// endpoint name.
    fn append_log_entry(&mut self, topics: Vec<Vec<u8>>, data: Vec<u8>)
        ensures
            appended_log(*old(self), *final(self), topics.deep_view(), data@),
    {
        let log = TxLog {
            address: clone_bytes(&self.input.to),
            endpoint: clone_bytes(&self.input.func_name),
            topics,
            data,
        };
        self.result.result_logs.push(log);
        proof {
            assert(final(self).result.result_logs@.drop_last() =~= old(
                self,
            ).result.result_logs@);
        }
    }

    /// Splits the packed topics buffer back into its ordered topics, in
    /// declared order and consuming exactly the declared lengths, and
    /// appends one log entry.
    pub fn write_event_log(&mut self, topics_buffer: &ArgBuffer, data: &[u8])
        requires
            topics_buffer.wf(),
        ensures
            appended_log(
                *old(self),
                *final(self),
                split_topics(topics_buffer.data@, topics_buffer.lengths@, 0),
                data@,
            ),
    {
        let arg_data_lengths_count = topics_buffer.lengths.len();
        let data_len = topics_buffer.data.len();
        let mut current_index: usize = 0;
        let mut topics: Vec<Vec<u8>> = Vec::new();
        let mut j: usize = 0;
        proof {
            assert(topics_buffer.lengths@.skip(0) =~= topics_buffer.lengths@);
            assert(split_topics(topics_buffer.data@, topics_buffer.lengths@, 0)
                =~~= topics.deep_view() + split_topics(
                topics_buffer.data@,
                topics_buffer.lengths@.skip(0),
                0,
            ));
        }
        while j < arg_data_lengths_count
            invariant
                arg_data_lengths_count == topics_buffer.lengths@.len(),
                data_len == topics_buffer.data@.len(),
                topics_buffer.wf(),
                j <= topics_buffer.lengths@.len(),
                current_index as nat + total_len(topics_buffer.lengths@.skip(j as int))
                    == topics_buffer.data@.len(),
                split_topics(topics_buffer.data@, topics_buffer.lengths@, 0) == topics.deep_view()
                    + split_topics(
                    topics_buffer.data@,
                    topics_buffer.lengths@.skip(j as int),
                    current_index as int,
                ),
            decreases topics_buffer.lengths@.len() - j,
        {
            let arg_len = topics_buffer.lengths[j];
            proof {
                let rest = topics_buffer.lengths@.skip(j as int);
                assert(rest[0] == arg_len);
                assert(rest.drop_first() =~= topics_buffer.lengths@.skip(j as int + 1));
                assert(total_len(rest) == arg_len + total_len(rest.drop_first()));
                assert(current_index + arg_len <= data_len);
            }
            let topic = copy_range(&topics_buffer.data, current_index, current_index + arg_len);
            let ghost pre_topics = topics.deep_view();
            topics.push(topic);
            proof {
                assert(topics.deep_view() =~~= pre_topics.push(topic@));
                let rest = topics_buffer.lengths@.skip(j as int);
                assert(pre_topics + split_topics(topics_buffer.data@, rest, current_index as int)
                    =~~= pre_topics.push(topic@) + split_topics(
                    topics_buffer.data@,
                    rest.drop_first(),
                    current_index + arg_len,
                ));
            }
            current_index = current_index + arg_len;
            j = j + 1;
        }
        proof {
            assert(topics_buffer.lengths@.skip(j as int) =~= Seq::<usize>::empty());
            assert(split_topics(topics_buffer.data@, topics_buffer.lengths@, 0)
                =~~= topics.deep_view());
        }
        let data_vec = vstd::slice::slice_to_vec(data);
        self.append_log_entry(topics, data_vec);
    }

    /// Appends one log entry whose topics are given as fixed 32-byte values.
    pub fn write_legacy_log(&mut self, topics: &[[u8; 32]], data: &[u8])
        ensures
            appended_log(*old(self), *final(self), legacy_topics(topics@), data@),
    {
        let n = topics.len();
        let mut topics_vec: Vec<Vec<u8>> = Vec::new();
        let mut j: usize = 0;
        while j < n
            invariant
                n == topics@.len(),
                j <= n,
                topics_vec.deep_view() == legacy_topics(topics@.take(j as int)),
            decreases n - j,
        {
            let t = vstd::slice::slice_to_vec(vstd::array::array_as_slice(
                vstd::slice::slice_index_get(topics, j),
            ));
            let ghost pre = topics_vec.deep_view();
            topics_vec.push(t);
            proof {
                assert(topics_vec.deep_view() =~~= pre.push(t@));
                assert(legacy_topics(topics@.take(j as int + 1)) =~~= legacy_topics(
                    topics@.take(j as int),
                ).push(topics@[j as int]@));
            }
            j = j + 1;
        }
        proof {
            assert(topics@.take(n as int) =~= topics@);
            assert(legacy_topics(topics@.take(n as int)) =~~= legacy_topics(topics@));
        }
        let data_vec = vstd::slice::slice_to_vec(data);
        self.append_log_entry(topics_vec, data_vec);
    }

    /// Reads the topics (a managed sequence of buffers) and the data buffer
    /// out of the arena, flattens the topics into the packed encoding, and
    /// delegates to write_event_log, so that all log entry points produce
    /// identical log shapes.
    pub fn managed_write_log(&mut self, topics_handle: usize, data_handle: usize)
        requires
            topics_handle < old(self).arena@.len(),
            old(self).arena@[topics_handle as int] is BufferSeq,
            data_handle < old(self).arena@.len(),
            old(self).arena@[data_handle as int] is Buffer,
        ensures
            appended_log(
                *old(self),
                *final(self),
                arena_buffers(old(self).arena@[topics_handle as int]),
                arena_buffer(old(self).arena@[data_handle as int]),
            ),
    {
        let mut topics_arg_buffer = ArgBuffer::new();
        let ghost all = arena_buffers(old(self).arena@[topics_handle as int]);
        match &self.arena[topics_handle] {
            ManagedValue::BufferSeq(bufs) => {
                let m = bufs.len();
                let mut j: usize = 0;
                proof {
                    assert(all.take(0) =~= Seq::<Seq<u8>>::empty());
                }
                while j < m
                    invariant
                        m == bufs@.len(),
                        j <= m,
                        all == bufs.deep_view(),
                        topics_arg_buffer.wf(),
                        topics_arg_buffer.data@ == concat_topics(all.take(j as int)),
                        topics_arg_buffer.lengths@.len() == j,
                        forall|i: int|
                            0 <= i < j ==> (#[trigger] topics_arg_buffer.lengths@[i]) as nat
                                == all[i].len(),
                    decreases m - j,
                {
                    proof {
                        assert(bufs@[j as int].deep_view() =~= bufs@[j as int]@);
                        assert(all[j as int] == bufs@[j as int]@);
                    }
                    topics_arg_buffer.push_arg(&bufs[j]);
                    proof {
                        assert(all.take(j as int + 1) =~= all.take(j as int).push(all[j as int]));
                        lemma_concat_push(all.take(j as int), all[j as int]);
                        assert(bufs@[j as int]@.len() <= usize::MAX) by {
                            assert(bufs@[j as int]@.len() == bufs@[j as int].len());
                        }
                    }
                    j = j + 1;
                }
                proof {
                    assert(all.take(m as int) =~= all);
                }
            },
            ManagedValue::Buffer(_) => {
                proof {
                    assert(false);
                }
            },
        }
        let data = match &self.arena[data_handle] {
            ManagedValue::Buffer(b) => clone_bytes(b),
            ManagedValue::BufferSeq(_) => {
                proof {
                    assert(false);
                }
                Vec::new()
            },
        };
        proof {
            assert(topics_arg_buffer.data@.subrange(0, topics_arg_buffer.data@.len() as int)
                =~= concat_topics(all));
            lemma_split_concat(topics_arg_buffer.data@, topics_arg_buffer.lengths@, all, 0);
        }
        self.write_event_log(&topics_arg_buffer, data.as_slice());
    }
}

/// Fixed 32-byte topics as ordinary byte strings.
pub open spec fn legacy_topics(ts: Seq<[u8; 32]>) -> Seq<Seq<u8>> {
    Seq::new(ts.len(), |i: int| ts[i]@)
}

/// Law: three log emissions in sequence — through any mix of the three log
/// entry points, each of which ensures `appended_log` — leave the output's
/// log sequence exactly as it was, followed by those three entries in
/// emission order, each carrying its own topics and data.
pub proof fn lemma_log_order(
    c0: TxContext,
    c1: TxContext,
    c2: TxContext,
    c3: TxContext,
    t1: Seq<Seq<u8>>,
    d1: Seq<u8>,
    t2: Seq<Seq<u8>>,
    d2: Seq<u8>,
    t3: Seq<Seq<u8>>,
    d3: Seq<u8>,
)
    requires
        appended_log(c0, c1, t1, d1),
        appended_log(c1, c2, t2, d2),
        appended_log(c2, c3, t3, d3),
    ensures
        ({
            let n = c0.result.result_logs@.len() as int;
            let logs = c3.result.result_logs@;
            &&& logs.len() == n + 3
            &&& logs.subrange(0, n) == c0.result.result_logs@
            &&& log_matches(logs[n], c0.input.to@, c0.input.func_name@, t1, d1)
            &&& log_matches(logs[n + 1], c0.input.to@, c0.input.func_name@, t2, d2)
            &&& log_matches(logs[n + 2], c0.input.to@, c0.input.func_name@, t3, d3)
        }),
{
    let n = c0.result.result_logs@.len() as int;
    let logs1 = c1.result.result_logs@;
    let logs2 = c2.result.result_logs@;
    let logs3 = c3.result.result_logs@;
    assert(logs3.drop_last() == logs2);
    assert(logs2.drop_last() == logs1);
    assert(logs1.drop_last() == c0.result.result_logs@);
    assert(logs3[n] == logs1.last());
    assert(logs3[n + 1] == logs2.last());
    assert(logs3.subrange(0, n) =~= c0.result.result_logs@);
}

} // verus!
