//! The storage decode protocol: materializing typed values out of raw
//! storage slots, with specialization fast paths for the built-in managed
//! types (buffer, unsigned big integer, signed big integer) and a generic
//! byte-oriented decode fallback for fixed-width numbers. Decode failure
//! never returns a recoverable value to contract code: it raises the
//! transaction-terminating panic that the executor records on the output.
use vstd::prelude::*;

use crate::bytes::{
    be_signed, be_unsigned, canonical_mag, canonical_signed, clone_bytes, lemma_min_be,
    lemma_min_be_len, lemma_pow256_8, lemma_trim_mag, lemma_trim_mag_canonical, lemma_trim_signed,
    lemma_trim_signed_canonical, min_be, top_decode_u64, top_encode_u64, trim_leading_zeros,
    trim_mag, trim_signed, trim_signed_bytes,
};
use crate::context::{
    storage_lookup, storage_wf, StorageEntry, TxContext, TxPanic, STATUS_USER_ERROR,
};

verus! {

/// "storage decode error: " — the fixed prefix of every decode diagnostic.
pub open spec fn msg_storage_decode_error_prefix() -> Seq<u8> {
    seq![
        115u8, 116u8, 111u8, 114u8, 97u8, 103u8, 101u8, 32u8, 100u8, 101u8, 99u8, 111u8, 100u8,
        101u8, 32u8, 101u8, 114u8, 114u8, 111u8, 114u8, 58u8, 32u8,
    ]
}

/// "input too long"
pub open spec fn msg_input_too_long() -> Seq<u8> {
    seq![105u8, 110u8, 112u8, 117u8, 116u8, 32u8, 116u8, 111u8, 111u8, 32u8, 108u8, 111u8, 110u8,
        103u8]
}

/// An unsigned big integer, kept as its canonical big-endian magnitude
/// (no leading zero byte; zero is the empty string).
#[derive(Debug)]
pub struct BigUintValue {
    pub bytes: Vec<u8>,
}

impl BigUintValue {
    pub open spec fn wf(self) -> bool {
        canonical_mag(self.bytes@)
    }

    /// The number this value denotes.
    pub open spec fn as_nat(self) -> nat {
        be_unsigned(self.bytes@)
    }

    /// Reads big-endian magnitude bytes, normalizing to canonical form.
    pub fn from_bytes_be(b: &Vec<u8>) -> (r: BigUintValue)
        ensures
            r.bytes@ == trim_mag(b@),
            r.wf(),
            r.as_nat() == be_unsigned(b@),
    {
        proof {
            lemma_trim_mag(b@);
        }
        BigUintValue { bytes: trim_leading_zeros(b) }
    }

    /// The canonical magnitude bytes; also this value's top-encoding.
    pub fn to_bytes_be(&self) -> (r: Vec<u8>)
        ensures
            r@ == self.bytes@,
    {
        clone_bytes(&self.bytes)
    }
}

/// A signed big integer, kept as its canonical big-endian two's-complement
/// representation (no redundant sign byte; zero is the empty string).
#[derive(Debug)]
pub struct BigIntValue {
    pub bytes: Vec<u8>,
}

impl BigIntValue {
    pub open spec fn wf(self) -> bool {
        canonical_signed(self.bytes@)
    }

    /// The number this value denotes.
    pub open spec fn as_int(self) -> int {
        be_signed(self.bytes@)
    }

    /// Reads big-endian two's-complement bytes, normalizing to canonical
    /// form.
    pub fn from_signed_bytes_be(b: &Vec<u8>) -> (r: BigIntValue)
        ensures
            r.bytes@ == trim_signed(b@),
            r.wf(),
            r.as_int() == be_signed(b@),
    {
        proof {
            lemma_trim_signed(b@);
        }
        BigIntValue { bytes: trim_signed_bytes(b) }
    }

    /// The canonical two's-complement bytes; also this value's top-encoding.
    pub fn to_signed_bytes_be(&self) -> (r: Vec<u8>)
        ensures
            r@ == self.bytes@,
    {
        clone_bytes(&self.bytes)
    }
}

/// The closed set of types a storage read can request: the three
/// specialized managed types, and a fixed-width number decoded through the
/// generic byte-oriented path.
#[derive(Clone, Copy, PartialEq, Eq, Structural)]
pub enum DecodeTarget {
    Buffer,
    BigUint,
    BigInt,
    U64,
}

/// A decoded value of one of the requestable types.
#[derive(Debug)]
pub enum TypedValue {
    Buffer(Vec<u8>),
    BigUint(BigUintValue),
    BigInt(BigIntValue),
    U64(u64),
}

pub open spec fn value_wf(v: TypedValue) -> bool {
    match v {
        TypedValue::Buffer(_) => true,
        TypedValue::BigUint(u) => u.wf(),
        TypedValue::BigInt(i) => i.wf(),
        TypedValue::U64(_) => true,
    }
}

pub open spec fn target_of(v: TypedValue) -> DecodeTarget {
    match v {
        TypedValue::Buffer(_) => DecodeTarget::Buffer,
        TypedValue::BigUint(_) => DecodeTarget::BigUint,
        TypedValue::BigInt(_) => DecodeTarget::BigInt,
        TypedValue::U64(_) => DecodeTarget::U64,
    }
}

/// The byte string the storage encode path writes for a value.
pub open spec fn top_encoding(v: TypedValue) -> Seq<u8> {
    match v {
        TypedValue::Buffer(b) => b@,
        TypedValue::BigUint(u) => u.bytes@,
        TypedValue::BigInt(i) => i.bytes@,
        TypedValue::U64(n) => min_be(n as nat),
    }
}

/// Whether a slot's bytes can represent the requested type at all; only the
/// fixed-width number can fail, on an over-length slot.
pub open spec fn decode_fits(target: DecodeTarget, slot: Seq<u8>) -> bool {
    match target {
        DecodeTarget::U64 => slot.len() <= 8,
        _ => true,
    }
}

/// What a successful decode of `slot` at `target` returns.
pub open spec fn value_matches(v: TypedValue, target: DecodeTarget, slot: Seq<u8>) -> bool {
    match v {
        TypedValue::Buffer(b) => target is Buffer && b@ == slot,
        TypedValue::BigUint(u) => target is BigUint && u.bytes@ == trim_mag(slot),
        TypedValue::BigInt(i) => target is BigInt && i.bytes@ == trim_signed(slot),
        TypedValue::U64(n) => target is U64 && n as nat == be_unsigned(slot),
    }
}

/// Two typed values of the same shape holding the same bytes or number.
pub open spec fn value_eq(a: TypedValue, b: TypedValue) -> bool {
    match (a, b) {
        (TypedValue::Buffer(x), TypedValue::Buffer(y)) => x@ == y@,
        (TypedValue::BigUint(x), TypedValue::BigUint(y)) => x.bytes@ == y.bytes@,
        (TypedValue::BigInt(x), TypedValue::BigInt(y)) => x.bytes@ == y.bytes@,
        (TypedValue::U64(x), TypedValue::U64(y)) => x == y,
        _ => false,
    }
}

/// Law: a well-formed value written through the storage encode path is
/// representable by its own encoding, and any value the decode contract
/// admits for that encoding at the value's own target is the value itself —
/// the round trip gives back what was written, for each requestable type.
pub proof fn lemma_storage_round_trip(v: TypedValue, r: TypedValue)
    requires
        value_wf(v),
        value_matches(r, target_of(v), top_encoding(v)),
    ensures
        value_eq(r, v),
        decode_fits(target_of(v), top_encoding(v)),
{
    match v {
        TypedValue::Buffer(_) => {},
        TypedValue::BigUint(u) => {
            lemma_trim_mag_canonical(u.bytes@);
        },
        TypedValue::BigInt(i) => {
            lemma_trim_signed_canonical(i.bytes@);
        },
        TypedValue::U64(n) => {
            lemma_min_be(n as nat);
            lemma_pow256_8();
            lemma_min_be_len(n as nat, 8);
        },
    }
}

/// Ends the current transaction on the first decode error: builds the
/// diagnostic (fixed prefix plus the failure detail) and raises the
/// transaction-terminating panic. In the production VM this never returns
/// to the decode call site; here the panic value propagates to the executor,
/// which records it on the transaction output.
pub struct StorageGetErrorHandler {}

impl Default for StorageGetErrorHandler {
    fn default() -> (r: Self)
        ensures
            r == (StorageGetErrorHandler {  }),
    {
        StorageGetErrorHandler {  }
    }
}

impl StorageGetErrorHandler {
    pub fn handle_error(&self, detail: &Vec<u8>) -> (r: TxPanic)
        ensures
            r.status == STATUS_USER_ERROR,
            r.message@ == msg_storage_decode_error_prefix() + detail@,
    {
        let mut message: Vec<u8> = vec![
            115u8, 116u8, 111u8, 114u8, 97u8, 103u8, 101u8, 32u8, 100u8, 101u8, 99u8, 111u8,
            100u8, 101u8, 32u8, 101u8, 114u8, 114u8, 111u8, 114u8, 58u8, 32u8,
        ];
        proof {
            assert(message@ =~= msg_storage_decode_error_prefix());
        }
        let ghost prefix = message@;
        message.extend_from_slice(detail.as_slice());
        proof {
            assert(message@ =~= prefix + detail@);
        }
        TxPanic { status: STATUS_USER_ERROR, message }
    }
}

/// The panic raised when a slot's bytes are longer than the requested
/// fixed-width type allows.
fn input_too_long_panic() -> (r: TxPanic)
    ensures
        r.status == STATUS_USER_ERROR,
        r.message@ == msg_storage_decode_error_prefix() + msg_input_too_long(),
{
    let detail: Vec<u8> = vec![105u8, 110u8, 112u8, 117u8, 116u8, 32u8, 116u8, 111u8, 111u8, 32u8,
        108u8, 111u8, 110u8, 103u8];
    proof {
        assert(detail@ =~= msg_input_too_long());
    }
    let handler = StorageGetErrorHandler::default();
    handler.handle_error(&detail)
}

/// A transient, per-decode view into one storage slot.
pub struct StorageGetInput {
    pub bytes: Vec<u8>,
}

impl StorageGetInput {
    pub fn new(bytes: Vec<u8>) -> (r: StorageGetInput)
        ensures
            r.bytes@ == bytes@,
    {
        StorageGetInput { bytes }
    }

    /// The exact length of the raw value, without materializing it further.
    pub fn byte_len(&self) -> (r: usize)
        ensures
            r == self.bytes@.len(),
    {
        self.bytes.len()
    }

    /// The slot's bytes as a managed buffer.
    pub fn to_managed_buffer(&self) -> (r: Vec<u8>)
        ensures
            r@ == self.bytes@,
    {
        clone_bytes(&self.bytes)
    }

    /// The slot's bytes as an unsigned big integer.
    pub fn to_big_uint(&self) -> (r: BigUintValue)
        ensures
            r.bytes@ == trim_mag(self.bytes@),
            r.wf(),
            r.as_nat() == be_unsigned(self.bytes@),
    {
        BigUintValue::from_bytes_be(&self.bytes)
    }

    /// The slot's bytes as a signed big integer.
    pub fn to_big_int(&self) -> (r: BigIntValue)
        ensures
            r.bytes@ == trim_signed(self.bytes@),
            r.wf(),
            r.as_int() == be_signed(self.bytes@),
    {
        BigIntValue::from_signed_bytes_be(&self.bytes)
    }

    /// Full materialization of the raw value.
    pub fn into_boxed_slice_u8(self) -> (r: Vec<u8>)
        ensures
            r@ == self.bytes@,
    {
        self.bytes
    }

    /// Bounded-size decode: the value must fit a destination of capacity
    /// `max_len`; an over-length value terminates the transaction as every
    /// decode failure does.
    pub fn into_max_size_buffer(self, max_len: usize) -> (r: Result<Vec<u8>, TxPanic>)
        ensures
            self.bytes@.len() <= max_len ==> (r matches Ok(v) && v@ == self.bytes@),
            self.bytes@.len() > max_len ==> (r matches Err(e) && e.status == STATUS_USER_ERROR
                && e.message@ == msg_storage_decode_error_prefix() + msg_input_too_long()),
    {
        if self.bytes.len() > max_len {
            Err(input_too_long_panic())
        } else {
            Ok(self.bytes)
        }
    }

    /// Whether the requested type has a specialized constructor that builds
    /// directly from the source's native representation.
    pub fn supports_specialized_type(target: DecodeTarget) -> (r: bool)
        ensures
            r == !(target is U64),
    {
        match target {
            DecodeTarget::Buffer => true,
            DecodeTarget::BigUint => true,
            DecodeTarget::BigInt => true,
            DecodeTarget::U64 => false,
        }
    }

    /// Offers the specialized constructors the source, in fixed priority
    /// order: buffer first, then unsigned big integer, then signed big
    /// integer; the first whose type matches the request builds the value.
    pub fn into_specialized(self, target: DecodeTarget) -> (r: TypedValue)
        requires
            !(target is U64),
        ensures
            value_matches(r, target, self.bytes@),
            value_wf(r),
    {
        if matches!(target, DecodeTarget::Buffer) {
            TypedValue::Buffer(self.to_managed_buffer())
        } else if matches!(target, DecodeTarget::BigUint) {
            TypedValue::BigUint(self.to_big_uint())
        } else {
            TypedValue::BigInt(self.to_big_int())
        }
    }
}

/// Loads the raw bytes of one storage slot; a missing key reads as empty.
fn storage_load(ctx: &TxContext, key: &Vec<u8>) -> (r: Vec<u8>)
    ensures
        r@ == storage_lookup(ctx.storage@, key@),
{
    let n = ctx.storage.len();
    let mut i: usize = 0;
    proof {
        assert(ctx.storage@.skip(0) =~= ctx.storage@);
    }
    while i < n
        invariant
            n == ctx.storage@.len(),
            i <= n,
            storage_lookup(ctx.storage@, key@) == storage_lookup(
                ctx.storage@.skip(i as int),
                key@,
            ),
        decreases n - i,
    {
        proof {
            assert(ctx.storage@.skip(i as int)[0] == ctx.storage@[i as int]);
            assert(ctx.storage@.skip(i as int).drop_first() =~= ctx.storage@.skip(i as int + 1));
        }
        if crate::bytes::bytes_eq(&ctx.storage[i].key, key) {
            return clone_bytes(&ctx.storage[i].value);
        }
        i = i + 1;
    }
    proof {
        assert(ctx.storage@.skip(i as int) =~= Seq::<StorageEntry>::empty());
    }
    Vec::new()
}

/// The byte length of the value under `key`, without materializing it.
pub fn storage_get_len(ctx: &TxContext, key: &Vec<u8>) -> (r: usize)
    ensures
        r == storage_lookup(ctx.storage@, key@).len(),
{
    let input = StorageGetInput::new(storage_load(ctx, key));
    input.byte_len()
}

/// Materializes a value of the requested type out of the slot under `key`:
/// the specialized constructors are tried first, and the fixed-width number
/// falls through to the generic byte-oriented decode. A slot that cannot
/// represent the requested type terminates the transaction with the fixed
/// diagnostic prefix; success is owed on every other slot.
pub fn storage_get(ctx: &TxContext, key: &Vec<u8>, target: DecodeTarget) -> (r: Result<
    TypedValue,
    TxPanic,
>)
    ensures
        ({
            let slot = storage_lookup(ctx.storage@, key@);
            &&& decode_fits(target, slot) ==> (r matches Ok(v) && value_matches(v, target, slot)
                && value_wf(v))
            &&& !decode_fits(target, slot) ==> (r matches Err(e) && e.status == STATUS_USER_ERROR
                && e.message@ == msg_storage_decode_error_prefix() + msg_input_too_long())
        }),
{
    let input = StorageGetInput::new(storage_load(ctx, key));
    if StorageGetInput::supports_specialized_type(target) {
        Ok(input.into_specialized(target))
    } else {
        let full = input.into_boxed_slice_u8();
        match top_decode_u64(&full) {
            Some(v) => Ok(TypedValue::U64(v)),
            None => Err(input_too_long_panic()),
        }
    }
}

/// Writes a value's top-encoding into the slot under `key`, replacing any
/// prior value and leaving every other slot untouched.
pub fn storage_set(ctx: &mut TxContext, key: &Vec<u8>, value: &TypedValue)
    requires
        storage_wf(old(ctx).storage@),
    ensures
        storage_wf(final(ctx).storage@),
        storage_lookup(final(ctx).storage@, key@) == top_encoding(*value),
        forall|k: Seq<u8>|
            k != key@ ==> storage_lookup(final(ctx).storage@, k) == storage_lookup(
                old(ctx).storage@,
                k,
            ),
        final(ctx).input == old(ctx).input,
        final(ctx).result == old(ctx).result,
        final(ctx).arena == old(ctx).arena,
{
    let encoded = top_encode_value(value);
    let entry = StorageEntry { key: clone_bytes(key), value: encoded };
    let n = ctx.storage.len();
    let mut i: usize = 0;
    while i < n
        invariant
            n == ctx.storage@.len(),
            i <= n,
            forall|j: int| 0 <= j < i ==> ctx.storage@[j].key@ != key@,
            storage_wf(ctx.storage@),
            ctx.storage == old(ctx).storage,
            ctx.input == old(ctx).input,
            ctx.result == old(ctx).result,
            ctx.arena == old(ctx).arena,
            entry.key@ == key@,
            entry.value@ == top_encoding(*value),
        decreases n - i,
    {
        if crate::bytes::bytes_eq(&ctx.storage[i].key, key) {
            proof {
                lemma_lookup_update(ctx.storage@, i as int, entry);
            }
            ctx.storage[i] = entry;
            return ;
        }
        i = i + 1;
    }
    proof {
        lemma_lookup_push(ctx.storage@, entry);
    }
    ctx.storage.push(entry);
}

/// The storage encode path: the bytes written for each requestable type.
fn top_encode_value(value: &TypedValue) -> (r: Vec<u8>)
    ensures
        r@ == top_encoding(*value),
{
    match value {
        TypedValue::Buffer(b) => clone_bytes(b),
        TypedValue::BigUint(u) => u.to_bytes_be(),
        TypedValue::BigInt(i) => i.to_signed_bytes_be(),
        TypedValue::U64(n) => top_encode_u64(*n),
    }
}

/// Replacing the entry at a matching position rebinds its key and leaves
/// every other key's binding alone.
proof fn lemma_lookup_update(entries: Seq<StorageEntry>, i: int, e: StorageEntry)
    requires
        storage_wf(entries),
        0 <= i < entries.len(),
        e.key@ == entries[i].key@,
    ensures
        storage_wf(entries.update(i, e)),
        storage_lookup(entries.update(i, e), e.key@) == e.value@,
        forall|k: Seq<u8>|
            k != e.key@ ==> storage_lookup(entries.update(i, e), k) == storage_lookup(entries, k),
    decreases entries.len(),
{
    let upd = entries.update(i, e);
    assert(forall|m: int| 0 <= m < entries.len() ==> upd[m].key@ == entries[m].key@);
    if i == 0 {
        assert(upd[0] == e);
        assert(upd.drop_first() =~= entries.drop_first());
        assert forall|k: Seq<u8>| k != e.key@ implies storage_lookup(upd, k) == storage_lookup(
            entries,
            k,
        ) by {
            assert(storage_lookup(upd, k) == storage_lookup(upd.drop_first(), k));
            assert(storage_lookup(entries, k) == storage_lookup(entries.drop_first(), k));
        }
    } else {
        assert(upd[0] == entries[0]);
        assert(entries[0].key@ != e.key@);
        assert(upd.drop_first() =~= entries.drop_first().update(i - 1, e));
        assert(storage_wf(entries.drop_first()));
        lemma_lookup_update(entries.drop_first(), i - 1, e);
        assert forall|k: Seq<u8>| k != e.key@ implies storage_lookup(upd, k) == storage_lookup(
            entries,
            k,
        ) by {
            if entries[0].key@ == k {
                assert(storage_lookup(upd, k) == upd[0].value@);
                assert(storage_lookup(entries, k) == entries[0].value@);
            } else {
                assert(storage_lookup(upd, k) == storage_lookup(upd.drop_first(), k));
                assert(storage_lookup(entries, k) == storage_lookup(entries.drop_first(), k));
            }
        }
    }
}

/// Appending an entry under a fresh key binds that key and leaves every
/// other key's binding alone.
proof fn lemma_lookup_push(entries: Seq<StorageEntry>, e: StorageEntry)
    requires
        storage_wf(entries),
        forall|j: int| 0 <= j < entries.len() ==> entries[j].key@ != e.key@,
    ensures
        storage_wf(entries.push(e)),
        storage_lookup(entries.push(e), e.key@) == e.value@,
        forall|k: Seq<u8>|
            k != e.key@ ==> storage_lookup(entries.push(e), k) == storage_lookup(entries, k),
    decreases entries.len(),
{
    let p = entries.push(e);
    assert(p.len() == entries.len() + 1);
    assert(forall|m: int| 0 <= m < entries.len() ==> p[m] == entries[m]);
    assert(p[entries.len() as int] == e);
    if entries.len() == 0 {
        assert(p[0] == e);
        assert(p.drop_first() =~= Seq::<StorageEntry>::empty());
        assert forall|k: Seq<u8>| k != e.key@ implies storage_lookup(p, k) == storage_lookup(
            entries,
            k,
        ) by {
            assert(storage_lookup(p, k) == storage_lookup(p.drop_first(), k));
            assert(storage_lookup(Seq::<StorageEntry>::empty(), k) == Seq::<u8>::empty());
        }
    } else {
        assert(p[0] == entries[0]);
        assert(p.drop_first() =~= entries.drop_first().push(e));
        assert(storage_wf(entries.drop_first()));
        lemma_lookup_push(entries.drop_first(), e);
        assert forall|k: Seq<u8>| k != e.key@ implies storage_lookup(p, k) == storage_lookup(
            entries,
            k,
        ) by {
            if entries[0].key@ == k {
            } else {
                assert(storage_lookup(p, k) == storage_lookup(p.drop_first(), k));
                assert(storage_lookup(entries, k) == storage_lookup(entries.drop_first(), k));
            }
        }
    }
}

} // verus!
