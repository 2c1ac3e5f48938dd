//! Big-endian byte-string interpretations of unsigned and signed integers,
//! the canonical (minimal) representations the host keeps for big numbers,
//! and the top-level encoding of 64-bit numbers.
use vstd::prelude::*;

verus! {

/// 256 raised to the power `n`.
pub open spec fn pow256(n: nat) -> nat
    decreases n,
{
    if n == 0 {
        1
    } else {
        256 * pow256((n - 1) as nat)
    }
}

/// The unsigned integer that a big-endian byte string denotes.
pub open spec fn be_unsigned(s: Seq<u8>) -> nat
    decreases s.len(),
{
    if s.len() == 0 {
        0
    } else {
        256 * be_unsigned(s.drop_last()) + (s.last() as nat)
    }
}

/// The signed integer that a big-endian two's-complement byte string denotes.
pub open spec fn be_signed(s: Seq<u8>) -> int {
    if s.len() == 0 {
        0
    } else if s[0] < 0x80 {
        be_unsigned(s) as int
    } else {
        be_unsigned(s) - pow256(s.len())
    }
}

/// A magnitude representation is canonical when it carries no leading zero
/// byte; zero is the empty string.
pub open spec fn canonical_mag(s: Seq<u8>) -> bool {
    s.len() == 0 || s[0] != 0
}

/// A two's-complement representation is canonical when no leading byte is
/// redundant; zero is the empty string.
pub open spec fn canonical_signed(s: Seq<u8>) -> bool {
    ||| s.len() == 0
    ||| (s.len() == 1 && s[0] != 0)
    ||| (s.len() >= 2 && !(s[0] == 0 && s[1] < 0x80) && !(s[0] == 0xff && s[1] >= 0x80))
}

/// Drops leading zero bytes.
pub open spec fn trim_mag(s: Seq<u8>) -> Seq<u8>
    decreases s.len(),
{
    if s.len() > 0 && s[0] == 0 {
        trim_mag(s.drop_first())
    } else {
        s
    }
}

/// Drops redundant leading sign bytes of a two's-complement string.
pub open spec fn trim_signed(s: Seq<u8>) -> Seq<u8>
    decreases s.len(),
{
    if s.len() >= 2 && ((s[0] == 0 && s[1] < 0x80) || (s[0] == 0xff && s[1] >= 0x80)) {
        trim_signed(s.drop_first())
    } else if s.len() == 1 && s[0] == 0 {
        Seq::empty()
    } else {
        s
    }
}

/// The minimal big-endian representation of an unsigned number.
pub open spec fn min_be(n: nat) -> Seq<u8>
    decreases n,
{
    if n == 0 {
        Seq::empty()
    } else {
        min_be(n / 256).push((n % 256) as u8)
    }
}

pub proof fn lemma_pow256_pos(n: nat)
    ensures
        pow256(n) >= 1,
    decreases n,
{
    if n > 0 {
        lemma_pow256_pos((n - 1) as nat);
    }
}

pub proof fn lemma_pow256_mono(a: nat, b: nat)
    requires
        a <= b,
    ensures
        pow256(a) <= pow256(b),
    decreases b,
{
    if a < b {
        lemma_pow256_mono(a, (b - 1) as nat);
        lemma_pow256_pos((b - 1) as nat);
    }
}

pub proof fn lemma_pow256_8()
    ensures
        pow256(8) == 0x1_0000_0000_0000_0000,
{
    assert(pow256(0) == 1);
    assert(pow256(1) == 256);
    assert(pow256(2) == 0x1_0000);
    assert(pow256(3) == 0x100_0000);
    assert(pow256(4) == 0x1_0000_0000);
    assert(pow256(5) == 0x100_0000_0000);
    assert(pow256(6) == 0x1_0000_0000_0000);
    assert(pow256(7) == 0x100_0000_0000_0000);
}

/// A byte string of length n denotes a number below 256^n.
pub proof fn lemma_be_bound(s: Seq<u8>)
    ensures
        be_unsigned(s) < pow256(s.len()),
    decreases s.len(),
{
    if s.len() > 0 {
        lemma_be_bound(s.drop_last());
    }
}

/// The big-endian value decomposed at the most significant byte.
pub proof fn lemma_be_front(s: Seq<u8>)
    requires
        s.len() > 0,
    ensures
        be_unsigned(s) == (s[0] as nat) * pow256((s.len() - 1) as nat) + be_unsigned(
            s.drop_first(),
        ),
    decreases s.len(),
{
    if s.len() == 1 {
        assert(s.drop_first() =~= Seq::<u8>::empty());
        assert(s.drop_last() =~= Seq::<u8>::empty());
        assert(be_unsigned(Seq::<u8>::empty()) == 0);
        assert(be_unsigned(s) == 256 * be_unsigned(s.drop_last()) + (s.last() as nat));
        assert(s.last() == s[0]);
        assert(pow256(0) == 1);
    } else {
        let n = s.len();
        let dl = s.drop_last();
        let df = s.drop_first();
        lemma_be_front(dl);
        assert(dl.drop_first() =~= df.drop_last());
        assert(dl[0] == s[0]);
        let p2 = pow256((n - 2) as nat);
        assert(pow256((n - 1) as nat) == 256 * p2);
        assert(be_unsigned(dl) == (s[0] as nat) * p2 + be_unsigned(df.drop_last()));
        assert(be_unsigned(s) == 256 * be_unsigned(dl) + (s.last() as nat));
        assert(256 * ((s[0] as nat) * p2) == (s[0] as nat) * (256 * p2)) by (nonlinear_arith);
        assert(df.len() > 0);
        assert(be_unsigned(df) == 256 * be_unsigned(df.drop_last()) + (df.last() as nat));
        assert(df.last() == s.last());
    }
}

pub proof fn lemma_be_push(s: Seq<u8>, b: u8)
    ensures
        be_unsigned(s.push(b)) == 256 * be_unsigned(s) + b,
{
    assert(s.push(b).drop_last() =~= s);
}

pub proof fn lemma_trim_mag(s: Seq<u8>)
    ensures
        be_unsigned(trim_mag(s)) == be_unsigned(s),
        canonical_mag(trim_mag(s)),
        trim_mag(s).len() <= s.len(),
    decreases s.len(),
{
    if s.len() > 0 && s[0] == 0 {
        lemma_be_front(s);
        lemma_trim_mag(s.drop_first());
    }
}

pub proof fn lemma_trim_mag_canonical(s: Seq<u8>)
    requires
        canonical_mag(s),
    ensures
        trim_mag(s) == s,
{
}

pub proof fn lemma_trim_signed(s: Seq<u8>)
    ensures
        be_signed(trim_signed(s)) == be_signed(s),
        canonical_signed(trim_signed(s)),
        trim_signed(s).len() <= s.len(),
    decreases s.len(),
{
    if s.len() >= 2 && ((s[0] == 0 && s[1] < 0x80) || (s[0] == 0xff && s[1] >= 0x80)) {
        let df = s.drop_first();
        lemma_be_front(s);
        lemma_trim_signed(df);
        assert(df[0] == s[1]);
        assert(df.len() == s.len() - 1);
        assert(trim_signed(s) == trim_signed(df));
        if s[0] == 0 {
            assert(be_signed(s) == be_unsigned(s) as int);
            assert(be_unsigned(s) == be_unsigned(df));
            assert(be_signed(df) == be_unsigned(df) as int);
        } else {
            let p = pow256((s.len() - 1) as nat);
            assert(pow256(s.len()) == 256 * p);
            assert(be_unsigned(s) == 255 * p + be_unsigned(df));
            assert(be_signed(s) == be_unsigned(s) - pow256(s.len()));
            assert(be_signed(df) == be_unsigned(df) - p);
            assert(be_signed(s) == be_signed(df));
        }
    } else if s.len() == 1 && s[0] == 0 {
        assert(s.drop_last() =~= Seq::<u8>::empty());
        assert(be_unsigned(Seq::<u8>::empty()) == 0);
        assert(be_unsigned(s) == 0);
        assert(trim_signed(s) =~= Seq::<u8>::empty());
    }
}

pub proof fn lemma_trim_signed_canonical(s: Seq<u8>)
    requires
        canonical_signed(s),
    ensures
        trim_signed(s) == s,
{
}

pub proof fn lemma_min_be(n: nat)
    ensures
        be_unsigned(min_be(n)) == n,
        canonical_mag(min_be(n)),
        n > 0 ==> min_be(n).len() > 0,
    decreases n,
{
    if n > 0 {
        lemma_min_be(n / 256);
        lemma_be_push(min_be(n / 256), (n % 256) as u8);
        vstd::arithmetic::div_mod::lemma_fundamental_div_mod(n as int, 256);
        if n / 256 > 0 {
            assert(min_be(n)[0] == min_be(n / 256)[0]);
        }
    }
}

pub proof fn lemma_min_be_len(n: nat, k: nat)
    requires
        n < pow256(k),
    ensures
        min_be(n).len() <= k,
    decreases k,
{
    if n > 0 {
        vstd::arithmetic::div_mod::lemma_fundamental_div_mod(n as int, 256);
        lemma_pow256_pos((k - 1) as nat);
        assert(256 * (n / 256) <= n);
        lemma_min_be_len(n / 256, (k - 1) as nat);
    }
}

/// Copies `v[from..to]` into a fresh vector.
pub fn copy_range(v: &Vec<u8>, from: usize, to: usize) -> (r: Vec<u8>)
    requires
        from <= to <= v@.len(),
    ensures
        r@ == v@.subrange(from as int, to as int),
{
    let mut r: Vec<u8> = Vec::new();
    let mut j: usize = from;
    while j < to
        invariant
            from <= j <= to <= v@.len(),
            r@ == v@.subrange(from as int, j as int),
        decreases to - j,
    {
        r.push(v[j]);
        proof {
            assert(v@.subrange(from as int, j + 1) =~= v@.subrange(from as int, j as int).push(
                v@[j as int],
            ));
        }
        j = j + 1;
    }
    assert(r@ =~= v@.subrange(from as int, to as int));
    r
}

/// Byte-string equality.
pub fn bytes_eq(a: &Vec<u8>, b: &Vec<u8>) -> (r: bool)
    ensures
        r <==> a@ == b@,
{
    if a.len() != b.len() {
        return false;
    }
    let n = a.len();
    let mut i: usize = 0;
    while i < n
        invariant
            n == a@.len() == b@.len(),
            i <= n,
            forall|j: int| 0 <= j < i ==> a@[j] == b@[j],
        decreases n - i,
    {
        if a[i] != b[i] {
            return false;
        }
        i = i + 1;
    }
    proof {
        assert(a@ =~= b@);
    }
    true
}

/// Copies a vector; byte vectors are cloned all through this crate, so the
/// view-preservation fact is established once here.
pub fn clone_bytes(v: &Vec<u8>) -> (r: Vec<u8>)
    ensures
        r@ == v@,
{
    let r = v.clone();
    proof {
        assert(r@ =~= v@);
    }
    r
}

/// The canonical magnitude representation of the number `v` denotes.
pub fn trim_leading_zeros(v: &Vec<u8>) -> (r: Vec<u8>)
    ensures
        r@ == trim_mag(v@),
{
    let mut i: usize = 0;
    proof {
        assert(v@.subrange(0, v@.len() as int) =~= v@);
    }
    while i < v.len() && v[i] == 0
        invariant
            i <= v@.len(),
            trim_mag(v@) == trim_mag(v@.subrange(i as int, v@.len() as int)),
        decreases v@.len() - i,
    {
        proof {
            let sub = v@.subrange(i as int, v@.len() as int);
            assert(sub.drop_first() =~= v@.subrange(i + 1, v@.len() as int));
        }
        i = i + 1;
    }
    proof {
        let sub = v@.subrange(i as int, v@.len() as int);
        assert(trim_mag(sub) == sub);
    }
    copy_range(v, i, v.len())
}

/// The canonical two's-complement representation of the number `v` denotes.
#[verifier::rlimit(60)]
pub fn trim_signed_bytes(v: &Vec<u8>) -> (r: Vec<u8>)
    ensures
        r@ == trim_signed(v@),
{
    let mut i: usize = 0;
    proof {
        assert(v@.subrange(0, v@.len() as int) =~= v@);
    }
    while v.len() - i >= 2 && ((v[i] == 0 && v[i + 1] < 0x80) || (v[i] == 0xff && v[i + 1]
        >= 0x80))
        invariant
            i <= v@.len(),
            trim_signed(v@) == trim_signed(v@.subrange(i as int, v@.len() as int)),
        decreases v@.len() - i,
    {
        proof {
            let sub = v@.subrange(i as int, v@.len() as int);
            assert(sub.drop_first() =~= v@.subrange(i + 1, v@.len() as int));
        }
        i = i + 1;
    }
    if v.len() - i == 1 && v[i] == 0 {
        proof {
            let sub = v@.subrange(i as int, v@.len() as int);
            assert(sub.len() == 1 && sub[0] == 0);
            assert(trim_signed(sub) =~= Seq::<u8>::empty());
        }
        Vec::new()
    } else {
        proof {
            let sub = v@.subrange(i as int, v@.len() as int);
            assert(trim_signed(sub) == sub);
        }
        copy_range(v, i, v.len())
    }
}

/// Top-encodes an unsigned 64-bit number: its minimal big-endian bytes,
/// zero encoding to the empty string.
pub fn top_encode_u64(v: u64) -> (r: Vec<u8>)
    ensures
        r@ == min_be(v as nat),
    decreases v,
{
    if v == 0 {
        let r: Vec<u8> = Vec::new();
        proof {
            assert(r@ =~= min_be(0));
        }
        r
    } else {
        let mut r = top_encode_u64(v / 256);
        r.push((v % 256) as u8);
        r
    }
}

/// Top-decodes an unsigned 64-bit number from big-endian bytes; fails
/// exactly when the input is longer than eight bytes.
pub fn top_decode_u64(bytes: &Vec<u8>) -> (r: Option<u64>)
    ensures
        r is Some <==> bytes@.len() <= 8,
        r matches Some(v) ==> v as nat == be_unsigned(bytes@),
{
    if bytes.len() > 8 {
        return None;
    }
    let mut acc: u64 = 0;
    let mut i: usize = 0;
    while i < bytes.len()
        invariant
            bytes@.len() <= 8,
            i <= bytes@.len(),
            acc as nat == be_unsigned(bytes@.take(i as int)),
        decreases bytes@.len() - i,
    {
        proof {
            let pre = bytes@.take(i as int);
            lemma_be_bound(pre);
            lemma_pow256_mono(i as nat, 7);
            lemma_pow256_8();
            assert(pow256(7) == 0x100_0000_0000_0000);
            assert(bytes@.take(i + 1).drop_last() =~= pre);
            assert(bytes@.take(i + 1).last() == bytes@[i as int]);
        }
        acc = acc * 256 + (bytes[i] as u64);
        i = i + 1;
    }
    proof {
        assert(bytes@.take(bytes@.len() as int) =~= bytes@);
    }
    Some(acc)
}

} // verus!
