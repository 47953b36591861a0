//! Big-endian byte strings and the 32-byte words of the wire format.
//!
//! The cross-chain payload packs every integer as a big-endian unsigned
//! number, right-justified in a 32-byte word. This module gives the
//! mathematical reading of such byte strings (`be_val`), the constructive
//! encoding (`be_bytes`), and verified executable readers and writers.

use vstd::prelude::*;

verus! {

/// 256^n: the weight of a byte n positions above the low end of a
/// big-endian byte string.
pub open spec fn pow256(n: nat) -> nat
    decreases n,
{
    if n == 0 {
        1
    } else {
        256 * pow256((n - 1) as nat)
    }
}

/// The unsigned value of a big-endian byte string.
pub open spec fn be_val(s: Seq<u8>) -> nat
    decreases s.len(),
{
    if s.len() == 0 {
        0
    } else {
        be_val(s.drop_last()) * 256 + s.last() as nat
    }
}

/// The n-byte big-endian encoding of x (the low n bytes, if x >= 256^n).
pub open spec fn be_bytes(x: nat, n: nat) -> Seq<u8>
    decreases n,
{
    if n == 0 {
        Seq::empty()
    } else {
        be_bytes(x / 256, (n - 1) as nat).push((x % 256) as u8)
    }
}

pub open spec fn all_zero(s: Seq<u8>) -> bool {
    forall|i: int| 0 <= i < s.len() ==> s[i] == 0
}

/// A sequence of n zero bytes.
pub open spec fn zero_bytes(n: nat) -> Seq<u8> {
    Seq::new(n, |i: int| 0u8)
}

pub proof fn lemma_pow256_values()
    ensures
        pow256(8) == 0x1_0000_0000_0000_0000,
        pow256(24) == pow256(8) * pow256(8) * pow256(8),
{
    assert(pow256(0) == 1);
    assert(pow256(1) == 256);
    assert(pow256(2) == 0x1_0000);
    assert(pow256(3) == 0x100_0000);
    assert(pow256(4) == 0x1_0000_0000);
    assert(pow256(5) == 0x100_0000_0000);
    assert(pow256(6) == 0x1_0000_0000_0000);
    assert(pow256(7) == 0x100_0000_0000_0000);
    assert(pow256(8) == 0x1_0000_0000_0000_0000);
    lemma_pow256_adds(8, 8);
    lemma_pow256_adds(16, 8);
}

pub proof fn lemma_pow256_adds(a: nat, b: nat)
    ensures
        pow256(a + b) == pow256(a) * pow256(b),
    decreases a,
{
    if a == 0 {
        assert(pow256(b) == 1 * pow256(b));
    } else {
        lemma_pow256_adds((a - 1) as nat, b);
        assert(pow256(a + b) == 256 * pow256((a - 1) as nat + b));
        assert(256 * (pow256((a - 1) as nat) * pow256(b)) == (256 * pow256((a - 1) as nat))
            * pow256(b)) by (nonlinear_arith);
    }
}

pub proof fn lemma_pow256_one()
    ensures
        pow256(1) == 256,
{
    assert(pow256(0) == 1);
}

pub proof fn lemma_pow256_pos(n: nat)
    ensures
        pow256(n) >= 1,
    decreases n,
{
    if n > 0 {
        lemma_pow256_pos((n - 1) as nat);
    }
}

/// A big-endian byte string of length n denotes a value below 256^n.
pub proof fn lemma_be_val_bound(s: Seq<u8>)
    ensures
        be_val(s) < pow256(s.len()),
    decreases s.len(),
{
    if s.len() == 0 {
    } else {
        let p = s.drop_last();
        lemma_be_val_bound(p);
        assert(be_val(p) * 256 <= (pow256(p.len()) - 1) * 256) by (nonlinear_arith)
            requires
                be_val(p) <= pow256(p.len()) - 1,
        ;
    }
}

/// Appending byte strings: the left part is shifted by the length of the right.
#[verifier::spinoff_prover]
pub proof fn lemma_be_val_append(a: Seq<u8>, b: Seq<u8>)
    ensures
        be_val(a + b) == be_val(a) * pow256(b.len()) + be_val(b),
    decreases b.len(),
{
    if b.len() == 0 {
        assert(a + b =~= a);
        assert(pow256(0) == 1);
        assert(be_val(b) == 0);
    } else {
        let b0 = b.drop_last();
        assert((a + b).drop_last() =~= a + b0);
        assert((a + b).last() == b.last());
        lemma_be_val_append(a, b0);
        assert((be_val(a) * pow256(b0.len()) + be_val(b0)) * 256 == be_val(a) * (pow256(
            b0.len(),
        ) * 256) + be_val(b0) * 256) by (nonlinear_arith);
        assert(pow256(b0.len()) * 256 == pow256(b.len())) by {
            lemma_pow256_adds(b0.len(), 1);
            lemma_pow256_one();
        };
        assert(be_val(a + b) == be_val(a + b0) * 256 + b.last());
        assert(be_val(b) == be_val(b0) * 256 + b.last());
        assert(be_val(a + b0) * 256 == (be_val(a) * pow256(b0.len()) + be_val(b0)) * 256);
        assert(be_val(a) * (pow256(b0.len()) * 256) == be_val(a) * pow256(b.len()));
    }
}

/// A string of zero bytes denotes zero.
pub proof fn lemma_be_val_zero(s: Seq<u8>)
    requires
        all_zero(s),
    ensures
        be_val(s) == 0,
    decreases s.len(),
{
    if s.len() > 0 {
        lemma_be_val_zero(s.drop_last());
    }
}

/// A nonzero byte makes the value at least the weight of its position.
pub proof fn lemma_be_val_nonzero(s: Seq<u8>, i: int)
    requires
        0 <= i < s.len(),
        s[i] != 0,
    ensures
        be_val(s) >= pow256((s.len() - 1 - i) as nat),
    decreases s.len(),
{
    if i == s.len() - 1 {
        lemma_be_val_u64_step(s);
    } else {
        let p = s.drop_last();
        lemma_be_val_nonzero(p, i);
        let w = pow256((p.len() - 1 - i) as nat);
        assert(be_val(p) * 256 >= w * 256) by (nonlinear_arith)
            requires
                be_val(p) >= w,
        ;
        lemma_pow256_adds((p.len() - 1 - i) as nat, 1);
        lemma_pow256_one();
    }
}

/// Unfolding step: the last byte is the low digit.
proof fn lemma_be_val_u64_step(s: Seq<u8>)
    requires
        s.len() > 0,
    ensures
        be_val(s) >= s.last(),
{
    assert(be_val(s.drop_last()) * 256 >= 0) by (nonlinear_arith);
}

/// Round trip: reading back the n-byte encoding of x recovers x.
pub proof fn lemma_be_val_of_be_bytes(x: nat, n: nat)
    requires
        x < pow256(n),
    ensures
        be_bytes(x, n).len() == n,
        be_val(be_bytes(x, n)) == x,
    decreases n,
{
    lemma_be_bytes_len(x, n);
    if n > 0 {
        let q = x / 256;
        assert(q < pow256((n - 1) as nat)) by (nonlinear_arith)
            requires
                x < 256 * pow256((n - 1) as nat),
                q == x / 256,
        ;
        lemma_be_val_of_be_bytes(q, (n - 1) as nat);
        let s = be_bytes(q, (n - 1) as nat);
        assert(s.push((x % 256) as u8).drop_last() =~= s);
        assert(x == q * 256 + x % 256) by (nonlinear_arith)
            requires
                q == x / 256,
        ;
    }
}

pub proof fn lemma_be_bytes_len(x: nat, n: nat)
    ensures
        be_bytes(x, n).len() == n,
    decreases n,
{
    if n > 0 {
        lemma_be_bytes_len(x / 256, (n - 1) as nat);
    }
}

/// The value of a 32-byte word whose high 24 bytes are zero is the value
/// of its low 8 bytes, which fits a u64; a nonzero high byte pushes the
/// value to 2^64 or above.
pub proof fn lemma_word_val(w: Seq<u8>)
    requires
        w.len() == 32,
    ensures
        all_zero(w.take(24)) ==> be_val(w) == be_val(w.skip(24)) && be_val(w)
            < 0x1_0000_0000_0000_0000,
        !all_zero(w.take(24)) ==> be_val(w) >= 0x1_0000_0000_0000_0000,
{
    let hi = w.take(24);
    let lo = w.skip(24);
    assert(w =~= hi + lo);
    lemma_be_val_append(hi, lo);
    lemma_pow256_values();
    if all_zero(hi) {
        lemma_be_val_zero(hi);
        lemma_be_val_bound(lo);
        assert(lo.len() == 8);
        assert(be_val(w) == 0 * pow256(8) + be_val(lo));
        assert(be_val(lo) < pow256(8));
    } else {
        let i = choose|i: int| 0 <= i < hi.len() && hi[i] != 0;
        lemma_be_val_nonzero(w, i);
        lemma_pow256_mono(8, (31 - i) as nat);
    }
}

pub proof fn lemma_pow256_mono(a: nat, b: nat)
    requires
        a <= b,
    ensures
        pow256(a) <= pow256(b),
{
    lemma_pow256_adds(a, (b - a) as nat);
    lemma_pow256_pos((b - a) as nat);
    assert(pow256(a) * 1 <= pow256(a) * pow256((b - a) as nat)) by (nonlinear_arith)
        requires
            pow256((b - a) as nat) >= 1,
            pow256(a) >= 0,
    ;
}

/// Reads the eight big-endian bytes at `at` as a u64.
pub fn read_be_u64(m: &[u8], at: usize) -> (x: u64)
    requires
        at + 8 <= m@.len(),
    ensures
        x == be_val(m@.subrange(at as int, at as int + 8)),
{
    let s = Ghost(m@.subrange(at as int, at as int + 8));
    let mlen: usize = m.len();
    let mut acc: u64 = 0;
    let mut i: usize = 0;
    proof {
        assert(s@.take(0) =~= Seq::<u8>::empty());
        lemma_pow256_values();
    }
    while i < 8
        invariant
            i <= 8,
            at + 8 <= m@.len(),
            mlen == m@.len(),
            s@ == m@.subrange(at as int, at as int + 8),
            acc == be_val(s@.take(i as int)),
            acc < pow256(i as nat),
            pow256(8) == 0x1_0000_0000_0000_0000,
        decreases 8 - i,
    {
        proof {
            lemma_pow256_mono(i as nat, 7);
            assert(pow256(7) == 0x100_0000_0000_0000);
            assert(s@.take(i + 1).drop_last() =~= s@.take(i as int));
            assert(s@.take(i + 1).last() == m@[at + i]);
            assert((acc as nat) * 256 + 256 <= pow256(i as nat) * 256) by (nonlinear_arith)
                requires
                    acc < pow256(i as nat),
            ;
            lemma_pow256_adds(i as nat, 1);
            lemma_pow256_one();
        }
        acc = acc * 256 + (m[at + i] as u64);
        i = i + 1;
    }
    proof {
        assert(s@.take(8) =~= s@);
    }
    acc
}

/// Appends the n-byte big-endian encoding of x.
pub fn push_be_bytes(out: &mut Vec<u8>, x: u64, n: usize)
    ensures
        final(out)@ == old(out)@ + be_bytes(x as nat, n as nat),
    decreases n,
{
    if n == 0 {
        proof {
            assert(out@ =~= out@ + be_bytes(x as nat, 0));
        }
    } else {
        let q = x / 256;
        push_be_bytes(out, q, n - 1);
        out.push((x % 256) as u8);
        proof {
            assert((x as nat) / 256 == (x / 256) as nat);
            assert(old(out)@ + be_bytes((x as nat) / 256, (n - 1) as nat) + seq![
                ((x as nat) % 256) as u8,
            ] =~= old(out)@ + be_bytes(x as nat, n as nat));
        }
    }
}

/// Appends n zero bytes.
pub fn push_zero_bytes(out: &mut Vec<u8>, n: usize)
    ensures
        final(out)@ == old(out)@ + zero_bytes(n as nat),
{
    let mut i: usize = 0;
    proof {
        assert(out@ =~= out@ + zero_bytes(0));
    }
    while i < n
        invariant
            i <= n,
            out@ == old(out)@ + zero_bytes(i as nat),
        decreases n - i,
    {
        out.push(0u8);
        proof {
            assert(old(out)@ + zero_bytes(i as nat) + seq![0u8] =~= old(out)@ + zero_bytes(
                (i + 1) as nat,
            ));
        }
        i = i + 1;
    }
}

/// Appends a slice of bytes.
pub fn push_bytes(out: &mut Vec<u8>, src: &[u8])
    ensures
        final(out)@ == old(out)@ + src@,
{
    let mut i: usize = 0;
    proof {
        assert(out@ =~= out@ + src@.take(0));
    }
    while i < src.len()
        invariant
            i <= src@.len(),
            out@ == old(out)@ + src@.take(i as int),
        decreases src@.len() - i,
    {
        out.push(src[i]);
        proof {
            assert(old(out)@ + src@.take(i as int) + seq![src@[i as int]] =~= old(out)@
                + src@.take(i + 1));
        }
        i = i + 1;
    }
    proof {
        assert(src@.take(src@.len() as int) =~= src@);
    }
}

/// True if the bytes of `m` from `from` (inclusive) to `to` (exclusive)
/// are all zero.
pub fn range_all_zero(m: &[u8], from: usize, to: usize) -> (r: bool)
    requires
        from <= to <= m@.len(),
    ensures
        r == all_zero(m@.subrange(from as int, to as int)),
{
    let mut i: usize = from;
    while i < to
        invariant
            from <= i <= to <= m@.len(),
            forall|j: int| from <= j < i ==> m@[j] == 0,
        decreases to - i,
    {
        if m[i] != 0 {
            assert(m@.subrange(from as int, to as int)[i - from] != 0);
            return false;
        }
        i = i + 1;
    }
    true
}

/// True if two 32-byte identities hold the same bytes.
pub fn bytes32_eq(a: &[u8; 32], b: &[u8; 32]) -> (r: bool)
    ensures
        r == (a@ == b@),
{
    let mut i: usize = 0;
    while i < 32
        invariant
            i <= 32,
            forall|j: int| 0 <= j < i ==> a@[j] == b@[j],
        decreases 32 - i,
    {
        if a[i] != b[i] {
            return false;
        }
        i = i + 1;
    }
    proof {
        assert(a@ =~= b@);
    }
    true
}

/// True if two 20-byte addresses hold the same bytes.
pub fn bytes20_eq(a: &[u8; 20], b: &[u8; 20]) -> (r: bool)
    ensures
        r == (a@ == b@),
{
    let mut i: usize = 0;
    while i < 20
        invariant
            i <= 20,
            forall|j: int| 0 <= j < i ==> a@[j] == b@[j],
        decreases 20 - i,
    {
        if a[i] != b[i] {
            return false;
        }
        i = i + 1;
    }
    proof {
        assert(a@ =~= b@);
    }
    true
}

/// True if a byte vector holds exactly the bytes of a 20-byte address.
pub fn vec_eq_addr20(v: &Vec<u8>, a: &[u8; 20]) -> (r: bool)
    ensures
        r == (v@ == a@),
{
    if v.len() != 20 {
        return false;
    }
    let mut i: usize = 0;
    while i < 20
        invariant
            i <= 20,
            v@.len() == 20,
            forall|j: int| 0 <= j < i ==> v@[j] == a@[j],
        decreases 20 - i,
    {
        if v[i] != a[i] {
            return false;
        }
        i = i + 1;
    }
    proof {
        assert(v@ =~= a@);
    }
    true
}

/// A 20-byte remote address widened into a 32-byte local identity:
/// 12 zero bytes, then the address.
pub open spec fn widen_addr(a: Seq<u8>) -> Seq<u8> {
    zero_bytes(12) + a
}

/// Widens a 20-byte remote address into a 32-byte local identity.
pub fn widen_addr20(a: &[u8; 20]) -> (r: [u8; 32])
    ensures
        r@ == widen_addr(a@),
{
    let mut r = [0u8; 32];
    let mut i: usize = 0;
    while i < 20
        invariant
            i <= 20,
            r@.len() == 32,
            forall|j: int| 0 <= j < 12 ==> r@[j] == 0,
            forall|j: int| 0 <= j < i ==> r@[12 + j] == a@[j],
        decreases 20 - i,
    {
        r[12 + i] = a[i];
        i = i + 1;
    }
    proof {
        assert(r@ =~= widen_addr(a@));
    }
    r
}

} // verus!
