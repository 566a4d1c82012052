//! Little-endian encoding of fixed-width integers, as used by the
//! instruction data and account layouts of the rollup's programs.

use vstd::prelude::*;

verus! {

/// 256 to the power `n`.
pub open spec fn pow256(n: nat) -> nat
    decreases n,
{
    if n == 0 {
        1
    } else {
        256 * pow256((n - 1) as nat)
    }
}

/// The unsigned value of a little-endian byte string.
pub open spec fn le_value(s: Seq<u8>) -> nat
    decreases s.len(),
{
    if s.len() == 0 {
        0
    } else {
        s[0] as nat + 256 * le_value(s.drop_first())
    }
}

/// The `n` low-order bytes of `v`, least significant first.
pub open spec fn le_bytes(v: nat, n: nat) -> Seq<u8>
    decreases n,
{
    if n == 0 {
        Seq::empty()
    } else {
        seq![(v % 256) as u8] + le_bytes(v / 256, (n - 1) as nat)
    }
}

/// The eight bytes of a `u64`, least significant first.
pub open spec fn u64_le(v: u64) -> Seq<u8> {
    le_bytes(v as nat, 8)
}

/// The two's-complement bit pattern of an `i64`, as an unsigned value.
pub open spec fn i64_bits(v: i64) -> nat {
    if v >= 0 {
        v as nat
    } else {
        (v + 0x1_0000_0000_0000_0000) as nat
    }
}

/// The `i64` whose two's-complement bit pattern is `u`.
pub open spec fn i64_from_bits(u: nat) -> int {
    if u < 0x8000_0000_0000_0000 {
        u as int
    } else {
        u - 0x1_0000_0000_0000_0000
    }
}

/// `le_bytes` has the length asked for.
pub proof fn lemma_le_bytes_len(v: nat, n: nat)
    ensures
        le_bytes(v, n).len() == n,
    decreases n,
{
    if n > 0 {
        lemma_le_bytes_len(v / 256, (n - 1) as nat);
    }
}

pub proof fn lemma_pow256_positive(n: nat)
    ensures
        pow256(n) >= 1,
    decreases n,
{
    if n > 0 {
        lemma_pow256_positive((n - 1) as nat);
    }
}

pub proof fn lemma_pow256_8()
    ensures
        pow256(8) == 0x1_0000_0000_0000_0000,
{
    reveal_with_fuel(pow256, 9);
}

/// A little-endian value is below 256 to the power of its length.
pub proof fn lemma_le_value_bound(s: Seq<u8>)
    ensures
        le_value(s) < pow256(s.len()),
    decreases s.len(),
{
    if s.len() > 0 {
        lemma_le_value_bound(s.drop_first());
        let r = le_value(s.drop_first());
        let p = pow256((s.len() - 1) as nat);
        assert(r + 1 <= p);
        assert(256 * (r + 1) <= 256 * p) by (nonlinear_arith)
            requires
                r + 1 <= p,
        ;
    }
}

/// Encoding `v` in `n` bytes and reading it back gives `v` whenever it fits.
pub proof fn lemma_le_roundtrip(v: nat, n: nat)
    requires
        v < pow256(n),
    ensures
        le_bytes(v, n).len() == n,
        le_value(le_bytes(v, n)) == v,
    decreases n,
{
    if n > 0 {
        let p = pow256((n - 1) as nat);
        assert(v / 256 < p) by (nonlinear_arith)
            requires
                v < 256 * p,
        ;
        lemma_le_roundtrip(v / 256, (n - 1) as nat);
        let s = le_bytes(v, n);
        assert(s.drop_first() =~= le_bytes(v / 256, (n - 1) as nat));
        assert(v == (v % 256) + 256 * (v / 256)) by (nonlinear_arith);
    }
}

/// Reading back the bytes of any byte string gives the same bytes.
pub proof fn lemma_le_bytes_of_value(s: Seq<u8>)
    ensures
        le_bytes(le_value(s), s.len()) == s,
    decreases s.len(),
{
    if s.len() > 0 {
        lemma_le_bytes_of_value(s.drop_first());
        let r = le_value(s.drop_first());
        let v = le_value(s);
        assert(v % 256 == s[0] as nat && v / 256 == r) by (nonlinear_arith)
            requires
                v == s[0] as nat + 256 * r,
                0 <= s[0] < 256,
                r >= 0,
        ;
        assert(le_bytes(v, s.len()) =~= s);
    }
}

/// Reads the little-endian `u64` stored in `data[start..start + 8]`.
pub fn read_u64_le(data: &[u8], start: usize) -> (r: u64)
    requires
        start + 8 <= data@.len(),
    ensures
        r as nat == le_value(data@.subrange(start as int, start + 8)),
{
    let len = data.len();
    let mut acc: u64 = 0;
    let mut i: usize = 8;
    proof {
        assert(data@.subrange(start + 8, start + 8) =~= Seq::<u8>::empty());
        lemma_pow256_8();
    }
    while i > 0
        invariant
            0 <= i <= 8,
            start + 8 <= data@.len(),
            len == data@.len(),
            acc as nat == le_value(data@.subrange(start + i, start + 8)),
            acc < pow256((8 - i) as nat),
            pow256(8) == 0x1_0000_0000_0000_0000,
        decreases i,
    {
        proof {
            lemma_pow256_monotone((8 - i) as nat, 7);
        }
        let ghost old_acc = acc;
        let b: u8 = data[start + i - 1];
        assert(256 * acc + b < 256 * pow256((8 - i) as nat)) by (nonlinear_arith)
            requires
                acc < pow256((8 - i) as nat),
                b < 256,
        ;
        acc = acc * 256 + b as u64;
        proof {
            let suffix = data@.subrange(start + i - 1, start + 8);
            assert(suffix.drop_first() =~= data@.subrange(start + i, start + 8));
            assert(pow256((8 - (i - 1)) as nat) == 256 * pow256((8 - i) as nat));
        }
        i = i - 1;
    }
    acc
}

pub proof fn lemma_pow256_monotone(a: nat, b: nat)
    requires
        a <= b,
    ensures
        pow256(a) <= pow256(b),
    decreases b,
{
    if a < b {
        lemma_pow256_monotone(a, (b - 1) as nat);
        lemma_pow256_positive((b - 1) as nat);
    }
}

/// The eight little-endian bytes of `v`.
pub fn write_u64_le(v: u64) -> (r: Vec<u8>)
    ensures
        r@ == u64_le(v),
        r@.len() == 8,
{
    proof {
        lemma_le_bytes_len(v as nat, 8);
    }
    let mut out: Vec<u8> = Vec::new();
    let mut x: u64 = v;
    let mut i: usize = 0;
    proof {
        assert(out@ + le_bytes(x as nat, 8) =~= le_bytes(v as nat, 8));
    }
    while i < 8
        invariant
            0 <= i <= 8,
            out@.len() == i,
            out@ + le_bytes(x as nat, (8 - i) as nat) == le_bytes(v as nat, 8),
        decreases 8 - i,
    {
        let b: u8 = (x % 256) as u8;
        proof {
            let rest = le_bytes(x as nat, (8 - i) as nat);
            assert(rest == seq![b] + le_bytes((x / 256) as nat, (8 - i - 1) as nat));
            assert(out@ + rest =~= out@.push(b) + le_bytes((x / 256) as nat, (8 - i - 1) as nat));
        }
        out.push(b);
        x = x / 256;
        i = i + 1;
    }
    proof {
        assert(le_bytes(x as nat, 0) =~= Seq::<u8>::empty());
        assert(out@ + Seq::<u8>::empty() =~= out@);
    }
    out
}

/// The two's-complement bit pattern of `v`.
pub fn i64_to_bits(v: i64) -> (r: u64)
    ensures
        r as nat == i64_bits(v),
{
    if v >= 0 {
        v as u64
    } else {
        let shifted: u64 = (v + 0x7fff_ffff_ffff_ffff + 1) as u64;
        shifted + 0x8000_0000_0000_0000
    }
}

/// The `i64` with bit pattern `u`.
pub fn i64_of_bits(u: u64) -> (r: i64)
    ensures
        r as int == i64_from_bits(u as nat),
{
    if u < 0x8000_0000_0000_0000 {
        u as i64
    } else {
        let low: i64 = (u - 0x8000_0000_0000_0000) as i64;
        low - 0x7fff_ffff_ffff_ffff - 1
    }
}

} // verus!
