//! Little-endian integers read out of raw disk blocks.
use vstd::prelude::*;

verus! {

/// The number that a run of bytes denotes in little-endian order:
/// the first byte is the least significant one.
pub open spec fn le_value(bytes: Seq<u8>) -> nat
    decreases bytes.len(),
{
    if bytes.len() == 0 {
        0
    } else {
        bytes[0] as nat + 256 * le_value(bytes.drop_first())
    }
}

/// `256` raised to the power `n`.
pub open spec fn pow256(n: nat) -> nat
    decreases n,
{
    if n == 0 {
        1
    } else {
        256 * pow256((n - 1) as nat)
    }
}

/// A run of `n` bytes denotes a number below `256^n`.
pub proof fn lemma_le_value_bound(bytes: Seq<u8>)
    ensures
        le_value(bytes) < pow256(bytes.len()),
    decreases bytes.len(),
{
    if bytes.len() > 0 {
        lemma_le_value_bound(bytes.drop_first());
        let rest = le_value(bytes.drop_first());
        let p = pow256(bytes.drop_first().len());
        assert(bytes[0] as nat + 256 * rest < 256 * p) by (nonlinear_arith)
            requires
                rest < p,
                bytes[0] < 256,
        ;
    }
}

/// Byte `k` of the number `v`, counted from the least significant byte.
pub open spec fn byte_of(v: int, k: nat) -> int {
    (v / (pow256(k) as int)) % 256
}

/// `256^n` is positive.
pub proof fn lemma_pow256_positive(n: nat)
    ensures
        pow256(n) > 0,
    decreases n,
{
    if n > 0 {
        lemma_pow256_positive((n - 1) as nat);
    }
}

/// The little-endian number of a run of bytes gives each of them back:
/// its byte `k` is the run's byte `k`.
pub proof fn lemma_le_value_bytes(bytes: Seq<u8>)
    ensures
        forall|k: int| 0 <= k < bytes.len() ==> #[trigger] byte_of(le_value(bytes) as int, k as nat) == bytes[k],
    decreases bytes.len(),
{
    if bytes.len() > 0 {
        let rest = bytes.drop_first();
        lemma_le_value_bytes(rest);
        let r = le_value(rest) as int;
        let l = le_value(bytes) as int;
        assert(l == bytes[0] + 256 * r);
        vstd::arithmetic::div_mod::lemma_fundamental_div_mod_converse(l, 256, r, bytes[0] as int);
        assert forall|k: int| 0 <= k < bytes.len() implies #[trigger] byte_of(l, k as nat) == bytes[k] by {
            if k == 0 {
                assert(pow256(0) == 1);
                assert(l / 1 == l);
            } else {
                let p = pow256((k - 1) as nat) as int;
                lemma_pow256_positive((k - 1) as nat);
                assert(pow256(k as nat) == 256 * pow256((k - 1) as nat));
                vstd::arithmetic::div_mod::lemma_div_denominator(l, 256, p);
                assert(l / (pow256(k as nat) as int) == r / p);
                assert(byte_of(r, (k - 1) as nat) == rest[k - 1]);
            }
        }
    }
}

/// `pow256` grows with its exponent.
pub proof fn lemma_pow256_monotone(a: nat, b: nat)
    requires
        a <= b,
    ensures
        pow256(a) <= pow256(b),
    decreases b,
{
    if a < b {
        lemma_pow256_monotone(a, (b - 1) as nat);
    }
}

/// The powers of 256 that bound the integer types read from disk.
pub proof fn lemma_pow256_values()
    ensures
        pow256(2) == 0x1_0000,
        pow256(4) == 0x1_0000_0000,
        pow256(8) == 0x1_0000_0000_0000_0000,
        pow256(16) == 0x1_0000_0000_0000_0000_0000_0000_0000_0000,
{
    reveal_with_fuel(pow256, 17);
}

/// Reads `width` bytes starting at `offset` as a little-endian number.
pub fn read_le(bytes: &[u8], offset: usize, width: usize) -> (r: u128)
    requires
        offset + width <= bytes@.len(),
        width <= 16,
    ensures
        r == le_value(bytes@.subrange(offset as int, offset + width)),
{
    let n = bytes.len();
    let mut acc: u128 = 0;
    let mut i: usize = width;
    proof {
        assert(bytes@.subrange(offset + width, offset + width) =~= Seq::<u8>::empty());
        lemma_pow256_values();
    }
    while i > 0
        invariant
            i <= width <= 16,
            n == bytes@.len(),
            offset + width <= n,
            acc == le_value(bytes@.subrange(offset + i, offset + width)),
            acc < pow256((width - i) as nat),
        decreases i,
    {
        let b = bytes[offset + (i - 1)];
        proof {
            let s = bytes@.subrange(offset + i - 1, offset + width);
            assert(s.drop_first() =~= bytes@.subrange(offset + i, offset + width));
            assert(s[0] == b);
            let p = pow256((width - i) as nat);
            assert(pow256((width - i + 1) as nat) == 256 * p);
            lemma_pow256_monotone((width - i + 1) as nat, 16);
            lemma_pow256_values();
            assert(acc * 256 + b < 256 * p) by (nonlinear_arith)
                requires
                    acc < p,
                    b < 256,
            ;
        }
        acc = acc * 256 + b as u128;
        i = i - 1;
    }
    acc
}

/// Reads a little-endian `u32` at `offset`.
pub fn read_u32_le(bytes: &[u8], offset: usize) -> (r: u32)
    requires
        offset + 4 <= bytes@.len(),
    ensures
        r == le_value(bytes@.subrange(offset as int, offset + 4)),
{
    let v = read_le(bytes, offset, 4);
    proof {
        lemma_le_value_bound(bytes@.subrange(offset as int, offset + 4));
        lemma_pow256_values();
    }
    v as u32
}

/// Reads a little-endian `u64` at `offset`.
pub fn read_u64_le(bytes: &[u8], offset: usize) -> (r: u64)
    requires
        offset + 8 <= bytes@.len(),
    ensures
        r == le_value(bytes@.subrange(offset as int, offset + 8)),
{
    let v = read_le(bytes, offset, 8);
    proof {
        lemma_le_value_bound(bytes@.subrange(offset as int, offset + 8));
        lemma_pow256_values();
    }
    v as u64
}

/// Reads a little-endian `u128` at `offset`.
pub fn read_u128_le(bytes: &[u8], offset: usize) -> (r: u128)
    requires
        offset + 16 <= bytes@.len(),
    ensures
        r == le_value(bytes@.subrange(offset as int, offset + 16)),
{
    read_le(bytes, offset, 16)
}

} // verus!
