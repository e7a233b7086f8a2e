//! Little-endian integer encoding over byte sequences.

use vstd::prelude::*;
use vstd::arithmetic::div_mod::lemma_fundamental_div_mod;

verus! {

/// `256^n`.
pub open spec fn pow256(n: nat) -> nat
    decreases n,
{
    if n == 0 {
        1
    } else {
        256 * pow256((n - 1) as nat)
    }
}

/// The `n` low bytes of `v`, least significant first.
pub open spec fn le_bytes(v: nat, n: nat) -> Seq<u8>
    decreases n,
{
    if n == 0 {
        Seq::empty()
    } else {
        seq![(v % 256) as u8] + le_bytes(v / 256, (n - 1) as nat)
    }
}

/// The number that a little-endian byte sequence denotes.
pub open spec fn le_value(s: Seq<u8>) -> nat
    decreases s.len(),
{
    if s.len() == 0 {
        0
    } else {
        s[0] as nat + 256 * le_value(s.drop_first())
    }
}

pub proof fn lemma_pow256_values()
    ensures
        pow256(1) == 0x100,
        pow256(2) == 0x1_0000,
        pow256(4) == 0x1_0000_0000,
        pow256(8) == 0x1_0000_0000_0000_0000,
        pow256(16) == 0x1_0000_0000_0000_0000_0000_0000_0000_0000,
{
    reveal_with_fuel(pow256, 17);
}

pub proof fn lemma_le_bytes_len(v: nat, n: nat)
    ensures
        le_bytes(v, n).len() == n,
    decreases n,
{
    if n > 0 {
        lemma_le_bytes_len(v / 256, (n - 1) as nat);
    }
}

/// Decoding the `n` low bytes of a number below `256^n` gives the number back.
pub proof fn lemma_le_round_trip(v: nat, n: nat)
    requires
        v < pow256(n),
    ensures
        le_bytes(v, n).len() == n,
        le_value(le_bytes(v, n)) == v,
    decreases n,
{
    lemma_le_bytes_len(v, n);
    if n > 0 {
        let p = pow256((n - 1) as nat);
        assert(v / 256 < p) by (nonlinear_arith)
            requires
                v < 256 * p,
        ;
        lemma_le_round_trip(v / 256, (n - 1) as nat);
        let s = le_bytes(v, n);
        assert(s.drop_first() =~= le_bytes(v / 256, (n - 1) as nat));
        lemma_fundamental_div_mod(v as int, 256);
    }
}

/// A value decoded from `n` bytes is below `256^n`.
pub proof fn lemma_le_value_bound(s: Seq<u8>)
    ensures
        le_value(s) < pow256(s.len()),
    decreases s.len(),
{
    if s.len() > 0 {
        lemma_le_value_bound(s.drop_first());
        let p = pow256((s.len() - 1) as nat);
        let r = le_value(s.drop_first());
        let b = s[0] as nat;
        assert(b + 256 * r < 256 * p) by (nonlinear_arith)
            requires
                r < p,
                b < 256,
        ;
    }
}

/// Appends the `n` low bytes of `v`, least significant first.
pub fn push_le(out: &mut Vec<u8>, v: u128, n: usize)
    requires
        n <= 16,
    ensures
        final(out)@ == old(out)@ + le_bytes(v as nat, n as nat),
    decreases n,
{
    if n == 0 {
        assert(old(out)@ + le_bytes(v as nat, 0) =~= old(out)@);
        return;
    }
    out.push((v % 256) as u8);
    push_le(out, v / 256, n - 1);
    assert(final(out)@ =~= old(out)@ + le_bytes(v as nat, n as nat));
}

/// Reads `n` bytes at `pos` as a little-endian number.
pub fn read_le(buf: &[u8], pos: usize, n: usize) -> (r: u128)
    requires
        n <= 16,
        pos + n <= buf@.len(),
    ensures
        r as nat == le_value(buf@.subrange(pos as int, pos + n)),
{
    let len = buf.len();
    let mut acc: u128 = 0;
    let mut i: usize = n;
    proof {
        lemma_pow256_values();
    }
    while i > 0
        invariant
            n <= 16,
            pos + n <= buf@.len(),
            len == buf@.len(),
            i <= n,
            acc as nat == le_value(buf@.subrange(pos + i, pos + n)),
            acc < pow256((n - i) as nat),
        decreases i,
    {
        let ghost prev = buf@.subrange(pos + i, pos + n);
        i = i - 1;
        let ghost cur = buf@.subrange(pos + i, pos + n);
        assert(cur.drop_first() =~= prev);
        assert(pos + i < buf@.len());
        let b = buf[pos + i];
        proof {
            lemma_pow256_mono((n - i) as nat, 16);
            lemma_pow256_values();
            let p = pow256((n - i - 1) as nat);
            assert(pow256((n - i) as nat) == 256 * p);
            assert(256 * acc + b < 256 * p) by (nonlinear_arith)
                requires
                    acc < p,
                    b < 256,
            ;
        }
        acc = b as u128 + 256 * acc;
    }
    assert(buf@.subrange(pos as int, pos + n) =~= buf@.subrange(pos + 0, pos + n));
    acc
}

pub proof fn lemma_pow256_mono(a: nat, b: nat)
    requires
        a <= b,
    ensures
        pow256(a) <= pow256(b),
    decreases b,
{
    if a < b {
        lemma_pow256_mono(a, (b - 1) as nat);
    }
}

/// Concatenated `w`-byte little-endian encodings of `xs`.
pub open spec fn le_concat(xs: Seq<u64>, w: nat) -> Seq<u8>
    decreases xs.len(),
{
    if xs.len() == 0 {
        Seq::empty()
    } else {
        le_concat(xs.drop_last(), w) + le_bytes(xs.last() as nat, w)
    }
}

pub proof fn lemma_le_concat_len(xs: Seq<u64>, w: nat)
    ensures
        le_concat(xs, w).len() == xs.len() * w,
    decreases xs.len(),
{
    if xs.len() > 0 {
        lemma_le_concat_len(xs.drop_last(), w);
        lemma_le_bytes_len(xs.last() as nat, w);
        assert((xs.len() - 1) * w + w == xs.len() * w) by (nonlinear_arith);
    }
}

pub proof fn lemma_le_concat_index(xs: Seq<u64>, w: nat, k: int)
    requires
        0 <= k < xs.len(),
    ensures
        le_concat(xs, w).subrange(k * w, k * w + w) == le_bytes(xs[k] as nat, w),
    decreases xs.len(),
{
    let pre = xs.drop_last();
    lemma_le_concat_len(pre, w);
    lemma_le_bytes_len(xs.last() as nat, w);
    let s = le_concat(xs, w);
    if k == xs.len() - 1 {
        assert(k * w == pre.len() * w);
        assert(s.subrange(k * w, k * w + w) =~= le_bytes(xs[k] as nat, w));
    } else {
        lemma_le_concat_index(pre, w, k);
        assert(k * w + w <= pre.len() * w) by (nonlinear_arith)
            requires
                k + 1 <= pre.len(),
        ;
        assert(s.subrange(k * w, k * w + w) =~= le_concat(pre, w).subrange(k * w, k * w + w));
    }
}

/// Appends the `w`-byte encodings of `xs`.
pub fn push_all_le(out: &mut Vec<u8>, xs: &[u64], w: usize)
    requires
        w == 1 || w == 4 || w == 8,
        forall|i: int| 0 <= i < xs@.len() ==> (#[trigger] xs@[i] as nat) < pow256(w as nat),
    ensures
        final(out)@ == old(out)@ + le_concat(xs@, w as nat),
{
    let mut k: usize = 0;
    while k < xs.len()
        invariant
            w == 1 || w == 4 || w == 8,
            k <= xs@.len(),
            out@ == old(out)@ + le_concat(xs@.subrange(0, k as int), w as nat),
        decreases xs@.len() - k,
    {
        push_le(out, xs[k] as u128, w);
        k = k + 1;
        proof {
            let sub = xs@.subrange(0, k as int);
            assert(sub.drop_last() =~= xs@.subrange(0, k - 1));
            assert(out@ =~= old(out)@ + le_concat(sub, w as nat));
        }
    }
    assert(xs@.subrange(0, xs@.len() as int) =~= xs@);
}

/// Reads `c` numbers of `w` bytes each, starting at `off`.
pub fn read_all_le(buf: &[u8], off: usize, c: usize, w: usize) -> (r: Vec<u64>)
    requires
        w == 1 || w == 4 || w == 8,
        off + c * w <= buf@.len(),
    ensures
        r@ == Seq::new(
            c as nat,
            |k: int| le_value(buf@.subrange(off + w * k, off + w * k + w)) as u64,
        ),
{
    let mut r: Vec<u64> = Vec::new();
    let mut k: usize = 0;
    let len = buf.len();
    while k < c
        invariant
            len == buf@.len(),
            w == 1 || w == 4 || w == 8,
            off + c * w <= buf@.len(),
            k <= c,
            r@ == Seq::new(
                k as nat,
                |j: int| le_value(buf@.subrange(off + w * j, off + w * j + w)) as u64,
            ),
        decreases c - k,
    {
        proof {
            assert(k * w + w <= c * w) by (nonlinear_arith)
                requires
                    k + 1 <= c,
            ;
            assert(w * k == k * w) by (nonlinear_arith);
            assert(off + w * k + w <= len);
        }
        let v = read_le(buf, off + w * k, w);
        proof {
            lemma_le_value_bound(buf@.subrange(off + w * k, off + w * k + w));
            lemma_pow256_mono(w as nat, 8);
            lemma_pow256_values();
        }
        r.push(v as u64);
        k = k + 1;
        assert(r@ =~= Seq::new(
            k as nat,
            |j: int| le_value(buf@.subrange(off + w * j, off + w * j + w)) as u64,
        ));
    }
    r
}

/// Reads a little-endian `u64` at `pos`.
pub fn read_u64_at(buf: &[u8], pos: usize) -> (r: u64)
    requires
        pos + 8 <= buf@.len(),
    ensures
        r == le_value(buf@.subrange(pos as int, pos + 8)) as u64,
        r as nat == le_value(buf@.subrange(pos as int, pos + 8)),
{
    let v = read_le(buf, pos, 8);
    proof {
        lemma_le_value_bound(buf@.subrange(pos as int, pos + 8));
        lemma_pow256_values();
    }
    v as u64
}

/// Reads a little-endian `u32` at `pos`.
pub fn read_u32_at(buf: &[u8], pos: usize) -> (r: u32)
    requires
        pos + 4 <= buf@.len(),
    ensures
        r as nat == le_value(buf@.subrange(pos as int, pos + 4)),
{
    let v = read_le(buf, pos, 4);
    proof {
        lemma_le_value_bound(buf@.subrange(pos as int, pos + 4));
        lemma_pow256_values();
    }
    v as u32
}

} // verus!
