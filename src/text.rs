//! Decimal rendering of numbers.

use vstd::prelude::*;

verus! {

/// The character of a decimal digit.
pub open spec fn digit_char(d: nat) -> char {
    if d == 0 {
        '0'
    } else if d == 1 {
        '1'
    } else if d == 2 {
        '2'
    } else if d == 3 {
        '3'
    } else if d == 4 {
        '4'
    } else if d == 5 {
        '5'
    } else if d == 6 {
        '6'
    } else if d == 7 {
        '7'
    } else if d == 8 {
        '8'
    } else {
        '9'
    }
}

/// The decimal digits of `n`, most significant first, without leading zeros.
pub open spec fn dec_digits(n: nat) -> Seq<char>
    decreases n,
{
    if n < 10 {
        seq![digit_char(n)]
    } else {
        dec_digits(n / 10).push(digit_char(n % 10))
    }
}

/// `s` with zeros in front up to `w` characters.
pub open spec fn zero_pad(s: Seq<char>, w: nat) -> Seq<char> {
    if s.len() >= w {
        s
    } else {
        Seq::new((w - s.len()) as nat, |i: int| '0') + s
    }
}

fn digit_str(d: u64) -> (r: &'static str)
    requires
        d < 10,
    ensures
        r@ == seq![digit_char(d as nat)],
{
    if d == 0 {
        proof {
            reveal_strlit("0");
        }
        "0"
    } else if d == 1 {
        proof {
            reveal_strlit("1");
        }
        "1"
    } else if d == 2 {
        proof {
            reveal_strlit("2");
        }
        "2"
    } else if d == 3 {
        proof {
            reveal_strlit("3");
        }
        "3"
    } else if d == 4 {
        proof {
            reveal_strlit("4");
        }
        "4"
    } else if d == 5 {
        proof {
            reveal_strlit("5");
        }
        "5"
    } else if d == 6 {
        proof {
            reveal_strlit("6");
        }
        "6"
    } else if d == 7 {
        proof {
            reveal_strlit("7");
        }
        "7"
    } else if d == 8 {
        proof {
            reveal_strlit("8");
        }
        "8"
    } else {
        proof {
            reveal_strlit("9");
        }
        "9"
    }
}

/// `n` in decimal.
pub fn decimal(n: u64) -> (r: String)
    ensures
        r@ == dec_digits(n as nat),
    decreases n,
{
    if n < 10 {
        String::from_str(digit_str(n))
    } else {
        let mut s = decimal(n / 10);
        s.append(digit_str(n % 10));
        s
    }
}

/// `n` in decimal, with zeros in front up to `w` digits.
pub fn decimal_padded(n: u64, w: usize) -> (r: String)
    requires
        w <= 64,
    ensures
        r@ == zero_pad(dec_digits(n as nat), w as nat),
{
    let digits = decimal(n);
    let count = digit_count(n);
    if count >= w {
        return digits;
    }
    let mut s = String::new();
    let mut i: usize = count;
    while i < w
        invariant
            count <= i <= w,
            count == dec_digits(n as nat).len(),
            s@ == Seq::new((i - count) as nat, |k: int| '0'),
        decreases w - i,
    {
        proof {
            reveal_strlit("0");
        }
        s.append("0");
        i = i + 1;
        assert(s@ =~= Seq::new((i - count) as nat, |k: int| '0'));
    }
    s.append(digits.as_str());
    s
}

/// Number of decimal digits of `n`.
pub fn digit_count(n: u64) -> (r: usize)
    ensures
        r == dec_digits(n as nat).len(),
    decreases n,
{
    if n < 10 {
        1
    } else {
        let c = digit_count(n / 10);
        proof {
            lemma_count_bound(n / 10);
        }
        c + 1
    }
}

pub open spec fn pow10(k: nat) -> nat
    decreases k,
{
    if k == 0 {
        1
    } else {
        10 * pow10((k - 1) as nat)
    }
}

proof fn lemma_digits_bound(n: nat, k: nat)
    requires
        k >= 1,
        n < pow10(k),
    ensures
        dec_digits(n).len() <= k,
    decreases k,
{
    if n >= 10 {
        assert(k >= 2) by {
            if k == 1 {
                assert(pow10(1) == 10) by {
                    reveal_with_fuel(pow10, 2);
                }
            }
        }
        assert(n / 10 < pow10((k - 1) as nat)) by (nonlinear_arith)
            requires
                n < 10 * pow10((k - 1) as nat),
        ;
        lemma_digits_bound(n / 10, (k - 1) as nat);
    }
}

proof fn lemma_count_bound(n: u64)
    ensures
        dec_digits(n as nat).len() <= 20,
{
    assert(pow10(20) == 100_000_000_000_000_000_000) by {
        reveal_with_fuel(pow10, 21);
    }
    lemma_digits_bound(n as nat, 20);
}

/// The `n` low bits of `v` as `0`/`1` characters, most significant first.
pub open spec fn bin_digits(v: nat, n: nat) -> Seq<char>
    decreases n,
{
    if n == 0 {
        Seq::empty()
    } else {
        bin_digits(v / 2, (n - 1) as nat).push(if v % 2 == 1 {
            '1'
        } else {
            '0'
        })
    }
}

/// `s` cut into groups of `g` characters joined by underscores.
pub open spec fn grouped(s: Seq<char>, g: nat) -> Seq<char>
    decreases s.len(),
{
    if g == 0 || s.len() <= g {
        s
    } else {
        s.take(g as int) + seq!['_'] + grouped(s.skip(g as int), g)
    }
}

/// Appends the `n` low bits of `v`, most significant first.
fn push_bits(out: &mut String, v: u64, n: usize)
    ensures
        final(out)@ == old(out)@ + bin_digits(v as nat, n as nat),
    decreases n,
{
    if n == 0 {
        assert(old(out)@ + bin_digits(v as nat, 0) =~= old(out)@);
        return;
    }
    push_bits(out, v / 2, n - 1);
    if v % 2 == 1 {
        proof {
            reveal_strlit("1");
        }
        out.append("1");
    } else {
        proof {
            reveal_strlit("0");
        }
        out.append("0");
    }
    assert(final(out)@ =~= old(out)@ + bin_digits(v as nat, n as nat));
}

/// A quality code's bits as `QQ_SSSS_LL`.
pub fn quality_bits(q: u8) -> (r: String)
    ensures
        r@ == bin_digits((q / 64) as nat, 2) + seq!['_'] + bin_digits(((q / 4) % 16) as nat, 4)
            + seq!['_'] + bin_digits((q % 4) as nat, 2),
{
    proof {
        reveal_strlit("_");
    }
    let mut s = String::new();
    push_bits(&mut s, (q / 64) as u64, 2);
    s.append("_");
    push_bits(&mut s, ((q / 4) % 16) as u64, 4);
    s.append("_");
    push_bits(&mut s, (q % 4) as u64, 2);
    s
}

/// The 32 bits of `v` in groups of `group` joined by underscores.
pub fn bin_grouped(v: u32, group: usize) -> (r: String)
    requires
        group > 0,
    ensures
        r@ == grouped(bin_digits(v as nat, 32), group as nat),
{
    let mut bits = String::new();
    push_bits(&mut bits, v as u64, 32);
    let ghost all = bits@;
    let mut out = String::new();
    let mut done: usize = 0;
    proof {
        lemma_bin_digits_len(v as nat, 32);
    }
    let chars = bits_vec(v);
    let total: usize = 32;
    proof {
        lemma_bin_digits_chars(v as nat, 32);
        assert(all.skip(0) =~= all);
        assert(out@ =~= Seq::<char>::empty());
        assert(out@ + grouped(all.skip(0), group as nat) =~= grouped(all, group as nat));
    }
    while total - done > group
        invariant
            group > 0,
            done <= total,
            total == 32,
            chars@ == all,
            all.len() == 32,
            forall|i: int| 0 <= i < all.len() ==> #[trigger] all[i] == '0' || all[i] == '1',
            out@ + grouped(all.skip(done as int), group as nat) == grouped(all, group as nat),
        decreases total - done,
    {
        let ghost rest = all.skip(done as int);
        let mut k: usize = 0;
        let ghost before = out@;
        while k < group
            invariant
                k <= group,
                done + group < total,
                total == 32,
                chars@ == all,
                all.len() == 32,
                forall|i: int| 0 <= i < all.len() ==> #[trigger] all[i] == '0' || all[i] == '1',
                out@ == before + all.subrange(done as int, done + k),
            decreases group - k,
        {
            push_char(&mut out, chars[done + k]);
            k = k + 1;
            assert(out@ =~= before + all.subrange(done as int, done + k));
        }
        proof {
            reveal_strlit("_");
        }
        out.append("_");
        proof {
            assert(rest.take(group as int) =~= all.subrange(done as int, done + group));
            assert(rest.skip(group as int) =~= all.skip(done + group));
            assert(grouped(rest, group as nat) == rest.take(group as int) + seq!['_'] + grouped(
                rest.skip(group as int),
                group as nat,
            ));
            assert(out@ + grouped(all.skip(done + group), group as nat) =~= before + grouped(
                rest,
                group as nat,
            ));
        }
        done = done + group;
    }
    let ghost before = out@;
    let mut k: usize = done;
    while k < total
        invariant
            done <= k <= total,
            total == 32,
            chars@ == all,
            all.len() == 32,
            forall|i: int| 0 <= i < all.len() ==> #[trigger] all[i] == '0' || all[i] == '1',
            out@ == before + all.subrange(done as int, k as int),
        decreases total - k,
    {
        push_char(&mut out, chars[k]);
        k = k + 1;
        assert(out@ =~= before + all.subrange(done as int, k as int));
    }
    proof {
        assert(all.subrange(done as int, 32) =~= all.skip(done as int));
        assert(grouped(all.skip(done as int), group as nat) == all.skip(done as int));
    }
    out
}

proof fn lemma_bin_digits_chars(v: nat, n: nat)
    ensures
        forall|i: int|
            0 <= i < bin_digits(v, n).len() ==> #[trigger] bin_digits(v, n)[i] == '0' || bin_digits(
                v,
                n,
            )[i] == '1',
    decreases n,
{
    if n > 0 {
        lemma_bin_digits_chars(v / 2, (n - 1) as nat);
        let pre = bin_digits(v / 2, (n - 1) as nat);
        let s = bin_digits(v, n);
        assert forall|i: int| 0 <= i < s.len() implies #[trigger] s[i] == '0' || s[i] == '1' by {
            if i < pre.len() {
                assert(s[i] == pre[i]);
            }
        }
    }
}

proof fn lemma_bin_digits_len(v: nat, n: nat)
    ensures
        bin_digits(v, n).len() == n,
    decreases n,
{
    if n > 0 {
        lemma_bin_digits_len(v / 2, (n - 1) as nat);
    }
}

/// The 32 bits of `v` as characters.
fn bits_vec(v: u32) -> (r: Vec<char>)
    ensures
        r@ == bin_digits(v as nat, 32),
{
    let mut r: Vec<char> = Vec::new();
    push_bit_chars(&mut r, v as u64, 32);
    assert(r@ =~= bin_digits(v as nat, 32));
    r
}

fn push_bit_chars(out: &mut Vec<char>, v: u64, n: usize)
    ensures
        final(out)@ == old(out)@ + bin_digits(v as nat, n as nat),
    decreases n,
{
    if n == 0 {
        assert(old(out)@ + bin_digits(v as nat, 0) =~= old(out)@);
        return;
    }
    push_bit_chars(out, v / 2, n - 1);
    out.push(if v % 2 == 1 {
        '1'
    } else {
        '0'
    });
    assert(final(out)@ =~= old(out)@ + bin_digits(v as nat, n as nat));
}

fn push_char(out: &mut String, c: char)
    requires
        c == '0' || c == '1',
    ensures
        final(out)@ == old(out)@.push(c),
{
    if c == '1' {
        proof {
            reveal_strlit("1");
        }
        out.append("1");
    } else {
        proof {
            reveal_strlit("0");
        }
        out.append("0");
    }
    assert(final(out)@ =~= old(out)@.push(c));
}

} // verus!
