//! Human-readable sizes and counts.
//!
//! The sizes print what the `{:.2}` formatting of the `f64` quotient
//! prints: the byte count is first rounded to the nearest `f64` (ties to
//! even; exact below 2^53), divided by the binary unit (exact, a power of
//! two), and rounded to the printed decimals, ties to even. Counts are
//! divided by a power of ten, which `f64` division rounds to the nearest
//! `f64` before the decimal is printed; that rounding is computed here
//! exactly too. Counts are
//! divided by a power of ten, which `f64` division rounds to the nearest
//! `f64` before the decimals are printed; that rounding is computed here
//! exactly too.

use crate::text::{decimal, decimal_padded, from_chars, push_decimal, push_decimal_padded};
use vstd::prelude::*;

verus! {

pub const KB: u64 = 1_024;

pub const MB: u64 = 1_048_576;

pub const GB: u64 = 1_073_741_824;

/// 2^53: every integer below it is an `f64`.
pub open spec fn exact_limit() -> nat {
    0x20_0000_0000_0000
}

/// Spacing of the `f64` values around `b`: 1 below 2^53, doubling with
/// each further bit of `b`.
pub open spec fn f64_spacing(b: nat) -> nat
    decreases b,
{
    if b < exact_limit() {
        1
    } else {
        2 * f64_spacing(b / 2)
    }
}

/// `n / d` rounded to the nearest integer, ties to even.
pub open spec fn div_round_even(n: nat, d: nat) -> nat {
    let q = n / d;
    let r = n % d;
    if 2 * r > d || (2 * r == d && q % 2 == 1) {
        q + 1
    } else {
        q
    }
}

/// The `f64` nearest to `b` (ties to even), as `b as f64` computes it.
pub open spec fn f64_of(b: nat) -> nat {
    f64_spacing(b) * div_round_even(b, f64_spacing(b))
}

/// `h` hundredths printed with two decimals.
pub open spec fn fixed2(h: nat) -> Seq<char> {
    decimal(h / 100) + seq!['.'] + decimal_padded(h % 100, 2)
}

/// `bytes` as `"<n> B"` below 1 KiB, else in KB, MB or GB (binary units)
/// with two decimals.
pub open spec fn size_text(bytes: nat) -> Seq<char> {
    if bytes >= GB {
        fixed2(div_round_even(f64_of(bytes) * 100, GB as nat)) + " GB"@
    } else if bytes >= MB {
        fixed2(div_round_even(bytes * 100, MB as nat)) + " MB"@
    } else if bytes >= KB {
        fixed2(div_round_even(bytes * 100, KB as nat)) + " KB"@
    } else {
        decimal(bytes) + " B"@
    }
}

proof fn lemma_spacing_pos(b: nat)
    ensures
        f64_spacing(b) >= 1,
    decreases b,
{
    if b >= exact_limit() {
        lemma_spacing_pos(b / 2);
    }
}

proof fn lemma_spacing_le(b: nat)
    requires
        b >= 1,
    ensures
        f64_spacing(b) <= b,
    decreases b,
{
    if b >= exact_limit() {
        lemma_spacing_le(b / 2);
    }
}

/// `n / d` rounded to the nearest integer, ties to even.
pub fn div_round_even_u128(n: u128, d: u128) -> (r: u128)
    requires
        d > 0,
    ensures
        r == div_round_even(n as nat, d as nat),
{
    let q = n / d;
    let rem = n % d;
    proof {
        assert(q <= n) by (nonlinear_arith)
            requires
                d > 0,
                q == n / d,
        ;
    }
    if (rem > d - rem) || (rem == d - rem && q % 2 == 1) {
        assert(q < u128::MAX) by (nonlinear_arith)
            requires
                d > 0,
                q == n / d,
                rem == n % d,
                rem > 0,
                n <= u128::MAX,
        ;
        q + 1
    } else {
        q
    }
}

pub proof fn lemma_dre_bound(n: nat, d: nat)
    requires
        d > 0,
    ensures
        n / d <= div_round_even(n, d) <= n / d + 1,
{
}

/// The `f64` nearest to `b` (`b as f64`, exactly).
pub fn nearest_f64(b: u64) -> (r: u128)
    ensures
        r == f64_of(b as nat),
        r <= 0x1_0000_0000_0000_1000,
        b >= 1 ==> r >= 1,
{
    let mut t: u64 = b;
    let mut unit: u128 = 1;
    while t >= 0x20_0000_0000_0000
        invariant
            unit >= 1,
            t as nat == b as nat / unit as nat,
            f64_spacing(b as nat) == unit * f64_spacing(t as nat),
            unit * 0x10_0000_0000_0000 <= 0x1_0000_0000_0000_0000,
        decreases t,
    {
        proof {
            assert(unit * t <= b) by (nonlinear_arith)
                requires
                    unit >= 1,
                    t as nat == b as nat / unit as nat,
            ;
            assert(unit * 0x20_0000_0000_0000 <= unit * t) by (nonlinear_arith)
                requires
                    t >= 0x20_0000_0000_0000,
                    unit >= 1,
            ;
            assert((b as nat / unit as nat) / 2 == b as nat / (unit as nat * 2)) by (nonlinear_arith)
                requires
                    unit >= 1,
            ;
            assert(f64_spacing(t as nat) == 2 * f64_spacing((t / 2) as nat));
            assert(unit * f64_spacing(t as nat) == (unit * 2) * f64_spacing((t / 2) as nat)) by (nonlinear_arith)
                requires
                    f64_spacing(t as nat) == 2 * f64_spacing((t / 2) as nat),
            ;
        }
        t = t / 2;
        unit = unit * 2;
    }
    assert(f64_spacing(t as nat) == 1);
    assert(f64_spacing(b as nat) == unit) by (nonlinear_arith)
        requires
            f64_spacing(b as nat) == unit * f64_spacing(t as nat),
            f64_spacing(t as nat) == 1,
    ;
    let q = div_round_even_u128(b as u128, unit);
    proof {
        lemma_dre_bound(b as nat, unit as nat);
        if b >= 1 {
            lemma_spacing_le(b as nat);
            assert(b as nat / unit as nat >= 1) by (nonlinear_arith)
                requires
                    unit <= b,
                    unit >= 1,
            ;
            assert(unit * q >= 1) by (nonlinear_arith)
                requires
                    q >= 1,
                    unit >= 1,
            ;
        }
        assert(unit * (b as nat / unit as nat) <= b) by (nonlinear_arith)
            requires
                unit >= 1,
        ;
        assert(unit * q <= b + unit) by (nonlinear_arith)
            requires
                q <= b as nat / unit as nat + 1,
                unit * (b as nat / unit as nat) <= b,
                unit >= 1,
        ;
    }
    unit * q
}

fn push_fixed2(out: &mut Vec<char>, h: u64)
    ensures
        final(out)@ == old(out)@ + fixed2(h as nat),
{
    push_decimal(out, h / 100);
    out.push('.');
    push_decimal_padded(out, h % 100, 2);
    assert(final(out)@ =~= old(out)@ + fixed2(h as nat));
}

fn push_str(out: &mut Vec<char>, s: &str)
    ensures
        final(out)@ == old(out)@ + s@,
{
    let cs = crate::text::to_chars(s);
    let mut i: usize = 0;
    while i < cs.len()
        invariant
            i <= cs@.len(),
            cs@ == s@,
            out@ == old(out)@ + cs@.take(i as int),
        decreases cs.len() - i,
    {
        out.push(cs[i]);
        i += 1;
        assert(out@ =~= old(out)@ + cs@.take(i as int));
    }
    assert(cs@.take(cs@.len() as int) =~= cs@);
}

/// Formats a byte count with binary units: `"512 B"`, `"1.00 KB"`,
/// `"2.00 MB"`, `"3.00 GB"`.
pub fn format_size(bytes: u64) -> (r: String)
    ensures
        r@ == size_text(bytes as nat),
{
    let mut out: Vec<char> = Vec::new();
    if bytes >= GB {
        let f = nearest_f64(bytes);
        let h = div_round_even_u128(f * 100, GB as u128);
        proof {
            lemma_dre_bound((f * 100) as nat, GB as nat);
        }
        push_fixed2(&mut out, h as u64);
        push_str(&mut out, " GB");
    } else if bytes >= MB {
        let h = div_round_even_u128(bytes as u128 * 100, MB as u128);
        proof {
            lemma_dre_bound((bytes * 100) as nat, MB as nat);
        }
        push_fixed2(&mut out, h as u64);
        push_str(&mut out, " MB");
    } else if bytes >= KB {
        let h = div_round_even_u128(bytes as u128 * 100, KB as u128);
        proof {
            lemma_dre_bound((bytes * 100) as nat, KB as nat);
        }
        push_fixed2(&mut out, h as u64);
        push_str(&mut out, " KB");
    } else {
        push_decimal(&mut out, bytes);
        push_str(&mut out, " B");
    }
    from_chars(out.as_slice())
}

// ---------------------------------------------------------------------------
// Counts
// ---------------------------------------------------------------------------

/// 2^52, the smallest 53-bit significand.
pub open spec fn significand_min() -> nat {
    0x10_0000_0000_0000
}

pub open spec fn p2(k: nat) -> nat
    decreases k,
{
    if k == 0 {
        1
    } else {
        2 * p2((k - 1) as nat)
    }
}

/// The smallest `k` from `from` on (at most 80) with
/// `a * 2^k >= 2^52 * d`: the scale that puts `a / d` into the 53-bit
/// significand range.
pub open spec fn norm_exp(a: nat, d: nat, from: nat) -> nat
    decreases 80 - from,
{
    if from >= 80 || a * p2(from) >= significand_min() * d {
        from
    } else {
        norm_exp(a, d, from + 1)
    }
}

/// Tenths of the `f64` quotient `a / d`, rounded to one decimal: the
/// quotient is the 53-bit significand `m` nearest to `a * 2^k / d` (ties
/// to even) over `2^k`, and `10 * m / 2^k` is rounded to the nearest
/// integer (ties to even).
pub open spec fn f64_div_tenths(a: nat, d: nat) -> nat {
    let k = norm_exp(a, d, 0);
    let m = div_round_even(a * p2(k), d);
    div_round_even(10 * m, p2(k))
}

/// `t` tenths printed with one decimal.
pub open spec fn fixed1(t: nat) -> Seq<char> {
    decimal(t / 10) + seq!['.'] + decimal(t % 10)
}

/// A count as is below a thousand, else in thousands (`K`) or millions
/// (`M`) with one decimal.
pub open spec fn number_text(n: nat) -> Seq<char> {
    if n >= 1_000_000 {
        fixed1(f64_div_tenths(f64_of(n), 1_000_000)) + seq!['M']
    } else if n >= 1_000 {
        fixed1(f64_div_tenths(f64_of(n), 1_000)) + seq!['K']
    } else {
        decimal(n)
    }
}

/// Tenths of the `f64` quotient `a / d` (see [`f64_div_tenths`]).
fn div_tenths(a: u128, d: u128) -> (r: u64)
    requires
        1000 <= d <= 1_000_000,
        1 <= a <= 0x1_0000_0000_0000_1000,
    ensures
        r == f64_div_tenths(a as nat, d as nat),
{
    let mut k: u32 = 0;
    let mut scaled: u128 = a;
    let mut unit: u128 = 1;
    let limit: u128 = 0x10_0000_0000_0000 * d;
    while k < 80 && scaled < limit
        invariant
            k <= 80,
            1000 <= d <= 1_000_000,
            unit >= 1,
            a <= 0x1_0000_0000_0000_1000,
            limit == significand_min() * d,
            1 <= a <= 0x1_0000_0000_0000_1000,
            unit == p2(k as nat),
            scaled == a * p2(k as nat),
            norm_exp(a as nat, d as nat, k as nat) == norm_exp(a as nat, d as nat, 0),
            unit <= scaled,
            scaled <= 0x1_0000_0000_0000_1000 || scaled < 2 * limit,
        decreases 80 - k,
    {
        proof {
            assert(p2((k + 1) as nat) == 2 * p2(k as nat));
            assert(a * (2 * p2(k as nat)) == 2 * (a * p2(k as nat))) by (nonlinear_arith);
        }
        scaled = scaled * 2;
        unit = unit * 2;
        k = k + 1;
    }
    assert(norm_exp(a as nat, d as nat, k as nat) == k as nat);
    let m = div_round_even_u128(scaled, d);
    proof {
        lemma_dre_bound(scaled as nat, d as nat);
        assert(scaled as nat / d as nat <= 0x100_0000_0000_0000) by (nonlinear_arith)
            requires
                scaled <= 0x1_0000_0000_0000_1000 || scaled < 2 * (0x10_0000_0000_0000 * d),
                d >= 1000,
        ;
    }
    let t = div_round_even_u128(10 * m, unit);
    proof {
        lemma_dre_bound((10 * m) as nat, unit as nat);
        assert((10 * m) as nat / unit as nat <= 10 * m) by (nonlinear_arith)
            requires
                unit >= 1,
        ;
        assert(t <= 0x1000_0000_0000_0000);
    }
    t as u64
}

fn push_fixed1(out: &mut Vec<char>, t: u64)
    ensures
        final(out)@ == old(out)@ + fixed1(t as nat),
{
    push_decimal(out, t / 10);
    out.push('.');
    push_decimal(out, t % 10);
    assert(final(out)@ =~= old(out)@ + fixed1(t as nat));
}

/// Formats a count compactly: `"999"`, `"1.5K"`, `"2.3M"`.
pub fn format_number(n: u64) -> (r: String)
    ensures
        r@ == number_text(n as nat),
{
    let mut out: Vec<char> = Vec::new();
    if n >= 1_000_000 {
        let a = nearest_f64(n);
        let t = div_tenths(a, 1_000_000);
        push_fixed1(&mut out, t);
        out.push('M');
    } else if n >= 1_000 {
        let a = nearest_f64(n);
        let t = div_tenths(a, 1_000);
        push_fixed1(&mut out, t);
        out.push('K');
    } else {
        push_decimal(&mut out, n);
    }
    assert(out@ =~= number_text(n as nat));
    from_chars(out.as_slice())
}

} // verus!
