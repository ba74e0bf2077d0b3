//! Turns a [`crate::ScanReport`] into text or HTML. No renderer reads the
//! filesystem, runs Git, or opens a connection: each only formats the model
//! it is given.
use vstd::prelude::*;

use crate::text::{self, decimal, digit_char};

pub mod html;
pub mod text_summary;

verus! {

/// The value of `n` as a double holds it: rounded to 53 significant bits,
/// ties to even. `scale` is the power of two the rounding works in.
pub open spec fn double_scale(n: nat, scale: nat) -> nat
    decreases n + 1 - scale,
{
    if scale == 0 || n / scale < 0x20000000000000 {
        scale
    } else {
        proof {
            assert(2 * scale <= n) by (nonlinear_arith)
                requires
                    n / scale >= 0x20000000000000,
                    scale >= 1,
            ;
        }
        double_scale(n, 2 * scale)
    }
}

/// `numerator / denominator` rounded to the nearest integer, a tie going to
/// the even neighbour.
pub open spec fn nearest(numerator: nat, denominator: nat) -> nat {
    let q = numerator / denominator;
    let r = numerator % denominator;
    if 2 * r > denominator || (2 * r == denominator && q % 2 == 1) {
        q + 1
    } else {
        q
    }
}

/// `n` as the nearest double holds it, rounding a tie to the even neighbour.
pub open spec fn as_double(n: nat) -> nat {
    let p = double_scale(n, 1);
    nearest(n, p) * p
}

/// `numerator / denominator` to the nearest tenth, in tenths, a tie going to
/// the even neighbour: what `{:.1}` prints of an exact binary value.
pub open spec fn tenths(numerator: nat, denominator: nat) -> nat {
    nearest(10 * numerator, denominator)
}

/// The unit a size is shown in: the largest of B, KiB, MiB and GiB that the
/// size, as a double, reaches.
pub open spec fn unit_index(value: nat) -> nat {
    if value >= 0x40000000 {
        3
    } else if value >= 0x100000 {
        2
    } else if value >= 0x400 {
        1
    } else {
        0
    }
}

pub open spec fn unit_size(unit: nat) -> nat {
    if unit == 3 {
        0x40000000
    } else if unit == 2 {
        0x100000
    } else if unit == 1 {
        0x400
    } else {
        1
    }
}

pub open spec fn unit_name(unit: nat) -> Seq<char> {
    if unit == 3 {
        "GiB"@
    } else if unit == 2 {
        "MiB"@
    } else if unit == 1 {
        "KiB"@
    } else {
        "B"@
    }
}

/// A byte count as people read it: whole bytes under a KiB, else the size
/// in the largest unit it reaches, to one decimal place.
pub open spec fn bytes_text(bytes: nat) -> Seq<char> {
    let value = as_double(bytes);
    let unit = unit_index(value);
    if unit == 0 {
        decimal(bytes) + " B"@
    } else {
        let t = tenths(value, unit_size(unit));
        decimal(t / 10) + seq!['.', digit_char(t % 10)] + seq![' '] + unit_name(unit)
    }
}

/// The power of two, doubling from `scale`, at which `a * scale / m` first
/// reaches 2^52: the quotient `a / m` then has 53 significant bits in front
/// of the binary point, as a double holds it.
pub open spec fn quotient_scale(a: nat, m: nat, scale: nat) -> nat
    decreases 0x20000000000000 * m - scale,
{
    if a == 0 || m == 0 || scale == 0 || (a * scale) / m >= 0x10000000000000 {
        scale
    } else {
        proof {
            assert(2 * scale <= 0x20000000000000 * m) by (nonlinear_arith)
                requires
                    (a * scale) / m < 0x10000000000000,
                    a >= 1,
                    m >= 1,
                    scale >= 1,
            ;
        }
        quotient_scale(a, m, 2 * scale)
    }
}

/// `part / whole * 100` as doubles compute it (each count held as a double,
/// the quotient rounded, then the product rounded), in tenths, rounded as
/// `{:.1}` prints it.
pub open spec fn percent_tenths(part: nat, whole: nat) -> nat {
    let a = as_double(part);
    let m = as_double(whole);
    if a == 0 {
        0
    } else {
        let s = quotient_scale(a, m, 1);
        tenths(as_double(100 * nearest(a * s, m)), s)
    }
}

/// The share `part` has of `whole`, in percent to one decimal place.
pub open spec fn percent_text(part: nat, whole: nat) -> Seq<char> {
    let t = percent_tenths(part, whole);
    decimal(t / 10) + seq!['.', digit_char(t % 10)]
}

proof fn lemma_scale_grows(n: nat, scale: nat)
    requires
        scale >= 1,
    ensures
        double_scale(n, scale) >= scale,
        n / double_scale(n, scale) < 0x20000000000000,
        double_scale(n, scale) == scale || (double_scale(n, scale) == 2 * (double_scale(n, scale) / 2)
            && double_scale(n, scale) / 2 >= scale && n / (double_scale(n, scale) / 2) >= 0x20000000000000),
    decreases n + 1 - scale,
{
    if n / scale >= 0x20000000000000 {
        assert(2 * scale <= n) by (nonlinear_arith)
            requires
                n / scale >= 0x20000000000000,
                scale >= 1,
        ;
        lemma_scale_grows(n, 2 * scale);
        let t = double_scale(n, 2 * scale);
        if t == 2 * scale {
            assert(t / 2 == scale);
        }
    }
}

proof fn lemma_scale_monotone(n: nat, m: nat, scale: nat)
    requires
        n <= m,
        scale >= 1,
    ensures
        double_scale(n, scale) == double_scale(m, scale) || 2 * double_scale(n, scale) <= double_scale(m, scale),
    decreases m + 1 - scale,
{
    vstd::arithmetic::div_mod::lemma_div_is_ordered(n as int, m as int, scale as int);
    if n / scale < 0x20000000000000 {
        if m / scale >= 0x20000000000000 {
            assert(2 * scale <= m) by (nonlinear_arith)
                requires
                    m / scale >= 0x20000000000000,
                    scale >= 1,
            ;
            lemma_scale_grows(m, 2 * scale);
        }
    } else {
        assert(2 * scale <= n) by (nonlinear_arith)
            requires
                n / scale >= 0x20000000000000,
                scale >= 1,
        ;
        lemma_scale_monotone(n, m, 2 * scale);
    }
}

proof fn lemma_nearest_bounds(numerator: nat, denominator: nat)
    requires
        denominator >= 1,
    ensures
        numerator / denominator <= nearest(numerator, denominator) <= numerator / denominator + 1,
{
}

proof fn lemma_nearest_monotone(a: nat, b: nat, d: nat)
    requires
        a <= b,
        d >= 1,
    ensures
        nearest(a, d) <= nearest(b, d),
{
    vstd::arithmetic::div_mod::lemma_div_is_ordered(a as int, b as int, d as int);
    if a / d == b / d {
        vstd::arithmetic::div_mod::lemma_fundamental_div_mod(a as int, d as int);
        vstd::arithmetic::div_mod::lemma_fundamental_div_mod(b as int, d as int);
        assert(a % d <= b % d);
    }
}

/// Rounding to a double keeps order: a larger count is never held as a
/// smaller double.
pub proof fn doubles_keep_order(n: nat, m: nat)
    requires
        n <= m,
    ensures
        as_double(n) <= as_double(m),
{
    let p = double_scale(n, 1);
    let t = double_scale(m, 1);
    lemma_scale_grows(n, 1);
    lemma_scale_grows(m, 1);
    lemma_scale_monotone(n, m, 1);
    lemma_nearest_bounds(n, p);
    lemma_nearest_bounds(m, t);
    if p == t {
        lemma_nearest_monotone(n, m, p);
        assert(nearest(n, p) * p <= nearest(m, p) * p) by (nonlinear_arith)
            requires
                nearest(n, p) <= nearest(m, p),
        ;
    } else {
        assert(2 * p <= t);
        assert(t != 1);
        let h = t / 2;
        assert(m / h >= 0x20000000000000);
        assert(as_double(n) <= 0x20000000000000 * p) by (nonlinear_arith)
            requires
                nearest(n, p) <= n / p + 1,
                n / p < 0x20000000000000,
                as_double(n) == nearest(n, p) * p,
        ;
        assert(m / t >= 0x10000000000000) by (nonlinear_arith)
            requires
                m / h >= 0x20000000000000,
                t == 2 * h,
                h >= 1,
        ;
        assert(as_double(m) >= 0x10000000000000 * t) by (nonlinear_arith)
            requires
                nearest(m, t) >= m / t,
                m / t >= 0x10000000000000,
                as_double(m) == nearest(m, t) * t,
        ;
    }
}

/// A size under one KiB is shown as its exact number of bytes.
pub proof fn small_sizes_are_exact(bytes: nat)
    requires
        bytes < 1024,
    ensures
        bytes_text(bytes) == decimal(bytes) + " B"@,
{
    assert(double_scale(bytes, 1) == 1);
}

proof fn lemma_small_counts_are_exact_doubles(n: nat)
    requires
        n < 0x20000000000000,
    ensures
        as_double(n) == n,
{
    assert(double_scale(n, 1) == 1);
}

/// A size is shown in the largest unit it reaches: bytes under 1 KiB, KiB
/// from 1024 bytes, MiB from 1 MiB, GiB from 1 GiB.
pub proof fn sizes_use_the_largest_unit_reached(bytes: nat)
    ensures
        bytes < 0x400 ==> bytes_text(bytes) == decimal(bytes) + " B"@,
        0x400 <= bytes < 0x100000 ==> bytes_text(bytes).subrange(bytes_text(bytes).len() - 4, bytes_text(bytes).len() as int) == " KiB"@,
        0x100000 <= bytes < 0x40000000 ==> bytes_text(bytes).subrange(bytes_text(bytes).len() - 4, bytes_text(bytes).len() as int) == " MiB"@,
        0x40000000 <= bytes ==> bytes_text(bytes).subrange(bytes_text(bytes).len() - 4, bytes_text(bytes).len() as int) == " GiB"@,
{
    reveal_strlit("KiB");
    reveal_strlit("MiB");
    reveal_strlit("GiB");
    reveal_strlit(" KiB");
    reveal_strlit(" MiB");
    reveal_strlit(" GiB");
    if bytes < 0x40000000 {
        lemma_small_counts_are_exact_doubles(bytes);
    } else {
        lemma_small_counts_are_exact_doubles(0x40000000);
        doubles_keep_order(0x40000000, bytes);
    }
    if bytes < 0x400 {
        small_sizes_are_exact(bytes);
    } else {
        let value = as_double(bytes);
        let unit = unit_index(value);
        let t = tenths(value, unit_size(unit));
        let text = bytes_text(bytes);
        let head = decimal(t / 10) + seq!['.', digit_char(t % 10)];
        assert(text == head + seq![' '] + unit_name(unit));
        assert(text.subrange(text.len() - 4, text.len() as int) =~= seq![' '] + unit_name(unit));
    }
}

/// `bytes` as a double holds it, exactly, as an integer.
fn double_value(bytes: u64) -> (value: u128)
    ensures
        value == as_double(bytes as nat),
        value <= 0x2_0000_0000_0000_0000,
{
    let n = bytes as u128;
    let mut p: u128 = 1;
    while n / p >= 0x20000000000000
        invariant
            1 <= p <= 0x1000,
            n == bytes,
            n < 0x1_0000_0000_0000_0000,
            double_scale(n as nat, 1) == double_scale(n as nat, p as nat),
        decreases n + 1 - p,
    {
        assert(p <= 0x800 && p <= n) by (nonlinear_arith)
            requires
                n / p >= 0x20000000000000,
                p >= 1,
                n < 0x1_0000_0000_0000_0000,
        ;
        p = 2 * p;
    }
    let q = n / p;
    let r = n % p;
    let rounded = if 2 * r > p || (2 * r == p && q % 2 == 1) {
        q + 1
    } else {
        q
    };
    assert(rounded * p <= 0x2_0000_0000_0000_0000) by (nonlinear_arith)
        requires
            rounded <= q + 1,
            q < 0x20000000000000,
            1 <= p <= 0x1000,
    ;
    rounded * p
}

/// Formats a byte count as B, KiB, MiB, or GiB: whole bytes under a KiB,
/// else one decimal place.
pub fn format_bytes(bytes: u64) -> (shown: String)
    ensures
        shown@ == bytes_text(bytes as nat),
{
    let value = double_value(bytes);
    let (unit, size, name): (u8, u128, &str) = if value >= 0x40000000 {
        (3, 0x40000000, "GiB")
    } else if value >= 0x100000 {
        (2, 0x100000, "MiB")
    } else if value >= 0x400 {
        (1, 0x400, "KiB")
    } else {
        (0, 1, "B")
    };
    let mut shown = String::new();
    if unit == 0 {
        text::push_decimal(&mut shown, bytes as u128);
        text::push_str(&mut shown, " B");
        return shown;
    }
    let q = (10 * value) / size;
    let r = (10 * value) % size;
    let t = if 2 * r > size || (2 * r == size && q % 2 == 1) {
        q + 1
    } else {
        q
    };
    text::push_decimal(&mut shown, t / 10);
    shown.push('.');
    shown.push(text::digit((t % 10) as u8));
    shown.push(' ');
    text::push_str(&mut shown, name);
    assert(shown@ =~= bytes_text(bytes as nat));
    shown
}

/// The share `part` has of `whole`, in percent to one decimal place, as
/// the two counts divided and scaled as doubles print with `{:.1}`.
pub fn percentage_text(part: u64, whole: u64) -> (shown: String)
    requires
        part <= whole,
    ensures
        shown@ == percent_text(part as nat, whole as nat),
{
    let a = double_value(part);
    let m = double_value(whole);
    let mut shown = String::new();
    if a == 0 {
        shown.push('0');
        shown.push('.');
        shown.push('0');
        assert(decimal(0) =~= seq!['0']);
        assert(shown@ =~= percent_text(part as nat, whole as nat));
        return shown;
    }
    proof {
        doubles_keep_order(part as nat, whole as nat);
        vstd::arithmetic::div_mod::lemma_div_is_ordered(a as int, m as int, m as int);
        vstd::arithmetic::div_mod::lemma_div_by_self(m as int);
    }
    let mut q: u128 = a / m;
    let mut r: u128 = a % m;
    let mut s: u128 = 1;
    while q < 0x10000000000000
        invariant
            1 <= a <= m <= 0x2_0000_0000_0000_0000,
            1 <= s,
            q == (a * s) / (m as int),
            r == (a * s) % (m as int),
            q < 0x20000000000000,
            s < 0x20000000000000 * m,
            quotient_scale(a as nat, m as nat, 1) == quotient_scale(a as nat, m as nat, s as nat),
        decreases 0x20000000000000 * m - s,
    {
        assert(s < 0x10000000000000 * m) by (nonlinear_arith)
            requires
                (a * s) / (m as int) < 0x10000000000000,
                a >= 1,
                m >= 1,
                s >= 1,
        ;
        let carry: u128 = if 2 * r >= m { 1 } else { 0 };
        let next_q = 2 * q + carry;
        let next_r = 2 * r - carry * m;
        proof {
            vstd::arithmetic::div_mod::lemma_fundamental_div_mod((a * s) as int, m as int);
            assert(a * (2 * s) == next_q * m + next_r) by (nonlinear_arith)
                requires
                    a * s == m * q + r,
                    next_q == 2 * q + carry,
                    next_r == 2 * r - carry * m,
            ;
            vstd::arithmetic::div_mod::lemma_fundamental_div_mod_converse(
                (a * (2 * s)) as int,
                m as int,
                next_q as int,
                next_r as int,
            );
        }
        q = next_q;
        r = next_r;
        s = 2 * s;
    }
    let rounded = if 2 * r > m || (2 * r == m && q % 2 == 1) {
        q + 1
    } else {
        q
    };
    let scaled = double_value((100 * rounded) as u64);
    let tq = (10 * scaled) / s;
    let tr = (10 * scaled) % s;
    let t = if 2 * tr > s || (2 * tr == s && tq % 2 == 1) {
        tq + 1
    } else {
        tq
    };
    text::push_decimal(&mut shown, t / 10);
    shown.push('.');
    shown.push(text::digit((t % 10) as u8));
    assert(shown@ =~= percent_text(part as nat, whole as nat));
    shown
}

} // verus!
