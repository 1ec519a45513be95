//! Numbers as text: decimal integers, and byte sizes in B, KB, MB or GB with
//! one decimal, as `format!("{:.1}", size as f64 / unit)` prints them.
//!
//! The decimal with one digit is computed with integers. A size is first
//! rounded the way a conversion to `f64` rounds it (to 53 significant bits,
//! ties to even); dividing by a power of two is exact in `f64`; the printed
//! tenth is then the exact quotient rounded half to even, which is how Rust's
//! float formatting rounds.
use vstd::prelude::*;
use vstd::arithmetic::power2::{lemma_pow2_pos, lemma_pow2_unfold, pow2};
use vstd::arithmetic::div_mod::lemma_fundamental_div_mod;

verus! {

/// The decimal digit for `d` (below ten).
pub open spec fn digit_of(d: nat) -> char {
    if d == 0 {
        '0'
    } else if d == 1 {
        '1'
    } else if d == 2 {
        '2'
    } else if d == 3 {
        '3'
    } else if d == 4 {
        '4'
    } else if d == 5 {
        '5'
    } else if d == 6 {
        '6'
    } else if d == 7 {
        '7'
    } else if d == 8 {
        '8'
    } else {
        '9'
    }
}

/// The decimal digits of `n`, most significant first, without leading zeros.
pub open spec fn decimal(n: nat) -> Seq<char>
    decreases n,
{
    if n < 10 {
        seq![digit_of(n)]
    } else {
        decimal(n / 10).push(digit_of(n % 10))
    }
}

fn digit_char(d: u128) -> (c: char)
    requires
        d < 10,
    ensures
        c == digit_of(d as nat),
{
    if d == 0 {
        '0'
    } else if d == 1 {
        '1'
    } else if d == 2 {
        '2'
    } else if d == 3 {
        '3'
    } else if d == 4 {
        '4'
    } else if d == 5 {
        '5'
    } else if d == 6 {
        '6'
    } else if d == 7 {
        '7'
    } else if d == 8 {
        '8'
    } else {
        '9'
    }
}

/// The decimal digits of `n`.
pub fn decimal_chars(n: u128) -> (r: Vec<char>)
    ensures
        r@ == decimal(n as nat),
    decreases n,
{
    if n < 10 {
        let mut v: Vec<char> = Vec::new();
        v.push(digit_char(n));
        v
    } else {
        let mut v = decimal_chars(n / 10);
        v.push(digit_char(n % 10));
        v
    }
}

/// The smallest exponent `k` (from `k` on) for which `n / 2^k` has at most 53
/// bits: the number of low bits an `f64` cannot hold.
pub open spec fn f64_shift(n: nat, k: nat) -> nat
    decreases 64 - k,
{
    if k >= 64 || n / pow2(k) < pow2(53) {
        k
    } else {
        f64_shift(n, k + 1)
    }
}

/// `n` rounded to the nearest value an `f64` holds exactly (53 significant
/// bits), ties to the even one: the value of `n as f64`.
pub open spec fn f64_rounded(n: nat) -> nat {
    let k = f64_shift(n, 0);
    let d = pow2(k);
    let q = n / d;
    let r = n % d;
    if k == 0 {
        n
    } else if r > d / 2 || (r == d / 2 && q % 2 == 1) {
        (q + 1) * d
    } else {
        q * d
    }
}

/// `m / unit` in tenths, rounded half to even.
pub open spec fn tenths(m: nat, unit: nat) -> nat {
    let t = (m * 10) / unit;
    let r = (m * 10) % unit;
    if r > unit / 2 || (r == unit / 2 && t % 2 == 1) {
        t + 1
    } else {
        t
    }
}

/// A number of tenths written with one decimal, as in `12.5`.
pub open spec fn one_decimal(t: nat) -> Seq<char> {
    decimal(t / 10).push('.').push(digit_of(t % 10))
}

/// A file size: whole bytes below 1 KB, else KB or MB with one decimal.
pub open spec fn file_size_text(n: nat) -> Seq<char> {
    if n >= 1048576 {
        one_decimal(tenths(f64_rounded(n), 1048576)) + seq![' ', 'M', 'B']
    } else if n >= 1024 {
        one_decimal(tenths(f64_rounded(n), 1024)) + seq![' ', 'K', 'B']
    } else {
        decimal(n) + seq![' ', 'B']
    }
}

/// A byte count: whole bytes below 1 KB, else KB, MB or GB with one decimal.
pub open spec fn byte_count_text(n: nat) -> Seq<char> {
    if n >= 1073741824 {
        one_decimal(tenths(f64_rounded(n), 1073741824)) + seq![' ', 'G', 'B']
    } else {
        file_size_text(n)
    }
}

/// `n as f64`, as an integer.
fn f64_rounded_value(n: u64) -> (r: u128)
    ensures
        r == f64_rounded(n as nat),
{
    let ghost big = pow2(53);
    proof {
        vstd::arithmetic::power2::lemma2_to64();
        vstd::arithmetic::power2::lemma2_to64_rest();
    }
    let limit: u128 = 0x20000000000000;
    assert(limit == big);
    let n128 = n as u128;
    let mut k: u32 = 0;
    let mut d: u128 = 1;
    assert(pow2(0) == 1);
    while k < 64 && n128 / d >= limit
        invariant
            0 <= k <= 64,
            d == pow2(k as nat),
            d >= 1,
            k > 0 ==> d <= n128,
            limit == pow2(53),
            limit == 0x20000000000000,
            f64_shift(n as nat, 0) == f64_shift(n as nat, k as nat),
            n128 == n,
        decreases 64 - k,
    {
        proof {
            assert(n128 / d >= limit);
            lemma_pow2_unfold((k + 1) as nat);
            lemma_fundamental_div_mod(n128 as int, d as int);
            assert(d * (n128 / d) >= d) by (nonlinear_arith)
                requires
                    n128 / d >= 1,
                    d >= 1,
            ;
            assert(2 * d <= n128) by (nonlinear_arith)
                requires
                    n128 / d >= 2,
                    d >= 1,
                    n128 == d * (n128 / d) + n128 % d,
                    n128 % d >= 0,
            ;
        }
        d = d * 2;
        k = k + 1;
    }
    proof {
        lemma_pow2_pos(k as nat);
    }
    if k == 0 {
        return n128;
    }
    let q = n128 / d;
    let r = n128 % d;
    let half = d / 2;
    proof {
        lemma_fundamental_div_mod(n128 as int, d as int);
        assert(q * d <= n128) by (nonlinear_arith)
            requires
                n128 == d * q + r,
                r >= 0,
        ;
        assert((q + 1) * d == q * d + d) by (nonlinear_arith);
    }
    if r > half || (r == half && q % 2 == 1) {
        (q + 1) * d
    } else {
        q * d
    }
}

/// `m / unit` in tenths, rounded half to even.
fn tenths_of(m: u128, unit: u128) -> (t: u128)
    requires
        m <= 0x20000000000000000,
        unit > 0,
    ensures
        t == tenths(m as nat, unit as nat),
{
    let x = m * 10;
    let t = x / unit;
    let r = x % unit;
    proof {
        assert(t <= x) by (nonlinear_arith)
            requires
                t == x / unit,
                unit > 0,
                x >= 0,
        ;
    }
    if r > unit / 2 || (r == unit / 2 && t % 2 == 1) {
        t + 1
    } else {
        t
    }
}

/// Tenths written with one decimal.
fn one_decimal_chars(t: u128) -> (r: Vec<char>)
    ensures
        r@ == one_decimal(t as nat),
{
    let mut v = decimal_chars(t / 10);
    v.push('.');
    v.push(digit_char(t % 10));
    v
}

/// The characters of a file size text.
fn file_size_chars(n: u64) -> (r: Vec<char>)
    ensures
        r@ == file_size_text(n as nat),
{
    if n >= 1048576 {
        let m = f64_rounded_value(n);
        proof {
            lemma_f64_rounded_bound(n as nat);
        }
        let mut v = one_decimal_chars(tenths_of(m, 1048576));
        v.push(' ');
        v.push('M');
        v.push('B');
        v
    } else if n >= 1024 {
        let m = f64_rounded_value(n);
        proof {
            lemma_f64_rounded_bound(n as nat);
        }
        let mut v = one_decimal_chars(tenths_of(m, 1024));
        v.push(' ');
        v.push('K');
        v.push('B');
        v
    } else {
        let mut v = decimal_chars(n as u128);
        v.push(' ');
        v.push('B');
        v
    }
}

/// Rounding to an `f64` value at most doubles a number.
proof fn lemma_f64_rounded_bound(n: nat)
    requires
        n <= u64::MAX,
    ensures
        f64_rounded(n) <= 0x20000000000000000,
{
    let k = f64_shift(n, 0);
    lemma_pow2_pos(0);
    lemma_f64_shift_bound(n, 0);
    let d = pow2(k);
    lemma_pow2_pos(k);
    let q = n / d;
    let r = n % d;
    lemma_fundamental_div_mod(n as int, d as int);
    if k > 0 {
        assert(q * d <= n) by (nonlinear_arith)
            requires
                n == d * q + r,
                r >= 0,
        ;
        assert((q + 1) * d == q * d + d) by (nonlinear_arith);
    }
}

/// Once the shift is positive, the divisor is at most the number.
proof fn lemma_f64_shift_bound(n: nat, k: nat)
    requires
        k <= 64,
        k > 0 ==> pow2(k) <= n,
    ensures
        k <= f64_shift(n, k) <= 64,
        f64_shift(n, k) > 0 ==> pow2(f64_shift(n, k)) <= n,
    decreases 64 - k,
{
    lemma_pow2_pos(k);
    if k < 64 && n / pow2(k) >= pow2(53) {
        let d = pow2(k);
        vstd::arithmetic::power2::lemma2_to64_rest();
        lemma_pow2_unfold(k + 1);
        lemma_fundamental_div_mod(n as int, d as int);
        assert(2 * d <= n) by (nonlinear_arith)
            requires
                n / d >= 2,
                d >= 1,
                n == d * (n / d) + n % d,
                n % d >= 0,
        ;
        lemma_f64_shift_bound(n, k + 1);
    }
}

/// A file size in bytes as shown under an attachment: `512 B`, `1.5 KB`,
/// `2.0 MB`, with the decimal of `size as f64 / unit` rounded as Rust's
/// `{:.1}` rounds it.
pub fn format_file_size(file_size: usize) -> (r: String)
    ensures
        r@ == file_size_text(file_size as nat),
{
    let chars = file_size_chars(file_size as u64);
    crate::strings::string_of(chars.as_slice())
}

/// A byte count as shown in data management: like [`format_file_size`],
/// with GB from 1 GB on.
pub fn format_bytes(bytes: u64) -> (r: String)
    ensures
        r@ == byte_count_text(bytes as nat),
{
    if bytes >= 1073741824 {
        let m = f64_rounded_value(bytes);
        proof {
            lemma_f64_rounded_bound(bytes as nat);
        }
        let mut v = one_decimal_chars(tenths_of(m, 1073741824));
        v.push(' ');
        v.push('G');
        v.push('B');
        crate::strings::string_of(v.as_slice())
    } else {
        let chars = file_size_chars(bytes);
        crate::strings::string_of(chars.as_slice())
    }
}

/// A usage figure, or `暂无` when there is none.
pub fn format_usage_value(value: Option<u64>) -> (r: String)
    ensures
        r@ == match value {
            Some(v) => decimal(v as nat),
            None => "暂无"@,
        },
{
    match value {
        Some(v) => {
            let chars = decimal_chars(v as u128);
            crate::strings::string_of(chars.as_slice())
        },
        None => "暂无".to_owned(),
    }
}

} // verus!
