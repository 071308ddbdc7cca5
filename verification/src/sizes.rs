//! Human-readable file sizes, computed exactly in integers.
//!
//! A size is shown in bytes below 1024, else in the largest binary unit (up to
//! TiB) that keeps the value below 1024, with one decimal.  The value is that of
//! the size converted to a double (round to nearest, ties to even, on 53 bits),
//! divided by the unit, and the decimal is rounded to nearest with ties to even.
use vstd::prelude::*;
use crate::text::{decimal, decimal_text, digit_char, digit_of, push_char, push_str};

verus! {

/// `2` to the power `n`.
pub open spec fn pow2(n: nat) -> nat
    decreases n,
{
    if n == 0 { 1 } else { 2 * pow2((n - 1) as nat) }
}

/// The number of binary digits of `n` (0 for zero).
pub open spec fn bit_length(n: nat) -> nat
    decreases n,
{
    if n == 0 { 0 } else { 1 + bit_length(n / 2) }
}

/// `num / den` rounded to the nearest integer, ties to even.
pub open spec fn div_round_even(num: nat, den: nat) -> nat
    recommends
        den > 0,
{
    let q = num / den;
    let r = num % den;
    if 2 * r > den || (2 * r == den && q % 2 == 1) {
        q + 1
    } else {
        q
    }
}

/// The nearest double to `n`, as an integer.
pub open spec fn as_double(n: nat) -> nat {
    if bit_length(n) <= 53 {
        n
    } else {
        let e = (bit_length(n) - 53) as nat;
        div_round_even(n, pow2(e)) * pow2(e)
    }
}

/// The name of the `k`-th binary unit.
pub open spec fn unit_name(k: nat) -> Seq<char> {
    if k == 1 { "KiB"@ } else if k == 2 { "MiB"@ } else if k == 3 { "GiB"@ } else { "TiB"@ }
}

/// The unit that a size is shown in: the first whose value stays below 1024,
/// or TiB.
pub open spec fn size_unit(d: nat) -> nat {
    if d < pow2(10) {
        0
    } else if d < pow2(20) {
        1
    } else if d < pow2(30) {
        2
    } else if d < pow2(40) {
        3
    } else {
        4
    }
}

/// The text of a size: empty for zero, `N B` below the first unit, else the
/// value in tenths of the unit.
pub open spec fn size_text(size: u64) -> Seq<char> {
    let d = as_double(size as nat);
    let k = size_unit(d);
    if size == 0 {
        Seq::empty()
    } else if k == 0 {
        decimal(size as nat) + " B"@
    } else {
        let tenths = div_round_even(d * 10, pow2(10 * k));
        decimal(tenths / 10) + seq!['.', digit_char(tenths % 10)] + seq![' '] + unit_name(k)
    }
}

proof fn lemma_pow2_values()
    ensures
        pow2(10) == 1024,
        pow2(20) == 1048576,
        pow2(30) == 1073741824,
        pow2(40) == 1099511627776,
        pow2(53) == 9007199254740992,
        pow2(64) == 18446744073709551616,
{
    reveal_with_fuel(pow2, 65);
}

proof fn lemma_pow2_step(n: nat)
    ensures
        pow2(n + 1) == 2 * pow2(n),
        pow2(n) > 0,
    decreases n,
{
    if n > 0 {
        lemma_pow2_step((n - 1) as nat);
    }
}

/// Values below `2^b` have at most `b` binary digits, and conversely.
proof fn lemma_bit_length_bound(n: nat, b: nat)
    ensures
        n < pow2(b) <==> bit_length(n) <= b,
    decreases b,
{
    lemma_pow2_step(b);
    if b == 0 {
    } else {
        lemma_bit_length_bound(n / 2, (b - 1) as nat);
        lemma_pow2_step((b - 1) as nat);
    }
}

/// Computes `div_round_even` for the values that sizes need.
fn div_round_even_exec(num: u128, den: u128) -> (r: u128)
    requires
        den > 0,
        num < 295147905179352825856u128,
    ensures
        r == div_round_even(num as nat, den as nat),
{
    let q = num / den;
    let r = num % den;
    assert(q <= num) by (nonlinear_arith)
        requires
            q == num / den,
            den > 0,
    ;
    if r > den - r || (r == den - r && q % 2 == 1) {
        q + 1
    } else {
        q
    }
}

/// The nearest double to a size, as an integer.
fn double_of(size: u64) -> (d: u128)
    ensures
        d == as_double(size as nat),
        d <= pow2(64),
{
    proof {
        lemma_pow2_values();
    }
    let n = size as u128;
    if n < 9007199254740992 {
        proof {
            lemma_bit_length_bound(size as nat, 53);
        }
        return n;
    }
    let mut e: u64 = 0;
    let mut unit: u128 = 1;
    let mut lim: u128 = 9007199254740992;
    while n >= lim
        invariant
            e <= 11,
            lim == pow2((53 + e) as nat),
            unit == pow2(e as nat),
            n >= pow2((52 + e) as nat),
            n < pow2(64),
            pow2(64) == 18446744073709551616,
            pow2(53) == 9007199254740992,
        decreases 64 - e,
    {
        proof {
            lemma_pow2_step((53 + e) as nat);
            lemma_pow2_step(e as nat);
            if e >= 11 {
                lemma_pow2_mono((53 + e) as nat, 64);
            }
            lemma_pow2_mono(10, e as nat);
            reveal_with_fuel(pow2, 11);
        }
        e = e + 1;
        lim = lim * 2;
        unit = unit * 2;
    }
    proof {
        lemma_bit_length_bound(size as nat, (53 + e) as nat);
        lemma_bit_length_bound(size as nat, (52 + e) as nat);
        assert(e > 0);
        assert(bit_length(size as nat) == 53 + e);
        lemma_pow2_step(e as nat);
        lemma_pow2_mono(11, e as nat);
    }
    let q = div_round_even_exec(n, unit);
    assert(q * unit <= n + unit) by (nonlinear_arith)
        requires
            q == div_round_even(n as nat, unit as nat),
            unit > 0,
    {
        assert(n as nat / unit as nat * unit as nat <= n);
    }
    let d = q * unit;
    proof {
        lemma_round_stays_in_range(size as nat, e as nat);
    }
    d
}

/// `pow2` grows with its argument.
proof fn lemma_pow2_mono(a: nat, b: nat)
    requires
        b <= a,
    ensures
        pow2(b) <= pow2(a),
    decreases a - b,
{
    if b < a {
        lemma_pow2_mono(a, b + 1);
        lemma_pow2_step(b);
    }
}

/// Rounding a 64-bit value to 53 significant bits gives at most `2^64`.
proof fn lemma_round_stays_in_range(n: nat, e: nat)
    requires
        n < pow2(64),
        1 <= e <= 11,
        pow2(64) == 18446744073709551616,
    ensures
        div_round_even(n, pow2(e)) * pow2(e) <= pow2(64),
{
    lemma_pow2_step(e);
    let u = pow2(e);
    let q = n / u;
    assert(q * u <= n) by (nonlinear_arith)
        requires
            q == n / u,
            u > 0,
    ;
    assert(u * pow2((64 - e) as nat) == pow2(64)) by {
        lemma_pow2_add(e, (64 - e) as nat);
    }
    assert(q < pow2((64 - e) as nat)) by (nonlinear_arith)
        requires
            q * u <= n,
            n < pow2(64),
            u * pow2((64 - e) as nat) == pow2(64),
            u > 0,
    ;
    assert((q + 1) * u <= pow2(64)) by (nonlinear_arith)
        requires
            q + 1 <= pow2((64 - e) as nat),
            u * pow2((64 - e) as nat) == pow2(64),
            u > 0,
    ;
}

/// `2^a * 2^b == 2^(a+b)`.
proof fn lemma_pow2_add(a: nat, b: nat)
    ensures
        pow2(a) * pow2(b) == pow2(a + b),
    decreases a,
{
    if a > 0 {
        lemma_pow2_add((a - 1) as nat, b);
        lemma_pow2_step((a - 1 + b) as nat);
        assert(((a - 1 + b) as nat + 1) as nat == a + b);
        assert(pow2(a) == 2 * pow2((a - 1) as nat));
        assert(pow2(a) * pow2(b) == 2 * (pow2((a - 1) as nat) * pow2(b))) by (nonlinear_arith)
            requires
                pow2(a) == 2 * pow2((a - 1) as nat),
        ;
    } else {
        assert(pow2(a) == 1);
        assert(a + b == b);
    }
}

/// The text of a file size: empty for zero, whole bytes below 1 KiB, else one
/// decimal in the largest binary unit up to TiB that keeps the value below 1024.
pub fn format_size(size: u64) -> (r: String)
    ensures
        r@ == size_text(size),
{
    if size == 0 {
        return String::new();
    }
    proof {
        lemma_pow2_values();
    }
    let d = double_of(size);
    if d < 1024 {
        let mut r = decimal_text(size);
        push_str(&mut r, " B");
        return r;
    }
    let (k, den, unit): (u64, u128, &str) = if d < 1048576 {
        (1, 1024, "KiB")
    } else if d < 1073741824 {
        (2, 1048576, "MiB")
    } else if d < 1099511627776 {
        (3, 1073741824, "GiB")
    } else {
        (4, 1099511627776, "TiB")
    };
    assert(den == pow2(10 * k as nat));
    assert(k == size_unit(d as nat));
    let tenths = div_round_even_exec(d * 10, den);
    assert(tenths <= (d as int * 10) / (den as int) + 1);
    assert(tenths / 10 < 18446744073709551616u128) by (nonlinear_arith)
        requires
            tenths <= (d as int * 10) / (den as int) + 1,
            den >= 1024,
            d <= 18446744073709551616u128,
    ;
    let whole = (tenths / 10) as u64;
    let mut r = decimal_text(whole);
    push_char(&mut r, '.');
    push_char(&mut r, digit_of((tenths % 10) as u64));
    push_char(&mut r, ' ');
    push_str(&mut r, unit);
    proof {
        assert(seq!['.', digit_char((tenths % 10) as nat)] + seq![' '] =~= seq![
            '.',
            digit_char((tenths % 10) as nat),
            ' ',
        ]);
    }
    r
}

/// Sizes show nothing for zero and whole bytes below a kibibyte.
pub proof fn law_small_sizes(size: u64)
    requires
        size < 1024,
    ensures
        size == 0 ==> size_text(size).len() == 0,
        size > 0 ==> size_text(size) == decimal(size as nat) + " B"@,
{
    lemma_pow2_values();
    lemma_bit_length_bound(size as nat, 53);
    lemma_pow2_mono(53, 10);
}

} // verus!
