//! Arithmetic on signs, mantissas and exponents, with the results rounded to a format.
use crate::double::Double;
use crate::rounding::{
    excess, lemma_length, lemma_length_bound, lemma_length_shifted, lemma_pow2_monotonic,
    lemma_shortened_in_steps, lemma_wide, length, length_of, power, shorten, shortened, Format,
};
use vstd::arithmetic::div_mod::{
    lemma_fundamental_div_mod, lemma_fundamental_div_mod_converse, lemma_mod_pos_bound,
};
use vstd::arithmetic::power2::{
    lemma2_to64, lemma_pow2_adds, lemma_pow2_pos, lemma_pow2_unfold, pow2,
};
use vstd::prelude::*;

verus! {

/// Zero in a format.
pub open spec fn zero(format: Format, negative: bool) -> Double {
    Double::Finite { negative, mantissa: 0, exponent: format.lowest() as i32 }
}

/// The number with that mantissa and exponent, if the format goes as far.
pub open spec fn packed(format: Format, negative: bool, mantissa: nat, exponent: int) -> Double {
    if exponent > format.highest() {
        Double::Infinite { negative }
    } else {
        Double::Finite { negative, mantissa: mantissa as u64, exponent: exponent as i32 }
    }
}

/// The number of a format that is nearest to `size` units of two to the power of `exponent`.
/// `more` tells that the size is exceeded, by less than one; it takes a size with more digits
/// than the format has.
pub open spec fn settled(
    format: Format,
    negative: bool,
    size: nat,
    exponent: int,
    more: bool,
) -> Double {
    if size == 0 {
        zero(format, negative)
    } else {
        let places = excess(format, size, exponent);
        let kept = if places <= 0 {
            size * pow2((-places) as nat)
        } else {
            shortened(size, places as nat, more)
        };
        if kept < pow2(format.digits() as nat) {
            packed(format, negative, kept, exponent + places)
        } else {
            packed(format, negative, kept / 2, exponent + places + 1)
        }
    }
}

/// A mantissa with its sign.
pub open spec fn signed(negative: bool, mantissa: u64) -> int {
    if negative {
        -(mantissa as int)
    } else {
        mantissa as int
    }
}

/// The lower of two exponents.
pub open spec fn lower(a: int, b: int) -> int {
    if a < b {
        a
    } else {
        b
    }
}

/// The double nearest to `total` units of two to the power of `exponent`. Zero is negative only
/// where all that it was made of is.
pub open spec fn gathered(all_negative: bool, total: int, exponent: int) -> Double {
    if total == 0 {
        zero(Format::Double, all_negative)
    } else if total < 0 {
        settled(Format::Double, true, (-total) as nat, exponent, false)
    } else {
        settled(Format::Double, false, total as nat, exponent, false)
    }
}

/// What is left of a size after its first digits does not change the number it settles to,
/// but for being there or not.
proof fn lemma_settled_in_steps(
    format: Format,
    negative: bool,
    size: nat,
    first: nat,
    rest: nat,
    exponent: int,
    more: bool,
)
    requires
        rest < pow2(first),
        length(size) > format.digits(),
    ensures
        settled(format, negative, size * pow2(first) + rest, exponent, more) == settled(
            format,
            negative,
            size,
            exponent + first,
            more || rest > 0,
        ),
{
    let all = size * pow2(first) + rest;
    lemma_length_shifted(size, first, rest);
    lemma_pow2_pos(first);
    assert(all > 0) by (nonlinear_arith)
        requires
            all == size * pow2(first) + rest,
            size > 0,
            pow2(first) > 0,
    ;
    let places = excess(format, size, exponent + first);
    assert(excess(format, all, exponent) == first + places);
    lemma_shortened_in_steps(size, first, rest, places as nat, more);
}

/// Shifting a size up leaves it within the digits that there are.
pub(crate) proof fn lemma_shifted_up(size: nat, up: nat, digits: nat)
    requires
        length(size) + up <= digits,
    ensures
        size * pow2(up) < pow2(digits),
{
    lemma_length(size);
    lemma_pow2_adds(length(size), up);
    lemma_pow2_pos(up);
    assert(size * pow2(up) < pow2(length(size)) * pow2(up)) by (nonlinear_arith)
        requires
            size < pow2(length(size)),
            pow2(up) > 0,
    ;
    lemma_pow2_monotonic(length(size) + up, digits);
}

/// [`zero`].
pub(crate) fn empty(format: Format, negative: bool) -> (result: Double)
    ensures
        result == zero(format, negative),
{
    Double::Finite { negative, mantissa: 0, exponent: format.lowest_exponent() }
}

/// [`packed`].
fn pack(format: Format, negative: bool, mantissa: u128, exponent: i64) -> (result: Double)
    requires
        mantissa <= u64::MAX,
        i32::MIN <= exponent,
    ensures
        result == packed(format, negative, mantissa as nat, exponent as int),
{
    if exponent > format.highest_exponent() as i64 {
        Double::Infinite { negative }
    } else {
        Double::Finite { negative, mantissa: mantissa as u64, exponent: exponent as i32 }
    }
}

/// [`settled`].
pub(crate) fn settle(format: Format, negative: bool, size: u128, exponent: i64, more: bool) -> (result: Double)
    requires
        -0x2_0000_0000 <= exponent <= 0x2_0000_0000,
    ensures
        result == settled(format, negative, size as nat, exponent as int, more),
{
    if size == 0 {
        return empty(format, negative);
    }
    let over: i64 = length_of(size) as i64 - format.digit_count() as i64;
    let under: i64 = format.lowest_exponent() as i64 - exponent;
    let places: i64 = if over < under {
        under
    } else {
        over
    };
    proof {
        lemma_wide();
        lemma_pow2_monotonic(format.digits() as nat, 53);
    }
    let kept: u128;
    if places <= 0 {
        let up: u32 = (-places) as u32;
        proof {
            lemma_length(size as nat);
            lemma_shifted_up(size as nat, up as nat, format.digits() as nat);
        }
        kept = size * power(up);
    } else {
        proof {
            lemma_shortened_bound(size as nat, places as nat, more, format.digits() as nat);
        }
        kept = shorten(size, places, more);
    }
    if kept < power(format.digit_count()) {
        pack(format, negative, kept, exponent + places)
    } else {
        pack(format, negative, kept / 2, exponent + places + 1)
    }
}

/// A shortened size has the digits that were left to it, or is the power of two next to them.
pub(crate) proof fn lemma_shortened_bound(size: nat, places: nat, more: bool, digits: nat)
    requires
        length(size) <= digits + places,
    ensures
        shortened(size, places, more) <= pow2(digits),
{
    let unit = pow2(places);
    let whole = size / unit;
    lemma_length(size);
    lemma_pow2_pos(places);
    lemma_pow2_adds(digits, places);
    lemma_pow2_monotonic(length(size), digits + places);
    lemma_fundamental_div_mod(size as int, unit as int);
    lemma_mod_pos_bound(size as int, unit as int);
    assert(whole < pow2(digits)) by (nonlinear_arith)
        requires
            unit * whole <= size,
            size < pow2(digits) * unit,
            unit > 0,
    ;
}

/// The double nearest to the sum of two finite numbers, where the second does not reach up to
/// the first one's last digits: `shifted` counts units that are `down` places above those of
/// `m2`.
fn sum_apart(n1: bool, shifted: u128, n2: bool, m2: u64, down: i64, e2: i64) -> (result: Double)
    requires
        pow2(125) <= shifted < pow2(126),
        0 < down <= u32::MAX,
        i32::MIN <= e2 <= i32::MAX,
    ensures
        n1 == n2 ==> result == settled(
            Format::Double,
            n1,
            (shifted * pow2(down as nat) + m2) as nat,
            e2 as int,
            false,
        ),
        n1 != n2 ==> shifted * pow2(down as nat) > m2 && result == settled(
            Format::Double,
            n1,
            (shifted * pow2(down as nat) - m2) as nat,
            e2 as int,
            false,
        ),
{
    let ghost unit = pow2(down as nat);
    let whole: u128;
    let part: u128;
    proof {
        lemma_wide();
        lemma_pow2_pos(down as nat);
    }
    if down >= 64 {
        proof {
            lemma_pow2_monotonic(64, down as nat);
        }
        whole = 0;
        part = m2 as u128;
        assert(m2 == whole * unit + part);
    } else {
        let one: u128 = power(down as u32);
        whole = m2 as u128 / one;
        part = m2 as u128 % one;
        proof {
            lemma_fundamental_div_mod(m2 as int, one as int);
            lemma_mod_pos_bound(m2 as int, one as int);
            assert(whole <= m2 && m2 == whole * unit + part) by (nonlinear_arith)
                requires
                    m2 == one * whole + part,
                    unit == one,
                    one >= 1,
                    part >= 0,
                    whole >= 0,
            ;
        }
    }
    if n1 == n2 {
        proof {
            let size = (shifted + whole) as nat;
            lemma_length_bound(size, 124);
            assert(size * unit + part == shifted * unit + m2) by (nonlinear_arith)
                requires
                    size == shifted + whole,
                    m2 == whole * unit + part,
            ;
            lemma_settled_in_steps(
                Format::Double,
                n1,
                size,
                down as nat,
                part as nat,
                e2 as int,
                false,
            );
        }
        settle(Format::Double, n1, shifted + whole, e2 + down, part > 0)
    } else if part == 0 {
        proof {
            let size = (shifted - whole) as nat;
            lemma_length_bound(size, 124);
            assert(size * unit == shifted * unit - m2 && size * unit > 0) by (nonlinear_arith)
                requires
                    size == shifted - whole,
                    m2 == whole * unit + part,
                    part == 0,
                    size > 0,
                    unit > 0,
            ;
            lemma_settled_in_steps(Format::Double, n1, size, down as nat, 0, e2 as int, false);
        }
        settle(Format::Double, n1, shifted - whole, e2 + down, false)
    } else {
        proof {
            let size = (shifted - whole - 1) as nat;
            let rest = (unit - part) as nat;
            lemma_length_bound(size, 124);
            assert(size * unit + rest == shifted * unit - m2 && size * unit + rest > 0)
                by (nonlinear_arith)
                requires
                    size == shifted - whole - 1,
                    m2 == whole * unit + part,
                    rest == unit - part,
                    rest > 0,
                    size > 0,
                    unit > 0,
            ;
            lemma_settled_in_steps(Format::Double, n1, size, down as nat, rest, e2 as int, false);
        }
        settle(Format::Double, n1, shifted - whole - 1, e2 + down, true)
    }
}

/// The double nearest to the sum of two finite numbers, the first with the higher exponent.
pub(crate) fn sum(n1: bool, m1: u64, e1: i64, n2: bool, m2: u64, e2: i64) -> (result: Double)
    requires
        i32::MIN <= e2 <= e1 <= i32::MAX,
    ensures
        result == gathered(
            n1 && n2,
            signed(n1, m1) * pow2((e1 - e2) as nat) + signed(n2, m2),
            e2 as int,
        ),
{
    proof {
        lemma_wide();
        lemma_length(m1 as nat);
        lemma_length_bound(m1 as nat, 64);
    }
    if m1 == 0 {
        assert(signed(n1, m1) * pow2((e1 - e2) as nat) == 0) by (nonlinear_arith)
            requires
                signed(n1, m1) == 0,
        ;
        if m2 == 0 {
            return empty(Format::Double, n1 && n2);
        }
        return settle(Format::Double, n2, m2 as u128, e2, false);
    }
    let distance: i64 = e1 - e2;
    let room: i64 = 126 - length_of(m1 as u128) as i64;
    let up: i64 = if distance < room {
        distance
    } else {
        room
    };
    let down: i64 = distance - up;
    proof {
        lemma_shifted_up(m1 as nat, up as nat, 126);
        lemma_pow2_pos(up as nat);
    }
    let shifted: u128 = m1 as u128 * power(up as u32);
    assert(signed(n1, m1) * pow2(distance as nat) == (if n1 {
        -(shifted * pow2(down as nat))
    } else {
        shifted * pow2(down as nat)
    }) && shifted > 0) by {
        lemma_pow2_adds(up as nat, down as nat);
        let unit = pow2(down as nat);
        let all = pow2(distance as nat);
        let first = pow2(up as nat);
        assert(m1 * all == shifted * unit && (-m1) * all == -(m1 * all) && shifted > 0)
            by (nonlinear_arith)
            requires
                all == first * unit,
                shifted == m1 * first,
                m1 > 0,
                first > 0,
        ;
    }
    if down == 0 {
        proof {
            lemma2_to64();
            assert(shifted * pow2(0) == shifted) by (nonlinear_arith)
                requires
                    pow2(0) == 1,
            ;
        }
        if n1 == n2 {
            settle(Format::Double, n1, shifted + m2 as u128, e2, false)
        } else if shifted > m2 as u128 {
            settle(Format::Double, n1, shifted - m2 as u128, e2, false)
        } else if shifted < m2 as u128 {
            settle(Format::Double, n2, m2 as u128 - shifted, e2, false)
        } else {
            empty(Format::Double, false)
        }
    } else {
        proof {
            let long = length(m1 as nat);
            let first = pow2((long - 1) as nat);
            lemma_pow2_adds((long - 1) as nat, up as nat);
            assert(first * pow2(up as nat) <= shifted) by (nonlinear_arith)
                requires
                    first <= m1,
                    shifted == m1 * pow2(up as nat),
            ;
            assert(long - 1 + up == 125);
            lemma_pow2_pos(down as nat);
            assert(shifted * pow2(down as nat) > 0) by (nonlinear_arith)
                requires
                    shifted > 0,
                    pow2(down as nat) > 0,
            ;
        }
        sum_apart(n1, shifted, n2, m2, down, e2)
    }
}

/// [`quotient`] of finite numbers, the second of which is not zero.
pub(crate) fn divide(format: Format, negative: bool, m1: u64, e1: i64, m2: u64, e2: i64) -> (result: Double)
    requires
        m2 != 0,
        i32::MIN <= e1 <= i32::MAX,
        i32::MIN <= e2 <= i32::MAX,
    ensures
        result == settled(
            format,
            negative,
            (m1 as nat * pow2(128)) / m2 as nat,
            e1 - e2 - 128,
            (m1 as nat * pow2(128)) % m2 as nat != 0,
        ),
{
    proof {
        lemma_wide();
        lemma_length(m1 as nat);
        lemma_length_bound(m1 as nat, 64);
    }
    if m1 == 0 {
        proof {
            lemma_fundamental_div_mod_converse(0, m2 as int, 0, 0);
        }
        return empty(format, negative);
    }
    let up: i64 = 127 - length_of(m1 as u128) as i64;
    let ghost down: nat = (128 - up) as nat;
    let ghost unit = pow2(down);
    proof {
        lemma_shifted_up(m1 as nat, up as nat, 127);
        lemma_pow2_adds(up as nat, down);
        lemma_pow2_pos(down);
    }
    let dividend: u128 = m1 as u128 * power(up as u32);
    let whole: u128 = dividend / m2 as u128;
    let part: u128 = dividend % m2 as u128;
    proof {
        let long = length(m1 as nat);
        let first = pow2((long - 1) as nat);
        lemma_pow2_adds((long - 1) as nat, up as nat);
        assert(first * pow2(up as nat) <= dividend) by (nonlinear_arith)
            requires
                first <= m1,
                dividend == m1 * pow2(up as nat),
        ;
        assert(long - 1 + up == 126);
        lemma_fundamental_div_mod(dividend as int, m2 as int);
        lemma_mod_pos_bound(dividend as int, m2 as int);
        assert(whole >= 0x3000_0000_0000_0000) by (nonlinear_arith)
            requires
                dividend >= 0x4000_0000_0000_0000_0000_0000_0000_0000,
                dividend == m2 * whole + part,
                part < m2,
                m2 < 0x1_0000_0000_0000_0000,
                whole >= 0,
        ;
        lemma_pow2_monotonic(format.digits() as nat, 53);
        lemma_length_bound(whole as nat, format.digits() as nat);
        let rest = (part * unit) / m2 as int;
        let last = (part * unit) % m2 as int;
        lemma_fundamental_div_mod(part * unit, m2 as int);
        lemma_mod_pos_bound(part * unit, m2 as int);
        assert(0 <= rest < unit) by (nonlinear_arith)
            requires
                part * unit == m2 * rest + last,
                0 <= last < m2,
                0 <= part < m2,
                unit > 0,
        ;
        assert((m1 as nat * pow2(128)) == (whole * unit + rest) * m2 + last) by (nonlinear_arith)
            requires
                dividend == m1 * pow2(up as nat),
                pow2(128) == pow2(up as nat) * unit,
                dividend == m2 * whole + part,
                part * unit == m2 * rest + last,
        ;
        lemma_fundamental_div_mod_converse(
            (m1 as nat * pow2(128)) as int,
            m2 as int,
            whole * unit + rest,
            last,
        );
        assert(part > 0 <==> rest > 0 || last > 0) by (nonlinear_arith)
            requires
                part * unit == m2 * rest + last,
                unit > 0,
                m2 > 0,
                0 <= rest,
                0 <= last,
                0 <= part,
        ;
        lemma_settled_in_steps(
            format,
            negative,
            whole as nat,
            down,
            rest as nat,
            e1 - e2 - 128,
            last != 0,
        );
    }
    settle(format, negative, whole, e1 - e2 - up, part > 0)
}

/// Whether the second of two sizes is larger, or, if not, whether they are equal.
fn sizes(m1: u64, e1: i32, m2: u64, e2: i32) -> (result: (bool, bool))
    ensures
        ({
            let low = lower(e1 as int, e2 as int);
            let a = m1 * pow2((e1 - low) as nat);
            let b = m2 * pow2((e2 - low) as nat);
            result.0 == (a < b) && result.1 == (a == b)
        }),
{
    let ghost low = lower(e1 as int, e2 as int);
    let ghost u1 = pow2((e1 - low) as nat);
    let ghost u2 = pow2((e2 - low) as nat);
    proof {
        lemma_wide();
        lemma_pow2_pos((e1 - low) as nat);
        lemma_pow2_pos((e2 - low) as nat);
        lemma_length(m1 as nat);
        lemma_length(m2 as nat);
        lemma_length_bound(m1 as nat, 64);
        lemma_length_bound(m2 as nat, 64);
        assert(m1 == 0 ==> m1 * u1 == 0) by (nonlinear_arith);
        assert(m2 == 0 ==> m2 * u2 == 0) by (nonlinear_arith);
        assert(m1 > 0 ==> m1 * u1 > 0) by (nonlinear_arith)
            requires
                u1 > 0,
        ;
        assert(m2 > 0 ==> m2 * u2 > 0) by (nonlinear_arith)
            requires
                u2 > 0,
        ;
    }
    if m1 == 0 || m2 == 0 {
        return (m1 == 0 && m2 != 0, m1 == 0 && m2 == 0);
    }
    let top1: i64 = length_of(m1 as u128) as i64 + e1 as i64;
    let top2: i64 = length_of(m2 as u128) as i64 + e2 as i64;
    if top1 < top2 {
        proof {
            lemma_longer(m1 as nat, (e1 - low) as nat, m2 as nat, (e2 - low) as nat);
        }
        (true, false)
    } else if top1 > top2 {
        proof {
            lemma_longer(m2 as nat, (e2 - low) as nat, m1 as nat, (e1 - low) as nat);
        }
        (false, false)
    } else if e1 >= e2 {
        let up: i64 = e1 as i64 - e2 as i64;
        proof {
            lemma2_to64();
            lemma_shifted_up(m1 as nat, up as nat, 64);
            assert(m2 * u2 == m2) by (nonlinear_arith)
                requires
                    u2 == 1,
            ;
        }
        let size: u128 = m1 as u128 * power(up as u32);
        (size < m2 as u128, size == m2 as u128)
    } else {
        let up: i64 = e2 as i64 - e1 as i64;
        proof {
            lemma2_to64();
            lemma_shifted_up(m2 as nat, up as nat, 64);
            assert(m1 * u1 == m1) by (nonlinear_arith)
                requires
                    u1 == 1,
            ;
        }
        let size: u128 = m2 as u128 * power(up as u32);
        ((m1 as u128) < size, m1 as u128 == size)
    }
}

/// A size whose first digit stands higher is larger.
proof fn lemma_longer(m1: nat, up1: nat, m2: nat, up2: nat)
    requires
        m2 > 0,
        length(m1) + up1 < length(m2) + up2,
    ensures
        m1 * pow2(up1) < m2 * pow2(up2),
{
    let first = pow2((length(m2) - 1) as nat);
    lemma_length(m2);
    lemma_shifted_up(m1, up1, (length(m2) - 1 + up2) as nat);
    lemma_pow2_adds((length(m2) - 1) as nat, up2);
    assert(first * pow2(up2) <= m2 * pow2(up2)) by (nonlinear_arith)
        requires
            first <= m2,
    ;
}

/// Whether the second of two finite numbers is larger, or, if not, whether they are equal.
pub(crate) fn finite_order(n1: bool, m1: u64, e1: i32, n2: bool, m2: u64, e2: i32) -> (result: (bool, bool))
    ensures
        ({
            let low = lower(e1 as int, e2 as int);
            let a = signed(n1, m1) * pow2((e1 - low) as nat);
            let b = signed(n2, m2) * pow2((e2 - low) as nat);
            result.0 == (a < b) && result.1 == (a == b)
        }),
{
    let (less, equal) = sizes(m1, e1, m2, e2);
    proof {
        let low = lower(e1 as int, e2 as int);
        let u1 = pow2((e1 - low) as nat);
        let u2 = pow2((e2 - low) as nat);
        lemma_pow2_pos((e1 - low) as nat);
        lemma_pow2_pos((e2 - low) as nat);
        assert((-(m1 as int)) * u1 == -(m1 * u1)) by (nonlinear_arith);
        assert((-(m2 as int)) * u2 == -(m2 * u2)) by (nonlinear_arith);
        assert(m1 * u1 >= 0 && (m1 * u1 == 0 <==> m1 == 0)) by (nonlinear_arith)
            requires
                u1 > 0,
                m1 >= 0,
        ;
        assert(m2 * u2 >= 0 && (m2 * u2 == 0 <==> m2 == 0)) by (nonlinear_arith)
            requires
                u2 > 0,
                m2 >= 0,
        ;
    }
    if n1 {
        if n2 {
            (!less && !equal, equal)
        } else {
            (m1 != 0 || m2 != 0, m1 == 0 && m2 == 0)
        }
    } else {
        if n2 {
            (false, m1 == 0 && m2 == 0)
        } else {
            (less, equal)
        }
    }
}

/// Whether a number is one of the format, in the form that the operations give it.
pub open spec fn of_format(format: Format, value: Double) -> bool {
    match value {
        Double::Finite { mantissa, exponent, .. } => {
            &&& mantissa < pow2(format.digits() as nat)
            &&& format.lowest() <= exponent <= format.highest()
            &&& mantissa >= pow2((format.digits() - 1) as nat) || exponent == format.lowest()
        },
        _ => true,
    }
}

/// Rounding gives numbers of the format.
pub proof fn law_settled_is_of_format(
    format: Format,
    negative: bool,
    size: nat,
    exponent: int,
    more: bool,
)
    ensures
        of_format(format, settled(format, negative, size, exponent, more)),
{
    let digits = format.digits() as nat;
    lemma_wide();
    lemma_pow2_monotonic(digits, 53);
    lemma_pow2_pos(digits);
    lemma_pow2_unfold(digits);
    if size > 0 {
        let places = excess(format, size, exponent);
        let first = pow2((length(size) - 1) as nat);
        lemma_length(size);
        if places <= 0 {
            let up = (-places) as nat;
            lemma_shifted_up(size, up, digits);
            if places == length(size) - digits {
                lemma_pow2_adds((length(size) - 1) as nat, up);
                assert(first * pow2(up) <= size * pow2(up)) by (nonlinear_arith)
                    requires
                        first <= size,
                ;
            }
        } else {
            lemma_shortened_bound(size, places as nat, more, digits);
            if places == length(size) - digits {
                let unit = pow2(places as nat);
                let whole = size / unit;
                let half = pow2((digits - 1) as nat);
                lemma_pow2_adds((digits - 1) as nat, places as nat);
                lemma_pow2_pos(places as nat);
                lemma_fundamental_div_mod(size as int, unit as int);
                lemma_mod_pos_bound(size as int, unit as int);
                assert(whole >= half) by (nonlinear_arith)
                    requires
                        half * unit <= size,
                        size == unit * whole + size % unit,
                        size % unit < unit,
                        unit > 0,
                ;
            } else {
                lemma_shortened_bound(size, places as nat, more, (digits - 1) as nat);
            }
        }
    }
}

/// Rounding keeps the numbers of the format.
pub proof fn law_settled_keeps(format: Format, negative: bool, mantissa: u64, exponent: i32)
    requires
        of_format(format, Double::Finite { negative, mantissa, exponent }),
    ensures
        mantissa > 0 ==> settled(format, negative, mantissa as nat, exponent as int, false)
            == (Double::Finite { negative, mantissa, exponent }),
{
    let digits = format.digits() as nat;
    lemma_length_bound(mantissa as nat, digits);
    lemma_length_bound(mantissa as nat, (digits - 1) as nat);
    lemma2_to64();
    assert(mantissa as nat * 1 == mantissa);
}

/// The place of the last digit does not matter, only what is stood for.
pub proof fn law_settled_by_value(
    format: Format,
    negative: bool,
    size: nat,
    up: nat,
    exponent: int,
)
    ensures
        settled(format, negative, size * pow2(up), exponent, false) == settled(
            format,
            negative,
            size,
            exponent + up,
            false,
        ),
{
    let all = size * pow2(up);
    lemma_pow2_pos(up);
    if size == 0 {
        assert(0 * pow2(up) == 0);
    } else {
        assert(all > 0) by (nonlinear_arith)
            requires
                all == size * pow2(up),
                size > 0,
                pow2(up) > 0,
        ;
        lemma_length_shifted(size, up, 0);
        let places = excess(format, size, exponent + up);
        assert(excess(format, all, exponent) == places + up);
        if places > 0 {
            lemma_shortened_in_steps(size, up, 0, places as nat, false);
        } else if places + up > 0 {
            let spare = (-places) as nat;
            let gone = (places + up) as nat;
            lemma_pow2_adds(gone, spare);
            lemma_pow2_pos(gone);
            let kept = size * pow2(spare);
            assert(all == kept * pow2(gone)) by (nonlinear_arith)
                requires
                    all == size * pow2(up),
                    pow2(up) == pow2(gone) * pow2(spare),
                    kept == size * pow2(spare),
            ;
            lemma_fundamental_div_mod_converse(all as int, pow2(gone) as int, kept as int, 0);
        } else {
            let first = (-(places + up)) as nat;
            lemma_pow2_adds(up, first);
            assert(all * pow2(first) == size * pow2((-places) as nat)) by (nonlinear_arith)
                requires
                    all == size * pow2(up),
                    pow2((-places) as nat) == pow2(up) * pow2(first),
            ;
        }
    }
}

} // verus!
