//! What the numbers in double precision are worth, and how near to the exact results the
//! operations on them come.
use crate::binary::{
    gathered, law_settled_is_of_format, lemma_shifted_up, lemma_shortened_bound, lower, of_format,
    settled, signed,
};
use crate::double::{lemma_whole_is_finite, part_over, quotient, Double};
use crate::geometry::Output;
use crate::operations::distance;
use crate::output_zoom::OutputZoomState;
use crate::rounding::{
    excess, law_shortened_is_nearest, lemma_length, lemma_length_bound, lemma_pow2_monotonic,
    lemma_wide, length, shortened, Format,
};
use crate::scalar::{clamped, Arith};
use vstd::arithmetic::div_mod::{lemma_fundamental_div_mod, lemma_mod_pos_bound};
use vstd::arithmetic::power2::{
    lemma2_to64, lemma_pow2_adds, lemma_pow2_pos, lemma_pow2_unfold, pow2,
};
use vstd::prelude::*;

verus! {

/// Two to the power of an integer.
pub open spec fn scale(exponent: int) -> real {
    if exponent >= 0 {
        pow2(exponent as nat) as int as real
    } else {
        1real / (pow2((-exponent) as nat) as int as real)
    }
}

/// What a finite number is worth.
pub open spec fn worth(value: Double) -> real {
    match value {
        Double::Finite { negative, mantissa, exponent } => if negative {
            0real - mantissa as int as real * scale(exponent as int)
        } else {
            mantissa as int as real * scale(exponent as int)
        },
        _ => 0real,
    }
}

/// From here on, what is exact is too large for a format: half a unit of the last digit above
/// its largest number.
pub open spec fn too_large(format: Format) -> real {
    (pow2(format.digits() as nat) as int as real - 1real / 2real) * scale(format.highest())
}

/// Whether `other` is not nearer to what is exact than `value`, nor as near unless that has an
/// even last digit.
pub open spec fn no_nearer(other: Double, value: Double, exact: real) -> bool {
    &&& distance(worth(value), exact) <= distance(worth(other), exact)
    &&& distance(worth(value), exact) == distance(worth(other), exact) && worth(other) != worth(
        value,
    ) ==> value->mantissa % 2 == 0
}

/// Whether no number of a format is nearer to what is exact, and none as near unless this one's
/// last digit is even. What is too large is infinite, on its side of zero.
pub open spec fn nearest_to(format: Format, value: Double, exact: real) -> bool {
    match value {
        Double::Nan => false,
        Double::Infinite { negative } => if negative {
            exact <= 0real - too_large(format)
        } else {
            exact >= too_large(format)
        },
        Double::Finite { .. } => {
            &&& of_format(format, value)
            &&& 0real - too_large(format) < exact < too_large(format)
            &&& forall|other: Double| #[trigger]
                of_format(format, other) && other is Finite ==> no_nearer(
                    other,
                    value,
                    exact,
                )
        },
    }
}

pub(crate) proof fn lemma_zero_times(value: real)
    ensures
        0real * value == 0real,
{
    assert(0real * value == 0real) by (nonlinear_arith);
}

pub(crate) proof fn lemma_scale_positive(exponent: int)
    ensures
        scale(exponent) > 0real,
{
    if exponent >= 0 {
        lemma_pow2_pos(exponent as nat);
    } else {
        lemma_pow2_pos((-exponent) as nat);
        let d = pow2((-exponent) as nat) as int as real;
        assert(1real / d > 0real) by (nonlinear_arith)
            requires
                d > 0real,
        ;
    }
}

/// The product of integers, as a product of reals.
pub(crate) proof fn lemma_real_product(a: int, b: int)
    ensures
        (a * b) as real == a as real * (b as real),
{
    assert((a * b) as real == a as real * (b as real)) by (nonlinear_arith);
}

pub(crate) proof fn lemma_scale_up(exponent: int, up: nat)
    ensures
        scale(exponent + up) == scale(exponent) * (pow2(up) as int as real),
{
    let k = pow2(up) as int as real;
    lemma_pow2_pos(up);
    if exponent >= 0 {
        lemma_pow2_adds(exponent as nat, up);
        lemma_real_product(pow2(exponent as nat) as int, pow2(up) as int);
    } else {
        let n = (-exponent) as nat;
        let d = pow2(n) as int as real;
        lemma_pow2_pos(n);
        if exponent + up >= 0 {
            let rest = (exponent + up) as nat;
            let r = pow2(rest) as int as real;
            lemma_pow2_adds(rest, n);
            lemma_real_product(pow2(rest) as int, pow2(n) as int);
            assert(r == (1real / d) * k) by (nonlinear_arith)
                requires
                    k == r * d,
                    d > 0real,
            ;
        } else {
            let rest = (-(exponent + up)) as nat;
            let r = pow2(rest) as int as real;
            lemma_pow2_pos(rest);
            lemma_pow2_adds(rest, up);
            lemma_real_product(pow2(rest) as int, pow2(up) as int);
            assert(1real / r == (1real / d) * k) by (nonlinear_arith)
                requires
                    d == r * k,
                    r > 0real,
                    k > 0real,
            ;
        }
    }
}

/// Powers of two multiply by adding their exponents.
pub proof fn law_scale_product(a: int, b: int)
    ensures
        scale(a + b) == scale(a) * scale(b),
{
    if b >= 0 {
        lemma_scale_up(a, b as nat);
    } else {
        let n = (-b) as nat;
        let d = pow2(n) as int as real;
        lemma_pow2_pos(n);
        lemma_scale_up(a + b, n);
        let s = scale(a + b);
        assert(s == (s * d) * (1real / d)) by (nonlinear_arith)
            requires
                d > 0real,
        ;
    }
}

/// The digits that a format keeps of a size.
spec fn kept_of(format: Format, size: nat, exponent: int, more: bool) -> nat {
    let places = excess(format, size, exponent);
    if places <= 0 {
        size * pow2((-places) as nat)
    } else {
        shortened(size, places as nat, more)
    }
}

/// Whether a size of units of two to the power of `exponent` is what is exact, or falls short of
/// it by less than one if there is more.
spec fn counts(size: nat, exponent: int, more: bool, exact: real) -> bool {
    let unit = scale(exponent);
    if more {
        size as int as real * unit < exact < (size + 1) as int as real * unit
    } else {
        exact == size as int as real * unit
    }
}

proof fn lemma_kept(format: Format, size: nat, exponent: int, more: bool, exact: real)
    requires
        size > 0,
        counts(size, exponent, more, exact),
        more ==> length(size) > format.digits(),
    ensures
        ({
            let last = exponent + excess(format, size, exponent);
            let unit = scale(last);
            let kept = kept_of(format, size, exponent, more);
            let near = kept as int as real * unit;
            &&& unit > 0real
            &&& last >= format.lowest()
            &&& kept <= pow2(format.digits() as nat)
            &&& 2real * near <= 2real * exact + unit
            &&& 2real * exact <= 2real * near + unit
            &&& 2real * exact == 2real * near + unit ==> kept % 2 == 0
            &&& 2real * near == 2real * exact + unit ==> kept % 2 == 0
            &&& last > format.lowest() ==> exact >= pow2((format.digits() - 1) as nat) as int as real
                * unit
        }),
{
    let digits = format.digits() as nat;
    let places = excess(format, size, exponent);
    let last = exponent + places;
    let unit = scale(last);
    let small = scale(exponent);
    let kept = kept_of(format, size, exponent, more);
    let half = pow2((digits - 1) as nat);
    let first = pow2((length(size) - 1) as nat);
    lemma_scale_positive(exponent);
    lemma_scale_positive(last);
    lemma_length(size);
    let x = size as int as real;
    let k = kept as int as real;
    if places <= 0 {
        let up = (-places) as nat;
        let f = pow2(up) as int as real;
        lemma_shifted_up(size, up, digits);
        lemma_scale_up(last, up);
        lemma_real_product(size as int, pow2(up) as int);
        assert(k * unit == x * small) by (nonlinear_arith)
            requires
                k == x * f,
                small == unit * f,
        ;
        if last > format.lowest() {
            lemma_pow2_adds((length(size) - 1) as nat, up);
            assert(half <= kept) by (nonlinear_arith)
                requires
                    half == first * pow2(up),
                    kept == size * pow2(up),
                    first <= size,
            ;
            let h = half as int as real;
            assert(h * unit <= k * unit) by (nonlinear_arith)
                requires
                    h <= k,
                    unit > 0real,
            ;
        }
    } else {
        let down = places as nat;
        let p = pow2(down) as int as real;
        lemma_scale_up(exponent, down);
        lemma_shortened_bound(size, down, more, digits);
        law_shortened_is_nearest(size, down, more);
        lemma_pow2_pos(down);
        lemma_real_product(kept as int, pow2(down) as int);
        let add = if more {
            1real
        } else {
            0real
        };
        // In units of the size.
        assert(2real * (k * p) <= 2real * x + p);
        assert(2real * (x + add) <= 2real * (k * p) + p);
        assert(2real * (k * unit) == (2real * (k * p)) * small) by (nonlinear_arith)
            requires
                unit == small * p,
        ;
        assert(unit == p * small) by (nonlinear_arith)
            requires
                unit == small * p,
        ;
        assert((2real * (k * p)) * small <= 2real * (x * small) + p * small) by (nonlinear_arith)
            requires
                2real * (k * p) <= 2real * x + p,
                small > 0real,
        ;
        assert(2real * ((x + add) * small) <= (2real * (k * p)) * small + p * small)
            by (nonlinear_arith)
            requires
                2real * (x + add) <= 2real * (k * p) + p,
                small > 0real,
        ;
        if !more && 2real * exact == 2real * (k * unit) + unit {
            assert(2real * x == 2real * (k * p) + p) by (nonlinear_arith)
                requires
                    2real * (x * small) == (2real * (k * p)) * small + p * small,
                    small > 0real,
            ;
            assert(2 * size == 2 * (kept * pow2(down)) + pow2(down));
        }
        if 2real * (k * unit) == 2real * exact + unit {
            assert(2real * (k * p) == 2real * x + p && !more) by (nonlinear_arith)
                requires
                    (2real * (k * p)) * small == 2real * exact + p * small,
                    more ==> exact > x * small,
                    !more ==> exact == x * small,
                    2real * (k * p) <= 2real * x + p,
                    small > 0real,
            ;
            assert(2 * (kept * pow2(down)) == 2 * size + pow2(down));
        }
        if last > format.lowest() {
            lemma_pow2_adds((digits - 1) as nat, down);
            lemma_real_product(half as int, pow2(down) as int);
            let h = half as int as real;
            assert(h * unit <= x * small) by (nonlinear_arith)
                requires
                    h * p <= x,
                    unit == small * p,
                    small > 0real,
            ;
        }
    }
}

proof fn lemma_scale_grows(low: int, high: int)
    requires
        low <= high,
    ensures
        0real < scale(low) <= scale(high),
        low < high ==> 2real * scale(low) <= scale(high),
{
    let up = (high - low) as nat;
    let f = pow2(up) as int as real;
    lemma_scale_positive(low);
    lemma_scale_up(low, up);
    lemma_pow2_pos(up);
    let a = scale(low);
    assert(a <= a * f) by (nonlinear_arith)
        requires
            a > 0real,
            f >= 1real,
    ;
    if low < high {
        lemma_pow2_monotonic(1, up);
        lemma2_to64();
        assert(2real * a <= a * f) by (nonlinear_arith)
            requires
                a > 0real,
                f >= 2real,
        ;
    }
}

/// No whole number of units is nearer than the one within half a unit.
proof fn lemma_multiples(kept: int, other: int, unit: real, exact: real)
    requires
        unit > 0real,
        2real * (kept as real * unit) <= 2real * exact + unit,
        2real * exact <= 2real * (kept as real * unit) + unit,
    ensures
        distance(kept as real * unit, exact) <= distance(other as real * unit, exact),
        other != kept && distance(kept as real * unit, exact) == distance(
            other as real * unit,
            exact,
        ) ==> 2real * (kept as real * unit) == 2real * exact + unit || 2real * exact == 2real * (
        kept as real * unit) + unit,
{
    let k = kept as real;
    let o = other as real;
    assert(other >= kept + 1 ==> o * unit >= k * unit + unit) by (nonlinear_arith)
        requires
            other >= kept + 1 ==> o >= k + 1real,
            unit > 0real,
    ;
    assert(other <= kept - 1 ==> o * unit <= k * unit - unit) by (nonlinear_arith)
        requires
            other <= kept - 1 ==> o <= k - 1real,
            unit > 0real,
    ;
}

proof fn lemma_no_nearer(format: Format, kept: nat, last: int, exact: real, other: Double)
    requires
        of_format(format, other),
        other is Finite,
        exact >= 0real,
        last >= format.lowest(),
        2real * (kept as int as real * scale(last)) <= 2real * exact + scale(last),
        2real * exact <= 2real * (kept as int as real * scale(last)) + scale(last),
        last > format.lowest() ==> exact >= pow2((format.digits() - 1) as nat) as int as real
            * scale(last),
    ensures
        ({
            let near = kept as int as real * scale(last);
            &&& distance(near, exact) <= distance(worth(other), exact)
            &&& distance(near, exact) == distance(worth(other), exact) && worth(other) != near ==> {
                ||| 2real * near == 2real * exact + scale(last)
                ||| 2real * exact == 2real * near + scale(last)
            }
        }),
{
    let unit = scale(last);
    let m = other->mantissa as int;
    let e = other->exponent as int;
    let digits = format.digits() as nat;
    let half = pow2((digits - 1) as nat) as int;
    lemma_scale_positive(last);
    lemma_scale_positive(e);
    lemma_multiples(kept as int, 0, unit, exact);
    assert(0real * unit == 0real) by (nonlinear_arith);
    let size = m as real * scale(e);
    assert(size >= 0real) by (nonlinear_arith)
        requires
            size == m as real * scale(e),
            m as real >= 0real,
            scale(e) > 0real,
    ;
    if !other->Finite_negative {
        if e >= last {
            let up = (e - last) as nat;
            lemma_scale_up(last, up);
            lemma_real_product(m, pow2(up) as int);
            let f = pow2(up) as int as real;
            assert((m as real * f) * unit == m as real * (unit * f)) by (nonlinear_arith);
            lemma_multiples(kept as int, m * pow2(up), unit, exact);
        } else {
            lemma_scale_grows(e, last);
            lemma_pow2_unfold(digits);
            lemma_multiples(kept as int, half, unit, exact);
            let s = scale(e);
            let h = half as real;
            lemma_pow2_pos((digits - 1) as nat);
            assert(m as real * s < h * unit) by (nonlinear_arith)
                requires
                    m as real + 1real <= 2real * h,
                    2real * s <= unit,
                    s > 0real,
                    h >= 1real,
            ;
        }
    }
}

/// Rounding gives a number of the format that no other is nearer than, and an infinity only for
/// what is too large.
proof fn lemma_settled_is_nearest(
    format: Format,
    size: nat,
    exponent: int,
    more: bool,
    exact: real,
)
    requires
        size > 0,
        counts(size, exponent, more, exact),
        more ==> length(size) > format.digits(),
    ensures
        nearest_to(format, settled(format, false, size, exponent, more), exact),
        exact > 0real,
{
    let digits = format.digits() as nat;
    let last = exponent + excess(format, size, exponent);
    let unit = scale(last);
    let kept = kept_of(format, size, exponent, more);
    let k = kept as int as real;
    let full = pow2(digits) as int as real;
    let top = scale(format.highest());
    let value = settled(format, false, size, exponent, more);
    lemma_kept(format, size, exponent, more, exact);
    lemma_wide();
    lemma_pow2_monotonic(digits, 53);
    lemma_pow2_monotonic(1, (digits - 1) as nat);
    lemma2_to64();
    lemma_pow2_unfold(digits);
    lemma_scale_positive(exponent);
    lemma_scale_positive(format.highest());
    assert(exact > 0real) by (nonlinear_arith)
        requires
            exact >= size as int as real * scale(exponent),
            size as int as real >= 1real,
            scale(exponent) > 0real,
    ;
    law_settled_is_of_format(format, false, size, exponent, more);
    let bound = too_large(format);
    assert(2real * bound == (2real * full - 1real) * top) by (nonlinear_arith)
        requires
            bound == (full - 1real / 2real) * top,
    ;
    if last > format.highest() {
        lemma_scale_grows(format.highest(), last);
        let h = pow2((digits - 1) as nat) as int as real;
        assert(exact >= bound) by (nonlinear_arith)
            requires
                exact >= h * unit,
                2real * top <= unit,
                full == 2real * h,
                2real * bound == (2real * full - 1real) * top,
                top > 0real,
                h >= 1real,
        ;
        assert(value is Infinite);
    } else {
        lemma_scale_grows(last, format.highest());
        if kept < pow2(digits) {
            assert(worth(value) == k * unit);
            if last < format.highest() {
                assert(exact < bound) by (nonlinear_arith)
                    requires
                        2real * exact <= 2real * (k * unit) + unit,
                        k <= full - 1real,
                        2real * unit <= top,
                        unit > 0real,
                        full >= 2real,
                        2real * bound == (2real * full - 1real) * top,
                ;
            } else {
                assert(2real * (k * unit) + unit <= (2real * full - 1real) * unit)
                    by (nonlinear_arith)
                    requires
                        k <= full - 1real,
                        unit > 0real,
                ;
                if 2real * exact == 2real * bound {
                    assert(k == full - 1real) by (nonlinear_arith)
                        requires
                            2real * (k * unit) + unit >= (2real * full - 1real) * unit,
                            k <= full - 1real,
                            unit > 0real,
                    ;
                }
            }
        } else {
            lemma_scale_up(last, 1);
            assert(kept == pow2(digits));
            if last < format.highest() {
                assert(worth(value) == (kept / 2) as int as real * scale(last + 1));
                let h = (kept / 2) as int as real;
                assert(h * (unit * 2real) == k * unit) by (nonlinear_arith)
                    requires
                        k == 2real * h,
                ;
                assert(exact < bound) by (nonlinear_arith)
                    requires
                        2real * exact <= 2real * (full * unit) + unit,
                        2real * unit <= top,
                        unit > 0real,
                        full >= 2real,
                        2real * bound == (2real * full - 1real) * top,
                ;
            } else {
                assert(2real * (full * unit) - unit == (2real * full - 1real) * unit)
                    by (nonlinear_arith);
                assert(value is Infinite);
            }
        }
    }
    if value is Finite {
        assert forall|other: Double| #[trigger]
            of_format(format, other) && other is Finite implies no_nearer(
            other,
            value,
            exact,
        ) by {
            lemma_no_nearer(format, kept, last, exact, other);
        }
    }
}

proof fn lemma_too_large(format: Format)
    ensures
        too_large(format) > 0real,
{
    let full = pow2(format.digits() as nat) as int as real;
    lemma_pow2_pos(format.digits() as nat);
    lemma_scale_positive(format.highest());
    let top = scale(format.highest());
    assert((full - 1real / 2real) * top > 0real) by (nonlinear_arith)
        requires
            full >= 1real,
            top > 0real,
    ;
}

/// What is nearest on one side of zero is nearest, turned round, on the other.
proof fn lemma_mirrored(format: Format, value: Double, exact: real)
    requires
        nearest_to(format, value, exact),
    ensures
        nearest_to(format, value.negated(), 0real - exact),
{
    if value is Finite {
        assert forall|other: Double| #[trigger]
            of_format(format, other) && other is Finite implies no_nearer(
            other,
            value.negated(),
            0real - exact,
        ) by {
            assert(of_format(format, other.negated()));
            assert(no_nearer(other.negated(), value, exact));
        }
    }
}

/// Zero is nearest to zero.
proof fn lemma_zero_is_nearest(format: Format, value: Double)
    requires
        of_format(format, value),
        value is Finite,
        value->mantissa == 0,
    ensures
        nearest_to(format, value, 0real),
{
    lemma_too_large(format);
    let unit = scale(value->exponent as int);
    assert(0real * unit == 0real) by (nonlinear_arith);
    assert forall|other: Double| #[trigger]
        of_format(format, other) && other is Finite implies no_nearer(other, value, 0real) by {}
}

/// A size settles to the nearest number on the side of zero that it is counted on.
proof fn lemma_settled(
    format: Format,
    negative: bool,
    size: nat,
    exponent: int,
    more: bool,
    exact: real,
)
    requires
        size == 0 ==> exact == 0real,
        size > 0 ==> counts(size, exponent, more, exact),
        more ==> length(size) > format.digits(),
    ensures
        ({
            let value = settled(format, negative, size, exponent, more);
            &&& nearest_to(
                format,
                value,
                if negative {
                    0real - exact
                } else {
                    exact
                },
            )
            &&& value is Finite ==> value->Finite_negative == negative
            &&& value is Infinite ==> value->Infinite_negative == negative
        }),
{
    let value = settled(format, false, size, exponent, more);
    if size == 0 {
        law_settled_is_of_format(format, negative, size, exponent, more);
        lemma_zero_is_nearest(format, settled(format, negative, size, exponent, more));
    } else {
        lemma_settled_is_nearest(format, size, exponent, more, exact);
        lemma_mirrored(format, value, exact);
    }
}

proof fn lemma_gathered(all_negative: bool, total: int, exponent: int)
    ensures
        nearest_to(
            Format::Double,
            gathered(all_negative, total, exponent),
            total as real * scale(exponent),
        ),
        total == 0 ==> (gathered(all_negative, total, exponent) matches Double::Finite {
            negative,
            mantissa,
            ..
        } && negative == all_negative && mantissa == 0),
{
    let unit = scale(exponent);
    let exact = total as real * unit;
    assert(total == 0 ==> exact == 0real) by (nonlinear_arith)
        requires
            exact == total as real * unit,
            total == 0 ==> total as real == 0real,
    ;
    assert((-total) as real * unit == 0real - exact) by (nonlinear_arith)
        requires
            exact == total as real * unit,
            (-total) as real == 0real - total as real,
    ;
    if total == 0 {
        lemma_wide();
        lemma_settled(Format::Double, all_negative, 0, exponent, false, 0real);
    } else if total < 0 {
        lemma_settled(Format::Double, true, (-total) as nat, exponent, false, 0real - exact);
    } else {
        lemma_settled(Format::Double, false, total as nat, exponent, false, exact);
    }
}

/// What a number is worth, counted in units of a lower exponent.
proof fn lemma_worth(value: Double, low: int)
    requires
        value is Finite,
        low <= value->exponent,
    ensures
        worth(value) == (signed(value->Finite_negative, value->mantissa) * pow2(
            (value->exponent - low) as nat,
        )) as real * scale(low),
{
    let up = (value->exponent - low) as nat;
    let f = pow2(up) as int as real;
    let m = value->mantissa as int;
    let unit = scale(low);
    lemma_scale_up(low, up);
    lemma_real_product(m, pow2(up) as int);
    lemma_real_product(-m, pow2(up) as int);
    assert((m as real * f) * unit == m as real * (unit * f)) by (nonlinear_arith);
    assert(((-m) as real * f) * unit == 0real - m as real * (unit * f)) by (nonlinear_arith)
        requires
            (-m) as real == 0real - m as real,
    ;
}

/// A sum is the nearest number to the sum of what the numbers are worth. A sum of zero is
/// negative only if both are.
pub proof fn law_sum(a: Double, b: Double)
    requires
        a is Finite,
        b is Finite,
    ensures
        nearest_to(Format::Double, a.plus(b), worth(a) + worth(b)),
        worth(a) + worth(b) == 0real ==> (a.plus(b) matches Double::Finite {
            negative,
            mantissa,
            ..
        } && mantissa == 0 && (negative <==> a->Finite_negative && b->Finite_negative)),
{
    let low = lower(a->exponent as int, b->exponent as int);
    let x = signed(a->Finite_negative, a->mantissa) * pow2((a->exponent - low) as nat);
    let y = signed(b->Finite_negative, b->mantissa) * pow2((b->exponent - low) as nat);
    let unit = scale(low);
    lemma_worth(a, low);
    lemma_worth(b, low);
    lemma_scale_positive(low);
    lemma_gathered(a->Finite_negative && b->Finite_negative, x + y, low);
    assert((x + y) as real * unit == x as real * unit + y as real * unit) by (nonlinear_arith)
        requires
            (x + y) as real == x as real + y as real,
    ;
    assert((x + y) as real * unit == 0real ==> x + y == 0) by (nonlinear_arith)
        requires
            unit > 0real,
            (x + y) as real == 0real ==> x + y == 0,
    ;
}

/// A difference is the nearest number to the difference of what the numbers are worth.
pub proof fn law_difference(a: Double, b: Double)
    requires
        a is Finite,
        b is Finite,
    ensures
        nearest_to(Format::Double, a.minus(b), worth(a) - worth(b)),
        worth(b.negated()) == 0real - worth(b),
        b.negated().negated() == b,
{
    law_sum(a, b.negated());
}

/// A product is the nearest number to the product of what the numbers are worth, negative where
/// their signs differ.
pub proof fn law_product(a: Double, b: Double)
    requires
        a is Finite,
        b is Finite,
    ensures
        nearest_to(Format::Double, a.times(b), worth(a) * worth(b)),
        a.times(b) is Finite ==> (a.times(b)->Finite_negative <==> a->Finite_negative
            != b->Finite_negative),
{
    let m1 = a->mantissa as int;
    let m2 = b->mantissa as int;
    let s1 = scale(a->exponent as int);
    let s2 = scale(b->exponent as int);
    let x = m1 as real;
    let y = m2 as real;
    law_scale_product(a->exponent as int, b->exponent as int);
    lemma_real_product(m1, m2);
    let exact = (x * s1) * (y * s2);
    assert(exact == (x * y) * (s1 * s2)) by (nonlinear_arith)
        requires
            exact == (x * s1) * (y * s2),
    ;
    assert(m1 * m2 == 0 ==> exact == 0real) by (nonlinear_arith)
        requires
            exact == (x * y) * (s1 * s2),
            m1 * m2 == 0 ==> x * y == 0real,
    ;
    lemma_settled(
        Format::Double,
        a->Finite_negative != b->Finite_negative,
        (m1 * m2) as nat,
        a->exponent + b->exponent,
        false,
        exact,
    );
    let p = x * s1;
    let q = y * s2;
    assert((0real - p) * q == 0real - p * q) by (nonlinear_arith);
    assert(p * (0real - q) == 0real - p * q) by (nonlinear_arith);
    assert((0real - p) * (0real - q) == p * q) by (nonlinear_arith);
}

/// A quotient in a format is the nearest number to the quotient of what the numbers are worth,
/// negative where their signs differ. Over zero, a number is infinite and zero is none.
pub proof fn law_quotient(format: Format, a: Double, b: Double)
    requires
        a is Finite,
        b is Finite,
    ensures
        ({
            let value = quotient(format, a, b);
            let negative = a->Finite_negative != b->Finite_negative;
            &&& b->mantissa != 0 ==> nearest_to(format, value, worth(a) / worth(b))
            &&& b->mantissa == 0 && a->mantissa == 0 ==> value is Nan
            &&& b->mantissa == 0 && a->mantissa != 0 ==> value is Infinite
            &&& value is Finite ==> value->Finite_negative == negative
            &&& value is Infinite ==> value->Infinite_negative == negative
        }),
{
    if b->mantissa != 0 {
        let m1 = a->mantissa as nat;
        let m2 = b->mantissa as nat;
        let e1 = a->exponent as int;
        let e2 = b->exponent as int;
        let dividend = m1 * pow2(128);
        let size = dividend / m2;
        let rest = dividend % m2;
        let x = m1 as int as real;
        let y = m2 as int as real;
        let s1 = scale(e1);
        let s2 = scale(e2);
        let unit = scale(e1 - e2 - 128);
        let f = pow2(128) as int as real;
        let exact = (x * s1) / (y * s2);
        lemma_wide();
        lemma_scale_positive(e1);
        lemma_scale_positive(e2);
        lemma_scale_positive(e1 - e2 - 128);
        lemma_scale_up(e1 - e2 - 128, 128);
        law_scale_product(e1 - e2, e2);
        lemma_fundamental_div_mod(dividend as int, m2 as int);
        lemma_mod_pos_bound(dividend as int, m2 as int);
        lemma_real_product(m1 as int, pow2(128) as int);
        lemma_real_product(m2 as int, size as int);
        let n = size as int as real;
        let r = rest as int as real;
        let s = scale(e1 - e2);
        assert(y * s2 > 0real) by (nonlinear_arith)
            requires
                y > 0real,
                s2 > 0real,
        ;
        // What is exact, times the divisor, in units of the quotient.
        assert(exact * y == (n * y + r) * unit) by (nonlinear_arith)
            requires
                exact == (x * s1) / (y * s2),
                y * s2 > 0real,
                s2 > 0real,
                s1 == s * s2,
                s == unit * f,
                x * f == y * n + r,
        ;
        assert(r == 0real ==> exact == n * unit) by (nonlinear_arith)
            requires
                exact * y == (n * y + r) * unit,
                y > 0real,
        ;
        assert(r > 0real ==> n * unit < exact < (n + 1real) * unit) by (nonlinear_arith)
            requires
                exact * y == (n * y + r) * unit,
                0real <= r < y,
                y > 0real,
                unit > 0real,
        ;
        if m1 > 0 {
            assert(size >= pow2(63)) by (nonlinear_arith)
                requires
                    dividend == m1 * pow2(128),
                    m1 >= 1,
                    dividend == m2 * size + rest,
                    rest < m2,
                    0 < m2 < pow2(64),
                    pow2(64) == 0x1_0000_0000_0000_0000,
                    pow2(63) == 0x8000_0000_0000_0000,
                    pow2(128) == 0x1_0000_0000_0000_0000_0000_0000_0000_0000,
                    size >= 0,
            ;
            lemma_length_bound(size, 63);
        } else {
            assert(dividend == 0) by (nonlinear_arith)
                requires
                    dividend == m1 * pow2(128),
                    m1 == 0,
            ;
            assert(size == 0 && rest == 0) by (nonlinear_arith)
                requires
                    0 == m2 * size + rest,
                    m2 > 0,
                    size >= 0,
                    rest >= 0,
            ;
            assert(0real * unit == 0real) by (nonlinear_arith);
        }
        lemma_settled(
            format,
            a->Finite_negative != b->Finite_negative,
            size,
            e1 - e2 - 128,
            rest != 0,
            exact,
        );
        let p = x * s1;
        let q = y * s2;
        assert((0real - p) / q == 0real - p / q) by (nonlinear_arith)
            requires
                q > 0real,
        ;
        assert(p / (0real - q) == 0real - p / q) by (nonlinear_arith)
            requires
                q > 0real,
        ;
        assert((0real - p) / (0real - q) == p / q) by (nonlinear_arith)
            requires
                q > 0real,
        ;
    }
}

/// An integer is held as the nearest number.
pub proof fn law_whole(value: i64)
    ensures
        nearest_to(Format::Double, Double::whole(value), value as int as real),
{
    lemma_gathered(false, value as int, 0);
    lemma2_to64();
    let x = value as int as real;
    assert(x * 1real == x) by (nonlinear_arith);
}

/// Finite numbers compare by what they are worth.
pub proof fn law_order(a: Double, b: Double)
    requires
        a is Finite,
        b is Finite,
    ensures
        a.below(b) <==> worth(a) < worth(b),
        a.at_most(b) <==> worth(a) <= worth(b),
        a.same(b) <==> worth(a) == worth(b),
        a.lesser(b) == (if worth(a) < worth(b) {
            a
        } else {
            b
        }),
{
    let low = lower(a->exponent as int, b->exponent as int);
    let x = signed(a->Finite_negative, a->mantissa) * pow2((a->exponent - low) as nat);
    let y = signed(b->Finite_negative, b->mantissa) * pow2((b->exponent - low) as nat);
    let unit = scale(low);
    lemma_worth(a, low);
    lemma_worth(b, low);
    lemma_scale_positive(low);
    let p = x as real;
    let q = y as real;
    assert((p < q <==> p * unit < q * unit) && (p == q <==> p * unit == q * unit))
        by (nonlinear_arith)
        requires
            unit > 0real,
    ;
}

/// Where an operand is no number, nor is the result. Infinities take over, unless two of them
/// cancel or one is to be made up for by a zero, and divide everything finite to zero.
pub proof fn law_infinities(a: Double, b: Double, n: bool, k: bool)
    requires
        a is Finite,
    ensures
        ({
            let none = Double::Nan;
            let one = Double::Infinite { negative: n };
            let two = Double::Infinite { negative: k };
            let product = Double::Infinite { negative: n != a->Finite_negative };
            &&& none.plus(b) is Nan && b.plus(none) is Nan && none.minus(b) is Nan && b.minus(
                none,
            ) is Nan
            &&& none.times(b) is Nan && b.times(none) is Nan && none.over(b) is Nan && b.over(
                none,
            ) is Nan
            &&& !none.below(b) && !b.below(none) && !none.at_most(b) && !b.at_most(none)
            &&& !none.same(b) && !b.same(none) && none.negated() is Nan
            &&& none.lesser(b) == b && b.lesser(none) == b
            &&& one.plus(a) == one && a.plus(one) == one
            &&& one.plus(two) == (if n == k {
                one
            } else {
                none
            })
            &&& one.negated() == Double::Infinite { negative: !n }
            &&& one.times(two) == Double::Infinite { negative: n != k }
            &&& one.times(a) == (if a->mantissa == 0 {
                none
            } else {
                product
            }) && a.times(one) == one.times(a)
            &&& one.over(two) is Nan && one.over(a) == product
            &&& worth(a.over(one)) == 0real && a.over(one) is Finite && a.over(
                one,
            )->Finite_negative == (n != a->Finite_negative)
            &&& (one.below(a) <==> n) && (a.below(one) <==> !n) && !one.same(a)
            &&& (one.below(two) <==> n && !k) && (one.same(two) <==> n == k)
        }),
{
    lemma_zero_times(scale(-1074));
}

/// An integer in single precision is the nearest number there, and not zero unless the integer
/// is.
pub proof fn law_narrowed(value: u64)
    ensures
        ({
            let narrow = settled(Format::Single, false, value as nat, 0, false);
            &&& nearest_to(Format::Single, narrow, value as int as real)
            &&& narrow is Finite && !narrow->Finite_negative
            &&& narrow->mantissa == 0 <==> value == 0
        }),
{
    let narrow = settled(Format::Single, false, value as nat, 0, false);
    let x = value as int as real;
    lemma2_to64();
    lemma_wide();
    assert(x * 1real == x) by (nonlinear_arith);
    lemma_settled(Format::Single, false, value as nat, 0, false, x);
    law_settled_is_of_format(Format::Single, false, value as nat, 0, false);
    if value > 0 {
        lemma_length(value as nat);
        lemma_length_bound(value as nat, 64);
        lemma_pow2_pos(23);
    }
}

/// The part of an animation that is over is, in single precision, the quotient of the times,
/// and one from the end on. Of no time at all there is no part.
pub proof fn law_part_over(elapsed: u64, duration: u64)
    ensures
        ({
            let e = settled(Format::Single, false, elapsed as nat, 0, false);
            let d = settled(Format::Single, false, duration as nat, 0, false);
            let one = Double::whole(1);
            let part = part_over(elapsed, duration);
            &&& duration == 0 && elapsed == 0 ==> part is Nan
            &&& duration == 0 && elapsed > 0 ==> part == one
            &&& duration > 0 ==> part is Finite && (nearest_to(
                Format::Single,
                part,
                worth(e) / worth(d),
            ) || part == one)
            &&& duration > 0 ==> worth(part) <= 1real && worth(one) == 1real
        }),
{
    let e = settled(Format::Single, false, elapsed as nat, 0, false);
    let d = settled(Format::Single, false, duration as nat, 0, false);
    let one = Double::whole(1);
    let ratio = quotient(Format::Single, e, d);
    law_narrowed(elapsed);
    law_narrowed(duration);
    law_quotient(Format::Single, e, d);
    lemma_one();
    if duration > 0 && ratio is Finite {
        law_order(one, ratio);
    }
}

/// One is worth one.
proof fn lemma_one()
    ensures
        Double::whole(1) is Finite,
        worth(Double::whole(1)) == 1real,
{
    lemma2_to64();
    lemma_wide();
    lemma_length_bound(1, 0);
    lemma_length_bound(1, 1);
    lemma_scale_up(-52, 52);
    assert(Double::whole(1) == Double::Finite {
        negative: false,
        mantissa: 0x10_0000_0000_0000,
        exponent: -52i32,
    });
    let s = scale(-52);
    let f = pow2(52) as int as real;
    assert(f * s == s * f) by (nonlinear_arith);
}

/// A number on the way is its start and the part of the way that is over, each operation
/// rounded; what is too large is held at the largest number on its side.
pub proof fn law_eased(from: Double, to: Double, elapsed: u64, duration: u64)
    ensures
        ({
            let sum = from.plus(to.minus(from).times(part_over(elapsed, duration)));
            let value = Double::eased(from, to, elapsed, duration);
            &&& sum is Nan ==> value is Nan
            &&& sum is Finite ==> value == sum
            &&& sum is Infinite ==> value is Finite && value->Finite_negative
                == sum->Infinite_negative && value->mantissa + 1 == pow2(53) && value->exponent
                == Format::Double.highest()
        }),
{
    lemma_wide();
}

/// A finite number is worth nothing only if it has no digits.
proof fn lemma_worth_of_zero(value: Double)
    requires
        value is Finite,
    ensures
        worth(value) == 0real <==> value->mantissa == 0,
{
    let s = scale(value->exponent as int);
    let m = value->mantissa as int as real;
    lemma_scale_positive(value->exponent as int);
    assert(m * s == 0real <==> m == 0real) by (nonlinear_arith)
        requires
            s > 0real,
    ;
}

/// What is held between two zeros is zero or no number, and is no number over zero.
proof fn lemma_held_between_zeros(value: Double, low: Double, high: Double, rest: Double)
    requires
        low is Finite && low->mantissa == 0,
        high is Finite && high->mantissa == 0,
        rest is Finite && rest->mantissa == 0,
    ensures
        clamped(value, low, high).over(rest) is Nan,
{
    lemma_worth_of_zero(low);
    lemma_worth_of_zero(high);
    if value is Finite {
        lemma_worth_of_zero(value);
        law_order(value, low);
        law_order(high, value);
    }
}

/// In the middle, no focal point can be told while level one is shown: it takes the quotient of
/// two zeros.
pub proof fn law_nothing_to_centre_at_level_one(
    zoom: OutputZoomState<Double>,
    output: Output,
    now: u64,
)
    requires
        zoom.movement is Centered,
        zoom.level_at(now).same(Double::whole(1)),
    ensures
        zoom.refocused(output, now).focal_point.x is Nan,
        zoom.refocused(output, now).focal_point.y is Nan,
{
    let one = Double::whole(1);
    let level = zoom.level_at(now);
    let rest = one.minus(level);
    let w = Double::whole(output.size.w as i64);
    let h = Double::whole(output.size.h as i64);
    lemma_one();
    lemma_whole_is_finite(output.size.w as i64);
    lemma_whole_is_finite(output.size.h as i64);
    law_order(level, one);
    law_sum(one, level.negated());
    assert(rest is Finite && rest->mantissa == 0);
    assert(w->mantissa as nat * 0 == 0);
    assert(h->mantissa as nat * 0 == 0);
    let p = zoom.pointer_position;
    let zero = Double::whole(0);
    lemma_held_between_zeros(
        w.over(Double::whole(2)).minus(p.x.times(level)),
        w.times(rest),
        zero,
        rest,
    );
    lemma_held_between_zeros(
        h.over(Double::whole(2)).minus(p.y.times(level)),
        h.times(rest),
        zero,
        rest,
    );
}

} // verus!
