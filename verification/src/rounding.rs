//! Rounding to a binary format.
//!
//! A size that takes more binary digits than a format holds is rounded to the nearest size
//! that the format does hold, and to the one with an even last digit where two are equally
//! near.
use vstd::arithmetic::div_mod::{
    lemma_fundamental_div_mod, lemma_fundamental_div_mod_converse, lemma_mod_pos_bound,
};
use vstd::arithmetic::power2::{
    lemma2_to64, lemma_pow2_adds, lemma_pow2_pos, lemma_pow2_strictly_increases,
    lemma_pow2_unfold, pow2,
};
use vstd::prelude::*;

verus! {

/// A binary format of IEEE 754.
#[derive(Clone, Copy, Debug, PartialEq, Eq, Structural)]
pub enum Format {
    /// binary32.
    Single,
    /// binary64.
    Double,
}

impl Format {
    /// How many binary digits a number has.
    pub open spec fn digits(self) -> int {
        match self {
            Format::Single => 24,
            Format::Double => 53,
        }
    }

    /// The lowest exponent of a number's last digit.
    pub open spec fn lowest(self) -> int {
        match self {
            Format::Single => -149,
            Format::Double => -1074,
        }
    }

    /// The highest exponent of a number's last digit.
    pub open spec fn highest(self) -> int {
        match self {
            Format::Single => 104,
            Format::Double => 971,
        }
    }

    /// [`digits`](Format::digits).
    pub(crate) fn digit_count(self) -> (result: u32)
        ensures
            result == self.digits(),
    {
        match self {
            Format::Single => 24,
            Format::Double => 53,
        }
    }

    /// [`lowest`](Format::lowest).
    pub(crate) fn lowest_exponent(self) -> (result: i32)
        ensures
            result == self.lowest(),
    {
        match self {
            Format::Single => -149,
            Format::Double => -1074,
        }
    }

    /// [`highest`](Format::highest).
    pub(crate) fn highest_exponent(self) -> (result: i32)
        ensures
            result == self.highest(),
    {
        match self {
            Format::Single => 104,
            Format::Double => 971,
        }
    }
}

/// How many binary digits a size has.
pub open spec fn length(size: nat) -> nat
    decreases size,
{
    if size == 0 {
        0
    } else {
        1 + length(size / 2)
    }
}

/// How many of the last digits of a size do not fit into the format, where the size counts
/// units of two to the power of `exponent`. Below zero, there is room for as many more.
pub open spec fn excess(format: Format, size: nat, exponent: int) -> int {
    let over = length(size) - format.digits();
    let under = format.lowest() - exponent;
    if over < under {
        under
    } else {
        over
    }
}

/// A size without its last `places` digits, rounded to nearest and to even where it lies
/// halfway. `more` tells that the size is exceeded, by less than one.
pub open spec fn shortened(size: nat, places: nat, more: bool) -> nat {
    let unit = pow2(places);
    let whole = size / unit;
    let part = size % unit;
    if 2 * part > unit || (2 * part == unit && (more || whole % 2 == 1)) {
        whole + 1
    } else {
        whole
    }
}

pub(crate) proof fn lemma_pow2_monotonic(low: nat, high: nat)
    requires
        low <= high,
    ensures
        0 < pow2(low) <= pow2(high),
{
    lemma_pow2_pos(low);
    if low < high {
        lemma_pow2_strictly_increases(low, high);
    }
}

/// A size other than zero has its first digit at the place that its length tells.
pub(crate) proof fn lemma_length(size: nat)
    ensures
        size < pow2(length(size)),
        size > 0 ==> length(size) > 0 && pow2((length(size) - 1) as nat) <= size,
    decreases size,
{
    lemma2_to64();
    if size > 0 {
        let rest = size / 2;
        lemma_length(rest);
        lemma_pow2_unfold(length(size));
        if rest > 0 {
            lemma_pow2_unfold(length(rest));
        }
    }
}

/// A size below a power of two is no longer than the exponent, and one from the power on is
/// longer.
pub(crate) proof fn lemma_length_bound(size: nat, bound: nat)
    ensures
        size < pow2(bound) ==> length(size) <= bound,
        size >= pow2(bound) ==> length(size) > bound,
{
    lemma_length(size);
    if size < pow2(bound) {
        if length(size) > bound {
            lemma_pow2_monotonic(bound, (length(size) - 1) as nat);
        }
    } else {
        if length(size) <= bound {
            lemma_pow2_monotonic(length(size), bound);
        }
    }
}

/// Further digits make a size longer by as many.
pub(crate) proof fn lemma_length_shifted(size: nat, places: nat, rest: nat)
    requires
        size > 0,
        rest < pow2(places),
    ensures
        length(size * pow2(places) + rest) == length(size) + places,
{
    let unit = pow2(places);
    let long = length(size);
    let high = pow2(long);
    let low = pow2((long - 1) as nat);
    lemma_length(size);
    lemma_pow2_adds(long, places);
    lemma_pow2_adds((long - 1) as nat, places);
    let all = size * unit + rest;
    assert(low * unit <= all < high * unit) by (nonlinear_arith)
        requires
            low <= size,
            size + 1 <= high,
            rest < unit,
            all == size * unit + rest,
    ;
    lemma_length_bound(all, long + places);
    lemma_length_bound(all, (long - 1 + places) as nat);
}

/// Two to the power of `places`.
pub(crate) fn power(places: u32) -> (result: u128)
    requires
        places < 128,
    ensures
        result == pow2(places as nat),
{
    let mut result: u128 = 1;
    let mut count: u32 = 0;
    proof {
        lemma2_to64();
    }
    while count < places
        invariant
            count <= places < 128,
            result == pow2(count as nat),
        decreases places - count,
    {
        proof {
            lemma_pow2_unfold((count + 1) as nat);
            lemma_wide();
            lemma_pow2_monotonic((count + 1) as nat, 127);
        }
        result = result * 2;
        count = count + 1;
    }
    result
}

/// The larger powers of two that bound the sizes at hand.
pub(crate) proof fn lemma_wide()
    ensures
        pow2(52) == 0x10_0000_0000_0000,
        pow2(53) == 0x20_0000_0000_0000,
        pow2(63) == 0x8000_0000_0000_0000,
        pow2(64) == 0x1_0000_0000_0000_0000,
        pow2(65) == 0x2_0000_0000_0000_0000,
        pow2(124) == 0x1000_0000_0000_0000_0000_0000_0000_0000,
        pow2(125) == 0x2000_0000_0000_0000_0000_0000_0000_0000,
        pow2(126) == 0x4000_0000_0000_0000_0000_0000_0000_0000,
        pow2(127) == 0x8000_0000_0000_0000_0000_0000_0000_0000,
        pow2(128) == 0x1_0000_0000_0000_0000_0000_0000_0000_0000,
{
    lemma2_to64();
    lemma_pow2_adds(20, 32);
    lemma_pow2_unfold(53);
    lemma_pow2_unfold(64);
    lemma_pow2_unfold(65);
    lemma_pow2_adds(64, 64);
    lemma_pow2_unfold(128);
    lemma_pow2_unfold(127);
    lemma_pow2_unfold(126);
    lemma_pow2_unfold(125);
}

/// [`length`].
pub(crate) fn length_of(size: u128) -> (result: u32)
    ensures
        result == length(size as nat),
        result <= 128,
{
    let mut rest: u128 = size;
    let mut count: u32 = 0;
    proof {
        lemma_wide();
        lemma_length_bound(size as nat, 128);
    }
    while rest > 0
        invariant
            length(size as nat) <= 128,
            count + length(rest as nat) == length(size as nat),
        decreases rest,
    {
        rest = rest / 2;
        count = count + 1;
    }
    count
}

/// [`shortened`].
pub(crate) fn shorten(size: u128, places: i64, more: bool) -> (result: u128)
    requires
        places > 0,
    ensures
        result == shortened(size as nat, places as nat, more),
{
    proof {
        lemma_wide();
        lemma_pow2_unfold(places as nat);
    }
    if places > 128 {
        proof {
            let unit = pow2(places as nat);
            lemma_pow2_monotonic(129, places as nat);
            lemma_pow2_unfold(129);
            lemma_fundamental_div_mod_converse(size as int, unit as int, 0, size as int);
        }
        0
    } else {
        let half: u128 = power((places - 1) as u32);
        let whole: u128;
        let part: u128;
        if places == 128 {
            proof {
                lemma_fundamental_div_mod_converse(
                    size as int,
                    pow2(128) as int,
                    0,
                    size as int,
                );
            }
            whole = 0;
            part = size;
        } else {
            let unit: u128 = power(places as u32);
            proof {
                lemma_pow2_monotonic(1, places as nat);
                lemma2_to64();
            }
            whole = size / unit;
            part = size % unit;
            assert(whole <= u128::MAX / 2) by (nonlinear_arith)
                requires
                    whole == size / unit,
                    unit >= 2,
            ;
        }
        if part > half || (part == half && (more || whole % 2 == 1)) {
            whole + 1
        } else {
            whole
        }
    }
}

/// What is cut off of a size decides the rounding only by whether it is there at all, as long
/// as there are digits left to shorten.
pub(crate) proof fn lemma_shortened_in_steps(size: nat, first: nat, rest: nat, places: nat, more: bool)
    requires
        rest < pow2(first),
        places > 0,
    ensures
        shortened(size * pow2(first) + rest, first + places, more) == shortened(
            size,
            places,
            more || rest > 0,
        ),
{
    let small = pow2(first);
    let unit = pow2(places);
    let all = size * small + rest;
    lemma_pow2_adds(first, places);
    lemma_pow2_pos(first);
    lemma_pow2_pos(places);
    lemma_pow2_unfold(places);
    let whole = size / unit;
    let part = size % unit;
    lemma_fundamental_div_mod(size as int, unit as int);
    lemma_mod_pos_bound(size as int, unit as int);
    let low = part * small + rest;
    assert(all == whole * (small * unit) + low && low < small * unit && 0 < small * unit)
        by (nonlinear_arith)
        requires
            all == size * small + rest,
            size == unit * whole + part,
            part + 1 <= unit,
            rest < small,
            low == part * small + rest,
            0 < small,
            0 < unit,
    ;
    lemma_fundamental_div_mod_converse(
        all as int,
        (small * unit) as int,
        whole as int,
        low as int,
    );
    assert(2 * part > unit ==> 2 * low > small * unit) by (nonlinear_arith)
        requires
            low == part * small + rest,
            0 < small,
            0 <= rest,
    ;
    assert(2 * part == unit ==> 2 * low == small * unit + 2 * rest) by (nonlinear_arith)
        requires
            low == part * small + rest,
    ;
    let half = pow2((places - 1) as nat);
    assert(part < half ==> 2 * low < small * unit) by (nonlinear_arith)
        requires
            low == part * small + rest,
            unit == 2 * half,
            rest < small,
            part < half ==> part + 1 <= half,
            0 < small,
    ;
}

/// A shortened size is as near as its last digit allows: it differs from what was there by no
/// more than half of that digit's unit, and is even where it differs by exactly that.
pub proof fn law_shortened_is_nearest(size: nat, places: nat, more: bool)
    requires
        places > 0,
    ensures
        ({
            let unit = pow2(places);
            let kept = shortened(size, places, more);
            &&& 2 * (kept * unit) <= 2 * size + unit
            &&& 2 * (size + (if more { 1nat } else { 0 })) <= 2 * (kept * unit) + unit
            &&& !more && (2 * (kept * unit) == 2 * size + unit || 2 * size == 2 * (kept * unit)
                + unit) ==> kept % 2 == 0
        }),
{
    let unit = pow2(places);
    let whole = size / unit;
    lemma_pow2_pos(places);
    lemma_pow2_unfold(places);
    lemma_fundamental_div_mod(size as int, unit as int);
    lemma_mod_pos_bound(size as int, unit as int);
    assert(whole * unit == unit * whole && (whole + 1) * unit == unit * whole + unit)
        by (nonlinear_arith);
}

} // verus!
