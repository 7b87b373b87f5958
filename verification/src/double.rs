//! Numbers in double precision.
//!
//! The operations are those of IEEE 754 on binary64: each gives the number nearest to its exact
//! result, to even where two are equally near. Infinities stand for what is too large, and an
//! operation that has no result gives [`Double::Nan`].
use crate::binary::{
    divide, empty, finite_order, gathered, law_settled_by_value, law_settled_is_of_format,
    law_settled_keeps, lemma_shifted_up, lower, of_format, settle, settled, signed, sum, zero,
};
use crate::rounding::{
    lemma_length, lemma_length_bound, lemma_pow2_monotonic, lemma_wide, length, power, Format,
};
use crate::scalar::{Arith, Scalar};
use vstd::arithmetic::div_mod::lemma_fundamental_div_mod_converse;
use vstd::arithmetic::power2::{
    lemma2_to64, lemma_pow2_adds, lemma_pow2_pos, lemma_pow2_unfold, pow2,
};
use vstd::prelude::*;

verus! {

/// A number in double precision.
///
/// The numbers of the format have 53 digits in their mantissa, or the lowest exponent; those
/// that the operations give are of the format. Operations take other numbers too, by what they
/// stand for.
#[derive(Clone, Copy, Debug, PartialEq, Eq, Structural)]
pub enum Double {
    /// Not a number.
    Nan,
    /// Larger than every finite number, on one side or the other.
    Infinite { negative: bool },
    /// `mantissa` times two to the power of `exponent`, with a sign that zero has too.
    Finite { negative: bool, mantissa: u64, exponent: i32 },
}

/// The quotient in a format.
pub open spec fn quotient(format: Format, a: Double, b: Double) -> Double {
    match (a, b) {
        (Double::Nan, _) => Double::Nan,
        (_, Double::Nan) => Double::Nan,
        (Double::Infinite { .. }, Double::Infinite { .. }) => Double::Nan,
        (Double::Infinite { negative: n1 }, Double::Finite { negative: n2, .. }) => {
            Double::Infinite { negative: n1 != n2 }
        },
        (Double::Finite { negative: n1, .. }, Double::Infinite { negative: n2 }) => {
            zero(format, n1 != n2)
        },
        (
            Double::Finite { negative: n1, mantissa: m1, exponent: e1 },
            Double::Finite { negative: n2, mantissa: m2, exponent: e2 },
        ) => {
            if m2 == 0 {
                if m1 == 0 {
                    Double::Nan
                } else {
                    Double::Infinite { negative: n1 != n2 }
                }
            } else {
                // A hundred and twenty-eight binary places are more than the format keeps.
                let dividend = m1 as nat * pow2(128);
                settled(
                    format,
                    n1 != n2,
                    dividend / m2 as nat,
                    e1 - e2 - 128,
                    dividend % m2 as nat != 0,
                )
            }
        },
    }
}

/// How far `b` lies above `a`, neither of which is [`Double::Nan`]: the distance between finite
/// numbers is counted in units of the lower exponent.
pub open spec fn ahead(a: Double, b: Double) -> int {
    match (a, b) {
        (Double::Infinite { negative: n1 }, Double::Infinite { negative: n2 }) => {
            if n1 == n2 {
                0
            } else if n1 {
                1
            } else {
                -1
            }
        },
        (Double::Infinite { negative }, _) => if negative {
            1
        } else {
            -1
        },
        (_, Double::Infinite { negative }) => if negative {
            -1
        } else {
            1
        },
        (
            Double::Finite { negative: n1, mantissa: m1, exponent: e1 },
            Double::Finite { negative: n2, mantissa: m2, exponent: e2 },
        ) => {
            let low = lower(e1 as int, e2 as int);
            signed(n2, m2) * pow2((e2 - low) as nat) - signed(n1, m1) * pow2((e1 - low) as nat)
        },
        _ => 0,
    }
}

/// The digits in front of the point.
pub open spec fn cut_off(mantissa: u64, exponent: i32) -> nat {
    if exponent >= 0 {
        mantissa as nat * pow2(exponent as nat)
    } else {
        mantissa as nat / pow2((-exponent) as nat)
    }
}

/// The part of an animation that is over, in single precision and at most one.
pub open spec fn part_over(elapsed: u64, duration: u64) -> Double {
    let part = quotient(
        Format::Single,
        settled(Format::Single, false, elapsed as nat, 0, false),
        settled(Format::Single, false, duration as nat, 0, false),
    );
    if Double::whole(1).below(part) {
        Double::whole(1)
    } else {
        part
    }
}

/// The number, or the largest finite one on its side of zero in place of an infinity.
pub open spec fn bounded(value: Double) -> Double {
    match value {
        Double::Infinite { negative } => Double::Finite {
            negative,
            mantissa: 0x1f_ffff_ffff_ffff,
            exponent: 971,
        },
        _ => value,
    }
}

/// The number that stands for 64 bits: from the highest on, a sign, eleven bits of exponent
/// and 52 bits of mantissa.
pub open spec fn decoded(bits: u64) -> Double {
    let negative = bits >= 0x8000_0000_0000_0000;
    let field = bits / 0x10_0000_0000_0000 % 0x800;
    let fraction = bits % 0x10_0000_0000_0000;
    if field == 0x7ff {
        if fraction == 0 {
            Double::Infinite { negative }
        } else {
            Double::Nan
        }
    } else if field == 0 {
        Double::Finite { negative, mantissa: fraction, exponent: -1074i32 }
    } else {
        Double::Finite {
            negative,
            mantissa: (fraction + 0x10_0000_0000_0000) as u64,
            exponent: (field - 1075) as i32,
        }
    }
}

impl Arith for Double {
    open spec fn whole(value: i64) -> Self {
        gathered(false, value as int, 0)
    }

    open spec fn plus(self, other: Self) -> Self {
        match (self, other) {
            (Double::Nan, _) => Double::Nan,
            (_, Double::Nan) => Double::Nan,
            (Double::Infinite { negative: n1 }, Double::Infinite { negative: n2 }) => {
                if n1 == n2 {
                    self
                } else {
                    Double::Nan
                }
            },
            (Double::Infinite { .. }, _) => self,
            (_, Double::Infinite { .. }) => other,
            (
                Double::Finite { negative: n1, mantissa: m1, exponent: e1 },
                Double::Finite { negative: n2, mantissa: m2, exponent: e2 },
            ) => {
                let low = lower(e1 as int, e2 as int);
                gathered(
                    n1 && n2,
                    signed(n1, m1) * pow2((e1 - low) as nat) + signed(n2, m2) * pow2(
                        (e2 - low) as nat,
                    ),
                    low,
                )
            },
        }
    }

    open spec fn minus(self, other: Self) -> Self {
        self.plus(other.negated())
    }

    open spec fn times(self, other: Self) -> Self {
        match (self, other) {
            (Double::Nan, _) => Double::Nan,
            (_, Double::Nan) => Double::Nan,
            (Double::Infinite { negative: n1 }, Double::Infinite { negative: n2 }) => {
                Double::Infinite { negative: n1 != n2 }
            },
            (
                Double::Infinite { negative: n1 },
                Double::Finite { negative: n2, mantissa: m2, .. },
            ) => if m2 == 0 {
                Double::Nan
            } else {
                Double::Infinite { negative: n1 != n2 }
            },
            (
                Double::Finite { negative: n1, mantissa: m1, .. },
                Double::Infinite { negative: n2 },
            ) => if m1 == 0 {
                Double::Nan
            } else {
                Double::Infinite { negative: n1 != n2 }
            },
            (
                Double::Finite { negative: n1, mantissa: m1, exponent: e1 },
                Double::Finite { negative: n2, mantissa: m2, exponent: e2 },
            ) => settled(Format::Double, n1 != n2, m1 as nat * m2 as nat, e1 + e2, false),
        }
    }

    open spec fn over(self, other: Self) -> Self {
        quotient(Format::Double, self, other)
    }

    open spec fn negated(self) -> Self {
        match self {
            Double::Nan => Double::Nan,
            Double::Infinite { negative } => Double::Infinite { negative: !negative },
            Double::Finite { negative, mantissa, exponent } => Double::Finite {
                negative: !negative,
                mantissa,
                exponent,
            },
        }
    }

    open spec fn below(self, other: Self) -> bool {
        !(self is Nan) && !(other is Nan) && ahead(self, other) > 0
    }

    open spec fn at_most(self, other: Self) -> bool {
        !(self is Nan) && !(other is Nan) && ahead(self, other) >= 0
    }

    open spec fn same(self, other: Self) -> bool {
        !(self is Nan) && !(other is Nan) && ahead(self, other) == 0
    }

    open spec fn lesser(self, other: Self) -> Self {
        if other is Nan || self.below(other) {
            self
        } else {
            other
        }
    }

    open spec fn eased(from: Self, to: Self, elapsed: u64, duration: u64) -> Self {
        bounded(from.plus(to.minus(from).times(part_over(elapsed, duration))))
    }
}

/// Whether the second of two numbers is larger, or, if not, whether they are equal.
fn order(a: Double, b: Double) -> (result: (bool, bool))
    ensures
        result.0 == a.below(b),
        result.1 == a.same(b),
{
    match (a, b) {
        (Double::Nan, _) => (false, false),
        (_, Double::Nan) => (false, false),
        (Double::Infinite { negative: n1 }, Double::Infinite { negative: n2 }) => (
            n1 && !n2,
            n1 == n2,
        ),
        (Double::Infinite { negative }, _) => (negative, false),
        (_, Double::Infinite { negative }) => (!negative, false),
        (
            Double::Finite { negative: n1, mantissa: m1, exponent: e1 },
            Double::Finite { negative: n2, mantissa: m2, exponent: e2 },
        ) => finite_order(n1, m1, e1, n2, m2, e2),
    }
}

/// [`quotient`].
fn quotient_of(format: Format, a: Double, b: Double) -> (result: Double)
    ensures
        result == quotient(format, a, b),
{
    match (a, b) {
        (Double::Nan, _) => Double::Nan,
        (_, Double::Nan) => Double::Nan,
        (Double::Infinite { .. }, Double::Infinite { .. }) => Double::Nan,
        (Double::Infinite { negative: n1 }, Double::Finite { negative: n2, .. }) => {
            Double::Infinite { negative: n1 != n2 }
        },
        (Double::Finite { negative: n1, .. }, Double::Infinite { negative: n2 }) => {
            empty(format, n1 != n2)
        },
        (
            Double::Finite { negative: n1, mantissa: m1, exponent: e1 },
            Double::Finite { negative: n2, mantissa: m2, exponent: e2 },
        ) => {
            if m2 == 0 {
                if m1 == 0 {
                    Double::Nan
                } else {
                    Double::Infinite { negative: n1 != n2 }
                }
            } else {
                divide(format, n1 != n2, m1, e1 as i64, m2, e2 as i64)
            }
        },
    }
}

/// [`cut_off`], or any size beyond 32 bits for another.
fn cut(mantissa: u64, exponent: i32) -> (result: u128)
    ensures
        result == cut_off(mantissa, exponent) || (result > u32::MAX && cut_off(mantissa, exponent)
            > u32::MAX),
{
    proof {
        lemma_wide();
        lemma2_to64();
    }
    if exponent >= 0 {
        if mantissa == 0 {
            assert(0 * pow2(exponent as nat) == 0);
            0
        } else if exponent >= 63 {
            proof {
                lemma_pow2_monotonic(63, exponent as nat);
                assert(mantissa * pow2(exponent as nat) >= pow2(exponent as nat))
                    by (nonlinear_arith)
                    requires
                        mantissa >= 1,
                ;
            }
            u128::MAX
        } else {
            let unit: u128 = power(exponent as u32);
            proof {
                lemma_pow2_monotonic(exponent as nat, 63);
            }
            assert(mantissa * unit <= 0xffff_ffff_ffff_ffff * 0x8000_0000_0000_0000)
                by (nonlinear_arith)
                requires
                    0 <= mantissa <= 0xffff_ffff_ffff_ffff,
                    0 <= unit <= 0x8000_0000_0000_0000,
            ;
            mantissa as u128 * unit
        }
    } else {
        let places: i64 = -(exponent as i64);
        proof {
            lemma_pow2_pos(places as nat);
        }
        if places >= 64 {
            proof {
                lemma_pow2_monotonic(64, places as nat);
                lemma_fundamental_div_mod_converse(
                    mantissa as int,
                    pow2(places as nat) as int,
                    0,
                    mantissa as int,
                );
            }
            0
        } else {
            mantissa as u128 / power(places as u32)
        }
    }
}

/// [`part_over`].
fn part_of(elapsed: u64, duration: u64) -> (result: Double)
    ensures
        result == part_over(elapsed, duration),
{
    let part = quotient_of(
        Format::Single,
        settle(Format::Single, false, elapsed as u128, 0, false),
        settle(Format::Single, false, duration as u128, 0, false),
    );
    let one = Double::from_int(1);
    if one.lt(part) {
        one
    } else {
        part
    }
}

impl Scalar for Double {
    open spec fn nearest(self) -> Self {
        match self {
            Double::Finite { negative, mantissa, exponent } if exponent < 0 => {
                let unit = pow2((-exponent) as nat);
                settled(
                    Format::Double,
                    negative,
                    (mantissa as nat + unit / 2) / unit,
                    0,
                    false,
                )
            },
            _ => self,
        }
    }

    open spec fn integer(self) -> i32 {
        match self {
            Double::Nan => 0,
            Double::Infinite { negative } => if negative {
                i32::MIN
            } else {
                i32::MAX
            },
            Double::Finite { negative, mantissa, exponent } => {
                let size = cut_off(mantissa, exponent);
                if negative {
                    if size > 0x8000_0000 {
                        i32::MIN
                    } else {
                        (-(size as int)) as i32
                    }
                } else {
                    if size > i32::MAX {
                        i32::MAX
                    } else {
                        size as i32
                    }
                }
            },
        }
    }

    open spec fn natural(self) -> u32 {
        match self {
            Double::Nan => 0,
            Double::Infinite { negative } => if negative {
                0
            } else {
                u32::MAX
            },
            Double::Finite { negative, mantissa, exponent } => {
                let size = cut_off(mantissa, exponent);
                if negative {
                    0
                } else if size > u32::MAX {
                    u32::MAX
                } else {
                    size as u32
                }
            },
        }
    }

    fn from_int(value: i64) -> (result: Self) {
        if value == 0 {
            empty(Format::Double, false)
        } else if value < 0 {
            settle(Format::Double, true, (-(value as i128)) as u128, 0, false)
        } else {
            settle(Format::Double, false, value as u128, 0, false)
        }
    }

    fn add(self, other: Self) -> (result: Self) {
        match (self, other) {
            (Double::Nan, _) => Double::Nan,
            (_, Double::Nan) => Double::Nan,
            (Double::Infinite { negative: n1 }, Double::Infinite { negative: n2 }) => {
                if n1 == n2 {
                    self
                } else {
                    Double::Nan
                }
            },
            (Double::Infinite { .. }, _) => self,
            (_, Double::Infinite { .. }) => other,
            (
                Double::Finite { negative: n1, mantissa: m1, exponent: e1 },
                Double::Finite { negative: n2, mantissa: m2, exponent: e2 },
            ) => {
                proof {
                    lemma2_to64();
                    assert(signed(n1, m1) * 1 == signed(n1, m1));
                    assert(signed(n2, m2) * 1 == signed(n2, m2));
                }
                if e1 >= e2 {
                    sum(n1, m1, e1 as i64, n2, m2, e2 as i64)
                } else {
                    sum(n2, m2, e2 as i64, n1, m1, e1 as i64)
                }
            },
        }
    }

    fn sub(self, other: Self) -> (result: Self) {
        Scalar::add(self, Scalar::neg(other))
    }

    fn mul(self, other: Self) -> (result: Self) {
        match (self, other) {
            (Double::Nan, _) => Double::Nan,
            (_, Double::Nan) => Double::Nan,
            (Double::Infinite { negative: n1 }, Double::Infinite { negative: n2 }) => {
                Double::Infinite { negative: n1 != n2 }
            },
            (
                Double::Infinite { negative: n1 },
                Double::Finite { negative: n2, mantissa: m2, .. },
            ) => if m2 == 0 {
                Double::Nan
            } else {
                Double::Infinite { negative: n1 != n2 }
            },
            (
                Double::Finite { negative: n1, mantissa: m1, .. },
                Double::Infinite { negative: n2 },
            ) => if m1 == 0 {
                Double::Nan
            } else {
                Double::Infinite { negative: n1 != n2 }
            },
            (
                Double::Finite { negative: n1, mantissa: m1, exponent: e1 },
                Double::Finite { negative: n2, mantissa: m2, exponent: e2 },
            ) => {
                assert(0 <= m1 * m2 <= u128::MAX) by (nonlinear_arith)
                    requires
                        0 <= m1 <= u64::MAX,
                        0 <= m2 <= u64::MAX,
                ;
                settle(
                    Format::Double,
                    n1 != n2,
                    m1 as u128 * m2 as u128,
                    e1 as i64 + e2 as i64,
                    false,
                )
            },
        }
    }

    fn div(self, other: Self) -> (result: Self) {
        quotient_of(Format::Double, self, other)
    }

    fn neg(self) -> (result: Self) {
        match self {
            Double::Nan => Double::Nan,
            Double::Infinite { negative } => Double::Infinite { negative: !negative },
            Double::Finite { negative, mantissa, exponent } => Double::Finite {
                negative: !negative,
                mantissa,
                exponent,
            },
        }
    }

    fn lt(self, other: Self) -> (result: bool) {
        order(self, other).0
    }

    fn le(self, other: Self) -> (result: bool) {
        let (less, equal) = order(self, other);
        less || equal
    }

    fn eq(self, other: Self) -> (result: bool) {
        order(self, other).1
    }

    fn min(self, other: Self) -> (result: Self) {
        match other {
            Double::Nan => self,
            _ => if order(self, other).0 {
                self
            } else {
                other
            },
        }
    }

    fn ease(from: Self, to: Self, elapsed: u64, duration: u64) -> (result: Self) {
        let way = Scalar::mul(Scalar::sub(to, from), part_of(elapsed, duration));
        match Scalar::add(from, way) {
            Double::Infinite { negative } => Double::Finite {
                negative,
                mantissa: 0x1f_ffff_ffff_ffff,
                exponent: 971,
            },
            value => value,
        }
    }

    fn round(self) -> (result: Self) {
        match self {
            Double::Finite { negative, mantissa, exponent } if exponent < 0 => {
                let places: i64 = -(exponent as i64);
                proof {
                    lemma_wide();
                    lemma_pow2_pos(places as nat);
                    lemma_pow2_unfold(places as nat);
                }
                let size: u128;
                if places > 65 {
                    proof {
                        let unit = pow2(places as nat);
                        lemma_pow2_monotonic(65, (places - 1) as nat);
                        lemma_fundamental_div_mod_converse(
                            mantissa + unit / 2,
                            unit as int,
                            0,
                            mantissa + unit / 2,
                        );
                    }
                    size = 0;
                } else {
                    let unit: u128 = power(places as u32);
                    proof {
                        lemma_pow2_monotonic(places as nat, 65);
                    }
                    size = (mantissa as u128 + unit / 2) / unit;
                }
                settle(Format::Double, negative, size, 0, false)
            },
            _ => self,
        }
    }

    fn to_i32(self) -> (result: i32) {
        match self {
            Double::Nan => 0,
            Double::Infinite { negative } => if negative {
                i32::MIN
            } else {
                i32::MAX
            },
            Double::Finite { negative, mantissa, exponent } => {
                let size: u128 = cut(mantissa, exponent);
                if negative {
                    if size > 0x8000_0000 {
                        i32::MIN
                    } else {
                        (-(size as i64)) as i32
                    }
                } else {
                    if size > 0x7fff_ffff {
                        i32::MAX
                    } else {
                        size as i32
                    }
                }
            },
        }
    }

    fn to_u32(self) -> (result: u32) {
        match self {
            Double::Nan => 0,
            Double::Infinite { negative } => if negative {
                0
            } else {
                u32::MAX
            },
            Double::Finite { negative, mantissa, exponent } => {
                let size: u128 = cut(mantissa, exponent);
                if negative {
                    0
                } else if size > 0xffff_ffff {
                    u32::MAX
                } else {
                    size as u32
                }
            },
        }
    }
}

/// Bits stand for numbers of the format.
pub proof fn law_decoded_is_of_format(bits: u64)
    ensures
        of_format(Format::Double, decoded(bits)),
{
    lemma_wide();
}

/// Bits count the numbers from zero up on either side, infinity behind the largest; the highest
/// bit is the sign. What lies beyond stands for no number.
pub proof fn law_bits(bits: u64)
    ensures
        ({
            let sign: int = if bits >= 0x8000_0000_0000_0000 {
                0x8000_0000_0000_0000
            } else {
                0
            };
            let size = bits - sign;
            match decoded(bits) {
                Double::Finite { negative, mantissa, exponent } => {
                    &&& size < 0x7ff0_0000_0000_0000
                    &&& size == (exponent + 1074) * 0x10_0000_0000_0000 + mantissa
                    &&& negative <==> sign != 0
                    &&& mantissa >= 0x10_0000_0000_0000 || exponent == -1074
                    &&& mantissa < 0x20_0000_0000_0000
                },
                Double::Infinite { negative } => size == 0x7ff0_0000_0000_0000 && (negative
                    <==> sign != 0),
                Double::Nan => size > 0x7ff0_0000_0000_0000,
            }
        }),
{
}

/// Integers of up to 53 digits are held exactly.
pub(crate) proof fn lemma_whole(value: i64)
    requires
        0 < value < 0x20_0000_0000_0000,
    ensures
        ({
            let up = (53 - length(value as nat)) as nat;
            &&& 1 <= length(value as nat) <= 53
            &&& value * pow2(up) <= u64::MAX
            &&& Double::whole(value) == Double::Finite {
                negative: false,
                mantissa: (value * pow2(up)) as u64,
                exponent: (-up) as i32,
            }
            &&& of_format(Format::Double, Double::whole(value))
        }),
{
    let up = (53 - length(value as nat)) as nat;
    lemma_wide();
    lemma_length(value as nat);
    lemma_length_bound(value as nat, 53);
    lemma_shifted_up(value as nat, up, 53);
    law_settled_is_of_format(Format::Double, false, value as nat, 0, false);
}

/// Zero adds nothing to a positive integer, and one is not above it.
pub(crate) proof fn lemma_from_one(value: i64)
    requires
        0 < value < 0x20_0000_0000_0000,
    ensures
        ({
            let number = Double::whole(value);
            let none = zero(Format::Double, false);
            &&& number is Finite && number->mantissa > 0 && !number->Finite_negative
            &&& none.plus(number) == number
            &&& none.at_most(number.minus(Double::whole(1)))
        }),
{
    let up = (53 - length(value as nat)) as nat;
    let number = Double::whole(value);
    lemma_wide();
    lemma2_to64();
    lemma_length_bound(1, 0);
    lemma_length_bound(1, 1);
    lemma_whole(value);
    lemma_whole(1);
    lemma_pow2_pos(up);
    assert(value * pow2(up) > 0) by (nonlinear_arith)
        requires
            value > 0,
            pow2(up) > 0,
    ;
    let mantissa = number->mantissa;
    // Zero counts units of the lowest exponent.
    let down = (1074 - up) as nat;
    lemma_pow2_pos(down);
    assert(mantissa * pow2(down) > 0) by (nonlinear_arith)
        requires
            mantissa > 0,
            pow2(down) > 0,
    ;
    law_settled_by_value(Format::Double, false, mantissa as nat, down, -1074);
    law_settled_keeps(Format::Double, false, mantissa, number->exponent);
    // One counts units of the fifty-second place, as no integer falls short of.
    let gap = (52 - up) as nat;
    lemma_pow2_adds(up, gap);
    assert(mantissa * pow2(gap) == value * pow2(52)) by (nonlinear_arith)
        requires
            mantissa == value * pow2(up),
            pow2(52) == pow2(up) * pow2(gap),
    ;
    let none = zero(Format::Double, false);
    assert(0 * pow2(0) == 0);
    assert(none.plus(number) == number);
    let one = Double::whole(1);
    let total = mantissa * pow2(gap) - 0x10_0000_0000_0000;
    assert(number.minus(one) == gathered(false, total, -52));
    let rest = number.minus(one);
    assert(rest is Finite ==> !rest->Finite_negative);
    if rest is Finite {
        let low = lower(-1074, rest->exponent as int);
        let unit = pow2((rest->exponent - low) as nat);
        assert(rest->mantissa * unit >= 0) by (nonlinear_arith)
            requires
                rest->mantissa >= 0,
                unit >= 0,
        ;
        assert(0 * pow2((-1074 - low) as nat) == 0);
    }
    assert(none.at_most(rest));
}

/// Integers are finite.
pub(crate) proof fn lemma_whole_is_finite(value: i64)
    ensures
        Double::whole(value) is Finite,
{
    lemma_wide();
    if value != 0 {
        let size = (if value < 0 {
            -value
        } else {
            value as int
        }) as nat;
        lemma_length_bound(size, 64);
    }
}

/// A number less itself is zero.
pub(crate) proof fn lemma_less_itself(value: Double)
    requires
        value is Finite,
    ensures
        value.minus(value) == zero(Format::Double, false),
{
    let unit = pow2(0);
    let mantissa = value->mantissa as int;
    assert((-mantissa) * unit == -(mantissa * unit)) by (nonlinear_arith);
}

/// A number that is negative or zero is at most zero.
proof fn lemma_negative(value: Double)
    requires
        value is Infinite ==> value->Infinite_negative,
        value is Finite ==> value->Finite_negative || value->mantissa == 0,
        !(value is Nan),
    ensures
        value.at_most(Double::whole(0)),
{
    if value is Finite {
        let low = lower(value->exponent as int, -1074);
        let mantissa = value->mantissa as int;
        let unit = pow2((value->exponent - low) as nat);
        assert((-mantissa) * unit <= 0 && 0 * unit == 0) by (nonlinear_arith)
            requires
                mantissa >= 0,
                unit >= 0,
        ;
        assert(0 * pow2((-1074 - low) as nat) == 0);
    }
}

/// One less a level from one on, times a positive number, is at most zero.
pub(crate) proof fn lemma_shift_at_most_zero(size: Double, level: Double)
    requires
        size is Finite && size->mantissa > 0 && !size->Finite_negative,
        Double::whole(1).at_most(level),
    ensures
        size.times(Double::whole(1).minus(level)).at_most(Double::whole(0)),
{
    let one = Double::whole(1);
    let rest = one.minus(level);
    lemma_whole(1);
    if level is Finite {
        let low = lower(one->exponent as int, level->exponent as int);
        let unit = pow2((level->exponent - low) as nat);
        let mantissa = level->mantissa as int;
        assert((-mantissa) * unit == -(mantissa * unit)) by (nonlinear_arith);
        let total = one->mantissa * pow2((one->exponent - low) as nat) - signed(
            level->Finite_negative,
            level->mantissa,
        ) * unit;
        assert(rest == gathered(false, total, low));
        assert(total <= 0);
    }
    if rest is Finite && rest->mantissa == 0 {
        assert(size->mantissa as nat * 0 == 0);
    }
    lemma_negative(size.times(rest));
}

impl Double {
    /// The number that the bits of its representation stand for.
    pub fn from_bits(bits: u64) -> (result: Double)
        ensures
            result == decoded(bits),
    {
        let negative: bool = bits >= 0x8000_0000_0000_0000;
        let field: u64 = bits / 0x10_0000_0000_0000 % 0x800;
        let fraction: u64 = bits % 0x10_0000_0000_0000;
        if field == 0x7ff {
            if fraction == 0 {
                Double::Infinite { negative }
            } else {
                Double::Nan
            }
        } else if field == 0 {
            Double::Finite { negative, mantissa: fraction, exponent: -1074 }
        } else {
            Double::Finite {
                negative,
                mantissa: fraction + 0x10_0000_0000_0000,
                exponent: (field as i64 - 1075) as i32,
            }
        }
    }
}

} // verus!
