//! What is left of numbers in double precision when they are rounded or cut to integers.
use crate::binary::{lemma_shifted_up, of_format, settled};
use crate::double::Double;
use crate::geometry::{point, Global, Local, Output, Point, Size};
use crate::menu::{opened, Anchor};
use crate::operations::distance;
use crate::output_zoom::{drawn_at, overlay_area, OutputZoomState};
use crate::precision::{
    lemma_real_product, lemma_scale_positive, lemma_scale_up, lemma_zero_times, scale, worth,
};
use crate::rounding::{lemma_length, lemma_length_bound, lemma_wide, length, Format};
use crate::scalar::{Arith, Scalar};
use vstd::arithmetic::div_mod::{lemma_fundamental_div_mod, lemma_mod_pos_bound};
use vstd::arithmetic::power2::{lemma2_to64, lemma_pow2_pos, lemma_pow2_unfold, pow2};
use vstd::prelude::*;

verus! {

/// A whole number that is shifted up, as a real.
proof fn lemma_raised(m: nat, up: nat)
    ensures
        (m * pow2(up)) as int as real == m as int as real * scale(up as int),
{
    let a = m as int;
    let b = pow2(up) as int;
    lemma_real_product(a, b);
    assert(scale(up as int) == b as real);
    assert((m * pow2(up)) as int == a * b);
}

/// The digits in front of the point, as a real.
proof fn lemma_cut(m: nat, down: nat)
    ensures
        ({
            let x = m as int as real * scale(-(down as int));
            let whole = (m / pow2(down)) as int as real;
            whole <= x < whole + 1real
        }),
{
    let p = pow2(down) as int as real;
    let n = (m / pow2(down)) as int;
    let r = (m % pow2(down)) as int;
    lemma_pow2_pos(down);
    lemma_fundamental_div_mod(m as int, pow2(down) as int);
    lemma_mod_pos_bound(m as int, pow2(down) as int);
    lemma_real_product(pow2(down) as int, n);
    let s = scale(-(down as int));
    lemma_scale_up(-(down as int), down);
    lemma2_to64();
    let x = m as int as real * s;
    let w = n as real;
    let rest = r as real;
    lemma_scale_positive(-(down as int));
    assert((p * w + rest) * s == w * (s * p) + rest * s) by (nonlinear_arith);
    assert(w * 1real == w) by (nonlinear_arith);
    assert(0real <= rest * s) by (nonlinear_arith)
        requires
            0real <= rest,
            s > 0real,
    ;
    assert(rest * s < s * p) by (nonlinear_arith)
        requires
            rest < p,
            s > 0real,
    ;
}

/// A whole number that the format has digits for is held as it is.
proof fn lemma_held(size: nat, negative: bool)
    requires
        size <= pow2(52),
    ensures
        ({
            let value = settled(Format::Double, negative, size, 0, false);
            &&& value is Finite && value->Finite_negative == negative
            &&& worth(value) == (if negative {
                0real - size as int as real
            } else {
                size as int as real
            })
        }),
{
    lemma_wide();
    let value = settled(Format::Double, negative, size, 0, false);
    if size == 0 {
        lemma_zero_times(scale(-1074));
    } else {
        lemma_length(size);
        lemma_length_bound(size, 53);
        let up = (53 - length(size)) as nat;
        lemma_shifted_up(size, up, 53);
        let s = scale(-(up as int));
        lemma_scale_up(-(up as int), up);
        lemma2_to64();
        lemma_real_product(size as int, pow2(up) as int);
        let f = pow2(up) as int as real;
        let x = size as int as real;
        assert((x * f) * s == x) by (nonlinear_arith)
            requires
                s * f == 1real,
        ;
        assert(value->mantissa == size * pow2(up) && value->exponent == -(up as int));
    }
}

/// Whether a real is that integer.
pub open spec fn stands_for(value: real, integer: int) -> bool {
    value == integer as real
}

/// Half a unit more, cut off, is the nearest whole number, and the larger one of two.
proof fn lemma_half_up(m: nat, down: nat)
    requires
        down > 0,
    ensures
        ({
            let unit = pow2(down);
            let whole = ((m + unit / 2) / unit) as int as real;
            let x = m as int as real * scale(-(down as int));
            2real * whole <= 2real * x + 1real && 2real * x < 2real * whole + 1real
        }),
{
    let e = -(down as int);
    let unit = pow2(down);
    let half = pow2((down - 1) as nat);
    lemma_pow2_unfold(down);
    lemma_cut(m + half, down);
    lemma_scale_up(e, down);
    lemma2_to64();
    let s = scale(e);
    let h = half as int as real;
    let x = m as int as real;
    assert(unit as int as real == 2real * h);
    assert(h * s == 1real / 2real) by (nonlinear_arith)
        requires
            s * (2real * h) == 1real,
    ;
    assert((x + h) * s == x * s + h * s) by (nonlinear_arith);
    assert((m + half) as int as real == x + h);
}

/// The nearest whole number to one with fewer than 54 digits, some of them behind the point, has
/// fewer digits.
proof fn lemma_half_up_fits(m: nat, down: nat)
    requires
        down > 0,
        m < pow2(53),
    ensures
        (m + pow2(down) / 2) / pow2(down) <= pow2(52),
{
    let unit = pow2(down);
    let half = pow2((down - 1) as nat);
    let n = (m + half) / unit;
    lemma_wide();
    lemma_pow2_unfold(down);
    lemma_pow2_pos((down - 1) as nat);
    lemma_fundamental_div_mod((m + half) as int, unit as int);
    lemma_mod_pos_bound((m + half) as int, unit as int);
    if n >= 1 {
        assert(unit * n == 2 * (half * n)) by (nonlinear_arith)
            requires
                unit == 2 * half,
        ;
        assert(2 * (half * n) - half >= 2 * n - 1) by (nonlinear_arith)
            requires
                half >= 1,
                n >= 1,
        ;
    }
}

/// A number of the format is rounded to the nearest whole number, and halves away from zero.
pub proof fn law_rounded(value: Double)
    requires
        value is Finite,
        of_format(Format::Double, value),
    ensures
        ({
            let rounded = value.nearest();
            let x = worth(value);
            &&& rounded is Finite && rounded->Finite_negative == value->Finite_negative
            &&& exists|n: int| #[trigger] stands_for(worth(rounded), n)
            &&& 2real * distance(worth(rounded), x) <= 1real
            &&& 2real * distance(worth(rounded), x) == 1real ==> distance(worth(rounded), 0real)
                > distance(x, 0real)
        }),
{
    let m = value->mantissa as nat;
    let e = value->exponent as int;
    let rounded = value.nearest();
    if e >= 0 {
        lemma_raised(m, e as nat);
        let n = (m * pow2(e as nat)) as int;
        assert(stands_for(
            worth(rounded),
            if value->Finite_negative {
                -n
            } else {
                n
            },
        ));
    } else {
        let down = (-e) as nat;
        let n: nat = (m + pow2(down) / 2) / pow2(down);
        lemma_half_up(m, down);
        lemma_half_up_fits(m, down);
        lemma_held(n, value->Finite_negative);
        lemma_scale_positive(e);
        let x = m as int as real * scale(e);
        assert(x >= 0real) by (nonlinear_arith)
            requires
                x == m as int as real * scale(e),
                m as int as real >= 0real,
                scale(e) > 0real,
        ;
        assert(stands_for(
            worth(rounded),
            if value->Finite_negative {
                -(n as int)
            } else {
                n as int
            },
        ));
    }
}

/// The integer part is cut off towards zero, and held at the ends of its range.
pub proof fn law_integer_part(value: Double)
    requires
        value is Finite,
    ensures
        ({
            let x = worth(value);
            let i = value.integer() as int as real;
            let n = value.natural() as int as real;
            &&& x >= 2147483648real ==> value.integer() == i32::MAX
            &&& x <= 0real - 2147483649real ==> value.integer() == i32::MIN
            &&& 0real <= x < 2147483648real ==> i <= x < i + 1real
            &&& 0real - 2147483649real < x <= 0real ==> i - 1real < x <= i
            &&& x >= 4294967296real ==> value.natural() == u32::MAX
            &&& 0real <= x < 4294967296real ==> n <= x < n + 1real
            &&& x <= 0real ==> value.natural() == 0
        }),
{
    let m = value->mantissa as nat;
    let e = value->exponent as int;
    let s = scale(e);
    let size = m as int as real * s;
    lemma_scale_positive(e);
    assert(size >= 0real && (size == 0real <==> m == 0)) by (nonlinear_arith)
        requires
            size == m as int as real * s,
            m as int as real >= 0real,
            m as int as real == 0real <==> m == 0,
            s > 0real,
    ;
    lemma2_to64();
    if e >= 0 {
        lemma_raised(m, e as nat);
    } else {
        lemma_cut(m, (-e) as nat);
    }
}

proof fn lemma_cut_of_whole(x: real, r: real, whole: int, i: int)
    requires
        stands_for(r, whole),
        2real * distance(r, x) <= 1real,
        r >= 2147483648real ==> i == 2147483647,
        r <= 0real - 2147483649real ==> i == -2147483648,
        0real <= r < 2147483648real ==> i as real <= r < i as real + 1real,
        0real - 2147483649real < r <= 0real ==> i as real - 1real < r <= i as real,
    ensures
        0real - 2147483648real <= x <= 2147483647real ==> 2real * distance(i as real, x) <= 1real,
{
    if 0real <= r < 2147483648real || 0real - 2147483649real < r <= 0real {
        assert(i == whole);
    }
}

proof fn lemma_natural_of_whole(x: real, r: real, whole: int, n: int)
    requires
        stands_for(r, whole),
        2real * distance(r, x) <= 1real,
        r >= 4294967296real ==> n == 4294967295,
        0real <= r < 4294967296real ==> n as real <= r < n as real + 1real,
        r <= 0real ==> n == 0,
    ensures
        0real <= x <= 4294967295real ==> 2real * distance(n as real, x) <= 1real,
{
    if 0real <= r < 4294967296real {
        assert(n == whole);
    }
}

/// Rounded and cut, a number of the format is the nearest integer, on either side of zero.
pub proof fn law_nearest_integer(value: Double)
    requires
        value is Finite,
        of_format(Format::Double, value),
    ensures
        ({
            let x = worth(value);
            let i = value.nearest().integer() as int as real;
            let n = value.nearest().natural() as int as real;
            &&& 0real - 2147483648real <= x <= 2147483647real ==> 2real * distance(i, x) <= 1real
            &&& 0real <= x <= 4294967295real ==> 2real * distance(n, x) <= 1real
        }),
{
    let rounded = value.nearest();
    let x = worth(value);
    law_rounded(value);
    law_integer_part(rounded);
    let whole = choose|n: int| #[trigger] stands_for(worth(rounded), n);
    lemma_cut_of_whole(x, worth(rounded), whole, rounded.integer() as int);
    lemma_natural_of_whole(x, worth(rounded), whole, rounded.natural() as int);
}

/// The overlay is drawn at the pixel nearest to where its corner is on the output's pixels.
pub proof fn law_overlay_pixel(output: Output, size: Size<i32, Local>, scale: Double)
    ensures
        ({
            let corner = overlay_area::<Double>(output, size).loc;
            let pixel = drawn_at(output, size, scale);
            &&& on_pixel(corner.x.times(scale), pixel.x)
            &&& on_pixel(corner.y.times(scale), pixel.y)
        }),
{
    let corner = overlay_area::<Double>(output, size).loc;
    let x = corner.x.times(scale);
    let y = corner.y.times(scale);
    if x is Finite && of_format(Format::Double, x) {
        law_nearest_integer(x);
    }
    if y is Finite && of_format(Format::Double, y) {
        law_nearest_integer(y);
    }
}

/// Whether a pixel is the nearest to a coordinate that is on the range of pixels.
pub open spec fn on_pixel(coordinate: Double, pixel: i32) -> bool {
    coordinate is Finite && of_format(Format::Double, coordinate) && 0real - 2147483648real <= worth(
        coordinate,
    ) <= 2147483647real ==> 2real * distance(pixel as int as real, worth(coordinate)) <= 1real
}

/// A menu opens at the pixel nearest to where the input is shown, and to the middle of the
/// overlay's height, on the output's place in the global space.
pub proof fn law_menu_pixel(
    zoom: OutputZoomState<Double>,
    size: Size<i32, Local>,
    output: Output,
    start: Point<Double, Global>,
    anchor: Anchor,
    now: u64,
)
    ensures
        ({
            let overlay = overlay_area::<Double>(output, size);
            let middle = overlay.loc.y.plus(overlay.size.h.over(Double::whole(2)));
            let place = output.globalized(
                point::<Double, Local>(zoom.on_screen(start, output, now).x, middle),
            );
            &&& opened(Some((zoom, size)), output, Some(start), anchor, now) matches Some(menu)
            &&& on_pixel(place.x, menu.position.x)
            &&& on_pixel(place.y, menu.position.y)
        }),
{
    let overlay = overlay_area::<Double>(output, size);
    let middle = overlay.loc.y.plus(overlay.size.h.over(Double::whole(2)));
    let place = output.globalized(
        point::<Double, Local>(zoom.on_screen(start, output, now).x, middle),
    );
    if place.x is Finite && of_format(Format::Double, place.x) {
        law_nearest_integer(place.x);
    }
    if place.y is Finite && of_format(Format::Double, place.y) {
        law_nearest_integer(place.y);
    }
}

} // verus!
