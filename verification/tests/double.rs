//! Numbers in double precision, held against those of the machine.
use cosmic_zoom::config::{ZoomConfig, ZoomMovement};
use cosmic_zoom::double::Double;
use cosmic_zoom::geometry::{Output, Point, Size};
use cosmic_zoom::output_zoom::OutputZoomState;
use cosmic_zoom::scalar::Scalar;

fn number(value: f64) -> Double {
    Double::from_bits(value.to_bits())
}

struct Random(u64);

impl Random {
    fn next(&mut self) -> u64 {
        self.0 ^= self.0 << 13;
        self.0 ^= self.0 >> 7;
        self.0 ^= self.0 << 17;
        self.0
    }

    fn near_one(&mut self) -> f64 {
        let exponent = 1023 - 70 + self.next() % 140;
        f64::from_bits(self.next() % 2 << 63 | exponent << 52 | self.next() >> 12)
    }
}

fn edges() -> Vec<f64> {
    let mut list = vec![
        0.0,
        1.0,
        0.5,
        0.02,
        0.1,
        1.5,
        2.0,
        3.0,
        100.0,
        1e16,
        4503599627370495.5,
        9007199254740991.0,
        9007199254740993.0,
        2147483647.5,
        2147483648.0,
        4294967295.9,
        4294967296.0,
        f64::MAX,
        f64::MAX / 2.0,
        f64::MIN_POSITIVE,
        f64::MIN_POSITIVE / 3.0,
        f64::EPSILON,
        1.0 + f64::EPSILON,
        f64::INFINITY,
        f64::NAN,
    ];
    list.push(f64::from_bits(1));
    list.push(f64::from_bits(3));
    list.push(f64::from_bits(0x000f_ffff_ffff_ffff));
    let negatives: Vec<f64> = list.iter().map(|x| -x).collect();
    list.extend(negatives);
    list
}

fn agree(a: f64, b: f64) {
    let (x, y) = (number(a), number(b));
    assert_eq!(x.add(y), number(a + b), "{:e} + {:e}", a, b);
    assert_eq!(x.sub(y), number(a - b), "{:e} - {:e}", a, b);
    assert_eq!(x.mul(y), number(a * b), "{:e} * {:e}", a, b);
    assert_eq!(x.div(y), number(a / b), "{:e} / {:e}", a, b);
    assert_eq!(Scalar::lt(x, y), a < b, "{:e} < {:e}", a, b);
    assert_eq!(Scalar::le(x, y), a <= b, "{:e} <= {:e}", a, b);
    assert_eq!(Scalar::eq(x, y), a == b, "{:e} == {:e}", a, b);
    if a != b {
        assert_eq!(Scalar::min(x, y), number(a.min(b)), "{:e} min {:e}", a, b);
    }
    assert_eq!(x.neg(), number(-a), "-{:e}", a);
    assert_eq!(x.round(), number(a.round()), "round {:e}", a);
    assert_eq!(x.to_i32(), a as i32, "{:e} as i32", a);
    assert_eq!(x.to_u32(), a as u32, "{:e} as u32", a);
}

fn ease_agrees(from: f64, to: f64, elapsed: u64, duration: u64) {
    let part = elapsed as f32 / duration as f32;
    assert_eq!(
        Double::ease(number(from), number(to), elapsed, duration),
        number(keyframe::ease(keyframe::functions::Linear, from, to, part)),
        "{:e} to {:e}, {} of {}",
        from,
        to,
        elapsed,
        duration
    );
}

#[test]
fn bits_stand_for_numbers() {
    let finite = |negative, mantissa, exponent| Double::Finite { negative, mantissa, exponent };
    assert_eq!(number(0.0), finite(false, 0, -1074));
    assert_eq!(number(-0.0), finite(true, 0, -1074));
    assert_eq!(number(1.0), finite(false, 1 << 52, -52));
    assert_eq!(number(-1.5), finite(true, 3 << 51, -52));
    assert_eq!(number(f64::MAX), finite(false, (1 << 53) - 1, 971));
    assert_eq!(number(f64::from_bits(1)), finite(false, 1, -1074));
    assert_eq!(number(f64::NEG_INFINITY), Double::Infinite { negative: true });
    assert_eq!(number(f64::NAN), Double::Nan);
}

#[test]
fn operations_agree_at_the_edges() {
    for a in edges() {
        for b in edges() {
            agree(a, b);
        }
    }
}

#[test]
fn operations_agree_on_all_sizes() {
    let mut random = Random(0x9e37_79b9_7f4a_7c15);
    for _ in 0..20_000 {
        agree(f64::from_bits(random.next()), f64::from_bits(random.next()));
    }
}

#[test]
fn operations_agree_where_digits_overlap() {
    let mut random = Random(0x2545_f491_4f6c_dd1d);
    for _ in 0..20_000 {
        let a = random.near_one();
        agree(a, random.near_one());
        // Next to each other, and halfway between two numbers.
        agree(a, f64::from_bits(a.to_bits() ^ random.next() % 8));
        agree(a, a * f64::EPSILON / 2.0);
    }
}

#[test]
fn operations_agree_below_the_normal_numbers() {
    let mut random = Random(0x1234_5678_9abc_def1);
    for _ in 0..20_000 {
        let a = f64::from_bits(random.next() >> 9 | random.next() % 2 << 63);
        let b = random.near_one();
        agree(a, b);
        agree(b, a);
        agree(a, f64::from_bits(random.next() >> 10));
    }
}

#[test]
fn integers_agree() {
    let mut random = Random(0xdead_beef_cafe_f00d);
    for value in [0, 1, -1, 100, 1 << 53, (1 << 53) + 1, (1 << 53) + 3, i64::MAX, i64::MIN] {
        assert_eq!(Double::from_int(value), number(value as f64));
    }
    for _ in 0..20_000 {
        let value = (random.next() >> (random.next() % 64)) as i64;
        assert_eq!(Double::from_int(value), number(value as f64));
        assert_eq!(Double::from_int(-(value >> 1)), number(-(value >> 1) as f64));
    }
}

#[test]
fn easing_agrees() {
    let mut random = Random(0x0bad_cafe_1234_4321);
    for _ in 0..20_000 {
        let (from, to) = (random.near_one(), random.near_one());
        ease_agrees(from, to, random.next() % 250, 200);
        ease_agrees(from, to, random.next() >> (random.next() % 64), random.next() >> 20);
        ease_agrees(
            f64::from_bits(random.next()),
            f64::from_bits(random.next()),
            random.next() % 1000,
            random.next() % 1000,
        );
    }
    for (elapsed, duration) in [(0, 0), (1, 0), (0, 1), (7, 7), (u64::MAX, u64::MAX), (3, u64::MAX)]
    {
        ease_agrees(1.0, 3.0, elapsed, duration);
        ease_agrees(f64::MAX, -f64::MAX, elapsed, duration);
        ease_agrees(f64::INFINITY, 0.0, elapsed, duration);
        ease_agrees(0.1, 0.7, elapsed, duration);
    }
    assert_eq!(Double::ease(number(1.0), number(3.0), 50, 200), number(1.5));
    assert_eq!(Double::ease(number(1.0), number(3.0), 900, 200), number(3.0));
    assert_eq!(Double::ease(number(1.0), number(3.0), 0, 0), Double::Nan);
}

#[test]
fn operations_take_numbers_of_other_forms() {
    let one = Double::Finite { negative: false, mantissa: 1, exponent: 0 };
    assert!(Scalar::eq(one, number(1.0)));
    assert_eq!(one.add(one), number(2.0));
    assert_eq!(one.div(number(3.0)), number(1.0 / 3.0));
    assert_eq!(one.mul(number(0.1)), number(0.1));
    let large = Double::Finite { negative: true, mantissa: u64::MAX, exponent: i32::MAX };
    assert_eq!(large.add(one), Double::Infinite { negative: true });
    assert_eq!(large.to_i32(), i32::MIN);
    assert!(Scalar::lt(large, number(f64::MIN)));
    let small = Double::Finite { negative: false, mantissa: u64::MAX, exponent: i32::MIN };
    assert_eq!(small.add(number(0.0)), number(0.0));
    assert_eq!(small.round(), number(0.0));
    assert!(Scalar::lt(number(0.0), small));
    assert_eq!(large.div(small), Double::Infinite { negative: true });
}

#[test]
fn a_sum_goes_to_the_even_neighbour() {
    assert_eq!(number(9007199254740992.0).add(number(1.0)), number(9007199254740992.0));
    assert_eq!(number(9007199254740994.0).add(number(1.0)), number(9007199254740996.0));
    assert_eq!(number(9007199254740992.0).add(number(1.5)), number(9007199254740994.0));
}

fn magnified(view_moves: ZoomMovement, level: f64) -> OutputZoomState<Double> {
    let config = ZoomConfig { show_overlay: true, increment: 50, view_moves };
    OutputZoomState::new(&config, number(level), 200_000_000)
}

#[test]
fn an_output_is_magnified_in_double_precision() {
    let output = Output { loc: Point::new(0, 0), size: Size::new(800, 600) };

    let mut zoom = magnified(ZoomMovement::Centered, 2.0);
    assert!(zoom.can_update_focal_point(&output, 0));
    zoom.update_pointer_position(&output, Point::new(number(500.0), number(250.0)), 0);
    assert_eq!((zoom.focal_point.x, zoom.focal_point.y), (number(600.0), number(200.0)));

    let mut zoom = magnified(ZoomMovement::OnEdge, 2.0);
    assert!(zoom.can_update_focal_point(&output, 0));
    zoom.update_pointer_position(&output, Point::new(number(410.0), number(100.0)), 0);
    assert_eq!((zoom.focal_point.x, zoom.focal_point.y), (number(16.0), number(0.0)));
}

#[test]
fn nothing_to_centre_at_level_one() {
    let output = Output { loc: Point::new(0, 0), size: Size::new(800, 600) };
    let mut zoom = magnified(ZoomMovement::Centered, 1.0);
    assert!(zoom.can_update_focal_point(&output, 0));
    zoom.update_pointer_position(&output, Point::new(number(500.0), number(250.0)), 0);
    assert_eq!((zoom.focal_point.x, zoom.focal_point.y), (Double::Nan, Double::Nan));
}

#[test]
fn the_focus_can_be_set_from_level_one_on() {
    let output = Output { loc: Point::new(-1920, 37), size: Size::new(1, i32::MAX) };
    let numbers = [0.0, -3.5, 0.1, 1e300, f64::INFINITY, f64::NAN];
    for movement in [ZoomMovement::Continuously, ZoomMovement::OnEdge, ZoomMovement::Centered] {
        for level in [1.0, 1.0 + f64::EPSILON, 3.7, 100.0, f64::MAX, f64::INFINITY] {
            for x in numbers {
                for focus in numbers {
                    let mut zoom = magnified(movement, level);
                    zoom.pointer_position = Point::new(number(x), number(-x));
                    zoom.focal_point = Point::new(number(focus), number(focus));
                    assert!(zoom.can_update_focal_point(&output, 0));
                    zoom.update_focal_point(&output, 0);
                }
            }
        }
    }
    let mut zoom = magnified(ZoomMovement::Centered, 0.5);
    zoom.pointer_position = Point::new(number(1.0), number(1.0));
    assert!(!zoom.can_update_focal_point(&output, 0));
}

#[test]
fn numbers_that_fit_are_kept() {
    let mut random = Random(0x5ca1_ab1e_0ddb_a11e);
    for _ in 0..1000 {
        let value = random.near_one();
        assert_eq!(number(value).add(number(0.0)), number(value));
        assert_eq!(number(value).mul(number(1.0)), number(value));
        assert_eq!(number(value).sub(number(value)), number(0.0));
    }
}
