use num_complex::Complex;
use rostbrot::fixed::{fixed, FRAC_BITS, ONE};
use rostbrot::mandelbrot::{cardioid, first_bulb, mandelbrot};

fn fx(v: f64) -> i64 {
    (v * ONE as f64).floor() as i64
}

#[test]
fn mandelbrot_seq() {
    let c = Complex { re: fx(0.0), im: fx(0.0) };

    let mut s = mandelbrot(c);
    let res: Vec<_> = s.take(20);
    assert_eq!(res.len(), 20);

    let c = Complex { re: fx(3.0), im: fx(0.0) };
    let mut s = mandelbrot(c);
    let res: Vec<_> = s.take(20);
    assert_eq!(res.len(), 0);

    let c = Complex { re: fx(1.0), im: fx(0.0) };
    let mut s = mandelbrot(c);
    let res: Vec<_> = s.take(20);
    assert_eq!(res, vec![c, Complex { re: fx(2.0), im: fx(0.0) }]);
}

#[test]
fn cardioid_test() {
    let c = Complex { re: fx(1.0), im: fx(0.0) };
    assert!(!cardioid(c));

    let c = Complex { re: fx(0.0), im: fx(0.0) };
    assert!(cardioid(c));

    let c = Complex { re: fx(-0.74), im: fx(0.0) };
    assert!(cardioid(c));
}

#[test]
fn first_bulb_test() {
    let c = Complex { re: fx(0.0), im: fx(0.0) };
    assert!(!first_bulb(c));

    let c = Complex { re: fx(-1.24), im: fx(0.0) };
    assert!(first_bulb(c));

    let c = Complex { re: fx(-0.76), im: fx(0.0) };
    assert!(first_bulb(c));

    let c = Complex { re: fx(-1.0), im: fx(0.24) };
    assert!(first_bulb(c));
}

#[test]
fn cardioid_edges() {
    assert!(cardioid(Complex { re: fx(0.2), im: fx(0.0) }));
    assert!(!cardioid(Complex { re: fx(0.3), im: fx(0.0) }));
    assert!(!cardioid(Complex { re: fx(-0.76), im: fx(0.0) }));
    assert!(cardioid(Complex { re: fx(0.0), im: fx(0.6) }));
    assert!(!cardioid(Complex { re: fx(0.0), im: fx(0.7) }));
    assert!(!cardioid(Complex { re: i64::MIN, im: i64::MAX }));
    assert!(!first_bulb(Complex { re: i64::MAX, im: i64::MIN }));
    assert!(!first_bulb(Complex { re: fx(-1.26), im: fx(0.0) }));
}

#[test]
fn orbit_steps_and_escape() {
    // c = i: 0 -> i -> -1 + i -> -i -> -1 + i -> ... stays bounded
    let c = Complex { re: 0, im: ONE };
    let res = mandelbrot(c).take(5);
    let expected = vec![
        Complex { re: 0, im: ONE },
        Complex { re: -ONE, im: ONE },
        Complex { re: 0, im: -ONE },
        Complex { re: -ONE, im: ONE },
        Complex { re: 0, im: -ONE },
    ];
    assert_eq!(res, expected);

    // c = 1/2 escapes after a few steps, and then stays escaped
    let mut s = mandelbrot(Complex { re: fixed(1, 2), im: 0 });
    let first = s.take(3);
    assert_eq!(first, vec![
        Complex { re: fixed(1, 2), im: 0 },
        Complex { re: fixed(3, 4), im: 0 },
        Complex { re: fixed(17, 16), im: 0 },
    ]);
    let rest = s.take(100);
    assert_eq!(rest, vec![Complex { re: fixed(417, 256), im: 0 }]);
    assert_eq!(s.next(), None);
    assert_eq!(s.next(), None);
}

#[test]
fn orbit_next_matches_take() {
    let c = Complex { re: fx(-0.3), im: fx(0.6) };
    let all = mandelbrot(c).take(50);
    let mut s = mandelbrot(c);
    let mut one_by_one = Vec::new();
    for _ in 0..50 {
        if let Some(z) = s.next() {
            one_by_one.push(z);
        }
    }
    assert_eq!(all, one_by_one);
}

#[test]
fn fixed_point_values() {
    assert_eq!(ONE, 1 << FRAC_BITS);
    assert_eq!(fixed(1, 4), ONE / 4);
    assert_eq!(fixed(-1, 4), -ONE / 4);
    assert_eq!(fixed(1, 3), 5592405);
    assert_eq!(fixed(-1, 3), -5592406);
    assert_eq!(fixed(3, 1), 3 * ONE);
}
