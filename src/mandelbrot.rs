//! Escape-time orbits of the Mandelbrot iteration `z ← z² + c`, and the two
//! closed-form membership tests for its largest components.
use vstd::prelude::*;
use num_complex::Complex;
use crate::fixed::{floor_div, ONE};
use crate::complex::{complex_add, complex_mul, norm_sqr, widen};

verus! {

/// One fixed-point step `z² + c`; each component of `z²` is rounded down to
/// the fixed-point grid.
pub open spec fn step(z: (int, int), c: Complex<i64>) -> (int, int) {
    ((z.0 * z.0 - z.1 * z.1) / (ONE as int) + c.re, (2 * z.0 * z.1) / (ONE as int) + c.im)
}

/// The iterate `z_n`, starting from `z_0 = 0`.
pub open spec fn iterate(c: Complex<i64>, n: nat) -> (int, int)
    decreases n,
{
    if n == 0 {
        (0, 0)
    } else {
        step(iterate(c, (n - 1) as nat), c)
    }
}

/// `|z| <= 2`, the fixed escape radius.
pub open spec fn in_disk(z: (int, int)) -> bool {
    z.0 * z.0 + z.1 * z.1 <= 4 * ONE * ONE
}

pub open spec fn point(z: (int, int)) -> Complex<i64> {
    Complex { re: z.0 as i64, im: z.1 as i64 }
}

/// The orbit `z_1, z_2, ...` of `c` under a budget of `n` iterations: it stops
/// before the first iterate outside the escape radius, and after `n` points.
pub open spec fn orbit(c: Complex<i64>, n: nat) -> Seq<Complex<i64>>
    decreases n,
{
    if n == 0 {
        Seq::empty()
    } else {
        let prev = orbit(c, (n - 1) as nat);
        let z = iterate(c, n);
        if prev.len() == n - 1 && in_disk(z) {
            prev.push(point(z))
        } else {
            prev
        }
    }
}

/// Once the orbit has stopped short of its budget, a larger budget adds nothing.
pub proof fn lemma_orbit_stable(c: Complex<i64>, m: nat, k: nat)
    requires
        orbit(c, m).len() < m,
    ensures
        orbit(c, m + k) == orbit(c, m),
    decreases k,
{
    if k > 0 {
        lemma_orbit_stable(c, m, (k - 1) as nat);
        assert(orbit(c, m + k) == orbit(c, (m + k - 1) as nat));
    }
}

/// The orbit under a budget of `n` holds exactly `n` points when none of the
/// iterates `z_1 .. z_n` left the escape radius; a shorter orbit is the only
/// sign that the point escaped within the budget. Its points are the iterates
/// in order.
pub proof fn lemma_orbit_escape(c: Complex<i64>, n: nat)
    ensures
        orbit(c, n).len() <= n,
        orbit(c, n).len() == n <==> forall|j: nat| 1 <= j <= n ==> #[trigger] in_disk(iterate(c, j)),
        forall|j: int| 0 <= j < orbit(c, n).len() ==> #[trigger] orbit(c, n)[j] == point(iterate(c, (j + 1) as nat)),
    decreases n,
{
    if n > 0 {
        lemma_orbit_escape(c, (n - 1) as nat);
        if orbit(c, n).len() == n {
            assert forall|j: nat| 1 <= j <= n implies #[trigger] in_disk(iterate(c, j)) by {
                if j < n {
                    assert(in_disk(iterate(c, j)));
                }
            }
        }
        if forall|j: nat| 1 <= j <= n ==> #[trigger] in_disk(iterate(c, j)) {
            assert forall|j: nat| 1 <= j <= n - 1 implies #[trigger] in_disk(iterate(c, j)) by {
                assert(1 <= j <= n);
            }
            assert(in_disk(iterate(c, n)));
        }
    }
}

proof fn lemma_outside_box(x: int, y: int)
    requires
        x > 2 * ONE || x < -2 * ONE || y > 2 * ONE || y < -2 * ONE,
    ensures
        !in_disk((x, y)),
{
    assert(x * x + y * y > 4 * ONE * ONE) by (nonlinear_arith)
        requires
            x > 2 * ONE || x < -2 * ONE || y > 2 * ONE || y < -2 * ONE,
            ONE > 0,
    ;
}

proof fn lemma_inside_box(x: int, y: int)
    requires
        in_disk((x, y)),
    ensures
        -2 * ONE <= x <= 2 * ONE,
        -2 * ONE <= y <= 2 * ONE,
{
    if x > 2 * ONE || x < -2 * ONE || y > 2 * ONE || y < -2 * ONE {
        lemma_outside_box(x, y);
    }
}

/// The lazily evaluated orbit of one starting point.
pub struct ComplexSequence {
    z: Complex<i64>,
    c: Complex<i64>,
    escaped: bool,
    steps: Ghost<nat>,
}

impl ComplexSequence {
    /// The starting point `c`.
    pub closed spec fn start(&self) -> Complex<i64> {
        self.c
    }

    /// How many iterations were asked of the sequence so far.
    pub closed spec fn steps(&self) -> nat {
        self.steps@
    }

    /// The points handed out so far.
    pub open spec fn produced(&self) -> Seq<Complex<i64>> {
        orbit(self.start(), self.steps())
    }

    pub closed spec fn wf(&self) -> bool {
        &&& self.escaped ==> orbit(self.c, self.steps@).len() < self.steps@
        &&& !self.escaped ==> {
            &&& orbit(self.c, self.steps@).len() == self.steps@
            &&& (self.z.re as int, self.z.im as int) == iterate(self.c, self.steps@)
            &&& in_disk(iterate(self.c, self.steps@))
        }
    }

    /// The next point of the orbit, or `None` once it has left the escape radius.
    pub fn next(&mut self) -> (r: Option<Complex<i64>>)
        requires
            old(self).wf(),
        ensures
            final(self).wf(),
            final(self).start() == old(self).start(),
            final(self).steps() == old(self).steps() + 1,
            final(self).produced() == match r {
                Some(p) => old(self).produced().push(p),
                None => old(self).produced(),
            },
    {
        let ghost s = self.steps@;
        if self.escaped {
            self.steps = Ghost((s + 1) as nat);
            return None;
        }
        proof {
            lemma_inside_box(self.z.re as int, self.z.im as int);
        }
        let w = widen(self.z);
        let sq = complex_mul(w, w);
        proof {
            let (x, y) = (w.re as int, w.im as int);
            assert(x * x <= 4 * ONE * ONE && y * y <= 4 * ONE * ONE && x * x >= 0 && y * y >= 0)
                by (nonlinear_arith)
                requires
                    -2 * ONE <= x <= 2 * ONE,
                    -2 * ONE <= y <= 2 * ONE,
            ;
            assert(-8 * ONE * ONE <= x * y + y * x <= 8 * ONE * ONE && x * y + y * x == 2 * x * y)
                by (nonlinear_arith)
                requires
                    -2 * ONE <= x <= 2 * ONE,
                    -2 * ONE <= y <= 2 * ONE,
            ;
        }
        let one = ONE as i128;
        let scaled = Complex { re: floor_div(sq.re, one), im: floor_div(sq.im, one) };
        let n = complex_add(scaled, widen(self.c));
        assert((n.re as int, n.im as int) == iterate(self.c, s + 1));
        let two = 2 * one;
        let escaped = if n.re > two || n.re < -two || n.im > two || n.im < -two {
            proof {
                lemma_outside_box(n.re as int, n.im as int);
            }
            true
        } else {
            norm_sqr(&n) > 4 * one * one
        };
        self.steps = Ghost((s + 1) as nat);
        if escaped {
            self.escaped = true;
            None
        } else {
            self.z = Complex { re: n.re as i64, im: n.im as i64 };
            Some(self.z)
        }
    }

    /// The next `n` points of the orbit, fewer where it leaves the escape radius.
    pub fn take(&mut self, n: usize) -> (r: Vec<Complex<i64>>)
        requires
            old(self).wf(),
        ensures
            final(self).wf(),
            final(self).start() == old(self).start(),
            final(self).steps() == old(self).steps() + n,
            old(self).produced() + r@ == final(self).produced(),
    {
        let ghost s0 = self.steps@;
        let ghost before = self.produced();
        let mut out: Vec<Complex<i64>> = Vec::new();
        let mut i: usize = 0;
        while i < n && !self.escaped
            invariant
                self.wf(),
                self.start() == old(self).start(),
                self.steps() == s0 + i,
                i <= n,
                before + out@ == self.produced(),
                before == old(self).produced(),
            decreases n - i,
        {
            match self.next() {
                Some(p) => {
                    out.push(p);
                    assert(before + out@ == self.produced());
                },
                None => {
                    assert(before + out@ == self.produced());
                },
            }
            i = i + 1;
        }
        if i < n {
            proof {
                lemma_orbit_stable(self.c, (s0 + i) as nat, (n - i) as nat);
            }
            self.steps = Ghost((s0 + n) as nat);
        }
        out
    }
}

/// The orbit of `c`, evaluated lazily.
pub fn mandelbrot(c: Complex<i64>) -> (r: ComplexSequence)
    ensures
        r.wf(),
        r.start() == c,
        r.steps() == 0,
        r.produced() == Seq::<Complex<i64>>::empty(),
{
    ComplexSequence { z: Complex { re: 0, im: 0 }, c, escaped: false, steps: Ghost(0) }
}

/// `c` lies inside the main cardioid. With `q = |c - 1/4|²` the interior is
/// `q (q + re(c) - 1/4) < im(c)² / 4`; here both sides are multiplied by
/// `256 ONE⁴`, which leaves integers.
pub open spec fn in_main_cardioid(c: Complex<i64>) -> bool {
    let a = 4 * c.re - ONE;
    let b = 4 * c.im;
    let p = a * a + b * b;
    p * (p + 4 * ONE * a) < 4 * b * b * ONE * ONE
}

/// `c` lies inside the disc of radius 1/4 around -1.
pub open spec fn in_first_bulb(c: Complex<i64>) -> bool {
    16 * ((c.re + ONE) * (c.re + ONE) + c.im * c.im) < ONE * ONE
}

proof fn lemma_mul_ge(x: int, y: int, u: int, v: int)
    requires
        x >= u >= 0,
        y >= v >= 0,
    ensures
        x * y >= u * v,
{
    assert(x * y >= u * v) by (nonlinear_arith)
        requires
            x >= u >= 0,
            y >= v >= 0,
    ;
}

/// No point with a coordinate beyond ±2 lies in the main cardioid.
proof fn lemma_cardioid_box(x: int, y: int, s: int)
    requires
        s > 0,
        x > 2 * s || x < -2 * s || y > 2 * s || y < -2 * s,
    ensures
        ({
            let a = 4 * x - s;
            let b = 4 * y;
            let p = a * a + b * b;
            p * (p + 4 * s * a) >= 4 * b * b * s * s
        }),
{
    let a = 4 * x - s;
    let b = 4 * y;
    let p = a * a + b * b;
    let ss = s * s;
    let bb = b * b;
    assert(a * a >= 0 && bb >= 0 && ss > 0) by (nonlinear_arith)
        requires
            s > 0,
            ss == s * s,
            bb == b * b,
    ;
    assert(4 * b * b * s * s == (4 * ss) * bb) by (nonlinear_arith)
        requires
            ss == s * s,
            bb == b * b,
    ;
    if y > 2 * s || y < -2 * s {
        assert(bb > 64 * ss) by (nonlinear_arith)
            requires
                b > 8 * s || b < -8 * s,
                s > 0,
                ss == s * s,
                bb == b * b,
        ;
        assert(p + 4 * s * a >= bb - 4 * ss) by (nonlinear_arith)
            requires
                p == a * a + b * b,
                ss == s * s,
                bb == b * b,
        ;
        lemma_mul_ge(p, p + 4 * s * a, bb, 4 * ss);
    } else if x > 2 * s {
        assert(p >= 49 * ss && 4 * s * a > 0) by (nonlinear_arith)
            requires
                a > 7 * s,
                s > 0,
                p == a * a + b * b,
                ss == s * s,
                b * b >= 0,
        ;
        lemma_mul_ge(p, p + 4 * s * a, 4 * ss, bb);
    } else {
        assert(p >= 81 * ss && p + 4 * s * a >= bb) by (nonlinear_arith)
            requires
                a < -9 * s,
                s > 0,
                p == a * a + b * b,
                ss == s * s,
                bb == b * b,
        ;
        lemma_mul_ge(p, p + 4 * s * a, 4 * ss, bb);
    }
}

/// Whether `c` lies inside the main cardioid of the Mandelbrot set.
pub fn cardioid(c: Complex<i64>) -> (r: bool)
    ensures
        r == in_main_cardioid(c),
{
    let s = ONE as i128;
    let two = 2 * s;
    let x = c.re as i128;
    let y = c.im as i128;
    if x > two || x < -two || y > two || y < -two {
        proof {
            lemma_cardioid_box(x as int, y as int, s as int);
        }
        return false;
    }
    let a = 4 * x - s;
    let b = 4 * y;
    let p = norm_sqr(&Complex { re: a, im: b });
    proof {
        assert(0 <= p <= 145 * s * s) by (nonlinear_arith)
            requires
                p == a * a + b * b,
                -9 * s <= a <= 9 * s,
                -8 * s <= b <= 8 * s,
                s > 0,
        ;
        assert(-36 * s * s <= 4 * s * a <= 36 * s * s) by (nonlinear_arith)
            requires
                -9 * s <= a <= 9 * s,
                s > 0,
        ;
        assert(-200 * s * s * 200 * s * s <= p * (p + 4 * s * a) <= 200 * s * s * 200 * s * s)
            by (nonlinear_arith)
            requires
                0 <= p <= 145 * s * s,
                -36 * s * s <= 4 * s * a <= 36 * s * s,
                s > 0,
        ;
        assert(0 <= 4 * b * b * s * s <= 4 * 64 * s * s * s * s) by (nonlinear_arith)
            requires
                -8 * s <= b <= 8 * s,
                s > 0,
        ;
    }
    p * (p + 4 * s * a) < 4 * b * b * s * s
}

/// Whether `c` lies inside the first bulb of the Mandelbrot set, the disc of
/// radius 1/4 around -1.
pub fn first_bulb(c: Complex<i64>) -> (r: bool)
    ensures
        r == in_first_bulb(c),
{
    let s = ONE as i128;
    let d = complex_add(widen(c), Complex { re: s, im: 0 });
    if d.re > s || d.re < -s || d.im > s || d.im < -s {
        proof {
            let (x, y) = (d.re as int, d.im as int);
            assert(16 * (x * x + y * y) >= s * s) by (nonlinear_arith)
                requires
                    x > s || x < -s || y > s || y < -s,
                    s > 0,
            ;
        }
        return false;
    }
    let n = norm_sqr(&d);
    proof {
        assert(0 <= n <= 2 * s * s) by (nonlinear_arith)
            requires
                n == d.re * d.re + d.im * d.im,
                -s <= d.re <= s,
                -s <= d.im <= s,
        ;
    }
    16 * n < s * s
}

} // verus!
