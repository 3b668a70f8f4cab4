//! Two-dimensional hit counting over a grid of cells, one count grid per layer.
use vstd::prelude::*;
use num_complex::Complex;
use crate::mandelbrot::{mandelbrot, orbit};

verus! {

/// One axis of the grid: `num` equal cells covering `[min, max)`.
pub struct Binning {
    pub min: i64,
    pub max: i64,
    pub num: u16,
}

/// The cell of `v`: `floor((v - min) * num / (max - min))`, where that lies in
/// `[0, num)`.
pub open spec fn bin_of(b: Binning, v: i64) -> Option<int> {
    if v < b.min {
        None
    } else {
        let k = (v - b.min) * b.num / (b.max - b.min);
        if k < b.num {
            Some(k)
        } else {
            None
        }
    }
}

/// The center of cell `i`: `min + (i + 1/2) (max - min) / num`, rounded down
/// to the fixed-point grid.
pub open spec fn center_of(b: Binning, i: int) -> int {
    b.min + (2 * i + 1) * (b.max - b.min) / (2 * b.num)
}

impl Binning {
    pub open spec fn wf(&self) -> bool {
        self.min < self.max
    }

    /// The axis of `num` cells over `[min, max)`.
    pub fn new(min: i64, max: i64, num: u16) -> (r: Binning)
        requires
            min < max,
        ensures
            r.wf(),
            r == (Binning { min, max, num }),
    {
        Binning { min, max, num }
    }

    /// The cell that holds `v`, or `None` where `v` lies outside the axis.
    pub fn bin(&self, v: i64) -> (r: Option<u16>)
        requires
            self.wf(),
        ensures
            r matches Some(k) ==> bin_of(*self, v) == Some(k as int),
            r is None ==> bin_of(*self, v) is None,
    {
        if v < self.min {
            return None;
        }
        let offset = v as i128 - self.min as i128;
        let span = self.max as i128 - self.min as i128;
        proof {
            assert(0 <= offset * self.num <= offset * 0x10000) by (nonlinear_arith)
                requires
                    0 <= offset <= 0x1_0000_0000_0000_0000,
                    0 <= self.num <= 0xffff,
            ;
            assert(offset * 0x10000 <= 0x1_0000_0000_0000_0000 * 0x10000) by (nonlinear_arith)
                requires
                    0 <= offset <= 0x1_0000_0000_0000_0000,
            ;
        }
        let k = offset * self.num as i128 / span;
        if k < self.num as i128 {
            Some(k as u16)
        } else {
            None
        }
    }

    /// The centers of all cells, from the first to the last.
    pub fn iter(&self) -> (r: Vec<i64>)
        requires
            self.wf(),
        ensures
            r@.len() == self.num,
            forall|i: int| 0 <= i < self.num ==> r@[i] == center_of(*self, i),
    {
        let mut out: Vec<i64> = Vec::new();
        let span = self.max as i128 - self.min as i128;
        let twice = 2 * self.num as i128;
        let mut i: u16 = 0;
        while i < self.num
            invariant
                self.wf(),
                i <= self.num,
                out@.len() == i,
                span == self.max - self.min,
                twice == 2 * self.num,
                forall|j: int| 0 <= j < i ==> out@[j] == center_of(*self, j),
            decreases self.num - i,
        {
            let odd = 2 * i as i128 + 1;
            proof {
                assert(0 <= odd * span <= 0x20000 * span) by (nonlinear_arith)
                    requires
                        0 < odd <= 0x20000,
                        0 < span,
                ;
                assert(0x20000 * span <= 0x20000 * 0x1_0000_0000_0000_0000) by (nonlinear_arith)
                    requires
                        0 < span <= 0x1_0000_0000_0000_0000,
                ;
                let q = (odd * span) / (twice as int);
                vstd::arithmetic::div_mod::lemma_fundamental_div_mod(odd * span, twice as int);
                assert(0 <= q < span) by (nonlinear_arith)
                    requires
                        odd * span == twice * q + (odd * span) % (twice as int),
                        0 <= (odd * span) % (twice as int) < twice,
                        0 < odd < twice,
                        0 < span,
                ;
            }
            let q = odd * span / twice;
            out.push((self.min as i128 + q) as i64);
            i = i + 1;
        }
        out
    }
}

/// The flattened cell of point `p`: `x + y * width`, where both axes hold it.
pub open spec fn cell(xaxis: Binning, yaxis: Binning, p: Complex<i64>) -> Option<int> {
    match (bin_of(xaxis, p.re), bin_of(yaxis, p.im)) {
        (Some(bx), Some(by)) => Some(bx + by * xaxis.num),
        _ => None,
    }
}

/// How many of `pts` fall into cell `k`.
pub open spec fn hits(xaxis: Binning, yaxis: Binning, pts: Seq<Complex<i64>>, k: int) -> nat
    decreases pts.len(),
{
    if pts.len() == 0 {
        0
    } else {
        hits(xaxis, yaxis, pts.drop_last(), k) + if cell(xaxis, yaxis, pts.last()) == Some(k) {
            1nat
        } else {
            0nat
        }
    }
}

/// A counter that stops at `u32::MAX` instead of wrapping.
pub open spec fn saturate(n: int) -> int {
    if n > u32::MAX {
        u32::MAX as int
    } else {
        n
    }
}

/// The starting point of a pixel center.
pub open spec fn as_point(c: (i64, i64)) -> Complex<i64> {
    Complex { re: c.0, im: c.1 }
}

/// A layer with iteration threshold `threshold` keeps the orbit of `c` when
/// it escaped within fewer than `threshold` iterations.
pub open spec fn accepted(c: (i64, i64), threshold: nat, max_iter: nat) -> bool {
    orbit(as_point(c), max_iter).len() < threshold
}

/// The hits that the orbits of `centers` leave in cell `k` of a layer with
/// iteration threshold `threshold`, each orbit evaluated up to `max_iter`.
pub open spec fn layer_hits(
    xaxis: Binning,
    yaxis: Binning,
    centers: Seq<(i64, i64)>,
    threshold: nat,
    max_iter: nat,
    k: int,
) -> nat
    decreases centers.len(),
{
    if centers.len() == 0 {
        0
    } else {
        let c = centers.last();
        layer_hits(xaxis, yaxis, centers.drop_last(), threshold, max_iter, k) + if accepted(
            c,
            threshold,
            max_iter,
        ) {
            hits(xaxis, yaxis, orbit(as_point(c), max_iter), k)
        } else {
            0nat
        }
    }
}

proof fn lemma_cell_in_range(xaxis: Binning, yaxis: Binning, p: Complex<i64>)
    requires
        xaxis.wf(),
        yaxis.wf(),
    ensures
        cell(xaxis, yaxis, p) matches Some(k) ==> 0 <= k < xaxis.num * yaxis.num,
{
    if let Some(k) = cell(xaxis, yaxis, p) {
        let bx = bin_of(xaxis, p.re)->Some_0;
        let by = bin_of(yaxis, p.im)->Some_0;
        assert(bx >= 0) by (nonlinear_arith)
            requires
                p.re >= xaxis.min,
                xaxis.min < xaxis.max,
                xaxis.num >= 0,
                bx == (p.re - xaxis.min) * xaxis.num / (xaxis.max - xaxis.min),
        {
            vstd::arithmetic::div_mod::lemma_div_pos_is_pos(
                (p.re - xaxis.min) * xaxis.num, xaxis.max - xaxis.min);
        }
        assert(by >= 0) by (nonlinear_arith)
            requires
                p.im >= yaxis.min,
                yaxis.min < yaxis.max,
                yaxis.num >= 0,
                by == (p.im - yaxis.min) * yaxis.num / (yaxis.max - yaxis.min),
        {
            vstd::arithmetic::div_mod::lemma_div_pos_is_pos(
                (p.im - yaxis.min) * yaxis.num, yaxis.max - yaxis.min);
        }
        assert(0 <= bx + by * xaxis.num < xaxis.num * yaxis.num) by (nonlinear_arith)
            requires
                0 <= bx < xaxis.num,
                0 <= by < yaxis.num,
        ;
    }
}

/// Counting a batch of points does not depend on their order: the hits of two
/// concatenated runs are the hits of each, added.
pub proof fn lemma_hits_concat(xaxis: Binning, yaxis: Binning, a: Seq<Complex<i64>>, b: Seq<Complex<i64>>, k: int)
    ensures
        hits(xaxis, yaxis, a + b, k) == hits(xaxis, yaxis, a, k) + hits(xaxis, yaxis, b, k),
        hits(xaxis, yaxis, a + b, k) == hits(xaxis, yaxis, b + a, k),
{
    lemma_hits_concat_left(xaxis, yaxis, a, b, k);
    lemma_hits_concat_left(xaxis, yaxis, b, a, k);
}

proof fn lemma_hits_concat_left(xaxis: Binning, yaxis: Binning, a: Seq<Complex<i64>>, b: Seq<Complex<i64>>, k: int)
    ensures
        hits(xaxis, yaxis, a + b, k) == hits(xaxis, yaxis, a, k) + hits(xaxis, yaxis, b, k),
    decreases b.len(),
{
    if b.len() == 0 {
        assert(a + b =~= a);
    } else {
        lemma_hits_concat_left(xaxis, yaxis, a, b.drop_last(), k);
        assert((a + b).drop_last() =~= a + b.drop_last());
        assert((a + b).last() == b.last());
    }
}

/// Sweeping the concatenation of two runs of centers leaves, in every cell,
/// the hits of the first run plus those of the second.
pub proof fn lemma_layer_hits_concat(
    xaxis: Binning,
    yaxis: Binning,
    a: Seq<(i64, i64)>,
    b: Seq<(i64, i64)>,
    threshold: nat,
    max_iter: nat,
    k: int,
)
    ensures
        layer_hits(xaxis, yaxis, a + b, threshold, max_iter, k) == layer_hits(xaxis, yaxis, a, threshold, max_iter, k)
            + layer_hits(xaxis, yaxis, b, threshold, max_iter, k),
    decreases b.len(),
{
    if b.len() == 0 {
        assert(a + b =~= a);
    } else {
        lemma_layer_hits_concat(xaxis, yaxis, a, b.drop_last(), threshold, max_iter, k);
        assert((a + b).drop_last() =~= a + b.drop_last());
        assert((a + b).last() == b.last());
    }
}

/// Adding two saturated counters saturates as adding the exact counts does.
pub proof fn lemma_saturate_merge(x: int, y: int)
    requires
        x >= 0,
        y >= 0,
    ensures
        saturate(saturate(x) + saturate(y)) == saturate(x + y),
{
}

/// The grids that the batches `parts` leave when each is swept into a zeroed
/// grid and the grids are merged one after another.
pub open spec fn merged_batches(
    xaxis: Binning,
    yaxis: Binning,
    parts: Seq<Seq<(i64, i64)>>,
    threshold: nat,
    max_iter: nat,
    k: int,
) -> int
    decreases parts.len(),
{
    if parts.len() == 0 {
        0
    } else {
        saturate(
            merged_batches(xaxis, yaxis, parts.drop_last(), threshold, max_iter, k) + saturate(
                layer_hits(xaxis, yaxis, parts.last(), threshold, max_iter, k) as int,
            ),
        )
    }
}

/// However the centers are cut into batches, sweeping each batch on its own
/// and merging the grids gives, cell by cell, the grid of one sweep over all
/// centers in order: the count is independent of the number of workers.
pub proof fn lemma_batches_sweep(
    xaxis: Binning,
    yaxis: Binning,
    parts: Seq<Seq<(i64, i64)>>,
    threshold: nat,
    max_iter: nat,
    k: int,
)
    ensures
        merged_batches(xaxis, yaxis, parts, threshold, max_iter, k) == saturate(
            layer_hits(xaxis, yaxis, parts.flatten(), threshold, max_iter, k) as int,
        ),
    decreases parts.len(),
{
    parts.lemma_flatten_and_flatten_alt_are_equivalent();
    if parts.len() > 0 {
        lemma_batches_sweep(xaxis, yaxis, parts.drop_last(), threshold, max_iter, k);
        parts.drop_last().lemma_flatten_and_flatten_alt_are_equivalent();
        lemma_layer_hits_concat(xaxis, yaxis, parts.drop_last().flatten_alt(), parts.last(), threshold, max_iter, k);
        lemma_saturate_merge(
            layer_hits(xaxis, yaxis, parts.drop_last().flatten(), threshold, max_iter, k) as int,
            layer_hits(xaxis, yaxis, parts.last(), threshold, max_iter, k) as int,
        );
    }
}

/// Accumulates hit counts: one count grid per layer over a shared pair of axes.
pub struct Histogram {
    xaxis: Binning,
    yaxis: Binning,
    bins: Vec<Vec<u32>>,
}

impl Histogram {
    pub closed spec fn x_axis(&self) -> Binning {
        self.xaxis
    }

    pub closed spec fn y_axis(&self) -> Binning {
        self.yaxis
    }

    /// The count grids, one per layer.
    pub closed spec fn counts(&self) -> Seq<Seq<u32>> {
        self.bins@.map_values(|v: Vec<u32>| v@)
    }

    /// Number of cells of each grid.
    pub open spec fn size(&self) -> nat {
        (self.x_axis().num * self.y_axis().num) as nat
    }

    pub open spec fn wf(&self) -> bool {
        &&& self.x_axis().wf()
        &&& self.y_axis().wf()
        &&& forall|i: int| 0 <= i < self.counts().len() ==> #[trigger] self.counts()[i].len() == self.size()
    }

    /// The histogram over `[xmin, xmax) × [ymin, ymax)`, with `xnum × ynum`
    /// cells, counting into `bins`.
    pub fn new(xmin: i64, xmax: i64, xnum: u16, ymin: i64, ymax: i64, ynum: u16, bins: Vec<Vec<u32>>) -> (r: Histogram)
        requires
            xmin < xmax,
            ymin < ymax,
            forall|i: int| 0 <= i < bins@.len() ==> #[trigger] bins@[i]@.len() == xnum * ynum,
        ensures
            r.wf(),
            r.x_axis() == (Binning { min: xmin, max: xmax, num: xnum }),
            r.y_axis() == (Binning { min: ymin, max: ymax, num: ynum }),
            r.counts() == bins@.map_values(|v: Vec<u32>| v@),
    {
        let xaxis = Binning::new(xmin, xmax, xnum);
        let yaxis = Binning::new(ymin, ymax, ynum);
        let r = Histogram { xaxis, yaxis, bins };
        assert(forall|i: int| 0 <= i < r.counts().len() ==> #[trigger] r.counts()[i] == r.bins@[i]@);
        r
    }

    /// The count grids, one per layer.
    pub fn bins(&self) -> (r: &Vec<Vec<u32>>)
        ensures
            r@.map_values(|v: Vec<u32>| v@) == self.counts(),
    {
        &self.bins
    }

    /// Gives the count grids back.
    pub fn into_bins(self) -> (r: Vec<Vec<u32>>)
        ensures
            r@.map_values(|v: Vec<u32>| v@) == self.counts(),
    {
        self.bins
    }

    fn index(&self, x: u16, y: u16) -> (r: usize)
        requires
            x < self.x_axis().num,
            y < self.y_axis().num,
        ensures
            r == x + y * self.x_axis().num,
            r < self.size(),
    {
        proof {
            assert(x + y * self.xaxis.num < self.xaxis.num * self.yaxis.num) by (nonlinear_arith)
                requires
                    x < self.xaxis.num,
                    y < self.yaxis.num,
            ;
            assert(self.xaxis.num * self.yaxis.num <= 0xffff * 0xffff) by (nonlinear_arith)
                requires
                    self.xaxis.num <= 0xffff,
                    self.yaxis.num <= 0xffff,
            ;
        }
        x as usize + y as usize * self.xaxis.num as usize
    }

    /// The centers of all cells in row-major order: `y` outer, `x` inner.
    pub fn centers(&self) -> (r: Vec<(i64, i64)>)
        requires
            self.wf(),
        ensures
            r@.len() == self.size(),
            forall|k: int|
                0 <= k < self.size() ==> #[trigger] r@[k] == (
                    center_of(self.x_axis(), k % self.x_axis().num as int) as i64,
                    center_of(self.y_axis(), k / self.x_axis().num as int) as i64,
                ),
    {
        let xs = self.xaxis.iter();
        let ys = self.yaxis.iter();
        let w = self.xaxis.num as usize;
        let mut out: Vec<(i64, i64)> = Vec::new();
        let mut j: usize = 0;
        while j < ys.len()
            invariant
                self.wf(),
                xs@.len() == w,
                w == self.xaxis.num,
                ys@.len() == self.yaxis.num,
                forall|i: int| 0 <= i < w ==> xs@[i] == center_of(self.xaxis, i),
                forall|i: int| 0 <= i < ys@.len() ==> ys@[i] == center_of(self.yaxis, i),
                j <= ys@.len(),
                out@.len() == j * w,
                forall|k: int|
                    0 <= k < j * w ==> #[trigger] out@[k] == (
                        center_of(self.xaxis, k % w as int) as i64,
                        center_of(self.yaxis, k / w as int) as i64,
                    ),
            decreases ys@.len() - j,
        {
            let mut i: usize = 0;
            while i < w
                invariant
                    self.wf(),
                    xs@.len() == w,
                    w == self.xaxis.num,
                    ys@.len() == self.yaxis.num,
                    forall|i: int| 0 <= i < w ==> xs@[i] == center_of(self.xaxis, i),
                    forall|i: int| 0 <= i < ys@.len() ==> ys@[i] == center_of(self.yaxis, i),
                    j < ys@.len(),
                    i <= w,
                    out@.len() == j * w + i,
                    forall|k: int|
                        0 <= k < j * w + i ==> #[trigger] out@[k] == (
                            center_of(self.xaxis, k % w as int) as i64,
                            center_of(self.yaxis, k / w as int) as i64,
                        ),
                decreases w - i,
            {
                proof {
                    assert((j * w + i) % (w as int) == i && (j * w + i) / (w as int) == j) by (nonlinear_arith)
                        requires
                            0 <= i < w,
                            0 <= j,
                    {
                        vstd::arithmetic::div_mod::lemma_fundamental_div_mod_converse(
                            (j * w + i) as int, w as int, j as int, i as int);
                    }
                    assert(j * w + i < 0xffff * 0xffff) by (nonlinear_arith)
                        requires
                            0 <= i < w <= 0xffff,
                            0 <= j < 0xffff,
                    ;
                }
                out.push((xs[i], ys[j]));
                i = i + 1;
            }
            proof {
                assert((j + 1) * w == j * w + w) by (nonlinear_arith);
            }
            j = j + 1;
        }
        proof {
            assert(ys@.len() * w == self.size()) by (nonlinear_arith)
                requires
                    ys@.len() == self.yaxis.num,
                    w == self.xaxis.num,
            ;
        }
        out
    }
    /// Counts the point `(x, y)` in layer `i`; a point outside the grid is
    /// dropped.
    pub fn fill(&mut self, i: usize, x: i64, y: i64)
        requires
            old(self).wf(),
            i < old(self).counts().len(),
        ensures
            final(self).wf(),
            final(self).x_axis() == old(self).x_axis(),
            final(self).y_axis() == old(self).y_axis(),
            final(self).counts().len() == old(self).counts().len(),
            forall|l: int|
                0 <= l < old(self).counts().len() && l != i ==> #[trigger] final(self).counts()[l]
                    == old(self).counts()[l],
            forall|k: int|
                0 <= k < old(self).size() ==> #[trigger] final(self).counts()[i as int][k] == saturate(
                    old(self).counts()[i as int][k] + if cell(
                        old(self).x_axis(),
                        old(self).y_axis(),
                        Complex { re: x, im: y },
                    ) == Some(k) {
                        1int
                    } else {
                        0int
                    },
                ),
    {
        let nx = self.xaxis.bin(x);
        let ny = self.yaxis.bin(y);
        proof {
            lemma_cell_in_range(self.xaxis, self.yaxis, Complex { re: x, im: y });
            assert(self.counts()[i as int] == self.bins@[i as int]@);
        }
        let ghost c0 = self.counts();
        match (nx, ny) {
            (Some(bx), Some(by)) => {
                let idx = self.index(bx, by);
                let v = self.bins[i][idx].saturating_add(1);
                self.bins[i][idx] = v;
                proof {
                    assert(self.counts() =~= c0.update(i as int, c0[i as int].update(idx as int, v)));
                }
            },
            _ => {},
        }
    }

    /// Counts every point of `pts` in layer `i`.
    fn fill_orbit(&mut self, i: usize, pts: &Vec<Complex<i64>>)
        requires
            old(self).wf(),
            i < old(self).counts().len(),
        ensures
            final(self).wf(),
            final(self).x_axis() == old(self).x_axis(),
            final(self).y_axis() == old(self).y_axis(),
            final(self).counts().len() == old(self).counts().len(),
            forall|l: int|
                0 <= l < old(self).counts().len() && l != i ==> #[trigger] final(self).counts()[l]
                    == old(self).counts()[l],
            forall|k: int|
                0 <= k < old(self).size() ==> #[trigger] final(self).counts()[i as int][k] == saturate(
                    old(self).counts()[i as int][k] + hits(old(self).x_axis(), old(self).y_axis(), pts@, k),
                ),
    {
        let ghost start = self.counts();
        let mut j: usize = 0;
        while j < pts.len()
            invariant
                self.wf(),
                self.x_axis() == old(self).x_axis(),
                self.y_axis() == old(self).y_axis(),
                start == old(self).counts(),
                i < start.len(),
                self.counts().len() == start.len(),
                j <= pts@.len(),
                forall|l: int| 0 <= l < start.len() && l != i ==> #[trigger] self.counts()[l] == start[l],
                forall|k: int|
                    0 <= k < self.size() ==> #[trigger] self.counts()[i as int][k] == saturate(
                        start[i as int][k] + hits(self.x_axis(), self.y_axis(), pts@.take(j as int), k),
                    ),
            decreases pts@.len() - j,
        {
            proof {
                assert(pts@.take(j + 1).drop_last() =~= pts@.take(j as int));
            }
            self.fill(i, pts[j].re, pts[j].im);
            j = j + 1;
        }
        proof {
            assert(pts@.take(j as int) =~= pts@);
        }
    }

    /// Runs the orbit of every center in `centers` up to `max_iter` iterations
    /// and counts its points in each layer `l` whose threshold `thresholds[l]`
    /// exceeds the orbit's length.
    pub fn accumulate(&mut self, centers: &Vec<(i64, i64)>, thresholds: &Vec<usize>, max_iter: usize)
        requires
            old(self).wf(),
            thresholds@.len() == old(self).counts().len(),
        ensures
            final(self).wf(),
            final(self).x_axis() == old(self).x_axis(),
            final(self).y_axis() == old(self).y_axis(),
            final(self).counts().len() == old(self).counts().len(),
            forall|l: int, k: int|
                0 <= l < old(self).counts().len() && 0 <= k < old(self).size()
                    ==> #[trigger] final(self).counts()[l][k] == saturate(
                    old(self).counts()[l][k] + layer_hits(
                        old(self).x_axis(),
                        old(self).y_axis(),
                        centers@,
                        thresholds@[l] as nat,
                        max_iter as nat,
                        k,
                    ),
                ),
    {
        let ghost start = self.counts();
        let ghost xa = self.x_axis();
        let ghost ya = self.y_axis();
        let mut j: usize = 0;
        while j < centers.len()
            invariant
                self.wf(),
                self.x_axis() == xa,
                self.y_axis() == ya,
                xa == old(self).x_axis(),
                ya == old(self).y_axis(),
                start == old(self).counts(),
                thresholds@.len() == start.len(),
                self.counts().len() == start.len(),
                j <= centers@.len(),
                forall|l: int, k: int|
                    0 <= l < start.len() && 0 <= k < self.size() ==> #[trigger] self.counts()[l][k]
                        == saturate(
                        start[l][k] + layer_hits(
                            xa,
                            ya,
                            centers@.take(j as int),
                            thresholds@[l] as nat,
                            max_iter as nat,
                            k,
                        ),
                    ),
            decreases centers@.len() - j,
        {
            let c = Complex { re: centers[j].0, im: centers[j].1 };
            let mut seq = mandelbrot(c);
            let pts = seq.take(max_iter);
            proof {
                assert(pts@ =~= orbit(c, max_iter as nat));
                assert(centers@.take(j + 1).drop_last() =~= centers@.take(j as int));
                assert(as_point(centers@[j as int]) == c);
            }
            let ghost mid = self.counts();
            let mut l: usize = 0;
            while l < thresholds.len()
                invariant
                    self.wf(),
                    self.x_axis() == xa,
                    self.y_axis() == ya,
                    thresholds@.len() == start.len(),
                    self.counts().len() == start.len(),
                    mid.len() == start.len(),
                    j < centers@.len(),
                    l <= thresholds@.len(),
                    pts@ == orbit(c, max_iter as nat),
                    c == as_point(centers@[j as int]),
                    forall|m: int, k: int|
                        0 <= m < start.len() && 0 <= k < self.size() ==> #[trigger] mid[m][k]
                            == saturate(
                            start[m][k] + layer_hits(
                                xa,
                                ya,
                                centers@.take(j as int),
                                thresholds@[m] as nat,
                                max_iter as nat,
                                k,
                            ),
                        ),
                    forall|m: int, k: int|
                        l <= m < start.len() && 0 <= k < self.size() ==> #[trigger] self.counts()[m][k]
                            == mid[m][k],
                    forall|m: int, k: int|
                        0 <= m < l && 0 <= k < self.size() ==> #[trigger] self.counts()[m][k]
                            == saturate(
                            start[m][k] + layer_hits(
                                xa,
                                ya,
                                centers@.take(j + 1),
                                thresholds@[m] as nat,
                                max_iter as nat,
                                k,
                            ),
                        ),
                decreases thresholds@.len() - l,
            {
                let ghost before = self.counts();
                if pts.len() < thresholds[l] {
                    self.fill_orbit(l, &pts);
                }
                proof {
                    assert forall|m: int, k: int|
                        0 <= m <= l && 0 <= k < self.size() implies #[trigger] self.counts()[m][k]
                            == saturate(
                            start[m][k] + layer_hits(
                                xa,
                                ya,
                                centers@.take(j + 1),
                                thresholds@[m] as nat,
                                max_iter as nat,
                                k,
                            ),
                        ) by {
                        if m < l {
                            assert(self.counts()[m] == before[m]);
                        } else {
                            let cs = centers@.take(j + 1);
                            assert(cs.last() == centers@[j as int]);
                            assert(cs.drop_last() =~= centers@.take(j as int));
                            assert(before[m][k] == mid[m][k]);
                        }
                    }
                }
                l = l + 1;
            }
            j = j + 1;
        }
        proof {
            assert(centers@.take(j as int) =~= centers@);
        }
    }

    /// Adds the counts of `other`, layer by layer and cell by cell.
    pub fn merge(&mut self, other: &Histogram)
        requires
            old(self).wf(),
            other.wf(),
            other.x_axis() == old(self).x_axis(),
            other.y_axis() == old(self).y_axis(),
            other.counts().len() == old(self).counts().len(),
        ensures
            final(self).wf(),
            final(self).x_axis() == old(self).x_axis(),
            final(self).y_axis() == old(self).y_axis(),
            final(self).counts().len() == old(self).counts().len(),
            forall|l: int, k: int|
                0 <= l < old(self).counts().len() && 0 <= k < old(self).size()
                    ==> #[trigger] final(self).counts()[l][k] == saturate(
                    old(self).counts()[l][k] + other.counts()[l][k],
                ),
    {
        let ghost start = self.counts();
        let n = self.bins.len();
        let mut l: usize = 0;
        while l < n
            invariant
                self.wf(),
                other.wf(),
                self.x_axis() == old(self).x_axis(),
                self.y_axis() == old(self).y_axis(),
                other.x_axis() == old(self).x_axis(),
                other.y_axis() == old(self).y_axis(),
                start == old(self).counts(),
                n == start.len(),
                other.counts().len() == n,
                self.counts().len() == n,
                l <= n,
                forall|m: int, k: int|
                    0 <= m < l && 0 <= k < self.size() ==> #[trigger] self.counts()[m][k] == saturate(
                        start[m][k] + other.counts()[m][k],
                    ),
                forall|m: int| l <= m < n ==> #[trigger] self.counts()[m] == start[m],
            decreases n - l,
        {
            let size = self.bins[l].len();
            proof {
                assert(self.counts()[l as int] == self.bins@[l as int]@);
                assert(other.counts()[l as int] == other.bins@[l as int]@);
            }
            let mut k: usize = 0;
            while k < size
                invariant
                    self.wf(),
                    other.wf(),
                    self.x_axis() == old(self).x_axis(),
                    self.y_axis() == old(self).y_axis(),
                    other.x_axis() == old(self).x_axis(),
                    other.y_axis() == old(self).y_axis(),
                    start == old(self).counts(),
                    n == start.len(),
                    other.counts().len() == n,
                    self.counts().len() == n,
                    l < n,
                    size == self.size(),
                    k <= size,
                    forall|m: int, c: int|
                        0 <= m < l && 0 <= c < self.size() ==> #[trigger] self.counts()[m][c] == saturate(
                            start[m][c] + other.counts()[m][c],
                        ),
                    forall|m: int| l < m < n ==> #[trigger] self.counts()[m] == start[m],
                    forall|c: int|
                        0 <= c < k ==> #[trigger] self.counts()[l as int][c] == saturate(
                            start[l as int][c] + other.counts()[l as int][c],
                        ),
                    forall|c: int| k <= c < size ==> #[trigger] self.counts()[l as int][c] == start[l as int][c],
                decreases size - k,
            {
                proof {
                    assert(self.counts()[l as int] == self.bins@[l as int]@);
                    assert(other.counts()[l as int] == other.bins@[l as int]@);
                }
                let ghost c0 = self.counts();
                let v = self.bins[l][k].saturating_add(other.bins[l][k]);
                self.bins[l][k] = v;
                proof {
                    assert(self.counts() =~= c0.update(l as int, c0[l as int].update(k as int, v)));
                }
                k = k + 1;
            }
            l = l + 1;
        }
    }
}

} // verus!
