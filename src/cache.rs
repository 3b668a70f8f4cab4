//! The render configuration, and the cache of count grids computed for it.
use vstd::prelude::*;
use crate::histogram::{Binning, Histogram, center_of, layer_hits, saturate};

verus! {

/// One layer of the render: an orbit belongs to it when it escapes in fewer
/// than `iterations` iterations.
#[derive(Debug)]
pub struct Layer {
    pub iterations: usize,
    pub color: [u8; 3],
}

/// The counts of one layer, with the iteration threshold they were made with.
#[derive(Clone, Debug, PartialEq)]
pub struct LayerData {
    pub iterations: usize,
    pub data: Vec<u32>,
}

/// The visible region `[x[0], x[1]) × [y[0], y[1])`, in fixed-point coordinates.
#[derive(Clone, Copy, Debug)]
pub struct Area {
    pub x: [i64; 2],
    pub y: [i64; 2],
}

/// Width and height of the pixel grid.
#[derive(Clone, Copy, Debug, PartialEq, Eq, Structural)]
pub struct Dimensions {
    pub x: u16,
    pub y: u16,
}

/// What to render: region, pixel grid and layers.
#[derive(Debug)]
pub struct Configuration {
    pub area: Area,
    pub dimensions: Dimensions,
    pub layers: Vec<Layer>,
}

/// Count grids computed for a configuration; `valid` once a full sweep has
/// filled them.
#[derive(Clone, Debug, PartialEq)]
pub struct Cache {
    pub area: Area,
    pub dimensions: Dimensions,
    pub layers: Vec<LayerData>,
    pub valid: bool,
}

impl PartialEq for Area {
    fn eq(&self, other: &Area) -> (r: bool) {
        let r = self.x[0] == other.x[0] && self.x[1] == other.x[1] && self.y[0] == other.y[0]
            && self.y[1] == other.y[1];
        proof {
            if r {
                assert(self.x =~= other.x);
                assert(self.y =~= other.y);
            }
        }
        r
    }
}

impl vstd::std_specs::cmp::PartialEqSpecImpl for Area {
    open spec fn obeys_eq_spec() -> bool {
        true
    }

    open spec fn eq_spec(&self, other: &Area) -> bool {
        *self == *other
    }
}

impl Area {
    /// Both intervals are non-empty.
    pub open spec fn wf(&self) -> bool {
        self.x[0] < self.x[1] && self.y[0] < self.y[1]
    }
}

impl Dimensions {
    /// Number of pixels.
    pub fn size(self) -> (r: usize)
        ensures
            r == self.x * self.y,
    {
        proof {
            assert(self.x * self.y <= 0xffff * 0xffff) by (nonlinear_arith)
                requires
                    self.x <= 0xffff,
                    self.y <= 0xffff,
            ;
        }
        self.x as usize * self.y as usize
    }
}

impl PartialEq<Layer> for LayerData {
    fn eq(&self, other: &Layer) -> (r: bool) {
        self.iterations == other.iterations
    }
}

impl vstd::std_specs::cmp::PartialEqSpecImpl<Layer> for LayerData {
    open spec fn obeys_eq_spec() -> bool {
        true
    }

    open spec fn eq_spec(&self, other: &Layer) -> bool {
        self.iterations == other.iterations
    }
}

/// The part of a configuration that the counts depend on: region, pixel grid
/// and the iteration threshold of each layer, in order. Colors are not part of
/// it.
pub type Fingerprint = (Area, Dimensions, Seq<usize>);

impl Configuration {
    pub open spec fn fingerprint(&self) -> Fingerprint {
        (self.area, self.dimensions, self.layers@.map_values(|l: Layer| l.iterations))
    }
}

/// The largest threshold of `thresholds`, or 0 where there is none.
pub open spec fn max_threshold(thresholds: Seq<usize>) -> nat
    decreases thresholds.len(),
{
    if thresholds.len() == 0 {
        0
    } else {
        let m = max_threshold(thresholds.drop_last());
        if thresholds.last() > m {
            thresholds.last() as nat
        } else {
            m
        }
    }
}

impl Cache {
    pub open spec fn fingerprint(&self) -> Fingerprint {
        (self.area, self.dimensions, self.layers@.map_values(|l: LayerData| l.iterations))
    }

    /// Every grid holds one counter per pixel.
    pub open spec fn wf(&self) -> bool {
        forall|i: int|
            0 <= i < self.layers@.len() ==> #[trigger] self.layers@[i].data@.len() == self.dimensions.x
                * self.dimensions.y
    }

    /// The zeroed, not yet valid cache shaped after `c`: one grid per layer,
    /// with the layer's threshold.
    pub fn new(c: &Configuration) -> (r: Cache)
        ensures
            r.wf(),
            r.fingerprint() == c.fingerprint(),
            !r.valid,
            forall|i: int, k: int|
                0 <= i < r.layers@.len() && 0 <= k < r.layers@[i].data@.len() ==> #[trigger] r.layers@[i].data@[k]
                    == 0,
    {
        let size = c.dimensions.size();
        let mut layers: Vec<LayerData> = Vec::new();
        let mut i: usize = 0;
        while i < c.layers.len()
            invariant
                i <= c.layers@.len(),
                size == c.dimensions.x * c.dimensions.y,
                layers@.len() == i,
                forall|j: int| 0 <= j < i ==> #[trigger] layers@[j].iterations == c.layers@[j].iterations,
                forall|j: int| 0 <= j < i ==> #[trigger] layers@[j].data@.len() == size,
                forall|j: int, k: int|
                    0 <= j < i && 0 <= k < layers@[j].data@.len() ==> #[trigger] layers@[j].data@[k] == 0,
            decreases c.layers@.len() - i,
        {
            layers.push(LayerData { iterations: c.layers[i].iterations, data: vec![0; size] });
            i = i + 1;
        }
        let r = Cache { area: c.area, dimensions: c.dimensions, layers, valid: false };
        assert(r.fingerprint().2 =~= c.fingerprint().2);
        r
    }

    /// The x axis of the pixel grid.
    pub open spec fn x_axis(&self) -> Binning {
        Binning { min: self.area.x[0], max: self.area.x[1], num: self.dimensions.x }
    }

    /// The y axis of the pixel grid.
    pub open spec fn y_axis(&self) -> Binning {
        Binning { min: self.area.y[0], max: self.area.y[1], num: self.dimensions.y }
    }

    /// The iteration threshold of each layer, in order.
    pub open spec fn threshold_seq(&self) -> Seq<usize> {
        self.fingerprint().2
    }

    /// All pixel centers, row by row.
    pub open spec fn pixel_centers(&self) -> Seq<(i64, i64)> {
        Seq::new(
            (self.dimensions.x * self.dimensions.y) as nat,
            |k: int|
                (
                    center_of(self.x_axis(), k % self.dimensions.x as int) as i64,
                    center_of(self.y_axis(), k / self.dimensions.x as int) as i64,
                ),
        )
    }

    /// The iteration threshold of each layer, in order.
    pub fn thresholds(&self) -> (r: Vec<usize>)
        ensures
            r@ == self.threshold_seq(),
    {
        let mut r: Vec<usize> = Vec::new();
        let mut i: usize = 0;
        while i < self.layers.len()
            invariant
                i <= self.layers@.len(),
                r@ =~= self.threshold_seq().take(i as int),
            decreases self.layers@.len() - i,
        {
            r.push(self.layers[i].iterations);
            i = i + 1;
        }
        assert(r@ =~= self.threshold_seq());
        r
    }

    /// The iteration budget of one orbit: the largest threshold of all layers.
    pub fn max_iterations(&self) -> (r: usize)
        ensures
            r == max_threshold(self.threshold_seq()),
    {
        let mut m: usize = 0;
        let mut i: usize = 0;
        while i < self.layers.len()
            invariant
                i <= self.layers@.len(),
                m == max_threshold(self.threshold_seq().take(i as int)),
            decreases self.layers@.len() - i,
        {
            proof {
                assert(self.threshold_seq().take(i + 1).drop_last() =~= self.threshold_seq().take(i as int));
            }
            if self.layers[i].iterations > m {
                m = self.layers[i].iterations;
            }
            i = i + 1;
        }
        assert(self.threshold_seq().take(i as int) =~= self.threshold_seq());
        m
    }

    /// All pixel centers, row by row: the order shared by population and
    /// colorization.
    pub fn centers(&self) -> (r: Vec<(i64, i64)>)
        requires
            self.area.wf(),
        ensures
            r@ == self.pixel_centers(),
    {
        let h = Histogram::new(
            self.area.x[0],
            self.area.x[1],
            self.dimensions.x,
            self.area.y[0],
            self.area.y[1],
            self.dimensions.y,
            Vec::new(),
        );
        let r = h.centers();
        assert(r@ =~= self.pixel_centers());
        r
    }

    /// Sweeps the orbits of `batch` into fresh zeroed grids, one per layer.
    pub fn sweep(&self, batch: &Vec<(i64, i64)>) -> (r: Histogram)
        requires
            self.area.wf(),
        ensures
            r.wf(),
            r.x_axis() == self.x_axis(),
            r.y_axis() == self.y_axis(),
            r.counts().len() == self.layers@.len(),
            forall|l: int, k: int|
                0 <= l < self.layers@.len() && 0 <= k < r.size() ==> #[trigger] r.counts()[l][k]
                    == saturate(
                    layer_hits(
                        self.x_axis(),
                        self.y_axis(),
                        batch@,
                        self.threshold_seq()[l] as nat,
                        max_threshold(self.threshold_seq()),
                        k,
                    ) as int,
                ),
    {
        let size = self.dimensions.size();
        let mut bins: Vec<Vec<u32>> = Vec::new();
        let mut i: usize = 0;
        while i < self.layers.len()
            invariant
                i <= self.layers@.len(),
                size == self.dimensions.x * self.dimensions.y,
                bins@.len() == i,
                forall|j: int| 0 <= j < i ==> #[trigger] bins@[j]@ == Seq::new(size as nat, |k: int| 0u32),
            decreases self.layers@.len() - i,
        {
            let zeros: Vec<u32> = vec![0; size];
            assert(zeros@ =~= Seq::new(size as nat, |k: int| 0u32));
            bins.push(zeros);
            i = i + 1;
        }
        let mut h = Histogram::new(
            self.area.x[0],
            self.area.x[1],
            self.dimensions.x,
            self.area.y[0],
            self.area.y[1],
            self.dimensions.y,
            bins,
        );
        let thresholds = self.thresholds();
        let max_iter = self.max_iterations();
        h.accumulate(batch, &thresholds, max_iter);
        h
    }

    /// Adds the counts of `h` into the grids, layer by layer and cell by cell.
    pub fn absorb(&mut self, h: Histogram)
        requires
            old(self).wf(),
            h.wf(),
            h.x_axis().num == old(self).dimensions.x,
            h.y_axis().num == old(self).dimensions.y,
            h.counts().len() == old(self).layers@.len(),
        ensures
            final(self).wf(),
            final(self).fingerprint() == old(self).fingerprint(),
            final(self).valid == old(self).valid,
            forall|l: int, k: int|
                0 <= l < old(self).layers@.len() && 0 <= k < old(self).layers@[l].data@.len()
                    ==> #[trigger] final(self).layers@[l].data@[k] == saturate(
                    old(self).layers@[l].data@[k] + h.counts()[l][k],
                ),
    {
        let ghost start = self.layers@;
        let ghost counts = h.counts();
        let bins = h.into_bins();
        let size = self.dimensions.size();
        let mut l: usize = 0;
        while l < self.layers.len()
            invariant
                self.wf(),
                self.area == old(self).area,
                self.dimensions == old(self).dimensions,
                self.valid == old(self).valid,
                start == old(self).layers@,
                size == self.dimensions.x * self.dimensions.y,
                bins@.map_values(|v: Vec<u32>| v@) == counts,
                counts.len() == start.len(),
                forall|m: int| 0 <= m < counts.len() ==> #[trigger] counts[m].len() == size,
                self.layers@.len() == start.len(),
                l <= start.len(),
                forall|m: int| 0 <= m < start.len() ==> #[trigger] self.layers@[m].iterations == start[m].iterations,
                forall|m: int, k: int|
                    0 <= m < l && 0 <= k < size ==> #[trigger] self.layers@[m].data@[k] == saturate(
                        start[m].data@[k] + counts[m][k],
                    ),
                forall|m: int| l <= m < start.len() ==> #[trigger] self.layers@[m].data@ == start[m].data@,
            decreases start.len() - l,
        {
            let mut k: usize = 0;
            proof {
                assert(bins@[l as int]@ == counts[l as int]);
            }
            while k < size
                invariant
                    self.wf(),
                    self.area == old(self).area,
                    self.dimensions == old(self).dimensions,
                    self.valid == old(self).valid,
                    start == old(self).layers@,
                    size == self.dimensions.x * self.dimensions.y,
                    bins@.map_values(|v: Vec<u32>| v@) == counts,
                    bins@[l as int]@ == counts[l as int],
                    counts.len() == start.len(),
                    forall|m: int| 0 <= m < counts.len() ==> #[trigger] counts[m].len() == size,
                    self.layers@.len() == start.len(),
                    l < start.len(),
                    k <= size,
                    forall|m: int| 0 <= m < start.len() ==> #[trigger] self.layers@[m].iterations == start[m].iterations,
                    forall|m: int, c: int|
                        0 <= m < l && 0 <= c < size ==> #[trigger] self.layers@[m].data@[c] == saturate(
                            start[m].data@[c] + counts[m][c],
                        ),
                    forall|m: int| l < m < start.len() ==> #[trigger] self.layers@[m].data@ == start[m].data@,
                    forall|c: int|
                        0 <= c < k ==> #[trigger] self.layers@[l as int].data@[c] == saturate(
                            start[l as int].data@[c] + counts[l as int][c],
                        ),
                    forall|c: int| k <= c < size ==> #[trigger] self.layers@[l as int].data@[c] == start[l as int].data@[c],
                decreases size - k,
            {
                let v = self.layers[l].data[k].saturating_add(bins[l][k]);
                self.layers[l].data[k] = v;
                k = k + 1;
            }
            l = l + 1;
        }
        assert(self.fingerprint().2 =~= old(self).fingerprint().2);
    }

    /// Sweeps every pixel center into the grids and marks the cache valid.
    /// Each layer `l` receives the points of every orbit, evaluated up to the
    /// largest threshold, that escaped in fewer than its own threshold.
    pub fn populate(&mut self)
        requires
            old(self).wf(),
            old(self).area.wf(),
        ensures
            final(self).wf(),
            final(self).fingerprint() == old(self).fingerprint(),
            final(self).valid,
            forall|l: int, k: int|
                0 <= l < old(self).layers@.len() && 0 <= k < old(self).layers@[l].data@.len()
                    ==> #[trigger] final(self).layers@[l].data@[k] == saturate(
                    old(self).layers@[l].data@[k] + layer_hits(
                        old(self).x_axis(),
                        old(self).y_axis(),
                        old(self).pixel_centers(),
                        old(self).threshold_seq()[l] as nat,
                        max_threshold(old(self).threshold_seq()),
                        k,
                    ),
                ),
    {
        let centers = self.centers();
        let h = self.sweep(&centers);
        self.absorb(h);
        self.valid = true;
    }

    /// The stored cache matches `config`: same region, same pixel grid, and the
    /// same thresholds in the same order.
    pub fn matches(&self, config: &Configuration) -> (r: bool)
        ensures
            r == (self.fingerprint() == config.fingerprint()),
    {
        if !(self.area == config.area) || self.dimensions != config.dimensions || self.layers.len()
            != config.layers.len() {
            proof {
                if self.fingerprint() == config.fingerprint() {
                    assert(self.fingerprint().2.len() == self.layers@.len());
                }
            }
            return false;
        }
        let mut i: usize = 0;
        while i < self.layers.len()
            invariant
                i <= self.layers@.len(),
                self.layers@.len() == config.layers@.len(),
                forall|j: int| 0 <= j < i ==> #[trigger] self.layers@[j].iterations == config.layers@[j].iterations,
            decreases self.layers@.len() - i,
        {
            if !(self.layers[i] == config.layers[i]) {
                proof {
                    assert(self.fingerprint().2[i as int] != config.fingerprint().2[i as int]);
                }
                return false;
            }
            i = i + 1;
        }
        assert(self.fingerprint().2 =~= config.fingerprint().2);
        true
    }

    /// Whether every grid holds one counter per pixel.
    pub fn is_well_formed(&self) -> (r: bool)
        ensures
            r == self.wf(),
    {
        let size = self.dimensions.size();
        let mut i: usize = 0;
        while i < self.layers.len()
            invariant
                i <= self.layers@.len(),
                size == self.dimensions.x * self.dimensions.y,
                forall|j: int| 0 <= j < i ==> #[trigger] self.layers@[j].data@.len() == size,
            decreases self.layers@.len() - i,
        {
            if self.layers[i].data.len() != size {
                return false;
            }
            i = i + 1;
        }
        true
    }

    /// The cache to use for `config`, given what was read back from storage:
    /// the stored cache where it matches `config`, unchanged, `valid` flag
    /// included; otherwise a fresh one. `None` stands for a cache that could
    /// not be read or decoded; a stored cache whose grids do not have one
    /// counter per pixel counts as undecodable.
    pub fn load(stored: Option<Cache>, config: &Configuration) -> (r: Cache)
        ensures
            r.wf(),
            match stored {
                Some(c) if c.fingerprint() == config.fingerprint() && c.wf() => r == c,
                _ => r.fingerprint() == config.fingerprint() && !r.valid && forall|i: int, k: int|
                    0 <= i < r.layers@.len() && 0 <= k < r.layers@[i].data@.len()
                        ==> #[trigger] r.layers@[i].data@[k] == 0,
            },
    {
        match stored {
            Some(c) => {
                if c.matches(config) && c.is_well_formed() {
                    c
                } else {
                    Cache::new(config)
                }
            },
            None => Cache::new(config),
        }
    }
}

impl PartialEq<Configuration> for Cache {
    fn eq(&self, other: &Configuration) -> (r: bool) {
        self.matches(other)
    }
}

impl vstd::std_specs::cmp::PartialEqSpecImpl<Configuration> for Cache {
    open spec fn obeys_eq_spec() -> bool {
        true
    }

    open spec fn eq_spec(&self, other: &Configuration) -> bool {
        self.fingerprint() == other.fingerprint()
    }
}

/// Changing the iteration threshold of one layer makes a cache computed for
/// the old configuration incompatible with the new one, so that loading it
/// against the new configuration yields a fresh, invalid cache.
pub proof fn lemma_threshold_change_invalidates(c: Cache, before: Configuration, after: Configuration, i: int)
    requires
        c.fingerprint() == before.fingerprint(),
        0 <= i < before.layers@.len(),
        after.layers@.len() == before.layers@.len(),
        after.layers@[i].iterations != before.layers@[i].iterations,
    ensures
        c.fingerprint() != after.fingerprint(),
{
    assert(c.fingerprint().2[i] != after.fingerprint().2[i]);
}

} // verus!
