//! Composition of the layers into pixel colors. Each layer's brightness
//! lookup table is made elsewhere; here it is only read.
use vstd::prelude::*;
use crate::cache::{Cache, Configuration, LayerData};

verus! {

/// Channel `j` of pixel `idx` from the first `n` layers: the largest, over
/// those layers, of the layer's color channel capped by the brightness that
/// its lookup table gives the pixel's count.
pub open spec fn channel(cache: &Cache, config: &Configuration, luts: Seq<Seq<u8>>, idx: int, j: int, n: nat) -> int
    decreases n,
{
    if n == 0 {
        0
    } else {
        let i = n - 1;
        let rest = channel(cache, config, luts, idx, j, (n - 1) as nat);
        let v = luts[i][cache.layers@[i].data@[idx] as int];
        let c = config.layers@[i].color[j];
        let capped: int = if c < v {
            c as int
        } else {
            v as int
        };
        if rest < capped {
            capped
        } else {
            rest
        }
    }
}

impl LayerData {
    /// The largest count of the grid, 0 for an empty grid.
    pub fn max_count(&self) -> (r: u32)
        ensures
            forall|k: int| 0 <= k < self.data@.len() ==> #[trigger] self.data@[k] <= r,
            self.data@.len() > 0 ==> exists|k: int| 0 <= k < self.data@.len() && #[trigger] self.data@[k] == r,
            self.data@.len() == 0 ==> r == 0,
    {
        let mut m: u32 = 0;
        let mut i: usize = 0;
        while i < self.data.len()
            invariant
                i <= self.data@.len(),
                forall|k: int| 0 <= k < i ==> #[trigger] self.data@[k] <= m,
                i > 0 ==> exists|k: int| 0 <= k < i && #[trigger] self.data@[k] == m,
                i == 0 ==> m == 0,
            decreases self.data@.len() - i,
        {
            if self.data[i] > m || i == 0 {
                m = self.data[i];
            }
            i = i + 1;
        }
        m
    }
}

/// The color of pixel `idx`: channel by channel, the largest over all layers
/// of the layer's color capped by its brightness at that pixel.
pub fn pixel_color(cache: &Cache, config: &Configuration, luts: &Vec<Vec<u8>>, idx: usize) -> (r: [u8; 3])
    requires
        config.layers@.len() == cache.layers@.len(),
        luts@.len() == cache.layers@.len(),
        forall|i: int| 0 <= i < cache.layers@.len() ==> idx < #[trigger] cache.layers@[i].data@.len(),
        forall|i: int|
            0 <= i < cache.layers@.len() ==> cache.layers@[i].data@[idx as int] < #[trigger] luts@[i]@.len(),
    ensures
        forall|j: int|
            0 <= j < 3 ==> r[j] == channel(
                cache,
                config,
                luts@.map_values(|l: Vec<u8>| l@),
                idx as int,
                j,
                cache.layers@.len(),
            ),
{
    let ghost tables = luts@.map_values(|l: Vec<u8>| l@);
    let mut color: [u8; 3] = [0, 0, 0];
    let mut i: usize = 0;
    while i < cache.layers.len()
        invariant
            config.layers@.len() == cache.layers@.len(),
            luts@.len() == cache.layers@.len(),
            forall|i: int| 0 <= i < cache.layers@.len() ==> idx < #[trigger] cache.layers@[i].data@.len(),
            forall|i: int|
                0 <= i < cache.layers@.len() ==> cache.layers@[i].data@[idx as int] < #[trigger] luts@[i]@.len(),
            tables == luts@.map_values(|l: Vec<u8>| l@),
            i <= cache.layers@.len(),
            forall|j: int| 0 <= j < 3 ==> color[j] == channel(cache, config, tables, idx as int, j, i as nat),
        decreases cache.layers@.len() - i,
    {
        let count = cache.layers[i].data[idx] as usize;
        let v = luts[i][count];
        proof {
            assert(tables[i as int] == luts@[i as int]@);
        }
        let mut j: usize = 0;
        while j < 3
            invariant
                config.layers@.len() == cache.layers@.len(),
                luts@.len() == cache.layers@.len(),
                i < cache.layers@.len(),
                tables == luts@.map_values(|l: Vec<u8>| l@),
                tables[i as int] == luts@[i as int]@,
                v == luts@[i as int]@[count as int],
                count == cache.layers@[i as int].data@[idx as int],
                j <= 3,
                forall|c: int| 0 <= c < j ==> color[c] == channel(cache, config, tables, idx as int, c, (i + 1) as nat),
                forall|c: int| j <= c < 3 ==> color[c] == channel(cache, config, tables, idx as int, c, i as nat),
            decreases 3 - j,
        {
            let c = config.layers[i].color[j];
            let capped = if c < v { c } else { v };
            if color[j] < capped {
                color[j] = capped;
            }
            j = j + 1;
        }
        i = i + 1;
    }
    color
}

} // verus!
