use rostbrot::fixed::{fixed, ONE};
use rostbrot::histogram::{Binning, Histogram};

fn fx(v: f64) -> i64 {
    (v * ONE as f64).floor() as i64
}

fn to_f64(v: i64) -> f64 {
    v as f64 / ONE as f64
}

#[test]
fn binning_iter() {
    // a scale of 2 with two cells covers [0, 1)
    let bins = Binning::new(fx(0.0), fx(1.0), 2);
    let res: Vec<f64> = bins.iter().into_iter().map(to_f64).collect();
    assert_eq!(res, vec![0.25, 0.75]);
}

#[test]
fn binning_fill() {
    // a scale of 1 with two cells covers [0, 2)
    let bins = Binning::new(fx(0.0), fx(2.0), 2);
    let b1 = bins.bin(fx(0.1));
    assert_eq!(b1, Some(0));
    let b2 = bins.bin(fx(5.0));
    assert_eq!(b2, None);
}

#[test]
fn histogram_usage() {
    let data: Vec<Vec<u32>> = vec![vec![0, 0]];
    let mut histo = Histogram::new(fx(0.0), fx(1.0), 2, fx(0.0), fx(1.0), 1, data);
    let centers: Vec<(f64, f64)> = histo.centers().into_iter().map(|(x, y)| (to_f64(x), to_f64(y))).collect();
    assert_eq!(centers, vec![(0.25, 0.5), (0.75, 0.5)]);
    histo.fill(0, fx(-2.0), fx(3.0));
    histo.fill(0, fixed(51, 100), fixed(1, 10));
    let values = histo.into_bins();
    assert_eq!(values[0][0], 0 as u32);
    assert_eq!(values[0][1], 1 as u32);
}

#[test]
fn binning_edges() {
    let bins = Binning::new(fx(0.0), fx(2.0), 2);
    assert_eq!(bins.bin(fx(0.0)), Some(0));
    assert_eq!(bins.bin(fx(1.0)), Some(1));
    assert_eq!(bins.bin(fx(2.0)), None);
    // just below the minimum is dropped, not clamped
    assert_eq!(bins.bin(fx(0.0) - 1), None);
    assert_eq!(bins.bin(fx(-0.5)), None);
    let none = Binning::new(fx(0.0), fx(1.0), 0);
    assert_eq!(none.bin(fx(0.5)), None);
    assert!(none.iter().is_empty());
}

#[test]
fn binning_centers_exact() {
    let bins = Binning::new(fx(-2.0), fx(2.0), 4);
    let res: Vec<f64> = bins.iter().into_iter().map(to_f64).collect();
    assert_eq!(res, vec![-1.5, -0.5, 0.5, 1.5]);
}

#[test]
fn centers_row_major() {
    let histo = Histogram::new(fx(0.0), fx(2.0), 2, fx(0.0), fx(3.0), 3, vec![]);
    let centers: Vec<(f64, f64)> = histo.centers().into_iter().map(|(x, y)| (to_f64(x), to_f64(y))).collect();
    assert_eq!(
        centers,
        vec![(0.5, 0.5), (1.5, 0.5), (0.5, 1.5), (1.5, 1.5), (0.5, 2.5), (1.5, 2.5)]
    );
}

#[test]
fn fill_order_independent() {
    let points = [(fx(0.1), fx(0.1)), (fx(1.5), fx(0.2)), (fx(0.3), fx(1.9)), (fx(7.0), fx(0.0))];
    let mut a = Histogram::new(fx(0.0), fx(2.0), 2, fx(0.0), fx(2.0), 2, vec![vec![0; 4], vec![0; 4]]);
    let mut b = Histogram::new(fx(0.0), fx(2.0), 2, fx(0.0), fx(2.0), 2, vec![vec![0; 4], vec![0; 4]]);
    for &(x, y) in points.iter() {
        a.fill(1, x, y);
    }
    for &(x, y) in points.iter().rev() {
        b.fill(1, x, y);
    }
    let a = a.into_bins();
    assert_eq!(a, b.into_bins());
    assert_eq!(a, vec![vec![0, 0, 0, 0], vec![1, 1, 1, 0]]);
}

#[test]
fn fill_saturates() {
    let mut h = Histogram::new(fx(0.0), fx(1.0), 1, fx(0.0), fx(1.0), 1, vec![vec![u32::MAX - 1]]);
    h.fill(0, fx(0.5), fx(0.5));
    assert_eq!(h.bins()[0][0], u32::MAX);
    h.fill(0, fx(0.5), fx(0.5));
    assert_eq!(h.bins()[0][0], u32::MAX);
}

#[test]
fn merge_adds_counts() {
    let mut a = Histogram::new(fx(0.0), fx(1.0), 2, fx(0.0), fx(1.0), 1, vec![vec![1, 2], vec![u32::MAX, 0]]);
    let b = Histogram::new(fx(0.0), fx(1.0), 2, fx(0.0), fx(1.0), 1, vec![vec![3, 4], vec![5, 6]]);
    a.merge(&b);
    assert_eq!(a.into_bins(), vec![vec![4, 6], vec![u32::MAX, 6]]);
}

#[test]
fn accumulate_single_orbit() {
    // two pixels with centers 1 and 3: the orbit of 1 is [1, 2], that of 3 is empty
    let mut h = Histogram::new(fx(0.0), fx(4.0), 2, fx(-1.0), fx(1.0), 1, vec![vec![0, 0], vec![0, 0]]);
    let centers = h.centers();
    assert_eq!(centers, vec![(fx(1.0), 0), (fx(3.0), 0)]);
    h.accumulate(&centers, &vec![2, 3], 3);
    assert_eq!(h.into_bins(), vec![vec![0, 0], vec![1, 1]]);
}

#[test]
fn batches_match_single_sweep() {
    let bins = || vec![vec![0u32; 40 * 30], vec![0u32; 40 * 30]];
    let mut whole = Histogram::new(fx(-2.0), fx(1.0), 40, fx(-1.5), fx(1.5), 30, bins());
    let centers = whole.centers();
    let thresholds = vec![5, 30];
    whole.accumulate(&centers, &thresholds, 30);
    let mut merged = Histogram::new(fx(-2.0), fx(1.0), 40, fx(-1.5), fx(1.5), 30, bins());
    for chunk in centers.chunks(137).rev() {
        let mut part = Histogram::new(fx(-2.0), fx(1.0), 40, fx(-1.5), fx(1.5), 30, bins());
        part.accumulate(&chunk.to_vec(), &thresholds, 30);
        merged.merge(&part);
    }
    let whole = whole.into_bins();
    assert!(whole[1].iter().any(|&n| n > 0));
    assert_eq!(whole, merged.into_bins());
}
