use rostbrot::cache::{Area, Cache, Configuration, Dimensions, Layer, LayerData};
use rostbrot::color::pixel_color;
use rostbrot::fixed::ONE;

fn fx(v: f64) -> i64 {
    (v * ONE as f64).floor() as i64
}

fn config_of(area: Area, dimensions: Dimensions, layers: &[(usize, [u8; 3])]) -> Configuration {
    Configuration {
        area,
        dimensions,
        layers: layers.iter().map(|&(iterations, color)| Layer { iterations, color }).collect(),
    }
}

fn sample_config() -> Configuration {
    config_of(
        Area { x: [fx(-2.0), fx(2.0)], y: [fx(-1.0), fx(1.0)] },
        Dimensions { x: 10, y: 5 },
        &[(10, [100, 100, 100]), (1, [10, 10, 10])],
    )
}

#[test]
fn layer_equality() {
    let ld = LayerData { iterations: 10, data: vec![] };
    let l = Layer { iterations: 10, color: [0, 0, 0] };
    assert_eq!(ld, l);
    let l2 = Layer { iterations: 1, color: [0, 0, 0] };
    assert_ne!(ld, l2);
}

#[test]
fn dimensionality() {
    let d = Dimensions { x: 5, y: 4 };
    assert_eq!(d.size(), 20);
}

#[test]
fn restore_cache() {
    let config = sample_config();
    let cache = Cache::new(&config);
    assert_eq!(cache.valid, false);
    assert_eq!(cache.layers.len(), 2);
    let stored = cache.clone();
    let restored = Cache::load(Some(stored), &config);
    assert_eq!(cache, restored);
}

#[test]
fn restore_modified_cache() {
    let mut config = sample_config();
    let mut cache = Cache::new(&config);
    cache.valid = true;
    let stored = cache.clone();
    config.layers[0].iterations = 100;
    let restored = Cache::load(Some(stored), &config);
    assert_eq!(restored.valid, false);
    assert_ne!(restored, cache);
}

#[test]
fn new_cache_shape() {
    let config = sample_config();
    let cache = Cache::new(&config);
    assert_eq!(cache.dimensions, config.dimensions);
    assert_eq!(cache.area, config.area);
    assert_eq!(cache.layers[0].iterations, 10);
    assert_eq!(cache.layers[1].iterations, 1);
    assert!(cache.layers.iter().all(|l| l.data == vec![0; 50]));
}

#[test]
fn load_keeps_valid_populated_cache() {
    let config = sample_config();
    let mut cache = Cache::new(&config);
    cache.populate();
    assert!(cache.valid);
    let restored = Cache::load(Some(cache.clone()), &config);
    assert_eq!(restored, cache);
    assert!(restored.valid);
}

#[test]
fn load_without_stored_cache() {
    let config = sample_config();
    let restored = Cache::load(None, &config);
    assert_eq!(restored, Cache::new(&config));
}

#[test]
fn load_rejects_other_fingerprints() {
    let config = sample_config();
    let mut stored = Cache::new(&config);
    stored.valid = true;

    let mut other_area = sample_config();
    other_area.area.x[1] = fx(3.0);
    assert_eq!(Cache::load(Some(stored.clone()), &other_area), Cache::new(&other_area));

    let mut other_dims = sample_config();
    other_dims.dimensions.y = 6;
    let fresh = Cache::load(Some(stored.clone()), &other_dims);
    assert!(!fresh.valid);
    assert_eq!(fresh.layers[0].data.len(), 60);

    let mut fewer_layers = sample_config();
    fewer_layers.layers.pop();
    assert_eq!(Cache::load(Some(stored.clone()), &fewer_layers).layers.len(), 1);

    // colors are not part of the fingerprint
    let mut recolored = sample_config();
    recolored.layers[0].color = [1, 2, 3];
    assert_eq!(Cache::load(Some(stored.clone()), &recolored), stored);
}

#[test]
fn orbit_acceptance_per_layer() {
    // one pixel centered on 0: its orbit never escapes
    let config = config_of(
        Area { x: [fx(-1.0), fx(1.0)], y: [fx(-1.0), fx(1.0)] },
        Dimensions { x: 1, y: 1 },
        &[(20, [1, 1, 1]), (5, [1, 1, 1])],
    );
    let mut cache = Cache::new(&config);
    assert_eq!(cache.centers(), vec![(0, 0)]);
    assert_eq!(cache.max_iterations(), 20);
    cache.populate();
    assert_eq!(cache.layers[0].data, vec![0]);
    assert_eq!(cache.layers[1].data, vec![0]);

    // two pixels centered on 1 and 3: orbits [1, 2] and []
    let config = config_of(
        Area { x: [fx(0.0), fx(4.0)], y: [fx(-1.0), fx(1.0)] },
        Dimensions { x: 2, y: 1 },
        &[(2, [1, 1, 1]), (3, [1, 1, 1]), (20, [1, 1, 1])],
    );
    let mut cache = Cache::new(&config);
    cache.populate();
    assert!(cache.valid);
    assert_eq!(cache.layers[0].data, vec![0, 0]);
    assert_eq!(cache.layers[1].data, vec![1, 1]);
    assert_eq!(cache.layers[2].data, vec![1, 1]);
}

#[test]
fn parallel_batches_match_populate() {
    let config = config_of(
        Area { x: [fx(-2.0), fx(1.0)], y: [fx(-1.2), fx(1.2)] },
        Dimensions { x: 30, y: 24 },
        &[(8, [255, 0, 0]), (40, [0, 255, 0]), (3, [0, 0, 255])],
    );
    let mut single = Cache::new(&config);
    single.populate();

    let mut batched = Cache::new(&config);
    let centers = batched.centers();
    let mut parts: Vec<_> = centers.chunks(100).map(|c| batched.sweep(&c.to_vec())).collect();
    let mut total = parts.pop().unwrap();
    for part in parts.iter() {
        total.merge(part);
    }
    batched.absorb(total);
    batched.valid = true;
    assert_eq!(single, batched);
    assert!(single.layers[1].data.iter().any(|&n| n > 0));
}

#[test]
fn thresholds_and_budget() {
    let config = sample_config();
    let cache = Cache::new(&config);
    assert_eq!(cache.thresholds(), vec![10, 1]);
    assert_eq!(cache.max_iterations(), 10);
    let empty = Cache::new(&config_of(config.area, config.dimensions, &[]));
    assert_eq!(empty.max_iterations(), 0);
    assert!(empty.thresholds().is_empty());
}

#[test]
fn cache_matches_configuration() {
    let config = sample_config();
    let cache = Cache::new(&config);
    assert!(cache.matches(&config));
    let mut changed = sample_config();
    changed.layers[1].iterations = 2;
    assert!(!cache.matches(&changed));
}

#[test]
fn max_count_of_layer() {
    let l = LayerData { iterations: 1, data: vec![3, 9, 0, 9, 2] };
    assert_eq!(l.max_count(), 9);
    let empty = LayerData { iterations: 1, data: vec![] };
    assert_eq!(empty.max_count(), 0);
    let zeros = LayerData { iterations: 1, data: vec![0, 0] };
    assert_eq!(zeros.max_count(), 0);
}

#[test]
fn pixel_colors_compose_layers() {
    let config = config_of(
        Area { x: [fx(0.0), fx(1.0)], y: [fx(0.0), fx(1.0)] },
        Dimensions { x: 2, y: 1 },
        &[(10, [200, 50, 0]), (20, [0, 100, 255])],
    );
    let mut cache = Cache::new(&config);
    cache.layers[0].data = vec![0, 2];
    cache.layers[1].data = vec![1, 0];
    let luts = vec![vec![0, 120, 255], vec![10, 80]];
    assert_eq!(pixel_color(&cache, &config, &luts, 0), [0, 80, 80]);
    assert_eq!(pixel_color(&cache, &config, &luts, 1), [200, 50, 10]);
    let empty = Cache::new(&config_of(config.area, config.dimensions, &[]));
    assert_eq!(pixel_color(&empty, &config_of(config.area, config.dimensions, &[]), &vec![], 0), [0, 0, 0]);
}

#[test]
fn load_rejects_malformed_grids() {
    let config = sample_config();
    let mut stored = Cache::new(&config);
    stored.valid = true;
    stored.layers[1].data.pop();
    assert!(!stored.is_well_formed());
    let restored = Cache::load(Some(stored), &config);
    assert_eq!(restored, Cache::new(&config));
    assert!(restored.is_well_formed());
}

#[test]
fn cache_equals_configuration() {
    let config = sample_config();
    let cache = Cache::new(&config);
    assert!(cache == config);
    let mut changed = sample_config();
    changed.area.y[0] = fx(-0.5);
    assert!(cache != changed);
}
