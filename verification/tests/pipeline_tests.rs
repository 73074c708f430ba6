use point_cloud::color::colorize;
use point_cloud::dedup::dedup;
use point_cloud::pack::{pack_triplets, project_inputs};
use point_cloud::pipeline::load_points;
use point_cloud::point::{Color, Point};
use point_cloud::sort::sort_keys;

fn key_of(b0: u8, b1: u8, b2: u8) -> u32 {
    (b2 as u32) * 0x1_0000 + (b1 as u32) * 0x100 + (b0 as u32)
}

#[test]
fn pack_exact_keys() {
    let bytes: Vec<u8> = vec![1, 2, 3, 4, 5, 6];
    let keys = pack_triplets(&bytes);
    assert_eq!(keys, vec![key_of(1, 2, 3), key_of(4, 5, 6)]);
    assert_eq!(keys[0], 3 * 0x1_0000 + 2 * 0x100 + 1);
}

#[test]
fn pack_drops_trailing_bytes() {
    let bytes: Vec<u8> = vec![7, 8, 9, 10, 11];
    let keys = pack_triplets(&bytes);
    assert_eq!(keys, vec![key_of(7, 8, 9)]);
}

#[test]
fn sort_orders_ascending_keeping_duplicates() {
    let keys: Vec<u32> = vec![5, 3, 3, 1, 0xFF_FFFF, 3];
    let sorted = sort_keys(keys);
    assert_eq!(sorted, vec![1, 3, 3, 3, 5, 0xFF_FFFF]);
}

#[test]
fn dedup_merges_equal_adjacent_keys() {
    let sorted: Vec<u32> = vec![1, 1, 1, 4, 9, 9];
    let points = dedup(&sorted);
    assert_eq!(points.len(), 3);
    assert_eq!((points[0].key, points[0].count), (1, 2));
    assert_eq!((points[1].key, points[1].count), (4, 0));
    assert_eq!((points[2].key, points[2].count), (9, 1));
    for p in &points {
        assert_eq!(p.color, Color { c0: 0, c1: 0, c2: 0, den: 1 });
    }
}

#[test]
fn dedup_scenario_three_distinct_triplets() {
    // (10,10,10) three times, (0,0,0) once, (255,255,255) twice: three points
    // in ascending key order with extra-occurrence counts [0, 2, 1], together
    // consuming all six triplets.
    let mut bytes: Vec<u8> = Vec::new();
    for _ in 0..3 {
        bytes.extend_from_slice(&[10, 10, 10]);
    }
    bytes.extend_from_slice(&[0, 0, 0]);
    for _ in 0..2 {
        bytes.extend_from_slice(&[255, 255, 255]);
    }
    let points = load_points(&bytes);
    assert_eq!(points.len(), 3);
    assert_eq!(points[0].key, key_of(0, 0, 0));
    assert_eq!(points[1].key, key_of(10, 10, 10));
    assert_eq!(points[2].key, key_of(255, 255, 255));
    assert_eq!(points[0].count, 0);
    assert_eq!(points[1].count, 2);
    assert_eq!(points[2].count, 1);
    let consumed: u64 = points.iter().map(|p| 1 + p.count as u64).sum();
    assert_eq!(consumed, 6);
}

#[test]
fn cardinality_all_triplets_accounted_for() {
    let bytes: Vec<u8> = vec![3, 3, 3, 1, 1, 1, 3, 3, 3, 2, 2, 2, 3, 3, 3];
    let triplets = bytes.len() / 3;
    let points = load_points(&bytes);
    assert!(points.len() <= triplets);
    let consumed: usize = points.iter().map(|p| 1 + p.count as usize).sum();
    assert_eq!(consumed, triplets);
}

#[test]
fn order_strictly_increasing_by_key() {
    let bytes: Vec<u8> = vec![9, 0, 0, 2, 0, 0, 9, 0, 0, 1, 1, 1, 0, 0, 7];
    let points = load_points(&bytes);
    assert!(points.len() >= 2);
    for w in points.windows(2) {
        assert!(w[0].key < w[1].key);
    }
}

#[test]
fn determinism_identical_bytes_identical_points() {
    let bytes: Vec<u8> = vec![8, 7, 6, 5, 4, 3, 8, 7, 6, 0, 0, 0, 200, 100, 50];
    let first = load_points(&bytes);
    let second = load_points(&bytes);
    assert_eq!(first, second);
}

#[test]
fn projection_inputs_pure_and_exact() {
    let key: u32 = 0x0A0B0C;
    assert_eq!(project_inputs(key), (0x0A, 0x0B, 0x0C));
    assert_eq!(project_inputs(key), project_inputs(key));
    // Round trip through packing: the third byte comes back as the x field.
    let packed = key_of(1, 2, 3);
    assert_eq!(project_inputs(packed), (3, 2, 1));
    assert_eq!(project_inputs(0), (0, 0, 0));
    assert_eq!(project_inputs(0xFF_FFFF), (255, 255, 255));
}

#[test]
fn color_bounds_single_unique_point() {
    // One unique point with no duplicates: colorFrac = 0, countNorm = 0, so
    // the color is exactly (0, 1, 1).
    let bytes: Vec<u8> = vec![5, 5, 5];
    let points = load_points(&bytes);
    assert_eq!(points.len(), 1);
    assert_eq!(points[0].count, 0);
    let c = points[0].color;
    assert_eq!((c.c0, c.c1, c.c2, c.den), (0, 10, 10, 10));
    let rgb = (
        c.c0 as f64 / c.den as f64,
        c.c1 as f64 / c.den as f64,
        c.c2 as f64 / c.den as f64,
    );
    assert_eq!(rgb, (0.0, 1.0, 1.0));
}

#[test]
fn colorize_formula_exact_unclamped() {
    // Two points, the second with twelve duplicates: its components
    // 1 - 12/10 and 1 - (12/10)*(1/2) leave the [0,1] display range.
    let input = vec![
        Point { key: 4, count: 0, color: Color { c0: 0, c1: 0, c2: 0, den: 1 } },
        Point { key: 9, count: 12, color: Color { c0: 0, c1: 0, c2: 0, den: 1 } },
    ];
    let colored = colorize(input);
    assert_eq!(colored.len(), 2);
    assert_eq!((colored[0].key, colored[0].count), (4, 0));
    assert_eq!((colored[1].key, colored[1].count), (9, 12));
    let c0 = colored[0].color;
    assert_eq!((c0.c0, c0.c1, c0.c2, c0.den), (0, 20, 20, 20));
    let c1 = colored[1].color;
    assert_eq!((c1.c0, c1.c1, c1.c2, c1.den), (10, -4, 8, 20));
    assert_eq!(c1.c1 as f64 / c1.den as f64, -0.2);
    assert_eq!(c1.c2 as f64 / c1.den as f64, 0.4);
}

#[test]
fn boundary_short_inputs_yield_no_points() {
    let empty: Vec<u8> = Vec::new();
    assert_eq!(load_points(&empty).len(), 0);
    let one: Vec<u8> = vec![42];
    assert_eq!(load_points(&one).len(), 0);
    let two: Vec<u8> = vec![42, 43];
    assert_eq!(load_points(&two).len(), 0);
}

#[test]
fn all_equal_triplets_collapse_to_one_point() {
    let bytes: Vec<u8> = vec![11, 22, 33, 11, 22, 33, 11, 22, 33, 11, 22, 33];
    let points = load_points(&bytes);
    assert_eq!(points.len(), 1);
    assert_eq!(points[0].key, key_of(11, 22, 33));
    assert_eq!(points[0].count, 3);
}
