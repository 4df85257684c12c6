use plato::fixed::ONE;
use plato::vector::{
    dot_product, edge_vector, move_by, normalize, Point3, UNIT, UNIT_SQUARED,
};

fn p(x: i32, y: i32, z: i32) -> Point3 {
    Point3 { x, y, z }
}

fn norm_sq(v: Point3) -> i128 {
    dot_product(v, v)
}

const SAMPLES: [Point3; 10] = [
    Point3 { x: 1, y: 2, z: 3 },
    Point3 { x: -5, y: 7, z: -11 },
    Point3 { x: 123_456, y: -654_321, z: 111 },
    Point3 { x: 1_000_000, y: 0, z: -3_000_000 },
    Point3 { x: -2_000_000_000, y: 1, z: 2_000_000_000 },
    Point3 { x: 17, y: 0, z: 0 },
    Point3 { x: 6_000_000, y: 10_000_000, z: 15_000_000 },
    Point3 { x: 888_113_861, y: 325_002_900, z: 325_002_900 },
    Point3 { x: i32::MAX, y: i32::MIN, z: i32::MAX },
    Point3 { x: 1, y: 1, z: 1 },
];

#[test]
fn normalize_of_a_pythagorean_vector_is_exact() {
    assert_eq!(normalize(p(3 * ONE, 4 * ONE, 0)), p(600_000_000, 800_000_000, 0));
    assert_eq!(normalize(p(-3, 0, 4)), p(-600_000_000, 0, 800_000_000));
}

#[test]
fn normalize_of_the_zero_vector_is_the_zero_vector() {
    assert_eq!(normalize(p(0, 0, 0)), p(0, 0, 0));
}

#[test]
fn normalize_leaves_a_vector_of_length_one_as_it_is() {
    let unit = p(600_000_000, 800_000_000, 0);
    assert_eq!(norm_sq(unit), UNIT_SQUARED as i128);
    assert_eq!(normalize(unit), unit);
    assert_eq!(normalize(normalize(p(3 * ONE, 4 * ONE, 0))), unit);
    assert_eq!(normalize(p(0, 0, -UNIT)), p(0, 0, -UNIT));
}

#[test]
fn normalize_writes_nine_decimals() {
    assert_eq!(normalize(p(ONE, ONE, ONE)), p(577_350_269, 577_350_269, 577_350_269));
    assert_eq!(normalize(p(1, 1, 0)), p(707_106_781, 707_106_781, 0));
    assert_eq!(
        normalize(p(234_000, -234_000, 468_000)),
        p(408_248_290, -408_248_290, 816_496_580)
    );
    assert_eq!(
        normalize(p(6 * ONE, 10 * ONE, 15 * ONE)),
        p(315_789_473, 526_315_789, 789_473_684)
    );
}

#[test]
fn normalize_handles_tiny_and_huge_vectors() {
    assert_eq!(normalize(p(1, 0, 0)), p(UNIT, 0, 0));
    assert_eq!(normalize(p(0, 0, -7)), p(0, 0, -UNIT));
    assert_eq!(
        normalize(p(i32::MAX, i32::MIN, i32::MAX)),
        p(577_350_269, -577_350_269, 577_350_269)
    );
}

#[test]
fn normalize_does_not_depend_on_the_length_of_its_argument() {
    assert_eq!(normalize(p(12, 20, 30)), normalize(p(6 * ONE, 10 * ONE, 15 * ONE)));
    assert_eq!(normalize(p(-1, 2, -3)), normalize(p(-700, 1_400, -2_100)));
    assert_eq!(normalize(p(9, 0, 0)), normalize(p(i32::MAX, 0, 0)));
}

#[test]
fn normalize_gives_unit_length_in_the_same_direction() {
    for v in SAMPLES {
        let u = normalize(v);
        let len = norm_sq(u);
        assert!(len <= UNIT_SQUARED as i128);
        assert!(len >= (UNIT as i128 - 4) * (UNIT as i128 - 4));
        assert!(u.x.signum() == v.x.signum() || u.x == 0);
        assert!(u.y.signum() == v.y.signum() || u.y == 0);
        assert!(u.z.signum() == v.z.signum() || u.z == 0);
        let outward = (u.x.abs() as i128 + 1).pow(2)
            + (u.y.abs() as i128 + 1).pow(2)
            + (u.z.abs() as i128 + 1).pow(2);
        assert!(outward > UNIT_SQUARED as i128);
    }
}

#[test]
fn the_length_of_a_normalised_vector_is_one_within_a_millionth() {
    for v in SAMPLES {
        let u = normalize(v);
        let length = (norm_sq(u) as f64).sqrt() / UNIT as f64;
        assert!((length - 1.0).abs() <= 1e-6);
        assert!((length - 1.0).abs() <= 4e-9);
    }
}

#[test]
fn normalising_twice_changes_next_to_nothing() {
    for v in SAMPLES {
        let u = normalize(v);
        let w = normalize(u);
        for (once, twice) in [(u.x, w.x), (u.y, w.y), (u.z, w.z)] {
            assert!((twice - once).abs() <= 4);
            assert!(twice.abs() >= once.abs());
            assert!((twice - once).abs() as f64 / UNIT as f64 <= 2e-7);
        }
    }
    let u = normalize(p(888_113_861, 325_002_900, 325_002_900));
    assert_eq!(u, p(888_113_860, 325_002_899, 325_002_899));
    assert_eq!(normalize(u), p(888_113_861, 325_002_899, 325_002_899));
}

#[test]
fn the_inner_product_of_aligned_unit_vectors_is_one() {
    for v in SAMPLES {
        let d = dot_product(normalize(v), normalize(v));
        assert!(d <= UNIT_SQUARED as i128);
        assert!(d >= (UNIT as i128 - 4) * (UNIT as i128 - 4));
        assert!((d as f64 / UNIT_SQUARED as f64 - 1.0).abs() <= 1e-6);
    }
    let d = dot_product(normalize(p(6 * ONE, 10 * ONE, 15 * ONE)), normalize(p(12, 20, 30)));
    assert_eq!(d, 999_999_998_736_842_106);
}

#[test]
fn dot_product_is_the_inner_product() {
    assert_eq!(dot_product(p(1, 2, 3), p(4, 5, 6)), 32);
    assert_eq!(
        dot_product(p(ONE, 2 * ONE, 3 * ONE), p(4 * ONE, 5 * ONE, 6 * ONE)),
        32_000_000_000_000
    );
    assert_eq!(dot_product(p(-UNIT, 0, 0), p(UNIT / 2, 0, 0)), -(UNIT_SQUARED as i128) / 2);
    assert_eq!(dot_product(p(ONE, 0, 0), p(0, ONE, 0)), 0);
    assert_eq!(dot_product(p(1, 1, 1), p(1, -1, 1)), 1);
}

#[test]
fn dot_product_of_the_largest_vectors_fits() {
    let top = p(i32::MAX, i32::MAX, i32::MAX);
    let bottom = p(i32::MIN, i32::MIN, i32::MIN);
    assert_eq!(dot_product(top, top), 13_835_058_042_397_261_827);
    assert_eq!(dot_product(bottom, top), -13_835_058_048_839_712_768);
    assert_eq!(dot_product(bottom, bottom), 13_835_058_055_282_163_712);
}

#[test]
fn edge_vector_leads_from_the_first_point_to_the_second() {
    assert_eq!(edge_vector(p(1, 2, 3), p(5, 1, 3)), p(4, -1, 0));
    assert_eq!(
        edge_vector(p(i32::MIN, 0, i32::MAX), p(i32::MAX, 0, i32::MIN)),
        p(i32::MAX, 0, i32::MIN)
    );
}

#[test]
fn moving_a_point_saturates() {
    assert_eq!(move_by(p(1, 2, 3), p(10, -20, 30)), p(11, -18, 33));
    assert_eq!(move_by(p(i32::MAX, i32::MIN, 0), p(1, -1, 0)), p(i32::MAX, i32::MIN, 0));
}
