use plato::config::{BASE_SPEED, SPHERE_LATS, SPHERE_LONGS};
use plato::fixed::ONE;
use plato::scene::{
    advance_angle, check_edges, orbit_offset, place, rotate_y, scale_point, sphere_edges,
    sphere_vertices, Solid, Turn,
};
use plato::vector::Point3;

fn p(x: i32, y: i32, z: i32) -> Point3 {
    Point3 { x, y, z }
}

const REST: Turn = Turn { cos: ONE, sin: 0 };
const QUARTER: Turn = Turn { cos: 0, sin: ONE };
const HALF: Turn = Turn { cos: -ONE, sin: 0 };
const EIGHTH: Turn = Turn { cos: 707_107, sin: 707_107 };

#[test]
fn a_new_solid_has_scaled_vertices_and_has_not_turned() {
    let vertices = [p(ONE, ONE, ONE), p(-ONE, -ONE, ONE), p(0, 1_618_000, -618_000)];
    let edges = [(0, 1), (1, 2), (2, 0)];
    let solid = Solid::new(&vertices, &edges, 234_000, 14_697_000);
    assert_eq!(
        solid.vertices,
        vec![
            p(234_000, 234_000, 234_000),
            p(-234_000, -234_000, 234_000),
            p(0, 378_612, -144_612),
        ]
    );
    assert_eq!(solid.edges, vec![(0, 1), (1, 2), (2, 0)]);
    assert_eq!(solid.scale, 234_000);
    assert_eq!(solid.sv_ratio, 14_697_000);
    assert_eq!(solid.angle, 0);
}

#[test]
fn a_solid_spins_by_its_share_of_the_base_speed() {
    let vertices = [p(0, 0, 0)];
    let mut solid = Solid::new(&vertices, &[], ONE, 14_697_000);
    let omega = solid.spin_step(BASE_SPEED);
    assert_eq!(omega, 73_485);
    solid.update(omega);
    assert_eq!(solid.angle, 73_485);
    solid.update(omega);
    solid.update(-10);
    assert_eq!(solid.angle, 146_960);
    assert_eq!(solid.vertices, vec![p(0, 0, 0)]);
    let slow = Solid::new(&vertices, &[], ONE, 3_013_000);
    assert_eq!(slow.spin_step(BASE_SPEED), 15_065);
}

#[test]
fn edges_are_checked_against_the_number_of_vertices() {
    assert!(check_edges(&[(0, 1), (2, 3), (3, 0)], 4));
    assert!(!check_edges(&[(0, 1), (2, 4)], 4));
    assert!(!check_edges(&[(4, 0)], 4));
    assert!(check_edges(&[], 0));
    assert!(!check_edges(&[(0, 0)], 0));
}

#[test]
fn scaling_multiplies_every_coordinate() {
    assert_eq!(scale_point(p(ONE, -2 * ONE, 500_000), 286_000), p(286_000, -572_000, 143_000));
    assert_eq!(scale_point(p(1_618_000, 0, -618_000), 539_000), p(872_102, 0, -333_102));
    assert_eq!(scale_point(p(7, 8, 9), 0), p(0, 0, 0));
}

#[test]
fn turning_about_the_vertical_axis_keeps_the_height() {
    assert_eq!(rotate_y(p(ONE, 2 * ONE, 3 * ONE), REST), p(ONE, 2 * ONE, 3 * ONE));
    assert_eq!(rotate_y(p(ONE, 2 * ONE, 0), QUARTER), p(0, 2 * ONE, -ONE));
    assert_eq!(rotate_y(p(ONE, 0, 0), HALF), p(-ONE, 0, 0));
    assert_eq!(rotate_y(p(ONE, 0, ONE), EIGHTH), p(1_414_214, 0, 0));
    assert_eq!(rotate_y(p(0, 0, ONE), QUARTER), p(ONE, 0, 0));
}

#[test]
fn the_orbit_is_an_ellipse_on_every_pair_of_axes() {
    assert_eq!(orbit_offset(REST), p(6 * ONE, 0, 2 * ONE));
    assert_eq!(orbit_offset(QUARTER), p(0, 3 * ONE, 0));
    assert_eq!(orbit_offset(HALF), p(-6 * ONE, 0, -2 * ONE));
    assert_eq!(orbit_offset(EIGHTH), p(4_242_642, 2_121_321, 1_414_214));
}

#[test]
fn a_vertex_is_turned_and_then_moved() {
    assert_eq!(
        place(p(ONE, 2 * ONE, 0), QUARTER, p(10, 20, 30)),
        p(10, 2 * ONE + 20, -ONE + 30)
    );
    assert_eq!(place(p(ONE, ONE, ONE), REST, orbit_offset(REST)), p(7 * ONE, ONE, 3 * ONE));
}

#[test]
fn a_small_sphere_has_its_edges_in_order() {
    assert_eq!(
        sphere_edges(2, 3),
        vec![(0, 3), (0, 1), (1, 4), (1, 2), (2, 5), (2, 0), (3, 4), (4, 5), (5, 3)]
    );
    assert_eq!(sphere_edges(1, 4), vec![(0, 1), (1, 2), (2, 3), (3, 0)]);
    assert_eq!(sphere_edges(3, 1), vec![(0, 1), (0, 0), (1, 2), (1, 1), (2, 2)]);
}

#[test]
fn a_sphere_without_rings_or_meridians_has_no_edges() {
    assert_eq!(sphere_edges(0, 5), vec![]);
    assert_eq!(sphere_edges(3, 0), vec![]);
    assert_eq!(sphere_edges(0, 0), vec![]);
}

#[test]
fn the_sphere_of_the_scene_has_its_edges_between_its_vertices() {
    let edges = sphere_edges(SPHERE_LATS, SPHERE_LONGS);
    assert_eq!(edges.len(), 380);
    assert_eq!(edges[0], (0, 20));
    assert_eq!(edges[1], (0, 1));
    assert_eq!(edges[39], (19, 0));
    assert_eq!(edges[359], (179, 160));
    assert_eq!(edges[360], (180, 181));
    assert_eq!(edges[379], (199, 180));
    assert!(check_edges(&edges, SPHERE_LATS * SPHERE_LONGS));
    assert!(!check_edges(&edges, SPHERE_LATS * SPHERE_LONGS - 1));
}

#[test]
fn sphere_vertices_lie_on_rings() {
    let lats = [Turn { cos: 0, sin: -ONE }, REST, Turn { cos: 600_000, sin: 800_000 }];
    let longs = [REST, QUARTER, HALF, Turn { cos: 0, sin: -ONE }];
    let vertices = sphere_vertices(2 * ONE, &lats, &longs);
    assert_eq!(vertices.len(), 12);
    assert_eq!(vertices[0], p(0, -2 * ONE, 0));
    assert_eq!(vertices[3], p(0, -2 * ONE, 0));
    assert_eq!(vertices[4], p(2 * ONE, 0, 0));
    assert_eq!(vertices[5], p(0, 0, 2 * ONE));
    assert_eq!(vertices[6], p(-2 * ONE, 0, 0));
    assert_eq!(vertices[7], p(0, 0, -2 * ONE));
    assert_eq!(vertices[8], p(1_200_000, 1_600_000, 0));
    assert_eq!(vertices[9], p(0, 1_600_000, 1_200_000));
    assert_eq!(sphere_vertices(ONE, &[], &longs), vec![]);
    assert_eq!(sphere_vertices(ONE, &lats, &[]), vec![]);
}

#[test]
fn a_solid_cannot_turn_past_the_range_of_its_angle() {
    let mut solid = Solid::new(&[p(0, 0, 0)], &[], ONE, ONE);
    assert!(solid.can_update(i32::MAX));
    assert!(solid.can_update(i32::MIN));
    solid.angle = i64::MAX - 5;
    assert!(solid.can_update(5));
    assert!(!solid.can_update(6));
    assert!(solid.can_update(-6));
    solid.update(5);
    assert_eq!(solid.angle, i64::MAX);
    solid.angle = i64::MIN + 5;
    assert!(solid.can_update(-5));
    assert!(!solid.can_update(-6));
}

#[test]
fn the_orbit_advances_by_its_step() {
    assert_eq!(advance_angle(0, 20_000), Some(20_000));
    assert_eq!(advance_angle(40_000, 20_000), Some(60_000));
    assert_eq!(advance_angle(7, -10), Some(-3));
    assert_eq!(advance_angle(i64::MAX - 1, 1), Some(i64::MAX));
    assert_eq!(advance_angle(i64::MAX, 1), None);
    assert_eq!(advance_angle(i64::MIN, -1), None);
}
