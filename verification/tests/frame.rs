use plato::config::{
    light_direction, BASE_SPEED, HEIGHT, ORBIT_SPEED, SPHERE_LATS, SPHERE_LONGS, SPHERE_RADIUS,
    WIDTH,
};
use plato::fixed::ONE;
use plato::frame::{
    check_frame, check_in_view, draw_edges, edge_depth, place_all, project_all, render_frame,
    render_solid, render_sphere,
};
use plato::grid::Grid;
use plato::present::update_screen;
use plato::raster::DEPTH_FLOOR;
use plato::scene::{orbit_offset, sphere_edges, sphere_vertices, Solid, Turn};
use plato::shade::edge_intensity;
use plato::vector::{edge_vector, Point3};

fn p(x: i32, y: i32, z: i32) -> Point3 {
    Point3 { x, y, z }
}

fn units(x: i32, y: i32, z: i32) -> Point3 {
    Point3 { x: x * ONE, y: y * ONE, z: z * ONE }
}

const REST: Turn = Turn { cos: ONE, sin: 0 };

fn turn_of(angle: i64) -> Turn {
    let radians = angle as f64 / ONE as f64;
    Turn {
        cos: (radians.cos() * ONE as f64).round() as i32,
        sin: (radians.sin() * ONE as f64).round() as i32,
    }
}

fn canvas() -> (Grid<char>, Grid<i64>) {
    (Grid::new(WIDTH, HEIGHT, ' '), Grid::new(WIDTH, HEIGHT, DEPTH_FLOOR))
}

fn same<T: Copy + PartialEq + std::fmt::Debug>(a: &Grid<T>, b: &Grid<T>) {
    assert_eq!(a.width(), b.width());
    assert_eq!(a.height(), b.height());
    for row in 0..a.height() {
        for col in 0..a.width() {
            assert_eq!(a.get(row, col), b.get(row, col));
        }
    }
}

fn tetrahedron() -> Solid {
    let vertices = [units(1, 1, 1), units(-1, -1, 1), units(-1, 1, -1), units(1, -1, -1)];
    let edges = [(0, 1), (0, 2), (0, 3), (1, 2), (1, 3), (2, 3)];
    Solid::new(&vertices, &edges, 234_000, 14_697_000)
}

fn cube() -> Solid {
    let vertices = [
        units(-1, -1, -1),
        units(1, -1, -1),
        units(1, 1, -1),
        units(-1, 1, -1),
        units(-1, -1, 1),
        units(1, -1, 1),
        units(1, 1, 1),
        units(-1, 1, 1),
    ];
    let edges = [
        (0, 1),
        (1, 2),
        (2, 3),
        (3, 0),
        (4, 5),
        (5, 6),
        (6, 7),
        (7, 4),
        (0, 4),
        (1, 5),
        (2, 6),
        (3, 7),
    ];
    Solid::new(&vertices, &edges, 286_000, 6 * ONE)
}

fn sphere() -> (Vec<Point3>, Vec<(usize, usize)>) {
    let pi = std::f64::consts::PI;
    let lats: Vec<Turn> = (0..SPHERE_LATS)
        .map(|i| {
            let lat = pi * i as f64 / (SPHERE_LATS - 1) as f64 - pi / 2.0;
            turn_of((lat * ONE as f64).round() as i64)
        })
        .collect();
    let longs: Vec<Turn> = (0..SPHERE_LONGS)
        .map(|j| {
            let lon = 2.0 * pi * j as f64 / SPHERE_LONGS as f64;
            turn_of((lon * ONE as f64).round() as i64)
        })
        .collect();
    (
        sphere_vertices(SPHERE_RADIUS, &lats, &longs),
        sphere_edges(SPHERE_LATS, SPHERE_LONGS),
    )
}

#[test]
fn an_edge_along_the_light_is_drawn_in_the_densest_glyph() {
    let vertices = [units(0, 0, 0), units(1, 1, 1)];
    let solid = Solid::new(&vertices, &[(0, 1)], ONE, ONE);
    let light = units(1, 1, 1);
    assert_eq!(
        edge_intensity(edge_vector(solid.vertices[0], solid.vertices[1]), light),
        ONE
    );
    let (mut screen, mut depth) = canvas();
    render_solid(&mut screen, &mut depth, &solid, REST, orbit_offset(REST), light);
    let line = [(130, 40), (131, 41), (132, 42), (133, 43), (134, 44)];
    for row in 0..HEIGHT {
        for col in 0..WIDTH {
            if line.contains(&(col, row)) {
                assert_eq!(screen.get(row, col), '@');
                assert_eq!(depth.get(row, col), 2_500_000);
            } else {
                assert_eq!(screen.get(row, col), ' ');
                assert_eq!(depth.get(row, col), DEPTH_FLOOR);
            }
        }
    }
}

#[test]
fn light_against_an_edge_leaves_it_dark() {
    let light = units(1, 1, 1);
    assert_eq!(edge_intensity(units(-1, -1, -1), light), 0);
    assert_eq!(edge_intensity(units(1, -1, 0), light), 500_000);
    assert_eq!(edge_intensity(units(2, 0, 0), light), 788_675);
    assert_eq!(edge_intensity(units(0, 3, 0), units(0, 1, 0)), ONE);
}

#[test]
fn light_along_an_edge_lights_it_fully() {
    let edges = [
        units(6, 10, 15),
        p(888_113_861, 325_002_900, 325_002_900),
        p(1, 2, 3),
        p(-5, 7, -11),
        p(i32::MAX, i32::MIN, 1),
        units(0, 0, -4),
    ];
    for edge in edges {
        assert_eq!(edge_intensity(edge, edge), ONE);
    }
    assert_eq!(edge_intensity(units(6, 10, 15), p(12, 20, 30)), ONE);
    assert_eq!(edge_intensity(p(-7, 14, 21), p(-1_000, 2_000, 3_000)), ONE);
    assert_eq!(edge_intensity(p(1, 2, 3), p(-3, 1, 2)), 678_571);
    assert_eq!(edge_intensity(p(1, 0, 0), p(1, 1, 0)), 853_553);
}

#[test]
fn an_edge_without_length_is_lit_by_half() {
    assert_eq!(edge_intensity(p(0, 0, 0), units(1, 1, 1)), 500_000);
    assert_eq!(edge_intensity(units(1, 0, 0), p(0, 0, 0)), 500_000);
}

#[test]
fn the_light_of_the_scene_falls_along_the_diagonal() {
    assert_eq!(light_direction(), units(1, 1, 1));
}

#[test]
fn the_depth_of_an_edge_is_the_mean_of_its_ends() {
    assert_eq!(edge_depth(2 * ONE, 3 * ONE), 2_500_000);
    assert_eq!(edge_depth(-4, 4), 0);
    assert_eq!(edge_depth(1, 2), 2);
    assert_eq!(edge_depth(-1, -2), -2);
    assert_eq!(edge_depth(i32::MAX, i32::MAX), i32::MAX);
    assert_eq!(edge_depth(i32::MIN, i32::MIN), i32::MIN);
    assert_eq!(edge_depth(i32::MIN, i32::MAX), -1);
}

#[test]
fn points_in_the_plane_of_the_camera_are_out_of_view() {
    assert!(check_in_view(&vec![units(0, 0, 0), units(1, 2, -9), units(0, 0, 10)]));
    assert!(!check_in_view(&vec![units(0, 0, 0), units(1, 2, -10)]));
    assert!(check_in_view(&vec![p(0, 0, -10 * ONE + 1), p(0, 0, -10 * ONE - 1)]));
    assert!(check_in_view(&vec![]));
}

#[test]
fn placing_turns_and_moves_every_vertex() {
    let vertices = vec![units(1, 2, 0), units(0, 0, 1)];
    let quarter = Turn { cos: 0, sin: ONE };
    assert_eq!(
        place_all(&vertices, quarter, units(10, 20, 30)),
        vec![units(10, 22, 29), units(11, 20, 30)]
    );
    assert_eq!(place_all(&vec![], quarter, units(1, 1, 1)), vec![]);
}

#[test]
fn projecting_maps_every_point() {
    assert_eq!(
        project_all(&vec![units(0, 0, 0), units(1, 1, 0), units(6, 0, 2), units(7, 1, 3)]),
        vec![(80, 40), (90, 45), (130, 40), (134, 44)]
    );
}

#[test]
fn edges_are_drawn_between_projected_ends() {
    let base = vec![units(0, 0, 0), units(1, 0, 0), units(1, 1, 0)];
    let placed = vec![units(-1, 0, 0), units(1, 0, 0), units(1, 2, 0)];
    let edges = vec![(0, 1), (1, 2)];
    let (mut screen, mut depth) = canvas();
    draw_edges(&mut screen, &mut depth, &base, &placed, &edges, units(1, 0, 0));
    for col in 70..90 {
        assert_eq!(screen.get(40, col), '@');
        assert_eq!(depth.get(40, col), 0);
    }
    assert_eq!(screen.get(40, 90), '@');
    for row in 41..=50 {
        assert_eq!(screen.get(row, 90), '=');
        assert_eq!(depth.get(row, 90), 0);
    }
    assert_eq!(screen.get(40, 69), ' ');
    assert_eq!(screen.get(51, 90), ' ');
    assert_eq!(depth.get(39, 80), DEPTH_FLOOR);
}

#[test]
fn a_nearer_solid_hides_a_farther_one() {
    let near = Solid::new(&[units(-1, 0, 1), units(1, 0, 1)], &[(0, 1)], ONE, ONE);
    let far = Solid::new(&[units(0, 0, -1), units(0, 0, -1)], &[(0, 1)], ONE, ONE);
    let light = units(1, 0, 0);
    let origin = units(0, 0, 0);
    let (mut screen, mut depth) = canvas();
    render_solid(&mut screen, &mut depth, &near, REST, origin, light);
    render_solid(&mut screen, &mut depth, &far, REST, origin, light);
    assert_eq!(screen.get(40, 80), '@');
    assert_eq!(depth.get(40, 80), ONE as i64);
    let (mut screen, mut depth) = canvas();
    render_solid(&mut screen, &mut depth, &far, REST, origin, light);
    assert_eq!(screen.get(40, 80), '=');
    assert_eq!(depth.get(40, 80), -ONE as i64);
    render_solid(&mut screen, &mut depth, &near, REST, origin, light);
    assert_eq!(screen.get(40, 80), '@');
    assert_eq!(depth.get(40, 80), ONE as i64);
}

#[test]
fn a_frame_is_the_sphere_and_then_the_solids_on_a_cleared_canvas() {
    let (vertices, edges) = sphere();
    let solids = vec![tetrahedron(), cube()];
    let turns = vec![turn_of(700_000), turn_of(-1_300_000)];
    let orbit = turn_of(400_000);
    let light = light_direction();
    let mut screen = Grid::new(WIDTH, HEIGHT, '?');
    let mut depth = Grid::new(WIDTH, HEIGHT, 12_345i64);
    assert!(check_frame(&vertices, &edges, &solids, &turns, orbit));
    render_frame(&mut screen, &mut depth, &vertices, &edges, &solids, &turns, orbit, light);
    let (mut by_hand, mut depth_by_hand) = canvas();
    render_sphere(&mut by_hand, &mut depth_by_hand, &vertices, &edges, light);
    for (solid, turn) in solids.iter().zip(&turns) {
        render_solid(&mut by_hand, &mut depth_by_hand, solid, *turn, orbit_offset(orbit), light);
    }
    same(&screen, &by_hand);
    same(&depth, &depth_by_hand);
}

#[test]
fn an_untouched_cell_of_a_frame_is_blank() {
    let (vertices, edges) = sphere();
    let solids = vec![tetrahedron(), cube()];
    let turns = vec![REST, REST];
    let (mut screen, mut depth) = canvas();
    render_frame(&mut screen, &mut depth, &vertices, &edges, &solids, &turns, REST, light_direction());
    let mut drawn = 0;
    for row in 0..HEIGHT {
        for col in 0..WIDTH {
            if depth.get(row, col) == DEPTH_FLOOR {
                assert_eq!(screen.get(row, col), ' ');
            } else {
                drawn += 1;
            }
        }
    }
    assert!(drawn > 100);
    assert_ne!(screen.get(40, 100), '?');
    assert_ne!(depth.get(40, 100), DEPTH_FLOOR);
}

#[test]
fn a_frame_with_a_vertex_in_the_camera_plane_is_refused() {
    let (vertices, edges) = sphere();
    let on_plane = Solid::new(&[units(0, 0, -12), units(0, 1, 0)], &[(0, 1)], ONE, ONE);
    let solids = vec![tetrahedron(), on_plane];
    let turns = vec![REST, REST];
    assert!(!check_frame(&vertices, &edges, &solids, &turns, REST));
    let behind = Turn { cos: -ONE, sin: 0 };
    assert!(check_frame(&vertices, &edges, &solids, &turns, behind));
    let bad_edges = vec![(0, vertices.len())];
    assert!(!check_frame(&vertices, &bad_edges, &vec![], &vec![], REST));
    let mut bad_solid = tetrahedron();
    bad_solid.edges.push((0, 4));
    assert!(!check_frame(&vertices, &edges, &vec![bad_solid], &vec![REST], REST));
    assert!(!check_frame(&vec![units(0, 0, -10)], &vec![], &vec![], &vec![], REST));
}

#[test]
fn the_display_follows_the_animation_frame_by_frame() {
    let (vertices, edges) = sphere();
    let mut solids = vec![tetrahedron(), cube()];
    let light = light_direction();
    let (mut screen, mut depth) = canvas();
    let mut shown = Grid::new(WIDTH, HEIGHT, ' ');
    let mut orbit_angle: i64 = 0;
    let mut total_updates = 0;
    for _ in 0..5 {
        for solid in solids.iter_mut() {
            let omega = solid.spin_step(BASE_SPEED);
            solid.update(omega);
        }
        let turns: Vec<Turn> = solids.iter().map(|solid| turn_of(solid.angle)).collect();
        let orbit = turn_of(orbit_angle);
        assert!(check_frame(&vertices, &edges, &solids, &turns, orbit));
        render_frame(&mut screen, &mut depth, &vertices, &edges, &solids, &turns, orbit, light);
        let updates = update_screen(&screen, &shown);
        total_updates += updates.len();
        for update in &updates {
            shown.set(update.row, update.col, update.glyph);
        }
        same(&shown, &screen);
        orbit_angle += ORBIT_SPEED as i64;
    }
    assert!(total_updates > 100);
    assert_eq!(solids[0].angle, 5 * 73_485);
    assert_eq!(solids[1].angle, 5 * 30_000);
}
