use fleet_travel::geometry::Vec3;
use fleet_travel::planet::{planet_distance, planet_name, planet_neighbors, planet_position};
use fleet_travel::query::{Query, QueryPlanet, QueryPosition};
use fleet_travel::travel::{actual_turns_and_energy, move_fleet, reachable_planets};

#[test]
fn distance_three_four_five() {
    assert_eq!(Vec3::new(0, 0, 0).distance(Vec3::new(3, 4, 0)), 5);
}

#[test]
fn distance_is_floored() {
    // (8,8,8) to (8,16,24): sqrt(0 + 64 + 256) = sqrt(320) = 17.88.. -> 17
    assert_eq!(Vec3::new(8, 8, 8).distance(Vec3::new(8, 16, 24)), 17);
}

#[test]
fn distance_symmetric() {
    let a = Vec3::new(12, 99, 7);
    let b = Vec3::new(80, 3, 45);
    assert_eq!(a.distance(b), b.distance(a));
}

#[test]
fn distance_self_is_zero() {
    let a = Vec3::new(120, 120, 120);
    assert_eq!(a.distance(a), 0);
}

#[test]
fn catalog_names() {
    assert_eq!(planet_name(0), "ミニュアス");
    assert_eq!(planet_name(31), "ハイネセン");
}

#[test]
fn catalog_positions() {
    assert_eq!(planet_position(0), Vec3::new(8, 8, 8));
    assert_eq!(planet_position(1), Vec3::new(8, 16, 24));
    assert_eq!(planet_position(31), Vec3::new(120, 120, 120));
}

#[test]
fn catalog_neighbors() {
    assert_eq!(planet_neighbors(0), vec![1, 2]);
    assert_eq!(planet_neighbors(2), vec![0, 1, 4, 16]);
    assert_eq!(planet_neighbors(31), vec![26, 30]);
}

#[test]
fn catalog_neighbor_indices_are_valid() {
    for id in 0..32 {
        for dst in planet_neighbors(id) {
            assert!(dst < 32);
        }
    }
}

#[test]
fn catalog_distance() {
    assert_eq!(planet_distance(0, 1), 17);
    assert_eq!(planet_distance(0, 2), 11);
    assert_eq!(planet_distance(1, 0), 17);
}

#[test]
fn reachable_origin_with_zero_budget() {
    let r = reachable_planets(0, 0);
    assert!(r[0]);
    for id in 1..32 {
        assert!(!r[id]);
    }
}

#[test]
fn reachable_default_scenario() {
    // Origin 0, budget 100: the whole cluster within radius 100 of (8,8,8)
    // that the adjacency graph connects to it.
    let r = reachable_planets(0, 100);
    let expected: Vec<usize> = vec![0, 1, 2, 3, 4, 5, 6, 7, 8, 9, 10, 11];
    for id in 0..32 {
        assert_eq!(r[id], expected.contains(&id), "location {}", id);
    }
}

#[test]
fn reachable_smaller_budget() {
    let r = reachable_planets(0, 50);
    let expected: Vec<usize> = vec![0, 1, 2, 3, 4];
    for id in 0..32 {
        assert_eq!(r[id], expected.contains(&id), "location {}", id);
    }
}

#[test]
fn reachable_monotone_in_budget() {
    let small = reachable_planets(0, 50);
    let large = reachable_planets(0, 100);
    for id in 0..32 {
        if small[id] {
            assert!(large[id]);
        }
    }
}

#[test]
fn reachable_strict_threshold() {
    // Location 1 sits at distance exactly 17 from location 0.
    let at = reachable_planets(0, 17);
    assert!(!at[1]);
    assert!(at[2]); // distance 11 < 17
    let above = reachable_planets(0, 18);
    assert!(above[1]);
}

#[test]
fn simulate_same_point() {
    let p = Vec3::new(8, 8, 8);
    assert_eq!(actual_turns_and_energy(p, p, 30), Some((0, 0)));
    assert_eq!(actual_turns_and_energy(p, p, 1), Some((0, 0)));
}

#[test]
fn simulate_one_turn() {
    // distance 17 <= speed 30: one turn, energy equal to the distance.
    let src = Vec3::new(8, 8, 8);
    let target = Vec3::new(8, 16, 24);
    assert_eq!(actual_turns_and_energy(src, target, 30), Some((1, 17)));
}

#[test]
fn simulate_multi_turn_floors_per_axis() {
    // distance 100, speed 30: the first turn needs ceil(100/30) = 4 turns,
    // so it moves floor(100/4) = 25 on x, not the full 30.
    let src = Vec3::new(0, 0, 0);
    let target = Vec3::new(100, 0, 0);
    assert_eq!(move_fleet(src, target, 30), Vec3::new(25, 0, 0));
    assert_eq!(actual_turns_and_energy(src, target, 30), Some((4, 100)));
}

#[test]
fn simulate_diagonal_crawl() {
    // distance floor(sqrt(200)) = 14, speed 3: five turns of (2,2,0) whose
    // floored step lengths sum to 10, not to the straight-line 14.
    let src = Vec3::new(0, 0, 0);
    let target = Vec3::new(10, 10, 0);
    assert_eq!(actual_turns_and_energy(src, target, 3), Some((5, 10)));
}

#[test]
fn simulate_stalls_on_slow_diagonal() {
    // distance 5, speed 1: ceil(5/1) = 5 turns, and floor(3/5) = floor(4/5)
    // = 0 on both axes, so no turn ever moves the fleet.
    let src = Vec3::new(0, 0, 0);
    let target = Vec3::new(3, 4, 0);
    assert_eq!(actual_turns_and_energy(src, target, 1), None);
}

#[test]
fn simulate_zero_speed() {
    let src = Vec3::new(0, 0, 0);
    let target = Vec3::new(1, 0, 0);
    assert_eq!(actual_turns_and_energy(src, target, 0), None);
    assert_eq!(actual_turns_and_energy(src, src, 0), Some((0, 0)));
}

#[test]
fn query_planet_execute() {
    let q = Query::new_planet(0, 100);
    let a = q.execute();
    assert_eq!(q.src_pos(), Vec3::new(8, 8, 8));
    assert!(a.is_reachable(0));
    assert!(a.is_reachable(1));
    assert!(a.is_reachable(11));
    assert!(!a.is_reachable(12));
    assert!(!a.is_reachable(31));
}

#[test]
fn query_planet_cost() {
    let a = Query::new_planet(0, 100).execute();
    assert_eq!(a.cost(1, 30), Some((1, 17)));
    assert_eq!(a.cost(0, 30), Some((0, 0)));
    assert_eq!(a.cost(31, 30), None); // unreachable
}

#[test]
fn query_free_position_reaches_everything() {
    let q = Query::default_position();
    let a = q.execute();
    assert_eq!(q.src_pos(), Vec3::new(8, 8, 8));
    for id in 0..32 {
        assert!(a.is_reachable(id));
        assert!(a.cost(id, 30).is_some());
    }
}

#[test]
fn query_free_position_cost() {
    let a = Query::default_position().execute();
    // (8,8,8) to location 1 at (8,16,24): one turn of 17 at speed 30.
    assert_eq!(a.cost(1, 30), Some((1, 17)));
}

#[test]
fn query_planet_setters() {
    let mut q = QueryPlanet::new(0, 100);
    assert_eq!(q.src(), 0);
    assert_eq!(q.energy(), 100);
    q.set_src(5);
    q.set_energy(42);
    assert_eq!(q.src(), 5);
    assert_eq!(q.energy(), 42);
}

#[test]
fn query_position_setters() {
    let mut q = QueryPosition::default();
    assert_eq!(q.src(), Vec3::new(8, 8, 8));
    q.set_src_x(1);
    q.set_src_y(2);
    q.set_src_z(3);
    assert_eq!(q.src(), Vec3::new(1, 2, 3));
}

#[test]
fn query_defaults() {
    let q = Query::default();
    assert!(matches!(q, Query::Planet(_)));
    assert_eq!(q.src_pos(), Vec3::new(8, 8, 8));
    let a = q.execute();
    assert!(a.is_reachable(11));
    assert!(!a.is_reachable(12));
    let p = QueryPlanet::default();
    assert_eq!(p.src(), 0);
    assert_eq!(p.energy(), 100);
}

#[test]
fn execute_recomputes_after_mutation() {
    let mut q = QueryPlanet::new(0, 100);
    q.set_energy(17);
    let a = Query::Planet(q).execute();
    assert!(!a.is_reachable(1));
    assert!(a.is_reachable(2));
}
