use verlet_balls::body::{Body, Color};
use verlet_balls::boundary::{clamp_circle, clamp_rectangle, enforce, Boundary};
use verlet_balls::collision::{resolve, FINE};
use verlet_balls::integrator::{acceleration_per_step, step_body};
use verlet_balls::scalar::{
    div_toward_zero, integer_sqrt, saturating_coord, COORD_LIMIT, ONE, RADIUS_LIMIT,
};
use verlet_balls::scheduler::World;
use verlet_balls::store::BodyStore;
use verlet_balls::vector::Vec2;

const WHITE: Color = Color { r: 255, g: 255, b: 255 };

fn still_world() -> World {
    World { gravity: Vec2::new(0, 0), boundary: Boundary::Unbounded }
}

fn resting(x: i64, y: i64, radius: i64) -> Body {
    Body::at_rest(Vec2::new(x, y), radius, WHITE).unwrap()
}

fn gap(a: &Body, b: &Body) -> u64 {
    let dx = (b.position().x - a.position().x) as i128;
    let dy = (b.position().y - a.position().y) as i128;
    integer_sqrt((dx * dx + dy * dy) as u128)
}

#[test]
fn overlapping_equal_pair_separates_exactly() {
    let mut store = BodyStore::new();
    store.append(resting(0, 0, 10 * ONE));
    store.append(resting(15 * ONE, 0, 10 * ONE));
    store.advance(&still_world(), ONE / 1000, 1);
    let a = store.get(0).position();
    let b = store.get(1).position();
    assert_eq!(a, Vec2::new(-(5 * ONE) / 2, 0));
    assert_eq!(b, Vec2::new(15 * ONE + (5 * ONE) / 2, 0));
    assert_eq!(b.x - a.x, 20 * ONE);
    assert_eq!(store.get(0).previous(), Vec2::new(0, 0));
    assert_eq!(store.get(1).previous(), Vec2::new(15 * ONE, 0));
}

#[test]
fn split_is_weighted_by_squared_radius() {
    let mut a = resting(0, 0, 3 * ONE);
    let mut b = resting(5 * ONE, 0, 4 * ONE);
    resolve(&mut a, &mut b);
    // The overlap is 2 units deep; the second body takes 9/25 of it.
    assert_eq!(b.position(), Vec2::new(5 * ONE + 3092376453, 0));
    assert_eq!(a.position(), Vec2::new(-5497558139, 0));
    assert_eq!(3092376453 + 5497558139, 2 * ONE);
    assert_eq!(b.position().x - a.position().x, 7 * ONE);
}

#[test]
fn larger_body_moves_less() {
    let mut small = resting(0, 0, 2 * ONE);
    let mut large = resting(0, 5 * ONE, 6 * ONE);
    resolve(&mut small, &mut large);
    let moved_small = -small.position().y;
    let moved_large = large.position().y - 5 * ONE;
    assert!(moved_small > 0 && moved_large > 0);
    assert!(moved_large < moved_small);
    assert_eq!(moved_small + moved_large, 3 * ONE);
    assert_eq!(small.position().x, 0);
    assert_eq!(large.position().x, 0);
}

#[test]
fn bodies_apart_are_left_alone() {
    let mut a = resting(0, 0, 2 * ONE);
    let mut b = resting(4 * ONE, 0, 2 * ONE);
    resolve(&mut a, &mut b);
    assert_eq!(a, resting(0, 0, 2 * ONE));
    assert_eq!(b, resting(4 * ONE, 0, 2 * ONE));
    let mut c = resting(3 * ONE, 3 * ONE, 2 * ONE);
    resolve(&mut a, &mut c);
    assert_eq!(a, resting(0, 0, 2 * ONE));
    assert_eq!(c, resting(3 * ONE, 3 * ONE, 2 * ONE));
}

#[test]
fn diagonal_pair_is_pushed_along_the_diagonal() {
    let mut a = resting(0, 0, 2 * ONE);
    let mut b = resting(ONE, ONE, 2 * ONE);
    resolve(&mut a, &mut b);
    assert_eq!(b.position(), Vec2::new(ONE + 3926517351, ONE + 3926517351));
    assert_eq!(a.position(), Vec2::new(-3926517352, -3926517352));
    assert!(gap(&a, &b) as i64 >= 4 * ONE - 2);
    assert!(gap(&a, &b) as i64 <= 4 * ONE + 4 * ONE / FINE);
}

#[test]
fn centres_a_few_ticks_apart_are_pushed_no_farther_than_they_overlap() {
    // Radii of 10 units, centres one tick apart along either axis: each body
    // moves 10 units in all, a little over 7 along each axis.
    let mut a = resting(0, 0, 10 * ONE);
    let mut b = resting(1, 1, 10 * ONE);
    resolve(&mut a, &mut b);
    assert_eq!(a.position(), Vec2::new(-30370008079, -30370008079));
    assert_eq!(b.position(), Vec2::new(30370008080, 30370008080));
    assert_eq!(gap(&a, &b) as i64, 20 * ONE + 8710);
    assert!(gap(&a, &b) as i64 <= 20 * ONE + 20 * ONE / FINE);
    // A gap of 5 ticks along (3, -4): the push keeps that direction.
    let mut c = resting(0, 0, 10 * ONE);
    let mut d = resting(3, -4, 10 * ONE);
    resolve(&mut c, &mut d);
    assert_eq!(c.position(), Vec2::new(-25769803775, 34359738366));
    assert_eq!(d.position(), Vec2::new(25769803777, -34359738370));
    assert_eq!(gap(&c, &d) as i64, 20 * ONE);
    // One tick apart along x, the second body to the left.
    let mut e = resting(5, 5, 3 * ONE);
    let mut f = resting(4, 5, 4 * ONE);
    resolve(&mut e, &mut f);
    assert_eq!(e.position(), Vec2::new(19241453491, 5));
    assert_eq!(f.position(), Vec2::new(-10823317581, 5));
    assert_eq!(gap(&e, &f) as i64, 7 * ONE);
}

#[test]
fn no_pair_is_pushed_farther_than_the_sum_of_its_radii() {
    let radius = 10 * ONE;
    let mut offset: i64 = 1;
    while offset < 20 * ONE {
        let mut a = resting(-offset / 3, offset / 5, radius);
        let mut b = resting(offset - offset / 3, offset / 5 + offset / 7, radius);
        resolve(&mut a, &mut b);
        let after = gap(&a, &b) as i64;
        assert!(after >= 2 * radius - 2);
        assert!(after <= 2 * radius + 2 * radius / FINE);
        offset = offset * 2 + 1;
    }
}

#[test]
fn coincident_bodies_are_pushed_apart_along_x() {
    let mut a = resting(7 * ONE, -3 * ONE, 2 * ONE);
    let mut b = resting(7 * ONE, -3 * ONE, 2 * ONE);
    resolve(&mut a, &mut b);
    assert_eq!(a.position(), Vec2::new(5 * ONE, -3 * ONE));
    assert_eq!(b.position(), Vec2::new(9 * ONE, -3 * ONE));
    assert_eq!(gap(&a, &b) as i64, 4 * ONE);
}

#[test]
fn coincident_bodies_survive_a_substep() {
    let mut store = BodyStore::new();
    store.append(resting(0, 0, 3 * ONE));
    store.append(resting(0, 0, 4 * ONE));
    let world = World { gravity: Vec2::new(0, -9800 * ONE), boundary: Boundary::Disk {
        radius: 480 * ONE,
    } };
    store.advance(&world, ONE / 1000, 1);
    let a = store.get(0);
    let b = store.get(1);
    assert_eq!(b.position().x - a.position().x, 7 * ONE);
    assert_eq!(a.position().y, b.position().y);
    assert_eq!(a.position().y, -42090673);
}

#[test]
fn overlap_is_gone_after_one_substep_whatever_its_depth() {
    let radius = 10 * ONE;
    let mut offset: i64 = 1;
    while offset < 20 * ONE {
        let mut store = BodyStore::new();
        store.append(resting(-offset / 3, offset / 5, radius));
        store.append(resting(offset - offset / 3, offset / 5 + offset / 7, radius));
        store.advance(&still_world(), ONE / 1000, 1);
        let (a, b) = (store.get(0), store.get(1));
        assert!(gap(&a, &b) as i64 >= 2 * radius - 2);
        store.advance(&still_world(), ONE / 1000, 8);
        let (a, b) = (store.get(0), store.get(1));
        assert!(gap(&a, &b) as i64 >= 2 * radius - 2);
        offset = offset * 3 + 1;
    }
}

#[test]
fn sweep_depends_on_the_order_of_the_bodies() {
    let left = resting(0, 0, 10 * ONE);
    let middle = resting(15 * ONE, 0, 10 * ONE);
    let right = resting(30 * ONE, 0, 10 * ONE);
    let mut forward = BodyStore::new();
    forward.append(left);
    forward.append(middle);
    forward.append(right);
    forward.resolve_collisions();
    let mut backward = BodyStore::new();
    backward.append(right);
    backward.append(middle);
    backward.append(left);
    backward.resolve_collisions();
    // Forward: the left body pushes the middle one right, which then lies deeper in the right one.
    assert_eq!(forward.get(0).position().x, -(5 * ONE) / 2);
    assert_eq!(forward.get(1).position().x, 15 * ONE + (5 * ONE) / 2 - (15 * ONE) / 4);
    assert_eq!(forward.get(2).position().x, 30 * ONE + (15 * ONE) / 4);
    // Backward: the mirror image, so the same body ends in another place.
    assert_eq!(backward.get(0).position().x, 30 * ONE + (5 * ONE) / 2);
    assert_eq!(backward.get(1).position().x, 15 * ONE - (5 * ONE) / 2 + (15 * ONE) / 4);
    assert_eq!(backward.get(2).position().x, -(15 * ONE) / 4);
    assert_ne!(forward.get(0).position(), backward.get(2).position());
    assert_ne!(forward.get(1).position(), backward.get(1).position());
    assert_ne!(forward.get(2).position(), backward.get(0).position());
}

#[test]
fn one_sweep_does_not_separate_a_pile() {
    let mut store = BodyStore::new();
    store.append(resting(0, 0, 10 * ONE));
    store.append(resting(15 * ONE, 0, 10 * ONE));
    store.append(resting(30 * ONE, 0, 10 * ONE));
    store.resolve_collisions();
    let (a, b) = (store.get(0), store.get(1));
    assert!((gap(&a, &b) as i64) < 20 * ONE - 2);
}

#[test]
fn verlet_step_repeats_the_last_displacement() {
    let mut b = Body::new(Vec2::new(10, 20), Vec2::new(7, 24), ONE, WHITE).unwrap();
    step_body(&mut b, Vec2::new(0, -5));
    assert_eq!(b.position(), Vec2::new(13, 11));
    assert_eq!(b.previous(), Vec2::new(10, 20));
    step_body(&mut b, Vec2::new(0, -5));
    assert_eq!(b.position(), Vec2::new(16, -3));
    assert_eq!(b.previous(), Vec2::new(13, 11));
}

#[test]
fn new_body_starts_without_velocity() {
    let mut b = resting(5, 6, ONE);
    step_body(&mut b, Vec2::new(0, 0));
    assert_eq!(b.position(), Vec2::new(5, 6));
    assert_eq!(b.previous(), Vec2::new(5, 6));
}

#[test]
fn verlet_step_saturates_at_the_edge_of_the_world() {
    let mut b = Body::new(Vec2::new(COORD_LIMIT, -COORD_LIMIT), Vec2::new(0, 0), ONE, WHITE)
        .unwrap();
    step_body(&mut b, Vec2::new(0, 0));
    assert_eq!(b.position(), Vec2::new(COORD_LIMIT, -COORD_LIMIT));
    assert_eq!(b.previous(), Vec2::new(COORD_LIMIT, -COORD_LIMIT));
}

#[test]
fn free_fall_follows_the_closed_form() {
    let accel: i64 = -2630663;
    let mut store = BodyStore::new();
    store.append(resting(3 * ONE, 100 * ONE, ONE));
    let mut b = resting(3 * ONE, 100 * ONE, ONE);
    let mut n: i64 = 0;
    while n < 50 {
        step_body(&mut b, Vec2::new(0, accel));
        n += 1;
        assert_eq!(b.position().x, 3 * ONE);
        assert_eq!(2 * (b.position().y - 100 * ONE), accel * n * (n + 1));
        assert_eq!(2 * (b.previous().y - 100 * ONE), accel * (n - 1) * n);
    }
    store.advance(&World { gravity: Vec2::new(0, -9800 * ONE), boundary: Boundary::Unbounded },
        50 * (ONE / 1000), 200);
    assert_eq!(store.get(0).position().x, 3 * ONE);
}

#[test]
fn free_fall_approaches_half_g_t_squared() {
    // One second of fall under 10 units per second squared: 5 units.
    let world = World { gravity: Vec2::new(0, -10 * ONE), boundary: Boundary::Unbounded };
    let exact = 5 * ONE;
    let mut last_error = i64::MAX;
    let mut substeps: usize = 1;
    while substeps <= 1024 {
        let mut store = BodyStore::new();
        store.append(resting(0, 0, ONE));
        store.advance(&world, ONE, substeps);
        let fallen = -store.get(0).position().y;
        let error = (fallen - exact).abs();
        assert!(error < last_error);
        // The fall exceeds the exact one by one part in `substeps`, up to rounding.
        assert!((error - exact / substeps as i64).abs() <= 2 * substeps as i64);
        last_error = error;
        substeps *= 4;
    }
    assert!(last_error < exact / 1000);
}

#[test]
fn gravity_scales_with_the_square_of_the_substep() {
    assert_eq!(acceleration_per_step(-9800 * ONE, 1073741), -2630663);
    assert_eq!(acceleration_per_step(9800 * ONE, -1073741), 2630663);
    assert_eq!(acceleration_per_step(ONE, ONE), ONE);
    assert_eq!(acceleration_per_step(-ONE, 2 * ONE), -4 * ONE);
    assert_eq!(acceleration_per_step(3, ONE / 2), 0);
    assert_eq!(acceleration_per_step(0, i64::MAX), 0);
    assert_eq!(acceleration_per_step(i64::MAX, i64::MAX), COORD_LIMIT);
    assert_eq!(acceleration_per_step(i64::MIN, i64::MIN), -COORD_LIMIT);
}

#[test]
fn frame_without_substeps_changes_nothing() {
    let mut store = BodyStore::new();
    store.append(Body::new(Vec2::new(5, 5), Vec2::new(1, 1), ONE, WHITE).unwrap());
    store.append(resting(5, 5, ONE));
    let world = World { gravity: Vec2::new(0, -9800 * ONE), boundary: Boundary::Disk {
        radius: ONE,
    } };
    store.advance(&world, ONE, 0);
    assert_eq!(store.get(0), Body::new(Vec2::new(5, 5), Vec2::new(1, 1), ONE, WHITE).unwrap());
    assert_eq!(store.get(1), resting(5, 5, ONE));
}

#[test]
fn substeps_are_movement_then_sweep() {
    let world = World { gravity: Vec2::new(0, -9800 * ONE), boundary: Boundary::Disk {
        radius: 480 * ONE,
    } };
    let mut whole = BodyStore::new();
    let mut parts = BodyStore::new();
    for k in 0..6 {
        let b = resting((k * 7 - 20) * ONE, (k % 3) * 5 * ONE, (4 + k) * ONE);
        whole.append(b);
        parts.append(b);
    }
    whole.advance(&world, ONE / 1000, 4);
    let accel = Vec2::new(0, acceleration_per_step(-9800 * ONE, div_toward_zero(
        (ONE / 1000) as i128,
        4,
    ) as i64));
    for _ in 0..4 {
        parts.move_bodies(accel, world.boundary);
        parts.resolve_collisions();
    }
    for k in 0..6 {
        assert_eq!(whole.get(k), parts.get(k));
    }
}

#[test]
fn disk_pulls_a_body_back_by_the_excess() {
    let mut b = resting(500 * ONE, 0, 10 * ONE);
    clamp_circle(&mut b, 480 * ONE);
    assert_eq!(b.position(), Vec2::new(470 * ONE, 0));
    assert_eq!(b.previous(), Vec2::new(500 * ONE, 0));
    let mut c = resting(400 * ONE, -300 * ONE, 10 * ONE);
    clamp_circle(&mut c, 480 * ONE);
    assert_eq!(c.position(), Vec2::new(376 * ONE, -282 * ONE));
}

#[test]
fn disk_leaves_a_body_inside_alone() {
    let mut b = resting(300 * ONE, 300 * ONE, 10 * ONE);
    clamp_circle(&mut b, 480 * ONE);
    assert_eq!(b, resting(300 * ONE, 300 * ONE, 10 * ONE));
    let mut touching = resting(0, -470 * ONE, 10 * ONE);
    clamp_circle(&mut touching, 480 * ONE);
    assert_eq!(touching, resting(0, -470 * ONE, 10 * ONE));
}

#[test]
fn disk_skips_a_body_at_the_origin() {
    let mut b = resting(0, 0, 10 * ONE);
    clamp_circle(&mut b, 5 * ONE);
    assert_eq!(b, resting(0, 0, 10 * ONE));
}

#[test]
fn disk_holds_a_falling_body() {
    let world = World { gravity: Vec2::new(0, -9800 * ONE), boundary: Boundary::Disk {
        radius: 480 * ONE,
    } };
    let mut store = BodyStore::new();
    store.append(Body::new(Vec2::new(100 * ONE, -400 * ONE), Vec2::new(90 * ONE, -380 * ONE),
        7 * ONE, WHITE).unwrap());
    for _ in 0..200 {
        store.advance(&world, ONE / 100, 4);
        let p = store.get(0).position();
        let d = integer_sqrt(((p.x as i128) * (p.x as i128) + (p.y as i128) * (p.y as i128))
            as u128) as i64;
        assert!(d + 7 * ONE <= 480 * ONE + 2);
    }
}

#[test]
fn rectangle_clamps_each_coordinate() {
    let mut b = Body::new(Vec2::new(600 * ONE, -700 * ONE), Vec2::new(1, 2), 10 * ONE, WHITE)
        .unwrap();
    clamp_rectangle(&mut b, 512 * ONE, 512 * ONE);
    assert_eq!(b.position(), Vec2::new(502 * ONE, -502 * ONE));
    assert_eq!(b.previous(), Vec2::new(1, 2));
    let mut inside = resting(-502 * ONE, 100 * ONE, 10 * ONE);
    clamp_rectangle(&mut inside, 512 * ONE, 512 * ONE);
    assert_eq!(inside.position(), Vec2::new(-502 * ONE, 100 * ONE));
}

#[test]
fn rectangle_too_small_for_the_body() {
    // The interval from 6 to -6 is empty: what is below its lower end goes there,
    // everything else to its upper end.
    let mut b = resting(3 * ONE, 7 * ONE, 10 * ONE);
    clamp_rectangle(&mut b, 4 * ONE, 4 * ONE);
    assert_eq!(b.position(), Vec2::new(6 * ONE, -6 * ONE));
}

#[test]
fn enforce_follows_the_policy() {
    let start = resting(600 * ONE, 0, 10 * ONE);
    let mut b = start;
    enforce(&mut b, Boundary::Unbounded);
    assert_eq!(b, start);
    enforce(&mut b, Boundary::Rectangle { half_width: 512 * ONE, half_height: 512 * ONE });
    assert_eq!(b.position(), Vec2::new(502 * ONE, 0));
    enforce(&mut b, Boundary::Disk { radius: 480 * ONE });
    assert_eq!(b.position(), Vec2::new(470 * ONE, 0));
}

#[test]
fn integer_square_roots() {
    assert_eq!(integer_sqrt(0), 0);
    assert_eq!(integer_sqrt(1), 1);
    assert_eq!(integer_sqrt(3), 1);
    assert_eq!(integer_sqrt(4), 2);
    assert_eq!(integer_sqrt(99), 9);
    assert_eq!(integer_sqrt(100), 10);
    assert_eq!(integer_sqrt((15 * ONE as u128) * (15 * ONE as u128)), 15 * ONE as u64);
    assert_eq!(integer_sqrt(u128::MAX), u64::MAX);
    assert_eq!(integer_sqrt(2 * (ONE as u128) * (ONE as u128)), 6074000999);
}

#[test]
fn division_rounds_toward_zero() {
    assert_eq!(div_toward_zero(7, 2), 3);
    assert_eq!(div_toward_zero(-7, 2), -3);
    assert_eq!(div_toward_zero(6, 3), 2);
    assert_eq!(div_toward_zero(-1, 5), 0);
    assert_eq!(div_toward_zero(0, 5), 0);
}

#[test]
fn coordinates_saturate() {
    assert_eq!(saturating_coord(5), 5);
    assert_eq!(saturating_coord(COORD_LIMIT as i128 + 1), COORD_LIMIT);
    assert_eq!(saturating_coord(-(COORD_LIMIT as i128) - 1), -COORD_LIMIT);
    assert_eq!(saturating_coord(i128::MAX), COORD_LIMIT);
    assert_eq!(RADIUS_LIMIT, 512 * ONE);
}

#[test]
fn rectangle_holds_a_falling_body() {
    let world = World {
        gravity: Vec2::new(0, -9800 * ONE),
        boundary: Boundary::Rectangle { half_width: 512 * ONE, half_height: 512 * ONE },
    };
    let mut store = BodyStore::new();
    store.append(Body::new(Vec2::new(500 * ONE, -500 * ONE), Vec2::new(490 * ONE, -490 * ONE),
        7 * ONE, WHITE).unwrap());
    for _ in 0..50 {
        store.advance(&world, ONE / 100, 4);
        let p = store.get(0).position();
        assert!(p.x.abs() + 7 * ONE <= 512 * ONE);
        assert!(p.y.abs() + 7 * ONE <= 512 * ONE);
    }
    assert_eq!(store.get(0).position(), Vec2::new(505 * ONE, -505 * ONE));
}

#[test]
fn pair_at_rest_drifts_apart_and_never_closes() {
    let mut store = BodyStore::new();
    store.append(resting(-3 * ONE, 2 * ONE, 10 * ONE));
    store.append(resting(4 * ONE, -ONE, 6 * ONE));
    let mut last = gap(&store.get(0), &store.get(1));
    for _ in 0..30 {
        store.advance(&still_world(), ONE / 1000, 1);
        let now = gap(&store.get(0), &store.get(1));
        assert!(now >= last);
        assert!(now as i64 >= 16 * ONE - 2);
        last = now;
    }
}

#[test]
fn largest_bodies_can_be_resolved() {
    let mut a = resting(COORD_LIMIT, -COORD_LIMIT, RADIUS_LIMIT);
    let mut b = resting(COORD_LIMIT, -COORD_LIMIT, RADIUS_LIMIT);
    resolve(&mut a, &mut b);
    assert_eq!(a.position(), Vec2::new(COORD_LIMIT - RADIUS_LIMIT, -COORD_LIMIT));
    assert_eq!(b.position(), Vec2::new(COORD_LIMIT, -COORD_LIMIT));
    let mut c = resting(-RADIUS_LIMIT / 2, RADIUS_LIMIT / 2 + 3, RADIUS_LIMIT);
    let mut d = resting(RADIUS_LIMIT / 2 + 1, -RADIUS_LIMIT / 2, RADIUS_LIMIT);
    resolve(&mut c, &mut d);
    let after = gap(&c, &d) as i64;
    assert!(after >= 2 * RADIUS_LIMIT - 2);
    assert!(after <= 2 * RADIUS_LIMIT + 2 * RADIUS_LIMIT / FINE);
    let mut e = resting(0, 0, RADIUS_LIMIT);
    let mut f = resting(-1, 1, RADIUS_LIMIT);
    resolve(&mut e, &mut f);
    let near = gap(&e, &f) as i64;
    assert!(near >= 2 * RADIUS_LIMIT - 2);
    assert!(near <= 2 * RADIUS_LIMIT + 2 * RADIUS_LIMIT / FINE);
}

#[test]
fn free_fall_is_the_same_inside_a_disk_that_it_does_not_reach() {
    let open = World { gravity: Vec2::new(0, -9800 * ONE), boundary: Boundary::Unbounded };
    let wide = World { gravity: Vec2::new(0, -9800 * ONE), boundary: Boundary::Disk {
        radius: 480 * ONE,
    } };
    let mut free = BodyStore::new();
    let mut held = BodyStore::new();
    free.append(resting(30 * ONE, 100 * ONE, 5 * ONE));
    held.append(resting(30 * ONE, 100 * ONE, 5 * ONE));
    let accel = acceleration_per_step(-9800 * ONE, (ONE / 1000) / 4);
    for frame in 1..40i64 {
        free.advance(&open, ONE / 1000, 4);
        held.advance(&wide, ONE / 1000, 4);
        assert_eq!(free.get(0), held.get(0));
        let n = 4 * frame;
        assert_eq!(2 * (held.get(0).position().y - 100 * ONE), accel * n * (n + 1));
        assert_eq!(held.get(0).position().x, 30 * ONE);
    }
}

#[test]
fn pair_comes_apart_the_same_inside_a_disk_that_it_does_not_reach() {
    let wide = World { gravity: Vec2::new(0, 0), boundary: Boundary::Disk { radius: 480 * ONE } };
    let tall = World { gravity: Vec2::new(0, 0), boundary: Boundary::Rectangle {
        half_width: 400 * ONE,
        half_height: 400 * ONE,
    } };
    for world in [wide, tall] {
        let mut free = BodyStore::new();
        let mut held = BodyStore::new();
        for store in [&mut free, &mut held] {
            store.append(resting(-3 * ONE, 2 * ONE, 10 * ONE));
            store.append(resting(4 * ONE, -ONE, 6 * ONE));
        }
        for _ in 0..5 {
            free.advance(&still_world(), ONE / 1000, 2);
            held.advance(&world, ONE / 1000, 2);
            assert_eq!(free.iterate(), held.iterate());
            assert!(gap(&held.get(0), &held.get(1)) as i64 >= 16 * ONE - 2);
        }
    }
}
