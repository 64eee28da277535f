use verlet_balls::body::{Body, BodyError, Color};
use verlet_balls::scalar::{COORD_LIMIT, ONE, RADIUS_LIMIT};
use verlet_balls::store::BodyStore;
use verlet_balls::vector::Vec2;

const RED: Color = Color { r: 200, g: 10, b: 20 };

#[test]
fn body_keeps_what_it_was_made_of() {
    let b = Body::new(Vec2::new(1, 2), Vec2::new(3, 4), 5, RED).unwrap();
    assert_eq!(b.position(), Vec2::new(1, 2));
    assert_eq!(b.previous(), Vec2::new(3, 4));
    assert_eq!(b.radius(), 5);
    assert_eq!(b.color(), RED);
}

#[test]
fn body_at_rest_has_equal_centres() {
    let b = Body::at_rest(Vec2::new(-9, 8), ONE, RED).unwrap();
    assert_eq!(b.position(), b.previous());
    assert_eq!(b, Body::new(Vec2::new(-9, 8), Vec2::new(-9, 8), ONE, RED).unwrap());
}

#[test]
fn radius_must_be_positive() {
    let origin = Vec2::zero();
    assert_eq!(Body::new(origin, origin, 0, RED), Err(BodyError::NonPositiveRadius));
    assert_eq!(Body::new(origin, origin, -ONE, RED), Err(BodyError::NonPositiveRadius));
    assert_eq!(Body::at_rest(origin, 0, RED), Err(BodyError::NonPositiveRadius));
    assert!(Body::new(origin, origin, 1, RED).is_ok());
}

#[test]
fn radius_must_not_exceed_the_limit() {
    let origin = Vec2::zero();
    assert!(Body::new(origin, origin, RADIUS_LIMIT, RED).is_ok());
    assert_eq!(Body::new(origin, origin, RADIUS_LIMIT + 1, RED), Err(BodyError::RadiusTooLarge));
    assert_eq!(Body::at_rest(origin, i64::MAX, RED), Err(BodyError::RadiusTooLarge));
}

#[test]
fn centres_must_be_in_the_world() {
    let edge = Vec2::new(COORD_LIMIT, -COORD_LIMIT);
    assert!(Body::new(edge, edge, ONE, RED).is_ok());
    let origin = Vec2::zero();
    for outside in [
        Vec2::new(COORD_LIMIT + 1, 0),
        Vec2::new(-COORD_LIMIT - 1, 0),
        Vec2::new(0, COORD_LIMIT + 1),
        Vec2::new(0, i64::MIN),
    ] {
        assert_eq!(Body::new(outside, origin, ONE, RED), Err(BodyError::OutsideWorld));
        assert_eq!(Body::new(origin, outside, ONE, RED), Err(BodyError::OutsideWorld));
        assert_eq!(Body::at_rest(outside, ONE, RED), Err(BodyError::OutsideWorld));
    }
}

#[test]
fn radius_is_judged_before_the_centres() {
    let outside = Vec2::new(i64::MAX, 0);
    assert_eq!(Body::new(outside, outside, 0, RED), Err(BodyError::NonPositiveRadius));
    assert_eq!(Body::new(outside, outside, i64::MAX, RED), Err(BodyError::RadiusTooLarge));
}

#[test]
fn store_keeps_insertion_order() {
    let mut store = BodyStore::new();
    assert!(store.is_empty());
    assert_eq!(store.len(), 0);
    assert_eq!(store.body(0), None);
    for k in 0..5 {
        store.append(Body::at_rest(Vec2::new(k, -k), k + 1, RED).unwrap());
    }
    assert!(!store.is_empty());
    assert_eq!(store.len(), 5);
    for k in 0..5 {
        assert_eq!(store.get(k as usize).position(), Vec2::new(k, -k));
        assert_eq!(store.body(k as usize), Some(store.get(k as usize)));
    }
    assert_eq!(store.body(5), None);
}

#[test]
fn store_shows_the_renderer_centre_radius_and_colour() {
    let mut store = BodyStore::new();
    assert!(store.iterate().is_empty());
    store.append(Body::new(Vec2::new(1, 2), Vec2::new(3, 4), 5, RED).unwrap());
    store.append(Body::at_rest(Vec2::new(6, 7), 8, Color { r: 1, g: 2, b: 3 }).unwrap());
    assert_eq!(
        store.iterate(),
        vec![(Vec2::new(1, 2), 5, RED), (Vec2::new(6, 7), 8, Color { r: 1, g: 2, b: 3 })]
    );
}

#[test]
fn store_can_be_cleared() {
    let mut store = BodyStore::new();
    store.append(Body::at_rest(Vec2::zero(), ONE, RED).unwrap());
    store.clear();
    assert!(store.is_empty());
    store.resolve_collisions();
    assert_eq!(store.len(), 0);
}
