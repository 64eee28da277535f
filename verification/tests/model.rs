use std::collections::VecDeque;
use verlet_balls::body::{Body, Color};
use verlet_balls::boundary::Boundary;
use verlet_balls::emitter::Launch;
use verlet_balls::model::{EmitterPlan, Model, ModelError};
use verlet_balls::sampling::Image;
use verlet_balls::scalar::ONE;
use verlet_balls::scheduler::World;
use verlet_balls::store::BodyStore;
use verlet_balls::vector::Vec2;

const WHITE: Color = Color { r: 255, g: 255, b: 255 };

fn world() -> World {
    World { gravity: Vec2::new(0, -9800 * ONE), boundary: Boundary::Disk { radius: 480 * ONE } }
}

fn launch() -> Launch {
    Launch::new(472 * ONE, 8 * ONE, 4 * ONE, 10 * ONE).unwrap()
}

fn plan(count: usize) -> EmitterPlan {
    EmitterPlan { count, period: 1, min_omega: 14505705, max_omega: 21758558 }
}

fn supply(n: u8) -> VecDeque<Color> {
    (0..n).map(|k| Color { r: k, g: 2 * k, b: 3 * k }).collect()
}

fn model(emitters: usize, colors: u8) -> Model {
    Model::new(world(), launch(), plan(emitters), supply(colors), [5; 16]).unwrap()
}

fn compass() -> Vec<Vec2> {
    vec![Vec2::new(ONE, 0), Vec2::new(0, ONE), Vec2::new(-ONE, 0), Vec2::new(0, -ONE)]
}

#[test]
fn model_starts_without_bodies() {
    let m = model(4, 9);
    assert!(m.balls().is_empty());
    assert_eq!(m.colors_left(), 9);
    assert_eq!(m.angles().len(), 4);
}

#[test]
fn model_rejects_a_bad_plan() {
    for bad in [
        EmitterPlan { period: 0, ..plan(4) },
        EmitterPlan { min_omega: 5, max_omega: 5, ..plan(4) },
        EmitterPlan { min_omega: 6, max_omega: 5, ..plan(4) },
    ] {
        assert_eq!(
            Model::new(world(), launch(), bad, supply(1), [5; 16]).err(),
            Some(ModelError::BadPlan)
        );
    }
}

#[test]
fn same_seed_gives_the_same_emitters() {
    assert_eq!(model(4, 1).angles(), model(4, 1).angles());
    let other = Model::new(world(), launch(), plan(4), supply(1), [0; 16]).unwrap();
    assert_ne!(model(4, 1).angles(), other.angles());
}

#[test]
fn emitters_turn_while_colours_are_left() {
    let mut m = model(4, 1);
    let before = m.angles();
    m.turn();
    let after = m.angles();
    for k in 0..4 {
        let turned = after[k].wrapping_sub(before[k]);
        assert!(14505705 <= turned && turned < 21758558);
    }
    m.turn();
    let later = m.angles();
    for k in 0..4 {
        assert_eq!(later[k].wrapping_sub(after[k]), after[k].wrapping_sub(before[k]));
    }
}

#[test]
fn emitters_rest_when_the_colours_are_gone() {
    let mut m = model(4, 0);
    let before = m.angles();
    m.turn();
    assert_eq!(m.angles(), before);
    assert_eq!(m.spawn(&compass()), Ok(0));
    assert!(m.balls().is_empty());
}

#[test]
fn each_emitter_launches_a_body() {
    let mut m = model(4, 9);
    assert_eq!(m.spawn(&compass()), Ok(4));
    assert_eq!(m.colors_left(), 5);
    assert_eq!(m.balls().len(), 4);
    let seen = m.balls().iterate();
    let places = [
        Vec2::new(472 * ONE, 0),
        Vec2::new(0, 472 * ONE),
        Vec2::new(-472 * ONE, 0),
        Vec2::new(0, -472 * ONE),
    ];
    for k in 0..4 {
        assert_eq!(seen[k].0, places[k]);
        assert!(4 * ONE <= seen[k].1 && seen[k].1 < 10 * ONE);
        assert_eq!(seen[k].2, Color { r: k as u8, g: 2 * k as u8, b: 3 * k as u8 });
    }
    assert_eq!(m.balls().get(2).previous(), Vec2::new(-480 * ONE, 0));
    assert_eq!(m.spawn(&compass()), Ok(4));
    assert_eq!(m.balls().len(), 8);
    assert_eq!(m.balls().get(4).color(), Color { r: 4, g: 8, b: 12 });
}

#[test]
fn launching_stops_when_the_colours_run_out() {
    let mut m = model(4, 3);
    assert_eq!(m.spawn(&compass()), Ok(3));
    assert_eq!(m.colors_left(), 0);
    assert_eq!(m.balls().len(), 3);
    assert_eq!(m.balls().get(2).position(), Vec2::new(-472 * ONE, 0));
    assert_eq!(m.spawn(&compass()), Ok(0));
    assert_eq!(m.balls().len(), 3);
}

#[test]
fn spawn_needs_one_direction_for_each_emitter() {
    let mut m = model(4, 3);
    assert_eq!(m.spawn(&vec![Vec2::new(ONE, 0)]), Err(ModelError::DirectionCount));
    assert_eq!(m.spawn(&Vec::new()), Err(ModelError::DirectionCount));
    assert_eq!(m.colors_left(), 3);
    assert!(m.balls().is_empty());
    let mut none = model(0, 3);
    assert_eq!(none.spawn(&Vec::new()), Ok(0));
    assert_eq!(none.spawn(&compass()), Err(ModelError::DirectionCount));
}

#[test]
fn step_advances_the_bodies() {
    let mut m = model(0, 0);
    let mut store = BodyStore::new();
    for k in 0..5 {
        let b = Body::at_rest(Vec2::new(k * 6 * ONE, (k % 2) * 3 * ONE), 5 * ONE, WHITE).unwrap();
        m.add_body(b);
        store.append(b);
    }
    m.step(ONE / 1000, 4);
    store.advance(&world(), ONE / 1000, 4);
    assert_eq!(m.balls().iterate(), store.iterate());
    assert_ne!(m.balls().get(0).position(), Vec2::new(0, 0));
}

#[test]
fn frames_fill_the_disk_without_losing_bodies() {
    let mut m = model(4, 40);
    for _ in 0..20 {
        m.turn();
        m.spawn(&compass()).unwrap();
        m.step(ONE / 1000, 4);
    }
    assert_eq!(m.balls().len(), 40);
    assert_eq!(m.colors_left(), 0);
}

#[test]
fn reset_takes_the_colours_from_the_picture() {
    let teal = Color { r: 10, g: 200, b: 190 };
    let image = Image::new(1024, 1024, vec![teal; 1024 * 1024]).unwrap();
    let mut m = model(4, 9);
    m.spawn(&compass()).unwrap();
    m.spawn(&compass()).unwrap();
    m.step(ONE / 1000, 4);
    assert_eq!(m.reset(&image, plan(3), [0; 16]), Ok(()));
    assert!(m.balls().is_empty());
    assert_eq!(m.colors_left(), 8);
    assert_eq!(m.angles().len(), 3);
    let fresh = Model::new(world(), launch(), plan(3), supply(0), [0; 16]).unwrap();
    assert_eq!(m.angles(), fresh.angles());
    m.spawn(&compass()[..3].to_vec()).unwrap();
    assert_eq!(m.balls().get(0).color(), teal);
}

#[test]
fn reset_rejects_a_bad_plan() {
    let image = Image::new(1, 1, vec![WHITE]).unwrap();
    let mut m = model(4, 9);
    m.spawn(&compass()).unwrap();
    let angles = m.angles();
    let bad = EmitterPlan { period: 0, ..plan(4) };
    assert_eq!(m.reset(&image, bad, [0; 16]), Err(ModelError::BadPlan));
    assert_eq!(m.balls().len(), 4);
    assert_eq!(m.colors_left(), 5);
    assert_eq!(m.angles(), angles);
}

#[test]
fn restart_takes_the_colours_it_is_given() {
    let mut m = model(4, 9);
    m.spawn(&compass()).unwrap();
    assert_eq!(m.restart(plan(2), supply(3), [9; 16]), Ok(()));
    assert!(m.balls().is_empty());
    assert_eq!(m.colors_left(), 3);
    assert_eq!(m.angles().len(), 2);
    assert_eq!(m.spawn(&compass()[..2].to_vec()), Ok(2));
    assert_eq!(m.balls().get(1).color(), Color { r: 1, g: 2, b: 3 });
    let bad = EmitterPlan { min_omega: 9, max_omega: 9, ..plan(2) };
    assert_eq!(m.restart(bad, supply(7), [9; 16]), Err(ModelError::BadPlan));
    assert_eq!(m.balls().len(), 2);
    assert_eq!(m.colors_left(), 1);
}

#[test]
fn spawn_counts_a_request_for_every_emitter() {
    let mut m = model(4, 9);
    for k in 0..4 {
        assert_eq!(m.emitter(k).unwrap().count(), 0);
    }
    assert!(m.emitter(4).is_none());
    m.spawn(&compass()).unwrap();
    m.spawn(&compass()).unwrap();
    for k in 0..4 {
        assert_eq!(m.emitter(k).unwrap().count(), 2);
        assert_eq!(m.emitter(k).unwrap().theta(), m.angles()[k]);
    }
    // The colour that is left goes to the first emitter; all four are asked.
    assert_eq!(m.spawn(&compass()), Ok(1));
    for k in 0..4 {
        assert_eq!(m.emitter(k).unwrap().count(), 3);
    }
    // Without colours nobody is asked.
    assert_eq!(m.spawn(&compass()), Ok(0));
    assert_eq!(m.emitter(0).unwrap().count(), 3);
}

#[test]
fn angles_after_the_turn_are_known_beforehand() {
    let mut m = model(4, 9);
    let expected = m.angles_after_turn();
    assert_ne!(expected, m.angles());
    m.turn();
    assert_eq!(m.angles(), expected);
    let mut idle = model(4, 0);
    assert_eq!(idle.angles_after_turn(), idle.angles());
    idle.turn();
    assert_eq!(idle.angles_after_turn(), idle.angles());
}

#[test]
fn frame_is_turn_then_spawn_then_step() {
    let mut whole = model(4, 6);
    let mut parts = model(4, 6);
    for _ in 0..3 {
        let made = whole.frame(&compass(), ONE / 1000, 4).unwrap();
        parts.turn();
        assert_eq!(parts.spawn(&compass()), Ok(made));
        parts.step(ONE / 1000, 4);
        assert_eq!(whole.balls().iterate(), parts.balls().iterate());
        assert_eq!(whole.angles(), parts.angles());
        assert_eq!(whole.colors_left(), parts.colors_left());
        for k in 0..4 {
            assert_eq!(whole.emitter(k), parts.emitter(k));
        }
    }
    assert_eq!(whole.balls().len(), 6);
    assert_eq!(whole.emitter(0).unwrap().count(), 2);
}

#[test]
fn frame_needs_one_direction_for_each_emitter() {
    let mut m = model(4, 6);
    let angles = m.angles();
    assert_eq!(m.frame(&Vec::new(), ONE / 1000, 4), Err(ModelError::DirectionCount));
    assert_eq!(m.angles(), angles);
    assert_eq!(m.colors_left(), 6);
    assert!(m.balls().is_empty());
    assert_eq!(m.emitter(0).unwrap().count(), 0);
}
