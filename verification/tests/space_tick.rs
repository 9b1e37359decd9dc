use floptle_editor::space::{CelestialNode, Entry, Flight, Rails, Sphere, ENDLESS};
use floptle_editor::space_tick::{BodyAction, BodyEvent, BodyPhase, BodyTick};

fn node(key: u64, name: &str, parent: &str, heavy: bool) -> CelestialNode {
    CelestialNode { key, name: name.to_string(), parent: parent.to_string(), heavy }
}

/// A star, a planet and its moon.
fn bodies() -> (Vec<CelestialNode>, Vec<Option<usize>>) {
    (
        vec![node(10, "Sol", "", true), node(20, "Tern", "Sol", true), node(30, "Moss", "Tern", true)],
        vec![None, Some(0), Some(1)],
    )
}

fn spheres(inside: [bool; 3]) -> Vec<Sphere> {
    let radius = [ENDLESS, 500, 50];
    (0..3).map(|i| Sphere { inside: inside[i], radius: radius[i] }).collect()
}

const ALOFT: Flight = Flight { grounded: false, clear: true, moving: true };
const LANDED: Flight = Flight { grounded: true, clear: false, moving: false };

/// A tick that has come to how the body flies.
fn flying(rails: &mut Rails, warping: bool) -> BodyTick {
    let (nodes, parents) = bodies();
    let mut t = BodyTick::start(7, warping);
    let seen = BodyEvent::Seen(spheres([true, true, false]));
    assert!(matches!(t.step(rails, &nodes, &parents, seen), BodyAction::Look { .. }));
    assert_eq!(t.dom, 1);
    t
}

#[test]
fn a_body_outside_of_every_sphere_is_left_alone() {
    let (nodes, parents) = bodies();
    let mut rails = Rails::new();
    let mut t = BodyTick::start(7, true);
    let seen = BodyEvent::Seen(spheres([false, false, false]));
    assert!(matches!(t.step(&mut rails, &nodes, &parents, seen), BodyAction::Leave));
    assert_eq!(t.phase, BodyPhase::Over);
    let again = BodyEvent::Flies(ALOFT);
    assert!(matches!(t.step(&mut rails, &nodes, &parents, again), BodyAction::Nothing));
}

#[test]
fn what_has_landed_is_carried() {
    let (nodes, parents) = bodies();
    let mut rails = Rails::new();
    let mut t = flying(&mut rails, true);
    assert!(matches!(
        t.step(&mut rails, &nodes, &parents, BodyEvent::Flies(LANDED)),
        BodyAction::Carry { dom: 1 }
    ));
    let mut t = flying(&mut rails, false);
    assert!(matches!(
        t.step(&mut rails, &nodes, &parents, BodyEvent::Flies(ALOFT)),
        BodyAction::Carry { dom: 1 }
    ));
}

#[test]
fn a_ship_coasts_from_sphere_to_sphere() {
    let (nodes, parents) = bodies();
    let mut rails = Rails::new();
    let mut t = flying(&mut rails, true);
    assert!(matches!(
        t.step(&mut rails, &nodes, &parents, BodyEvent::Flies(ALOFT)),
        BodyAction::Follow { frame: 1, capture: true }
    ));
    assert!(matches!(
        t.step(&mut rails, &nodes, &parents, BodyEvent::EndsIn(2)),
        BodyAction::FindCrossing { frame: 1 }
    ));
    match t.step(&mut rails, &nodes, &parents, BodyEvent::CrossesInto(2)) {
        BodyAction::Handoff { to, line } => {
            assert_eq!(to, 2);
            assert_eq!(line.text, "entered Moss's sphere of influence");
        }
        _ => panic!("it is handed off"),
    }
    assert!(matches!(
        t.step(&mut rails, &nodes, &parents, BodyEvent::EndsIn(2)),
        BodyAction::Measure { frame: 2 }
    ));
    let ends = BodyEvent::Ends { cold: false, closing: true, low: false };
    assert!(matches!(
        t.step(&mut rails, &nodes, &parents, ends),
        BodyAction::Place { frame: 2 }
    ));
    assert_eq!(rails.coasts.get(&7), Some(&30));

    // At the next tick it goes on with the conic it has, with no seam of its own.
    let mut t = BodyTick::start(7, true);
    let seen = BodyEvent::Seen(spheres([true, true, true]));
    assert!(matches!(
        t.step(&mut rails, &nodes, &parents, seen),
        BodyAction::Look { entry: Entry::Stay }
    ));
    assert!(matches!(
        t.step(&mut rails, &nodes, &parents, BodyEvent::Flies(ALOFT)),
        BodyAction::Follow { frame: 2, capture: false }
    ));
}

#[test]
fn a_ship_that_comes_low_drops_out_of_the_warp() {
    let (nodes, parents) = bodies();
    let mut rails = Rails::new();
    let mut t = flying(&mut rails, true);
    t.step(&mut rails, &nodes, &parents, BodyEvent::Flies(ALOFT));
    t.step(&mut rails, &nodes, &parents, BodyEvent::EndsIn(1));
    let ends = BodyEvent::Ends { cold: false, closing: false, low: true };
    match t.step(&mut rails, &nodes, &parents, ends) {
        BodyAction::Drop { line } => {
            assert_eq!(line.text, "time-warp dropped to 1× — surface proximity");
        }
        _ => panic!("it is dropped"),
    }
    assert!(rails.coasts.is_empty());
}

#[test]
fn one_tick_looks_for_so_many_crossings() {
    let (nodes, parents) = bodies();
    let mut rails = Rails::new();
    let mut t = flying(&mut rails, true);
    t.step(&mut rails, &nodes, &parents, BodyEvent::Flies(ALOFT));
    let mut handoffs = 0;
    loop {
        let to = if t.walk.frame == 1 { 2 } else { 1 };
        match t.step(&mut rails, &nodes, &parents, BodyEvent::EndsIn(to)) {
            BodyAction::FindCrossing { .. } => {}
            BodyAction::Measure { .. } => break,
            _ => panic!("it walks"),
        }
        t.step(&mut rails, &nodes, &parents, BodyEvent::CrossesInto(to));
        handoffs += 1;
    }
    assert_eq!(handoffs, 4);
}

#[test]
fn a_coast_round_a_body_that_is_gone_keeps_its_number() {
    let (nodes, parents) = bodies();
    let mut rails = Rails::new();
    let _ = rails.coasts.insert(7, 99);
    let mut t = flying(&mut rails, true);
    assert!(matches!(
        t.step(&mut rails, &nodes, &parents, BodyEvent::Flies(ALOFT)),
        BodyAction::Follow { frame: 1, capture: false }
    ));
    assert!(matches!(
        t.step(&mut rails, &nodes, &parents, BodyEvent::EndsIn(1)),
        BodyAction::Measure { frame: 1 }
    ));
    let end = BodyEvent::Ends { cold: false, closing: false, low: false };
    assert!(matches!(
        t.step(&mut rails, &nodes, &parents, end),
        BodyAction::Place { frame: 1 }
    ));
    assert_eq!((rails.coasts.get(&7), rails.frames.get(&7)), (Some(&99), Some(&99)));
}
