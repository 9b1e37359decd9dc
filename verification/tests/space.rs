use std::collections::HashMap;

use floptle_editor::space::{
    body_writes, carried_by, dominant, dominant_at, link_parents, rails_run, shifts, sphere_rule,
    BodyWrite, CelestialNode, CoastWalk, Crossing, Entry, Flight, FlightStep, Rails, Settled,
    Sphere, SphereRule, ENDLESS, MAX_HOPS,
};

fn body(key: u64, name: &str, parent: &str, heavy: bool) -> CelestialNode {
    CelestialNode { key, name: name.to_string(), parent: parent.to_string(), heavy }
}

/// A star, a planet and its moon.
fn system() -> Vec<CelestialNode> {
    vec![
        body(10, "Sun", "", true),
        body(11, "Terra", "Sun", true),
        body(12, "Luna", "Terra", true),
        body(13, "Pebble", "Nowhere", false),
    ]
}

#[test]
fn bodies_go_round_the_body_that_they_name() {
    assert_eq!(link_parents(&system()), vec![None, Some(0), Some(1), None]);
    assert_eq!(sphere_rule(true, Some(1)), SphereRule::Own);
    assert_eq!(sphere_rule(false, Some(1)), SphereRule::FromOrbit { round: 1 });
    assert_eq!(sphere_rule(false, None), SphereRule::Endless);
}

#[test]
fn the_smallest_sphere_counts() {
    let s = |inside: bool, radius: u64| Sphere { inside, radius };
    assert_eq!(dominant(&vec![s(true, ENDLESS), s(true, 50), s(false, 5)]), Some(1));
    assert_eq!(dominant(&vec![s(true, ENDLESS), s(true, 50), s(true, 5)]), Some(2));
    assert_eq!(dominant(&vec![s(true, ENDLESS)]), Some(0));
    assert_eq!(dominant(&vec![s(false, 1)]), None);
    assert_eq!(dominant_at(&vec![s(true, ENDLESS), s(true, 50)], 0), 1);
    assert_eq!(dominant_at(&vec![s(true, ENDLESS), s(false, 50)], 0), 0);
}

#[test]
fn a_change_of_frame_is_told_once() {
    let nodes = system();
    let mut rails = Rails::new();
    assert!(matches!(rails.enter(&nodes, 1, 0, false), Entry::Stay));
    match rails.enter(&nodes, 1, 1, false) {
        Entry::Seam { from, to, line } => {
            assert_eq!((from, to), (0, 1));
            assert_eq!(line.text, "entered Terra's sphere of influence");
        }
        Entry::Stay => panic!("the frame changed"),
    }
    assert!(matches!(rails.enter(&nodes, 1, 1, false), Entry::Stay));
    assert!(matches!(rails.enter_compound(&nodes, 1, 2), Entry::Seam { from: 1, to: 2, .. }));
}

#[test]
fn a_ship_that_coasts_changes_its_frame_at_the_crossing() {
    let nodes = system();
    let mut rails = Rails::new();
    let free = Flight { grounded: false, clear: true, moving: true };
    assert_eq!(
        rails.fly(&nodes, 1, 1, true, free),
        FlightStep::Coast { frame: 1, capture: true }
    );
    assert_eq!(
        rails.fly(&nodes, 1, 2, true, free),
        FlightStep::Coast { frame: 1, capture: false }
    );
    assert!(matches!(rails.enter(&nodes, 1, 2, true), Entry::Stay));
    assert_eq!(rails.fly(&nodes, 1, 1, true, Flight { grounded: true, ..free }), FlightStep::Carry);
    assert!(rails.coasts.is_empty());
    assert_eq!(rails.fly(&nodes, 2, 3, true, free), FlightStep::Carry);
    assert!(matches!(rails.fly(&nodes, 1, 1, true, free), FlightStep::Coast { .. }));
    rails.begin_tick(true);
    assert_eq!(rails.coasts.len(), 1);
    rails.begin_tick(false);
    assert!(rails.coasts.is_empty());
}

#[test]
fn a_walk_crosses_a_few_times_and_ends() {
    let nodes = system();
    let parents = link_parents(&nodes);
    let mut walk = CoastWalk::start(1);
    assert!(!walk.looks_for_crossing(1));
    assert!(walk.looks_for_crossing(2));
    match walk.cross(&nodes, &parents, 2) {
        Crossing::Handoff { to, line } => {
            assert_eq!((to, line.text.as_str()), (2, "entered Luna's sphere of influence"));
        }
        Crossing::Keep => panic!("it crossed"),
    }
    match walk.cross(&nodes, &parents, 1) {
        Crossing::Handoff { to, line } => {
            assert_eq!((to, line.text.as_str()), (1, "left Luna's sphere of influence"));
        }
        Crossing::Keep => panic!("it crossed back"),
    }
    assert!(matches!(walk.cross(&nodes, &parents, 3), Crossing::Keep));
    while walk.looks_for_crossing(2) {}
    assert_eq!(walk.hops, MAX_HOPS);
}

#[test]
fn a_coast_ends_near_a_surface() {
    let nodes = system();
    let mut rails = Rails::new();
    assert!(matches!(rails.settle(&nodes, 1, 1, false, false, true, false), Settled::Place));
    assert_eq!(rails.coasts.get(&1), Some(&11));
    match rails.settle(&nodes, 1, 1, false, true, true, false) {
        Settled::Dropped { line } => assert_eq!(
            line.text,
            "time-warp dropped to 1× — streaming Terra's terrain in (re-warp in a moment)"
        ),
        Settled::Place => panic!("its terrain is not there yet"),
    }
    assert!(rails.coasts.is_empty());
    match rails.settle(&nodes, 1, 1, false, false, false, true) {
        Settled::Dropped { line } => {
            assert_eq!(line.text, "time-warp dropped to 1× — surface proximity")
        }
        Settled::Place => panic!("it is too low"),
    }
    assert_eq!(rails.frames.get(&1), Some(&11));
}

#[test]
fn what_stands_on_a_body_is_carried() {
    let mut parents: HashMap<u64, u64> = HashMap::new();
    parents.insert(3, 2);
    parents.insert(2, 11);
    let keys = vec![10, 11];
    assert_eq!(carried_by(&parents, &keys, 3), Some(1));
    assert_eq!(carried_by(&parents, &keys, 5), None);
    // A ring of parents ends too.
    parents.insert(7, 8);
    parents.insert(8, 7);
    assert_eq!(carried_by(&parents, &keys, 7), None);
}

#[test]
fn a_coast_keeps_the_number_of_a_body_that_is_gone() {
    let nodes = system();
    let mut rails = Rails::new();
    let _ = rails.coasts.insert(7, 99);
    let free = Flight { grounded: false, clear: true, moving: true };
    assert_eq!(rails.fly(&nodes, 7, 1, true, free), FlightStep::Coast { frame: 1, capture: false });
    assert!(matches!(rails.settle(&nodes, 7, 1, false, false, false, false), Settled::Place));
    assert_eq!((rails.coasts.get(&7), rails.frames.get(&7)), (Some(&99), Some(&99)));
    assert!(matches!(rails.settle(&nodes, 7, 2, true, false, false, false), Settled::Place));
    assert_eq!((rails.coasts.get(&7), rails.frames.get(&7)), (Some(&12), Some(&12)));
}

#[test]
fn a_tick_writes_what_goes_round() {
    assert!(rails_run(true, 1));
    assert!(!rails_run(false, 1) && !rails_run(true, 0));
    let write = |node: bool, anchor: bool| BodyWrite { node, anchor };
    assert_eq!(
        body_writes(1, &vec![true, true, false], true),
        vec![write(true, true), write(false, true), write(true, false)]
    );
    assert_eq!(body_writes(0, &vec![true, true], false), vec![write(false, false), write(true, false)]);
}

#[test]
fn only_what_stands_on_a_moved_body_is_shifted() {
    let mut parents: HashMap<u64, u64> = HashMap::new();
    parents.insert(3, 11);
    parents.insert(4, 10);
    parents.insert(5, 3);
    let keys = vec![10, 11];
    assert_eq!(shifts(&parents, &keys, &vec![false, true], &vec![5, 4, 6, 3]), vec![(5, 1), (3, 1)]);
    assert_eq!(shifts(&parents, &keys, &vec![true, false], &vec![5, 4, 6, 3]), vec![(4, 0)]);
}
