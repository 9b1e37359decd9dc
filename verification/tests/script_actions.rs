use floptle_editor::script_actions::{
    action_lines, action_queues, prune_terrains, ready_line, script_editor_buttons, ActionQueue,
    ArrivalStep, GenerateStep, PlanetJobs,
};
use floptle_editor::system_gen::{LogLevel, LogLine};

#[test]
fn a_source_declares_its_buttons() {
    let src = "--@editorButton Generate roll\nx = 1\n  --@editorButton Roll_Again\r\n--@editorButton\n-- @editorButton no no\n";
    let buttons = script_editor_buttons(src);
    let got: Vec<(&str, &str)> = buttons.iter().map(|(a, b)| (a.as_str(), b.as_str())).collect();
    assert_eq!(got, vec![("Generate", "roll"), ("Roll Again", "Roll_Again")]);
    assert!(script_editor_buttons("").is_empty());
}

#[test]
fn one_batch_of_planets_at_a_time() {
    let mut jobs = PlanetJobs::new();
    assert!(matches!(jobs.drain_terrain_generates(&vec![]), GenerateStep::Nothing));
    match jobs.drain_terrain_generates(&vec![4, 5]) {
        GenerateStep::Start { line } => {
            assert_eq!(line.text, "⛰ generating 2 terrain field(s) in the background…")
        }
        _ => panic!("nothing was running"),
    }
    match jobs.drain_terrain_generates(&vec![6]) {
        GenerateStep::Dropped { line } => assert_eq!(line.level, LogLevel::Warn),
        _ => panic!("a batch was running"),
    }
    assert!(jobs.pending.contains(&4) && jobs.pending.contains(&5) && !jobs.pending.contains(&6));

    match jobs.arrived(4, &vec![(30, 9), (31, 4)], false) {
        ArrivalStep::Adopt { entity, rebuild } => {
            assert_eq!(entity, 31);
            assert!(rebuild.is_none());
        }
        ArrivalStep::NoNode { .. } => panic!("a node carries it"),
    }
    assert!(!jobs.pending.contains(&4));
    match jobs.arrived(5, &vec![(31, 4)], true) {
        ArrivalStep::NoNode { line } => assert_eq!(
            line.text,
            "⛰ generated field for terrain id 5, but no node carries it"
        ),
        ArrivalStep::Adopt { .. } => panic!("no node carries it"),
    }
    match jobs.arrived(4, &vec![(31, 4)], true) {
        ArrivalStep::Adopt { rebuild, .. } => assert_eq!(
            rebuild.unwrap().text,
            "⛰ terrain id 4 generated during Play — collision live"
        ),
        ArrivalStep::NoNode { .. } => panic!("a node carries it"),
    }
    jobs.batch_over();
    assert!(!jobs.running && jobs.pending.is_empty());
    assert!(matches!(jobs.drain_terrain_generates(&vec![6]), GenerateStep::Start { .. }));
    assert_eq!(ready_line(4, 12, "1.5").text, "⛰ terrain id 4 ready — 12 chunks in 1.5s");
}

#[test]
fn the_terrain_of_a_node_goes_with_it() {
    let mut terrains = vec![1, 2, 3];
    assert!(!prune_terrains(&mut terrains, &vec![3, 2, 1]));
    assert!(prune_terrains(&mut terrains, &vec![1, 3]));
    assert_eq!(terrains, vec![1, 3]);
}

#[test]
fn what_an_action_edits_is_applied_and_the_rest_is_dropped() {
    let queues = action_queues();
    assert_eq!(queues.len(), 13);
    let applied: Vec<ActionQueue> =
        queues.iter().filter(|(_, keep)| *keep).map(|(q, _)| *q).collect();
    assert_eq!(
        applied,
        vec![
            ActionQueue::Spawns,
            ActionQueue::TerrainOps,
            ActionQueue::TerrainFields,
            ActionQueue::Models,
        ]
    );
}

#[test]
fn an_action_says_what_it_logged_and_what_failed() {
    let logged = || vec![LogLine { level: LogLevel::Debug, text: "hi".to_string() }];
    let errors = vec!["boom".to_string()];
    let texts = |ran: bool| -> Vec<String> {
        action_lines(ran, logged(), &errors).into_iter().map(|l| l.text).collect()
    };
    assert_eq!(texts(true), vec!["hi"]);
    assert_eq!(texts(false), vec!["hi", "boom"]);
    assert_eq!(action_lines(false, vec![], &errors)[0].level, LogLevel::Error);
}
