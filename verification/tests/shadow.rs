use floptle_editor::shadow::{
    list_replays, replay_dir, scene_has_rollback, Horizon, InputLog, NetDoc, NodeDoc, SceneDoc,
    ShadowAction, ShadowEvent, ShadowSim,
};

const SERVER: u64 = 0;

/// A match of two peers and thirty ticks.
fn recorded_match(peers: Vec<u64>) -> InputLog {
    let mut log = InputLog::new(0xD1CE_5EED, 2, peers.clone());
    for t in 1..=30u64 {
        log.record(peers[0], t);
        log.record(peers[1], t);
    }
    log
}

/// The input of a peer for a tick, as a number.
fn input_of(peer: u64, tick: u64) -> u64 {
    (peer + 1) * 1000 + tick % 7
}

/// A simulation that folds every input that it is handed into one number.
struct Sim {
    shadow: ShadowSim,
    held: Vec<(u64, u64)>,
    state: u64,
}

impl Sim {
    fn build(log: InputLog, local: u64) -> Sim {
        Sim { shadow: ShadowSim::build(log, local), held: Vec::new(), state: 17 }
    }

    fn advance(&mut self, rule: Horizon, max_ticks: u64) -> u64 {
        let mut action = self.shadow.advance(ShadowEvent::Start { rule, max_ticks });
        loop {
            match action {
                ShadowAction::Run { tick, feed } => {
                    for i in feed {
                        let e = self.shadow.log.entries[i];
                        self.held.push((e.peer, e.tick));
                    }
                    let mut now: Vec<(u64, u64)> =
                        self.held.iter().copied().filter(|(_, t)| *t == tick).collect();
                    now.sort();
                    for (peer, t) in now {
                        self.state = self
                            .state
                            .wrapping_mul(6364136223846793005)
                            .wrapping_add(input_of(peer, t));
                    }
                    action = self.shadow.advance(ShadowEvent::Advanced);
                }
                ShadowAction::Done { ticks } => return ticks,
            }
        }
    }

    fn tick(&self) -> u64 {
        self.shadow.tick()
    }
}

fn copy(log: &InputLog) -> InputLog {
    let mut out = InputLog::new(log.seed, log.input_delay, log.peers.clone());
    for e in &log.entries {
        out.record(e.peer, e.tick);
    }
    out
}

#[test]
fn a_recorded_match_replays_to_the_same_state() {
    let log = recorded_match(vec![SERVER, 1]);
    let mut a = Sim::build(copy(&log), SERVER);
    a.advance(Horizon::WholeLog, 10_000);
    let mut b = Sim::build(copy(&log), SERVER);
    b.advance(Horizon::WholeLog, 10_000);
    assert_eq!(a.tick(), 30, "the replay must reach the end of the log");
    assert_eq!(a.tick(), b.tick());
    assert_eq!(a.state, b.state, "a replay is the match, run again");
}

#[test]
fn which_peer_a_shadow_stands_in_for_does_not_change_the_match() {
    let log = recorded_match(vec![SERVER, 1]);
    let mut host = Sim::build(copy(&log), SERVER);
    let mut joiner = Sim::build(log, 1);
    host.advance(Horizon::WholeLog, 10_000);
    joiner.advance(Horizon::WholeLog, 10_000);
    assert_eq!(host.state, joiner.state);
}

#[test]
fn the_referee_stops_at_the_confirmed_frontier_and_never_guesses() {
    let mut log = recorded_match(vec![SERVER, 1]);
    log.entries.retain(|e| !(e.tick == 12 && e.peer == 1));

    let mut r = Sim::build(copy(&log), SERVER);
    r.advance(Horizon::Confirmed, 10_000);
    assert_eq!(r.tick(), 11, "tick 12 is not confirmed, so the referee has not run it");

    let mut p = Sim::build(log, SERVER);
    p.advance(Horizon::WholeLog, 10_000);
    assert!(p.tick() > 11, "a replay is not bound by the confirmed frontier");
}

#[test]
fn the_referee_catches_up_when_the_late_input_arrives() {
    let full = recorded_match(vec![SERVER, 1]);
    let mut partial = copy(&full);
    let late = partial
        .entries
        .iter()
        .position(|e| e.tick == 12 && e.peer == 1)
        .map(|i| partial.entries.remove(i))
        .expect("the input to withhold");

    let mut r = Sim::build(partial, SERVER);
    r.advance(Horizon::Confirmed, 10_000);
    assert_eq!(r.tick(), 11);
    r.shadow.log.record(late.peer, late.tick);
    r.advance(Horizon::Confirmed, 10_000);
    assert_eq!(r.tick(), 30, "with the gap filled it runs to the end");

    let mut straight = Sim::build(full, SERVER);
    straight.advance(Horizon::Confirmed, 10_000);
    assert_eq!(r.state, straight.state, "waiting for an input must cost time, never correctness");
}

#[test]
fn catching_up_is_capped_per_call() {
    let log = recorded_match(vec![SERVER, 1]);
    let mut r = Sim::build(log, SERVER);
    assert_eq!(r.advance(Horizon::Confirmed, 4), 4);
    assert_eq!(r.tick(), 4);
    r.advance(Horizon::Confirmed, 10_000);
    assert_eq!(r.tick(), 30);
}

#[test]
fn no_input_is_handed_over_twice() {
    let mut s = Sim::build(recorded_match(vec![SERVER, 1]), SERVER);
    s.advance(Horizon::WholeLog, 10);
    s.advance(Horizon::WholeLog, 10_000);
    let n = s.held.len();
    assert_eq!(n, 60);
    s.held.sort();
    s.held.dedup();
    assert_eq!(s.held.len(), n);
}

#[test]
fn a_tick_that_cannot_be_run_ends_the_run() {
    let mut s = ShadowSim::build(recorded_match(vec![SERVER, 1]), SERVER);
    let first = s.advance(ShadowEvent::Start { rule: Horizon::WholeLog, max_ticks: 5 });
    assert!(matches!(first, ShadowAction::Run { tick: 1, .. }));
    assert_eq!(s.advance(ShadowEvent::Stalled), ShadowAction::Done { ticks: 0 });
    assert_eq!(s.tick(), 0);
}

#[test]
fn replays_are_listed_the_last_name_first() {
    assert_eq!(replay_dir("/p"), "/p/replays");
    let files: Vec<String> = (0..14)
        .map(|i| format!("/p/replays/m{i:02}.floptlereplay"))
        .chain(["/p/replays/notes.txt".to_string()])
        .collect();
    let shown = list_replays(&files);
    assert_eq!(shown.len(), 12);
    assert_eq!(shown[0], ("m13".to_string(), "/p/replays/m13.floptlereplay".to_string()));
    assert_eq!(shown[11].0, "m02");
    assert!(list_replays(&Vec::new()).is_empty());
}

#[test]
fn a_scene_rolls_back_when_one_node_does() {
    let plain = NodeDoc { net: None };
    let predicted = NodeDoc { net: Some(NetDoc { rollback: false }) };
    let rolled = NodeDoc { net: Some(NetDoc { rollback: true }) };
    assert!(!scene_has_rollback(&SceneDoc { nodes: vec![plain, predicted] }));
    assert!(scene_has_rollback(&SceneDoc { nodes: vec![plain, rolled] }));
}

#[test]
fn two_shadows_of_one_log_ask_for_the_same() {
    let log = || {
        let mut l = InputLog::new(0, 2, vec![1, 2]);
        for tick in 1..6u64 {
            l.record(1, tick);
            l.record(2, tick);
        }
        l
    };
    let mut a = ShadowSim::build(log(), 1);
    let mut b = ShadowSim::build(log(), 2);
    let start = || ShadowEvent::Start { rule: Horizon::Confirmed, max_ticks: 3 };
    assert_eq!(a.advance(start()), b.advance(start()));
    for _ in 0..4 {
        assert_eq!(a.advance(ShadowEvent::Advanced), b.advance(ShadowEvent::Advanced));
    }
    assert_eq!(a.tick(), b.tick());
}

#[test]
fn a_simulation_is_made_from_the_log_and_the_seat() {
    let log = recorded_match(vec![SERVER, 1]);
    let (host, joiner) = (ShadowSim::build(copy(&log), SERVER), ShadowSim::build(log, 1));
    let (a, b) = (host.driver_start(), joiner.driver_start());
    assert_eq!((a.local, b.local), (SERVER, 1));
    assert_eq!((a.seed, a.input_delay, a.peers), (0xD1CE_5EED, 2, vec![SERVER, 1]));
    assert_eq!((b.seed, b.input_delay, b.peers), (0xD1CE_5EED, 2, vec![SERVER, 1]));
}
