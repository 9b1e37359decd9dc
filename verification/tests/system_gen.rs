use floptle_editor::system_gen::{
    poll_system_gen, scene_name, start_system_gen, LogLevel, StartSystem, SysGenMsg, SystemGenCfg,
};

#[test]
fn a_scene_name_keeps_what_a_file_may_hold() {
    assert_eq!(scene_name("My System!/2"), "MySystem2");
    assert_eq!(scene_name("a-b_c"), "a-b_c");
    assert_eq!(scene_name("../"), "system");
    assert_eq!(scene_name("été"), "t");
}

#[test]
fn a_request_is_made_once() {
    let cfg = SystemGenCfg {
        seed_text: " 42 ".to_string(),
        planets: 3,
        scene: "home world".to_string(),
    };
    match start_system_gen(&cfg, false, 7) {
        StartSystem::Start { request, line } => {
            assert_eq!((request.seed, request.planets), (42, Some(3)));
            assert_eq!(request.scene, "homeworld");
            assert_eq!(line, "🪐 generating solar system \"homeworld\" (seed 42) …");
        }
        StartSystem::Busy { .. } => panic!("nothing is running"),
    }
    match start_system_gen(&cfg, true, 7) {
        StartSystem::Busy { warning } => {
            assert_eq!(warning, "🪐 a solar system is already generating")
        }
        StartSystem::Start { .. } => panic!("one is running"),
    }
}

#[test]
fn a_blank_request_is_rolled() {
    let cfg = SystemGenCfg::default();
    match start_system_gen(&cfg, false, 7) {
        StartSystem::Start { request, .. } => {
            assert_eq!((request.seed, request.planets), (7, None));
        }
        StartSystem::Busy { .. } => panic!("nothing is running"),
    }
    for odd in ["", "x", "-1", "4294967296"] {
        let cfg = SystemGenCfg { seed_text: odd.to_string(), ..SystemGenCfg::default() };
        match start_system_gen(&cfg, false, 9) {
            StartSystem::Start { request, .. } => assert_eq!(request.seed, 9, "{odd:?}"),
            StartSystem::Busy { .. } => panic!("nothing is running"),
        }
    }
}

#[test]
fn the_generator_says_how_it_goes() {
    let p = |t: &str| SysGenMsg::Progress(t.to_string());
    let poll = poll_system_gen(&vec![p("planet 1"), p("planet 2")]);
    assert!(!poll.over && poll.open.is_none());
    assert_eq!(poll.lines[1].text, "🪐 planet 2");
    let poll = poll_system_gen(&vec![p("x"), SysGenMsg::Done(Ok("scenes/a.ron".to_string()))]);
    assert!(poll.over);
    assert_eq!(poll.open, Some("scenes/a.ron".to_string()));
    assert_eq!(poll.lines[1].text, "🪐 solar system ready — opening the scene");
    let poll = poll_system_gen(&vec![SysGenMsg::Done(Err("no room".to_string()))]);
    assert!(poll.over && poll.open.is_none());
    assert_eq!(poll.lines[0].level, LogLevel::Error);
    assert_eq!(poll.lines[0].text, "🪐 system generation failed: no room");
    assert!(poll_system_gen(&vec![]).lines.is_empty());
}
