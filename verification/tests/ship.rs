use floptle_editor::ship::{
    bundle_name, carries_on, carrying_on_text, checking_text, connected_game, note_name, note_of,
    poll_ship, project_stamp, resuming_text, sent_text, shipped_json, shipped_text, start_ship,
    uploading_text, CloudSettings, Pending, Progress, ProgressLine, ProjectFile, Reporter,
    ShipFailure, ShipStart, Shipment, SHIPPED,
};
use floptle_editor::system_gen::{LogLevel, LogLine};

fn file(path: &str, changed: u64, size: u64) -> ProjectFile {
    ProjectFile { path: path.to_string(), changed, size }
}

#[test]
fn the_stamp_moves_with_the_project_and_not_with_the_editors_own_folder() {
    let mut files = vec![file("scripts/a.lua", 100, 5)];
    let before = project_stamp(&files);

    files.push(file(".floptle/library/floptle.lua", 200, 14));
    assert_eq!(project_stamp(&files), before, "the editor's own folder moved the stamp");

    files[0] = file("scripts/a.lua", 100, 6);
    assert_ne!(project_stamp(&files), before, "an edit to a script did not move the stamp");
    let edited = project_stamp(&files);
    files.push(file("scripts/b.lua", 100, 0));
    assert_ne!(project_stamp(&files), edited, "a new file did not move the stamp");
}

#[test]
fn a_stamp_is_how_many_how_new_and_how_large() {
    let files = vec![file("a", 3, 10), file("b/c", 9, 1), file(".floptle", 99, 99), file("d", 5, 0)];
    assert_eq!(project_stamp(&files), (3, 9, 11));
    assert_eq!(project_stamp(&vec![]), (0, 0, 0));
    assert_eq!(project_stamp(&vec![file(".floptle2/x", 4, 4)]), (1, 4, 4));
}

fn shipment(stamp: (u64, u64, u64), fresh: bool) -> Shipment {
    Shipment {
        project: "/p".to_string(),
        scene: None,
        label: Some("beta".to_string()),
        project_stamp: stamp,
        fresh,
    }
}

#[test]
fn a_second_run_uploads_the_same_bundle_until_the_project_changes() {
    let first = shipment((2, 9, 11), false);
    let note = note_of(&first, "abc", 500, &Some("0.85.0".to_string()), "0.86.0");
    assert_eq!((note.sha256.as_str(), note.engine.as_str()), ("abc", "0.85.0"));
    let left = Some(note);
    assert!(carries_on(&left, &shipment((2, 9, 11), false), Some(500)));

    // After an edit, a new bundle: the old one is stale.
    assert!(!carries_on(&left, &shipment((2, 9, 12), false), Some(500)));
    // And where one is asked for, or the bundle is not what it was.
    assert!(!carries_on(&left, &shipment((2, 9, 11), true), Some(500)));
    assert!(!carries_on(&left, &shipment((2, 9, 11), false), Some(499)));
    assert!(!carries_on(&left, &shipment((2, 9, 11), false), None));
    assert!(!carries_on(&None, &shipment((2, 9, 11), false), Some(500)));
    let mut other = shipment((2, 9, 11), false);
    other.scene = Some("arena".to_string());
    assert!(!carries_on(&left, &other, Some(500)));
}

#[test]
fn a_note_without_an_engine_names_this_one() {
    let note = note_of(&shipment((0, 0, 0), false), "", 0, &None, "0.86.0");
    assert_eq!(note.engine, "0.86.0");
    assert_eq!(bundle_name("shiptest"), "shiptest-server.tar.gz");
    assert_eq!(note_name(), "ship.json");
}

#[test]
fn a_game_has_a_name() {
    let cloud = |game: &str, connected: bool| {
        Some(CloudSettings { game: game.to_string(), connected })
    };
    assert_eq!(connected_game(&cloud("shiptest", true)), Some("shiptest".to_string()));
    assert_eq!(connected_game(&cloud("  ", true)), None);
    assert_eq!(connected_game(&cloud("shiptest", false)), None);
    assert_eq!(connected_game(&None), None);
}

#[test]
fn every_way_to_fail_has_its_code_and_its_words() {
    let s = |t: &str| t.to_string();
    let f = ShipFailure::NotAProject { path: s("/x") };
    assert_eq!((f.exit_code(), f.message()), (2, s("/x is not a project directory")));
    assert_eq!(f.json(), "{\"error\":\"/x is not a project directory\",\"ok\":false}");
    assert_eq!(ShipFailure::NotConnected.exit_code(), 3);
    assert!(ShipFailure::NotConnected.message().contains("not connected to a game"));
    assert_eq!(ShipFailure::NobodySignedIn.exit_code(), 3);
    assert!(ShipFailure::NobodySignedIn.message().starts_with("nobody is signed in"));
    let f = ShipFailure::NoPlace { dir: s("/c"), why: s("full") };
    assert_eq!((f.exit_code(), f.message()), (1, s("make /c: full")));
    let f = ShipFailure::Export { why: s("a \"bad\" scene") };
    assert_eq!(f.exit_code(), 1);
    assert_eq!(f.json(), "{\"error\":\"a \\\"bad\\\" scene\",\"ok\":false}");
    let f = ShipFailure::Upload { why: s("the connection dropped") };
    assert_eq!(f.exit_code(), 1);
    assert_eq!(
        f.message(),
        "the connection dropped\n  the bundle is kept, so running the same command again carries on"
    );
    assert_eq!(SHIPPED, 0);
}

#[test]
fn a_shipped_build_is_told_of() {
    let p = Pending {
        project: "/p".to_string(),
        scene: None,
        label: None,
        project_stamp: (0, 0, 0),
        sha256: "abc".to_string(),
        size: 42,
        engine: "0.85.0".to_string(),
    };
    assert_eq!(
        shipped_json("b_1", "g", &p),
        "{\"build\":\"b_1\",\"bytes\":42,\"engine\":\"0.85.0\",\"game\":\"g\",\"ok\":true,\"sha256\":\"abc\"}"
    );
    assert_eq!(
        shipped_text("b_1", "g", "4.2", "0.85.0"),
        "shipped build b_1 to g (4.2 MB, engine 0.85.0). Deploy it from https://fopull.com/cloud/games/g"
    );
    assert!(carrying_on_text().contains("carrying on with that bundle"));
}

#[test]
fn one_line_per_tenth() {
    let mut r = Reporter::new(false);
    let sent = |sent: u64| Progress::Sent { sent, total: 100 };
    assert!(matches!(r.tell(&sent(0)), Some(ProgressLine::Sent { sent: 0, total: 100 })));
    assert!(r.tell(&sent(9)).is_none());
    assert!(r.tell(&sent(10)).is_some());
    assert!(r.tell(&sent(19)).is_none());
    assert!(r.tell(&sent(100)).is_some());
    assert!(matches!(r.tell(&Progress::Completing), Some(ProgressLine::CheckingDigest)));
    assert!(matches!(
        r.tell(&Progress::Reserved { build_id: "b".to_string(), already: 0 }),
        Some(ProgressLine::Uploading { .. })
    ));
    assert!(matches!(
        r.tell(&Progress::Reserved { build_id: "b".to_string(), already: 7 }),
        Some(ProgressLine::Resuming { already: 7, .. })
    ));
    let mut quiet = Reporter::new(true);
    assert!(quiet.tell(&sent(50)).is_none());
    // A bundle of nothing has no tenths.
    let mut r = Reporter::new(false);
    assert!(r.tell(&Progress::Sent { sent: 3, total: 0 }).is_some());
    assert_eq!(r.last_tenth, 30);
}

#[test]
fn the_lines_of_an_upload() {
    assert_eq!(resuming_text("b", "1.5"), "build b: 1.5 MB already on fopull.com, sending the rest");
    assert_eq!(uploading_text("b", "1.5"), "build b: uploading 1.5 MB");
    assert_eq!(sent_text("0.5", "1.5"), "  0.5 / 1.5 MB");
    assert_eq!(checking_text(), "checking the digest…");
}

#[test]
fn one_build_is_shipped_at_a_time() {
    assert!(start_ship(true, &ShipStart::Started).is_none());
    let (line, running) = start_ship(false, &ShipStart::Started).unwrap();
    assert_eq!((line.level, running), (LogLevel::Debug, true));
    let (line, running) = start_ship(false, &ShipStart::NoProgram("gone".to_string())).unwrap();
    assert_eq!((line.level, running), (LogLevel::Error, false));
    assert_eq!(line.text, "⬆ ship: cannot find this program: gone");
    let (line, running) = start_ship(false, &ShipStart::NotStarted("no".to_string())).unwrap();
    assert_eq!((line.text.as_str(), running), ("⬆ ship: could not start: no", false));
}

#[test]
fn a_job_says_its_lines_before_its_end() {
    let l = |bad: bool, t: &str| (bad, t.to_string());
    let told = |lines: &Vec<LogLine>| {
        lines.iter().map(|l| (l.level, l.text.clone())).collect::<Vec<_>>()
    };
    let lines = vec![l(false, "a"), l(true, "b")];
    let rest = vec![l(false, "c")];
    let p = poll_ship(&lines, &Ok(None), &rest);
    assert!(!p.over);
    assert_eq!(
        told(&p.lines),
        vec![(LogLevel::Debug, "⬆ a".to_string()), (LogLevel::Error, "⬆ b".to_string())]
    );
    let p = poll_ship(&vec![], &Ok(Some(false)), &rest);
    assert!(p.over);
    assert_eq!(p.lines.len(), 2);
    assert_eq!(p.lines[1].level, LogLevel::Warn);
    let p = poll_ship(&vec![], &Ok(Some(true)), &rest);
    assert_eq!(told(&p.lines), vec![(LogLevel::Debug, "⬆ c".to_string())]);
    let p = poll_ship(&vec![], &Err("broken".to_string()), &rest);
    assert_eq!(told(&p.lines), vec![(LogLevel::Error, "⬆ ship: broken".to_string())]);
}
