use floptle_editor::ship::{
    cache_dir, note_of, Pending, Progress, ProgressLine, ShipFailure, Shipment, SHIPPED,
};
use floptle_editor::ship_run::{
    exit_code, sign_in, Phase, ShipAction, ShipEvent, ShipRun, SignIn, SIGN_IN_NAP, SIGN_IN_WAIT,
};
use floptle_editor::text::hex_of;

fn shipment(fresh: bool) -> Shipment {
    Shipment {
        project: "/p".to_string(),
        scene: None,
        label: Some("beta".to_string()),
        project_stamp: (2, 9, 11),
        fresh,
    }
}

fn run(fresh: bool, json: bool) -> ShipRun {
    ShipRun::start(shipment(fresh), "/tmp/there", json, None, "0.86.0")
}

fn note() -> Pending {
    note_of(&shipment(false), "abc", 500, &None, "0.86.0")
}

/// A run that has come to the upload of a new bundle.
fn uploading(json: bool) -> ShipRun {
    let mut r = run(false, json);
    assert!(matches!(
        r.step(ShipEvent::Found { previous: None, there: None }),
        ShipAction::MakePlace
    ));
    assert!(matches!(r.step(ShipEvent::Placed(Ok(()))), ShipAction::Export));
    match r.step(ShipEvent::Exported(Ok("exported".to_string()))) {
        ShipAction::Measure { say } => assert_eq!(say.is_none(), json),
        _ => panic!("it is measured"),
    }
    let measured = ShipEvent::Measured { size: Some(500), sha256: Ok("abc".to_string()) };
    match r.step(measured) {
        ShipAction::Upload { new, say } => assert!(new && say.is_none()),
        _ => panic!("it goes up"),
    }
    r
}

#[test]
fn a_session_is_waited_for_and_not_forever() {
    assert_eq!((SIGN_IN_WAIT, SIGN_IN_NAP), (10_000, 20));
    assert_eq!(sign_in(true, 0, false), SignIn::Wait);
    assert_eq!(sign_in(true, 9_999, true), SignIn::Wait);
    assert_eq!(sign_in(true, 10_000, false), SignIn::Nobody);
    assert_eq!(sign_in(false, 0, true), SignIn::Go);
    assert_eq!(sign_in(false, 0, false), SignIn::Nobody);
}

#[test]
fn a_first_run_exports_and_uploads() {
    let mut r = uploading(false);
    {
        let pending = r.pending.as_ref().expect("there is a bundle");
        assert_eq!(
            (pending.sha256.as_str(), pending.size, pending.engine.as_str()),
            ("abc", 500, "0.86.0")
        );
    }
    let told = Progress::Reserved { build_id: "b1".to_string(), already: 0 };
    assert!(matches!(
        r.step(ShipEvent::Told(told)),
        ShipAction::Say(ProgressLine::Uploading { .. })
    ));
    let end = r.step(ShipEvent::Uploaded(Ok("b1".to_string())));
    assert!(matches!(&end, ShipAction::Shipped { build } if build == "b1"));
    assert_eq!(exit_code(&end), Some(SHIPPED));
    assert_eq!(r.phase, Phase::Over);
    assert!(matches!(r.step(ShipEvent::Placed(Ok(()))), ShipAction::Nothing));
}

#[test]
fn a_killed_upload_carries_on_with_the_same_bundle() {
    let mut r = run(false, false);
    match r.step(ShipEvent::Found { previous: Some(note()), there: Some(500) }) {
        ShipAction::Upload { new, say } => {
            assert!(!new);
            assert_eq!(
                say.as_deref(),
                Some("the project has not changed since the last try: carrying on with that bundle")
            );
        }
        _ => panic!("it carries on"),
    }
    assert_eq!(r.pending.expect("the bundle of the first run").sha256, "abc");

    let mut asked = run(true, false);
    let found = ShipEvent::Found { previous: Some(note()), there: Some(500) };
    assert!(matches!(asked.step(found), ShipAction::MakePlace));
}

#[test]
fn every_failure_ends_a_run_with_its_reason() {
    let mut r = run(false, false);
    r.step(ShipEvent::Found { previous: None, there: None });
    let end = r.step(ShipEvent::Placed(Err("full".to_string())));
    assert!(matches!(
        &end,
        ShipAction::Failed(ShipFailure::NoPlace { dir, why })
            if dir == "/tmp/there" && why == "full"
    ));
    assert_ne!(exit_code(&end), Some(SHIPPED));
    assert!(exit_code(&end).is_some());

    let mut r = run(false, false);
    r.step(ShipEvent::Found { previous: None, there: None });
    r.step(ShipEvent::Placed(Ok(())));
    let end = r.step(ShipEvent::Exported(Err("no scene".to_string())));
    assert!(matches!(end, ShipAction::Failed(ShipFailure::Export { .. })));

    let mut r = uploading(false);
    let end = r.step(ShipEvent::Uploaded(Err("offline".to_string())));
    assert!(matches!(&end, ShipAction::Failed(ShipFailure::Upload { why }) if why == "offline"));
}

#[test]
fn nothing_is_said_on_the_way_where_a_program_reads_along() {
    let mut r = uploading(true);
    let told = Progress::Sent { sent: 100, total: 500 };
    assert!(matches!(r.step(ShipEvent::Told(told)), ShipAction::Nothing));
    assert!(exit_code(&ShipAction::Nothing).is_none());
}

#[test]
fn a_bundle_waits_where_its_game_and_project_say() {
    assert_eq!(cache_dir("/tmp", "g1", 0xab), "/tmp/floptle-ship/g1-00000000000000ab");
    assert_eq!(
        cache_dir("/tmp", "g1", u64::MAX),
        "/tmp/floptle-ship/g1-ffffffffffffffff"
    );
    assert_ne!(cache_dir("/tmp", "g1", 1), cache_dir("/tmp", "g1", 2));
    let n: u64 = 0x0123_4567_89ab_cdef;
    let digits: String = hex_of(n, 16).into_iter().collect();
    assert_eq!(digits, format!("{:016x}", n));
}
