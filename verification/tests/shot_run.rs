use floptle_editor::shot::{CameraNode, ShotFailure, ROW_ALIGNMENT};
use floptle_editor::shot_run::{
    frame_plan, no_timer_text, shot_json, streaming_text, waits_for_world, FramePlan, ShotAction,
    ShotArgs, ShotEvent, ShotPhase, ShotRun, Upscale,
};

fn args() -> ShotArgs {
    ShotArgs {
        root: "/p".to_string(),
        scene: None,
        scenes: "/p/scenes".to_string(),
        camera: None,
        width: 2,
        height: 2,
        out: "shot.png".to_string(),
        parent: None,
        json: false,
        timing: false,
        after: false,
    }
}

fn camera(entity: u64, name: &str, active: bool) -> CameraNode {
    CameraNode { entity, name: Some(name.to_string()), active }
}

fn start(a: ShotArgs) -> ShotRun {
    match ShotRun::start(a, true) {
        Ok(run) => run,
        Err(_) => panic!("it is a project"),
    }
}

/// A run that has come to the drawing of its frame.
fn drawing(a: ShotArgs) -> ShotRun {
    let mut r = start(a);
    r.step(ShotEvent::Opened { timer: true });
    let cameras = vec![camera(1, "a", false), camera(2, "b", true)];
    assert!(matches!(r.step(ShotEvent::Cameras(cameras)), ShotAction::Settle { camera: 1 }));
    assert!(matches!(
        r.step(ShotEvent::Settled { whole: true }),
        ShotAction::Draw { warn: false }
    ));
    r
}

#[test]
fn a_directory_without_a_project_is_refused() {
    match ShotRun::start(args(), false) {
        Err(ShotFailure::NotAProject { root }) => assert_eq!(root, "/p"),
        _ => panic!("there is no project"),
    }
}

#[test]
fn a_shot_goes_from_the_project_to_the_file() {
    let mut r = drawing(args());
    assert_eq!(r.camera_name.as_deref(), Some("b"));
    let pixels: Vec<u8> = (0..16).collect();
    assert!(matches!(r.step(ShotEvent::Drawn(Some(pixels.clone()))), ShotAction::Save));
    assert_eq!(r.pixels, pixels);
    assert!(matches!(r.step(ShotEvent::Saved(Ok(()))), ShotAction::Written));
    assert_eq!(r.phase, ShotPhase::Over);
    assert!(matches!(r.step(ShotEvent::Saved(Ok(()))), ShotAction::Nothing));
}

#[test]
fn pixels_that_are_no_picture_are_not_written() {
    let mut r = drawing(args());
    assert!(matches!(
        r.step(ShotEvent::Drawn(Some(vec![0; 15]))),
        ShotAction::Failed(ShotFailure::WrongSize)
    ));
    let mut r = drawing(args());
    assert!(matches!(
        r.step(ShotEvent::Drawn(None)),
        ShotAction::Failed(ShotFailure::NoDevice)
    ));
}

#[test]
fn the_directory_of_the_picture_is_made_first() {
    let mut r = drawing(ShotArgs { parent: Some("out".to_string()), ..args() });
    assert!(matches!(r.step(ShotEvent::Drawn(Some(vec![9; 16]))), ShotAction::MakeParent));
    assert!(matches!(r.step(ShotEvent::Placed(Ok(()))), ShotAction::Save));
    assert_eq!(r.pixels, vec![9; 16]);
    match r.step(ShotEvent::Saved(Err("full".to_string()))) {
        ShotAction::Failed(ShotFailure::NotWritten { path, why }) => {
            assert_eq!((path.as_str(), why.as_str()), ("shot.png", "full"));
        }
        _ => panic!("it was not written"),
    }
    let mut r = drawing(ShotArgs { parent: Some("out".to_string()), ..args() });
    r.step(ShotEvent::Drawn(Some(vec![9; 16])));
    match r.step(ShotEvent::Placed(Err("no".to_string()))) {
        ShotAction::Failed(ShotFailure::NoDirectory { path, why }) => {
            assert_eq!((path.as_str(), why.as_str()), ("out", "no"));
        }
        _ => panic!("there is no directory"),
    }
}

#[test]
fn a_named_scene_has_to_be_there() {
    let a = ShotArgs { scene: Some("cave".to_string()), timing: true, ..args() };
    let mut r = start(a);
    assert!(matches!(
        r.step(ShotEvent::Opened { timer: false }),
        ShotAction::Resolve { warn: true }
    ));
    assert!(!r.timed);
    match r.step(ShotEvent::Resolved { found: false }) {
        ShotAction::Failed(ShotFailure::NoScene { name, scenes }) => {
            assert_eq!((name.as_str(), scenes.as_str()), ("cave", "/p/scenes"));
        }
        _ => panic!("there is no such scene"),
    }
}

#[test]
fn a_scene_is_played_before_its_camera_is_looked_for() {
    let mut r = start(ShotArgs { after: true, ..args() });
    assert!(matches!(r.step(ShotEvent::Opened { timer: true }), ShotAction::Play { warn: false }));
    match r.step(ShotEvent::Played(Some("1.50".to_string()))) {
        ShotAction::LookForCamera { warn, say } => {
            assert!(!warn);
            assert_eq!(say.as_deref(), Some("played 1.50s before drawing"));
        }
        _ => panic!("the camera is looked for"),
    }
    let mut r = start(ShotArgs { after: true, ..args() });
    r.step(ShotEvent::Opened { timer: true });
    assert!(matches!(
        r.step(ShotEvent::Played(None)),
        ShotAction::Failed(ShotFailure::NotPlaying)
    ));
}

#[test]
fn a_camera_that_was_named_has_to_be_there() {
    let mut r = start(ShotArgs { camera: Some("c".to_string()), ..args() });
    r.step(ShotEvent::Opened { timer: true });
    match r.step(ShotEvent::Cameras(vec![camera(1, "a", true)])) {
        ShotAction::Failed(ShotFailure::NoCamera { called }) => {
            assert_eq!(called.as_deref(), Some("c"));
        }
        _ => panic!("there is no such camera"),
    }
    let mut r = start(args());
    r.step(ShotEvent::Opened { timer: true });
    assert!(matches!(
        r.step(ShotEvent::Cameras(vec![])),
        ShotAction::Failed(ShotFailure::NoCamera { called: None })
    ));
}

#[test]
fn what_is_written_is_told_to_a_program() {
    assert_eq!(
        shot_json("a \"b\".png", 640, 480, &None),
        "{\"camera\":null,\"height\":480,\"ok\":true,\"path\":\"a \\\"b\\\".png\",\"timing\":null,\"width\":640}"
    );
    assert_eq!(
        shot_json("a.png", 1, 2, &Some("Main".to_string())),
        "{\"camera\":\"Main\",\"height\":2,\"ok\":true,\"path\":\"a.png\",\"timing\":null,\"width\":1}"
    );
}

#[test]
fn a_small_picture_is_enlarged() {
    assert_eq!(
        frame_plan(640, 480, None, true),
        FramePlan { width: 640, height: 480, upscale: Upscale::Not }
    );
    assert_eq!(
        frame_plan(640, 480, Some((320, 240)), true),
        FramePlan { width: 320, height: 240, upscale: Upscale::Whole }
    );
    assert_eq!(frame_plan(640, 480, Some((320, 240)), false).upscale, Upscale::Fill);
}

#[test]
fn the_world_is_waited_for_in_time() {
    assert!(waits_for_world(true, true));
    assert!(!waits_for_world(true, false));
    assert!(!waits_for_world(false, true));
    assert!(no_timer_text().contains("--timing"));
    assert!(streaming_text().contains("45s"));
}

#[test]
fn rows_are_aligned_as_the_device_wants_them() {
    assert_eq!(ROW_ALIGNMENT as u64, wgpu::COPY_BYTES_PER_ROW_ALIGNMENT as u64);
}

#[test]
fn a_picture_has_a_pixel_at_least() {
    let r = start(ShotArgs { width: 0, height: 0, ..args() });
    assert_eq!((r.args.width, r.args.height), (1, 1));
}
