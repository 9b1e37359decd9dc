use floptle_editor::shot::{
    default_out, find_camera, max_side, padded_row, parse_after, parse_size, readback,
    span_to_play, written_text, CameraNode, PlayNext, PlayRun, ShotFailure,
};

/// The seconds that one step of play takes.
const DT: f32 = 1.0 / 60.0;

/// The seconds that the value of `--after` asks for.
fn seconds(s: &str) -> Result<f32, String> {
    let span = parse_after(s)?;
    let n: f32 = span.number.parse().expect("what is taken for a number is one");
    let span = span_to_play(s, span, n.is_finite() && n > 0.0)?;
    Ok(if span.frames { n * DT } else { n })
}

#[test]
fn a_size_is_wide_by_high_or_a_single_square() {
    assert_eq!(parse_size("960x540"), Ok((960, 540)));
    assert_eq!(parse_size("960X540"), Ok((960, 540)));
    assert_eq!(parse_size(" 512 "), Ok((512, 512)));
    assert!(parse_size("960*540").is_err());
    assert!(parse_size("wide").is_err());
    assert!(parse_size("0x540").is_err());
    assert!(parse_size("0").is_err());
    assert!(parse_size("960by540").unwrap_err().contains("960x540"));
}

#[test]
fn a_frame_bigger_than_the_device_is_refused_by_name() {
    let max = max_side();
    assert!(parse_size(&format!("{max}x{max}")).is_ok(), "the limit itself is renderable");
    let over = format!("{}x{}", max + 1, max + 1);
    let err = parse_size(&over).unwrap_err();
    assert!(err.contains(&max.to_string()), "the refusal did not say what the limit is: {err}");
    assert!(parse_size(&format!("{}x64", max + 1)).is_err());
    assert!(parse_size(&format!("64x{}", max + 1)).is_err());
}

#[test]
fn a_shot_is_named_after_the_scene_it_shows() {
    assert_eq!(default_out("/p", Some("scenes/arena.ron")), "/p/arena.png");
    assert_eq!(default_out("/p", Some("arena")), "/p/arena.png");
    assert_eq!(default_out("/p", None), "/p/scene.png");
}

#[test]
fn a_span_to_play_is_seconds_or_frames_and_never_a_quiet_zero() {
    assert_eq!(seconds("30"), Ok(30.0), "a bare number is seconds");
    assert_eq!(seconds("30s"), Ok(30.0));
    assert_eq!(seconds("1.5S"), Ok(1.5));
    assert_eq!(seconds(" 30s "), Ok(30.0));
    // Frames, at the rate that play is stepped by.
    assert_eq!(seconds("60f"), Ok(1.0), "60 frames is a second");
    assert!((seconds("900F").unwrap() - 15.0).abs() < 1e-3);

    for bad in ["nan", "inf", "-inf", "-5", "0", "0s", "soon", "", "30ms"] {
        assert!(seconds(bad).is_err(), "--after {bad:?} must be refused, not guessed");
    }
    assert!(
        seconds("soon").unwrap_err().contains("30s"),
        "and the refusal has to show what a span looks like"
    );
}

#[test]
fn every_number_that_is_read_is_one() {
    for s in ["1", "1.", ".5", "+1.5", "1e3", "1E-3", "infinity", "NaN", "-0", "007"] {
        assert!(parse_after(s).is_ok(), "{s:?} is a number");
        assert!(s.parse::<f32>().is_ok());
    }
    for s in [".", "e5", "1e", "1e+", "+", "--1", "1_000", "0x10", "1,5", "1 2"] {
        assert!(parse_after(s).is_err(), "{s:?} is no number");
        assert!(s.parse::<f32>().is_err());
    }
    // `inf` ends in an `f`: it is `in` frames.
    assert!(parse_after("inf").is_err());
}

#[test]
fn refusals_quote_what_was_given() {
    assert_eq!(
        parse_size("a\tb").unwrap_err(),
        "--size wants WxH (say 960x540), not \"a\\tb\""
    );
    assert_eq!(
        parse_after("so\"on").unwrap_err(),
        "--after wants a span like 30s, 1.5s or 900f — not \"so\\\"on\""
    );
    assert_eq!(
        seconds("0s").unwrap_err(),
        "--after \"0s\" is not a length of time to play for; ask for something above zero"
    );
    assert_eq!(max_side(), 8192);
}

#[test]
fn every_failure_says_what_it_is() {
    let s = |t: &str| t.to_string();
    let cases = [
        (ShotFailure::NotAProject { root: s("/p") }, "/p is not a project directory (no project.ron)", 2),
        (
            ShotFailure::NoScene { name: s("x"), scenes: s("/p/scenes") },
            "no scene called x under /p/scenes",
            1,
        ),
        (
            ShotFailure::NotPlaying,
            "the project did not enter play mode, so there is nothing to photograph",
            1,
        ),
        (ShotFailure::NoCamera { called: Some(s("Cam")) }, "this scene has no camera called Cam", 1),
        (ShotFailure::NoDevice, "no GPU: this machine has no adapter floptle can render on", 1),
        (
            ShotFailure::NoDirectory { path: s("/o"), why: s("no") },
            "could not create /o: no",
            1,
        ),
        (ShotFailure::WrongSize, "the render came back the wrong size", 1),
        (
            ShotFailure::NotWritten { path: s("/o/a.png"), why: s("full") },
            "could not write /o/a.png: full",
            1,
        ),
    ];
    for (f, text, code) in cases {
        assert_eq!(f.message(), text);
        assert_eq!(f.exit_code(), code);
    }
    assert!(ShotFailure::NoCamera { called: None }.message().contains("--scene"));
    assert_eq!(written_text("/o/a.png", 960, 540), "wrote /o/a.png (960x540)");
}

#[test]
fn a_camera_is_found_by_name_or_because_it_is_on() {
    let cam = |name: Option<&str>, active: bool| CameraNode {
        entity: 1,
        name: name.map(|n| n.to_string()),
        active,
    };
    let scene = vec![cam(Some("A"), false), cam(None, true), cam(Some("B"), true), cam(Some("B"), false)];
    assert_eq!(find_camera(&scene, None), Some(1));
    assert_eq!(find_camera(&scene, Some("B")), Some(2));
    assert_eq!(find_camera(&scene, Some("C")), None);
    assert_eq!(find_camera(&vec![cam(None, false), cam(None, false)], None), Some(0));
    assert_eq!(find_camera(&vec![], None), None);
}

#[test]
fn play_is_stepped_and_then_photographed() {
    let mut run = PlayRun::start(2);
    assert_eq!(run.next(true), PlayNext::Step);
    assert_eq!(run.next(true), PlayNext::Step);
    assert_eq!(run.next(true), PlayNext::Done);
    assert_eq!(run.made, 2);
    let mut run = PlayRun::start(0);
    assert_eq!(run.steps, 1);
    assert_eq!(run.next(false), PlayNext::Done);
}

#[test]
fn the_padding_of_the_device_is_left_out() {
    assert_eq!((padded_row(1), padded_row(64), padded_row(65), padded_row(0)), (256, 256, 512, 0));
    let mut view = vec![0u8; 512];
    view[..8].copy_from_slice(&[1, 2, 3, 4, 5, 6, 7, 8]);
    view[256..264].copy_from_slice(&[9, 10, 11, 12, 13, 14, 15, 16]);
    assert_eq!(
        readback(&view, 2, 2, false),
        vec![1, 2, 3, 4, 5, 6, 7, 8, 9, 10, 11, 12, 13, 14, 15, 16]
    );
    assert_eq!(
        readback(&view, 2, 2, true),
        vec![3, 2, 1, 4, 7, 6, 5, 8, 11, 10, 9, 12, 15, 14, 13, 16]
    );
}
