//! The run of a shot, from the project to the file of the picture: what is done
//! next, whatever came of what was done before.

use crate::json::{
    flag_fields, json_object, json_object_form, number_fields, text_fields, text_or_none,
};
use crate::shot::{find_camera, is_called, looks_through, CameraNode, ShotFailure};
use crate::text::{copy_of, joined};
use vstd::prelude::*;

verus! {

// ---- what is asked for -----------------------------------------------------

/// What is asked for.
pub struct ShotArgs {
    pub root: String,
    /// The scene to open, or the one that the project boots into.
    pub scene: Option<String>,
    /// Where scenes are looked for.
    pub scenes: String,
    /// The camera to look through, by its name.
    pub camera: Option<String>,
    pub width: u32,
    pub height: u32,
    /// The file of the picture.
    pub out: String,
    /// The directory of that file, unless it is the one that this runs in.
    pub parent: Option<String>,
    /// Does a program read along?
    pub json: bool,
    /// Is the work of the device to be timed?
    pub timing: bool,
    /// Is the scene played first?
    pub after: bool,
}

/// How far a run is.
#[derive(Clone, Copy, Debug, PartialEq, Eq, Structural)]
pub enum ShotPhase {
    /// It opens the project.
    Opening,
    /// It looks for the scene.
    Resolving,
    /// It plays.
    Playing,
    /// It looks for the camera.
    Viewing,
    /// It waits for the world round the camera.
    Settling,
    Drawing,
    /// It makes the directory of the file.
    Placing,
    Saving,
    Over,
}

/// A run of a shot.
pub struct ShotRun {
    pub phase: ShotPhase,
    pub args: ShotArgs,
    /// Is the work of the device timed?
    pub timed: bool,
    /// The place of the camera among those of the scene, and its name.
    pub camera: Option<usize>,
    pub camera_name: Option<String>,
    /// The picture.
    pub pixels: Vec<u8>,
}

/// What came of what was done.
pub enum ShotEvent {
    /// The project was opened, on a device that can time its work or not.
    Opened { timer: bool },
    /// The scene was looked for, and opened where it was there.
    Resolved { found: bool },
    /// It was played: the seconds that went by, or nothing where it did not
    /// begin to.
    Played(Option<String>),
    /// These are the cameras.
    Cameras(Vec<CameraNode>),
    /// The world was waited for. Is it there?
    Settled { whole: bool },
    /// A frame was drawn, where there is a device.
    Drawn(Option<Vec<u8>>),
    Placed(Result<(), String>),
    Saved(Result<(), String>),
}

/// What is done next.
pub enum ShotAction {
    /// The event was not one of this phase.
    Nothing,
    /// Opens the scene, if it is there.
    Resolve { warn: bool },
    /// Plays. The seed, if there is one, is set first.
    Play { warn: bool },
    /// Looks for the cameras. What is said is how long it was played.
    LookForCamera { warn: bool, say: Option<String> },
    /// Waits for the world round the camera at this place.
    Settle { camera: usize },
    /// Draws a frame. The warning says that the world is not all there.
    Draw { warn: bool },
    /// Makes the directory of the file.
    MakeParent,
    /// Writes the picture.
    Save,
    /// Says that it is written, and ends well.
    Written,
    /// Says why, and ends.
    Failed(ShotFailure),
}

/// A picture of so many pixels has so many bytes.
pub open spec fn picture_len(w: u32, h: u32) -> int {
    4 * w * h
}

/// The bytes of a picture of `w` by `h`, as `image::RgbaImage::from_raw` takes
/// them over: it does where there are enough of them, four for each pixel, and
/// then they stay as they are (`into_raw`).
#[verifier::external_body]
fn picture_of(w: u32, h: u32, pixels: Vec<u8>) -> (out: Option<Vec<u8>>)
    ensures
        out is Some <==> pixels@.len() >= picture_len(w, h),
        out matches Some(p) ==> p@ == pixels@,
{
    image::RgbaImage::from_raw(w, h, pixels).map(|p| p.into_raw())
}

/// What is said of how long it was played.
pub open spec fn played_form(seconds: Seq<char>) -> Seq<char> {
    "played "@ + seconds + "s before drawing"@
}

/// What is said where the device cannot time its work.
pub fn no_timer_text() -> (out: &'static str)
    ensures
        out@
            == "this device has no GPU timestamp queries, so --timing has nothing to measure; the picture is still rendered"@,
{
    "this device has no GPU timestamp queries, so --timing has nothing to measure; the picture is still rendered"
}

/// What is said where the world was not all there in time.
pub fn streaming_text() -> (out: &'static str)
    ensures
        out@
            == "warning: the world was still streaming after 45s — some terrain in this shot is drawn as its impostor sphere rather than its surface"@,
{
    "warning: the world was still streaming after 45s — some terrain in this shot is drawn as its impostor sphere rather than its surface"
}

/// The runs `a` and `b` do the same.
pub open spec fn same_shot(a: ShotRun, b: ShotRun) -> bool {
    a.args == b.args
}

/// The name that a run looks for.
pub open spec fn wanted_camera(args: ShotArgs) -> Option<Seq<char>> {
    text_or_none(args.camera)
}

/// Is there no camera to look through?
pub open spec fn no_view(cameras: Seq<CameraNode>, named: Option<Seq<char>>) -> bool {
    match named {
        Some(n) => forall|j: int|
            0 <= j < cameras.len() ==> !is_called(#[trigger] cameras[j], n),
        None => cameras.len() == 0,
    }
}

/// What comes once the scene is open: it is played, or looked at as it is.
pub open spec fn is_next_of_scene(args: ShotArgs, warn: bool, phase: ShotPhase, action: ShotAction) -> bool {
    if args.after {
        phase == ShotPhase::Playing && action == (ShotAction::Play { warn })
    } else {
        phase == ShotPhase::Viewing && (action matches ShotAction::LookForCamera { warn: w, say }
            && w == warn && say is None)
    }
}

/// Is this the step that a run makes?
pub open spec fn is_shot_step(
    before: ShotRun,
    event: ShotEvent,
    after: ShotRun,
    action: ShotAction,
) -> bool {
    &&& same_shot(after, before)
    &&& match (before.phase, event) {
        (ShotPhase::Opening, ShotEvent::Opened { timer }) => {
            let warn = before.args.timing && !timer;
            &&& after.timed == (before.args.timing && timer)
            &&& after == (ShotRun { phase: after.phase, timed: after.timed, ..before })
            &&& if before.args.scene is Some {
                after.phase == ShotPhase::Resolving && action == (ShotAction::Resolve { warn })
            } else {
                is_next_of_scene(before.args, warn, after.phase, action)
            }
        },
        (ShotPhase::Resolving, ShotEvent::Resolved { found }) => {
            &&& after == (ShotRun { phase: after.phase, ..before })
            &&& if found {
                is_next_of_scene(before.args, false, after.phase, action)
            } else {
                after.phase == ShotPhase::Over && (action matches ShotAction::Failed(
                    ShotFailure::NoScene { name, scenes },
                ) && Some(name@) == text_or_none(before.args.scene) && scenes@
                    == before.args.scenes@)
            }
        },
        (ShotPhase::Playing, ShotEvent::Played(played)) => {
            &&& after == (ShotRun { phase: after.phase, ..before })
            &&& match played {
                Some(seconds) => after.phase == ShotPhase::Viewing && (
                action matches ShotAction::LookForCamera { warn, say } && !warn && text_or_none(say)
                    == if before.args.json {
                    None
                } else {
                    Some(played_form(seconds@))
                }),
                None => after.phase == ShotPhase::Over && action == ShotAction::Failed(
                    ShotFailure::NotPlaying,
                ),
            }
        },
        (ShotPhase::Viewing, ShotEvent::Cameras(cameras)) => {
            match after.camera {
                Some(i) => {
                    &&& looks_through(cameras@, wanted_camera(before.args), i as int)
                    &&& text_or_none(after.camera_name) == text_or_none(cameras@[i as int].name)
                    &&& after.phase == ShotPhase::Settling
                    &&& action == (ShotAction::Settle { camera: i })
                    &&& after == (ShotRun {
                        phase: after.phase,
                        camera: after.camera,
                        camera_name: after.camera_name,
                        ..before
                    })
                },
                None => {
                    &&& no_view(cameras@, wanted_camera(before.args))
                    &&& after.phase == ShotPhase::Over
                    &&& after == (ShotRun { phase: after.phase, camera: None, ..before })
                    &&& action matches ShotAction::Failed(ShotFailure::NoCamera { called })
                        && text_or_none(called) == wanted_camera(before.args)
                },
            }
        },
        (ShotPhase::Settling, ShotEvent::Settled { whole }) => {
            &&& after == (ShotRun { phase: ShotPhase::Drawing, ..before })
            &&& action == (ShotAction::Draw { warn: !whole })
        },
        (ShotPhase::Drawing, ShotEvent::Drawn(drawn)) => {
            match drawn {
                Some(pixels) => {
                    &&& after == (ShotRun { phase: after.phase, pixels: after.pixels, ..before })
                    &&& if before.args.parent is Some {
                        after.phase == ShotPhase::Placing && action is MakeParent && after.pixels
                            == pixels
                    } else {
                        is_checked(before.args, pixels@, after, action)
                    }
                },
                None => after == (ShotRun { phase: ShotPhase::Over, ..before }) && action
                    == ShotAction::Failed(ShotFailure::NoDevice),
            }
        },
        (ShotPhase::Placing, ShotEvent::Placed(outcome)) => {
            match outcome {
                Ok(_) => {
                    &&& after == (ShotRun { phase: after.phase, pixels: after.pixels, ..before })
                    &&& is_checked(before.args, before.pixels@, after, action)
                },
                Err(why) => after == (ShotRun { phase: ShotPhase::Over, ..before }) && (
                action matches ShotAction::Failed(ShotFailure::NoDirectory { path, why: w })
                    && Some(path@) == text_or_none(before.args.parent) && w == why),
            }
        },
        (ShotPhase::Saving, ShotEvent::Saved(outcome)) => {
            &&& after == (ShotRun { phase: ShotPhase::Over, ..before })
            &&& match outcome {
                Ok(_) => action is Written,
                Err(why) => action matches ShotAction::Failed(
                    ShotFailure::NotWritten { path, why: w },
                ) && path@ == before.args.out@ && w == why,
            }
        },
        _ => after == before && action is Nothing,
    }
}

/// What comes once the directory is there: the picture is written, where its
/// pixels are those of one of that size.
pub open spec fn is_checked(args: ShotArgs, pixels: Seq<u8>, after: ShotRun, action: ShotAction) -> bool {
    if pixels.len() >= picture_len(args.width, args.height) {
        after.phase == ShotPhase::Saving && after.pixels@ == pixels && action is Save
    } else {
        after.phase == ShotPhase::Over && action == ShotAction::Failed(ShotFailure::WrongSize)
    }
}

/// A directory is made for a picture that has one to lie in.
pub open spec fn run_wf(run: ShotRun) -> bool {
    &&& run.phase == ShotPhase::Resolving ==> run.args.scene is Some
    &&& run.phase == ShotPhase::Placing ==> run.args.parent is Some
}

/// A text that may be missing, again.
fn copy_opt(s: &Option<String>) -> (out: Option<String>)
    ensures
        text_or_none(out) == text_or_none(*s),
{
    match s {
        Some(t) => Some(copy_of(t.as_str())),
        None => None,
    }
}

/// A side of a picture: there is no picture without a pixel.
pub open spec fn side_of(n: u32) -> u32 {
    if n >= 1 {
        n
    } else {
        1
    }
}

/// A side of a picture.
fn side(n: u32) -> (out: u32)
    ensures
        out == side_of(n),
{
    if n >= 1 {
        n
    } else {
        1
    }
}

impl ShotRun {
    /// A run begins by opening the project, where there is one: `is_project` says
    /// whether its file is there.
    pub fn start(args: ShotArgs, is_project: bool) -> (out: Result<ShotRun, ShotFailure>)
        ensures
            match out {
                Ok(run) => is_project && run.phase == ShotPhase::Opening && run.args == (ShotArgs {
                    width: side_of(args.width),
                    height: side_of(args.height),
                    ..args
                }) && !run.timed && run.camera is None && run.camera_name is None && run.pixels@
                    == Seq::<u8>::empty() && run_wf(run),
                Err(f) => !is_project && (f matches ShotFailure::NotAProject { root } && root@
                    == args.root@),
            },
    {
        if !is_project {
            return Err(ShotFailure::NotAProject { root: copy_of(args.root.as_str()) });
        }
        let run: ShotRun = ShotRun {
            phase: ShotPhase::Opening,
            args: ShotArgs { width: side(args.width), height: side(args.height), ..args },
            timed: false,
            camera: None,
            camera_name: None,
            pixels: Vec::new(),
        };
        assert(run.pixels@ =~= Seq::<u8>::empty());
        Ok(run)
    }

    /// What comes once the scene is open.
    fn next_of_scene(&mut self, warn: bool) -> (out: ShotAction)
        ensures
            *final(self) == (ShotRun { phase: final(self).phase, ..*old(self) }),
            is_next_of_scene(old(self).args, warn, final(self).phase, out),
            run_wf(*final(self)),
    {
        if self.args.after {
            self.phase = ShotPhase::Playing;
            ShotAction::Play { warn }
        } else {
            self.phase = ShotPhase::Viewing;
            ShotAction::LookForCamera { warn, say: None }
        }
    }

    /// What comes once the directory is there.
    fn check_picture(&mut self, pixels: Vec<u8>) -> (out: ShotAction)
        ensures
            *final(self) == (ShotRun {
                phase: final(self).phase,
                pixels: final(self).pixels,
                ..*old(self)
            }),
            is_checked(old(self).args, pixels@, *final(self), out),
            run_wf(*final(self)),
    {
        match picture_of(self.args.width, self.args.height, pixels) {
            Some(p) => {
                self.pixels = p;
                self.phase = ShotPhase::Saving;
                ShotAction::Save
            },
            None => {
                self.phase = ShotPhase::Over;
                ShotAction::Failed(ShotFailure::WrongSize)
            },
        }
    }

    /// What is done next, now that this came of what was done before.
    pub fn step(&mut self, event: ShotEvent) -> (out: ShotAction)
        requires
            run_wf(*old(self)),
        ensures
            is_shot_step(*old(self), event, *final(self), out),
            run_wf(*final(self)),
    {
        match (self.phase, event) {
            (ShotPhase::Opening, ShotEvent::Opened { timer }) => {
                let warn: bool = self.args.timing && !timer;
                self.timed = self.args.timing && timer;
                if self.args.scene.is_some() {
                    self.phase = ShotPhase::Resolving;
                    ShotAction::Resolve { warn }
                } else {
                    self.next_of_scene(warn)
                }
            },
            (ShotPhase::Resolving, ShotEvent::Resolved { found }) => {
                if found {
                    return self.next_of_scene(false);
                }
                self.phase = ShotPhase::Over;
                let name: String = match &self.args.scene {
                    Some(s) => copy_of(s.as_str()),
                    None => copy_of(""),
                };
                let scenes: String = copy_of(self.args.scenes.as_str());
                ShotAction::Failed(ShotFailure::NoScene { name, scenes })
            },
            (ShotPhase::Playing, ShotEvent::Played(played)) => match played {
                Some(seconds) => {
                    self.phase = ShotPhase::Viewing;
                    let say: Option<String> = if self.args.json {
                        None
                    } else {
                        Some(
                            joined(
                                joined("played ", seconds.as_str()).as_str(),
                                "s before drawing",
                            ),
                        )
                    };
                    ShotAction::LookForCamera { warn: false, say }
                },
                None => {
                    self.phase = ShotPhase::Over;
                    ShotAction::Failed(ShotFailure::NotPlaying)
                },
            },
            (ShotPhase::Viewing, ShotEvent::Cameras(cameras)) => {
                let named: Option<&str> = match &self.args.camera {
                    Some(n) => Some(n.as_str()),
                    None => None,
                };
                match find_camera(&cameras, named) {
                    Some(i) => {
                        self.camera_name = copy_opt(&cameras[i].name);
                        self.camera = Some(i);
                        self.phase = ShotPhase::Settling;
                        ShotAction::Settle { camera: i }
                    },
                    None => {
                        let called: Option<String> = copy_opt(&self.args.camera);
                        self.camera = None;
                        self.phase = ShotPhase::Over;
                        ShotAction::Failed(ShotFailure::NoCamera { called })
                    },
                }
            },
            (ShotPhase::Settling, ShotEvent::Settled { whole }) => {
                self.phase = ShotPhase::Drawing;
                ShotAction::Draw { warn: !whole }
            },
            (ShotPhase::Drawing, ShotEvent::Drawn(drawn)) => match drawn {
                Some(pixels) => {
                    if self.args.parent.is_some() {
                        self.pixels = pixels;
                        self.phase = ShotPhase::Placing;
                        ShotAction::MakeParent
                    } else {
                        self.check_picture(pixels)
                    }
                },
                None => {
                    self.phase = ShotPhase::Over;
                    ShotAction::Failed(ShotFailure::NoDevice)
                },
            },
            (ShotPhase::Placing, ShotEvent::Placed(outcome)) => match outcome {
                Ok(_) => {
                    let mut pixels: Vec<u8> = Vec::new();
                    std::mem::swap(&mut self.pixels, &mut pixels);
                    self.check_picture(pixels)
                },
                Err(why) => {
                    self.phase = ShotPhase::Over;
                    let path: String = match &self.args.parent {
                        Some(p) => copy_of(p.as_str()),
                        None => copy_of(""),
                    };
                    ShotAction::Failed(ShotFailure::NoDirectory { path, why })
                },
            },
            (ShotPhase::Saving, ShotEvent::Saved(outcome)) => {
                self.phase = ShotPhase::Over;
                match outcome {
                    Ok(_) => ShotAction::Written,
                    Err(why) => ShotAction::Failed(
                        ShotFailure::NotWritten { path: copy_of(self.args.out.as_str()), why },
                    ),
                }
            },
            _ => ShotAction::Nothing,
        }
    }
}

/// The phases in the order in which a run goes through them.
pub open spec fn shot_phase_number(p: ShotPhase) -> int {
    match p {
        ShotPhase::Opening => 0,
        ShotPhase::Resolving => 1,
        ShotPhase::Playing => 2,
        ShotPhase::Viewing => 3,
        ShotPhase::Settling => 4,
        ShotPhase::Drawing => 5,
        ShotPhase::Placing => 6,
        ShotPhase::Saving => 7,
        ShotPhase::Over => 8,
    }
}

/// A run goes forward and has an end. It ends well only where the picture was
/// written, and every other end says why.
pub proof fn law_a_shot_ends_well_only_once_written(
    before: ShotRun,
    event: ShotEvent,
    after: ShotRun,
    action: ShotAction,
)
    requires
        run_wf(before),
        is_shot_step(before, event, after, action),
    ensures
        shot_phase_number(after.phase) >= shot_phase_number(before.phase),
        before.phase == ShotPhase::Over ==> after == before && action is Nothing,
        action is Written <==> before.phase == ShotPhase::Saving && (
        event matches ShotEvent::Saved(outcome) && outcome is Ok),
        after.phase == ShotPhase::Over && before.phase != ShotPhase::Over ==> action is Written
            || action is Failed,
{
}

/// A scene that is played first is looked at as the game left it: the camera is
/// looked for once it was played, and never before.
pub proof fn law_a_played_scene_is_seen_through_the_camera_of_the_game(
    before: ShotRun,
    event: ShotEvent,
    after: ShotRun,
    action: ShotAction,
)
    requires
        run_wf(before),
        is_shot_step(before, event, after, action),
        before.args.after,
        action is LookForCamera,
    ensures
        before.phase == ShotPhase::Playing,
        event matches ShotEvent::Played(played) && played is Some,
{
}

/// What is written has the size that was asked for.
pub proof fn law_what_is_saved_is_a_picture(
    before: ShotRun,
    event: ShotEvent,
    after: ShotRun,
    action: ShotAction,
)
    requires
        run_wf(before),
        is_shot_step(before, event, after, action),
        action is Save,
    ensures
        after.pixels@.len() >= picture_len(after.args.width, after.args.height),
{
}

/// What is said of a picture that was written and not timed, for a program that
/// reads it.
pub fn shot_json(path: &str, w: u32, h: u32, camera: &Option<String>) -> (out: String)
    ensures
        out@ == json_object_form(
            seq![("ok"@, true)],
            seq![
                ("path"@, Some(path@)),
                ("camera"@, text_or_none(*camera)),
                ("timing"@, None::<Seq<char>>),
            ],
            seq![("width"@, w as u64), ("height"@, h as u64)],
        ),
{
    let mut flags: Vec<(String, bool)> = Vec::new();
    flags.push((copy_of("ok"), true));
    let mut texts: Vec<(String, Option<String>)> = Vec::new();
    texts.push((copy_of("path"), Some(copy_of(path))));
    texts.push((copy_of("camera"), copy_opt(camera)));
    texts.push((copy_of("timing"), None));
    let mut numbers: Vec<(String, u64)> = Vec::new();
    numbers.push((copy_of("width"), w as u64));
    numbers.push((copy_of("height"), h as u64));
    proof {
        assert(flag_fields(flags@) =~= seq![("ok"@, true)]);
        assert(text_fields(texts@) =~= seq![
            ("path"@, Some(path@)),
            ("camera"@, text_or_none(*camera)),
            ("timing"@, None::<Seq<char>>),
        ]);
        assert(number_fields(numbers@) =~= seq![("width"@, w as u64), ("height"@, h as u64)]);
    }
    json_object(&flags, &texts, &numbers)
}

// ---- how a frame is drawn --------------------------------------------------

/// How what was drawn comes to its size.
#[derive(Clone, Copy, Debug, PartialEq, Eq, Structural)]
pub enum Upscale {
    /// It has that size.
    Not,
    /// It fills the picture.
    Fill,
    /// By a whole number, with a frame round it.
    Whole,
}

/// How a frame is drawn: at which size, and how that comes to the size of the
/// picture.
#[derive(Clone, Copy, Debug, PartialEq, Eq, Structural)]
pub struct FramePlan {
    pub width: u32,
    pub height: u32,
    pub upscale: Upscale,
}

/// How a frame of `w` by `h` is drawn. A project that is drawn small (`small` is
/// that size) is drawn so here too, with all that is laid over it.
pub fn frame_plan(w: u32, h: u32, small: Option<(u32, u32)>, whole_pixels: bool) -> (out: FramePlan)
    ensures
        out == match small {
            Some(s) => FramePlan {
                width: s.0,
                height: s.1,
                upscale: if whole_pixels {
                    Upscale::Whole
                } else {
                    Upscale::Fill
                },
            },
            None => FramePlan { width: w, height: h, upscale: Upscale::Not },
        },
{
    match small {
        Some(s) => FramePlan {
            width: s.0,
            height: s.1,
            upscale: if whole_pixels {
                Upscale::Whole
            } else {
                Upscale::Fill
            },
        },
        None => FramePlan { width: w, height: h, upscale: Upscale::Not },
    }
}

/// Is a step of play put off once more? The world is still being read, and there
/// is time left for that.
pub fn waits_for_world(busy: bool, in_time: bool) -> (out: bool)
    ensures
        out == (busy && in_time),
{
    busy && in_time
}

/// A shot is made step by step: the scene that is named is looked for, it is played exactly
/// where that is asked for, then the camera is looked for, the world waited for, and a frame
/// drawn through that very camera.
pub proof fn law_a_shot_goes_from_phase_to_phase(
    before: ShotRun,
    event: ShotEvent,
    after: ShotRun,
    action: ShotAction,
)
    requires
        run_wf(before),
        is_shot_step(before, event, after, action),
    ensures
        after.args == before.args,
        action is Resolve <==> before.phase == ShotPhase::Opening && event is Opened
            && before.args.scene is Some,
        action is Play ==> before.args.after && after.phase == ShotPhase::Playing && (before.phase
            == ShotPhase::Opening || before.phase == ShotPhase::Resolving),
        action is LookForCamera ==> after.phase == ShotPhase::Viewing,
        action matches ShotAction::Settle { camera } ==> after.camera == Some(camera)
            && after.phase == ShotPhase::Settling && before.phase == ShotPhase::Viewing,
        action is Draw <==> before.phase == ShotPhase::Settling && event is Settled,
        action is MakeParent <==> before.phase == ShotPhase::Drawing && (
        event matches ShotEvent::Drawn(d) && d is Some) && before.args.parent is Some,
        action is Save ==> after.phase == ShotPhase::Saving && (before.phase == ShotPhase::Drawing
            || before.phase == ShotPhase::Placing),
        before.phase != ShotPhase::Viewing ==> after.camera == before.camera,
{
}

/// A shot warns where it cannot time its work though that was asked for, at its first step and
/// at no other, and where the world is not all there.
pub proof fn law_a_shot_warns_of_what_is_missing(
    before: ShotRun,
    event: ShotEvent,
    after: ShotRun,
    action: ShotAction,
)
    requires
        run_wf(before),
        is_shot_step(before, event, after, action),
    ensures
        event matches ShotEvent::Opened { timer } ==> (before.phase == ShotPhase::Opening ==> ({
            let warns = before.args.timing && !timer;
            &&& after.timed == (before.args.timing && timer)
            &&& action matches ShotAction::Resolve { warn } ==> warn == warns
            &&& action matches ShotAction::Play { warn } ==> warn == warns
            &&& action matches ShotAction::LookForCamera { warn, .. } ==> warn == warns
        })),
        before.phase != ShotPhase::Opening ==> (action matches ShotAction::Play { warn } ==> !warn)
            && (action matches ShotAction::LookForCamera { warn, .. } ==> !warn) && after.timed
            == before.timed,
        action matches ShotAction::Draw { warn } ==> event == (ShotEvent::Settled { whole: !warn }),
{
}

/// A shot fails for the reason that it was given, and by the kind of what failed.
pub proof fn law_a_shot_fails_for_its_reason(
    before: ShotRun,
    event: ShotEvent,
    after: ShotRun,
    action: ShotAction,
)
    requires
        run_wf(before),
        is_shot_step(before, event, after, action),
        action is Failed,
    ensures
        after.phase == ShotPhase::Over,
        action->Failed_0 is NoScene <==> before.phase == ShotPhase::Resolving,
        action->Failed_0 is NotPlaying <==> before.phase == ShotPhase::Playing,
        action->Failed_0 is NoCamera <==> before.phase == ShotPhase::Viewing,
        action->Failed_0 is NoDevice <==> before.phase == ShotPhase::Drawing && event
            == ShotEvent::Drawn(None),
        action->Failed_0 matches ShotFailure::NoDirectory { why, .. } ==> event
            == ShotEvent::Placed(Err(why)),
        action->Failed_0 matches ShotFailure::NotWritten { path, why } ==> event
            == ShotEvent::Saved(Err(why)) && path@ == before.args.out@,
        action->Failed_0 is NotWritten <==> before.phase == ShotPhase::Saving,
        action->Failed_0 matches ShotFailure::NoScene { name, scenes } ==> text_or_none(
            before.args.scene,
        ) == Some(name@) && scenes@ == before.args.scenes@,
        action->Failed_0 matches ShotFailure::NoCamera { called } ==> text_or_none(called)
            == text_or_none(before.args.camera),
{
}

/// A picture is written as it was drawn, where it is large enough; too few pixels are no
/// picture.
pub proof fn law_a_picture_is_written_as_it_was_drawn(
    before: ShotRun,
    pixels: Vec<u8>,
    after: ShotRun,
    action: ShotAction,
)
    requires
        before.phase == ShotPhase::Drawing,
        is_shot_step(before, ShotEvent::Drawn(Some(pixels)), after, action),
    ensures
        before.args.parent is None ==> (action is Save <==> pixels@.len() >= 4 * before.args.width
            * before.args.height),
        before.args.parent is None && !(action is Save) ==> action == ShotAction::Failed(
            ShotFailure::WrongSize,
        ),
        action is Save || action is MakeParent ==> after.pixels@ == pixels@,
{
}

/// Every side of a picture has a pixel at least, and is as long as was asked for where that is
/// more.
pub proof fn law_no_side_is_empty(n: u32)
    ensures
        side_of(n) >= 1,
        n >= 1 ==> side_of(n) == n,
        n == 0 ==> side_of(n) == 1,
{
}

/// A project that is drawn small is drawn at that size and enlarged, by a whole number exactly
/// where that is set; any other is drawn at the size that was asked for.
pub proof fn law_a_small_project_is_enlarged(
    w: u32,
    h: u32,
    small: Option<(u32, u32)>,
    whole_pixels: bool,
    out: FramePlan,
)
    requires
        call_ensures(frame_plan, (w, h, small, whole_pixels), out),
    ensures
        out.upscale is Not <==> small is None,
        small is None ==> out.width == w && out.height == h,
        small matches Some(s) ==> out.width == s.0 && out.height == s.1 && (out.upscale is Whole
            <==> whole_pixels) && (out.upscale is Fill <==> !whole_pixels),
{
}

/// The world is waited for while it is busy, and no longer than there is time for.
pub proof fn law_the_world_is_waited_for_in_time(busy: bool, in_time: bool, out: bool)
    requires
        call_ensures(waits_for_world, (busy, in_time), out),
    ensures
        !busy ==> !out,
        !in_time ==> !out,
        busy && in_time ==> out,
{
}

} // verus!
