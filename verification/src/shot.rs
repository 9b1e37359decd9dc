//! A picture of a scene: what the command line asks for, which camera looks, and
//! how the pixels come back.

use crate::number_words::{is_number_word, number_word};
use crate::paths::{file_stem, join_path, path_below, stem_in};
use crate::text::{
    all_digits, chars_of, copy_of, decimal, decimal_text, find_either, index_of_either, is_digit,
    is_white, joined, law_a_number_can_be_read_back, law_digits_need_no_trimming,
    law_numbers_are_read_up_to_the_bound, law_only_white_is_trimmed, law_what_is_seen_is_not_white,
    lemma_found_either, number_in, parse_number, same_text, text_of, trim, trimmed,
};
use vstd::prelude::*;
use vstd::slice::slice_subrange;

verus! {

// ---- what is asked for -----------------------------------------------------

/// The form in which text is quoted in a message.
pub uninterp spec fn quoted_form(s: Seq<char>) -> Seq<char>;

/// `s` between quotation marks, with what cannot be shown written out: what
/// `format!` makes of it by `{:?}`, the `Debug` form of `str`. Which characters
/// are written out, and how, is left to that form.
#[verifier::external_body]
fn quoted(s: &str) -> (out: String)
    ensures
        out@ == quoted_form(s@),
{
    format!("{:?}", s)
}

/// The longest side of a picture that the graphics device makes:
/// `wgpu::Limits::default()` has 8192 for `max_texture_dimension_2d`.
#[verifier::external_body]
fn device_max_side() -> (out: u32)
    ensures
        out == 8192,
{
    wgpu::Limits::default().max_texture_dimension_2d
}

/// The longest side of a picture.
pub fn max_side() -> (out: u32)
    ensures
        out == 8192,
{
    device_max_side()
}

/// The sides that a size writes: two numbers with an `x` between them, or one
/// number for both. White space around a number does not matter.
pub open spec fn sides_in(s: Seq<char>) -> Option<(nat, nat)> {
    let n = index_of_either(s, 'x', 'X');
    if n < s.len() {
        let w = number_in(trim(s.take(n)), u32::MAX as nat);
        let h = number_in(trim(s.skip(n + 1)), u32::MAX as nat);
        if w is Some && h is Some {
            Some((w->Some_0, h->Some_0))
        } else {
            None
        }
    } else {
        match number_in(trim(s), u32::MAX as nat) {
            Some(n) => Some((n, n)),
            None => None,
        }
    }
}

/// What is said of a size that writes no sides, with what was given in quotes.
pub fn size_wanted_text(given: &str) -> (out: String)
    ensures
        out@ == "--size wants WxH (say 960x540), not "@ + given@,
{
    joined("--size wants WxH (say 960x540), not ", given)
}

/// What is said of a size that writes no sides.
pub open spec fn size_wanted(s: Seq<char>) -> Seq<char> {
    "--size wants WxH (say 960x540), not "@ + quoted_form(s)
}

/// A size in words.
pub open spec fn size_words(w: nat, h: nat) -> Seq<char> {
    "--size "@ + decimal(w) + "x"@ + decimal(h)
}

/// What is said of a size with an empty side.
pub open spec fn size_empty(w: nat, h: nat) -> Seq<char> {
    size_words(w, h) + " has no picture in it"@
}

/// What is said of a size that is too large.
pub open spec fn size_too_large(w: nat, h: nat, max: nat) -> Seq<char> {
    size_words(w, h) + " is larger than this machine can render — "@ + decimal(max)
        + " is the limit on either side"@
}

/// The number that a run of characters writes, as a `u32`.
fn side(s: &[char]) -> (out: Option<u32>)
    ensures
        match out {
            Some(n) => number_in(trim(s@), u32::MAX as nat) == Some(n as nat),
            None => number_in(trim(s@), u32::MAX as nat) is None,
        },
{
    match parse_number(trimmed(s), u32::MAX as u64) {
        Some(n) => Some(n as u32),
        None => None,
    }
}

/// A size in words.
fn size_text(w: u32, h: u32) -> (out: String)
    ensures
        out@ == size_words(w as nat, h as nat),
{
    let head: String = joined("--size ", decimal_text(w as u64).as_str());
    joined(joined(head.as_str(), "x").as_str(), decimal_text(h as u64).as_str())
}

/// What the value of `--size` asks for: how wide and how high. A number alone
/// means a square. A side of 0 is refused, and so is one that is longer than the
/// device can make, here rather than by the device.
pub fn parse_size(s: &str) -> (out: Result<(u32, u32), String>)
    ensures
        match sides_in(s@) {
            None => out matches Err(e) && e@ == size_wanted(s@),
            Some((w, h)) => if w == 0 || h == 0 {
                out matches Err(e) && e@ == size_empty(w, h)
            } else if w > 8192 || h > 8192 {
                out matches Err(e) && e@ == size_too_large(w, h, 8192)
            } else {
                out matches Ok(got) && got.0 == w && got.1 == h
            },
        },
{
    let c: Vec<char> = chars_of(s);
    let n: usize = find_either(c.as_slice(), 'x', 'X');
    let sides: Option<(u32, u32)> = if n < c.len() {
        let left: &[char] = slice_subrange(c.as_slice(), 0, n);
        let right: &[char] = slice_subrange(c.as_slice(), n + 1, c.len());
        assert(left@ == c@.take(n as int));
        assert(right@ == c@.skip(n + 1));
        match (side(left), side(right)) {
            (Some(w), Some(h)) => Some((w, h)),
            _ => None,
        }
    } else {
        match side(c.as_slice()) {
            Some(n) => Some((n, n)),
            None => None,
        }
    };
    let (w, h): (u32, u32) = match sides {
        Some(p) => p,
        None => {
            return Err(size_wanted_text(quoted(s).as_str()));
        },
    };
    if w == 0 || h == 0 {
        return Err(joined(size_text(w, h).as_str(), " has no picture in it"));
    }
    let max: u32 = max_side();
    if w > max || h > max {
        let head: String = joined(
            size_text(w, h).as_str(),
            " is larger than this machine can render — ",
        );
        let limit: String = joined(head.as_str(), decimal_text(max as u64).as_str());
        return Err(joined(limit.as_str(), " is the limit on either side"));
    }
    Ok((w, h))
}

/// A span to play, as it is written: a number, and whether it counts frames
/// rather than seconds.
#[derive(Debug, PartialEq)]
pub struct PlaySpan {
    pub number: String,
    pub frames: bool,
}

/// Does `s` end with `a` or `b`?
pub open spec fn ends_with_either(s: Seq<char>, a: char, b: char) -> bool {
    s.len() > 0 && (s.last() == a || s.last() == b)
}

/// The number of a span: what stands before its unit, trimmed.
pub open spec fn span_number(s: Seq<char>) -> Seq<char> {
    let t = trim(s);
    if ends_with_either(t, 'f', 'F') || ends_with_either(t, 's', 'S') {
        trim(t.drop_last())
    } else {
        trim(t)
    }
}

/// What is said of a span that writes no number.
pub open spec fn span_wanted(s: Seq<char>) -> Seq<char> {
    "--after wants a span like 30s, 1.5s or 900f — not "@ + quoted_form(s)
}

/// What is said of a span that is no length of time.
pub open spec fn span_refused(s: Seq<char>) -> Seq<char> {
    "--after "@ + quoted_form(s)
        + " is not a length of time to play for; ask for something above zero"@
}

/// What is said of a span that writes no number, with what was given in quotes.
pub fn span_wanted_text(given: &str) -> (out: String)
    ensures
        out@ == "--after wants a span like 30s, 1.5s or 900f — not "@ + given@,
{
    joined("--after wants a span like 30s, 1.5s or 900f — not ", given)
}

/// What is said of a span that is no length of time, with what was given in
/// quotes.
pub fn span_refused_text(given: &str) -> (out: String)
    ensures
        out@ == "--after "@ + given@
            + " is not a length of time to play for; ask for something above zero"@,
{
    joined(
        joined("--after ", given).as_str(),
        " is not a length of time to play for; ask for something above zero",
    )
}

/// What the value of `--after` asks for: seconds, with or without an `s` behind
/// them, or frames with an `f`.
pub fn parse_after(s: &str) -> (out: Result<PlaySpan, String>)
    ensures
        if is_number_word(span_number(s@)) {
            out matches Ok(span) && span.number@ == span_number(s@) && span.frames
                == ends_with_either(trim(s@), 'f', 'F')
        } else {
            out matches Err(e) && e@ == span_wanted(s@)
        },
{
    let c: Vec<char> = chars_of(s);
    let t: &[char] = trimmed(c.as_slice());
    let frames: bool = t.len() > 0 && (t[t.len() - 1] == 'f' || t[t.len() - 1] == 'F');
    let seconds: bool = t.len() > 0 && (t[t.len() - 1] == 's' || t[t.len() - 1] == 'S');
    let number: &[char] = if frames || seconds {
        let head: &[char] = slice_subrange(t, 0, t.len() - 1);
        assert(head@ == t@.drop_last());
        trimmed(head)
    } else {
        trimmed(t)
    };
    if number_word(number) {
        Ok(PlaySpan { number: text_of(number), frames })
    } else {
        Err(span_wanted_text(quoted(s).as_str()))
    }
}

/// The span that was asked for, now that it is known whether its number is
/// finite and above zero. Any other number is refused: it would play nothing.
pub fn span_to_play(s: &str, span: PlaySpan, above_zero: bool) -> (out: Result<PlaySpan, String>)
    ensures
        if above_zero {
            out == Ok::<PlaySpan, String>(span)
        } else {
            out matches Err(e) && e@ == span_refused(s@)
        },
{
    if above_zero {
        Ok(span)
    } else {
        Err(span_refused_text(quoted(s).as_str()))
    }
}

/// The name of the picture of a scene, where none is given: that of the scene.
pub open spec fn picture_name(scene: Option<Seq<char>>) -> Seq<char> {
    let stem = match scene {
        Some(s) => match stem_in(s) {
            Some(stem) => stem,
            None => "scene"@,
        },
        None => "scene"@,
    };
    stem + ".png"@
}

/// Where the picture of a scene lands, where the caller does not say.
pub fn default_out(root: &str, scene: Option<&str>) -> (out: String)
    ensures
        out@ == path_below(
            root@,
            picture_name(
                match scene {
                    Some(s) => Some(s@),
                    None => None,
                },
            ),
        ),
{
    let stem: String = match scene {
        Some(s) => match file_stem(s) {
            Some(stem) => stem,
            None => copy_of("scene"),
        },
        None => copy_of("scene"),
    };
    join_path(root, joined(stem.as_str(), ".png").as_str())
}

/// Why there is no picture.
pub enum ShotFailure {
    /// There is no project in this directory.
    NotAProject { root: String },
    /// There is no scene of that name in this directory.
    NoScene { name: String, scenes: String },
    /// The project did not start to play.
    NotPlaying,
    /// There is no camera of that name, or none at all.
    NoCamera { called: Option<String> },
    /// There is no device to draw with.
    NoDevice,
    /// The directory for the picture could not be made.
    NoDirectory { path: String, why: String },
    /// The pixels are not those of a picture of that size.
    WrongSize,
    /// The picture could not be written.
    NotWritten { path: String, why: String },
}

/// What is said of a failure.
pub open spec fn failure_text(f: ShotFailure) -> Seq<char> {
    match f {
        ShotFailure::NotAProject { root } => root@
            + " is not a project directory (no project.ron)"@,
        ShotFailure::NoScene { name, scenes } => "no scene called "@ + name@ + " under "@
            + scenes@,
        ShotFailure::NotPlaying =>
            "the project did not enter play mode, so there is nothing to photograph"@,
        ShotFailure::NoCamera { called: Some(name) } => "this scene has no camera called "@ + name@,
        ShotFailure::NoCamera { called: None } =>
            "this scene has no camera, so there is no view to render — add one, or name another scene with --scene"@,
        ShotFailure::NoDevice => "no GPU: this machine has no adapter floptle can render on"@,
        ShotFailure::NoDirectory { path, why } => "could not create "@ + path@ + ": "@ + why@,
        ShotFailure::WrongSize => "the render came back the wrong size"@,
        ShotFailure::NotWritten { path, why } => "could not write "@ + path@ + ": "@ + why@,
    }
}

impl ShotFailure {
    /// What is said of the failure.
    pub fn message(&self) -> (out: String)
        ensures
            out@ == failure_text(*self),
    {
        match self {
            ShotFailure::NotAProject { root } => joined(
                root.as_str(),
                " is not a project directory (no project.ron)",
            ),
            ShotFailure::NoScene { name, scenes } => joined(
                joined(joined("no scene called ", name.as_str()).as_str(), " under ").as_str(),
                scenes.as_str(),
            ),
            ShotFailure::NotPlaying => copy_of(
                "the project did not enter play mode, so there is nothing to photograph",
            ),
            ShotFailure::NoCamera { called: Some(name) } => joined(
                "this scene has no camera called ",
                name.as_str(),
            ),
            ShotFailure::NoCamera { called: None } => copy_of(
                "this scene has no camera, so there is no view to render — add one, or name another scene with --scene",
            ),
            ShotFailure::NoDevice => copy_of(
                "no GPU: this machine has no adapter floptle can render on",
            ),
            ShotFailure::NoDirectory { path, why } => joined(
                joined(joined("could not create ", path.as_str()).as_str(), ": ").as_str(),
                why.as_str(),
            ),
            ShotFailure::WrongSize => copy_of("the render came back the wrong size"),
            ShotFailure::NotWritten { path, why } => joined(
                joined(joined("could not write ", path.as_str()).as_str(), ": ").as_str(),
                why.as_str(),
            ),
        }
    }

    /// The code with which the program ends: 2 where it was started in the wrong
    /// place, else 1.
    pub fn exit_code(&self) -> (out: i32)
        ensures
            out == if *self is NotAProject {
                2i32
            } else {
                1i32
            },
    {
        match self {
            ShotFailure::NotAProject { .. } => 2,
            _ => 1,
        }
    }
}

/// What is said of a picture that was written.
pub fn written_text(path: &str, w: u32, h: u32) -> (out: String)
    ensures
        out@ == "wrote "@ + path@ + " ("@ + decimal(w as nat) + "x"@ + decimal(h as nat) + ")"@,
{
    let head: String = joined(joined("wrote ", path).as_str(), " (");
    let wide: String = joined(head.as_str(), decimal_text(w as u64).as_str());
    let high: String = joined(
        joined(wide.as_str(), "x").as_str(),
        decimal_text(h as u64).as_str(),
    );
    joined(high.as_str(), ")")
}

/// Two numbers with an `x` between them, small or large, are the two sides; one number alone is
/// both.
pub proof fn law_a_size_is_its_two_sides(w: nat, h: nat, x: char)
    requires
        w <= u32::MAX,
        h <= u32::MAX,
        x == 'x' || x == 'X',
    ensures
        sides_in(decimal(w) + seq![x] + decimal(h)) == Some((w, h)),
        sides_in(decimal(w)) == Some((w, w)),
{
    let a = decimal(w);
    let b = decimal(h);
    let s = a + seq![x] + b;
    law_a_number_can_be_read_back(w);
    law_a_number_can_be_read_back(h);
    law_digits_need_no_trimming(a);
    law_digits_need_no_trimming(b);
    law_numbers_are_read_up_to_the_bound(w, u32::MAX as nat);
    law_numbers_are_read_up_to_the_bound(h, u32::MAX as nat);
    lemma_found_either(s, 'x', 'X');
    lemma_found_either(a, 'x', 'X');
    let n = index_of_either(s, 'x', 'X');
    assert(s[a.len() as int] == x);
    assert(n == a.len()) by {
        if n < a.len() {
            assert(s[n] == a[n]);
            assert(is_digit(a[n]));
        }
    }
    assert(s.take(n) =~= a);
    assert(s.skip(n + 1) =~= b);
    let m = index_of_either(a, 'x', 'X');
    if m < a.len() {
        assert(is_digit(a[m]));
    }
}

/// A span is its number, whichever unit stands behind it: seconds, frames, or none.
pub proof fn law_a_span_is_its_number(n: nat)
    ensures
        span_number(decimal(n)) == decimal(n),
        span_number(decimal(n).push('s')) == decimal(n),
        span_number(decimal(n).push('f')) == decimal(n),
        ends_with_either(trim(decimal(n).push('f')), 'f', 'F'),
        !ends_with_either(trim(decimal(n).push('s')), 'f', 'F'),
        !ends_with_either(trim(decimal(n)), 'f', 'F'),
{
    let d = decimal(n);
    law_a_number_can_be_read_back(n);
    law_digits_need_no_trimming(d);
    assert(is_digit(d.last())) by {
        assert(is_digit(d[d.len() - 1]));
    }
    lemma_unit_stays(d, 's');
    lemma_unit_stays(d, 'f');
    assert(d.push('s').drop_last() =~= d);
    assert(d.push('f').drop_last() =~= d);
}

/// A letter behind digits is not trimmed.
proof fn lemma_unit_stays(d: Seq<char>, unit: char)
    requires
        d.len() > 0,
        all_digits(d),
        'a' <= unit <= 'z',
    ensures
        trim(d.push(unit)) == d.push(unit),
{
    let s = d.push(unit);
    let cut = law_only_white_is_trimmed(s);
    law_what_is_seen_is_not_white(unit);
    assert(is_digit(d[0]));
    law_what_is_seen_is_not_white(d[0]);
    assert(cut.0 == 0) by {
        if cut.0 > 0 {
            assert(is_white(s[0]));
        }
    }
    assert(cut.1 == s.len()) by {
        if cut.1 < s.len() {
            assert(is_white(s[s.len() - 1]));
        }
    }
    assert(trim(s) =~= s);
}

/// A picture is called after its scene, where that has a name, and is always of the same kind.
pub proof fn law_a_picture_is_called_after_its_scene(scene: Seq<char>)
    ensures
        stem_in(scene) matches Some(stem) ==> picture_name(Some(scene)) == stem + ".png"@,
        stem_in(scene) is None ==> picture_name(Some(scene)) == picture_name(None),
        picture_name(None) == "scene"@ + ".png"@,
{
}

/// What could not be made, written or found is named, with the reason where there is one.
pub proof fn law_a_failed_shot_names_what_failed(f: ShotFailure)
    ensures
        f matches ShotFailure::NotAProject { root } ==> failure_text(f).take(root@.len() as int)
            == root@,
        f matches ShotFailure::NoScene { name, scenes } ==> failure_text(f) == "no scene called "@
            + name@ + " under "@ + scenes@,
        f matches ShotFailure::NoCamera { called: Some(name) } ==> failure_text(f)
            == "this scene has no camera called "@ + name@,
        f matches ShotFailure::NoDirectory { path, why } ==> failure_text(f) == "could not create "@
            + path@ + ": "@ + why@,
        f matches ShotFailure::NotWritten { path, why } ==> failure_text(f) == "could not write "@
            + path@ + ": "@ + why@,
{
    if let ShotFailure::NotAProject { root } = f {
        assert(failure_text(f).take(root@.len() as int) =~= root@);
    }
}

// ---- which camera ----------------------------------------------------------

/// A camera of a scene.
pub struct CameraNode {
    pub entity: u64,
    pub name: Option<String>,
    pub active: bool,
}

/// Is the camera called `name`?
pub open spec fn is_called(c: CameraNode, name: Seq<char>) -> bool {
    c.name is Some && c.name->Some_0@ == name
}

/// Is camera `i` the one to look through? By name it is the first of that name,
/// and nothing else will do. Without one it is the first that is active, and
/// where none is, the first of all.
pub open spec fn looks_through(
    cameras: Seq<CameraNode>,
    named: Option<Seq<char>>,
    i: int,
) -> bool {
    &&& 0 <= i < cameras.len()
    &&& match named {
        Some(name) => is_called(cameras[i], name) && forall|j: int|
            0 <= j < i ==> !is_called(#[trigger] cameras[j], name),
        None => {
            ||| cameras[i].active && forall|j: int| 0 <= j < i ==> !(#[trigger] cameras[j]).active
            ||| i == 0 && forall|j: int|
                0 <= j < cameras.len() ==> !(#[trigger] cameras[j]).active
        },
    }
}

/// The camera to look through.
pub fn find_camera(cameras: &Vec<CameraNode>, named: Option<&str>) -> (out: Option<usize>)
    ensures
        ({
            let name = match named {
                Some(n) => Some(n@),
                None => None,
            };
            match out {
                Some(i) => looks_through(cameras@, name, i as int),
                None => match name {
                    Some(n) => forall|j: int|
                        0 <= j < cameras@.len() ==> !is_called(#[trigger] cameras@[j], n),
                    None => cameras@.len() == 0,
                },
            }
        }),
{
    let mut i: usize = 0;
    match named {
        Some(want) => {
            while i < cameras.len()
                invariant
                    i <= cameras.len(),
                    named matches Some(n) && n@ == want@,
                    forall|j: int| 0 <= j < i ==> !is_called(#[trigger] cameras@[j], want@),
                decreases cameras.len() - i,
            {
                let right: bool = match &cameras[i].name {
                    Some(name) => same_text(name.as_str(), want),
                    None => false,
                };
                if right {
                    return Some(i);
                }
                i += 1;
            }
            None
        },
        None => {
            while i < cameras.len()
                invariant
                    i <= cameras.len(),
                    named is None,
                    forall|j: int| 0 <= j < i ==> !(#[trigger] cameras@[j]).active,
                decreases cameras.len() - i,
            {
                if cameras[i].active {
                    return Some(i);
                }
                i += 1;
            }
            if cameras.len() > 0 {
                Some(0)
            } else {
                None
            }
        },
    }
}

/// There is one camera to look through.
pub proof fn law_the_view_is_unique(
    cameras: Seq<CameraNode>,
    named: Option<Seq<char>>,
    i: int,
    j: int,
)
    requires
        looks_through(cameras, named, i),
        looks_through(cameras, named, j),
    ensures
        i == j,
{
    match named {
        Some(name) => {
            if i < j {
                assert(!is_called(cameras[i], name));
            } else if j < i {
                assert(!is_called(cameras[j], name));
            }
        },
        None => {
            if i < j {
                assert(!cameras[i].active);
                assert(cameras[j].active);
            } else if j < i {
                assert(!cameras[j].active);
                assert(cameras[i].active);
            }
        },
    }
}

/// A camera that is named is looked through whether or not it is active. Without a name an
/// active one is looked through where there is any, and the first of all where there is none.
pub proof fn law_an_active_camera_wins(cameras: Seq<CameraNode>, named: Option<Seq<char>>, i: int, j: int)
    requires
        looks_through(cameras, named, i),
        0 <= j < cameras.len(),
    ensures
        named matches Some(name) ==> cameras[i].name is Some && cameras[i].name->Some_0@ == name,
        named is None && cameras[j].active ==> cameras[i].active && i <= j,
        named is None && !cameras[i].active ==> i == 0 && !cameras[j].active,
        named matches Some(name) ==> (is_called(cameras[j], name) ==> i <= j),
{
}

// ---- playing first ---------------------------------------------------------

/// A span of play that is under way: how many steps it has, and how many have
/// been made.
#[derive(Clone, Copy, Debug, PartialEq, Eq, Structural)]
pub struct PlayRun {
    pub steps: u32,
    pub made: u32,
}

/// What comes next in a span of play.
#[derive(Clone, Copy, Debug, PartialEq, Eq, Structural)]
pub enum PlayNext {
    /// One more step.
    Step,
    /// The picture.
    Done,
}

impl PlayRun {
    /// A span of `steps` steps, and of at least one: a span that plays nothing is
    /// not what was asked for.
    pub fn start(steps: u32) -> (out: PlayRun)
        ensures
            out.made == 0,
            out.steps == if steps == 0 {
                1
            } else {
                steps
            },
    {
        PlayRun {
            steps: if steps == 0 {
                1
            } else {
                steps
            },
            made: 0,
        }
    }

    /// What comes next: a step where there is one to make and the session goes
    /// on. A session that has ended is not stepped.
    pub fn next(&mut self, playing: bool) -> (out: PlayNext)
        requires
            old(self).made <= old(self).steps,
        ensures
            final(self).steps == old(self).steps,
            final(self).made <= final(self).steps,
            if playing && old(self).made < old(self).steps {
                out == PlayNext::Step && final(self).made == old(self).made + 1
            } else {
                out == PlayNext::Done && final(self).made == old(self).made
            },
    {
        if playing && self.made < self.steps {
            self.made = self.made + 1;
            PlayNext::Step
        } else {
            PlayNext::Done
        }
    }
}

// ---- the pixels ------------------------------------------------------------

/// Rows that are copied from the device begin at multiples of so many bytes.
pub const ROW_ALIGNMENT: u32 = 256;

/// The bytes from one copied row to the next.
pub open spec fn row_stride(w: nat) -> nat {
    (w * 4 + 255) / 256 * 256
}

/// The bytes from one copied row to the next.
pub fn padded_row(w: u32) -> (out: u32)
    requires
        w * 4 + 255 <= u32::MAX,
    ensures
        out == row_stride(w as nat),
        out >= w * 4,
{
    (w * 4 + (ROW_ALIGNMENT - 1)) / ROW_ALIGNMENT * ROW_ALIGNMENT
}

/// The pixel at place `x` of a row, as red, green, blue and alpha.
pub open spec fn pixel_at(row: Seq<u8>, x: int, bgra: bool) -> Seq<u8> {
    if bgra {
        seq![row[4 * x + 2], row[4 * x + 1], row[4 * x], row[4 * x + 3]]
    } else {
        seq![row[4 * x], row[4 * x + 1], row[4 * x + 2], row[4 * x + 3]]
    }
}

/// The first `n` pixels of a row.
pub open spec fn row_pixels(row: Seq<u8>, n: nat, bgra: bool) -> Seq<u8>
    decreases n,
{
    if n == 0 {
        seq![]
    } else {
        row_pixels(row, (n - 1) as nat, bgra) + pixel_at(row, n - 1, bgra)
    }
}

/// The pixels of the first `n` rows.
pub open spec fn frame_pixels(view: Seq<u8>, w: nat, n: nat, bgra: bool) -> Seq<u8>
    decreases n,
{
    if n == 0 {
        seq![]
    } else {
        frame_pixels(view, w, (n - 1) as nat, bgra) + row_pixels(
            view.skip((n - 1) * row_stride(w)),
            w,
            bgra,
        )
    }
}

/// The pixels of a picture, out of what was copied from the device: the padding
/// after each row is left out, and where the device has blue first, red and blue
/// change places.
pub fn readback(view: &[u8], w: u32, h: u32, bgra: bool) -> (out: Vec<u8>)
    requires
        w * 4 + 255 <= u32::MAX,
        view@.len() >= row_stride(w as nat) * h,
    ensures
        out@ == frame_pixels(view@, w as nat, h as nat, bgra),
{
    let padded: usize = padded_row(w) as usize;
    let size: usize = view.len();
    let mut out: Vec<u8> = Vec::new();
    let mut y: u32 = 0;
    let mut row: usize = 0;
    while y < h
        invariant
            y <= h,
            w * 4 + 255 <= u32::MAX,
            padded == row_stride(w as nat),
            padded >= w * 4,
            size == view@.len(),
            size >= padded * h,
            y < h ==> row == y * padded,
            out@ == frame_pixels(view@, w as nat, y as nat, bgra),
        decreases h - y,
    {
        let ghost line = view@.skip(row as int);
        let ghost above = out@;
        proof {
            assert(y * padded + padded <= padded * h) by (nonlinear_arith)
                requires
                    y < h,
            ;
            assert(line == view@.skip(y * row_stride(w as nat)));
        }
        let mut x: u32 = 0;
        assert(out@ =~= above + row_pixels(line, 0, bgra));
        while x < w
            invariant
                x <= w,
                w * 4 + 255 <= u32::MAX,
                size == view@.len(),
                row + w * 4 <= size,
                line == view@.skip(row as int),
                out@ == above + row_pixels(line, x as nat, bgra),
            decreases w - x,
        {
            let p: usize = row + (x * 4) as usize;
            let (r, g, b, a): (u8, u8, u8, u8) = (view[p], view[p + 1], view[p + 2], view[p + 3]);
            let ghost was = out@;
            if bgra {
                out.push(b);
                out.push(g);
                out.push(r);
                out.push(a);
            } else {
                out.push(r);
                out.push(g);
                out.push(b);
                out.push(a);
            }
            assert(out@ =~= was + pixel_at(line, x as int, bgra));
            assert(out@ =~= above + row_pixels(line, (x + 1) as nat, bgra));
            x += 1;
        }
        y += 1;
        if y < h {
            proof {
                assert(y * padded + padded <= padded * h) by (nonlinear_arith)
                    requires
                        y < h,
                ;
                assert(y * padded == (y - 1) * padded + padded) by (nonlinear_arith)
                    requires
                        y >= 1,
                ;
            }
            row += padded;
        }
    }
    out
}

/// A picture of `w` by `h` has four bytes for each of its pixels.
pub proof fn law_a_picture_has_four_bytes_a_pixel(view: Seq<u8>, w: nat, h: nat, bgra: bool)
    ensures
        frame_pixels(view, w, h, bgra).len() == 4 * w * h,
    decreases h,
{
    if h > 0 {
        law_a_picture_has_four_bytes_a_pixel(view, w, (h - 1) as nat, bgra);
        lemma_row_len(view.skip((h - 1) * row_stride(w)), w, bgra);
        assert(4 * w * (h - 1) + 4 * w == 4 * w * h) by (nonlinear_arith)
            requires
                h > 0,
        ;
    } else {
        assert(4 * w * 0 == 0) by (nonlinear_arith);
    }
}

/// A row of `n` pixels has four bytes for each of them.
proof fn lemma_row_len(row: Seq<u8>, n: nat, bgra: bool)
    ensures
        row_pixels(row, n, bgra).len() == 4 * n,
    decreases n,
{
    if n > 0 {
        lemma_row_len(row, (n - 1) as nat, bgra);
    }
}

/// Rows begin at multiples of the alignment, each holds its pixels, and no more is left empty
/// than that takes.
pub proof fn law_rows_are_aligned(w: nat)
    ensures
        row_stride(w) % (ROW_ALIGNMENT as nat) == 0,
        4 * w <= row_stride(w) < 4 * w + ROW_ALIGNMENT,
{
}

/// Where the device has blue first, red and blue change places; green and alpha stay.
pub proof fn law_red_and_blue_change_places(row: Seq<u8>, x: int)
    ensures
        pixel_at(row, x, true)[0] == pixel_at(row, x, false)[2],
        pixel_at(row, x, true)[2] == pixel_at(row, x, false)[0],
        pixel_at(row, x, true)[1] == pixel_at(row, x, false)[1],
        pixel_at(row, x, true)[3] == pixel_at(row, x, false)[3],
        pixel_at(row, x, false).len() == 4,
        forall|c: int| 0 <= c < 4 ==> #[trigger] pixel_at(row, x, false)[c] == row[4 * x + c],
{
}

/// Every pixel of a row is in its place.
proof fn lemma_row_pixel(row: Seq<u8>, n: nat, x: int, c: int, bgra: bool)
    requires
        0 <= x < n,
        0 <= c < 4,
    ensures
        row_pixels(row, n, bgra)[4 * x + c] == pixel_at(row, x, bgra)[c],
    decreases n,
{
    lemma_row_len(row, (n - 1) as nat, bgra);
    let less = row_pixels(row, (n - 1) as nat, bgra);
    if x < n - 1 {
        lemma_row_pixel(row, (n - 1) as nat, x, c, bgra);
        assert(row_pixels(row, n, bgra)[4 * x + c] == less[4 * x + c]);
    } else {
        assert(pixel_at(row, x, bgra).len() == 4);
        assert(row_pixels(row, n, bgra)[less.len() + c] == pixel_at(row, x, bgra)[c]);
    }
}

/// Every pixel of a picture is in its place: that of column `x` in row `y` is taken from there
/// in what was copied, and nothing of the padding is in the picture.
pub proof fn law_every_pixel_is_in_its_place(
    view: Seq<u8>,
    w: nat,
    h: nat,
    x: int,
    y: int,
    c: int,
    bgra: bool,
)
    requires
        0 <= x < w,
        0 <= y < h,
        0 <= c < 4,
        view.len() >= row_stride(w) * h,
    ensures
        0 <= 4 * (y * w + x) + c < frame_pixels(view, w, h, bgra).len(),
        frame_pixels(view, w, h, bgra)[4 * (y * w + x) + c] == pixel_at(
            view.skip(y * row_stride(w)),
            x,
            bgra,
        )[c],
    decreases h,
{
    let k = (h - 1) as nat;
    law_a_picture_has_four_bytes_a_pixel(view, w, k, bgra);
    law_a_picture_has_four_bytes_a_pixel(view, w, h, bgra);
    let less = frame_pixels(view, w, k, bgra);
    let at = 4 * (y * w + x) + c;
    assert(at < 4 * w * h && (y < k ==> at < 4 * w * k) && (y == k ==> at == 4 * w * k + (4 * x + c)))
        by (nonlinear_arith)
        requires
            at == 4 * (y * w + x) + c,
            0 <= x < w,
            0 <= y < h,
            0 <= c < 4,
            k == h - 1,
    ;
    assert(0 <= at) by (nonlinear_arith)
        requires
            at == 4 * (y * w + x) + c,
            0 <= x < w,
            0 <= y < h,
            0 <= c,
    ;
    if y < k {
        assert(row_stride(w) * k <= row_stride(w) * h) by (nonlinear_arith)
            requires
                k <= h,
        ;
        law_every_pixel_is_in_its_place(view, w, k, x, y, c, bgra);
        assert(frame_pixels(view, w, h, bgra)[at] == less[at]);
    } else {
        let row = view.skip((h - 1) * row_stride(w));
        lemma_row_len(row, w, bgra);
        lemma_row_pixel(row, w, x, c, bgra);
        assert(frame_pixels(view, w, h, bgra)[at] == row_pixels(row, w, bgra)[4 * x + c]);
        assert(y == h - 1);
    }
}

/// What is no project ends the program otherwise than any other failure, and no failure ends it
/// well.
pub proof fn law_no_failure_ends_well(f: &ShotFailure, g: &ShotFailure, x: i32, y: i32)
    requires
        call_ensures(ShotFailure::exit_code, (f,), x),
        call_ensures(ShotFailure::exit_code, (g,), y),
    ensures
        x != 0,
        x == y <==> (*f is NotAProject <==> *g is NotAProject),
        *f is NotAProject && !(*g is NotAProject) ==> x > y,
{
}

/// What was given is repeated where it cannot be read.
pub proof fn law_what_cannot_be_read_is_repeated(given: &str, size: String, span: String, refused: String)
    requires
        call_ensures(size_wanted_text, (given,), size),
        call_ensures(span_wanted_text, (given,), span),
        call_ensures(span_refused_text, (given,), refused),
    ensures
        given@.is_suffix_of(size@),
        given@.is_suffix_of(span@),
        ("--after "@ + given@).is_prefix_of(refused@),
{
    assert(size@.subrange(size@.len() - given@.len(), size@.len() as int) =~= given@);
    assert(span@.subrange(span@.len() - given@.len(), span@.len() as int) =~= given@);
    let a = "--after "@ + given@;
    assert(refused@.subrange(0, a.len() as int) =~= a);
}

/// A size is taken exactly where it names two sides that hold a picture and are no longer than
/// the longest; then it is what was written.
pub proof fn law_a_size_has_two_good_sides(s: &str, out: Result<(u32, u32), String>, max: u32)
    requires
        call_ensures(parse_size, (s,), out),
        call_ensures(max_side, (), max),
    ensures
        out is Ok <==> sides_in(s@) is Some && 0 < sides_in(s@)->Some_0.0 <= max && 0 < sides_in(
            s@,
        )->Some_0.1 <= max,
        out matches Ok(got) ==> sides_in(s@) == Some((got.0 as nat, got.1 as nat)),
{
}

/// A span is taken exactly where it begins with a number, and it counts frames where it says so;
/// one that is not above zero is refused.
pub proof fn law_a_span_is_a_number_above_zero(
    s: &str,
    span: PlaySpan,
    above_zero: bool,
    read: Result<PlaySpan, String>,
    out: Result<PlaySpan, String>,
)
    requires
        call_ensures(parse_after, (s,), read),
        call_ensures(span_to_play, (s, span, above_zero), out),
    ensures
        read is Ok <==> is_number_word(span_number(s@)),
        read matches Ok(r) ==> r.number@ == span_number(s@) && (r.frames <==> ends_with_either(
            trim(s@),
            'f',
            'F',
        )),
        out is Ok <==> above_zero,
        out matches Ok(kept) ==> kept == span,
{
}

} // verus!
