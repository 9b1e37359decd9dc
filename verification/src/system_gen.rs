//! Rolling a random star system: what a request asks for, and what its progress
//! tells.

use crate::script_meta::opt_text;
use crate::text::{
    chars_of, copy_of, decimal, decimal_text, joined, law_numbers_are_read_up_to_the_bound,
    lemma_all_dropped, lemma_all_kept, number_in, parse_number, text_of, trim, trimmed,
};
use crate::lists::{lemma_filter_holds, lemma_filter_none, lemma_filter_step};
use vstd::prelude::*;

verus! {

/// What a request for a star system asks for.
pub struct SystemGenCfg {
    /// The seed, as it is typed. A blank one is rolled anew each time.
    pub seed_text: String,
    /// How many planets. 0 leaves it to the seed.
    pub planets: u32,
    /// The name of the scene.
    pub scene: String,
}

impl Default for SystemGenCfg {
    fn default() -> (out: Self)
        ensures
            out.seed_text@ == Seq::<char>::empty(),
            out.planets == 0,
            out.scene@ == "system"@,
    {
        SystemGenCfg { seed_text: String::new(), planets: 0, scene: copy_of("system") }
    }
}

/// A character that a scene's name may hold.
pub open spec fn is_scene_char(c: char) -> bool {
    'a' <= c <= 'z' || 'A' <= c <= 'Z' || '0' <= c <= '9' || c == '_' || c == '-'
}

/// The name of the scene that a typed name asks for: what is left of it once
/// every other character is taken out, or `system`.
pub open spec fn scene_name_of(typed: Seq<char>) -> Seq<char> {
    let kept = typed.filter(|c: char| is_scene_char(c));
    if kept.len() > 0 {
        kept
    } else {
        "system"@
    }
}

/// The name of the scene that a typed name asks for.
pub fn scene_name(typed: &str) -> (out: String)
    ensures
        out@ == scene_name_of(typed@),
{
    let s: Vec<char> = chars_of(typed);
    let ghost keep = |c: char| is_scene_char(c);
    let mut kept: Vec<char> = Vec::new();
    let mut i: usize = 0;
    proof {
        lemma_filter_none(s@, keep);
    }
    while i < s.len()
        invariant
            i <= s.len(),
            keep == (|c: char| is_scene_char(c)),
            kept@ == s@.take(i as int).filter(keep),
        decreases s.len() - i,
    {
        proof {
            lemma_filter_step(s@, i as int, keep);
        }
        let c: char = s[i];
        if ('a' <= c && c <= 'z') || ('A' <= c && c <= 'Z') || ('0' <= c && c <= '9') || c == '_'
            || c == '-' {
            kept.push(c);
        }
        i += 1;
    }
    proof {
        lemma_filter_none(s@, keep);
    }
    if kept.len() > 0 {
        text_of(kept.as_slice())
    } else {
        copy_of("system")
    }
}

/// What is generated.
pub struct SystemRequest {
    pub seed: u32,
    pub planets: Option<u32>,
    pub scene: String,
}

/// What a request comes to.
pub enum StartSystem {
    /// One is being generated already: say so, and do nothing.
    Busy { warning: String },
    /// Generate this, and say so.
    Start { request: SystemRequest, line: String },
}

/// The seed that a request goes by: the typed one, or else the rolled one.
pub open spec fn seed_of(typed: Seq<char>, rolled: u32) -> u32 {
    match number_in(trim(typed), u32::MAX as nat) {
        Some(n) => n as u32,
        None => rolled,
    }
}

/// What a request comes to. Only one system is generated at a time. `rolled` is
/// a seed that was made up, for where none is typed.
pub fn start_system_gen(cfg: &SystemGenCfg, running: bool, rolled: u32) -> (out: StartSystem)
    ensures
        if running {
            out matches StartSystem::Busy { warning } && warning@
                == "🪐 a solar system is already generating"@
        } else {
            out matches StartSystem::Start { request, line } && request.seed == seed_of(
                cfg.seed_text@,
                rolled,
            ) && request.scene@ == scene_name_of(cfg.scene@) && request.planets == (
            if cfg.planets > 0 {
                Some(cfg.planets)
            } else {
                None
            }) && line@ == "🪐 generating solar system \""@ + request.scene@ + "\" (seed "@
                + decimal(request.seed as nat) + ") …"@
        },
{
    if running {
        return StartSystem::Busy { warning: copy_of("🪐 a solar system is already generating") };
    }
    let typed: Vec<char> = chars_of(cfg.seed_text.as_str());
    let seed: u32 = match parse_number(trimmed(typed.as_slice()), u32::MAX as u64) {
        Some(n) => n as u32,
        None => rolled,
    };
    let scene: String = scene_name(cfg.scene.as_str());
    let planets: Option<u32> = if cfg.planets > 0 {
        Some(cfg.planets)
    } else {
        None
    };
    let head: String = joined(
        joined("🪐 generating solar system \"", scene.as_str()).as_str(),
        "\" (seed ",
    );
    let line: String = joined(joined(head.as_str(), decimal_text(seed as u64).as_str()).as_str(), ") …");
    StartSystem::Start { request: SystemRequest { seed, planets, scene }, line }
}

/// What the generator tells.
pub enum SysGenMsg {
    Progress(String),
    /// It is done: the path of the scene, or why there is none.
    Done(Result<String, String>),
}

/// How loud a line is.
#[derive(Clone, Copy, Debug, PartialEq, Eq, Structural)]
pub enum LogLevel {
    Debug,
    Warn,
    Error,
}

/// A line for the console.
pub struct LogLine {
    pub level: LogLevel,
    pub text: String,
}

/// Lines as plain data.
pub open spec fn line_models(v: Seq<LogLine>) -> Seq<(LogLevel, Seq<char>)> {
    v.map_values(|l: LogLine| (l.level, l.text@))
}

/// The lines of progress among `msgs`, in order.
pub open spec fn progress_lines(msgs: Seq<SysGenMsg>) -> Seq<(LogLevel, Seq<char>)>
    decreases msgs.len(),
{
    if msgs.len() == 0 {
        seq![]
    } else {
        let front = progress_lines(msgs.drop_last());
        match msgs.last() {
            SysGenMsg::Progress(l) => front.push((LogLevel::Debug, "🪐 "@ + l@)),
            SysGenMsg::Done(_) => front,
        }
    }
}

/// How the generation ended, as far as `msgs` tell: the last of them that says
/// so.
pub open spec fn ending(msgs: Seq<SysGenMsg>) -> Option<Result<Seq<char>, Seq<char>>>
    decreases msgs.len(),
{
    if msgs.len() == 0 {
        None
    } else {
        match msgs.last() {
            SysGenMsg::Done(Ok(path)) => Some(Ok(path@)),
            SysGenMsg::Done(Err(why)) => Some(Err(why@)),
            SysGenMsg::Progress(_) => ending(msgs.drop_last()),
        }
    }
}

/// The line that tells how the generation ended.
pub open spec fn ending_line(end: Result<Seq<char>, Seq<char>>) -> (LogLevel, Seq<char>) {
    match end {
        Ok(_) => (LogLevel::Debug, "🪐 solar system ready — opening the scene"@),
        Err(why) => (LogLevel::Error, "🪐 system generation failed: "@ + why),
    }
}

/// What a look at the generator comes to.
pub struct SystemPoll {
    /// What to put on the console.
    pub lines: Vec<LogLine>,
    /// Is the generation over?
    pub over: bool,
    /// The scene to open.
    pub open: Option<String>,
}

/// What the messages of the generator come to: their lines first, then how it
/// ended.
pub fn poll_system_gen(msgs: &Vec<SysGenMsg>) -> (out: SystemPoll)
    ensures
        line_models(out.lines@) == match ending(msgs@) {
            Some(end) => progress_lines(msgs@).push(ending_line(end)),
            None => progress_lines(msgs@),
        },
        out.over == (ending(msgs@) is Some),
        opt_text(out.open) == match ending(msgs@) {
            Some(Ok(path)) => Some(path),
            _ => None,
        },
{
    let mut lines: Vec<LogLine> = Vec::new();
    let mut end: Option<Result<String, String>> = None;
    let mut i: usize = 0;
    assert(line_models(lines@) =~= seq![]);
    while i < msgs.len()
        invariant
            i <= msgs.len(),
            line_models(lines@) == progress_lines(msgs@.take(i as int)),
            match (end, ending(msgs@.take(i as int))) {
                (None, None) => true,
                (Some(Ok(a)), Some(Ok(b))) => a@ == b,
                (Some(Err(a)), Some(Err(b))) => a@ == b,
                _ => false,
            },
        decreases msgs.len() - i,
    {
        assert(msgs@.take(i + 1).drop_last() =~= msgs@.take(i as int));
        let ghost was = lines@;
        match &msgs[i] {
            SysGenMsg::Progress(l) => {
                lines.push(LogLine { level: LogLevel::Debug, text: joined("🪐 ", l.as_str()) });
                assert(line_models(lines@) =~= line_models(was).push(
                    (LogLevel::Debug, "🪐 "@ + l@),
                ));
            },
            SysGenMsg::Done(Ok(path)) => {
                end = Some(Ok(copy_of(path.as_str())));
            },
            SysGenMsg::Done(Err(why)) => {
                end = Some(Err(copy_of(why.as_str())));
            },
        }
        i += 1;
    }
    assert(msgs@.take(i as int) =~= msgs@);
    let ghost before = lines@;
    match end {
        Some(Ok(path)) => {
            lines.push(
                LogLine {
                    level: LogLevel::Debug,
                    text: copy_of("🪐 solar system ready — opening the scene"),
                },
            );
            assert(line_models(lines@) =~= line_models(before).push(ending_line(Ok(path@))));
            SystemPoll { lines, over: true, open: Some(path) }
        },
        Some(Err(why)) => {
            let text: String = joined("🪐 system generation failed: ", why.as_str());
            lines.push(LogLine { level: LogLevel::Error, text });
            assert(line_models(lines@) =~= line_models(before).push(ending_line(Err(why@))));
            SystemPoll { lines, over: true, open: None }
        },
        None => SystemPoll { lines, over: false, open: None },
    }
}

/// The name of a scene is never empty, and holds only letters, digits,
/// underscores and hyphens. So it stays in the directory of the scenes.
pub proof fn law_a_scene_name_is_safe(typed: Seq<char>)
    ensures
        scene_name_of(typed).len() > 0,
        forall|i: int|
            0 <= i < scene_name_of(typed).len() ==> is_scene_char(
                #[trigger] scene_name_of(typed)[i],
            ),
{
    reveal_strlit("system");
    let keep = |c: char| is_scene_char(c);
    let kept = typed.filter(keep);
    assert forall|i: int| 0 <= i < scene_name_of(typed).len() implies is_scene_char(
        #[trigger] scene_name_of(typed)[i],
    ) by {
        if kept.len() > 0 {
            assert(keep(kept[i]));
        }
    }
}

/// A name that is safe already is kept as it is typed, and what a name keeps of what was typed
/// is all that is safe in it.
pub proof fn law_a_safe_name_is_kept(typed: Seq<char>, c: char)
    ensures
        typed.len() > 0 && (forall|i: int|
            0 <= i < typed.len() ==> is_scene_char(#[trigger] typed[i])) ==> scene_name_of(typed)
            == typed,
        typed.contains(c) && is_scene_char(c) ==> scene_name_of(typed).contains(c),
        (forall|i: int| 0 <= i < typed.len() ==> !is_scene_char(#[trigger] typed[i]))
            ==> scene_name_of(typed) == "system"@,
{
    let keep = |c: char| is_scene_char(c);
    lemma_filter_holds(typed, keep, c);
    if forall|i: int| 0 <= i < typed.len() ==> is_scene_char(#[trigger] typed[i]) {
        assert forall|i: int| 0 <= i < typed.len() implies keep(#[trigger] typed[i]) by {}
        lemma_all_kept(typed, keep);
    }
    if forall|i: int| 0 <= i < typed.len() ==> !is_scene_char(#[trigger] typed[i]) {
        assert forall|i: int| 0 <= i < typed.len() implies !keep(#[trigger] typed[i]) by {}
        lemma_all_dropped(typed, keep);
    }
    if scene_name_of(typed) != typed.filter(keep) {
        assert(typed.filter(keep).len() == 0);
    }
}

/// Letters, digits, underscores and hyphens are safe, and nothing that parts a path is.
pub proof fn law_no_path_is_in_a_scene_name(c: char)
    ensures
        !is_scene_char('/') && !is_scene_char('\\') && !is_scene_char('.') && !is_scene_char(' '),
        is_scene_char(c) <==> 'a' <= c <= 'z' || 'A' <= c <= 'Z' || '0' <= c <= '9' || c == '_'
            || c == '-',
{
}

/// A seed that is typed is the seed, and what is no number leaves it to the one that was
/// rolled.
pub proof fn law_a_typed_seed_is_used(n: u32, typed: Seq<char>, rolled: u32, other: u32)
    ensures
        trim(typed) == decimal(n as nat) ==> seed_of(typed, rolled) == n,
        trim(typed).len() == 0 ==> seed_of(typed, rolled) == rolled,
        seed_of(typed, rolled) != rolled ==> seed_of(typed, other) == seed_of(typed, rolled),
{
    law_numbers_are_read_up_to_the_bound(n as nat, u32::MAX as nat);
}

/// The last that is told of the end counts, and progress never ends anything. Every line of
/// progress is put on the console, in order, and nothing else of what is told.
pub proof fn law_the_last_end_counts(msgs: Seq<SysGenMsg>, m: SysGenMsg)
    ensures
        ({
            let now = msgs.push(m);
            &&& m matches SysGenMsg::Done(Ok(path)) ==> ending(now) == Some(
                Ok::<Seq<char>, Seq<char>>(path@),
            )
            &&& m matches SysGenMsg::Done(Err(why)) ==> ending(now) == Some(
                Err::<Seq<char>, Seq<char>>(why@),
            )
            &&& m is Progress ==> ending(now) == ending(msgs)
            &&& m is Done ==> progress_lines(now) == progress_lines(msgs)
            &&& m matches SysGenMsg::Progress(l) ==> progress_lines(now) == progress_lines(
                msgs,
            ).push((LogLevel::Debug, "🪐 "@ + l@))
        }),
        ending(Seq::empty()) is None,
        progress_lines(Seq::empty()).len() == 0,
{
    assert(msgs.push(m).drop_last() =~= msgs);
}

/// An end that is a failure is told as one, with the reason; an end that is not is no error.
pub proof fn law_a_failed_system_is_an_error(end: Result<Seq<char>, Seq<char>>)
    ensures
        ending_line(end).0 is Error <==> end is Err,
        end matches Err(why) ==> ending_line(end).1 == "🪐 system generation failed: "@ + why,
        end is Ok ==> ending_line(end).0 is Debug,
{
}

/// One system is generated at a time: while one is, nothing is begun. What begins has the seed
/// and the name that were typed, and as many planets as were asked for, or as many as come.
pub proof fn law_one_system_is_generated_at_a_time(
    cfg: &SystemGenCfg,
    running: bool,
    rolled: u32,
    out: StartSystem,
)
    requires
        call_ensures(start_system_gen, (cfg, running, rolled), out),
    ensures
        out is Busy <==> running,
        out matches StartSystem::Start { request, line } ==> request.seed == seed_of(
            cfg.seed_text@,
            rolled,
        ) && request.scene@ == scene_name_of(cfg.scene@) && (request.planets is None <==> cfg.planets
            == 0) && (request.planets is Some ==> request.planets->Some_0 == cfg.planets),
{
}

/// A system is over exactly where an ending has come; it is opened exactly where that was a good
/// one, and everything that was told before it is told.
pub proof fn law_a_good_ending_is_opened(msgs: &Vec<SysGenMsg>, out: SystemPoll)
    requires
        call_ensures(poll_system_gen, (msgs,), out),
    ensures
        out.over <==> ending(msgs@) is Some,
        out.open is Some <==> ending(msgs@) is Some && ending(msgs@)->Some_0 is Ok,
        out.open matches Some(path) ==> ending(msgs@) == Some(Ok::<Seq<char>, Seq<char>>(path@)),
        progress_lines(msgs@).is_prefix_of(line_models(out.lines@)),
        out.over ==> out.lines@.len() == progress_lines(msgs@).len() + 1,
        !out.over ==> out.lines@.len() == progress_lines(msgs@).len(),
{
    let all = line_models(out.lines@);
    let told = progress_lines(msgs@);
    assert(all.len() == out.lines@.len());
    assert(all.subrange(0, told.len() as int) =~= told);
}

} // verus!
