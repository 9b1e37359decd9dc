//! The run of a shipment, from the look for a bundle to the end: what is done
//! next, whatever came of what was done before.

use crate::ship::{
    after_telling, carries_on, carries_on_with, carrying_on_text, is_told, made_from, note_of,
    says, Pending, Progress, ProgressLine, Reporter, ShipFailure, Shipment, SHIPPED,
};
use crate::text::copy_of;
use vstd::prelude::*;

verus! {

// ---- signing in ------------------------------------------------------------

/// How long an earlier session may take to come back, in milliseconds.
pub const SIGN_IN_WAIT: u64 = 10_000;

/// How long it is left alone between two looks.
pub const SIGN_IN_NAP: u64 = 20;

/// What is done about the session.
#[derive(Clone, Copy, Debug, PartialEq, Eq, Structural)]
pub enum SignIn {
    /// It is on its way: look again after a nap.
    Wait,
    /// Somebody is signed in.
    Go,
    /// Nobody is.
    Nobody,
}

/// What is done about the session, `waited` milliseconds after it was asked for.
pub fn sign_in(restoring: bool, waited: u64, signed_in: bool) -> (out: SignIn)
    ensures
        out == if restoring && waited < SIGN_IN_WAIT {
            SignIn::Wait
        } else if signed_in {
            SignIn::Go
        } else {
            SignIn::Nobody
        },
{
    if restoring && waited < SIGN_IN_WAIT {
        SignIn::Wait
    } else if signed_in {
        SignIn::Go
    } else {
        SignIn::Nobody
    }
}

// ---- the run ---------------------------------------------------------------

/// How far a run is.
#[derive(Clone, Copy, Debug, PartialEq, Eq, Structural)]
pub enum Phase {
    /// It looks for the bundle of an earlier run.
    Looking,
    /// It makes the place for a new one.
    Placing,
    Exporting,
    /// It takes the size and the digest of the new bundle.
    Measuring,
    Uploading,
    Over,
}

/// A run of a shipment.
pub struct ShipRun {
    pub phase: Phase,
    pub want: Shipment,
    /// The place of the bundle.
    pub dir: String,
    /// Does a program read along?
    pub json: bool,
    /// The engine that the project names, and the one that this is.
    pub engine: Option<String>,
    pub this_engine: String,
    /// The bundle that goes up.
    pub pending: Option<Pending>,
    pub reporter: Reporter,
}

/// What came of what was done.
pub enum ShipEvent {
    /// The note of an earlier run, as far as there is one that can be read, and
    /// the size of the bundle that lies there.
    Found { previous: Option<Pending>, there: Option<u64> },
    Placed(Result<(), String>),
    Exported(Result<String, String>),
    Measured { size: Option<u64>, sha256: Result<String, String> },
    Told(Progress),
    /// The upload ended: with the number of the build, or with why it did.
    Uploaded(Result<String, String>),
}

/// What is done next.
pub enum ShipAction {
    /// The event was not one of this phase.
    Nothing,
    /// Clears the place of the bundle and makes it anew.
    MakePlace,
    Export,
    Measure { say: Option<String> },
    /// Sends the bundle that is pending. A new one gets its note first.
    Upload { new: bool, say: Option<String> },
    Say(ProgressLine),
    /// Clears the place of the bundle, says so, and ends well.
    Shipped { build: String },
    /// Says why, and ends. The place of the bundle stays as it is.
    Failed(ShipFailure),
}

/// What is said, unless a program reads along.
pub open spec fn said_aloud(say: Option<String>, json: bool, text: Seq<char>) -> bool {
    if json {
        say is None
    } else {
        say matches Some(s) && s@ == text
    }
}

/// The runs `a` and `b` ship the same, in the same way.
pub open spec fn same_task(a: ShipRun, b: ShipRun) -> bool {
    &&& a.want == b.want
    &&& a.dir == b.dir
    &&& a.json == b.json
    &&& a.engine == b.engine
    &&& a.this_engine == b.this_engine
}

/// Is `note` the note of the bundle that was just exported?
pub open spec fn is_note_of(run: ShipRun, note: Pending, size: Option<u64>, sha256: Seq<char>) -> bool {
    &&& made_from(note, run.want)
    &&& note.sha256@ == sha256
    &&& note.size == match size {
        Some(n) => n,
        None => 0,
    }
    &&& note.engine@ == match run.engine {
        Some(e) => e@,
        None => run.this_engine@,
    }
}

/// Is this the step that a run makes?
pub open spec fn is_step(before: ShipRun, event: ShipEvent, after: ShipRun, action: ShipAction) -> bool {
    &&& same_task(after, before)
    &&& match (before.phase, event) {
        (Phase::Looking, ShipEvent::Found { previous, there }) => {
            &&& after.reporter == before.reporter
            &&& if carries_on_with(previous, before.want, there) {
                &&& after.phase == Phase::Uploading
                &&& after.pending == previous
                &&& action matches ShipAction::Upload { new, say } && !new && said_aloud(
                    say,
                    before.json,
                    "the project has not changed since the last try: carrying on with that bundle"@,
                )
            } else {
                &&& after.phase == Phase::Placing
                &&& after.pending is None
                &&& action is MakePlace
            }
        },
        (Phase::Placing, ShipEvent::Placed(outcome)) => {
            &&& after.pending == before.pending
            &&& after.reporter == before.reporter
            &&& match outcome {
                Ok(_) => after.phase == Phase::Exporting && action is Export,
                Err(why) => after.phase == Phase::Over && (action matches ShipAction::Failed(
                    ShipFailure::NoPlace { dir, why: w },
                ) && dir@ == before.dir@ && w == why),
            }
        },
        (Phase::Exporting, ShipEvent::Exported(outcome)) => {
            &&& after.pending == before.pending
            &&& after.reporter == before.reporter
            &&& match outcome {
                Ok(message) => after.phase == Phase::Measuring && (
                action matches ShipAction::Measure { say } && said_aloud(
                    say,
                    before.json,
                    message@,
                )),
                Err(why) => after.phase == Phase::Over && action == ShipAction::Failed(
                    ShipFailure::Export { why },
                ),
            }
        },
        (Phase::Measuring, ShipEvent::Measured { size, sha256 }) => {
            &&& after.reporter == before.reporter
            &&& match sha256 {
                Ok(digest) => after.phase == Phase::Uploading && (after.pending matches Some(note)
                    && is_note_of(before, note, size, digest@)) && (
                action matches ShipAction::Upload { new, say } && new && say is None),
                Err(why) => after.phase == Phase::Over && after.pending == before.pending && action
                    == ShipAction::Failed(ShipFailure::Export { why }),
            }
        },
        (Phase::Uploading, ShipEvent::Told(p)) => {
            &&& after.phase == Phase::Uploading
            &&& after.pending == before.pending
            &&& after.reporter == after_telling(before.reporter, p)
            &&& if is_told(before.reporter, p) {
                action matches ShipAction::Say(line) && says(line, p)
            } else {
                action is Nothing
            }
        },
        (Phase::Uploading, ShipEvent::Uploaded(outcome)) => {
            &&& after.phase == Phase::Over
            &&& after.pending == before.pending
            &&& after.reporter == before.reporter
            &&& match outcome {
                Ok(build) => action == (ShipAction::Shipped { build }),
                Err(why) => action == ShipAction::Failed(ShipFailure::Upload { why }),
            }
        },
        _ => after == before && action is Nothing,
    }
}

/// Can the event be counted in tenths?
pub open spec fn event_fits(event: ShipEvent) -> bool {
    event matches ShipEvent::Told(Progress::Sent { sent, .. }) ==> sent * 10 <= u64::MAX
}

/// A text, unless a program reads along.
fn aloud(json: bool, text: &str) -> (out: Option<String>)
    ensures
        said_aloud(out, json, text@),
{
    if json {
        None
    } else {
        Some(copy_of(text))
    }
}

impl ShipRun {
    /// A run begins by looking for the bundle of an earlier one.
    pub fn start(
        want: Shipment,
        dir: &str,
        json: bool,
        engine: Option<String>,
        this_engine: &str,
    ) -> (out: ShipRun)
        ensures
            out.phase == Phase::Looking,
            out.want == want,
            out.dir@ == dir@,
            out.json == json,
            out.engine == engine,
            out.this_engine@ == this_engine@,
            out.pending is None,
            out.reporter == (Reporter { json, last_tenth: u64::MAX }),
    {
        ShipRun {
            phase: Phase::Looking,
            want,
            dir: copy_of(dir),
            json,
            engine,
            this_engine: copy_of(this_engine),
            pending: None,
            reporter: Reporter::new(json),
        }
    }

    /// What is done next, now that this came of what was done before.
    pub fn step(&mut self, event: ShipEvent) -> (out: ShipAction)
        requires
            event_fits(event),
        ensures
            is_step(*old(self), event, *final(self), out),
    {
        match (self.phase, event) {
            (Phase::Looking, ShipEvent::Found { previous, there }) => {
                if carries_on(&previous, &self.want, there) {
                    self.phase = Phase::Uploading;
                    self.pending = previous;
                    ShipAction::Upload { new: false, say: aloud(self.json, carrying_on_text()) }
                } else {
                    self.phase = Phase::Placing;
                    self.pending = None;
                    ShipAction::MakePlace
                }
            },
            (Phase::Placing, ShipEvent::Placed(outcome)) => match outcome {
                Ok(_) => {
                    self.phase = Phase::Exporting;
                    ShipAction::Export
                },
                Err(why) => {
                    self.phase = Phase::Over;
                    ShipAction::Failed(
                        ShipFailure::NoPlace { dir: copy_of(self.dir.as_str()), why },
                    )
                },
            },
            (Phase::Exporting, ShipEvent::Exported(outcome)) => match outcome {
                Ok(message) => {
                    self.phase = Phase::Measuring;
                    ShipAction::Measure { say: aloud(self.json, message.as_str()) }
                },
                Err(why) => {
                    self.phase = Phase::Over;
                    ShipAction::Failed(ShipFailure::Export { why })
                },
            },
            (Phase::Measuring, ShipEvent::Measured { size, sha256 }) => match sha256 {
                Ok(digest) => {
                    let n: u64 = match size {
                        Some(n) => n,
                        None => 0,
                    };
                    let note: Pending = note_of(
                        &self.want,
                        digest.as_str(),
                        n,
                        &self.engine,
                        self.this_engine.as_str(),
                    );
                    self.phase = Phase::Uploading;
                    self.pending = Some(note);
                    ShipAction::Upload { new: true, say: None }
                },
                Err(why) => {
                    self.phase = Phase::Over;
                    ShipAction::Failed(ShipFailure::Export { why })
                },
            },
            (Phase::Uploading, ShipEvent::Told(p)) => match self.reporter.tell(&p) {
                Some(line) => ShipAction::Say(line),
                None => ShipAction::Nothing,
            },
            (Phase::Uploading, ShipEvent::Uploaded(outcome)) => {
                self.phase = Phase::Over;
                match outcome {
                    Ok(build) => ShipAction::Shipped { build },
                    Err(why) => ShipAction::Failed(ShipFailure::Upload { why }),
                }
            },
            _ => ShipAction::Nothing,
        }
    }
}

/// The code with which a run ends, once it does.
pub open spec fn end_code(action: ShipAction) -> Option<i32> {
    match action {
        ShipAction::Shipped { .. } => Some(SHIPPED),
        ShipAction::Failed(f) => Some(f.code()),
        _ => None,
    }
}

/// The code with which a run ends, once it does.
pub fn exit_code(action: &ShipAction) -> (out: Option<i32>)
    ensures
        out == end_code(*action),
{
    match action {
        ShipAction::Shipped { .. } => Some(SHIPPED),
        ShipAction::Failed(f) => Some(f.exit_code()),
        _ => None,
    }
}

/// A killed upload carries on: the next run of the same shipment sends the very
/// bundle that the note of the first one names, and exports nothing.
pub proof fn law_the_next_run_sends_the_same_bundle(
    before: ShipRun,
    event: ShipEvent,
    after: ShipRun,
    action: ShipAction,
    note: Pending,
)
    requires
        before.phase == Phase::Looking,
        made_from(note, before.want),
        !before.want.fresh,
        event == (ShipEvent::Found { previous: Some(note), there: Some(note.size) }),
        is_step(before, event, after, action),
    ensures
        action is Upload,
        after.pending == Some(note),
{
}

/// What is sent was made from the project as it is: the note of the bundle that
/// goes up always matches the shipment.
pub proof fn law_what_is_sent_is_what_was_asked_for(
    before: ShipRun,
    event: ShipEvent,
    after: ShipRun,
    action: ShipAction,
)
    requires
        is_step(before, event, after, action),
        action is Upload,
    ensures
        after.pending matches Some(note) && made_from(note, after.want),
{
}

/// A run ends well only where the upload did, and every step leads on to the
/// next phase: a run has an end.
pub proof fn law_only_an_upload_ends_well(
    before: ShipRun,
    event: ShipEvent,
    after: ShipRun,
    action: ShipAction,
)
    requires
        is_step(before, event, after, action),
    ensures
        end_code(action) == Some(SHIPPED) <==> before.phase == Phase::Uploading && (
        event matches ShipEvent::Uploaded(outcome) && outcome is Ok),
        end_code(action) is Some ==> after.phase == Phase::Over,
        before.phase == Phase::Over ==> after == before && action is Nothing,
        phase_number(after.phase) >= phase_number(before.phase),
{
}

/// The phases in the order in which a run goes through them.
pub open spec fn phase_number(p: Phase) -> int {
    match p {
        Phase::Looking => 0,
        Phase::Placing => 1,
        Phase::Exporting => 2,
        Phase::Measuring => 3,
        Phase::Uploading => 4,
        Phase::Over => 5,
    }
}

/// A run goes from one phase to the next: it makes a place where there is nothing to carry on
/// with, exports once there is one, measures what was exported, and sends what was measured.
pub proof fn law_a_run_goes_from_phase_to_phase(
    before: ShipRun,
    event: ShipEvent,
    after: ShipRun,
    action: ShipAction,
)
    requires
        is_step(before, event, after, action),
    ensures
        action is MakePlace ==> before.phase == Phase::Looking && after.phase == Phase::Placing,
        action is Export <==> before.phase == Phase::Placing && (event matches ShipEvent::Placed(o)
            && o is Ok),
        action is Measure <==> before.phase == Phase::Exporting && (
        event matches ShipEvent::Exported(o) && o is Ok),
        action matches ShipAction::Upload { new, .. } ==> (new <==> before.phase
            == Phase::Measuring) && (!new <==> before.phase == Phase::Looking) && after.phase
            == Phase::Uploading,
        action is Shipped ==> before.phase == Phase::Uploading && after.phase == Phase::Over,
        action is Say ==> before.phase == Phase::Uploading && after.phase == Phase::Uploading,
        action matches ShipAction::Shipped { build } ==> event == ShipEvent::Uploaded(Ok(build)),
{
}

/// A run fails for the reason that it was given, and by the kind of what failed.
pub proof fn law_a_run_fails_for_its_reason(
    before: ShipRun,
    event: ShipEvent,
    after: ShipRun,
    action: ShipAction,
)
    requires
        is_step(before, event, after, action),
        action is Failed,
    ensures
        after.phase == Phase::Over,
        after.pending == before.pending,
        action->Failed_0 matches ShipFailure::NoPlace { dir, why } ==> before.phase
            == Phase::Placing && dir@ == before.dir@ && event == ShipEvent::Placed(Err(why)),
        action->Failed_0 matches ShipFailure::Export { why } ==> event == ShipEvent::Exported(
            Err(why),
        ) || (event matches ShipEvent::Measured { sha256, .. } && sha256 == Err::<String, String>(
            why,
        )),
        action->Failed_0 matches ShipFailure::Upload { why } ==> event == ShipEvent::Uploaded(
            Err(why),
        ),
        action->Failed_0 is NoPlace || action->Failed_0 is Export || action->Failed_0 is Upload,
        action->Failed_0 is Upload <==> before.phase == Phase::Uploading,
        action->Failed_0 is NoPlace <==> before.phase == Phase::Placing,
{
}

/// Where a program reads along nothing is said before the end.
pub proof fn law_a_program_reads_in_silence(
    before: ShipRun,
    event: ShipEvent,
    after: ShipRun,
    action: ShipAction,
)
    requires
        is_step(before, event, after, action),
        before.json,
        before.reporter.json,
    ensures
        after.json && after.reporter.json,
        !(action is Say),
        action matches ShipAction::Measure { say } ==> say is None,
        action matches ShipAction::Upload { say, .. } ==> say is None,
{
}

/// Where a person reads along, what was exported is told, and that a bundle is carried on with.
pub proof fn law_a_person_is_told_what_happens(
    before: ShipRun,
    event: ShipEvent,
    after: ShipRun,
    action: ShipAction,
)
    requires
        is_step(before, event, after, action),
        !before.json,
    ensures
        action matches ShipAction::Measure { say } ==> say is Some && (
        event matches ShipEvent::Exported(Ok(message)) && say->Some_0@ == message@),
        action matches ShipAction::Upload { new, say } ==> (say is Some <==> !new),
{
}

/// The note of a new bundle says what was measured, and which engine it is for.
pub proof fn law_a_note_says_what_was_measured(
    before: ShipRun,
    event: ShipEvent,
    after: ShipRun,
    action: ShipAction,
)
    requires
        is_step(before, event, after, action),
        action matches ShipAction::Upload { new, .. } && new,
    ensures
        after.pending matches Some(note) && (event matches ShipEvent::Measured { size, sha256 } && (
        sha256 matches Ok(d) && note.sha256@ == d@) && (size is Some ==> size == Some(note.size))
            && (size is None ==> note.size == 0)) && (before.engine matches Some(e) ==> note.engine@
            == e@) && (before.engine is None ==> note.engine@ == before.this_engine@),
{
}

/// An earlier session is waited for as long as it is on its way and the time is not up; then
/// the run goes on exactly where somebody is signed in.
pub proof fn law_a_session_is_waited_for(
    restoring: bool,
    waited: u64,
    signed_in: bool,
    out: SignIn,
)
    requires
        call_ensures(sign_in, (restoring, waited, signed_in), out),
    ensures
        out is Wait <==> restoring && waited < SIGN_IN_WAIT,
        out is Go ==> signed_in,
        out is Nobody ==> !signed_in,
        !restoring ==> (out is Go <==> signed_in),
        waited >= SIGN_IN_WAIT ==> (out is Nobody <==> !signed_in),
{
}

} // verus!
