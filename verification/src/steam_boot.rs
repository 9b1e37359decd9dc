//! Whether a session talks to Steam, and as which app.

use crate::text::{decimal, decimal_text, joined};
use vstd::prelude::*;

verus! {

/// What a project says of Steam.
#[derive(Clone, Copy, Debug, PartialEq, Eq, Structural)]
pub struct SteamProjectSettings {
    pub app_id: u32,
}

/// The app that stands in for one that has no number yet.
pub const SPACEWAR: u32 = 480;

/// The app as which a session talks to Steam, or `None` where it leaves Steam
/// alone.
///
/// A project that has a number goes by it. One that speaks of Steam without a
/// number goes by the stand-in, and so does one that does not speak of it where
/// that is forced.
pub fn resolve_app_id(steam: Option<SteamProjectSettings>, force: bool) -> (out: Option<u32>)
    ensures
        out == match steam {
            Some(s) => if s.app_id != 0 {
                Some(s.app_id)
            } else {
                Some(SPACEWAR)
            },
            None => if force {
                Some(SPACEWAR)
            } else {
                None
            },
        },
{
    match steam {
        Some(s) => if s.app_id != 0 {
            Some(s.app_id)
        } else {
            Some(SPACEWAR)
        },
        None => if force {
            Some(SPACEWAR)
        } else {
            None
        },
    }
}

/// A build that says nothing of Steam and does not force it never talks to it.
pub proof fn law_a_build_without_steam_leaves_it_alone(
    steam: Option<SteamProjectSettings>,
    force: bool,
    out: Option<u32>,
)
    requires
        call_ensures(resolve_app_id, (steam, force), out),
    ensures
        out is None <==> steam is None && !force,
        out is Some ==> out->Some_0 != 0,
{
}

/// How it went to talk to Steam.
pub enum BootOutcome {
    /// Steam starts the program anew.
    Restart,
    Ready,
    /// It did not work, most often because Steam is not running.
    Failed { why: String },
    /// This program was built without it.
    NotBuilt,
}

/// What follows.
pub enum BootStep {
    /// The program ends at once, and well.
    Exit,
    /// It goes on with Steam, and says so.
    With { say: String },
    /// It goes on without, and says why.
    Without { warn: String },
}

/// What follows from how it went to talk to Steam as the app `app_id`. A game
/// goes on without it, whatever went wrong.
pub fn boot(app_id: u32, outcome: &BootOutcome) -> (out: BootStep)
    ensures
        match *outcome {
            BootOutcome::Restart => out is Exit,
            BootOutcome::Ready => out matches BootStep::With { say } && say@
                == "steam: initialized (app "@ + decimal(app_id as nat) + ")"@,
            BootOutcome::Failed { why } => out matches BootStep::Without { warn } && warn@
                == "steam: could not initialize ("@ + why@ + ") — continuing without it"@,
            BootOutcome::NotBuilt => out matches BootStep::Without { warn } && warn@
                == "steam: this build has no `steam` feature compiled in — app "@ + decimal(
                app_id as nat,
            ) + " requested, continuing without it"@,
        },
{
    match outcome {
        BootOutcome::Restart => BootStep::Exit,
        BootOutcome::Ready => BootStep::With {
            say: joined(
                joined("steam: initialized (app ", decimal_text(app_id as u64).as_str()).as_str(),
                ")",
            ),
        },
        BootOutcome::Failed { why } => BootStep::Without {
            warn: joined(
                joined("steam: could not initialize (", why.as_str()).as_str(),
                ") — continuing without it",
            ),
        },
        BootOutcome::NotBuilt => BootStep::Without {
            warn: joined(
                joined(
                    "steam: this build has no `steam` feature compiled in — app ",
                    decimal_text(app_id as u64).as_str(),
                ).as_str(),
                " requested, continuing without it",
            ),
        },
    }
}

/// A project that has a number is that app, whether or not anything is forced; every other that
/// talks to Steam at all is the stand-in.
pub proof fn law_a_project_goes_by_its_own_number(
    steam: Option<SteamProjectSettings>,
    force: bool,
    out: Option<u32>,
)
    requires
        call_ensures(resolve_app_id, (steam, force), out),
    ensures
        steam matches Some(s) ==> (s.app_id != 0 ==> out == Some(s.app_id)),
        steam matches Some(s) ==> (s.app_id == 0 ==> out == Some(SPACEWAR)),
        steam is None && force ==> out == Some(SPACEWAR),
{
}

/// The program ends only where Steam starts it anew, and talks to Steam only where that is
/// ready; whatever went wrong, it goes on without and says why.
pub proof fn law_a_game_goes_on_without_steam(app_id: u32, outcome: BootOutcome, out: BootStep)
    requires
        call_ensures(boot, (app_id, &outcome), out),
    ensures
        out is Exit <==> outcome is Restart,
        out is With <==> outcome is Ready,
        out is Without <==> outcome is Failed || outcome is NotBuilt,
{
}

} // verus!
