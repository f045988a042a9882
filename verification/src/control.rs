//! The control socket's protocol: a client writes one command, the daemon
//! answers with one word and, for the commands that act, queues an event.

use vstd::prelude::*;

use crate::daemon::{Event, EventView, Phase};
use crate::text::{string_of, trim, trim_str};

verus! {

/// The word `status` answers for a phase.
pub open spec fn status_word(p: Phase) -> Seq<char> {
    match p {
        Phase::Loading => "loading"@,
        Phase::Idle => "idle"@,
        Phase::Recording => "recording"@,
        Phase::Transcribing => "transcribing"@,
    }
}

/// The event a trimmed request queues and the daemon's reply: `toggle`,
/// `cancel` and `quit` queue their event and answer `ok`; `status` answers
/// the phase; anything else answers `unknown command`.
pub open spec fn control_response(request: Seq<char>, phase: Phase) -> (Option<EventView>, Seq<char>) {
    let t = trim(request);
    if t == "toggle"@ {
        (Some(EventView::Toggle), "ok"@)
    } else if t == "cancel"@ {
        (Some(EventView::Cancel), "ok"@)
    } else if t == "quit"@ {
        (Some(EventView::Quit), "ok"@)
    } else if t == "status"@ {
        (None, status_word(phase))
    } else {
        (None, "unknown command"@)
    }
}

/// The word `status` answers for a phase.
pub fn phase_status(phase: Phase) -> (s: &'static str)
    ensures
        s@ == status_word(phase),
{
    match phase {
        Phase::Loading => "loading",
        Phase::Idle => "idle",
        Phase::Recording => "recording",
        Phase::Transcribing => "transcribing",
    }
}

/// Answers one control request, given the daemon's current phase.
pub fn control_reply(request: &str, phase: Phase) -> (r: (Option<Event>, String))
    ensures
        control_response(request@, phase) == (match r.0 {
            Some(e) => Some(e@),
            None => None,
        }, r.1@),
{
    let t = string_of(&trim_str(request));
    let t = t.as_str();
    if crate::settings::same_text(t, "toggle") {
        (Some(Event::Toggle), String::from_str("ok"))
    } else if crate::settings::same_text(t, "cancel") {
        (Some(Event::Cancel), String::from_str("ok"))
    } else if crate::settings::same_text(t, "quit") {
        (Some(Event::Quit), String::from_str("ok"))
    } else if crate::settings::same_text(t, "status") {
        (None, String::from_str(phase_status(phase)))
    } else {
        (None, String::from_str("unknown command"))
    }
}

} // verus!
