//! What the tray icon shows: its title, tool tip and menu labels per phase.

use vstd::prelude::*;

use crate::daemon::Phase;

verus! {

/// The human-readable name of a phase.
pub open spec fn label_of(p: Phase) -> Seq<char> {
    match p {
        Phase::Loading => "loading model\u{2026}"@,
        Phase::Idle => "idle"@,
        Phase::Recording => "recording"@,
        Phase::Transcribing => "transcribing\u{2026}"@,
    }
}

/// The human-readable name of a phase (the tool tip's description).
pub fn phase_label(phase: Phase) -> (s: &'static str)
    ensures
        s@ == label_of(phase),
{
    match phase {
        Phase::Loading => "loading model\u{2026}",
        Phase::Idle => "idle",
        Phase::Recording => "recording",
        Phase::Transcribing => "transcribing\u{2026}",
    }
}

/// The tray's title: the program's name and the phase.
pub fn tray_title(phase: Phase) -> (s: String)
    ensures
        s@ == "mynah \u{2014} "@ + label_of(phase),
{
    let mut s = String::from_str("mynah \u{2014} ");
    s.append(phase_label(phase));
    s
}

/// The label of the menu entry that toggles dictation.
pub fn toggle_label(phase: Phase) -> (s: &'static str)
    ensures
        s@ == if phase == Phase::Recording { "Stop & type"@ } else { "Start dictation"@ },
{
    match phase {
        Phase::Recording => "Stop & type",
        _ => "Start dictation",
    }
}

} // verus!
