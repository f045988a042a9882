//! The daemon's state machine. Events (hotkey toggles, model readiness,
//! transcripts, streaming deltas) drive the phase; each step says which
//! actions the caller must perform, in order: start or stop the microphone,
//! show the overlay, type text, notify the user, or exit.

use vstd::prelude::*;

use crate::text::{trim, trim_str, string_of};

verus! {

/// Where the daemon is in its recording cycle.
#[derive(Clone, Copy, PartialEq, Eq, Structural, Debug)]
pub enum Phase {
    Loading,
    Idle,
    Recording,
    Transcribing,
}

/// Events that drive the main state machine.
#[derive(Debug)]
pub enum Event {
    /// Start recording, or stop and transcribe.
    Toggle,
    /// Discard the current recording.
    Cancel,
    /// The speech model has loaded.
    ModelReady,
    /// A batch transcript, or the error message of a failed transcription.
    Transcribed(Result<String, String>),
    /// Streaming: newly committed text to type right now.
    StreamDelta(String),
    /// Streaming: session finished (after finalize or abort).
    StreamDone,
    /// Stop the daemon.
    Quit,
}

/// An event with its text as character sequences.
pub enum EventView {
    Toggle,
    Cancel,
    ModelReady,
    Transcribed(Result<Seq<char>, Seq<char>>),
    StreamDelta(Seq<char>),
    StreamDone,
    Quit,
}

impl View for Event {
    type V = EventView;

    open spec fn view(&self) -> EventView {
        match self {
            Event::Toggle => EventView::Toggle,
            Event::Cancel => EventView::Cancel,
            Event::ModelReady => EventView::ModelReady,
            Event::Transcribed(Ok(t)) => EventView::Transcribed(Ok(t@)),
            Event::Transcribed(Err(e)) => EventView::Transcribed(Err(e@)),
            Event::StreamDelta(t) => EventView::StreamDelta(t@),
            Event::StreamDone => EventView::StreamDone,
            Event::Quit => EventView::Quit,
        }
    }
}

/// What the caller performs for a step, in order.
#[derive(Debug)]
pub enum Action {
    /// Publish the new phase (tray icon, control socket).
    SetPhase(Phase),
    /// Show a desktop notification.
    Notify(String),
    /// Open a live transcription stream.
    StreamStart,
    /// Finish the live stream (its final text is still typed).
    StreamEnd,
    /// Drop the live stream.
    StreamAbort,
    /// Start the microphone; `live` hands its chunks to the open stream. The
    /// outcome goes back through `Daemon::capture_started`.
    StartCapture { live: bool },
    /// Stop the microphone, keeping what it recorded.
    StopCapture,
    /// Transcribe what the microphone recorded.
    Transcribe,
    /// Show the recording overlay.
    ShowOverlay,
    /// Switch the overlay to its transcribing look.
    OverlayTranscribing,
    /// Close the overlay.
    CloseOverlay,
    /// Type streamed text now; a failure is only logged.
    TypeDelta(String),
    /// Type a finished transcript; report a failure through `Daemon::typing_failed`.
    TypeText(String),
    /// Leave the event loop (after stopping the microphone if asked above).
    Exit,
}

/// An action with its text as a character sequence.
pub enum ActionView {
    SetPhase(Phase),
    Notify(Seq<char>),
    StreamStart,
    StreamEnd,
    StreamAbort,
    StartCapture { live: bool },
    StopCapture,
    Transcribe,
    ShowOverlay,
    OverlayTranscribing,
    CloseOverlay,
    TypeDelta(Seq<char>),
    TypeText(Seq<char>),
    Exit,
}

impl View for Action {
    type V = ActionView;

    open spec fn view(&self) -> ActionView {
        match self {
            Action::SetPhase(p) => ActionView::SetPhase(*p),
            Action::Notify(m) => ActionView::Notify(m@),
            Action::StreamStart => ActionView::StreamStart,
            Action::StreamEnd => ActionView::StreamEnd,
            Action::StreamAbort => ActionView::StreamAbort,
            Action::StartCapture { live } => ActionView::StartCapture { live: *live },
            Action::StopCapture => ActionView::StopCapture,
            Action::Transcribe => ActionView::Transcribe,
            Action::ShowOverlay => ActionView::ShowOverlay,
            Action::OverlayTranscribing => ActionView::OverlayTranscribing,
            Action::CloseOverlay => ActionView::CloseOverlay,
            Action::TypeDelta(t) => ActionView::TypeDelta(t@),
            Action::TypeText(t) => ActionView::TypeText(t@),
            Action::Exit => ActionView::Exit,
        }
    }
}

/// The views of a list of actions.
pub open spec fn action_views(actions: Seq<Action>) -> Seq<ActionView> {
    actions.map_values(|a: Action| a@)
}

/// The daemon's state: its phase, whether it streams live, and whether the
/// microphone is running.
pub struct DaemonState {
    pub phase: Phase,
    pub stream_mode: bool,
    pub capturing: bool,
}

/// The microphone runs exactly while recording.
pub open spec fn consistent(s: DaemonState) -> bool {
    s.capturing <==> s.phase == Phase::Recording
}

/// Notice shown for a hotkey press while the model loads.
pub open spec fn still_loading_notice() -> Seq<char> {
    "Model still loading, try again in a moment"@
}

/// Opening words of the notice for a failed microphone start.
pub open spec fn capture_failed_lead() -> Seq<char> {
    "Mic capture failed: "@
}

/// Opening words of the notice for a failed transcription.
pub open spec fn transcription_failed_lead() -> Seq<char> {
    "Transcription failed: "@
}

/// Opening words of the notice for failed typing.
pub open spec fn typing_failed_lead() -> Seq<char> {
    "Typing failed: "@
}

/// The next state and the actions, in order, for an event.
pub open spec fn step(s: DaemonState, ev: EventView) -> (DaemonState, Seq<ActionView>) {
    match (s.phase, ev) {
        (_, EventView::Quit) => (s, if s.capturing {
            seq![ActionView::StopCapture, ActionView::Exit]
        } else {
            seq![ActionView::Exit]
        }),
        (Phase::Loading, EventView::ModelReady) => (
            DaemonState { phase: Phase::Idle, ..s },
            seq![ActionView::SetPhase(Phase::Idle)],
        ),
        (Phase::Loading, EventView::Toggle) => (s, seq![ActionView::Notify(still_loading_notice())]),
        (Phase::Idle, EventView::Toggle) => (s, if s.stream_mode {
            seq![ActionView::StreamStart, ActionView::StartCapture { live: true }]
        } else {
            seq![ActionView::StartCapture { live: false }]
        }),
        (Phase::Recording, EventView::Toggle) => (
            DaemonState { phase: Phase::Transcribing, capturing: false, ..s },
            seq![
                ActionView::StopCapture,
                ActionView::OverlayTranscribing,
                ActionView::SetPhase(Phase::Transcribing),
                if s.stream_mode { ActionView::StreamEnd } else { ActionView::Transcribe },
            ],
        ),
        (Phase::Recording, EventView::Cancel) => (
            DaemonState { phase: Phase::Idle, capturing: false, ..s },
            if s.stream_mode {
                seq![ActionView::StopCapture, ActionView::StreamAbort, ActionView::CloseOverlay, ActionView::SetPhase(Phase::Idle)]
            } else {
                seq![ActionView::StopCapture, ActionView::CloseOverlay, ActionView::SetPhase(Phase::Idle)]
            },
        ),
        (Phase::Recording, EventView::StreamDelta(t)) => (s, seq![ActionView::TypeDelta(t)]),
        (Phase::Transcribing, EventView::StreamDelta(t)) => (s, seq![ActionView::TypeDelta(t)]),
        (Phase::Transcribing, EventView::StreamDone) => (
            DaemonState { phase: Phase::Idle, ..s },
            seq![ActionView::CloseOverlay, ActionView::SetPhase(Phase::Idle)],
        ),
        (Phase::Transcribing, EventView::Transcribed(res)) => (
            DaemonState { phase: Phase::Idle, ..s },
            seq![ActionView::CloseOverlay, ActionView::SetPhase(Phase::Idle)] + match res {
                Ok(t) => if trim(t).len() > 0 {
                    seq![ActionView::TypeText(trim(t))]
                } else {
                    Seq::empty()
                },
                Err(e) => seq![ActionView::Notify(transcription_failed_lead() + e)],
            },
        ),
        _ => (s, Seq::empty()),
    }
}

/// The state after the microphone start that `StartCapture` asked for
/// succeeded (`Ok`) or failed with a message, and the actions that follow.
pub open spec fn capture_step(s: DaemonState, outcome: Result<(), Seq<char>>) -> (DaemonState, Seq<ActionView>) {
    match outcome {
        Ok(_) => (
            DaemonState { phase: Phase::Recording, capturing: true, ..s },
            seq![ActionView::ShowOverlay, ActionView::SetPhase(Phase::Recording)],
        ),
        Err(e) => (s, if s.stream_mode {
            seq![ActionView::Notify(capture_failed_lead() + e), ActionView::StreamAbort]
        } else {
            seq![ActionView::Notify(capture_failed_lead() + e)]
        }),
    }
}


/// Whether an action publishes a phase.
pub open spec fn is_set_phase(a: ActionView) -> bool {
    a matches ActionView::SetPhase(_)
}

/// The published phase tracks the daemon's phase: a step that changes the
/// phase publishes the new one and no other, and a step that keeps it
/// publishes nothing.
pub open spec fn publishes_phase(before: DaemonState, after: DaemonState, actions: Seq<ActionView>) -> bool {
    &&& before.phase != after.phase ==> actions.contains(ActionView::SetPhase(after.phase))
    &&& forall|i: int| 0 <= i < actions.len() && is_set_phase(#[trigger] actions[i])
        ==> before.phase != after.phase && actions[i] == ActionView::SetPhase(after.phase)
}

/// The microphone runs exactly while recording, after every event and after
/// every microphone start.
pub proof fn lemma_consistent_preserved(s: DaemonState, ev: EventView, outcome: Result<(), Seq<char>>)
    requires
        consistent(s),
    ensures
        consistent(step(s, ev).0),
        s.phase == Phase::Idle ==> consistent(capture_step(s, outcome).0),
        step(s, ev).0.stream_mode == s.stream_mode,
        capture_step(s, outcome).0.stream_mode == s.stream_mode,
{
}

/// The phase shown by the tray and the control socket follows every change:
/// each step that changes the phase publishes exactly the new phase.
pub proof fn lemma_phase_published(s: DaemonState, ev: EventView, outcome: Result<(), Seq<char>>)
    requires
        consistent(s),
    ensures
        publishes_phase(s, step(s, ev).0, step(s, ev).1),
        s.phase == Phase::Idle ==> publishes_phase(s, capture_step(s, outcome).0, capture_step(s, outcome).1),
{
    let (t, acts) = step(s, ev);
    if s.phase != t.phase {
        match (s.phase, ev) {
            (Phase::Loading, EventView::ModelReady) => assert(acts[0] == ActionView::SetPhase(t.phase)),
            (Phase::Recording, EventView::Toggle) => assert(acts[2] == ActionView::SetPhase(t.phase)),
            (Phase::Recording, EventView::Cancel) => assert(acts[acts.len() - 1] == ActionView::SetPhase(t.phase)),
            (Phase::Transcribing, EventView::StreamDone) => assert(acts[1] == ActionView::SetPhase(t.phase)),
            (Phase::Transcribing, EventView::Transcribed(_)) => assert(acts[1] == ActionView::SetPhase(t.phase)),
            _ => {},
        }
    }
    if s.phase == Phase::Idle {
        let (u, cacts) = capture_step(s, outcome);
        if s.phase != u.phase {
            assert(cacts[1] == ActionView::SetPhase(u.phase));
        }
    }
}

/// `Quit` always ends the event loop, stopping the microphone first when it runs.
pub proof fn lemma_quit_exits(s: DaemonState)
    ensures
        step(s, EventView::Quit).0 == s,
        step(s, EventView::Quit).1.last() == ActionView::Exit,
        step(s, EventView::Quit).1.contains(ActionView::StopCapture) <==> s.capturing,
{
    let acts = step(s, EventView::Quit).1;
    if s.capturing {
        assert(acts[0] == ActionView::StopCapture);
    }
}

/// The microphone is started only from `Idle`, and stopped exactly when a
/// recording ends, so it is never left running nor stopped twice.
pub proof fn lemma_microphone_paired(s: DaemonState, ev: EventView)
    requires
        consistent(s),
    ensures
        (forall|i: int| 0 <= i < step(s, ev).1.len() ==> (#[trigger] step(s, ev).1[i] matches ActionView::StartCapture { .. })
            ==> s.phase == Phase::Idle && step(s, ev).0 == s),
        step(s, ev).1.contains(ActionView::StopCapture) <==> (s.capturing && (!step(s, ev).0.capturing || ev is Quit)),
{
    let (t, acts) = step(s, ev);
    if s.capturing && (!t.capturing || ev is Quit) {
        assert(acts[0] == ActionView::StopCapture);
    }
}

/// Only the model becoming ready ends the loading phase.
pub proof fn lemma_loading_ends_on_model_ready(s: DaemonState, ev: EventView)
    requires
        s.phase == Phase::Loading,
        step(s, ev).0.phase != Phase::Loading,
    ensures
        ev is ModelReady,
{
}

/// A finished transcript is typed only when something is left after trimming.
pub proof fn lemma_types_only_text(s: DaemonState, ev: EventView)
    ensures
        forall|i: int| 0 <= i < step(s, ev).1.len() ==> (#[trigger] step(s, ev).1[i] matches ActionView::TypeText(t) ==> t.len() > 0),
{
}

/// `Cancel` discards a recording: the daemon goes back to idle, closes the
/// overlay, and neither transcribes, finishes a stream nor types anything.
pub proof fn lemma_cancel_discards(s: DaemonState)
    requires
        s.phase == Phase::Recording,
    ensures
        step(s, EventView::Cancel).0.phase == Phase::Idle,
        !step(s, EventView::Cancel).0.capturing,
        step(s, EventView::Cancel).1.contains(ActionView::CloseOverlay),
        step(s, EventView::Cancel).1.contains(ActionView::StopCapture),
        forall|i: int| 0 <= i < step(s, EventView::Cancel).1.len() ==> {
            &&& !(#[trigger] step(s, EventView::Cancel).1[i] is Transcribe)
            &&& !(step(s, EventView::Cancel).1[i] is StreamEnd)
            &&& !(step(s, EventView::Cancel).1[i] is TypeText)
            &&& !(step(s, EventView::Cancel).1[i] is TypeDelta)
        },
{
    let acts = step(s, EventView::Cancel).1;
    assert(acts[0] == ActionView::StopCapture);
    if s.stream_mode {
        assert(acts[2] == ActionView::CloseOverlay);
    } else {
        assert(acts[1] == ActionView::CloseOverlay);
    }
}

/// The daemon's recording state machine.
pub struct Daemon {
    phase: Phase,
    stream_mode: bool,
    capturing: bool,
}

impl View for Daemon {
    type V = DaemonState;

    closed spec fn view(&self) -> DaemonState {
        DaemonState { phase: self.phase, stream_mode: self.stream_mode, capturing: self.capturing }
    }
}

/// A string holding a literal's text.
fn text(s: &str) -> (r: String)
    ensures
        r@ == s@,
{
    String::from_str(s)
}

/// `lead` followed by `rest`.
fn joined(lead: &str, rest: &str) -> (r: String)
    ensures
        r@ == lead@ + rest@,
{
    let mut r = String::from_str(lead);
    r.append(rest);
    r
}

impl Daemon {
    #[verifier::type_invariant]
    spec fn inv(self) -> bool {
        consistent(self@)
    }

    /// A daemon waiting for its model, streaming live when `stream_mode` is set.
    pub fn new(stream_mode: bool) -> (d: Daemon)
        ensures
            d@ == (DaemonState { phase: Phase::Loading, stream_mode, capturing: false }),
    {
        Daemon { phase: Phase::Loading, stream_mode, capturing: false }
    }

    /// The current phase.
    pub fn phase(&self) -> (p: Phase)
        ensures
            p == self@.phase,
    {
        self.phase
    }

    /// Whether transcripts are streamed live while recording.
    pub fn stream_mode(&self) -> (b: bool)
        ensures
            b == self@.stream_mode,
    {
        self.stream_mode
    }

    /// Whether the microphone is running.
    pub fn capturing(&self) -> (b: bool)
        ensures
            b == self@.capturing,
            b <==> self@.phase == Phase::Recording,
    {
        proof {
            use_type_invariant(self);
        }
        self.capturing
    }

    /// Takes one event: updates the phase and returns the actions to perform.
    pub fn handle(&mut self, event: Event) -> (actions: Vec<Action>)
        ensures
            (final(self)@, action_views(actions@)) == step(old(self)@, event@),
    {
        proof {
            use_type_invariant(&*self);
        }
        let ghost ev = event@;
        let mut actions: Vec<Action> = Vec::new();
        match event {
            Event::Quit => {
                if self.capturing {
                    actions.push(Action::StopCapture);
                }
                actions.push(Action::Exit);
            },
            Event::ModelReady => {
                if self.phase == Phase::Loading {
                    self.phase = Phase::Idle;
                    actions.push(Action::SetPhase(Phase::Idle));
                }
            },
            Event::Toggle => {
                match self.phase {
                    Phase::Loading => {
                        actions.push(Action::Notify(text("Model still loading, try again in a moment")));
                    },
                    Phase::Idle => {
                        if self.stream_mode {
                            actions.push(Action::StreamStart);
                        }
                        actions.push(Action::StartCapture { live: self.stream_mode });
                    },
                    Phase::Recording => {
                        *self = Daemon { phase: Phase::Transcribing, stream_mode: self.stream_mode, capturing: false };
                        actions.push(Action::StopCapture);
                        actions.push(Action::OverlayTranscribing);
                        actions.push(Action::SetPhase(Phase::Transcribing));
                        if self.stream_mode {
                            actions.push(Action::StreamEnd);
                        } else {
                            actions.push(Action::Transcribe);
                        }
                    },
                    Phase::Transcribing => {},
                }
            },
            Event::Cancel => {
                if self.phase == Phase::Recording {
                    *self = Daemon { phase: Phase::Idle, stream_mode: self.stream_mode, capturing: false };
                    actions.push(Action::StopCapture);
                    if self.stream_mode {
                        actions.push(Action::StreamAbort);
                    }
                    actions.push(Action::CloseOverlay);
                    actions.push(Action::SetPhase(Phase::Idle));
                }
            },
            Event::StreamDelta(t) => {
                if self.phase == Phase::Recording || self.phase == Phase::Transcribing {
                    actions.push(Action::TypeDelta(t));
                }
            },
            Event::StreamDone => {
                if self.phase == Phase::Transcribing {
                    self.phase = Phase::Idle;
                    actions.push(Action::CloseOverlay);
                    actions.push(Action::SetPhase(Phase::Idle));
                }
            },
            Event::Transcribed(res) => {
                if self.phase == Phase::Transcribing {
                    self.phase = Phase::Idle;
                    actions.push(Action::CloseOverlay);
                    actions.push(Action::SetPhase(Phase::Idle));
                    match res {
                        Ok(t) => {
                            let trimmed = trim_str(t.as_str());
                            if trimmed.len() > 0 {
                                actions.push(Action::TypeText(string_of(&trimmed)));
                            }
                        },
                        Err(e) => {
                            actions.push(Action::Notify(joined("Transcription failed: ", e.as_str())));
                        },
                    }
                }
            },
        }
        assert(action_views(actions@) =~= step(old(self)@, ev).1);
        actions
    }

    /// Takes the outcome of the microphone start that `StartCapture` asked for:
    /// recording begins, or the failure is reported (and a live stream dropped).
    pub fn capture_started(&mut self, outcome: Result<(), String>) -> (actions: Vec<Action>)
        requires
            old(self)@.phase == Phase::Idle,
        ensures
            (final(self)@, action_views(actions@)) == capture_step(old(self)@, match outcome {
                Ok(u) => Ok(u),
                Err(e) => Err(e@),
            }),
    {
        let mut actions: Vec<Action> = Vec::new();
        match outcome {
            Ok(()) => {
                *self = Daemon { phase: Phase::Recording, stream_mode: self.stream_mode, capturing: true };
                actions.push(Action::ShowOverlay);
                actions.push(Action::SetPhase(Phase::Recording));
            },
            Err(e) => {
                actions.push(Action::Notify(joined("Mic capture failed: ", e.as_str())));
                if self.stream_mode {
                    actions.push(Action::StreamAbort);
                }
            },
        }
        assert(action_views(actions@) =~= capture_step(old(self)@, match outcome {
            Ok(u) => Ok(u),
            Err(e) => Err(e@),
        }).1);
        actions
    }

    /// The notice for a finished transcript that could not be typed.
    pub fn typing_failed(&self, error: &str) -> (a: Action)
        ensures
            a@ == ActionView::Notify(typing_failed_lead() + error@),
    {
        Action::Notify(joined("Typing failed: ", error))
    }
}

} // verus!
