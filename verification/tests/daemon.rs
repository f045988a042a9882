use mynah::daemon::{Action, Daemon, Event, Phase};

fn kinds(actions: &[Action]) -> Vec<String> {
    actions.iter().map(|a| format!("{a:?}")).collect()
}

fn ready(stream: bool) -> Daemon {
    let mut d = Daemon::new(stream);
    let actions = d.handle(Event::ModelReady);
    assert_eq!(kinds(&actions), vec!["SetPhase(Idle)"]);
    assert_eq!(d.phase(), Phase::Idle);
    d
}

#[test]
fn toggle_while_loading_notifies() {
    let mut d = Daemon::new(false);
    let actions = d.handle(Event::Toggle);
    assert_eq!(kinds(&actions), vec!["Notify(\"Model still loading, try again in a moment\")"]);
    assert_eq!(d.phase(), Phase::Loading);
}

#[test]
fn batch_cycle() {
    let mut d = ready(false);
    assert_eq!(kinds(&d.handle(Event::Toggle)), vec!["StartCapture { live: false }"]);
    assert_eq!(d.phase(), Phase::Idle);
    assert_eq!(kinds(&d.capture_started(Ok(()))), vec!["ShowOverlay", "SetPhase(Recording)"]);
    assert!(d.capturing());
    assert_eq!(
        kinds(&d.handle(Event::Toggle)),
        vec!["StopCapture", "OverlayTranscribing", "SetPhase(Transcribing)", "Transcribe"]
    );
    assert!(!d.capturing());
    assert_eq!(
        kinds(&d.handle(Event::Transcribed(Ok("  hello world \n".into())))),
        vec!["CloseOverlay", "SetPhase(Idle)", "TypeText(\"hello world\")"]
    );
    assert_eq!(d.phase(), Phase::Idle);
}

#[test]
fn empty_transcript_types_nothing() {
    let mut d = ready(false);
    d.handle(Event::Toggle);
    d.capture_started(Ok(()));
    d.handle(Event::Toggle);
    assert_eq!(kinds(&d.handle(Event::Transcribed(Ok("   ".into())))), vec!["CloseOverlay", "SetPhase(Idle)"]);
}

#[test]
fn failed_transcription_notifies() {
    let mut d = ready(false);
    d.handle(Event::Toggle);
    d.capture_started(Ok(()));
    d.handle(Event::Toggle);
    assert_eq!(
        kinds(&d.handle(Event::Transcribed(Err("boom".into())))),
        vec!["CloseOverlay", "SetPhase(Idle)", "Notify(\"Transcription failed: boom\")"]
    );
}

#[test]
fn streaming_cycle() {
    let mut d = ready(true);
    assert!(d.stream_mode());
    assert_eq!(kinds(&d.handle(Event::Toggle)), vec!["StreamStart", "StartCapture { live: true }"]);
    d.capture_started(Ok(()));
    assert_eq!(kinds(&d.handle(Event::StreamDelta("hi".into()))), vec!["TypeDelta(\"hi\")"]);
    assert_eq!(
        kinds(&d.handle(Event::Toggle)),
        vec!["StopCapture", "OverlayTranscribing", "SetPhase(Transcribing)", "StreamEnd"]
    );
    assert_eq!(kinds(&d.handle(Event::StreamDelta(" there".into()))), vec!["TypeDelta(\" there\")"]);
    assert_eq!(kinds(&d.handle(Event::StreamDone)), vec!["CloseOverlay", "SetPhase(Idle)"]);
    assert!(d.handle(Event::StreamDelta("late".into())).is_empty());
}

#[test]
fn failed_capture_aborts_stream() {
    let mut d = ready(true);
    d.handle(Event::Toggle);
    assert_eq!(
        kinds(&d.capture_started(Err("no mic".into()))),
        vec!["Notify(\"Mic capture failed: no mic\")", "StreamAbort"]
    );
    assert_eq!(d.phase(), Phase::Idle);
}

#[test]
fn cancel_discards_recording() {
    let mut d = ready(true);
    d.handle(Event::Toggle);
    d.capture_started(Ok(()));
    assert_eq!(
        kinds(&d.handle(Event::Cancel)),
        vec!["StopCapture", "StreamAbort", "CloseOverlay", "SetPhase(Idle)"]
    );
    assert!(d.handle(Event::Cancel).is_empty());
}

#[test]
fn quit_stops_capture_then_exits() {
    let mut d = ready(false);
    d.handle(Event::Toggle);
    d.capture_started(Ok(()));
    assert_eq!(kinds(&d.handle(Event::Quit)), vec!["StopCapture", "Exit"]);
    let mut idle = ready(false);
    assert_eq!(kinds(&idle.handle(Event::Quit)), vec!["Exit"]);
}

#[test]
fn stray_events_are_ignored() {
    let mut d = ready(false);
    assert!(d.handle(Event::ModelReady).is_empty());
    assert!(d.handle(Event::StreamDone).is_empty());
    assert!(d.handle(Event::Transcribed(Ok("x".into()))).is_empty());
    assert_eq!(d.phase(), Phase::Idle);
}

#[test]
fn typing_failure_notice() {
    let d = ready(false);
    assert_eq!(kinds(&[d.typing_failed("denied")]), vec!["Notify(\"Typing failed: denied\")"]);
}
