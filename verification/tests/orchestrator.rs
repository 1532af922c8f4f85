use wisprfree::dictionary::{DictEntry, DictFile, PersonalDictionary};
use wisprfree::hotkey::HotkeyEvent;
use wisprfree::injector::InjectionPlan;
use wisprfree::orchestrator::{Action, Event, Session, MIN_RECORDING_MS};
use wisprfree::overlay::OverlayState;
use wisprfree::snippets::{SnippetEntry, SnippetFile, SnippetLibrary};
use wisprfree::tray::TrayCommand;

fn libraries() -> (PersonalDictionary, SnippetLibrary) {
    let d = PersonalDictionary::load(
        &DictFile { entry: vec![DictEntry { wrong: "whisperfree".into(), correct: "WisprFree".into() }] },
        "d.toml",
    );
    let s = SnippetLibrary::load(
        &SnippetFile { snippet: vec![SnippetEntry { trigger: "sig".into(), replacement: "Best, A".into() }] },
        "s.toml",
    );
    (d, s)
}

fn overlay(a: &Action) -> Option<OverlayState> {
    match a {
        Action::ShowOverlay(s) => Some(*s),
        _ => None,
    }
}

#[test]
fn key_down_starts_recording() {
    let (d, s) = libraries();
    let mut session = Session::new("clipboard", 150);
    let r = session.step(Event::Hotkey { key: HotkeyEvent::PushDown, now_ms: 1000 }, &d, &s);
    assert_eq!(r.len(), 2);
    assert_eq!(overlay(&r[0]), Some(OverlayState::Recording));
    assert!(matches!(r[1], Action::StartRecording));
    assert_eq!(session.recording_start, Some(1000));
}

#[test]
fn a_short_tap_is_discarded() {
    let (d, s) = libraries();
    let mut session = Session::new("clipboard", 150);
    session.step(Event::Hotkey { key: HotkeyEvent::PushDown, now_ms: 1000 }, &d, &s);
    let r = session.step(Event::Hotkey { key: HotkeyEvent::PushUp, now_ms: 1000 + MIN_RECORDING_MS - 1 }, &d, &s);
    assert_eq!(r.len(), 2);
    assert!(matches!(r[0], Action::DiscardRecording));
    assert_eq!(overlay(&r[1]), Some(OverlayState::Hidden));
    assert_eq!(session.recording_start, None);
}

#[test]
fn a_release_without_a_press_is_discarded() {
    let (d, s) = libraries();
    let mut session = Session::new("clipboard", 150);
    let r = session.step(Event::Hotkey { key: HotkeyEvent::PushUp, now_ms: 99_999 }, &d, &s);
    assert!(matches!(r[0], Action::DiscardRecording));
}

#[test]
fn a_long_hold_is_collected_and_transcribed() {
    let (d, s) = libraries();
    let mut session = Session::new("clipboard", 150);
    session.step(Event::Hotkey { key: HotkeyEvent::PushDown, now_ms: 1000 }, &d, &s);
    let r = session.step(Event::Hotkey { key: HotkeyEvent::PushUp, now_ms: 2500 }, &d, &s);
    assert_eq!(overlay(&r[0]), Some(OverlayState::Processing));
    assert!(matches!(r[1], Action::CollectRecording));
    assert_eq!(session.held_ms, 1500);
    let r = session.step(Event::Captured { samples: 24000 }, &d, &s);
    assert_eq!(r.len(), 1);
    assert!(matches!(r[0], Action::Transcribe));
    let r = session.step(Event::Transcribed { text: "i use whisperfree".into() }, &d, &s);
    assert_eq!(r.len(), 3);
    match &r[0] {
        Action::Inject(InjectionPlan::Clipboard { text_utf16, paste_wait_ms, .. }) => {
            let mut want: Vec<u16> = "I use WisprFree.".encode_utf16().collect();
            want.push(0);
            assert_eq!(text_utf16, &want);
            assert_eq!(*paste_wait_ms, 150);
        }
        other => panic!("unexpected {:?}", other),
    }
    match &r[1] {
        Action::RecordHistory { text, held_ms } => {
            assert_eq!(text, "I use WisprFree.");
            assert_eq!(*held_ms, 1500);
        }
        other => panic!("unexpected {:?}", other),
    }
    assert_eq!(overlay(&r[2]), Some(OverlayState::Done));
}

#[test]
fn nothing_captured_is_reported() {
    let (d, s) = libraries();
    let mut session = Session::new("clipboard", 150);
    let r = session.step(Event::Captured { samples: 0 }, &d, &s);
    assert_eq!(overlay(&r[0]), Some(OverlayState::Hidden));
    match &r[1] {
        Action::Notify(m) => assert_eq!(m, "No audio captured. Check your microphone."),
        other => panic!("unexpected {:?}", other),
    }
}

#[test]
fn empty_transcript_does_nothing() {
    let (d, s) = libraries();
    let mut session = Session::new("sendinput", 150);
    assert!(session.step(Event::Transcribed { text: String::new() }, &d, &s).is_empty());
    assert!(session.step(Event::CaptureFailed, &d, &s).is_empty());
    assert!(session.step(Event::WavWriteFailed, &d, &s).is_empty());
}

#[test]
fn sendinput_method_plans_key_events() {
    let (d, s) = libraries();
    let mut session = Session::new("sendinput", 150);
    let r = session.step(Event::Transcribed { text: "sig".into() }, &d, &s);
    match &r[0] {
        Action::Inject(InjectionPlan::SendInput { keystrokes }) => assert_eq!(keystrokes.len(), 2 * 8),
        other => panic!("unexpected {:?}", other),
    }
}

#[test]
fn failures_are_notified() {
    let (d, s) = libraries();
    let mut session = Session::new("clipboard", 150);
    let r = session.step(Event::TranscriptionFailed { message: "no model".into() }, &d, &s);
    assert_eq!(overlay(&r[0]), Some(OverlayState::Hidden));
    match &r[1] {
        Action::Notify(m) => assert_eq!(m, "Transcription failed: no model"),
        other => panic!("unexpected {:?}", other),
    }
    let r = session.step(Event::InjectionFailed { message: "busy".into() }, &d, &s);
    assert_eq!(r.len(), 1);
    match &r[0] {
        Action::Notify(m) => assert_eq!(m, "Text injection failed: busy"),
        other => panic!("unexpected {:?}", other),
    }
}

#[test]
fn tray_commands_map_to_actions() {
    let (d, s) = libraries();
    let mut session = Session::new("clipboard", 150);
    assert!(matches!(session.step(Event::Tray(TrayCommand::Quit), &d, &s)[0], Action::Quit));
    assert!(matches!(session.step(Event::Tray(TrayCommand::ReloadConfig), &d, &s)[0], Action::ReloadLibraries));
    assert!(matches!(session.step(Event::Tray(TrayCommand::OpenConfigFolder), &d, &s)[0], Action::OpenConfigFolder));
    assert!(matches!(session.step(Event::Tray(TrayCommand::ToggleAutostart), &d, &s)[0], Action::ToggleAutostart));
    assert!(matches!(session.step(Event::Tray(TrayCommand::About), &d, &s)[0], Action::ShowAbout));
}
