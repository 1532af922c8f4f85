//! The decisions of the dictation loop: what to do when the push-to-talk key
//! goes down or up, when the recording, the transcription or the injection
//! reports back, and when a tray command arrives. The caller performs the
//! actions in order and reports what came of them as the next event.

use vstd::prelude::*;
use crate::dictionary::PersonalDictionary;
use crate::hotkey::HotkeyEvent;
use crate::injector;
use crate::injector::InjectionPlan;
use crate::overlay::OverlayState;
use crate::pipeline;
use crate::snippets::SnippetLibrary;
use crate::text;
use crate::tray::TrayCommand;

verus! {

/// The shortest hold, in milliseconds, that is transcribed; a shorter one is
/// taken for an accidental tap.
pub const MIN_RECORDING_MS: u64 = 500;

/// What the loop remembers between events.
#[derive(Debug)]
pub struct Session {
    /// When the running recording started, in milliseconds of a monotonic clock.
    pub recording_start: Option<u64>,
    /// How long the utterance being processed was held, in milliseconds.
    pub held_ms: u64,
    /// The configured injection method.
    pub method: String,
    /// The configured wait before the clipboard is restored, in milliseconds.
    pub restore_delay_ms: u64,
}

/// What the outside world reports.
#[derive(Debug)]
pub enum Event {
    /// The push-to-talk key went down or up at `now_ms`.
    Hotkey { key: HotkeyEvent, now_ms: u64 },
    /// The recording stopped and handed back `samples` samples.
    Captured { samples: usize },
    /// Stopping the recording failed.
    CaptureFailed,
    /// The samples could not be written to a WAV file.
    WavWriteFailed,
    /// The transcriber produced `text`.
    Transcribed { text: String },
    /// The transcriber failed with `message`.
    TranscriptionFailed { message: String },
    /// Inserting the text failed with `message`.
    InjectionFailed { message: String },
    /// A tray menu command.
    Tray(TrayCommand),
}

/// What the caller is asked to do.
#[derive(Debug)]
pub enum Action {
    /// Show the overlay in this state.
    ShowOverlay(OverlayState),
    /// Start capturing audio.
    StartRecording,
    /// Stop capturing and drop what was captured.
    DiscardRecording,
    /// Stop capturing and report the samples with `Event::Captured`.
    CollectRecording,
    /// Write the samples to a WAV file, transcribe it and report the outcome.
    Transcribe,
    /// Show a desktop notification with this message.
    Notify(String),
    /// Carry out this plan to put the text at the cursor.
    Inject(InjectionPlan),
    /// Append this utterance to the history.
    RecordHistory { text: String, held_ms: u64 },
    /// Stop the application.
    Quit,
    /// Reload the snippet library and the personal dictionary from disk.
    ReloadLibraries,
    /// Open the configuration folder in the file manager.
    OpenConfigFolder,
    /// Toggle starting with the system.
    ToggleAutostart,
    /// Show the about box.
    ShowAbout,
}

/// How long the key was held when it goes up at `now`.
pub open spec fn held_for(start: Option<u64>, now: u64) -> int {
    match start {
        Some(s) => if s <= now {
            now - s
        } else {
            0
        },
        None => 0,
    }
}

/// Whether `a` is a notification whose message is `m`.
pub open spec fn notifies(a: Action, m: Seq<char>) -> bool {
    a matches Action::Notify(s) && s@ == m
}

/// The action that answers a tray command.
pub open spec fn tray_action(c: TrayCommand) -> Action {
    match c {
        TrayCommand::ReloadConfig => Action::ReloadLibraries,
        TrayCommand::OpenConfigFolder => Action::OpenConfigFolder,
        TrayCommand::ToggleAutostart => Action::ToggleAutostart,
        TrayCommand::About => Action::ShowAbout,
        TrayCommand::Quit => Action::Quit,
    }
}

/// `prefix` followed by `rest`, as a new string.
fn joined(prefix: &str, rest: &str) -> (r: String)
    ensures
        r@ == prefix@ + rest@,
{
    let mut v = text::chars_of(prefix);
    let w = text::chars_of(rest);
    text::push_all(&mut v, &w);
    text::string_from_chars(&v)
}

impl Session {
    /// A session with nothing recorded yet.
    pub fn new(method: &str, restore_delay_ms: u64) -> (r: Session)
        ensures
            r.recording_start is None,
            r.held_ms == 0,
            r.method@ == method@,
            r.restore_delay_ms == restore_delay_ms,
    {
        Session { recording_start: None, held_ms: 0, method: String::from_str(method), restore_delay_ms }
    }

    /// Decide what to do about `event`. The text of a transcription goes
    /// through the post-processing pipeline with `dict` and `snips`.
    pub fn step(&mut self, event: Event, dict: &PersonalDictionary, snips: &SnippetLibrary) -> (r:
        Vec<Action>)
        ensures
            final(self).method@ == old(self).method@,
            final(self).restore_delay_ms == old(self).restore_delay_ms,
            (match event {
                Event::Hotkey { key: HotkeyEvent::PushDown, now_ms } => {
                    &&& final(self).recording_start == Some(now_ms)
                    &&& final(self).held_ms == old(self).held_ms
                    &&& r@ == seq![
                        Action::ShowOverlay(OverlayState::Recording),
                        Action::StartRecording,
                    ]
                },
                Event::Hotkey { key: HotkeyEvent::PushUp, now_ms } => {
                    let held = held_for(old(self).recording_start, now_ms);
                    &&& final(self).recording_start is None
                    &&& held < MIN_RECORDING_MS ==> {
                        &&& final(self).held_ms == old(self).held_ms
                        &&& r@ == seq![
                            Action::DiscardRecording,
                            Action::ShowOverlay(OverlayState::Hidden),
                        ]
                    }
                    &&& held >= MIN_RECORDING_MS ==> {
                        &&& final(self).held_ms == held
                        &&& r@ == seq![
                            Action::ShowOverlay(OverlayState::Processing),
                            Action::CollectRecording,
                        ]
                    }
                },
                _ => {
                    &&& final(self).recording_start == old(self).recording_start
                    &&& final(self).held_ms == old(self).held_ms
                    &&& match event {
                        Event::Captured { samples } => if samples == 0 {
                            &&& r@.len() == 2
                            &&& r@[0] == Action::ShowOverlay(OverlayState::Hidden)
                            &&& notifies(r@[1], "No audio captured. Check your microphone."@)
                        } else {
                            r@ == seq![Action::Transcribe]
                        },
                        Event::Transcribed { text } => if text@.len() == 0 {
                            r@.len() == 0
                        } else {
                            let t = pipeline::processed(text@, dict.pairs(), snips.pairs());
                            &&& r@.len() == 3
                            &&& r@[0] matches Action::Inject(p) && injector::planned(
                                p,
                                t,
                                old(self).method@,
                                old(self).restore_delay_ms,
                            )
                            &&& r@[1] matches Action::RecordHistory { text: h, held_ms }
                                && h@ == t && held_ms == old(self).held_ms
                            &&& r@[2] == Action::ShowOverlay(OverlayState::Done)
                        },
                        Event::TranscriptionFailed { message } => {
                            &&& r@.len() == 2
                            &&& r@[0] == Action::ShowOverlay(OverlayState::Hidden)
                            &&& notifies(r@[1], "Transcription failed: "@ + message@)
                        },
                        Event::InjectionFailed { message } => {
                            &&& r@.len() == 1
                            &&& notifies(r@[0], "Text injection failed: "@ + message@)
                        },
                        Event::Tray(c) => r@ == seq![tray_action(c)],
                        _ => r@.len() == 0,
                    }
                },
            }),
    {
        let mut r: Vec<Action> = Vec::new();
        match event {
            Event::Hotkey { key: HotkeyEvent::PushDown, now_ms } => {
                self.recording_start = Some(now_ms);
                r.push(Action::ShowOverlay(OverlayState::Recording));
                r.push(Action::StartRecording);
            },
            Event::Hotkey { key: HotkeyEvent::PushUp, now_ms } => {
                let held: u64 = match self.recording_start {
                    Some(s) => if s <= now_ms {
                        now_ms - s
                    } else {
                        0
                    },
                    None => 0,
                };
                self.recording_start = None;
                if held < MIN_RECORDING_MS {
                    r.push(Action::DiscardRecording);
                    r.push(Action::ShowOverlay(OverlayState::Hidden));
                } else {
                    self.held_ms = held;
                    r.push(Action::ShowOverlay(OverlayState::Processing));
                    r.push(Action::CollectRecording);
                }
            },
            Event::Captured { samples } => {
                if samples == 0 {
                    r.push(Action::ShowOverlay(OverlayState::Hidden));
                    r.push(Action::Notify(String::from_str("No audio captured. Check your microphone.")));
                } else {
                    r.push(Action::Transcribe);
                }
            },
            Event::CaptureFailed => {},
            Event::WavWriteFailed => {},
            Event::Transcribed { text } => {
                if !text.as_str().is_empty() {
                    let processed = pipeline::post_process(text.as_str(), dict, snips);
                    let plan = injector::inject(
                        processed.as_str(),
                        self.method.as_str(),
                        self.restore_delay_ms,
                    );
                    r.push(Action::Inject(plan));
                    r.push(Action::RecordHistory { text: processed, held_ms: self.held_ms });
                    r.push(Action::ShowOverlay(OverlayState::Done));
                }
            },
            Event::TranscriptionFailed { message } => {
                r.push(Action::ShowOverlay(OverlayState::Hidden));
                r.push(Action::Notify(joined("Transcription failed: ", message.as_str())));
            },
            Event::InjectionFailed { message } => {
                r.push(Action::Notify(joined("Text injection failed: ", message.as_str())));
            },
            Event::Tray(c) => {
                let a = match c {
                    TrayCommand::ReloadConfig => Action::ReloadLibraries,
                    TrayCommand::OpenConfigFolder => Action::OpenConfigFolder,
                    TrayCommand::ToggleAutostart => Action::ToggleAutostart,
                    TrayCommand::About => Action::ShowAbout,
                    TrayCommand::Quit => Action::Quit,
                };
                r.push(a);
            },
        }
        r
    }
}

} // verus!
