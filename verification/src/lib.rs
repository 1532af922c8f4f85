//! Text post-processing, analytics and decision logic of a local push-to-talk
//! dictation tool, with its contracts.

pub mod text;
pub mod punctuation;
pub mod replace;
pub mod dictionary;
pub mod snippets;
pub mod dates;
pub mod order;
pub mod history;
pub mod autostart;
pub mod hotkey;
pub mod overlay;
pub mod tray;
pub mod config;
pub mod transcriber;
pub mod dashboard;
pub mod audio;
pub mod shortcut;
pub mod injector;
pub mod pipeline;
pub mod instance;
pub mod orchestrator;
