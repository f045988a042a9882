//! Decision logic of a push-to-talk dictation daemon: transcript correction
//! with a user vocabulary, keystroke planning for a US keyboard layout, the
//! daemon's recording state machine, and small parsers for its inputs.

use vstd::prelude::*;

pub mod audio;
pub mod control;
pub mod daemon;
pub mod latency;
pub mod sound;
pub mod stream;
pub mod pixels;
pub mod settings;
pub mod text;
pub mod tray;
pub mod typer;
pub mod vocabulary;
pub mod wav;
pub mod vocabulary_file;

verus! {

} // verus!
