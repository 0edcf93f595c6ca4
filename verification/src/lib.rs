//! Platform-independent core of catguard: key geometry, paw detection, the
//! lock state machine, the history around a lock, the comparison of system
//! state before and after, the settings and the framing of the deterrent
//! sound. The Windows shell lives in the binary.
use vstd::prelude::*;

pub mod detector;
pub mod guard;
pub mod history;
pub mod laws;
pub mod layout;
pub mod settings;
pub mod shell;
pub mod snapshot;
pub mod sound;
pub mod text;

verus! {
} // verus!
