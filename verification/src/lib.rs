//! Verified core of a screenshot-and-input service for a Wayland desktop:
//! monitor geometry, configuration fingerprints, observation bookkeeping,
//! PNG header reading, and the decision logic of the virtual pointer and
//! keyboard sessions.

pub mod backend;
pub mod events;
pub mod fingerprint;
pub mod handoff;
pub mod held;
pub mod keyboard;
pub mod monitor;
pub mod observe;
pub mod png;
pub mod pointer;
pub mod text;
pub mod tool;
