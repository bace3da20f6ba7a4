//! Keyboard event dispatch and keystroke history.
//!
//! The hook state owns a registry of per-key reactions and two bounded
//! histories of recent keystrokes; the platform callback feeds it one event
//! at a time and acts on the returned decision.

pub mod history;
pub mod hook;
pub mod keys;
