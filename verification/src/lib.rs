//! Verified core of a shell-command organizer.
//!
//! Commands are short pieces of shell text, grouped into named categories and
//! addressed by aliases.  This crate holds the parts of the program that are
//! worth proving: the ordered command store with its uniqueness invariant, the
//! modal keyboard state machine of the interactive session, and the
//! placeholder scanner that prepares a stored command for execution.  File
//! persistence, argument parsing, terminal painting and process spawning live
//! outside, in ordinary Rust that calls into this crate.

pub mod engine;
pub mod session;
pub mod store;
pub mod text;
