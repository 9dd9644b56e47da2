//! Core engine of a command-execution gateway for autonomous agents.
//!
//! The crate holds the logic of the gateway: windowing of command output into
//! head/tail/error summaries, stripping of ANSI terminal escapes, validation
//! of shell commands against a denylist of destructive operations, escape
//! processing for raw terminal input, the marker protocol that delimits one
//! command's output inside a continuous PTY stream, and the bookkeeping of
//! tracked processes and interactive sessions. All of it is verified; the
//! process spawning, PTY wiring and transport around it live outside the
//! library and only hand plain values in and out.

pub mod ansi;
pub mod manager;
pub mod output;
pub mod process;
pub mod registry;
pub mod session;
pub mod text;
pub mod tools;
pub mod validator;
