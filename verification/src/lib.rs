//! A library for a command-line helper that switches between and authenticates
//! with AWS account profiles.
//!
//! The heart of the library is the profile-template resolver: named templates
//! with single-parent inheritance are merged into ready-to-install profiles,
//! with first-write-wins settings and explicit cycle detection. Around it sit
//! a structured error type carrying an exit status and a stack of context
//! messages, the decision logic of the subprocess runner, and the small pieces
//! of text processing that the subcommands share. File, network and terminal
//! work stays outside the library; callers hand in what was read and take back
//! what must be written.

pub mod commands;
pub mod context;
pub mod error;
pub mod installer;
pub mod json;
pub mod run;
pub mod shell;
pub mod template;
pub mod text;
