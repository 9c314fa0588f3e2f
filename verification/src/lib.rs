//! Resolve a named launch configuration from an editor-style
//! `launch.json` file and prepare it for execution as a child process.
//!
//! The crate covers the pure core of that job: cleaning the raw file
//! text (comment stripping and workspace-placeholder substitution),
//! normalizing configurations (working-directory default and language
//! classification), parsing dotenv files, composing the child
//! environment from merge-ordered sources, building the command line,
//! selecting a configuration by name, and the runner's
//! poll/cancel/reap/join state machine. File access, deserialization
//! and process control live with the caller.

pub mod enums;
pub mod error;
pub mod model;
pub mod parsing;
pub mod runner;
pub mod text;
