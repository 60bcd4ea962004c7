//! A scaffolder for new command-line projects.
//!
//! The library holds the verified core of the scaffolder: a categorized
//! catalog of candidate libraries parsed from an embedded document, a
//! template registry that renders project files from collected metadata,
//! and the dialogue state machine that gathers that metadata. Terminal
//! prompting and filesystem writes live outside the library; it hands
//! them plain values and takes plain values back.

pub mod catalog;
pub mod dialogue;
pub mod errors;
pub mod generate;
pub mod templating;
pub mod text;
