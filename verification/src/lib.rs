//! gitshot: the logic behind rendering `git diff` and `git status` as images.
//!
//! - `model`: diff lines made of git's patch lines (kinds, separators between files,
//!   inline highlight ranges of paired `-`/`+` lines) and status entries made of git's
//!   status bits.
//! - `command`: what the `diff` and `status` commands draw, row by row.
//! - `inline_diff`, `lcs`, `pairing`: character-level highlighting, longest common
//!   subsequences, and the pairing of deleted with added lines.
//! - `renderer`, `config`: colours, line formatting and output file names.
//! - `cli`: the command line as plain values.
//! - `text`: characters, UTF-8 offsets and the string helpers the rest builds on.

pub mod cli;
pub mod command;
pub mod config;
pub mod inline_diff;
pub mod lcs;
pub mod model;
pub mod pairing;
pub mod renderer;
pub mod text;
