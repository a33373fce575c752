//! Engine of a small Wayland launcher: text handling, candidate matching,
//! scored string tables, input editing and selection history.

pub mod text;
pub mod chars;
pub mod unicode;
pub mod matching;
pub mod sorting;
pub mod lexical;
pub mod string_table;
pub mod input;
pub mod numbers;
pub mod history;
pub mod drun;
pub mod drun_cache;
pub mod error;
pub mod color;
pub mod theme;
pub mod submit;
pub mod settings;
pub mod pixel_format;
pub mod dmenu;
pub mod keyboard;
pub mod entry;
pub mod keypress;
pub mod lock;
pub mod run_commands;
pub mod config_text;
pub mod config;
pub mod cli;
pub mod text_backend;

use vstd::prelude::*;

verus! {

/// Does nothing: the one item that every build of the library offers.
pub fn noop() {
}

} // verus!
