//! The options given on the command line.

use vstd::prelude::*;

verus! {

/// Shells that completion scripts are written for.
#[derive(Debug, Clone, Copy, PartialEq, Eq, Structural)]
pub enum CompletionShell {
    Bash,
    Zsh,
    Fish,
    Nushell,
}

/// The command line, as plain values.
#[derive(Debug, Default, Clone)]
pub struct Cli {
    /// Print a completion script for this shell and exit.
    pub completions: Option<CompletionShell>,
    /// Path of the config file.
    pub config: Option<String>,
    /// Path of the theme file.
    pub theme: Option<String>,
    /// Which candidates to offer.
    pub mode: Option<String>,
    /// Output to show the launcher on.
    pub output: Option<String>,
    /// Terminal emulator for applications that need one.
    pub terminal: Option<String>,
    /// Matching algorithm.
    pub algorithm: Option<String>,
    /// Whether to sort by history.
    pub history: Option<bool>,
    /// Log level.
    pub log_level: Option<String>,
}

} // verus!
