//! Behavioural settings as the config file states them; unset means "use
//! the command line or the default".

use vstd::prelude::*;

use crate::theme::{dot_config, join_path, join_path_exec};

verus! {

/// The whole config file.
#[derive(Debug, Default, Clone)]
pub struct Config {
    pub base: Base,
    pub matching: Matching,
    pub history: History,
    pub logging: Logging,
}

/// `[base]`: where and how the launcher shows up.
#[derive(Debug, Default, Clone)]
pub struct Base {
    pub mode: Option<String>,
    pub output: Option<String>,
    pub terminal: Option<String>,
    pub theme: Option<String>,
}

/// `[matching]`: how candidates are matched.
#[derive(Debug, Default, Clone)]
pub struct Matching {
    pub algorithm: Option<String>,
    pub require: Option<bool>,
    pub ascii: Option<bool>,
}

/// `[history]`: whether and where choices are remembered.
#[derive(Debug, Default, Clone)]
pub struct History {
    pub history: Option<bool>,
    pub path: Option<String>,
}

/// `[logging]`.
#[derive(Debug, Default, Clone)]
pub struct Logging {
    pub level: Option<String>,
}

/// `tofi/config.toml`, the config file's place in the config directory.
pub open spec fn config_file_rel() -> Seq<char> {
    seq!['t', 'o', 'f', 'i', '/', 'c', 'o', 'n', 'f', 'i', 'g', '.', 't', 'o', 'm', 'l']
}

/// Where the config file lies: `tofi/config.toml` under `$XDG_CONFIG_HOME`
/// when it is set, else under `$HOME/.config`; nowhere when neither is set.
pub open spec fn spec_default_path(config_home: Option<Seq<char>>, home: Option<Seq<char>>) -> Option<Seq<char>> {
    match config_home {
        Some(c) => Some(join_path(c, config_file_rel())),
        None => match home {
            Some(h) => Some(join_path(join_path(h, dot_config()), config_file_rel())),
            None => None,
        },
    }
}

/// The default config file, from the values of `$XDG_CONFIG_HOME` and
/// `$HOME`, as [`spec_default_path`] says.
pub fn default_path(config_home: Option<&str>, home: Option<&str>) -> (r: Option<String>)
    ensures
        r is Some <==> (config_home is Some || home is Some),
        r matches Some(p) ==> spec_default_path(
            match config_home {
                Some(c) => Some(c@),
                None => None,
            },
            match home {
                Some(h) => Some(h@),
                None => None,
            },
        ) == Some(p@),
{
    proof {
        reveal_strlit("tofi/config.toml");
        reveal_strlit(".config");
    }
    match config_home {
        Some(c) => Some(join_path_exec(c, "tofi/config.toml")),
        None => match home {
            Some(h) => {
                let base = join_path_exec(h, ".config");
                Some(join_path_exec(base.as_str(), "tofi/config.toml"))
            },
            None => None,
        },
    }
}

} // verus!
