//! Where the single-instance lock file lies.
//!
//! | Condition | Lock file |
//! |---|---|
//! | `$XDG_RUNTIME_DIR` is set | `$XDG_RUNTIME_DIR/tofi.lock` |
//! | `$XDG_CACHE_HOME` is set | `$XDG_CACHE_HOME/tofi.lock` |
//! | Fallback | `$HOME/.cache/tofi.lock` |

use vstd::prelude::*;

use crate::theme::{join_path, join_path_exec};

verus! {

pub open spec fn lock_filename() -> Seq<char> {
    seq!['t', 'o', 'f', 'i', '.', 'l', 'o', 'c', 'k']
}

pub open spec fn dot_cache() -> Seq<char> {
    seq!['.', 'c', 'a', 'c', 'h', 'e']
}

/// The lock file's path, as the table above says; none when no variable is set.
pub open spec fn spec_lock_path(runtime: Option<Seq<char>>, cache: Option<Seq<char>>, home: Option<Seq<char>>) -> Option<
    Seq<char>,
> {
    match runtime {
        Some(r) => Some(join_path(r, lock_filename())),
        None => match cache {
            Some(c) => Some(join_path(c, lock_filename())),
            None => match home {
                Some(h) => Some(join_path(join_path(h, dot_cache()), lock_filename())),
                None => None,
            },
        },
    }
}

/// The lock file's path from the values of `$XDG_RUNTIME_DIR`,
/// `$XDG_CACHE_HOME` and `$HOME`, as [`spec_lock_path`] says.
pub fn resolve_lock_path(xdg_runtime_dir: Option<&str>, xdg_cache_home: Option<&str>, home: Option<&str>) -> (r:
    Option<String>)
    ensures
        r is Some <==> (xdg_runtime_dir is Some || xdg_cache_home is Some || home is Some),
        r matches Some(p) ==> spec_lock_path(
            match xdg_runtime_dir {
                Some(s) => Some(s@),
                None => None,
            },
            match xdg_cache_home {
                Some(s) => Some(s@),
                None => None,
            },
            match home {
                Some(s) => Some(s@),
                None => None,
            },
        ) == Some(p@),
{
    proof {
        reveal_strlit("tofi.lock");
        reveal_strlit(".cache");
    }
    match xdg_runtime_dir {
        Some(r) => Some(join_path_exec(r, "tofi.lock")),
        None => match xdg_cache_home {
            Some(c) => Some(join_path_exec(c, "tofi.lock")),
            None => match home {
                Some(h) => {
                    let base = join_path_exec(h, ".cache");
                    Some(join_path_exec(base.as_str(), "tofi.lock"))
                },
                None => None,
            },
        },
    }
}

} // verus!
