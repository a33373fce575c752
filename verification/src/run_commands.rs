//! The cache of commands found in `$PATH`: one name per line.

use vstd::prelude::*;

use crate::chars::split_lines;
use crate::text::{chars_of, lemma_lines_from_line, strip_cr, string_of, string_views, text_lines, views};
use crate::theme::{join_path, join_path_exec};

verus! {

/// The names, each followed by a line feed.
pub open spec fn commands_text(names: Seq<Seq<char>>) -> Seq<char>
    decreases names.len(),
{
    if names.len() == 0 {
        Seq::empty()
    } else {
        names[0] + seq!['\n'] + commands_text(names.drop_first())
    }
}

/// The non-empty lines among `ls`.
pub open spec fn nonempty(ls: Seq<Seq<char>>) -> Seq<Seq<char>> {
    ls.filter(|l: Seq<char>| l.len() > 0)
}

/// The text of the cache of `commands`, as [`commands_text`] says.
pub fn format_commands(commands: &[String]) -> (t: String)
    ensures
        t@ == commands_text(string_views(commands@)),
{
    let ghost ns = string_views(commands@);
    let mut out: Vec<char> = Vec::new();
    let mut i: usize = 0;
    proof {
        assert(ns.skip(0) =~= ns);
    }
    while i < commands.len()
        invariant
            i <= commands@.len(),
            ns == string_views(commands@),
            out@ + commands_text(ns.skip(i as int)) == commands_text(ns),
        decreases commands@.len() - i,
    {
        let ghost before = out@;
        let mut cs = chars_of(commands[i].as_str());
        out.append(&mut cs);
        out.push('\n');
        proof {
            assert(ns[i as int] == commands@[i as int]@);
            assert(ns.skip(i as int)[0] == ns[i as int]);
            assert(ns.skip(i as int).drop_first() =~= ns.skip(i + 1));
            assert(out@ =~= before + ns[i as int] + seq!['\n']);
            assert(before + commands_text(ns.skip(i as int)) =~= out@ + commands_text(ns.skip(i + 1)));
        }
        i = i + 1;
    }
    proof {
        assert(ns.skip(i as int) =~= Seq::<Seq<char>>::empty());
        assert(out@ + Seq::<char>::empty() =~= out@);
    }
    string_of(out.as_slice())
}

/// The commands a cache text holds: its non-empty lines.
pub fn parse_commands(text: &str) -> (v: Vec<String>)
    ensures
        string_views(v@) == nonempty(text_lines(text@)),
{
    let cs = chars_of(text);
    let lines = split_lines(cs.as_slice());
    let ghost ls = views(lines@);
    let mut out: Vec<String> = Vec::new();
    let mut i: usize = 0;
    proof {
        assert(ls.take(0).filter(|l: Seq<char>| l.len() > 0) =~= Seq::<Seq<char>>::empty());
    }
    while i < lines.len()
        invariant
            i <= lines@.len(),
            ls == views(lines@),
            string_views(out@) == nonempty(ls.take(i as int)),
        decreases lines@.len() - i,
    {
        let ghost before = out@;
        proof {
            assert(ls[i as int] == lines@[i as int]@);
            assert(ls.take(i + 1).drop_last() =~= ls.take(i as int));
            ls.take(i as int).lemma_filter_push(ls[i as int], |l: Seq<char>| l.len() > 0);
            assert(ls.take(i as int).push(ls[i as int]) =~= ls.take(i + 1));
        }
        if lines[i].len() > 0 {
            let s = string_of(lines[i].as_slice());
            out.push(s);
            proof {
                assert(string_views(out@) =~= string_views(before).push(s@));
            }
        }
        i = i + 1;
    }
    proof {
        assert(ls.take(i as int) =~= ls);
    }
    out
}

pub open spec fn compgen_basename() -> Seq<char> {
    seq!['t', 'o', 'f', 'i', '-', 'c', 'o', 'm', 'p', 'g', 'e', 'n']
}

pub open spec fn dot_cache() -> Seq<char> {
    seq!['.', 'c', 'a', 'c', 'h', 'e']
}

/// Where the cache of commands lies: `tofi-compgen` under `$XDG_CACHE_HOME`
/// when it is set, else under `$HOME/.cache`; nowhere when neither is set.
pub open spec fn spec_commands_cache_path(cache_home: Option<Seq<char>>, home: Option<Seq<char>>) -> Option<Seq<char>> {
    match cache_home {
        Some(c) => Some(join_path(c, compgen_basename())),
        None => match home {
            Some(h) => Some(join_path(join_path(h, dot_cache()), compgen_basename())),
            None => None,
        },
    }
}

/// Where the cache of commands lies, from the values of `$XDG_CACHE_HOME`
/// and `$HOME`, as [`spec_commands_cache_path`] says.
pub fn resolve_cache_path(xdg_cache_home: Option<&str>, home: Option<&str>) -> (r: Option<String>)
    ensures
        r is Some <==> (xdg_cache_home is Some || home is Some),
        r matches Some(p) ==> spec_commands_cache_path(
            match xdg_cache_home {
                Some(c) => Some(c@),
                None => None,
            },
            match home {
                Some(h) => Some(h@),
                None => None,
            },
        ) == Some(p@),
{
    proof {
        reveal_strlit("tofi-compgen");
        reveal_strlit(".cache");
    }
    match xdg_cache_home {
        Some(c) => Some(join_path_exec(c, "tofi-compgen")),
        None => match home {
            Some(h) => {
                let base = join_path_exec(h, ".cache");
                Some(join_path_exec(base.as_str(), "tofi-compgen"))
            },
            None => None,
        },
    }
}

/// A command name that the cache keeps as it is: not empty, without a line
/// feed, and not ending in a carriage return.
pub open spec fn storable_command(n: Seq<char>) -> bool {
    &&& n.len() > 0
    &&& forall|i: int| 0 <= i < n.len() ==> n[i] != '\n'
    &&& n.last() != '\r'
}

/// What [`format_commands`] writes, [`parse_commands`] reads back, command
/// by command, as long as every command is storable.
pub proof fn law_commands_roundtrip(ns: Seq<Seq<char>>)
    requires
        forall|i: int| 0 <= i < ns.len() ==> storable_command(#[trigger] ns[i]),
    ensures
        nonempty(text_lines(commands_text(ns))) == ns,
    decreases ns.len(),
{
    let keep = |l: Seq<char>| l.len() > 0;
    if ns.len() == 0 {
        assert(text_lines(Seq::<char>::empty()) =~= Seq::<Seq<char>>::empty());
        assert(Seq::<Seq<char>>::empty().filter(keep) =~= Seq::<Seq<char>>::empty()) by {
            Seq::<Seq<char>>::empty().lemma_filter_len(keep);
        }
    } else {
        let w = ns[0];
        let tail = ns.drop_first();
        let rest = commands_text(tail);
        assert(storable_command(w));
        assert(commands_text(ns) =~= w + seq!['\n'] + rest);
        lemma_lines_from_line(w, rest, Seq::empty());
        assert(Seq::<char>::empty() + w =~= w);
        assert(strip_cr(w) == w);
        assert forall|i: int| 0 <= i < tail.len() implies storable_command(#[trigger] tail[i]) by {
            assert(tail[i] == ns[i + 1]);
        }
        law_commands_roundtrip(tail);
        let ls = text_lines(rest);
        assert(text_lines(commands_text(ns)) =~= seq![w] + ls);
        Seq::filter_distributes_over_add(seq![w], ls, keep);
        assert(seq![w].filter(keep) =~= seq![w]) by {
            reveal_with_fuel(Seq::filter, 2);
        }
        assert(seq![w] + tail =~= ns);
    }
}

} // verus!
