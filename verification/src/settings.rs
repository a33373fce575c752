//! How the launcher runs: which list of candidates it offers.

use vstd::prelude::*;

use crate::cli::Cli;
use crate::config::Config;
use crate::matching::MatchingAlgorithm;
use crate::chars::{eq_ignore_ascii_case, eq_ignore_ascii_case_exec};
use crate::theme::{
    anchor_named, dashes_to_underscores, dim_to_unit, parse_algorithm, parse_anchor, parse_cursor_kind,
    spec_dim_to_unit, spec_str_lowercase, word_block, word_fuzzy, word_prefix, word_underscore, Anchor,
    CursorKind, Dim, Theme, UnitValue,
};

verus! {

/// Which candidates the launcher offers.
#[derive(Debug, Clone, Copy, PartialEq, Eq, Structural)]
pub enum LaunchMode {
    /// Executables found in `$PATH`.
    Run,
    /// Desktop applications.
    Drun,
    /// Lines read from standard input.
    Dmenu,
}

pub open spec fn word_run() -> Seq<char> {
    seq!['r', 'u', 'n']
}

pub open spec fn word_dmenu() -> Seq<char> {
    seq!['d', 'm', 'e', 'n', 'u']
}

/// The mode a name selects: `run`, `dmenu`; anything else, and no name at
/// all, selects the desktop applications.
pub open spec fn spec_detect_mode(mode: Option<Seq<char>>) -> LaunchMode {
    match mode {
        Some(m) => if m == word_run() {
            LaunchMode::Run
        } else if m == word_dmenu() {
            LaunchMode::Dmenu
        } else {
            LaunchMode::Drun
        },
        None => LaunchMode::Drun,
    }
}

/// The mode that `mode` names, as [`spec_detect_mode`] says.
pub fn detect_mode(mode: Option<&str>) -> (r: LaunchMode)
    ensures
        r == spec_detect_mode(
            match mode {
                Some(m) => Some(m@),
                None => None,
            },
        ),
{
    match mode {
        None => LaunchMode::Drun,
        Some(m) => {
            let cs = crate::text::chars_of(m);
            let run = ['r', 'u', 'n'];
            let dmenu = ['d', 'm', 'e', 'n', 'u'];
            assert(run@ =~= word_run());
            assert(dmenu@ =~= word_dmenu());
            if crate::chars::eq_chars(cs.as_slice(), run.as_slice()) {
                LaunchMode::Run
            } else if crate::chars::eq_chars(cs.as_slice(), dmenu.as_slice()) {
                LaunchMode::Dmenu
            } else {
                LaunchMode::Drun
            }
        },
    }
}

/// How the launcher behaves.
#[derive(Debug, Clone)]
pub struct Behaviour {
    pub mode: LaunchMode,
    pub target_output: String,
    pub default_terminal: Option<String>,
    pub algorithm: MatchingAlgorithm,
    pub require_match: bool,
    pub ascii_input: bool,
    pub use_history: bool,
    pub history_file: Option<String>,
}

/// The characters of an optional string.
pub open spec fn opt_view(o: Option<String>) -> Option<Seq<char>> {
    match o {
        Some(s) => Some(s@),
        None => None,
    }
}

/// The first of `a` and `b` that is given.
pub open spec fn or_else<T>(a: Option<T>, b: Option<T>) -> Option<T> {
    match a {
        Some(x) => Some(x),
        None => b,
    }
}

/// `o` when it is given and not empty.
pub open spec fn nonempty_opt(o: Option<Seq<char>>) -> Option<Seq<char>> {
    match o {
        Some(s) => if s.len() > 0 { Some(s) } else { None },
        None => None,
    }
}

/// The algorithm a name stands for, as [`parse_algorithm`] reads names.
pub open spec fn algorithm_named(name: Seq<char>) -> MatchingAlgorithm {
    if spec_str_lowercase(name) == word_fuzzy() {
        MatchingAlgorithm::Fuzzy
    } else if spec_str_lowercase(name) == word_prefix() {
        MatchingAlgorithm::Prefix
    } else {
        MatchingAlgorithm::Normal
    }
}

/// Whether `b` is how the launcher behaves under the command line `cli` and
/// the config `cfg`: each option from the command line when given, else from
/// the config file (an empty output or terminal there counts as not given),
/// else its default: the application mode, no output, no terminal, the normal
/// algorithm, a match required, no ASCII-only input, history on, the default
/// history file.
pub open spec fn behaves(b: Behaviour, cli: Cli, cfg: Config) -> bool {
    &&& b.mode == spec_detect_mode(or_else(opt_view(cli.mode), opt_view(cfg.base.mode)))
    &&& b.target_output@ == (match or_else(opt_view(cli.output), nonempty_opt(opt_view(cfg.base.output))) {
        Some(o) => o,
        None => Seq::empty(),
    })
    &&& opt_view(b.default_terminal) == or_else(opt_view(cli.terminal), nonempty_opt(opt_view(cfg.base.terminal)))
    &&& b.algorithm == (match or_else(opt_view(cli.algorithm), opt_view(cfg.matching.algorithm)) {
        Some(a) => algorithm_named(a),
        None => MatchingAlgorithm::Normal,
    })
    &&& b.require_match == (match cfg.matching.require {
        Some(r) => r,
        None => true,
    })
    &&& b.ascii_input == (match cfg.matching.ascii {
        Some(a) => a,
        None => false,
    })
    &&& b.use_history == (match or_else(cli.history, cfg.history.history) {
        Some(h) => h,
        None => true,
    })
    &&& opt_view(b.history_file) == opt_view(cfg.history.path)
}

/// A copy of an optional string.
fn copy_opt(o: &Option<String>) -> (r: Option<String>)
    ensures
        opt_view(r) == opt_view(*o),
{
    match o {
        Some(s) => Some(crate::text::string_of(crate::text::chars_of(s.as_str()).as_slice())),
        None => None,
    }
}

/// A copy of an optional string when it is given and not empty.
fn copy_nonempty(o: &Option<String>) -> (r: Option<String>)
    ensures
        opt_view(r) == nonempty_opt(opt_view(*o)),
{
    match o {
        Some(s) => {
            if s.as_str().is_empty() {
                None
            } else {
                Some(crate::text::string_of(crate::text::chars_of(s.as_str()).as_slice()))
            }
        },
        None => None,
    }
}

/// Decides how the launcher behaves, as [`behaves`] says.
pub fn resolve_behaviour(cli: &Cli, cfg: &Config) -> (b: Behaviour)
    ensures
        behaves(b, *cli, *cfg),
{
    let mode_name: Option<&str> = match &cli.mode {
        Some(m) => Some(m.as_str()),
        None => match &cfg.base.mode {
            Some(m) => Some(m.as_str()),
            None => None,
        },
    };
    let mode = detect_mode(mode_name);
    let target_output = match copy_opt(&cli.output) {
        Some(o) => o,
        None => match copy_nonempty(&cfg.base.output) {
            Some(o) => o,
            None => String::new(),
        },
    };
    let default_terminal = match copy_opt(&cli.terminal) {
        Some(t) => Some(t),
        None => copy_nonempty(&cfg.base.terminal),
    };
    let algorithm = match &cli.algorithm {
        Some(a) => parse_algorithm(a.as_str()),
        None => match &cfg.matching.algorithm {
            Some(a) => parse_algorithm(a.as_str()),
            None => MatchingAlgorithm::Normal,
        },
    };
    let require_match = match cfg.matching.require {
        Some(r) => r,
        None => true,
    };
    let ascii_input = match cfg.matching.ascii {
        Some(a) => a,
        None => false,
    };
    let use_history = match cli.history {
        Some(h) => h,
        None => match cfg.history.history {
            Some(h) => h,
            None => true,
        },
    };
    let history_file = copy_opt(&cfg.history.path);
    Behaviour {
        mode,
        target_output,
        default_terminal,
        algorithm,
        require_match,
        ascii_input,
        use_history,
        history_file,
    }
}

// ── Layout from the theme ───────────────────────────────────────────────────

/// What a theme decides of the window and its text, besides colors.
#[derive(Debug, Clone)]
pub struct Layout {
    pub width: UnitValue,
    pub height: UnitValue,
    pub anchor: Anchor,
    pub margin_top: UnitValue,
    pub margin_bottom: UnitValue,
    pub margin_left: UnitValue,
    pub margin_right: UnitValue,
    pub scale: bool,
    pub font: String,
    pub font_size: u32,
    pub font_features: String,
    pub font_variations: String,
    pub hint_font: bool,
    pub corner_radius: u32,
    pub border_width: u32,
    pub outline_width: u32,
    pub padding_top: UnitValue,
    pub padding_bottom: UnitValue,
    pub padding_left: UnitValue,
    pub padding_right: UnitValue,
    pub clip_to_padding: bool,
    pub prompt_text: String,
    pub prompt_padding: u32,
    pub num_results: u32,
    pub result_spacing: u32,
    pub horizontal: bool,
    pub hide_cursor: bool,
    pub hide_input: bool,
    pub hidden_character: char,
    pub cursor_show: bool,
    pub cursor_kind: CursorKind,
    pub cursor_corner_radius: u32,
    pub cursor_thickness: Option<u32>,
}

/// `o`'s value, or `d` when it is unset.
pub open spec fn or_u32(o: Option<u32>, d: u32) -> u32 {
    match o {
        Some(v) => v,
        None => d,
    }
}

/// `o`'s value, or `d` when it is unset.
pub open spec fn or_bool(o: Option<bool>, d: bool) -> bool {
    match o {
        Some(v) => v,
        None => d,
    }
}

/// The characters of `o`, or `d` when it is unset.
pub open spec fn or_text(o: Option<String>, d: Seq<char>) -> Seq<char> {
    match o {
        Some(v) => v@,
        None => d,
    }
}

/// The unit value of `o`, or `d` when it is unset.
pub open spec fn or_dim(o: Option<Dim>, d: UnitValue) -> UnitValue {
    match o {
        Some(v) => spec_dim_to_unit(v),
        None => d,
    }
}

/// The anchor a theme names (see `parse_anchor`), the center when unset.
pub open spec fn anchor_of(o: Option<String>) -> Anchor {
    match o {
        Some(a) => anchor_named(dashes_to_underscores(spec_str_lowercase(a@))),
        None => Anchor::Center,
    }
}

/// The cursor kind a theme names (see `parse_cursor_kind`), a bar when unset.
pub open spec fn cursor_kind_of(o: Option<String>) -> CursorKind {
    match o {
        Some(k) => if spec_str_lowercase(k@) == word_block() {
            CursorKind::Block
        } else if spec_str_lowercase(k@) == word_underscore() {
            CursorKind::Underscore
        } else {
            CursorKind::Bar
        },
        None => CursorKind::Bar,
    }
}

pub open spec fn word_horizontal() -> Seq<char> {
    seq!['h', 'o', 'r', 'i', 'z', 'o', 'n', 't', 'a', 'l']
}

pub open spec fn word_sans() -> Seq<char> {
    seq!['S', 'a', 'n', 's']
}

pub open spec fn word_run_prompt() -> Seq<char> {
    seq!['r', 'u', 'n', ':', ' ']
}

/// The prompt: the prompt section's text, else the text section's, else `run: `.
pub open spec fn prompt_of(t: Theme) -> Seq<char> {
    match t.prompt.text {
        Some(p) => p@,
        None => or_text(t.text.prompt, word_run_prompt()),
    }
}

/// The character shown for each hidden input character: the first one the
/// theme gives, else `*`.
pub open spec fn hidden_char_of(o: Option<String>) -> char {
    match o {
        Some(s) => if s@.len() > 0 {
            s@[0]
        } else {
            '*'
        },
        None => '*',
    }
}

/// Whether the results are laid out in a row: the theme's results mode is
/// `horizontal`, in any ASCII case.
pub open spec fn horizontal_of(o: Option<String>) -> bool {
    match o {
        Some(m) => eq_ignore_ascii_case(m@, word_horizontal()),
        None => false,
    }
}

/// Everything [`resolve_layout`] decides from `t`.
pub open spec fn lays_out(t: Theme, l: Layout) -> bool {
    let w = t.window;
    &&& l.width == or_dim(w.width, UnitValue { value: 1280, is_percent: false })
    &&& l.height == or_dim(w.height, UnitValue { value: 720, is_percent: false })
    &&& l.anchor == anchor_of(w.anchor)
    &&& l.margin_top == (UnitValue { value: or_u32(w.margin_top, 0), is_percent: false })
    &&& l.margin_bottom == (UnitValue { value: or_u32(w.margin_bottom, 0), is_percent: false })
    &&& l.margin_left == (UnitValue { value: or_u32(w.margin_left, 0), is_percent: false })
    &&& l.margin_right == (UnitValue { value: or_u32(w.margin_right, 0), is_percent: false })
    &&& l.scale == or_bool(w.scale, true)
    &&& l.font@ == or_text(t.font.name, word_sans())
    &&& l.font_size == or_u32(t.font.size, 24)
    &&& l.font_features@ == or_text(t.font.features, Seq::empty())
    &&& l.font_variations@ == or_text(t.font.variations, Seq::empty())
    &&& l.hint_font == or_bool(t.font.hint, true)
    &&& l.corner_radius == or_u32(w.corner_radius, 0)
    &&& l.border_width == or_u32(w.border_width, 12)
    &&& l.outline_width == or_u32(w.outline_width, 4)
    &&& l.padding_top == or_dim(w.padding_top, UnitValue { value: 8, is_percent: false })
    &&& l.padding_bottom == or_dim(w.padding_bottom, UnitValue { value: 8, is_percent: false })
    &&& l.padding_left == or_dim(w.padding_left, UnitValue { value: 8, is_percent: false })
    &&& l.padding_right == or_dim(w.padding_right, UnitValue { value: 8, is_percent: false })
    &&& l.clip_to_padding == or_bool(w.clip_to_padding, true)
    &&& l.prompt_text@ == prompt_of(t)
    &&& l.prompt_padding == or_u32(t.prompt.padding, 0)
    &&& l.num_results == or_u32(t.results.count, 0)
    &&& l.result_spacing == or_u32(t.results.spacing, 0)
    &&& l.horizontal == horizontal_of(t.results.mode)
    &&& l.hide_cursor == or_bool(t.cursor.hide, false)
    &&& l.hide_input == or_bool(t.input.hide, false)
    &&& l.hidden_character == hidden_char_of(t.input.hidden_character)
    &&& l.cursor_show == or_bool(t.input.cursor, false)
    &&& l.cursor_kind == cursor_kind_of(t.input.cursor_style)
    &&& l.cursor_corner_radius == or_u32(t.input.cursor_corner_radius, 0)
    &&& l.cursor_thickness == t.input.cursor_thickness
}

fn text_or(o: &Option<String>, d: &str) -> (r: String)
    ensures
        r@ == or_text(*o, d@),
{
    match o {
        Some(s) => s.clone(),
        None => d.to_owned(),
    }
}

fn dim_or(o: &Option<Dim>, d: UnitValue) -> (r: UnitValue)
    ensures
        r == or_dim(*o, d),
{
    match o {
        Some(v) => dim_to_unit(v),
        None => d,
    }
}

fn u32_or(o: Option<u32>, d: u32) -> (r: u32)
    ensures
        r == or_u32(o, d),
{
    match o {
        Some(v) => v,
        None => d,
    }
}

fn bool_or(o: Option<bool>, d: bool) -> (r: bool)
    ensures
        r == or_bool(o, d),
{
    match o {
        Some(v) => v,
        None => d,
    }
}

/// Decides the window and text layout from the theme, as [`lays_out`] says.
pub fn resolve_layout(t: &Theme) -> (l: Layout)
    ensures
        lays_out(*t, l),
{
    proof {
        reveal_strlit("Sans");
        reveal_strlit("");
        reveal_strlit("run: ");
        assert("Sans"@ =~= word_sans());
        assert(""@ =~= Seq::<char>::empty());
        assert("run: "@ =~= word_run_prompt());
    }
    let w = &t.window;
    let anchor = match &w.anchor {
        Some(a) => parse_anchor(a.as_str()),
        None => Anchor::Center,
    };
    let prompt_text = match &t.prompt.text {
        Some(p) => p.clone(),
        None => text_or(&t.text.prompt, "run: "),
    };
    let horizontal = match &t.results.mode {
        Some(m) => {
            let cs = crate::text::chars_of(m.as_str());
            let word = ['h', 'o', 'r', 'i', 'z', 'o', 'n', 't', 'a', 'l'];
            assert(word@ =~= word_horizontal());
            eq_ignore_ascii_case_exec(cs.as_slice(), word.as_slice())
        },
        None => false,
    };
    let hidden_character = match &t.input.hidden_character {
        Some(s) => {
            let cs = crate::text::chars_of(s.as_str());
            if cs.len() > 0 {
                cs[0]
            } else {
                '*'
            }
        },
        None => '*',
    };
    let cursor_kind = match &t.input.cursor_style {
        Some(k) => parse_cursor_kind(k.as_str()),
        None => CursorKind::Bar,
    };
    let l = Layout {
        width: dim_or(&w.width, UnitValue::pixels(1280)),
        height: dim_or(&w.height, UnitValue::pixels(720)),
        anchor,
        margin_top: UnitValue::pixels(u32_or(w.margin_top, 0)),
        margin_bottom: UnitValue::pixels(u32_or(w.margin_bottom, 0)),
        margin_left: UnitValue::pixels(u32_or(w.margin_left, 0)),
        margin_right: UnitValue::pixels(u32_or(w.margin_right, 0)),
        scale: bool_or(w.scale, true),
        font: text_or(&t.font.name, "Sans"),
        font_size: u32_or(t.font.size, 24),
        font_features: text_or(&t.font.features, ""),
        font_variations: text_or(&t.font.variations, ""),
        hint_font: bool_or(t.font.hint, true),
        corner_radius: u32_or(w.corner_radius, 0),
        border_width: u32_or(w.border_width, 12),
        outline_width: u32_or(w.outline_width, 4),
        padding_top: dim_or(&w.padding_top, UnitValue::pixels(8)),
        padding_bottom: dim_or(&w.padding_bottom, UnitValue::pixels(8)),
        padding_left: dim_or(&w.padding_left, UnitValue::pixels(8)),
        padding_right: dim_or(&w.padding_right, UnitValue::pixels(8)),
        clip_to_padding: bool_or(w.clip_to_padding, true),
        prompt_text,
        prompt_padding: u32_or(t.prompt.padding, 0),
        num_results: u32_or(t.results.count, 0),
        result_spacing: u32_or(t.results.spacing, 0),
        horizontal,
        hide_cursor: bool_or(t.cursor.hide, false),
        hide_input: bool_or(t.input.hide, false),
        hidden_character,
        cursor_show: bool_or(t.input.cursor, false),
        cursor_kind,
        cursor_corner_radius: u32_or(t.input.cursor_corner_radius, 0),
        cursor_thickness: t.input.cursor_thickness,
    };
    l
}

} // verus!
