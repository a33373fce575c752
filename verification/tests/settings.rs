use tofi::settings::{detect_mode, LaunchMode};
use tofi::theme::{Anchor, CursorKind, Dim, Theme, UnitValue};

#[test]
fn detect_mode_drun_string() {
    assert_eq!(detect_mode(Some("drun")), LaunchMode::Drun);
}

#[test]
fn detect_mode_run_string() {
    assert_eq!(detect_mode(Some("run")), LaunchMode::Run);
}

#[test]
fn detect_mode_none_defaults_to_drun() {
    assert_eq!(detect_mode(None), LaunchMode::Drun);
}

#[test]
fn detect_mode_unknown_defaults_to_drun() {
    assert_eq!(detect_mode(Some("bogus")), LaunchMode::Drun);
}

#[test]
fn detect_mode_dmenu_string() {
    assert_eq!(detect_mode(Some("dmenu")), LaunchMode::Dmenu);
    assert_eq!(detect_mode(Some("DMENU")), LaunchMode::Drun);
}

use tofi::cli::Cli;
use tofi::config::Config;
use tofi::matching::MatchingAlgorithm;
use tofi::settings::resolve_behaviour;

#[test]
fn defaults_when_nothing_set() {
    let b = resolve_behaviour(&Cli::default(), &Config::default());
    assert_eq!(b.mode, LaunchMode::Drun);
    assert_eq!(b.algorithm, MatchingAlgorithm::Normal);
    assert!(b.require_match);
    assert!(!b.ascii_input);
    assert!(b.use_history);
    assert!(b.history_file.is_none());
    assert!(b.target_output.is_empty());
    assert!(b.default_terminal.is_none());
    let l = tofi::settings::resolve_layout(&Theme::default());
    assert_eq!(l.width, UnitValue::pixels(1280));
    assert_eq!(l.height, UnitValue::pixels(720));
    assert_eq!(l.font, "Sans");
    assert_eq!(l.font_size, 24);
    assert!(l.hint_font);
    assert_eq!(l.hidden_character, '*');
    assert!(!l.hide_cursor);
    assert!(!l.hide_input);
    assert!(!l.horizontal);
    assert_eq!(l.num_results, 0);
    assert_eq!(l.result_spacing, 0);
}

#[test]
fn cli_algorithm_overrides_config() {
    let cli = Cli { algorithm: Some("fuzzy".into()), ..Cli::default() };
    let mut config = Config::default();
    config.matching.algorithm = Some("normal".to_owned());
    assert_eq!(resolve_behaviour(&cli, &config).algorithm, MatchingAlgorithm::Fuzzy);
}

#[test]
fn cli_history_false_overrides_config() {
    let cli = Cli { history: Some(false), ..Cli::default() };
    let mut config = Config::default();
    config.history.history = Some(true);
    assert!(!resolve_behaviour(&cli, &config).use_history);
}

#[test]
fn cli_output_overrides_config() {
    let cli = Cli { output: Some("HDMI-1".into()), ..Cli::default() };
    assert_eq!(resolve_behaviour(&cli, &Config::default()).target_output, "HDMI-1");
}

#[test]
fn config_output_empty_string_is_ignored() {
    let mut config = Config::default();
    config.base.output = Some(String::new());
    config.base.terminal = Some(String::new());
    config.base.mode = Some("run".into());
    config.matching.require = Some(false);
    config.history.path = Some("/tmp/h".into());
    let b = resolve_behaviour(&Cli::default(), &config);
    assert!(b.target_output.is_empty());
    assert_eq!(b.default_terminal, None);
    assert_eq!(b.mode, LaunchMode::Run);
    assert!(!b.require_match);
    assert_eq!(b.history_file.as_deref(), Some("/tmp/h"));
}

#[test]
fn layout_defaults_and_overrides() {
    let l = tofi::settings::resolve_layout(&Theme::default());
    assert_eq!(l.width, UnitValue::pixels(1280));
    assert_eq!(l.height, UnitValue::pixels(720));
    assert_eq!(l.anchor, Anchor::Center);
    assert_eq!(l.font, "Sans");
    assert_eq!(l.font_size, 24);
    assert_eq!(l.border_width, 12);
    assert_eq!(l.outline_width, 4);
    assert_eq!(l.padding_left, UnitValue::pixels(8));
    assert_eq!(l.prompt_text, "run: ");
    assert_eq!(l.hidden_character, '*');
    assert!(!l.horizontal);
    assert_eq!(l.cursor_kind, CursorKind::Bar);
    assert!(l.scale && l.hint_font && l.clip_to_padding);

    let mut t = Theme::default();
    t.window.width = Some(Dim::Str("50%".to_string()));
    t.window.anchor = Some("Top-Left".to_string());
    t.text.prompt = Some("> ".to_string());
    t.results.mode = Some("HORIZONTAL".to_string());
    t.input.hidden_character = Some("#x".to_string());
    t.input.cursor_style = Some("Block".to_string());
    t.font.size = Some(12);
    let l = tofi::settings::resolve_layout(&t);
    assert_eq!(l.width, UnitValue::percent(50));
    assert_eq!(l.anchor, Anchor::TopLeft);
    assert_eq!(l.prompt_text, "> ");
    assert!(l.horizontal);
    assert_eq!(l.hidden_character, '#');
    assert_eq!(l.cursor_kind, CursorKind::Block);
    assert_eq!(l.font_size, 12);
}
