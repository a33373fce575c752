use tofi::run_commands::{format_commands, parse_commands, resolve_cache_path};

#[test]
fn cache_roundtrip_preserves_commands() {
    let commands = vec!["bash".to_string(), "ls".to_string(), "vim".to_string()];
    let text = format_commands(&commands);
    assert_eq!(text, "bash\nls\nvim\n");
    assert_eq!(parse_commands(&text), commands);
}

#[test]
fn load_skips_empty_lines() {
    assert_eq!(parse_commands("a\n\nb\r\n\n"), vec!["a".to_string(), "b".to_string()]);
}

#[test]
fn cache_path_prefers_xdg_cache_home() {
    assert_eq!(resolve_cache_path(Some("/c"), Some("/h")), Some("/c/tofi-compgen".to_string()));
    assert_eq!(resolve_cache_path(None, Some("/h")), Some("/h/.cache/tofi-compgen".to_string()));
    assert_eq!(resolve_cache_path(None, None), None);
}
