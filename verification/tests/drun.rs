use tofi::drun::{
    best_locale, current_locale, exec_command, matches_current_desktop, parse_entry_text,
    resolve_cache_path, DesktopEntry,
};
use tofi::string_table::StringHashMap;

/// Build a locale map from a slice of (key, value) pairs.
fn locale_map(entries: &[(&str, &str)]) -> StringHashMap<String> {
    let mut m = StringHashMap::new();
    for (k, v) in entries {
        m.insert(k.to_string(), v.to_string());
    }
    m
}

/// Reads `content` as the desktop file `id`, with no locale and no current desktop.
fn parse_entry(id: &str, content: &str) -> Option<DesktopEntry> {
    parse_entry_text(id, id, content, "", "", None)
}

// -- parse_entry --------------------------------------------------------------

#[test]
fn parse_basic_entry() {
    let entry = parse_entry(
        "test.desktop",
        "[Desktop Entry]
Type=Application
Name=My App
Exec=myapp %u
Icon=myapp
Keywords=util;tool;
",
    )
    .expect("parse");
    assert_eq!(entry.name, "My App");
    assert_eq!(entry.exec_line, "myapp %u");
    assert_eq!(entry.icon, "myapp");
    assert_eq!(entry.keywords, "util;tool;");
    assert!(!entry.terminal);
}

#[test]
fn parse_hidden_returns_none() {
    let r = parse_entry(
        "h.desktop",
        "[Desktop Entry]
Name=Hidden
Exec=x
Hidden=true
",
    );
    assert!(r.is_none());
}

#[test]
fn parse_no_display_returns_none() {
    let r = parse_entry(
        "nodisplay.desktop",
        "[Desktop Entry]
Name=NoDisp
Exec=x
NoDisplay=true
",
    );
    assert!(r.is_none());
}

#[test]
fn parse_terminal_flag() {
    let entry = parse_entry(
        "term.desktop",
        "[Desktop Entry]
Name=Term App
Exec=myapp
Terminal=true
",
    )
    .expect("parse");
    assert!(entry.terminal);
}

#[test]
fn parse_missing_name_returns_none() {
    let r = parse_entry(
        "noname.desktop",
        "[Desktop Entry]
Exec=myapp
",
    );
    assert!(r.is_none());
}

#[test]
fn parse_only_desktop_entry_section_is_read() {
    let entry = parse_entry(
        "sec.desktop",
        "[Other Section]
Name=Wrong
[Desktop Entry]
Name=Correct
Exec=x
",
    )
    .expect("parse");
    assert_eq!(entry.name, "Correct");
}

// -- exec_command -------------------------------------------------------------

fn entry_for_exec(exec: &str) -> DesktopEntry {
    DesktopEntry {
        id: "t.desktop".into(),
        name: "Test App".into(),
        path: "/usr/share/applications/t.desktop".into(),
        keywords: String::new(),
        exec_line: exec.to_owned(),
        icon: "test-icon".into(),
        terminal: false,
    }
}

#[test]
fn exec_plain_command_unchanged() {
    let e = entry_for_exec("myapp --flag");
    assert_eq!(exec_command(&e), "myapp --flag");
}

#[test]
fn exec_file_codes_removed() {
    let e = entry_for_exec("myapp %f");
    assert_eq!(exec_command(&e), "myapp");
    let e = entry_for_exec("myapp %F %u %U");
    assert_eq!(exec_command(&e), "myapp");
}

#[test]
fn exec_percent_percent_becomes_literal() {
    let e = entry_for_exec("echo %%");
    assert_eq!(exec_command(&e), "echo %");
}

#[test]
fn exec_icon_expansion() {
    let e = entry_for_exec("myapp %i");
    assert_eq!(exec_command(&e), "myapp --icon test-icon");
}

#[test]
fn exec_name_expansion() {
    let e = entry_for_exec("myapp %c");
    assert_eq!(exec_command(&e), "myapp Test App");
}

#[test]
fn exec_path_expansion() {
    let e = entry_for_exec("myapp %k");
    assert_eq!(exec_command(&e), "myapp /usr/share/applications/t.desktop");
}

#[test]
fn exec_no_icon_field_drops_percent_i() {
    let mut e = entry_for_exec("myapp %i");
    e.icon = String::new();
    assert_eq!(exec_command(&e), "myapp");
}

#[test]
fn exec_trailing_lone_percent_is_dropped() {
    let e = entry_for_exec("  myapp %");
    assert_eq!(exec_command(&e), "myapp");
}

// -- resolve_cache_path (pure) ------------------------------------------------

#[test]
fn tests_path_uses_xdg_cache_home() {
    let p = resolve_cache_path(Some("/tmp/cache"), Some("/home/user")).expect("path");
    assert_eq!(p, "/tmp/cache/tofi-drun");
}

#[test]
fn tests_path_falls_back_to_home_cache() {
    let p = resolve_cache_path(None, Some("/home/user")).expect("path");
    assert_eq!(p, "/home/user/.cache/tofi-drun");
}

#[test]
fn path_returns_none_without_env() {
    assert!(resolve_cache_path(None, None).is_none());
}

// -- best_locale (pure, no env) -----------------------------------------------

#[test]
fn best_locale_exact_lang_territory_preferred() {
    // When both "en" and "en_US" keys are present the full key wins.
    let map = locale_map(&[("", "Default"), ("en", "English"), ("en_US", "English US")]);
    assert_eq!(best_locale(&map, "en", "US"), Some("English US"));
}

#[test]
fn best_locale_lang_only_when_no_territory_variant() {
    // "en_US" key absent -> fall back to "en".
    let map = locale_map(&[("", "Default"), ("en", "English")]);
    assert_eq!(best_locale(&map, "en", "US"), Some("English"));
}

#[test]
fn best_locale_fallback_to_unlocalized() {
    // Neither "en" nor "en_US" present -> use unlocalized empty key.
    let map = locale_map(&[("", "Default"), ("fr", "French")]);
    assert_eq!(best_locale(&map, "en", "US"), Some("Default"));
}

#[test]
fn best_locale_empty_map_returns_none() {
    let map: StringHashMap<String> = StringHashMap::new();
    assert!(best_locale(&map, "en", "US").is_none());
}

// -- current_locale -----------------------------------------------------------

#[test]
fn current_locale_lang_with_territory() {
    let (lang, territory) = current_locale(Some("en_US.UTF-8"), None);
    assert_eq!(lang, "en");
    assert_eq!(territory, "US");
}

#[test]
fn current_locale_lang_without_territory() {
    let (lang, territory) = current_locale(Some("fr.UTF-8"), None);
    assert_eq!(lang, "fr");
    assert_eq!(territory, "");
}

#[test]
fn current_locale_both_unset_returns_empty() {
    let (lang, territory) = current_locale(None, None);
    assert_eq!(lang, "");
    assert_eq!(territory, "");
}

#[test]
fn current_locale_language_used_when_lang_unset() {
    let (lang, territory) = current_locale(None, Some("de_AT"));
    assert_eq!(lang, "de");
    assert_eq!(territory, "AT");
}

// -- matches_current_desktop --------------------------------------------------

#[test]
fn matches_desktop_unset_returns_false() {
    assert!(!matches_current_desktop(None, &["GNOME".to_owned()]));
}

#[test]
fn matches_desktop_exact_match() {
    assert!(matches_current_desktop(Some("GNOME"), &["GNOME".to_owned()]));
}

#[test]
fn matches_desktop_colon_separated_multi_value() {
    // "GNOME:KDE" -- searching for "KDE" must succeed.
    assert!(matches_current_desktop(Some("GNOME:KDE"), &["KDE".to_owned()]));
}

#[test]
fn matches_desktop_no_overlap_returns_false() {
    assert!(!matches_current_desktop(Some("GNOME"), &["KDE".to_owned()]));
}

// -- parse_entry: OnlyShowIn / NotShowIn --------------------------------------

#[test]
fn parse_only_show_in_matching_desktop_returns_some() {
    let result = parse_entry_text(
        "only_gnome.desktop",
        "only_gnome.desktop",
        "[Desktop Entry]
Name=OnlyGnome
Exec=x
OnlyShowIn=GNOME;
",
        "",
        "",
        Some("GNOME"),
    );
    assert!(result.is_some());
}

#[test]
fn parse_only_show_in_non_matching_returns_none() {
    let result = parse_entry_text(
        "only_kde.desktop",
        "only_kde.desktop",
        "[Desktop Entry]
Name=OnlyKDE
Exec=x
OnlyShowIn=KDE;
",
        "",
        "",
        Some("GNOME"),
    );
    assert!(result.is_none());
}

#[test]
fn parse_not_show_in_matching_desktop_returns_none() {
    let result = parse_entry_text(
        "not_gnome.desktop",
        "not_gnome.desktop",
        "[Desktop Entry]
Name=NotGnome
Exec=x
NotShowIn=GNOME;
",
        "",
        "",
        Some("GNOME"),
    );
    assert!(result.is_none());
}

#[test]
fn parse_not_show_in_non_matching_returns_some() {
    let result = parse_entry_text(
        "not_kde.desktop",
        "not_kde.desktop",
        "[Desktop Entry]
Name=NotKDE
Exec=x
NotShowIn=KDE;
",
        "",
        "",
        Some("GNOME"),
    );
    assert!(result.is_some());
}

// -- localisation and normalisation -------------------------------------------

#[test]
fn parse_localized_name_and_keywords() {
    let entry = parse_entry_text(
        "loc.desktop",
        "/apps/loc.desktop",
        "[Desktop Entry]
Name=Files
Name[de]=Dateien
Name[de_AT]=Dateien AT
Keywords=file;
Keywords[de]=datei;
Exec=files
",
        "de",
        "AT",
        None,
    )
    .expect("parse");
    assert_eq!(entry.name, "Dateien AT");
    assert_eq!(entry.keywords, "datei;");
    assert_eq!(entry.path, "/apps/loc.desktop");
    assert_eq!(entry.id, "loc.desktop");
}

#[test]
fn parse_name_is_nfc_normalized() {
    let entry = parse_entry("n.desktop", "[Desktop Entry]\nName=Cafe\u{0301}\nExec=x\n").expect("parse");
    assert_eq!(entry.name, "Caf\u{00E9}");
}

// -- application_dirs ---------------------------------------------------------

use tofi::drun::application_dirs;

#[test]
fn application_dirs_includes_xdg_data_home() {
    let dirs = application_dirs(Some("/tmp/datahome"), Some("/home/u"), None);
    assert!(
        dirs.contains(&"/tmp/datahome/applications".to_string()),
        "expected /tmp/datahome/applications in {dirs:?}"
    );
}

#[test]
fn application_dirs_includes_xdg_data_dirs_entries() {
    let dirs = application_dirs(None, None, Some("/a:/b"));
    assert!(
        dirs.contains(&"/a/applications".to_string()),
        "expected /a/applications in {dirs:?}"
    );
    assert!(
        dirs.contains(&"/b/applications".to_string()),
        "expected /b/applications in {dirs:?}"
    );
}

#[test]
fn application_dirs_defaults() {
    let dirs = application_dirs(None, Some("/home/u"), None);
    assert_eq!(
        dirs,
        vec![
            "/home/u/.local/share/applications".to_string(),
            "/usr/local/share/applications".to_string(),
            "/usr/share/applications".to_string(),
        ]
    );
}

#[test]
fn application_dirs_skip_empty_entries() {
    let dirs = application_dirs(Some("/d"), None, Some("::/x:"));
    assert_eq!(dirs, vec!["/d/applications".to_string(), "/x/applications".to_string()]);
}

fn named(id: &str, name: &str) -> DesktopEntry {
    DesktopEntry {
        id: id.into(),
        name: name.into(),
        path: String::new(),
        keywords: String::new(),
        exec_line: String::new(),
        icon: String::new(),
        terminal: false,
    }
}

#[test]
fn desktop_file_id_replaces_slashes() {
    assert_eq!(tofi::drun::desktop_file_id("kde/org.foo.desktop"), "kde-org.foo.desktop");
    assert_eq!(tofi::drun::desktop_file_id("firefox.desktop"), "firefox.desktop");
}

#[test]
fn first_file_of_each_id_wins() {
    let ids: Vec<String> = ["a", "b", "a", "c", "b"].iter().map(|s| s.to_string()).collect();
    assert_eq!(tofi::drun::first_of_each_id(&ids), vec![true, true, false, true, false]);
}

#[test]
fn sort_by_name_is_stable() {
    let mut v = vec![named("1", "Zed"), named("2", "Alpha"), named("3", "Zed"), named("4", "Beta")];
    tofi::drun::sort_by_name(&mut v);
    let ids: Vec<&str> = v.iter().map(|e| e.id.as_str()).collect();
    assert_eq!(ids, vec!["2", "4", "1", "3"]);
}
