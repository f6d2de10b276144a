//! Unit scenarios for the parser, the search path builder, the sort and
//! the dashboard state.

use hyprdashboard::search_path::{base_dirs, pixmap_dirs};
use hyprdashboard::state::{desktop_entry_fields, AppInfo, Config, Dashboard};
use hyprdashboard::theme_index::parse_index_theme;
use hyprdashboard::ui::grid_rows;

#[test]
fn parse_index_theme_both_keys() {
    let d = parse_index_theme(
        "[Icon Theme]\nName=Demo\nDirectories=48x48/apps,64x64/apps\nInherits=Adwaita,hicolor\n",
    );
    assert_eq!(d.directories, vec!["48x48/apps", "64x64/apps"]);
    assert_eq!(d.inherits, vec!["Adwaita", "hicolor"]);
}

#[test]
fn parse_index_theme_semicolons_and_trim() {
    let d = parse_index_theme("  Directories= a/b ; c/d ,, e/f \n");
    assert_eq!(d.directories, vec!["a/b", "c/d", "e/f"]);
    assert!(d.inherits.is_empty());
}

#[test]
fn parse_index_theme_ignores_unknown_lines() {
    let d = parse_index_theme("# comment\nName=X\nSize=48\n\nInherits=Paper\n");
    assert!(d.directories.is_empty());
    assert_eq!(d.inherits, vec!["Paper"]);
}

#[test]
fn parse_index_theme_empty_text() {
    let d = parse_index_theme("");
    assert!(d.directories.is_empty());
    assert!(d.inherits.is_empty());
}

#[test]
fn parse_index_theme_accumulates_repeated_keys() {
    let d = parse_index_theme("Directories=a\nDirectories=b\n");
    assert_eq!(d.directories, vec!["a", "b"]);
}

#[test]
fn base_dirs_defaults() {
    let dirs = base_dirs(None, None, "/home/u");
    assert_eq!(dirs, vec!["/home/u/.local/share", "/usr/local/share", "/usr/share"]);
}

#[test]
fn base_dirs_overrides() {
    let dirs = base_dirs(Some("/custom/data"), Some("/a:/b::/c"), "/home/u");
    assert_eq!(dirs, vec!["/custom/data", "/a", "/b", "/c"]);
}

#[test]
fn base_dirs_empty_overrides_fall_back() {
    let dirs = base_dirs(Some(""), Some(""), "/home/u");
    assert_eq!(dirs, vec!["/home/u/.local/share", "/usr/local/share", "/usr/share"]);
}

#[test]
fn pixmap_dirs_fixed_order() {
    assert_eq!(pixmap_dirs(), vec!["/usr/share/pixmaps", "/usr/local/share/pixmaps"]);
}

#[test]
fn desktop_entry_fields_basic() {
    let (name, exec, icon) = desktop_entry_fields(
        "[Desktop Entry]\nName=Files\nExec=files --new-window\nIcon=system-file-manager\n",
    );
    assert_eq!(name, "Files");
    assert_eq!(exec, "files --new-window");
    assert_eq!(icon, "system-file-manager");
}

#[test]
fn desktop_entry_fields_missing_keys_are_empty() {
    let (name, exec, icon) = desktop_entry_fields("Name=OnlyName\n");
    assert_eq!(name, "OnlyName");
    assert_eq!(exec, "");
    assert_eq!(icon, "");
}

#[test]
fn desktop_entry_fields_first_line_wins() {
    let (name, _, _) = desktop_entry_fields("Name=First\nName=Second\n");
    assert_eq!(name, "First");
}

fn app(name: &str) -> AppInfo {
    AppInfo { name: String::from(name), exec_cmd: String::from("run"), icon: None }
}

#[test]
fn dashboard_sorts_by_lowercased_name() {
    let apps = vec![app("zeta"), app("Alpha"), app("beta")];
    let d = Dashboard::new(Config { icon_theme: None }, apps);
    let names: Vec<&str> = d.apps.iter().map(|a| a.name.as_str()).collect();
    assert_eq!(names, vec!["Alpha", "beta", "zeta"]);
    assert!(!d.show_settings);
}

#[test]
fn sort_is_case_insensitive() {
    // Raw code-point order would put "B-editor" first ('B' < 'a'); the
    // lowercased keys order "a-browser" first.
    let apps = vec![app("B-editor"), app("a-browser")];
    let d = Dashboard::new(Config { icon_theme: None }, apps);
    let names: Vec<&str> = d.apps.iter().map(|a| a.name.as_str()).collect();
    assert_eq!(names, vec!["a-browser", "B-editor"]);
}

#[test]
fn grid_rows_chunks_in_order() {
    let apps = vec![app("one"), app("two"), app("three"), app("four"), app("five")];
    let rows = grid_rows(apps, 4);
    assert_eq!(rows.len(), 2);
    let first: Vec<&str> = rows[0].iter().map(|a| a.name.as_str()).collect();
    let second: Vec<&str> = rows[1].iter().map(|a| a.name.as_str()).collect();
    assert_eq!(first, vec!["one", "two", "three", "four"]);
    assert_eq!(second, vec!["five"]);
}

#[test]
fn grid_rows_empty_input() {
    let rows = grid_rows(Vec::new(), 4);
    assert!(rows.is_empty());
}

#[test]
fn dashboard_toggle_settings_flips() {
    let mut d = Dashboard::new(Config { icon_theme: None }, Vec::new());
    assert!(!d.show_settings);
    d.toggle_settings();
    assert!(d.show_settings);
    d.toggle_settings();
    assert!(!d.show_settings);
}
