use hypricons::config::{
    config_dir_for, config_file_for, config_path_for, d_arrange_mode, d_columns, d_desktop_path,
    d_icon_size, d_launch_single_click, d_layout, d_show_hidden, d_show_home, d_show_trash,
    d_sort_by, d_sort_order, d_theme, expand_user_with, load_settings_with_home, Overrides,
    Settings,
};

fn defaults() -> Settings {
    Settings::defaults_with_home(Some("/home/u"))
}

#[test]
fn defaults_are_the_documented_ones() {
    let s = defaults();
    assert_eq!(s.desktop_path, "/home/u/Desktop");
    assert_eq!(s.icon_size, 48);
    assert!(!s.show_hidden);
    assert!(!s.launch_single_click);
    assert_eq!(s.sort_by, "name");
    assert_eq!(s.sort_order, "asc");
    assert_eq!(s.layout, "grid");
    assert_eq!(s.columns, 4);
    assert_eq!(s.theme, "default");
    assert_eq!(s.arrange_mode, "auto");
    assert!(s.show_home);
    assert!(s.show_trash);
    assert!(!s.debug);
    assert_eq!(s.config_file, None);
}

#[test]
fn default_values_one_by_one() {
    assert_eq!(d_desktop_path(), "~/Desktop");
    assert_eq!(d_icon_size(), 48);
    assert!(!d_show_hidden());
    assert!(!d_launch_single_click());
    assert_eq!(d_sort_by(), "name");
    assert_eq!(d_sort_order(), "asc");
    assert_eq!(d_layout(), "grid");
    assert_eq!(d_columns(), 4);
    assert_eq!(d_theme(), "default");
    assert_eq!(d_arrange_mode(), "auto");
    assert!(d_show_home());
    assert!(d_show_trash());
}

#[test]
fn defaults_without_home_keep_the_tilde() {
    assert_eq!(Settings::defaults_with_home(None).desktop_path, "~/Desktop");
}

#[test]
fn no_file_and_no_flags_gives_defaults() {
    let s = load_settings_with_home(None, None, Some("/home/u"));
    assert_eq!(s.desktop_path, "/home/u/Desktop");
    assert_eq!(s.icon_size, 48);
    assert_eq!(s.config_file, None);
}

#[test]
fn flags_override_defaults() {
    let args = Overrides {
        icon_size: Some(64),
        show_hidden: Some(true),
        sort_by: Some("date".to_string()),
        show_trash: Some(false),
        ..Default::default()
    };
    let s = load_settings_with_home(None, Some(&args), Some("/home/u"));
    assert_eq!(s.icon_size, 64);
    assert!(s.show_hidden);
    assert_eq!(s.sort_by, "date");
    assert!(!s.show_trash);
    assert!(s.show_home);
    assert_eq!(s.sort_order, "asc");
}

#[test]
fn config_file_overrides_defaults_and_expands_the_folder() {
    let mut file = defaults();
    file.icon_size = 32;
    file.desktop_path = "~/Pictures".to_string();
    file.arrange_mode = "free".to_string();
    let s = load_settings_with_home(Some(file), None, Some("/home/u"));
    assert_eq!(s.icon_size, 32);
    assert_eq!(s.desktop_path, "/home/u/Pictures");
    assert_eq!(s.arrange_mode, "free");
}

#[test]
fn flags_override_the_config_file() {
    let mut file = defaults();
    file.icon_size = 32;
    file.launch_single_click = true;
    let args = Overrides {
        icon_size: Some(96),
        desktop_path: Some("~/Downloads".to_string()),
        config_file: Some("/tmp/custom.json".to_string()),
        debug: Some(true),
        ..Default::default()
    };
    let s = load_settings_with_home(Some(file), Some(&args), Some("/home/u"));
    assert_eq!(s.icon_size, 96);
    assert!(s.launch_single_click);
    assert_eq!(s.desktop_path, "/home/u/Downloads");
    assert_eq!(s.config_file.as_deref(), Some("/tmp/custom.json"));
    assert!(s.debug);
}

#[test]
fn tilde_expansion() {
    assert_eq!(expand_user_with("~/x/y", Some("/h")), "/h/x/y");
    assert_eq!(expand_user_with("~", Some("/h")), "/h");
    assert_eq!(expand_user_with("~/", Some("/h")), "/h/");
    assert_eq!(expand_user_with("~user/x", Some("/h")), "~user/x");
    assert_eq!(expand_user_with("~/x", None), "~/x");
    assert_eq!(expand_user_with("/abs/~/x", Some("/h")), "/abs/~/x");
    assert_eq!(expand_user_with("~//abs", Some("/h")), "/abs");
}

#[test]
fn config_locations() {
    assert_eq!(config_dir_for("/home/u"), "/home/u/.config/hypricons");
    assert_eq!(config_file_for("/home/u"), "/home/u/.config/hypricons/config.json");
}

#[test]
fn custom_config_used_only_when_it_exists() {
    let args = Overrides { config_file: Some("/c.json".to_string()), ..Default::default() };
    assert_eq!(config_path_for("/d/config.json".to_string(), Some(&args), true), "/c.json");
    assert_eq!(config_path_for("/d/config.json".to_string(), Some(&args), false), "/d/config.json");
    assert_eq!(config_path_for("/d/config.json".to_string(), None, true), "/d/config.json");
    let none = Overrides::default();
    assert_eq!(config_path_for("/d/config.json".to_string(), Some(&none), true), "/d/config.json");
}

#[test]
fn set_sort_changes_only_the_named_setting() {
    let mut s = defaults();
    s.set_sort("sort_by", "type");
    assert_eq!(s.sort_by, "type");
    assert_eq!(s.sort_order, "asc");
    s.set_sort("sort_order", "desc");
    assert_eq!(s.sort_order, "desc");
    s.set_sort("columns", "9");
    assert_eq!(s.columns, 4);
    assert_eq!(s.sort_by, "type");
}
