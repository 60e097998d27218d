use hypricons::config::Settings;
use hypricons::desktop::{
    apply_sort, empty_click, reflows_on_resize, EmptyClick,
    drop_plan, import_sources, is_iso_path, item_actions, item_key_action, item_menu, item_press,
    item_release, launch_kind, move_into_allowed, paste_step, properties_text, real_paths,
    rename_check, rename_selection, set_arrange_mode, shown_files, special_icons, trash_prompt,
    unique_candidate, view_key_action, visible_names, Button, ClickState, DropStep, DropTarget,
    ItemAction, Key, LaunchKind, PasteStep, ReleaseAction, RenameCheck, ViewAction,
};
use hypricons::icons::{
    icon_choice, icon_for_path, is_launcher_path, item_label, mime_icon_name, requested_icon,
    DesktopIcon, IconChoice, PathKind,
};
use hypricons::positions::Positions;

fn names(v: &[&str]) -> Vec<String> {
    v.iter().map(|s| s.to_string()).collect()
}

#[test]
fn hidden_and_missing_files_are_not_shown() {
    let sorted = names(&["a", ".hidden", "gone", "b"]);
    let exists = vec![true, true, false, true];
    assert_eq!(shown_files(&sorted, &exists, false), names(&["a", "b"]));
    assert_eq!(shown_files(&sorted, &exists, true), names(&["a", ".hidden", "b"]));
}

#[test]
fn special_icons_come_home_first() {
    let s = special_icons(true, Some("/home/u".to_string()), true, true, "/home/u/.local/share/Trash/files".to_string());
    assert_eq!(s.len(), 2);
    assert_eq!(s[0].label, "Home");
    assert_eq!(s[0].icon_name, "user-home");
    assert_eq!(s[0].path, "/home/u");
    assert_eq!(s[0].open_uri, None);
    assert_eq!(s[1].label, "Trash");
    assert_eq!(s[1].icon_name, "user-trash-full");
    assert_eq!(s[1].open_uri.as_deref(), Some("trash:///"));
    let t = special_icons(true, None, true, false, "/t".to_string());
    assert_eq!(t.len(), 1);
    assert_eq!(t[0].icon_name, "user-trash");
    assert!(special_icons(false, Some("/h".to_string()), false, false, "/t".to_string()).is_empty());
    let v = visible_names(&s, &names(&["x"]));
    assert_eq!(v, names(&["Home", "Trash", "x"]));
}

#[test]
fn rename_checks() {
    assert_eq!(rename_check("a.txt", "  a.txt "), RenameCheck::Unchanged);
    assert_eq!(rename_check("a.txt", "   "), RenameCheck::Invalid);
    assert_eq!(rename_check("a.txt", "x/y"), RenameCheck::Invalid);
    assert_eq!(rename_check("a.txt", "."), RenameCheck::Invalid);
    assert_eq!(rename_check("a.txt", ".."), RenameCheck::Invalid);
    assert_eq!(rename_check("a.txt", " b.txt\n"), RenameCheck::Rename("b.txt".to_string()));
    assert_eq!(rename_selection("photo.jpeg"), 5);
    assert_eq!(rename_selection(".bashrc"), 7);
    assert_eq!(rename_selection("a.tar.gz"), 5);
    assert_eq!(rename_selection(".."), 2);
}

#[test]
fn arrange_mode_changes() {
    let mut s = Settings::defaults_with_home(Some("/h"));
    let mut p = Positions::with_path("/p.json".to_string(), None);
    p.set("a", 1, 1);
    assert!(!set_arrange_mode(&mut s, &mut p, "free"));
    assert_eq!(s.arrange_mode, "free");
    assert_eq!(p.get("a"), Some((1, 1)));
    assert!(!set_arrange_mode(&mut s, &mut p, "sideways"));
    assert_eq!(s.arrange_mode, "free");
    assert!(set_arrange_mode(&mut s, &mut p, "auto"));
    assert_eq!(s.arrange_mode, "auto");
    assert_eq!(p.get("a"), None);
    p.set("b", 2, 2);
    assert!(!set_arrange_mode(&mut s, &mut p, "auto"));
    assert_eq!(p.get("b"), Some((2, 2)));
}

#[test]
fn presses_and_releases() {
    let idle = ClickState { pending: false, collapse: false };
    let p = item_press(idle, Button::Primary, false, 0);
    assert!(p.select && !p.menu && p.state.pending && !p.state.collapse);
    let p = item_press(idle, Button::Primary, true, 3);
    assert!(!p.select && p.state.collapse);
    let r = item_release(p.state, Button::Primary, 1, false);
    assert_eq!(r, (idle, ReleaseAction::Select));
    let p = item_press(idle, Button::Secondary, true, 3);
    assert!(!p.select && p.menu && !p.state.pending);
    let p = item_press(idle, Button::Secondary, false, 0);
    assert!(p.select && p.menu);
    let pending = ClickState { pending: true, collapse: false };
    assert_eq!(item_release(pending, Button::Primary, 2, false), (idle, ReleaseAction::Launch));
    assert_eq!(item_release(pending, Button::Primary, 1, false), (idle, ReleaseAction::Nothing));
    assert_eq!(item_release(pending, Button::Primary, 1, true), (idle, ReleaseAction::Launch));
    assert_eq!(item_release(idle, Button::Primary, 2, false), (idle, ReleaseAction::Nothing));
    assert_eq!(item_release(pending, Button::Secondary, 2, false), (idle, ReleaseAction::Nothing));
    let other = item_press(pending, Button::Other, true, 2);
    assert_eq!(other.state, pending);
    assert!(!other.select && !other.menu);
}

#[test]
fn keys() {
    assert_eq!(view_key_action(Key::Char('c'), true), Some(ViewAction::Copy));
    assert_eq!(view_key_action(Key::Char('X'), true), Some(ViewAction::Cut));
    assert_eq!(view_key_action(Key::Char('v'), true), Some(ViewAction::Paste));
    assert_eq!(view_key_action(Key::Char('a'), true), None);
    assert_eq!(view_key_action(Key::Left, true), None);
    assert_eq!(view_key_action(Key::Left, false), Some(ViewAction::Move(-1, 0)));
    assert_eq!(view_key_action(Key::Down, false), Some(ViewAction::Move(0, 1)));
    assert_eq!(view_key_action(Key::Char('c'), false), None);
    assert_eq!(item_key_action(Key::Return), Some(ItemAction::Launch));
    assert_eq!(item_key_action(Key::Delete), Some(ItemAction::Delete));
    assert_eq!(item_key_action(Key::F2), Some(ItemAction::Rename));
    assert_eq!(item_key_action(Key::Up), None);
}

#[test]
fn launch_kinds() {
    assert_eq!(launch_kind(Some("trash:///".to_string()), "/x.desktop"), LaunchKind::Uri("trash:///".to_string()));
    assert_eq!(launch_kind(None, "/a/App.DESKTOP"), LaunchKind::DesktopEntry);
    assert_eq!(launch_kind(None, "/a/disk.Iso"), LaunchKind::Iso);
    assert_eq!(launch_kind(None, "/a/notes.txt"), LaunchKind::Default);
    assert_eq!(launch_kind(None, "/a/.desktop"), LaunchKind::Default);
}

#[test]
fn item_menus() {
    let labels = |v: Vec<(String, String)>| v.into_iter().map(|(l, _)| l).collect::<Vec<_>>();
    assert_eq!(labels(item_menu("/h", true, false)), vec!["Open"]);
    assert_eq!(labels(item_menu("/a.txt", false, true)), vec!["Open", "Rename", "Delete", "Properties"]);
    assert_eq!(labels(item_menu("/a.ISO", false, true)), vec!["Open", "Unmount", "Rename", "Delete", "Properties"]);
    let m = item_menu("/a.iso", false, false);
    assert_eq!(m[1], ("Mount".to_string(), "desktop.iso-mount".to_string()));
    assert_eq!(m[0].1, "desktop.open");
    assert!(is_iso_path("/x/Y.IsO"));
    assert!(!is_iso_path("/x/iso"));
    assert_eq!(item_actions("/a.txt"), names(&["open", "rename", "delete", "properties"]));
    assert_eq!(item_actions("/a.iso").len(), 6);
}

#[test]
fn drops() {
    let p = drop_plan(DropTarget::Trash, true, true);
    assert_eq!((p.first, p.fallback), (Some(DropStep::Trash), DropStep::Reposition));
    let p = drop_plan(DropTarget::Folder, true, false);
    assert_eq!((p.first, p.fallback), (Some(DropStep::MoveInto), DropStep::Import));
    let p = drop_plan(DropTarget::Folder, false, true);
    assert_eq!((p.first, p.fallback), (None, DropStep::Reposition));
    let p = drop_plan(DropTarget::Nothing, true, false);
    assert_eq!(p.first, None);
    let items = vec![("/a".to_string(), false), ("/home".to_string(), true), ("/b".to_string(), false)];
    assert_eq!(real_paths(&items), names(&["/a", "/b"]));
    assert_eq!(import_sources(&names(&["", "/x", ""])), names(&["/x"]));
}

#[test]
fn unique_candidates() {
    assert_eq!(unique_candidate("/d/file.txt", 0), "/d/file.txt");
    assert_eq!(unique_candidate("/d/file.txt", 1), "/d/file (1).txt");
    assert_eq!(unique_candidate("/d/archive.tar.gz", 12), "/d/archive.tar (12).gz");
    assert_eq!(unique_candidate("/d/folder", 2), "/d/folder (2)");
    assert_eq!(unique_candidate("/d/.hidden", 3), "/d/.hidden (3)");
    assert_eq!(unique_candidate("plain", 1), "plain (1)");
}

#[test]
fn paste_and_move_steps() {
    assert_eq!(paste_step("", true, false, false), PasteStep::Skip);
    assert_eq!(paste_step("/a", false, false, false), PasteStep::Skip);
    assert_eq!(paste_step("/a", true, true, true), PasteStep::Skip);
    assert_eq!(paste_step("/a", true, true, false), PasteStep::Move);
    assert_eq!(paste_step("/a", true, false, true), PasteStep::Copy);
    assert!(move_into_allowed("/a/f", true, "/b", Some("/a/f")));
    assert!(!move_into_allowed("/a", true, "/a", Some("/a")));
    assert!(!move_into_allowed("/a", true, "/a/b/c", Some("/a")));
    assert!(move_into_allowed("/ab", true, "/abc", Some("/ab")));
    assert!(!move_into_allowed("/a", false, "/b", None));
    assert!(!move_into_allowed("", true, "/b", None));
    assert!(move_into_allowed("/a", true, "/a/x", None));
}

#[test]
fn dialog_texts() {
    assert_eq!(trash_prompt("a.txt"), "Move \u{201c}a.txt\u{201d} to trash?");
    assert_eq!(
        properties_text("a", "/d/a", true, "4.0 KB", "2024-01-01 00:00:00"),
        "Name: a\nPath: /d/a\nType: Folder\nSize: 4.0 KB\nModified: 2024-01-01 00:00:00"
    );
    assert!(properties_text("a", "/d/a", false, "1 B", "x").contains("Type: File\n"));
}

#[test]
fn content_type_icons() {
    assert_eq!(mime_icon_name("image/png"), "image-x-generic");
    assert_eq!(mime_icon_name("video/mp4"), "video-x-generic");
    assert_eq!(mime_icon_name("audio/ogg"), "audio-x-generic");
    assert_eq!(mime_icon_name("application/pdf"), "x-office-document");
    assert_eq!(mime_icon_name("application/zip"), "package-x-generic");
    assert_eq!(mime_icon_name("application/vnd.rar"), "package-x-generic");
    assert_eq!(mime_icon_name("text/html"), "text-html");
    assert_eq!(mime_icon_name("text/x-python"), "text-x-python");
    assert_eq!(mime_icon_name("application/json"), "text-x-json");
    assert_eq!(mime_icon_name("application/octet-stream"), "text-x-generic");
    assert_eq!(mime_icon_name("image"), "image-x-generic");
    assert_eq!(mime_icon_name(""), "text-x-generic");
}

#[test]
fn icons_for_paths() {
    let i = icon_for_path("/d/missing", PathKind::Missing, None, "");
    assert_eq!((i.name.as_str(), i.icon_name.as_deref(), i.is_app, i.is_dir), ("missing", Some("text-x-generic"), false, false));
    let i = icon_for_path("/d/dir", PathKind::Directory, None, "inode/directory");
    assert_eq!((i.icon_name.as_deref(), i.is_dir), (Some("folder"), true));
    let i = icon_for_path("/d/app.desktop", PathKind::File, Some("[Desktop Entry]\nIcon=firefox"), "");
    assert_eq!((i.icon_name.as_deref(), i.is_app), (Some("firefox"), true));
    let i = icon_for_path("/d/app.desktop", PathKind::File, None, "");
    assert_eq!(i.icon_name.as_deref(), Some("application-x-executable"));
    let i = icon_for_path("/d/pic.png", PathKind::File, None, "image/png");
    assert_eq!((i.path.as_str(), i.icon_name.as_deref()), ("/d/pic.png", Some("image-x-generic")));
    assert!(is_launcher_path("/x/a.desktop"));
    assert!(!is_launcher_path("/x/a.DESKTOP"));
}

#[test]
fn icon_sources() {
    let mut icon = DesktopIcon { name: "a".into(), path: "/a".into(), icon_name: None, is_app: true, is_dir: false };
    assert_eq!(requested_icon(&icon), "text-x-generic");
    assert_eq!(icon_choice(&icon, false, true), IconChoice::Themed("text-x-generic".into()));
    assert_eq!(icon_choice(&icon, false, false), IconChoice::Themed("application-x-executable".into()));
    icon.icon_name = Some("/usr/share/pixmaps/a.png".into());
    assert_eq!(icon_choice(&icon, true, false), IconChoice::File("/usr/share/pixmaps/a.png".into()));
    assert_eq!(icon_choice(&icon, false, true), IconChoice::Themed("/usr/share/pixmaps/a.png".into()));
    icon.is_app = false;
    icon.icon_name = Some("firefox".into());
    assert_eq!(icon_choice(&icon, true, false), IconChoice::Themed("text-x-generic".into()));
}

#[test]
fn labels_under_icons() {
    assert_eq!(item_label("a-very-long-file-name.txt", false), "a-very-long-\u{2026}");
    assert_eq!(item_label("a-very-long-file-name.txt", true), "a-very-long-file-name.txt");
}

#[test]
fn sorting_changes_forget_positions() {
    let mut s = Settings::defaults_with_home(Some("/h"));
    let mut p = Positions::with_path("/p.json".to_string(), None);
    p.set("a", 1, 1);
    apply_sort(&mut s, &mut p, "sort_by", "date");
    assert_eq!(s.sort_by, "date");
    assert_eq!(p.get("a"), None);
    p.set("b", 1, 1);
    apply_sort(&mut s, &mut p, "other", "x");
    assert_eq!(s.sort_by, "date");
    assert_eq!(p.get("b"), None);
}

#[test]
fn resizing_and_empty_clicks() {
    assert!(reflows_on_resize("auto"));
    assert!(!reflows_on_resize("free"));
    assert_eq!(empty_click(Button::Primary), EmptyClick { clear_selection: true, menu: false });
    assert_eq!(empty_click(Button::Secondary), EmptyClick { clear_selection: true, menu: true });
    assert_eq!(empty_click(Button::Other), EmptyClick { clear_selection: false, menu: false });
}

#[test]
fn names_and_siblings() {
    assert_eq!(hypricons::paths::base_name("/a/b.txt"), "b.txt");
    assert_eq!(hypricons::paths::base_name("/"), "");
    assert_eq!(hypricons::paths::base_name("/a/.."), "");
    assert_eq!(hypricons::paths::sibling("/a/b.txt", "c.txt").as_deref(), Some("/a/c.txt"));
    assert_eq!(hypricons::paths::sibling("b.txt", "c.txt").as_deref(), Some("c.txt"));
    assert_eq!(hypricons::paths::sibling("/", "c.txt"), None);
    let specials = hypricons::desktop::special_icons_for_user(false, true, false, "/t".to_string());
    assert_eq!(specials.len(), 1);
    assert_eq!(specials[0].path, "/t");
}

#[test]
fn first_free_names() {
    assert_eq!(hypricons::desktop::first_free("/d/a.txt", &vec![]), None);
    assert_eq!(hypricons::desktop::first_free("/d/a.txt", &vec![true, true]), None);
    assert_eq!(hypricons::desktop::first_free("/d/a.txt", &vec![false]).as_deref(), Some("/d/a.txt"));
    assert_eq!(hypricons::desktop::first_free("/d/a.txt", &vec![true, true, false]).as_deref(), Some("/d/a (2).txt"));
}
