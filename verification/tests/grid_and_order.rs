use hypricons::config::Settings;
use hypricons::layout::{
    area_known, cell_size, centres_fit, click_launches, drop_fits, drop_origin, group_fits, import_fits, layout_fits, grid_position, import_position, item_size,
    layout_positions, move_target, reposition_drop, rows, truncate,
};
use hypricons::positions::Positions;
use hypricons::sorting::{arrange_key, arrange_order, sort_files, stable_order, type_key, SortKey};

fn names(v: &[&str]) -> Vec<String> {
    v.iter().map(|s| s.to_string()).collect()
}

fn store() -> Positions {
    Positions::with_path("/tmp/p.json".to_string(), None)
}

#[test]
fn item_and_cell_sizes() {
    assert_eq!(item_size(48), (96, 100));
    assert_eq!(cell_size(48), (100, 104));
    assert_eq!(cell_size(64), (116, 120));
}

#[test]
fn rows_for_a_height() {
    assert_eq!(rows(0, 48, 5), 5);
    assert_eq!(rows(-3, 48, 0), 1);
    assert_eq!(rows(1000, 48, 5), 9);
    assert_eq!(rows(50, 48, 3), 1);
    assert_eq!(rows(16 + 104 * 3, 48, 100), 3);
}

#[test]
fn grid_fills_columns_first() {
    assert_eq!(grid_position(0, 9, 48), (8, 8));
    assert_eq!(grid_position(1, 9, 48), (8, 112));
    assert_eq!(grid_position(9, 9, 48), (108, 8));
    assert_eq!(grid_position(10, 9, 48), (108, 112));
}

#[test]
fn automatic_layout_ignores_saved_positions() {
    let mut p = store();
    p.set("a", 500, 500);
    let r = layout_positions(&names(&["a", "b", "c"]), &mut p, false, true, 2, 48);
    assert_eq!(r, vec![(8, 8), (8, 112), (108, 8)]);
    assert_eq!(p.get("a"), Some((500, 500)));
    assert_eq!(p.get("b"), None);
}

#[test]
fn free_layout_keeps_and_seeds_positions() {
    let mut p = store();
    p.set("a", 500, 500);
    let r = layout_positions(&names(&["a", "b", "c"]), &mut p, true, true, 2, 48);
    assert_eq!(r, vec![(500, 500), (8, 112), (108, 8)]);
    assert_eq!(p.get("b"), Some((8, 112)));
    assert_eq!(p.get("c"), Some((108, 8)));
}

#[test]
fn drop_and_import_positions() {
    assert_eq!(drop_origin(200, 300, 48), (150, 248));
    assert_eq!(drop_origin(10, 10, 48), (0, 0));
    assert_eq!(import_position(200, 300, 0, 48), (150, 248));
    assert_eq!(import_position(200, 300, 2, 48), (182, 280));
    assert_eq!(import_position(0, 0, 1, 48), (0, 0));
}

#[test]
fn drop_halves_round_toward_zero() {
    // cell of -9 by -5 pixels: halves are -4 and -2
    assert!(drop_fits(100, 100, -61));
    assert_eq!(drop_origin(100, 100, -61), (104, 102));
    assert!(import_fits(100, 100, 1, -61));
    assert_eq!(import_position(100, 100, 1, -61), (120, 118));
    assert!(!drop_fits(i32::MAX, 0, -61));
    assert!(!import_fits(i32::MAX - 10, 0, 1, -61));
}

#[test]
fn dropping_an_icon_switches_to_free_placement() {
    let mut s = Settings::defaults_with_home(Some("/h"));
    let mut p = store();
    let n = names(&["a", "b"]);
    let out = reposition_drop(&mut s, &mut p, &n, 1, &"a".to_string(), None, 200, 300);
    assert!(out.switched_to_free);
    assert_eq!(s.arrange_mode, "free");
    assert_eq!(out.moves, vec![("a".to_string(), 150, 248)]);
    assert_eq!(p.get("a"), Some((150, 248)));
    assert_eq!(p.get("b"), Some((108, 8)));
}

#[test]
fn dropping_a_group_moves_each_member_by_its_offset() {
    let mut s = Settings::defaults_with_home(Some("/h"));
    s.arrange_mode = "free".to_string();
    let mut p = store();
    let n = names(&["a", "b"]);
    let group = vec![("a".to_string(), 0, 0), ("b".to_string(), -200, 10), ("gone".to_string(), 5, 5)];
    let out = reposition_drop(&mut s, &mut p, &n, 4, &"a".to_string(), Some(&group), 200, 300);
    assert!(!out.switched_to_free);
    assert_eq!(out.moves, vec![("a".to_string(), 150, 248), ("b".to_string(), 0, 258)]);
    assert_eq!(p.get("b"), Some((0, 258)));
    assert_eq!(p.get("gone"), None);
}

#[test]
fn arrow_keys_pick_the_nearest_icon_that_way() {
    let centres = vec![Some((0i64, 0i64)), Some((100, 0)), Some((200, 0)), Some((100, 50)), None];
    assert_eq!(move_target(&centres, 0, 1, 0), Some(1));
    assert_eq!(move_target(&centres, 0, -1, 0), None);
    assert_eq!(move_target(&centres, 0, 0, 1), Some(3));
    assert_eq!(move_target(&centres, 2, -1, 0), Some(1));
    assert_eq!(move_target(&centres, 0, 1, 1), None);
}

#[test]
fn labels_are_truncated() {
    assert_eq!(truncate("abcdefghijklmnop", 12), "abcdefghijkl\u{2026}");
    assert_eq!(truncate("short", 12), "short");
    assert_eq!(truncate("exactly12chr", 12), "exactly12chr");
    assert_eq!(truncate("ééé", 2), "éé\u{2026}");
}

#[test]
fn clicks_that_launch() {
    assert!(click_launches(true, 1));
    assert!(!click_launches(true, 2));
    assert!(!click_launches(false, 1));
    assert!(click_launches(false, 2));
}

#[test]
fn sorting_by_name() {
    let f = names(&["b", "a", "C"]);
    let m = vec![None; 3];
    assert_eq!(sort_files(&f, "name", "asc", &m), names(&["C", "a", "b"]));
    assert_eq!(sort_files(&f, "name", "desc", &m), names(&["b", "a", "C"]));
    assert_eq!(sort_files(&f, "bogus", "asc", &m), names(&["C", "a", "b"]));
}

#[test]
fn sorting_by_date_puts_unknown_first() {
    let f = names(&["x", "y", "z"]);
    let m = vec![Some(3i128), None, Some(1)];
    assert_eq!(sort_files(&f, "date", "asc", &m), names(&["y", "z", "x"]));
    assert_eq!(sort_files(&f, "date", "desc", &m), names(&["x", "z", "y"]));
}

#[test]
fn sorting_by_type_is_stable() {
    let f = names(&["b.TXT", "a.png", "c", "x.txt"]);
    let m = vec![None; 4];
    assert_eq!(sort_files(&f, "type", "asc", &m), names(&["c", "a.png", "b.TXT", "x.txt"]));
}

#[test]
fn type_keys() {
    assert_eq!(type_key("Photo.JPG"), "jpg");
    assert_eq!(type_key(".bashrc"), "");
    assert_eq!(type_key("archive.tar.GZ"), "gz");
    assert_eq!(type_key("noext"), "");
}

#[test]
fn arrange_keys() {
    assert_eq!(arrange_key("f", "date", Some(42)), "00000000000000000042");
    assert_eq!(arrange_key("f", "date", Some(u64::MAX)), "18446744073709551615");
    assert_eq!(arrange_key("f", "date", None), "0");
    assert_eq!(arrange_key("a.PNG", "type", Some(1)), "png");
    assert_eq!(arrange_key("a.PNG", "name", Some(1)), "a.PNG");
}

#[test]
fn arrange_order_is_a_stable_sort() {
    assert_eq!(arrange_order(&names(&["b", "a", "b"]), "name", &vec![None; 3]), vec![1, 0, 2]);
    assert_eq!(arrange_order(&names(&["x", "y", "z"]), "date", &vec![Some(5), None, Some(10)]), vec![1, 0, 2]);
}

#[test]
fn stable_order_of_keys() {
    let keys = vec![SortKey::Text(vec![2]), SortKey::Text(vec![1]), SortKey::Text(vec![2]), SortKey::Text(vec![])];
    assert_eq!(stable_order(&keys), vec![3, 1, 0, 2]);
    let times = vec![SortKey::Time(Some(5)), SortKey::Time(None), SortKey::Time(Some(-1))];
    assert_eq!(stable_order(&times), vec![1, 2, 0]);
}

#[test]
fn bounds_checks() {
    assert!(layout_fits(0, 1, 48));
    assert!(layout_fits(100, 9, 48));
    assert!(!layout_fits(1, 0, 48));
    assert!(!layout_fits(1, 1, i32::MAX));
    assert!(!layout_fits(3, 1, i32::MAX - 60));
    assert!(layout_fits(1, 1, i32::MAX - 60));
    assert!(drop_fits(200, 300, 48));
    assert!(!drop_fits(i32::MIN, 0, 48));
    assert!(drop_fits(0, 0, -52));
    assert!(!drop_fits(0, 0, i32::MAX - 55));
    let group = vec![("a".to_string(), 0, 0), ("b".to_string(), -200, 10)];
    assert!(group_fits(200, 300, 48, &group));
    assert!(!group_fits(200, 300, 48, &vec![("a".to_string(), i32::MAX, 0)]));
    assert!(import_fits(200, 300, 2, 48));
    assert!(!import_fits(200, 300, -1, 48));
    assert!(!import_fits(i32::MAX, 0, 1_000_000, 48));
    assert!(centres_fit(&vec![Some((1, 2)), None]));
    assert!(!centres_fit(&vec![Some((i64::MAX, 0))]));
}

#[test]
fn free_layout_before_the_area_is_known_saves_nothing() {
    let mut p = store();
    p.set("a", 500, 500);
    let r = layout_positions(&names(&["a", "b", "c"]), &mut p, true, false, 3, 48);
    assert_eq!(r, vec![(500, 500), (8, 112), (8, 216)]);
    assert_eq!(p.get("a"), Some((500, 500)));
    assert_eq!(p.get("b"), None);
    assert_eq!(p.get("c"), None);
    assert!(!area_known(0));
    assert!(area_known(600));
}
