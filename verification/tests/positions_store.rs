use hypricons::positions::{positions_file_for, Positions};

fn store() -> Positions {
    Positions::with_path("/tmp/hypricons-test/positions.json".to_string(), None)
}

#[test]
fn set_then_get_returns_the_position() {
    let mut p = store();
    assert_eq!(p.get("a"), None);
    p.set("a", 3, 4);
    assert_eq!(p.get("a"), Some((3, 4)));
    p.set("a", -5, 6);
    assert_eq!(p.get("a"), Some((-5, 6)));
    assert_eq!(p.get("b"), None);
}

#[test]
fn remove_forgets_only_that_name() {
    let mut p = store();
    p.set("a", 1, 2);
    p.set("b", 3, 4);
    p.remove("a");
    assert_eq!(p.get("a"), None);
    assert_eq!(p.get("b"), Some((3, 4)));
    p.remove("missing");
    assert_eq!(p.get("b"), Some((3, 4)));
}

#[test]
fn clear_forgets_everything_and_keeps_the_path() {
    let mut p = store();
    p.set("a", 1, 2);
    p.set("b", 3, 4);
    p.clear();
    assert_eq!(p.get("a"), None);
    assert_eq!(p.get("b"), None);
    assert_eq!(p.path().as_str(), "/tmp/hypricons-test/positions.json");
}

#[test]
fn prune_keeps_the_listed_names() {
    let mut p = store();
    p.set("a", 1, 1);
    p.set("b", 2, 2);
    p.set("c", 3, 3);
    p.prune(&["a".to_string(), "c".to_string(), "z".to_string()]);
    assert_eq!(p.get("a"), Some((1, 1)));
    assert_eq!(p.get("b"), None);
    assert_eq!(p.get("c"), Some((3, 3)));
    assert_eq!(p.get("z"), None);
    p.prune(&[]);
    assert_eq!(p.get("a"), None);
}

#[test]
fn rename_moves_the_position() {
    let mut p = store();
    p.set("old.txt", 40, 50);
    p.rename("old.txt", "new.txt");
    assert_eq!(p.get("old.txt"), None);
    assert_eq!(p.get("new.txt"), Some((40, 50)));
    p.rename("nothing", "else");
    assert_eq!(p.get("else"), None);
}

#[test]
fn saved_text_loads_back() {
    let mut p = store();
    p.set("a", 10, 20);
    p.set("b c", -5, 7);
    p.set("ü", i32::MAX, i32::MIN);
    let text = p.save().expect("renders");
    let q = Positions::with_path("/elsewhere.json".to_string(), Some(text.as_str()));
    assert_eq!(q.get("a"), Some((10, 20)));
    assert_eq!(q.get("b c"), Some((-5, 7)));
    assert_eq!(q.get("ü"), Some((i32::MAX, i32::MIN)));
    assert_eq!(q.path().as_str(), "/elsewhere.json");
}

#[test]
fn saved_text_is_a_pretty_object() {
    let mut p = store();
    p.set("a", 1, 2);
    assert_eq!(p.save().unwrap(), "{\n  \"a\": [\n    1,\n    2\n  ]\n}");
    let empty = store();
    assert_eq!(empty.save().unwrap(), "{}");
}

#[test]
fn loading_skips_entries_that_are_not_integer_pairs() {
    let text = r#"{"a":[1,2],"b":[1],"c":"x","d":[1,2,3],"e":[1.5,2],"f":[-3,9],"g":null}"#;
    let q = Positions::with_path("/p.json".to_string(), Some(text));
    assert_eq!(q.get("a"), Some((1, 2)));
    assert_eq!(q.get("b"), None);
    assert_eq!(q.get("c"), None);
    assert_eq!(q.get("d"), None);
    assert_eq!(q.get("e"), None);
    assert_eq!(q.get("f"), Some((-3, 9)));
    assert_eq!(q.get("g"), None);
}

#[test]
fn loading_truncates_to_i32() {
    let q = Positions::with_path("/p.json".to_string(), Some(r#"{"big":[4294967297,-4294967297]}"#));
    assert_eq!(q.get("big"), Some((1, -1)));
}

#[test]
fn loading_ignores_text_that_is_not_an_object() {
    let q = Positions::with_path("/p.json".to_string(), Some("not json"));
    assert_eq!(q.get("a"), None);
    let r = Positions::with_path("/p.json".to_string(), Some("[[1,2]]"));
    assert_eq!(r.get("0"), None);
    let mut s = store();
    s.set("kept", 1, 1);
    s.load(Some("{broken"));
    assert_eq!(s.get("kept"), Some((1, 1)));
    s.load(None);
    assert_eq!(s.get("kept"), Some((1, 1)));
}

#[test]
fn loading_adds_to_what_is_there() {
    let mut s = store();
    s.set("x", 1, 1);
    s.set("y", 2, 2);
    s.load(Some(r#"{"y":[5,5],"z":[6,6]}"#));
    assert_eq!(s.get("x"), Some((1, 1)));
    assert_eq!(s.get("y"), Some((5, 5)));
    assert_eq!(s.get("z"), Some((6, 6)));
}

#[test]
fn positions_folder() {
    assert_eq!(store().folder().as_deref(), Some("/tmp/hypricons-test"));
    assert_eq!(Positions::with_path("/".to_string(), None).folder(), None);
}

#[test]
fn positions_file_lies_in_the_config_dir() {
    assert_eq!(positions_file_for("/home/u"), "/home/u/.config/hypricons/positions.json");
    assert_eq!(positions_file_for("/home/u/"), "/home/u/.config/hypricons/positions.json");
}
