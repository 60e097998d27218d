use hypricons::desktop_entry::{desktop_icon_name, launch_plan, parse_desktop_entry, parse_exec, LaunchPlan};
use hypricons::uri::{
    clipboard_payload, clipboard_would_panic, drag_payload, file_uri, parse_clipboard_text,
    parse_uri_list, percent_decode, percent_decode_would_panic, percent_encode_path,
    uri_list_would_panic,
};

#[test]
fn encoding_keeps_unreserved_bytes() {
    assert_eq!(percent_encode_path("/home/u/a-b_c.d~e"), "/home/u/a-b_c.d~e");
    assert_eq!(percent_encode_path("/My File.txt"), "/My%20File.txt");
    assert_eq!(percent_encode_path("ü#%"), "%C3%BC%23%25");
    assert_eq!(percent_encode_path(""), "");
}

#[test]
fn decoding_reverses_encoding() {
    for s in ["/home/u/My File.txt", "/ü/ß/%41", "plain", "", "a b\tc"] {
        assert_eq!(percent_decode(&percent_encode_path(s)), s);
    }
}

#[test]
fn decoding_edge_cases() {
    assert_eq!(percent_decode("/a%20b"), "/a b");
    assert_eq!(percent_decode("%zz"), "%zz");
    assert_eq!(percent_decode("%2"), "%2");
    assert_eq!(percent_decode("100%"), "100%");
    assert_eq!(percent_decode("%41%42"), "AB");
    assert_eq!(percent_decode("%+9x"), "\u{9}x");
    assert_eq!(percent_decode("%ff"), "\u{FFFD}");
    assert_eq!(percent_decode("%c3%a9"), "é");
}

#[test]
fn decoding_panics_only_inside_a_character() {
    assert!(percent_decode_would_panic("%aé"));
    assert!(!percent_decode_would_panic("%é"));
    assert!(!percent_decode_would_panic("%20é"));
    assert!(!percent_decode_would_panic("plain"));
}

#[test]
fn uri_lists_yield_local_paths() {
    let text = "# comment\r\nfile:///home/u/a%20b\r\n\r\nhttp://example.com/x\r\nfile://host/etc/x\r\n  file:///t  \n";
    assert!(!uri_list_would_panic(text));
    assert_eq!(parse_uri_list(text), vec!["/home/u/a b", "/etc/x", "/t"]);
    assert_eq!(parse_uri_list("file://nohost"), vec!["nohost"]);
    assert!(parse_uri_list("").is_empty());
    assert!(uri_list_would_panic("file:///%aé"));
}

#[test]
fn file_uri_encodes_the_path() {
    let u: String = file_uri("/a b").into_iter().collect();
    assert_eq!(u, "file:///a%20b");
}

#[test]
fn clipboard_payload_formats() {
    let paths = vec!["/a".to_string(), "/b c".to_string()];
    let (gnome, list) = clipboard_payload(&paths, true);
    assert_eq!(gnome, "cut\nfile:///a\nfile:///b%20c");
    assert_eq!(list, "file:///a\r\nfile:///b%20c\r\n");
    let (gnome, _) = clipboard_payload(&paths, false);
    assert_eq!(gnome, "copy\nfile:///a\nfile:///b%20c");
}

#[test]
fn drag_payload_formats() {
    let paths = vec!["/a".to_string(), "/b c".to_string()];
    let (list, plain) = drag_payload(&paths);
    assert_eq!(list, "file:///a\r\nfile:///b%20c\r\n");
    assert_eq!(plain, "/a\n/b c");
}

#[test]
fn pasted_text_is_read_back() {
    let text = "copy\nfile:///home/u/a%20b\n  /plain/path \n\n";
    assert!(!clipboard_would_panic(text));
    assert_eq!(parse_clipboard_text(text), (false, vec!["/home/u/a b".to_string(), "/plain/path".to_string()]));
    assert_eq!(parse_clipboard_text("cut\nfile://host/p"), (true, vec!["/p".to_string()]));
    assert_eq!(parse_clipboard_text("file:///x"), (false, vec!["/x".to_string()]));
    assert_eq!(parse_clipboard_text(""), (false, vec![]));
    assert!(clipboard_would_panic("file:///%aé"));
}

#[test]
fn clipboard_round_trip() {
    let paths = vec!["/home/u/My File.txt".to_string(), "/tmp/ü".to_string(), "relative".to_string(), String::new()];
    for cut in [true, false] {
        let (gnome, _) = clipboard_payload(&paths, cut);
        assert_eq!(parse_clipboard_text(&gnome), (cut, paths.clone()));
    }
}

#[test]
fn uri_list_round_trip() {
    let paths = vec!["/a b".to_string(), "/c/%d".to_string(), "no-slash".to_string(), String::new()];
    let (list, _) = drag_payload(&paths);
    assert_eq!(parse_uri_list(&list), paths);
    let (empty, plain) = drag_payload(&vec![]);
    assert_eq!(empty, "\r\n");
    assert_eq!(plain, "");
    assert!(parse_uri_list(&empty).is_empty());
    let (list, _) = drag_payload(&vec!["a/b".to_string()]);
    assert_eq!(parse_uri_list(&list), vec!["/b"]);
}

#[test]
fn lossy_decoding_replaces_bad_bytes() {
    assert_eq!(percent_decode("a%FFb"), "a\u{FFFD}b");
    assert_eq!(percent_decode("%C3%A9"), "é");
}

#[test]
fn exec_lines_are_tokenized() {
    assert_eq!(parse_exec("foo --bar \"baz qux\" %U"), vec!["foo", "--bar", "baz qux"]);
    assert_eq!(parse_exec(r#""a\"b""#), vec!["a\"b"]);
    assert_eq!(parse_exec(r#""""#), vec![""]);
    assert_eq!(parse_exec("100%%"), vec!["100%"]);
    assert!(parse_exec("%%").is_empty());
    assert_eq!(parse_exec(r"a\ b"), vec![r"a\", "b"]);
    assert_eq!(parse_exec(r#""x\ny""#), vec![r"x\ny"]);
    assert_eq!(parse_exec("  spaced\t\targs  "), vec!["spaced", "args"]);
    assert!(parse_exec("").is_empty());
    assert!(parse_exec("%f %F").is_empty());
}

#[test]
fn desktop_entries_are_read_from_their_section() {
    let text = "Name=Outside\n[Desktop Entry]\n# comment\nName = App \nExec=app %U\nName=Second\nType=Application\n\n[Desktop Action new]\nExec=other\n";
    let e = parse_desktop_entry(Some(text));
    assert_eq!(e.get("Name").as_deref(), Some("App"));
    assert_eq!(e.get("Exec").as_deref(), Some("app %U"));
    assert_eq!(e.get("Type").as_deref(), Some("Application"));
    assert_eq!(e.get("Missing"), None);
    assert!(!e.is_empty());
    assert!(parse_desktop_entry(None).is_empty());
    assert!(parse_desktop_entry(Some("[Other]\nA=b")).is_empty());
}

fn plan(text: &str, terminal: Option<&str>) -> LaunchPlan {
    launch_plan(&parse_desktop_entry(Some(text)), terminal.map(|t| t.to_string()))
}

#[test]
fn launch_plans() {
    assert!(matches!(plan("", None), LaunchPlan::Invalid));
    match plan("[Desktop Entry]\nType=Link\nURL=https://example.com", None) {
        LaunchPlan::OpenUrl(u) => assert_eq!(u, "https://example.com"),
        _ => panic!("expected a link"),
    }
    assert!(matches!(plan("[Desktop Entry]\nType=Link\nURL=", None), LaunchPlan::NoUrl));
    assert!(matches!(plan("[Desktop Entry]\nName=x", None), LaunchPlan::NoExec));
    assert!(matches!(plan("[Desktop Entry]\nExec=", None), LaunchPlan::NoExec));
    assert!(matches!(plan("[Desktop Entry]\nExec=%U", None), LaunchPlan::EmptyExec));
    match plan("[Desktop Entry]\nExec=app --x %f", None) {
        LaunchPlan::Spawn { program, args, cwd } => {
            assert_eq!(program, "app");
            assert_eq!(args, vec!["--x"]);
            assert_eq!(cwd, None);
        }
        _ => panic!("expected a spawn"),
    }
    match plan("[Desktop Entry]\nExec=htop -d 5\nTerminal=true\nPath=/tmp", Some("kitty")) {
        LaunchPlan::Spawn { program, args, cwd } => {
            assert_eq!(program, "kitty");
            assert_eq!(args, vec!["-e", "htop", "-d", "5"]);
            assert_eq!(cwd.as_deref(), Some("/tmp"));
        }
        _ => panic!("expected a spawn"),
    }
    match plan("[Desktop Entry]\nExec=htop\nTerminal=true", None) {
        LaunchPlan::Spawn { program, args, .. } => {
            assert_eq!(program, "xterm");
            assert_eq!(args, vec!["-e", "htop"]);
        }
        _ => panic!("expected a spawn"),
    }
}

#[test]
fn launcher_icons() {
    assert_eq!(desktop_icon_name(Some("[Desktop Entry]\nIcon= firefox \nIcon=other")), "firefox");
    assert_eq!(desktop_icon_name(Some("Name=x")), "application-x-executable");
    assert_eq!(desktop_icon_name(None), "application-x-executable");
}
