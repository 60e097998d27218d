//! Settings: built-in defaults, the config-file location, `~` expansion,
//! and the layering defaults < config file < command-line overrides.

use vstd::prelude::*;
use crate::paths::{join_spec, join_str};
use crate::text::{chars_of, slice_chars, string_from_chars};

verus! {

// ---------------------------------------------------------------------------
// home directory
// ---------------------------------------------------------------------------

/// `dirs::home_dir()`, taken through `to_string_lossy`.
/// Trusted: the result depends on the environment (`$HOME`, else the
/// password database), so nothing ties it to an input; what the source of
/// `dirs-sys` shows is that a directory it reports is never empty.
#[verifier::external_body]
pub(crate) fn home_dir() -> (r: Option<String>)
    ensures
        r matches Some(h) ==> h@.len() > 0,
{
    dirs::home_dir().map(|h| h.to_string_lossy().into_owned())
}

// ---------------------------------------------------------------------------
// locations
// ---------------------------------------------------------------------------

/// `<home>/.config/hypricons`.
pub open spec fn config_dir_spec(home: Seq<char>) -> Seq<char> {
    join_spec(join_spec(home, seq!['.', 'c', 'o', 'n', 'f', 'i', 'g']), seq!['h', 'y', 'p', 'r', 'i', 'c', 'o', 'n', 's'])
}

/// `<home>/.config/hypricons/config.json`.
pub open spec fn config_file_spec(home: Seq<char>) -> Seq<char> {
    join_spec(config_dir_spec(home), seq!['c', 'o', 'n', 'f', 'i', 'g', '.', 'j', 's', 'o', 'n'])
}

/// The configuration directory below a home directory.
pub fn config_dir_for(home: &str) -> (r: String)
    ensures
        r@ == config_dir_spec(home@),
{
    proof {
        reveal_strlit(".config");
        reveal_strlit("hypricons");
    }
    let c = join_str(home, ".config");
    assert(".config"@ =~= seq!['.', 'c', 'o', 'n', 'f', 'i', 'g']);
    assert("hypricons"@ =~= seq!['h', 'y', 'p', 'r', 'i', 'c', 'o', 'n', 's']);
    join_str(c.as_str(), "hypricons")
}

/// The configuration file below a home directory.
pub fn config_file_for(home: &str) -> (r: String)
    ensures
        r@ == config_file_spec(home@),
{
    proof {
        reveal_strlit("config.json");
    }
    let d = config_dir_for(home);
    assert("config.json"@ =~= seq!['c', 'o', 'n', 'f', 'i', 'g', '.', 'j', 's', 'o', 'n']);
    join_str(d.as_str(), "config.json")
}

/// The configuration directory of the current user, `None` when no home
/// directory can be found.
pub fn config_dir() -> (r: Option<String>)
    ensures
        r matches Some(d) ==> exists|h: Seq<char>| h.len() > 0 && d@ == config_dir_spec(h),
{
    match home_dir() {
        Some(h) => Some(config_dir_for(h.as_str())),
        None => None,
    }
}

/// The default configuration file of the current user, `None` when no home
/// directory can be found.
pub fn config_file() -> (r: Option<String>)
    ensures
        r matches Some(f) ==> exists|h: Seq<char>| h.len() > 0 && f@ == config_file_spec(h),
{
    match home_dir() {
        Some(h) => Some(config_file_for(h.as_str())),
        None => None,
    }
}

/// The file to read settings from: the `--config` path when one was passed
/// and it exists, otherwise the default file.
pub fn config_path_for(default_path: String, args: Option<&Overrides>, custom_exists: bool) -> (r:
    String)
    ensures
        r@ == (match args {
            Some(a) => match a.config_file {
                Some(cf) => if custom_exists {
                    cf@
                } else {
                    default_path@
                },
                None => default_path@,
            },
            None => default_path@,
        }),
{
    match args {
        Some(a) => match &a.config_file {
            Some(cf) => if custom_exists {
                cf.clone()
            } else {
                default_path
            },
            None => default_path,
        },
        None => default_path,
    }
}

// ---------------------------------------------------------------------------
// `~` expansion
// ---------------------------------------------------------------------------

/// `os.path.expanduser`-style expansion: `~/rest` becomes `<home>/rest` and
/// a lone `~` becomes `<home>`; anything else, or no home, is unchanged.
pub open spec fn expand_user_spec(p: Seq<char>, home: Option<Seq<char>>) -> Seq<char> {
    if p.len() >= 2 && p[0] == '~' && p[1] == '/' {
        match home {
            Some(h) => join_spec(h, p.subrange(2, p.len() as int)),
            None => p,
        }
    } else if p == seq!['~'] {
        match home {
            Some(h) => h,
            None => p,
        }
    } else {
        p
    }
}

/// Expands a leading `~` against the given home directory.
pub fn expand_user_with(p: &str, home: Option<&str>) -> (r: String)
    ensures
        r@ == expand_user_spec(p@, home_view(home)),
{
    let pc = chars_of(p);
    if pc.len() >= 2 && pc[0] == '~' && pc[1] == '/' {
        match home {
            Some(h) => {
                let rest = string_from_chars(&slice_chars(&pc, 2, pc.len()));
                return join_str(h, rest.as_str());
            },
            None => {},
        }
    } else if pc.len() == 1 && pc[0] == '~' {
        match home {
            Some(h) => {
                assert(p@ =~= seq!['~']);
                return string_from_chars(&chars_of(h));
            },
            None => {},
        }
    }
    proof {
        if pc.len() == 1 && pc[0] != '~' {
            assert(p@ != seq!['~']);
        }
    }
    string_from_chars(&pc)
}

/// Expands a leading `~` against the current user's home directory.
pub fn expand_user(p: &str) -> (r: String)
    ensures
        exists|h: Option<Seq<char>>|
            (h matches Some(s) ==> s.len() > 0) && r@ == #[trigger] expand_user_spec(p@, h),
{
    let home = home_dir();
    match &home {
        Some(h) => expand_user_with(p, Some(h.as_str())),
        None => expand_user_with(p, None),
    }
}

// ---------------------------------------------------------------------------
// defaults
// ---------------------------------------------------------------------------

/// Default desktop folder, before expansion.
pub fn d_desktop_path() -> (r: String)
    ensures
        r@ == "~/Desktop"@,
{
    String::from_str("~/Desktop")
}

/// Default icon size in pixels.
pub fn d_icon_size() -> (r: i32)
    ensures
        r == 48,
{
    48
}

/// Hidden files are not shown by default.
pub fn d_show_hidden() -> (r: bool)
    ensures
        r == false,
{
    false
}

/// Items launch on a double click by default.
pub fn d_launch_single_click() -> (r: bool)
    ensures
        r == false,
{
    false
}

/// Icons are sorted by name by default.
pub fn d_sort_by() -> (r: String)
    ensures
        r@ == "name"@,
{
    String::from_str("name")
}

/// Icons are sorted ascending by default.
pub fn d_sort_order() -> (r: String)
    ensures
        r@ == "asc"@,
{
    String::from_str("asc")
}

/// Default layout name.
pub fn d_layout() -> (r: String)
    ensures
        r@ == "grid"@,
{
    String::from_str("grid")
}

/// Default number of columns (stored only).
pub fn d_columns() -> (r: i32)
    ensures
        r == 4,
{
    4
}

/// Default theme name.
pub fn d_theme() -> (r: String)
    ensures
        r@ == "default"@,
{
    String::from_str("default")
}

/// Icons are arranged automatically by default.
pub fn d_arrange_mode() -> (r: String)
    ensures
        r@ == "auto"@,
{
    String::from_str("auto")
}

/// The Home icon is shown by default.
pub fn d_show_home() -> (r: bool)
    ensures
        r == true,
{
    true
}

/// The Trash icon is shown by default.
pub fn d_show_trash() -> (r: bool)
    ensures
        r == true,
{
    true
}

// ---------------------------------------------------------------------------
// settings
// ---------------------------------------------------------------------------

/// The effective settings of a run.
#[derive(Clone, Debug)]
pub struct Settings {
    pub desktop_path: String,
    pub icon_size: i32,
    pub show_hidden: bool,
    pub launch_single_click: bool,
    pub sort_by: String,
    pub sort_order: String,
    pub layout: String,
    pub columns: i32,
    pub theme: String,
    pub arrange_mode: String,
    pub show_home: bool,
    pub show_trash: bool,
    /// Not stored in the config file.
    pub debug: bool,
    /// Not stored in the config file.
    pub config_file: Option<String>,
}

/// Command-line overrides; `None` means the flag was not passed.
#[derive(Debug, Default)]
pub struct Overrides {
    pub config_file: Option<String>,
    pub desktop_path: Option<String>,
    pub icon_size: Option<i32>,
    pub show_hidden: Option<bool>,
    pub launch_single_click: Option<bool>,
    pub sort_by: Option<String>,
    pub sort_order: Option<String>,
    pub layout: Option<String>,
    pub columns: Option<i32>,
    pub theme: Option<String>,
    pub arrange_mode: Option<String>,
    pub show_home: Option<bool>,
    pub show_trash: Option<bool>,
    pub debug: Option<bool>,
}

/// An optional string as an optional character sequence.
pub open spec fn opt_view(o: Option<String>) -> Option<Seq<char>> {
    match o {
        Some(s) => Some(s@),
        None => None,
    }
}

/// Settings as plain values.
pub struct SettingsView {
    pub desktop_path: Seq<char>,
    pub icon_size: i32,
    pub show_hidden: bool,
    pub launch_single_click: bool,
    pub sort_by: Seq<char>,
    pub sort_order: Seq<char>,
    pub layout: Seq<char>,
    pub columns: i32,
    pub theme: Seq<char>,
    pub arrange_mode: Seq<char>,
    pub show_home: bool,
    pub show_trash: bool,
    pub debug: bool,
    pub config_file: Option<Seq<char>>,
}

impl View for Settings {
    type V = SettingsView;

    open spec fn view(&self) -> SettingsView {
        SettingsView {
            desktop_path: self.desktop_path@,
            icon_size: self.icon_size,
            show_hidden: self.show_hidden,
            launch_single_click: self.launch_single_click,
            sort_by: self.sort_by@,
            sort_order: self.sort_order@,
            layout: self.layout@,
            columns: self.columns,
            theme: self.theme@,
            arrange_mode: self.arrange_mode@,
            show_home: self.show_home,
            show_trash: self.show_trash,
            debug: self.debug,
            config_file: opt_view(self.config_file),
        }
    }
}

/// Command-line overrides as plain values.
pub struct OverridesView {
    pub config_file: Option<Seq<char>>,
    pub desktop_path: Option<Seq<char>>,
    pub icon_size: Option<i32>,
    pub show_hidden: Option<bool>,
    pub launch_single_click: Option<bool>,
    pub sort_by: Option<Seq<char>>,
    pub sort_order: Option<Seq<char>>,
    pub layout: Option<Seq<char>>,
    pub columns: Option<i32>,
    pub theme: Option<Seq<char>>,
    pub arrange_mode: Option<Seq<char>>,
    pub show_home: Option<bool>,
    pub show_trash: Option<bool>,
    pub debug: Option<bool>,
}

impl View for Overrides {
    type V = OverridesView;

    open spec fn view(&self) -> OverridesView {
        OverridesView {
            config_file: opt_view(self.config_file),
            desktop_path: opt_view(self.desktop_path),
            icon_size: self.icon_size,
            show_hidden: self.show_hidden,
            launch_single_click: self.launch_single_click,
            sort_by: opt_view(self.sort_by),
            sort_order: opt_view(self.sort_order),
            layout: opt_view(self.layout),
            columns: self.columns,
            theme: opt_view(self.theme),
            arrange_mode: opt_view(self.arrange_mode),
            show_home: self.show_home,
            show_trash: self.show_trash,
            debug: self.debug,
        }
    }
}

/// The built-in defaults, with the desktop folder expanded against `home`.
pub open spec fn default_settings_spec(home: Option<Seq<char>>) -> SettingsView {
    SettingsView {
        desktop_path: expand_user_spec("~/Desktop"@, home),
        icon_size: 48,
        show_hidden: false,
        launch_single_click: false,
        sort_by: "name"@,
        sort_order: "asc"@,
        layout: "grid"@,
        columns: 4,
        theme: "default"@,
        arrange_mode: "auto"@,
        show_home: true,
        show_trash: true,
        debug: false,
        config_file: None,
    }
}

/// An override when one was passed, else the base value.
pub open spec fn layered<T>(over: Option<T>, base: T) -> T {
    match over {
        Some(v) => v,
        None => base,
    }
}

/// `b` with each passed flag replacing its field; a passed desktop folder is
/// `~`-expanded and the config-file field is always taken from the flags.
pub open spec fn overridden_spec(b: SettingsView, a: OverridesView, home: Option<Seq<char>>) -> SettingsView {
    SettingsView {
        desktop_path: match a.desktop_path {
            Some(v) => expand_user_spec(v, home),
            None => b.desktop_path,
        },
        icon_size: layered(a.icon_size, b.icon_size),
        show_hidden: layered(a.show_hidden, b.show_hidden),
        launch_single_click: layered(a.launch_single_click, b.launch_single_click),
        sort_by: layered(a.sort_by, b.sort_by),
        sort_order: layered(a.sort_order, b.sort_order),
        layout: layered(a.layout, b.layout),
        columns: layered(a.columns, b.columns),
        theme: layered(a.theme, b.theme),
        arrange_mode: layered(a.arrange_mode, b.arrange_mode),
        show_home: layered(a.show_home, b.show_home),
        show_trash: layered(a.show_trash, b.show_trash),
        debug: layered(a.debug, b.debug),
        config_file: a.config_file,
    }
}

/// Defaults < config file < flags, then `~` expanded in the desktop folder.
/// `parsed` is the config file as read, `None` when it was missing,
/// unreadable or malformed.
pub open spec fn resolved_settings_spec(
    parsed: Option<SettingsView>,
    args: Option<OverridesView>,
    home: Option<Seq<char>>,
) -> SettingsView {
    let b = match parsed {
        Some(s) => s,
        None => default_settings_spec(home),
    };
    let c = match args {
        Some(a) => overridden_spec(b, a, home),
        None => b,
    };
    SettingsView { desktop_path: expand_user_spec(c.desktop_path, home), ..c }
}

/// Optional settings as plain values.
pub open spec fn settings_opt_view(s: Option<Settings>) -> Option<SettingsView> {
    match s {
        Some(x) => Some(x@),
        None => None,
    }
}

/// Optional overrides as plain values.
pub open spec fn overrides_opt_view(a: Option<&Overrides>) -> Option<OverridesView> {
    match a {
        Some(x) => Some(x@),
        None => None,
    }
}

/// An optional home directory as characters.
pub open spec fn home_view(home: Option<&str>) -> Option<Seq<char>> {
    match home {
        Some(h) => Some(h@),
        None => None,
    }
}

impl Settings {
    /// The built-in defaults, with the desktop folder expanded against `home`.
    pub fn defaults_with_home(home: Option<&str>) -> (s: Settings)
        ensures
            s@ == default_settings_spec(home_view(home)),
    {
        let dp = d_desktop_path();
        Settings {
            desktop_path: expand_user_with(dp.as_str(), home),
            icon_size: d_icon_size(),
            show_hidden: d_show_hidden(),
            launch_single_click: d_launch_single_click(),
            sort_by: d_sort_by(),
            sort_order: d_sort_order(),
            layout: d_layout(),
            columns: d_columns(),
            theme: d_theme(),
            arrange_mode: d_arrange_mode(),
            show_home: d_show_home(),
            show_trash: d_show_trash(),
            debug: false,
            config_file: None,
        }
    }

    /// Applies a "sort by" / "sort order" choice from the desktop menu; any
    /// other key leaves the settings unchanged.
    pub fn set_sort(&mut self, key: &str, value: &str)
        ensures
            final(self)@ == (if key@ == "sort_by"@ {
                SettingsView { sort_by: value@, ..old(self)@ }
            } else if key@ == "sort_order"@ {
                SettingsView { sort_order: value@, ..old(self)@ }
            } else {
                old(self)@
            }),
    {
        proof {
            reveal_strlit("sort_by");
            reveal_strlit("sort_order");
        }
        let k = chars_of(key);
        let sb = chars_of("sort_by");
        let so = chars_of("sort_order");
        if crate::text::chars_eq(&k, &sb) {
            self.sort_by = string_from_chars(&chars_of(value));
        } else if crate::text::chars_eq(&k, &so) {
            self.sort_order = string_from_chars(&chars_of(value));
        }
    }
}

impl Default for Settings {
    /// The built-in defaults, with the desktop folder expanded against the
    /// current user's home directory.
    fn default() -> (s: Settings)
        ensures
            exists|h: Option<Seq<char>>|
                (h matches Some(x) ==> x.len() > 0) && s@ == #[trigger] default_settings_spec(h),
    {
        let home = home_dir();
        match &home {
            Some(h) => Settings::defaults_with_home(Some(h.as_str())),
            None => Settings::defaults_with_home(None),
        }
    }
}

fn pick_string(over: &Option<String>, base: String) -> (r: String)
    ensures
        r@ == layered(opt_view(*over), base@),
{
    match over {
        Some(v) => v.clone(),
        None => base,
    }
}

fn clone_opt_string(o: &Option<String>) -> (r: Option<String>)
    ensures
        opt_view(r) == opt_view(*o),
{
    match o {
        Some(v) => Some(v.clone()),
        None => None,
    }
}

fn pick<T: Copy>(over: Option<T>, base: T) -> (r: T)
    ensures
        r == layered(over, base),
{
    match over {
        Some(v) => v,
        None => base,
    }
}

/// `s` with the passed flags applied.
fn apply_overrides(s: Settings, a: &Overrides, home: Option<&str>) -> (r: Settings)
    ensures
        r@ == overridden_spec(s@, a@, home_view(home)),
{
    let desktop_path = match &a.desktop_path {
        Some(v) => expand_user_with(v.as_str(), home),
        None => s.desktop_path,
    };
    Settings {
        desktop_path,
        icon_size: pick(a.icon_size, s.icon_size),
        show_hidden: pick(a.show_hidden, s.show_hidden),
        launch_single_click: pick(a.launch_single_click, s.launch_single_click),
        sort_by: pick_string(&a.sort_by, s.sort_by),
        sort_order: pick_string(&a.sort_order, s.sort_order),
        layout: pick_string(&a.layout, s.layout),
        columns: pick(a.columns, s.columns),
        theme: pick_string(&a.theme, s.theme),
        arrange_mode: pick_string(&a.arrange_mode, s.arrange_mode),
        show_home: pick(a.show_home, s.show_home),
        show_trash: pick(a.show_trash, s.show_trash),
        debug: pick(a.debug, s.debug),
        config_file: clone_opt_string(&a.config_file),
    }
}

/// Layers defaults, the parsed config file and the command-line overrides,
/// expanding `~` in the desktop folder against `home`.
pub fn load_settings_with_home(
    parsed: Option<Settings>,
    args: Option<&Overrides>,
    home: Option<&str>,
) -> (r: Settings)
    ensures
        r@ == resolved_settings_spec(
            settings_opt_view(parsed),
            overrides_opt_view(args),
            home_view(home),
        ),
{
    let b = match parsed {
        Some(s) => s,
        None => Settings::defaults_with_home(home),
    };
    let mut c = match args {
        Some(a) => apply_overrides(b, a, home),
        None => b,
    };
    c.desktop_path = expand_user_with(c.desktop_path.as_str(), home);
    c
}

/// Layers defaults, the parsed config file and the command-line overrides,
/// expanding `~` against the current user's home directory.
pub fn load_settings(parsed: Option<Settings>, args: Option<&Overrides>) -> (r: Settings)
    ensures
        exists|h: Option<Seq<char>>|
            (h matches Some(x) ==> x.len() > 0) && r@ == #[trigger] resolved_settings_spec(
                settings_opt_view(parsed),
                overrides_opt_view(args),
                h,
            ),
{
    let home = home_dir();
    match &home {
        Some(h) => load_settings_with_home(parsed, args, Some(h.as_str())),
        None => load_settings_with_home(parsed, args, None),
    }
}

// ---------------------------------------------------------------------------
// laws
// ---------------------------------------------------------------------------

/// Settings apply in order, each overriding the last: the built-in
/// defaults, then the config file, then the flags passed on the command
/// line. A passed flag always wins; without it the config file's value
/// holds; without both, the default.
pub proof fn law_settings_precedence(parsed: Option<SettingsView>, args: OverridesView, home: Option<Seq<char>>)
    ensures
        args.icon_size matches Some(v) ==> resolved_settings_spec(parsed, Some(args), home).icon_size == v,
        args.icon_size is None && parsed is Some ==> resolved_settings_spec(parsed, Some(args), home).icon_size == parsed->0.icon_size,
        args.icon_size is None && parsed is None ==> resolved_settings_spec(parsed, Some(args), home).icon_size == 48i32,
        args.show_hidden matches Some(v) ==> resolved_settings_spec(parsed, Some(args), home).show_hidden == v,
        args.show_hidden is None && parsed is Some ==> resolved_settings_spec(parsed, Some(args), home).show_hidden == parsed->0.show_hidden,
        args.show_hidden is None && parsed is None ==> resolved_settings_spec(parsed, Some(args), home).show_hidden == false,
        args.launch_single_click matches Some(v) ==> resolved_settings_spec(parsed, Some(args), home).launch_single_click == v,
        args.launch_single_click is None && parsed is Some ==> resolved_settings_spec(parsed, Some(args), home).launch_single_click == parsed->0.launch_single_click,
        args.launch_single_click is None && parsed is None ==> resolved_settings_spec(parsed, Some(args), home).launch_single_click == false,
        args.sort_by matches Some(v) ==> resolved_settings_spec(parsed, Some(args), home).sort_by == v,
        args.sort_by is None && parsed is Some ==> resolved_settings_spec(parsed, Some(args), home).sort_by == parsed->0.sort_by,
        args.sort_by is None && parsed is None ==> resolved_settings_spec(parsed, Some(args), home).sort_by == "name"@,
        args.sort_order matches Some(v) ==> resolved_settings_spec(parsed, Some(args), home).sort_order == v,
        args.sort_order is None && parsed is Some ==> resolved_settings_spec(parsed, Some(args), home).sort_order == parsed->0.sort_order,
        args.sort_order is None && parsed is None ==> resolved_settings_spec(parsed, Some(args), home).sort_order == "asc"@,
        args.layout matches Some(v) ==> resolved_settings_spec(parsed, Some(args), home).layout == v,
        args.layout is None && parsed is Some ==> resolved_settings_spec(parsed, Some(args), home).layout == parsed->0.layout,
        args.layout is None && parsed is None ==> resolved_settings_spec(parsed, Some(args), home).layout == "grid"@,
        args.columns matches Some(v) ==> resolved_settings_spec(parsed, Some(args), home).columns == v,
        args.columns is None && parsed is Some ==> resolved_settings_spec(parsed, Some(args), home).columns == parsed->0.columns,
        args.columns is None && parsed is None ==> resolved_settings_spec(parsed, Some(args), home).columns == 4i32,
        args.theme matches Some(v) ==> resolved_settings_spec(parsed, Some(args), home).theme == v,
        args.theme is None && parsed is Some ==> resolved_settings_spec(parsed, Some(args), home).theme == parsed->0.theme,
        args.theme is None && parsed is None ==> resolved_settings_spec(parsed, Some(args), home).theme == "default"@,
        args.arrange_mode matches Some(v) ==> resolved_settings_spec(parsed, Some(args), home).arrange_mode == v,
        args.arrange_mode is None && parsed is Some ==> resolved_settings_spec(parsed, Some(args), home).arrange_mode == parsed->0.arrange_mode,
        args.arrange_mode is None && parsed is None ==> resolved_settings_spec(parsed, Some(args), home).arrange_mode == "auto"@,
        args.show_home matches Some(v) ==> resolved_settings_spec(parsed, Some(args), home).show_home == v,
        args.show_home is None && parsed is Some ==> resolved_settings_spec(parsed, Some(args), home).show_home == parsed->0.show_home,
        args.show_home is None && parsed is None ==> resolved_settings_spec(parsed, Some(args), home).show_home == true,
        args.show_trash matches Some(v) ==> resolved_settings_spec(parsed, Some(args), home).show_trash == v,
        args.show_trash is None && parsed is Some ==> resolved_settings_spec(parsed, Some(args), home).show_trash == parsed->0.show_trash,
        args.show_trash is None && parsed is None ==> resolved_settings_spec(parsed, Some(args), home).show_trash == true,
        args.debug matches Some(v) ==> resolved_settings_spec(parsed, Some(args), home).debug == v,
        args.debug is None && parsed is Some ==> resolved_settings_spec(parsed, Some(args), home).debug == parsed->0.debug,
        args.debug is None && parsed is None ==> resolved_settings_spec(parsed, Some(args), home).debug == false,
{
}

/// The desktop folder given by a flag wins over the config file and the
/// default, with `~` expanded.
pub proof fn law_desktop_path_flag(parsed: Option<SettingsView>, args: OverridesView, home: Option<Seq<char>>)
    requires
        args.desktop_path is Some,
    ensures
        resolved_settings_spec(parsed, Some(args), home).desktop_path == expand_user_spec(
            expand_user_spec(args.desktop_path->0, home),
            home,
        ),
{
}

} // verus!
