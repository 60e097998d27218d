//! Decisions of the icon view: which icons are shown, renaming, the
//! arrange mode, clicks and keys, what a launch runs, the item menu, drops
//! and the file operations they lead to.

use vstd::prelude::*;
use crate::text::{chars_of, chars_eq, string_from_chars, trim, trim_spec, contains_char, push_all,
    decimal, decimal_spec, to_ascii_lowercase, ascii_lower, ends_with, has_suffix};
use crate::paths::{file_name, parent, join, join_spec, path_file_name, path_parent, extension_of,
    extension_of_spec, stem_of, stem_of_spec, path_extension, path_extension_spec, path_starts_with,
    starts_with_path};
use crate::config::{Settings, SettingsView, opt_view, home_dir};
use crate::positions::Positions;
use crate::uri::strings_view;
use crate::layout::click_launches;

verus! {

// ---------------------------------------------------------------------------
// which icons are shown
// ---------------------------------------------------------------------------

/// Whether a file name is hidden (starts with `.`).
pub open spec fn is_hidden(name: Seq<char>) -> bool {
    name.len() > 0 && name[0] == '.'
}

/// Whether a file is shown: it exists, and it is not hidden unless hidden
/// files are shown.
pub open spec fn is_shown(name: Seq<char>, exists: bool, show_hidden: bool) -> bool {
    exists && (show_hidden || !is_hidden(name))
}

/// The files shown, in the order given.
pub open spec fn shown_spec(names: Seq<Seq<char>>, exists: Seq<bool>, show_hidden: bool) -> Seq<Seq<char>>
    decreases names.len(),
{
    if names.len() == 0 {
        seq![]
    } else {
        let i = names.len() - 1;
        let rest = shown_spec(names.drop_last(), exists.take(i), show_hidden);
        if is_shown(names[i], exists[i], show_hidden) {
            rest.push(names[i])
        } else {
            rest
        }
    }
}

/// The files of the desktop folder that get an icon, in sorted order:
/// `exists[i]` tells whether `sorted[i]` is still there.
pub fn shown_files(sorted: &Vec<String>, exists: &Vec<bool>, show_hidden: bool) -> (r: Vec<String>)
    requires
        exists@.len() == sorted@.len(),
    ensures
        strings_view(r@) == shown_spec(strings_view(sorted@), exists@, show_hidden),
        forall|k: int| 0 <= k < r@.len() ==> show_hidden || !is_hidden(#[trigger] r@[k]@),
        forall|j: int|
            0 <= j < sorted@.len() && is_shown(sorted@[j]@, exists@[j], show_hidden)
                ==> strings_view(r@).contains(#[trigger] sorted@[j]@),
{
    let ghost names = strings_view(sorted@);
    let mut out: Vec<String> = Vec::new();
    let mut i: usize = 0;
    while i < sorted.len()
        invariant
            i <= sorted@.len(),
            exists@.len() == sorted@.len(),
            names == strings_view(sorted@),
            strings_view(out@) == shown_spec(names.take(i as int), exists@.take(i as int), show_hidden),
            forall|k: int| 0 <= k < out@.len() ==> show_hidden || !is_hidden(#[trigger] out@[k]@),
            forall|j: int|
                0 <= j < i && is_shown(sorted@[j]@, exists@[j], show_hidden)
                    ==> strings_view(out@).contains(#[trigger] sorted@[j]@),
        decreases sorted.len() - i,
    {
        let name = &sorted[i];
        let nc = chars_of(name.as_str());
        let hidden = nc.len() > 0 && nc[0] == '.';
        let ghost before = out@;
        proof {
            assert(names.take(i + 1).drop_last() =~= names.take(i as int));
            assert(exists@.take(i + 1).take(i as int) =~= exists@.take(i as int));
            assert(names.take(i + 1)[i as int] == sorted@[i as int]@);
        }
        if exists[i] && (show_hidden || !hidden) {
            out.push(name.clone());
            proof {
                assert(strings_view(out@) =~= strings_view(before).push(sorted@[i as int]@));
                assert(strings_view(out@)[before.len() as int] == sorted@[i as int]@);
                assert forall|j: int|
                    0 <= j < i + 1 && is_shown(sorted@[j]@, exists@[j], show_hidden)
                        implies strings_view(out@).contains(#[trigger] sorted@[j]@) by {
                    if j < i {
                        let k = choose|k: int| 0 <= k < strings_view(before).len() && strings_view(before)[k] == sorted@[j]@;
                        assert(strings_view(out@)[k] == sorted@[j]@);
                    }
                }
            }
        }
        i = i + 1;
    }
    proof {
        assert(names.take(sorted@.len() as int) =~= names);
        assert(exists@.take(sorted@.len() as int) =~= exists@);
    }
    out
}

/// A synthetic icon before the files: Home or Trash.
pub struct SpecialIcon {
    pub label: String,
    pub icon_name: String,
    pub path: String,
    pub open_uri: Option<String>,
}

/// A special icon as plain values: label, icon name, path, URI it opens.
pub open spec fn special_view(s: SpecialIcon) -> (Seq<char>, Seq<char>, Seq<char>, Option<Seq<char>>) {
    (s.label@, s.icon_name@, s.path@, opt_view(s.open_uri))
}

/// The special icons, Home then Trash: Home when enabled and a home
/// directory is known, Trash (full or empty, opening `trash:///`) when
/// enabled.
pub open spec fn special_icons_spec(
    show_home: bool,
    home: Option<Seq<char>>,
    show_trash: bool,
    trash_full: bool,
    trash_dir: Seq<char>,
) -> Seq<(Seq<char>, Seq<char>, Seq<char>, Option<Seq<char>>)> {
    let h = if show_home && home is Some {
        seq![("Home"@, "user-home"@, home->0, None::<Seq<char>>)]
    } else {
        seq![]
    };
    let t = if show_trash {
        seq![(
            "Trash"@,
            if trash_full { "user-trash-full"@ } else { "user-trash"@ },
            trash_dir,
            Some("trash:///"@),
        )]
    } else {
        seq![]
    };
    h + t
}

/// The special icons to put before the files.
pub fn special_icons(
    show_home: bool,
    home: Option<String>,
    show_trash: bool,
    trash_full: bool,
    trash_dir: String,
) -> (r: Vec<SpecialIcon>)
    ensures
        r@.map_values(|s: SpecialIcon| special_view(s)) == special_icons_spec(
            show_home,
            opt_view(home),
            show_trash,
            trash_full,
            trash_dir@,
        ),
{
    let ghost hv = opt_view(home);
    let mut out: Vec<SpecialIcon> = Vec::new();
    if show_home {
        match home {
            Some(h) => {
                out.push(SpecialIcon {
                    label: String::from_str("Home"),
                    icon_name: String::from_str("user-home"),
                    path: h,
                    open_uri: None,
                });
            },
            None => {},
        }
    }
    let ghost mid = out@;
    if show_trash {
        let icon = if trash_full {
            String::from_str("user-trash-full")
        } else {
            String::from_str("user-trash")
        };
        out.push(SpecialIcon {
            label: String::from_str("Trash"),
            icon_name: icon,
            path: trash_dir,
            open_uri: Some(String::from_str("trash:///")),
        });
    }
    proof {
        let sp = special_icons_spec(show_home, hv, show_trash, trash_full, trash_dir@);
        assert(out@.map_values(|s: SpecialIcon| special_view(s)) =~= sp);
    }
    out
}

/// The special icons of the current user: as `special_icons`, with the
/// home directory looked up.
pub fn special_icons_for_user(show_home: bool, show_trash: bool, trash_full: bool, trash_dir: String) -> (r: Vec<
    SpecialIcon,
>)
    ensures
        exists|home: Option<Seq<char>>|
            (home matches Some(h) ==> h.len() > 0) && r@.map_values(|s: SpecialIcon| special_view(s))
                == #[trigger] special_icons_spec(show_home, home, show_trash, trash_full, trash_dir@),
{
    let home = home_dir();
    let ghost hv = opt_view(home);
    let r = special_icons(show_home, home, show_trash, trash_full, trash_dir);
    assert(r@.map_values(|s: SpecialIcon| special_view(s)) == special_icons_spec(show_home, hv, show_trash, trash_full, trash_dir@));
    r
}

/// The names of all icons on the desktop: the special icons' labels, then
/// the shown files. Saved positions of other names are dropped.
pub fn visible_names(specials: &Vec<SpecialIcon>, shown: &Vec<String>) -> (r: Vec<String>)
    ensures
        strings_view(r@) == specials@.map_values(|s: SpecialIcon| s.label@) + strings_view(shown@),
{
    let mut out: Vec<String> = Vec::new();
    let mut i: usize = 0;
    while i < specials.len()
        invariant
            i <= specials@.len(),
            strings_view(out@) == specials@.take(i as int).map_values(|s: SpecialIcon| s.label@),
        decreases specials.len() - i,
    {
        let ghost before = out@;
        out.push(specials[i].label.clone());
        assert(strings_view(out@) =~= strings_view(before).push(specials@[i as int].label@));
        assert(specials@.take(i + 1).map_values(|s: SpecialIcon| s.label@) =~= specials@.take(
            i as int,
        ).map_values(|s: SpecialIcon| s.label@).push(specials@[i as int].label@));
        i = i + 1;
    }
    assert(specials@.take(specials@.len() as int) =~= specials@);
    let ghost head = out@;
    let mut j: usize = 0;
    while j < shown.len()
        invariant
            j <= shown@.len(),
            strings_view(head) == specials@.map_values(|s: SpecialIcon| s.label@),
            strings_view(out@) == strings_view(head) + strings_view(shown@).take(j as int),
        decreases shown.len() - j,
    {
        let ghost before = out@;
        out.push(shown[j].clone());
        assert(strings_view(out@) =~= strings_view(before).push(shown@[j as int]@));
        assert(strings_view(shown@).take(j + 1) =~= strings_view(shown@).take(j as int).push(
            shown@[j as int]@,
        ));
        j = j + 1;
    }
    assert(strings_view(shown@).take(shown@.len() as int) =~= strings_view(shown@));
    out
}

// ---------------------------------------------------------------------------
// renaming
// ---------------------------------------------------------------------------

/// The outcome of checking a name entered in the rename dialog.
#[derive(PartialEq, Eq, Debug)]
pub enum RenameCheck {
    /// The trimmed name is the old one: nothing to do.
    Unchanged,
    /// The name is empty, contains `/`, or is `.` or `..`.
    Invalid,
    /// Rename to this (trimmed) name.
    Rename(String),
}

/// A name that cannot be given to a file in a folder.
pub open spec fn bad_name(n: Seq<char>) -> bool {
    n.len() == 0 || n.contains('/') || n == "."@ || n == ".."@
}

/// The check of a rename: the entered text is trimmed; the old name means
/// no change, a bad name is refused, anything else is the new name.
pub open spec fn rename_check_spec(old_name: Seq<char>, entered: Seq<char>) -> Option<Option<Seq<char>>> {
    let n = trim_spec(entered);
    if n == old_name {
        None
    } else if bad_name(n) {
        Some(None)
    } else {
        Some(Some(n))
    }
}

/// Checks a name entered in the rename dialog.
pub fn rename_check(old_name: &str, entered: &str) -> (r: RenameCheck)
    ensures
        match rename_check_spec(old_name@, entered@) {
            None => r == RenameCheck::Unchanged,
            Some(None) => r == RenameCheck::Invalid,
            Some(Some(n)) => r matches RenameCheck::Rename(s) && s@ == n,
        },
{
    let n = trim(&chars_of(entered));
    if chars_eq(&n, &chars_of(old_name)) {
        return RenameCheck::Unchanged;
    }
    let bad = n.len() == 0 || contains_char(&n, '/') || chars_eq(&n, &chars_of(".")) || chars_eq(
        &n,
        &chars_of(".."),
    );
    if bad {
        RenameCheck::Invalid
    } else {
        RenameCheck::Rename(string_from_chars(&n))
    }
}

/// How many characters the rename dialog preselects: those of the name's
/// stem (`Path::file_stem`), or the whole name when it has no file name.
pub open spec fn rename_selection_spec(old_name: Seq<char>) -> nat {
    match path_file_name(old_name) {
        Some(n) => stem_of_spec(n).len(),
        None => old_name.len(),
    }
}

/// How many characters the rename dialog preselects.
pub fn rename_selection(old_name: &str) -> (r: usize)
    ensures
        r == rename_selection_spec(old_name@),
{
    match file_name(old_name) {
        Some(n) => stem_of(&chars_of(n.as_str())).len(),
        None => chars_of(old_name).len(),
    }
}

// ---------------------------------------------------------------------------
// arrange mode
// ---------------------------------------------------------------------------

/// Switches between automatic arrangement and free placement. Any mode
/// other than `auto` or `free` is ignored. Switching to `auto` from
/// another mode forgets the saved positions; the result tells whether that
/// happened (they are then to be saved).
pub fn set_arrange_mode(settings: &mut Settings, positions: &mut Positions, mode: &str) -> (cleared: bool)
    ensures
        (mode@ == "auto"@ || mode@ == "free"@) ==> final(settings)@ == (SettingsView {
            arrange_mode: mode@,
            ..old(settings)@
        }),
        !(mode@ == "auto"@ || mode@ == "free"@) ==> final(settings)@ == old(settings)@,
        cleared == (mode@ == "auto"@ && old(settings)@.arrange_mode != "auto"@),
        final(positions)@ == (if cleared {
            Map::<Seq<char>, (i32, i32)>::empty()
        } else {
            old(positions)@
        }),
        final(positions).path_view() == old(positions).path_view(),
{
    let m = chars_of(mode);
    let is_auto = chars_eq(&m, &chars_of("auto"));
    let is_free = chars_eq(&m, &chars_of("free"));
    if !is_auto && !is_free {
        return false;
    }
    let was_auto = chars_eq(&chars_of(settings.arrange_mode.as_str()), &chars_of("auto"));
    settings.arrange_mode = String::from_str(mode);
    if is_auto && !was_auto {
        positions.clear();
        true
    } else {
        false
    }
}

/// Changes how icons are sorted (see `Settings::set_sort`); the saved
/// positions are forgotten, as the icons are laid out anew.
pub fn apply_sort(settings: &mut Settings, positions: &mut Positions, key: &str, value: &str)
    ensures
        final(settings)@ == (if key@ == "sort_by"@ {
            SettingsView { sort_by: value@, ..old(settings)@ }
        } else if key@ == "sort_order"@ {
            SettingsView { sort_order: value@, ..old(settings)@ }
        } else {
            old(settings)@
        }),
        final(positions)@ == Map::<Seq<char>, (i32, i32)>::empty(),
        final(positions).path_view() == old(positions).path_view(),
{
    settings.set_sort(key, value);
    positions.clear();
}

/// Whether icons are placed freely (each keeps its own position) rather
/// than arranged automatically.
pub fn free_placement(arrange_mode: &str) -> (r: bool)
    ensures
        r == (arrange_mode@ == "free"@),
{
    chars_eq(&chars_of(arrange_mode), &chars_of("free"))
}

/// Whether a change of the view's size lays the icons out again: only
/// automatic arrangement follows the size.
pub fn reflows_on_resize(arrange_mode: &str) -> (r: bool)
    ensures
        r == (arrange_mode@ == "auto"@),
{
    chars_eq(&chars_of(arrange_mode), &chars_of("auto"))
}

// ---------------------------------------------------------------------------
// clicks on an icon
// ---------------------------------------------------------------------------

/// A mouse button.
#[derive(Clone, Copy, PartialEq, Eq, Debug)]
pub enum Button {
    Primary,
    Secondary,
    Other,
}

/// What an icon remembers between the press and the release of a click.
#[derive(Clone, Copy, PartialEq, Eq, Debug)]
pub struct ClickState {
    /// A primary press is waiting for its release.
    pub pending: bool,
    /// The press landed on a multiple selection: the release narrows the
    /// selection to this icon instead of launching.
    pub collapse: bool,
}

/// What a press on an icon does besides updating its click state.
#[derive(Clone, Copy, PartialEq, Eq, Debug)]
pub struct PressOutcome {
    pub state: ClickState,
    /// Select this icon alone.
    pub select: bool,
    /// Open the icon's menu.
    pub menu: bool,
}

/// A press on an icon. A secondary press drops a pending click, selects
/// the icon unless it is already selected, and opens its menu. A primary
/// press on an icon of a multiple selection keeps the selection (the
/// release will narrow it); otherwise it selects the icon; either way a
/// click is then pending. Other buttons do nothing.
pub fn item_press(state: ClickState, button: Button, in_selection: bool, selection_len: usize) -> (r: PressOutcome)
    ensures
        button == Button::Secondary ==> r == (PressOutcome {
            state: ClickState { pending: false, collapse: state.collapse },
            select: !in_selection,
            menu: true,
        }),
        button == Button::Primary ==> r == (PressOutcome {
            state: ClickState { pending: true, collapse: in_selection && selection_len > 1 },
            select: !(in_selection && selection_len > 1),
            menu: false,
        }),
        button == Button::Other ==> r == (PressOutcome { state, select: false, menu: false }),
{
    match button {
        Button::Secondary => PressOutcome {
            state: ClickState { pending: false, collapse: state.collapse },
            select: !in_selection,
            menu: true,
        },
        Button::Primary => {
            let multi = in_selection && selection_len > 1;
            PressOutcome { state: ClickState { pending: true, collapse: multi }, select: !multi, menu: false }
        },
        Button::Other => PressOutcome { state, select: false, menu: false },
    }
}

/// What the release of a click on an icon does.
#[derive(Clone, Copy, PartialEq, Eq, Debug)]
pub enum ReleaseAction {
    Nothing,
    /// Narrow the selection to this icon.
    Select,
    /// Open the icon.
    Launch,
}

/// The release of a click on an icon: without a pending primary press it
/// does nothing; it then clears the pending click; a release that narrows a
/// multiple selection selects the icon alone; otherwise the icon is opened
/// on the first release in single-click mode, on the second otherwise.
pub fn item_release(
    state: ClickState,
    button: Button,
    n_press: i32,
    launch_single_click: bool,
) -> (r: (ClickState, ReleaseAction))
    ensures
        !state.pending ==> r == (state, ReleaseAction::Nothing),
        state.pending && button != Button::Primary ==> r == (
            ClickState { pending: false, collapse: state.collapse },
            ReleaseAction::Nothing,
        ),
        state.pending && button == Button::Primary && state.collapse ==> r == (
            ClickState { pending: false, collapse: false },
            ReleaseAction::Select,
        ),
        state.pending && button == Button::Primary && !state.collapse ==> r == (
            ClickState { pending: false, collapse: false },
            if n_press == (if launch_single_click { 1i32 } else { 2i32 }) {
                ReleaseAction::Launch
            } else {
                ReleaseAction::Nothing
            },
        ),
{
    if !state.pending {
        return (state, ReleaseAction::Nothing);
    }
    let cleared = ClickState { pending: false, collapse: state.collapse };
    match button {
        Button::Primary => {
            if state.collapse {
                (ClickState { pending: false, collapse: false }, ReleaseAction::Select)
            } else if click_launches(launch_single_click, n_press) {
                (cleared, ReleaseAction::Launch)
            } else {
                (cleared, ReleaseAction::Nothing)
            }
        },
        _ => (cleared, ReleaseAction::Nothing),
    }
}

/// What a press on the empty desktop does: any press clears the
/// selection; a secondary press also opens the desktop menu.
#[derive(Clone, Copy, PartialEq, Eq, Debug)]
pub struct EmptyClick {
    pub clear_selection: bool,
    pub menu: bool,
}

/// What a press on the empty desktop does.
pub fn empty_click(button: Button) -> (r: EmptyClick)
    ensures
        r == (match button {
            Button::Primary => EmptyClick { clear_selection: true, menu: false },
            Button::Secondary => EmptyClick { clear_selection: true, menu: true },
            Button::Other => EmptyClick { clear_selection: false, menu: false },
        }),
{
    match button {
        Button::Primary => EmptyClick { clear_selection: true, menu: false },
        Button::Secondary => EmptyClick { clear_selection: true, menu: true },
        Button::Other => EmptyClick { clear_selection: false, menu: false },
    }
}

// ---------------------------------------------------------------------------
// keys
// ---------------------------------------------------------------------------

/// A key, as far as the desktop tells keys apart.
#[derive(Clone, Copy, PartialEq, Eq, Debug)]
pub enum Key {
    Left,
    Right,
    Up,
    Down,
    Return,
    Delete,
    F2,
    Char(char),
    Other,
}

/// What a key pressed on the desktop does.
#[derive(Clone, Copy, PartialEq, Eq, Debug)]
pub enum ViewAction {
    Copy,
    Cut,
    Paste,
    /// Move the selection one step in this direction.
    Move(i32, i32),
}

/// The desktop's keys: with Control, `c`, `x` and `v` (either case) copy,
/// cut and paste; without it the arrows move the selection. Other keys are
/// passed on (`None`).
pub fn view_key_action(key: Key, control: bool) -> (r: Option<ViewAction>)
    ensures
        control ==> r == match key {
            Key::Char(c) => if c == 'c' || c == 'C' {
                Some(ViewAction::Copy)
            } else if c == 'x' || c == 'X' {
                Some(ViewAction::Cut)
            } else if c == 'v' || c == 'V' {
                Some(ViewAction::Paste)
            } else {
                None
            },
            _ => None,
        },
        !control ==> r == match key {
            Key::Left => Some(ViewAction::Move(-1i32, 0i32)),
            Key::Right => Some(ViewAction::Move(1, 0)),
            Key::Up => Some(ViewAction::Move(0i32, -1i32)),
            Key::Down => Some(ViewAction::Move(0, 1)),
            _ => None,
        },
{
    if control {
        match key {
            Key::Char(c) => if c == 'c' || c == 'C' {
                Some(ViewAction::Copy)
            } else if c == 'x' || c == 'X' {
                Some(ViewAction::Cut)
            } else if c == 'v' || c == 'V' {
                Some(ViewAction::Paste)
            } else {
                None
            },
            _ => None,
        }
    } else {
        match key {
            Key::Left => Some(ViewAction::Move(-1i32, 0i32)),
            Key::Right => Some(ViewAction::Move(1, 0)),
            Key::Up => Some(ViewAction::Move(0i32, -1i32)),
            Key::Down => Some(ViewAction::Move(0, 1)),
            _ => None,
        }
    }
}

/// What a key pressed on a focused icon does.
#[derive(Clone, Copy, PartialEq, Eq, Debug)]
pub enum ItemAction {
    Launch,
    Delete,
    Rename,
}

/// An icon's keys: Return opens it, Delete trashes it, F2 renames it;
/// other keys are passed on.
pub fn item_key_action(key: Key) -> (r: Option<ItemAction>)
    ensures
        r == match key {
            Key::Return => Some(ItemAction::Launch),
            Key::Delete => Some(ItemAction::Delete),
            Key::F2 => Some(ItemAction::Rename),
            _ => None,
        },
{
    match key {
        Key::Return => Some(ItemAction::Launch),
        Key::Delete => Some(ItemAction::Delete),
        Key::F2 => Some(ItemAction::Rename),
        _ => None,
    }
}

// ---------------------------------------------------------------------------
// launching
// ---------------------------------------------------------------------------

/// How an icon is opened.
#[derive(PartialEq, Eq, Debug)]
pub enum LaunchKind {
    /// Open this URI with its default handler.
    Uri(String),
    /// Run the launcher's `Exec=` (or open its `URL=`).
    DesktopEntry,
    /// Mount the image and open its mount point.
    Iso,
    /// Open the file with the default application for its type.
    Default,
}

/// The extension of a path in ASCII lower case.
pub open spec fn lower_extension(path: Seq<char>) -> Option<Seq<char>> {
    match path_extension_spec(path) {
        Some(e) => Some(e.map_values(|c: char| ascii_lower(c))),
        None => None,
    }
}

/// How an icon is opened, as plain values.
pub enum LaunchKindView {
    Uri(Seq<char>),
    DesktopEntry,
    Iso,
    Default,
}

impl View for LaunchKind {
    type V = LaunchKindView;

    open spec fn view(&self) -> LaunchKindView {
        match self {
            LaunchKind::Uri(u) => LaunchKindView::Uri(u@),
            LaunchKind::DesktopEntry => LaunchKindView::DesktopEntry,
            LaunchKind::Iso => LaunchKindView::Iso,
            LaunchKind::Default => LaunchKindView::Default,
        }
    }
}

/// How an icon is opened: a special icon's URI if it has one; a launcher
/// (extension `desktop`, any case) runs; a disk image (`iso`, any case) is
/// mounted; anything else goes to its default application.
pub open spec fn launch_kind_spec(open_uri: Option<Seq<char>>, path: Seq<char>) -> LaunchKindView {
    match open_uri {
        Some(u) => LaunchKindView::Uri(u),
        None => if lower_extension(path) == Some("desktop"@) {
            LaunchKindView::DesktopEntry
        } else if lower_extension(path) == Some("iso"@) {
            LaunchKindView::Iso
        } else {
            LaunchKindView::Default
        },
    }
}

/// How an icon is opened.
pub fn launch_kind(open_uri: Option<String>, path: &str) -> (r: LaunchKind)
    ensures
        r@ == launch_kind_spec(opt_view(open_uri), path@),
{
    match open_uri {
        Some(u) => LaunchKind::Uri(u),
        None => match path_extension(path) {
            Some(e) => {
                let le = to_ascii_lowercase(&e);
                if chars_eq(&le, &chars_of("desktop")) {
                    LaunchKind::DesktopEntry
                } else if chars_eq(&le, &chars_of("iso")) {
                    LaunchKind::Iso
                } else {
                    LaunchKind::Default
                }
            },
            None => LaunchKind::Default,
        },
    }
}

// ---------------------------------------------------------------------------
// the item menu
// ---------------------------------------------------------------------------

/// Whether a path names a disk image: it ends in `.iso`, in any ASCII case.
pub open spec fn is_iso_spec(path: Seq<char>) -> bool {
    has_suffix(path.map_values(|c: char| ascii_lower(c)), ".iso"@)
}

/// Whether a path names a disk image.
pub fn is_iso_path(path: &str) -> (r: bool)
    ensures
        r == is_iso_spec(path@),
{
    ends_with(&to_ascii_lowercase(&chars_of(path)), &chars_of(".iso"))
}

/// The entries of an icon's menu, label and action: Open; for a file also,
/// on a disk image, Unmount or Mount as it is mounted or not; then Rename,
/// Delete and Properties. Special icons only open.
pub open spec fn item_menu_spec(is_special: bool, is_iso: bool, iso_mounted: bool) -> Seq<(Seq<char>, Seq<char>)> {
    let open = seq![("Open"@, "desktop.open"@)];
    if is_special {
        open
    } else {
        let iso = if is_iso {
            if iso_mounted {
                seq![("Unmount"@, "desktop.iso-unmount"@)]
            } else {
                seq![("Mount"@, "desktop.iso-mount"@)]
            }
        } else {
            seq![]
        };
        open + iso + seq![
            ("Rename"@, "desktop.rename"@),
            ("Delete"@, "desktop.delete"@),
            ("Properties"@, "desktop.properties"@),
        ]
    }
}

/// Pairs of strings as plain values.
pub open spec fn pairs_view(v: Seq<(String, String)>) -> Seq<(Seq<char>, Seq<char>)> {
    v.map_values(|p: (String, String)| (p.0@, p.1@))
}

fn entry(label: &str, action: &str) -> (r: (String, String))
    ensures
        r.0@ == label@,
        r.1@ == action@,
{
    (String::from_str(label), String::from_str(action))
}

/// The entries of an icon's menu (`iso_mounted` is consulted only for a
/// disk image).
pub fn item_menu(path: &str, is_special: bool, iso_mounted: bool) -> (r: Vec<(String, String)>)
    ensures
        pairs_view(r@) == item_menu_spec(is_special, is_iso_spec(path@), iso_mounted),
{
    let mut out: Vec<(String, String)> = Vec::new();
    out.push(entry("Open", "desktop.open"));
    if is_special {
        proof {
            assert(pairs_view(out@) =~= item_menu_spec(is_special, is_iso_spec(path@), iso_mounted));
        }
        return out;
    }
    if is_iso_path(path) {
        if iso_mounted {
            out.push(entry("Unmount", "desktop.iso-unmount"));
        } else {
            out.push(entry("Mount", "desktop.iso-mount"));
        }
    }
    out.push(entry("Rename", "desktop.rename"));
    out.push(entry("Delete", "desktop.delete"));
    out.push(entry("Properties", "desktop.properties"));
    proof {
        assert(pairs_view(out@) =~= item_menu_spec(is_special, is_iso_spec(path@), iso_mounted));
    }
    out
}

/// The actions an icon's menu can trigger: open, rename, delete and
/// properties, and for a disk image also mounting and unmounting it.
pub open spec fn item_actions_spec(is_iso: bool) -> Seq<Seq<char>> {
    seq!["open"@, "rename"@, "delete"@, "properties"@] + if is_iso {
        seq!["iso-mount"@, "iso-unmount"@]
    } else {
        seq![]
    }
}

/// The actions an icon's menu can trigger.
pub fn item_actions(path: &str) -> (r: Vec<String>)
    ensures
        strings_view(r@) == item_actions_spec(is_iso_spec(path@)),
{
    let mut out: Vec<String> = Vec::new();
    out.push(String::from_str("open"));
    out.push(String::from_str("rename"));
    out.push(String::from_str("delete"));
    out.push(String::from_str("properties"));
    if is_iso_path(path) {
        out.push(String::from_str("iso-mount"));
        out.push(String::from_str("iso-unmount"));
    }
    proof {
        assert(strings_view(out@) =~= item_actions_spec(is_iso_spec(path@)));
    }
    out
}

// ---------------------------------------------------------------------------
// drops
// ---------------------------------------------------------------------------

/// What lies under the pointer when something is dropped.
#[derive(Clone, Copy, PartialEq, Eq, Debug)]
pub enum DropTarget {
    /// The Trash icon.
    Trash,
    /// A folder: the Home icon or a directory's icon.
    Folder,
    /// Empty desktop or a file's icon.
    Nothing,
}

/// What lies under the pointer: a special icon (with the URI it opens)
/// is the Trash when it opens `trash:///` and a folder (Home) otherwise;
/// without one, the icon of a directory is a folder.
pub fn drop_target(special: Option<Option<&str>>, over_directory: bool) -> (r: DropTarget)
    ensures
        r == (match special {
            Some(Some(u)) => if u@ == "trash:///"@ {
                DropTarget::Trash
            } else {
                DropTarget::Folder
            },
            Some(None) => DropTarget::Folder,
            None => if over_directory {
                DropTarget::Folder
            } else {
                DropTarget::Nothing
            },
        }),
{
    match special {
        Some(Some(u)) => if chars_eq(&chars_of(u), &chars_of("trash:///")) {
            DropTarget::Trash
        } else {
            DropTarget::Folder
        },
        Some(None) => DropTarget::Folder,
        None => if over_directory {
            DropTarget::Folder
        } else {
            DropTarget::Nothing
        },
    }
}

/// A step taken for a drop.
#[derive(Clone, Copy, PartialEq, Eq, Debug)]
pub enum DropStep {
    /// Send the dragged files to the trash.
    Trash,
    /// Move the dragged files into the folder under the pointer.
    MoveInto,
    /// Place the dragged icons where they were dropped.
    Reposition,
    /// Move the dropped files into the desktop folder.
    Import,
}

/// How a drop is handled: files dropped on the Trash are trashed, on a
/// folder moved into it (`first`); when that does not happen or handles
/// nothing, a drag from this desktop repositions its icons and anything
/// else is imported (`fallback`).
pub struct DropPlan {
    pub first: Option<DropStep>,
    pub fallback: DropStep,
}

/// How a drop is handled.
pub fn drop_plan(target: DropTarget, has_sources: bool, internal: bool) -> (r: DropPlan)
    ensures
        r.first == (if !has_sources {
            None
        } else {
            match target {
                DropTarget::Trash => Some(DropStep::Trash),
                DropTarget::Folder => Some(DropStep::MoveInto),
                DropTarget::Nothing => None,
            }
        }),
        r.fallback == (if internal {
            DropStep::Reposition
        } else {
            DropStep::Import
        }),
{
    let first = if !has_sources {
        None
    } else {
        match target {
            DropTarget::Trash => Some(DropStep::Trash),
            DropTarget::Folder => Some(DropStep::MoveInto),
            DropTarget::Nothing => None,
        }
    };
    DropPlan { first, fallback: if internal { DropStep::Reposition } else { DropStep::Import } }
}

/// The file paths among dragged icons, given as (path, special): special
/// icons stand for no file and are left out.
pub open spec fn real_paths_spec(items: Seq<(Seq<char>, bool)>) -> Seq<Seq<char>>
    decreases items.len(),
{
    if items.len() == 0 {
        seq![]
    } else {
        let rest = real_paths_spec(items.drop_last());
        if items.last().1 {
            rest
        } else {
            rest.push(items.last().0)
        }
    }
}

/// The file paths among dragged icons.
pub fn real_paths(items: &Vec<(String, bool)>) -> (r: Vec<String>)
    ensures
        strings_view(r@) == real_paths_spec(items@.map_values(|p: (String, bool)| (p.0@, p.1))),
{
    let ghost iv = items@.map_values(|p: (String, bool)| (p.0@, p.1));
    let mut out: Vec<String> = Vec::new();
    let mut i: usize = 0;
    while i < items.len()
        invariant
            i <= items@.len(),
            iv == items@.map_values(|p: (String, bool)| (p.0@, p.1)),
            strings_view(out@) == real_paths_spec(iv.take(i as int)),
        decreases items.len() - i,
    {
        let ghost before = out@;
        assert(iv.take(i + 1).drop_last() =~= iv.take(i as int));
        if !items[i].1 {
            out.push(items[i].0.clone());
            assert(strings_view(out@) =~= strings_view(before).push(items@[i as int].0@));
        }
        i = i + 1;
    }
    assert(iv.take(items@.len() as int) =~= iv);
    out
}

// ---------------------------------------------------------------------------
// moving and copying files
// ---------------------------------------------------------------------------

/// The `n`-th name tried for a file copied or moved to `path`: the path
/// itself, then `stem (n).ext` beside it.
pub open spec fn unique_candidate_spec(path: Seq<char>, n: nat) -> Seq<char> {
    if n == 0 {
        path
    } else {
        let name = path_file_name(path);
        let stem = match name {
            Some(x) => stem_of_spec(x),
            None => seq![],
        };
        let ext = match name {
            Some(x) => match extension_of_spec(x) {
                Some(e) => seq!['.'] + e,
                None => seq![],
            },
            None => seq![],
        };
        let dir = match path_parent(path) {
            Some(d) => d,
            None => seq![],
        };
        join_spec(dir, stem + " ("@ + decimal_spec(n) + seq![')'] + ext)
    }
}

/// The `n`-th name tried for a file copied or moved to `path`; the first
/// that does not exist is used.
pub fn unique_candidate(path: &str, n: u64) -> (r: String)
    ensures
        r@ == unique_candidate_spec(path@, n as nat),
{
    if n == 0 {
        return String::from_str(path);
    }
    proof {
        reveal_strlit(" (");
    }
    let (stem, ext) = match file_name(path) {
        Some(x) => {
            let xc = chars_of(x.as_str());
            let st = stem_of(&xc);
            let ex = match extension_of(&xc) {
                Some(e) => {
                    let mut d: Vec<char> = Vec::new();
                    d.push('.');
                    push_all(&mut d, &e);
                    d
                },
                None => Vec::new(),
            };
            (st, ex)
        },
        None => (Vec::new(), Vec::new()),
    };
    let dir = match parent(path) {
        Some(d) => chars_of(d.as_str()),
        None => Vec::new(),
    };
    let mut name = stem;
    push_all(&mut name, &chars_of(" ("));
    push_all(&mut name, &decimal(n));
    name.push(')');
    push_all(&mut name, &ext);
    let r = join(&dir, &name);
    proof {
        let pn = path_file_name(path@);
        let st = match pn {
            Some(x) => stem_of_spec(x),
            None => seq![],
        };
        let ex = match pn {
            Some(x) => match extension_of_spec(x) {
                Some(e) => seq!['.'] + e,
                None => seq![],
            },
            None => seq![],
        };
        assert(name@ =~= st + " ("@ + decimal_spec(n as nat) + seq![')'] + ex);
    }
    string_from_chars(&r)
}

/// The first free name for a file copied or moved to `path`: `taken[n]`
/// tells whether the `n`-th name tried (`unique_candidate`) exists already;
/// the result is the first of them that does not, `None` while every name
/// listed is taken (then the next one is to be looked at).
pub fn first_free(path: &str, taken: &Vec<bool>) -> (r: Option<String>)
    ensures
        match r {
            Some(s) => exists|k: int|
                0 <= k < taken@.len() && !taken@[k] && (forall|j: int| 0 <= j < k ==> taken@[j]) && s@
                    == #[trigger] unique_candidate_spec(path@, k as nat),
            None => forall|k: int| 0 <= k < taken@.len() ==> taken@[k],
        },
{
    let mut i: usize = 0;
    while i < taken.len()
        invariant
            i <= taken@.len(),
            forall|j: int| 0 <= j < i ==> taken@[j],
        decreases taken.len() - i,
    {
        if !taken[i] {
            let s = unique_candidate(path, i as u64);
            proof {
                let k = i as int;
                assert(0 <= k < taken@.len() && !taken@[k] && (forall|j: int| 0 <= j < k ==> taken@[j]) && s@
                    == unique_candidate_spec(path@, k as nat));
            }
            return Some(s);
        }
        i = i + 1;
    }
    None
}

/// What pasting does with one source.
#[derive(Clone, Copy, PartialEq, Eq, Debug)]
pub enum PasteStep {
    Skip,
    Move,
    Copy,
}

/// What pasting does with one source: an empty or missing source is
/// skipped; a cut file is moved, unless it already lies in the destination
/// folder; a copied one is copied.
pub fn paste_step(src: &str, exists: bool, cut: bool, same_dir: bool) -> (r: PasteStep)
    ensures
        r == (if src@.len() == 0 || !exists {
            PasteStep::Skip
        } else if cut {
            if same_dir {
                PasteStep::Skip
            } else {
                PasteStep::Move
            }
        } else {
            PasteStep::Copy
        }),
{
    if src.unicode_len() == 0 || !exists {
        PasteStep::Skip
    } else if cut {
        if same_dir {
            PasteStep::Skip
        } else {
            PasteStep::Move
        }
    } else {
        PasteStep::Copy
    }
}

/// Whether a source is moved into a folder dropped on: it must be a
/// non-empty path that exists, and not the folder itself or one of its
/// ancestors (compared by their resolved paths; an unresolvable source is
/// not refused on that ground).
pub fn move_into_allowed(src: &str, exists: bool, folder_real: &str, src_real: Option<&str>) -> (r: bool)
    ensures
        r == (src@.len() > 0 && exists && !match src_real {
            Some(s) => folder_real@ == s@ || path_starts_with(folder_real@, s@),
            None => false,
        }),
{
    if src.unicode_len() == 0 || !exists {
        return false;
    }
    match src_real {
        Some(s) => !(chars_eq(&chars_of(folder_real), &chars_of(s)) || starts_with_path(folder_real, s)),
        None => true,
    }
}

/// The dropped paths that are imported, in order: the non-empty ones.
pub open spec fn import_sources_spec(paths: Seq<Seq<char>>) -> Seq<Seq<char>>
    decreases paths.len(),
{
    if paths.len() == 0 {
        seq![]
    } else {
        let rest = import_sources_spec(paths.drop_last());
        if paths.last().len() == 0 {
            rest
        } else {
            rest.push(paths.last())
        }
    }
}

/// The dropped paths that are imported.
pub fn import_sources(paths: &Vec<String>) -> (r: Vec<String>)
    ensures
        strings_view(r@) == import_sources_spec(strings_view(paths@)),
{
    let ghost pv = strings_view(paths@);
    let mut out: Vec<String> = Vec::new();
    let mut i: usize = 0;
    while i < paths.len()
        invariant
            i <= paths@.len(),
            pv == strings_view(paths@),
            strings_view(out@) == import_sources_spec(pv.take(i as int)),
        decreases paths.len() - i,
    {
        let ghost before = out@;
        assert(pv.take(i + 1).drop_last() =~= pv.take(i as int));
        if paths[i].unicode_len() > 0 {
            out.push(paths[i].clone());
            assert(strings_view(out@) =~= strings_view(before).push(paths@[i as int]@));
        }
        i = i + 1;
    }
    assert(pv.take(paths@.len() as int) =~= pv);
    out
}

// ---------------------------------------------------------------------------
// dialogs
// ---------------------------------------------------------------------------

/// The question asked before trashing a file.
pub fn trash_prompt(filename: &str) -> (r: String)
    ensures
        r@ == "Move \u{201c}"@ + filename@ + "\u{201d} to trash?"@,
{
    let mut v = chars_of("Move \u{201c}");
    push_all(&mut v, &chars_of(filename));
    push_all(&mut v, &chars_of("\u{201d} to trash?"));
    string_from_chars(&v)
}

/// The text of the properties dialog: name, path, whether it is a folder or
/// a file, size and modification time, one per line.
pub open spec fn properties_spec(
    name: Seq<char>,
    path: Seq<char>,
    is_dir: bool,
    size: Seq<char>,
    modified: Seq<char>,
) -> Seq<char> {
    "Name: "@ + name + "\nPath: "@ + path + "\nType: "@ + (if is_dir {
        "Folder"@
    } else {
        "File"@
    }) + "\nSize: "@ + size + "\nModified: "@ + modified
}

/// The text of the properties dialog.
pub fn properties_text(name: &str, path: &str, is_dir: bool, size: &str, modified: &str) -> (r: String)
    ensures
        r@ == properties_spec(name@, path@, is_dir, size@, modified@),
{
    let mut v = chars_of("Name: ");
    push_all(&mut v, &chars_of(name));
    push_all(&mut v, &chars_of("\nPath: "));
    push_all(&mut v, &chars_of(path));
    push_all(&mut v, &chars_of("\nType: "));
    if is_dir {
        push_all(&mut v, &chars_of("Folder"));
    } else {
        push_all(&mut v, &chars_of("File"));
    }
    push_all(&mut v, &chars_of("\nSize: "));
    push_all(&mut v, &chars_of(size));
    push_all(&mut v, &chars_of("\nModified: "));
    push_all(&mut v, &chars_of(modified));
    string_from_chars(&v)
}

} // verus!
