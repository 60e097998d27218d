//! Which icon shows a desktop entry: a folder, a launcher's own `Icon=`, or
//! a file by its content type; the fallbacks used when the theme lacks the
//! icon; and the label under it.

use vstd::prelude::*;
use crate::text::{chars_of, chars_eq, find_char, slice_chars, first_index_of, lemma_first_index_of_is};
use crate::paths::{base_name, base_name_spec, path_extension, path_extension_spec, is_absolute_spec};
use crate::desktop_entry::{desktop_icon_name, desktop_icon_spec};
use crate::config::opt_view;
use crate::layout::{truncate, truncate_spec};

verus! {

/// What an icon on the desktop stands for.
pub struct DesktopIcon {
    pub name: String,
    pub path: String,
    pub icon_name: Option<String>,
    pub is_app: bool,
    pub is_dir: bool,
}

/// What is found on disk at a path.
#[derive(Clone, Copy, PartialEq, Eq, Debug)]
pub enum PathKind {
    Missing,
    Directory,
    File,
}

/// The generic icon of a file.
pub open spec fn generic_icon() -> Seq<char> {
    "text-x-generic"@
}

/// The media category of a content type: what precedes the first `/`.
pub open spec fn mime_category(ct: Seq<char>) -> Seq<char> {
    match first_index_of(ct, '/') {
        Some(i) => ct.take(i),
        None => ct,
    }
}

/// The icon of a media category.
pub open spec fn category_icon(cat: Seq<char>) -> Seq<char> {
    if cat == "image"@ {
        "image-x-generic"@
    } else if cat == "video"@ {
        "video-x-generic"@
    } else if cat == "audio"@ {
        "audio-x-generic"@
    } else {
        generic_icon()
    }
}

/// Whether a content type is one of the archive types.
pub open spec fn is_archive_type(ct: Seq<char>) -> bool {
    ||| ct == "application/zip"@
    ||| ct == "application/x-rar"@
    ||| ct == "application/x-tar"@
    ||| ct == "application/x-gzip"@
    ||| ct == "application/vnd.rar"@
}

/// The icon of a content type: a few types have their own, the others
/// the icon of their category.
pub open spec fn mime_icon_spec(ct: Seq<char>) -> Seq<char> {
    if ct == "application/pdf"@ {
        "x-office-document"@
    } else if is_archive_type(ct) {
        "package-x-generic"@
    } else if ct == "text/html"@ {
        "text-html"@
    } else if ct == "text/plain"@ {
        generic_icon()
    } else if ct == "text/x-python"@ {
        "text-x-python"@
    } else if ct == "application/json"@ {
        "text-x-json"@
    } else {
        category_icon(mime_category(ct))
    }
}

/// The icons of the content types that have their own: PDF documents, the
/// archive types (zip, rar, tar, gzip), HTML, plain text, Python and JSON.
pub proof fn law_named_type_icons()
    ensures
        mime_icon_spec("application/pdf"@) == "x-office-document"@,
        mime_icon_spec("application/zip"@) == "package-x-generic"@,
        mime_icon_spec("application/x-rar"@) == "package-x-generic"@,
        mime_icon_spec("application/x-tar"@) == "package-x-generic"@,
        mime_icon_spec("application/x-gzip"@) == "package-x-generic"@,
        mime_icon_spec("application/vnd.rar"@) == "package-x-generic"@,
        mime_icon_spec("text/html"@) == "text-html"@,
        mime_icon_spec("text/plain"@) == "text-x-generic"@,
        mime_icon_spec("text/x-python"@) == "text-x-python"@,
        mime_icon_spec("application/json"@) == "text-x-json"@,
{
    reveal_strlit("application/pdf");
    reveal_strlit("application/zip");
    reveal_strlit("application/x-rar");
    reveal_strlit("application/x-tar");
    reveal_strlit("application/x-gzip");
    reveal_strlit("application/vnd.rar");
    reveal_strlit("text/html");
    reveal_strlit("text/plain");
    reveal_strlit("text/x-python");
    reveal_strlit("application/json");
    reveal_strlit("text-x-generic");
    assert("application/zip"@[12] != "application/pdf"@[12]);
    assert("application/x-rar"@.len() != "application/pdf"@.len());
    assert("application/x-tar"@.len() != "application/pdf"@.len());
    assert("application/x-gzip"@.len() != "application/pdf"@.len());
    assert("application/vnd.rar"@.len() != "application/pdf"@.len());
    assert("text/html"@.len() != "application/pdf"@.len());
    assert("text/html"@.len() != "application/zip"@.len());
    assert("text/html"@.len() != "application/x-rar"@.len());
    assert("text/html"@.len() != "application/x-gzip"@.len());
    assert("text/html"@.len() != "application/vnd.rar"@.len());
    assert("text/plain"@[0] != "application/zip"@[0]);
    assert("text/plain"@[0] != "application/pdf"@[0]);
    assert("text/plain"@[0] != "application/x-rar"@[0]);
    assert("text/plain"@[0] != "application/x-tar"@[0]);
    assert("text/plain"@[0] != "application/x-gzip"@[0]);
    assert("text/plain"@[0] != "application/vnd.rar"@[0]);
    assert("text/plain"@.len() != "text/html"@.len());
    assert("text/x-python"@[0] != "application/zip"@[0]);
    assert("text/x-python"@[0] != "application/pdf"@[0]);
    assert("text/x-python"@[0] != "application/x-rar"@[0]);
    assert("text/x-python"@[0] != "application/x-tar"@[0]);
    assert("text/x-python"@[0] != "application/x-gzip"@[0]);
    assert("text/x-python"@[0] != "application/vnd.rar"@[0]);
    assert("text/x-python"@.len() != "text/html"@.len());
    assert("text/x-python"@.len() != "text/plain"@.len());
    assert("application/json"@.len() != "application/pdf"@.len());
    assert("application/json"@.len() != "application/zip"@.len());
    assert("application/json"@.len() != "application/x-rar"@.len());
    assert("application/json"@.len() != "application/x-tar"@.len());
    assert("application/json"@.len() != "application/x-gzip"@.len());
    assert("application/json"@.len() != "application/vnd.rar"@.len());
    assert("application/json"@[0] != "text/html"@[0]);
    assert("application/json"@[0] != "text/plain"@[0]);
    assert("application/json"@[0] != "text/x-python"@[0]);
}

/// Any other content type of a media category gets that category's
/// icon: every `image/...` type the image icon, every `video/...` type the
/// video icon, every `audio/...` type the audio icon.
pub proof fn law_category_icons(sub: Seq<char>)
    ensures
        mime_icon_spec("image"@ + seq!['/'] + sub) == "image-x-generic"@,
        mime_icon_spec("video"@ + seq!['/'] + sub) == "video-x-generic"@,
        mime_icon_spec("audio"@ + seq!['/'] + sub) == "audio-x-generic"@,
{
    lemma_category_icon("image"@, sub, "image-x-generic"@);
    lemma_category_icon("video"@, sub, "video-x-generic"@);
    lemma_category_icon("audio"@, sub, "audio-x-generic"@);
}

/// A content type `cat/sub` whose category is not `application` or `text`
/// gets the icon of its category.
proof fn lemma_category_icon(cat: Seq<char>, sub: Seq<char>, icon: Seq<char>)
    requires
        cat == "image"@ && icon == "image-x-generic"@ || cat == "video"@ && icon == "video-x-generic"@ || cat
            == "audio"@ && icon == "audio-x-generic"@,
    ensures
        mime_icon_spec(cat + seq!['/'] + sub) == icon,
{
    reveal_strlit("image");
    reveal_strlit("video");
    reveal_strlit("audio");
    reveal_strlit("application/pdf");
    reveal_strlit("application/zip");
    reveal_strlit("application/x-rar");
    reveal_strlit("application/x-tar");
    reveal_strlit("application/x-gzip");
    reveal_strlit("application/vnd.rar");
    reveal_strlit("text/html");
    reveal_strlit("text/plain");
    reveal_strlit("text/x-python");
    reveal_strlit("application/json");
    let ct = cat + seq!['/'] + sub;
    assert("image"@[0] == 'i' && "image"@.len() == 5);
    assert("video"@[0] == 'v' && "video"@.len() == 5);
    assert("audio"@[0] == 'a' && "audio"@[1] == 'u' && "audio"@.len() == 5);
    assert(ct[0] == cat[0] && ct[1] == cat[1]);
    assert(ct[0] != 't');
    assert(ct != "application/pdf"@) by { assert("application/pdf"@[1] == 'p'); }
    assert(ct != "application/zip"@) by { assert("application/zip"@[1] == 'p'); }
    assert(ct != "application/x-rar"@) by { assert("application/x-rar"@[1] == 'p'); }
    assert(ct != "application/x-tar"@) by { assert("application/x-tar"@[1] == 'p'); }
    assert(ct != "application/x-gzip"@) by { assert("application/x-gzip"@[1] == 'p'); }
    assert(ct != "application/vnd.rar"@) by { assert("application/vnd.rar"@[1] == 'p'); }
    assert(ct != "application/json"@) by { assert("application/json"@[1] == 'p'); }
    assert(ct != "text/html"@) by { assert("text/html"@[0] == 't'); }
    assert(ct != "text/plain"@) by { assert("text/plain"@[0] == 't'); }
    assert(ct != "text/x-python"@) by { assert("text/x-python"@[0] == 't'); }
    assert(ct[5] == '/');
    assert forall|j: int| 0 <= j < 5 implies ct[j] != '/' by {
        assert(ct[j] == cat[j]);
    }
    lemma_first_index_of_is(ct, '/', 5);
    assert(ct.take(5) =~= cat);
    reveal_strlit("image-x-generic");
    reveal_strlit("video-x-generic");
    reveal_strlit("audio-x-generic");
}

/// Whether `s` holds exactly the text `lit`.
fn is_text(s: &Vec<char>, lit: &str) -> (r: bool)
    ensures
        r == (s@ == lit@),
{
    chars_eq(s, &chars_of(lit))
}

/// The category part of a content type.
fn category_of(ct: &Vec<char>) -> (r: Vec<char>)
    ensures
        r@ == mime_category(ct@),
{
    match find_char(ct, '/') {
        Some(i) => {
            let r = slice_chars(ct, 0, i);
            assert(r@ =~= ct@.take(i as int));
            r
        },
        None => slice_chars(ct, 0, ct.len()),
    }
}

/// The themed icon for a content type.
pub fn mime_icon_name(content_type: &str) -> (r: String)
    ensures
        r@ == mime_icon_spec(content_type@),
{
    let ct = chars_of(content_type);
    if is_text(&ct, "application/pdf") {
        String::from_str("x-office-document")
    } else if is_text(&ct, "application/zip") || is_text(&ct, "application/x-rar")
        || is_text(&ct, "application/x-tar") || is_text(&ct, "application/x-gzip")
        || is_text(&ct, "application/vnd.rar") {
        String::from_str("package-x-generic")
    } else if is_text(&ct, "text/html") {
        String::from_str("text-html")
    } else if is_text(&ct, "text/plain") {
        String::from_str("text-x-generic")
    } else if is_text(&ct, "text/x-python") {
        String::from_str("text-x-python")
    } else if is_text(&ct, "application/json") {
        String::from_str("text-x-json")
    } else {
        let cat = category_of(&ct);
        if is_text(&cat, "image") {
            String::from_str("image-x-generic")
        } else if is_text(&cat, "video") {
            String::from_str("video-x-generic")
        } else if is_text(&cat, "audio") {
            String::from_str("audio-x-generic")
        } else {
            String::from_str("text-x-generic")
        }
    }
}

/// Whether a path names a launcher (its extension is exactly `desktop`).
pub open spec fn is_launcher_spec(path: Seq<char>) -> bool {
    path_extension_spec(path) == Some("desktop"@)
}

/// Whether a path names a launcher.
pub fn is_launcher_path(path: &str) -> (r: bool)
    ensures
        r == is_launcher_spec(path@),
{
    match path_extension(path) {
        Some(e) => is_text(&e, "desktop"),
        None => false,
    }
}

/// The icon for a path, given what is on disk there, the text of the file
/// when it is a launcher (`None`: unreadable) and its guessed content type:
/// a missing path shows the generic icon, a directory the folder icon, a
/// launcher its own `Icon=` (and counts as an application), any other file
/// the icon of its content type.
pub open spec fn icon_for_path_spec(
    path: Seq<char>,
    kind: PathKind,
    launcher_text: Option<Seq<char>>,
    content_type: Seq<char>,
) -> (Seq<char>, bool, bool) {
    match kind {
        PathKind::Missing => (generic_icon(), false, false),
        PathKind::Directory => ("folder"@, false, true),
        PathKind::File => if is_launcher_spec(path) {
            (desktop_icon_spec(launcher_text), true, false)
        } else {
            (mime_icon_spec(content_type), false, false)
        },
    }
}

/// The desktop icon for a path (`IconProvider::get_icon_for_path`): the
/// reading of the disk and the content-type guess are the caller's.
pub fn icon_for_path(path: &str, kind: PathKind, launcher_text: Option<&str>, content_type: &str) -> (r: DesktopIcon)
    ensures
        r.name@ == base_name_spec(path@),
        r.path@ == path@,
        r.icon_name is Some,
        ({
            let (icon, is_app, is_dir) = icon_for_path_spec(
                path@,
                kind,
                match launcher_text {
                    Some(t) => Some(t@),
                    None => None,
                },
                content_type@,
            );
            &&& opt_view(r.icon_name) == Some(icon)
            &&& r.is_app == is_app
            &&& r.is_dir == is_dir
        }),
{
    let name = base_name(path);
    let p = String::from_str(path);
    match kind {
        PathKind::Missing => DesktopIcon {
            name,
            path: p,
            icon_name: Some(String::from_str("text-x-generic")),
            is_app: false,
            is_dir: false,
        },
        PathKind::Directory => DesktopIcon {
            name,
            path: p,
            icon_name: Some(String::from_str("folder")),
            is_app: false,
            is_dir: true,
        },
        PathKind::File => if is_launcher_path(path) {
            DesktopIcon { name, path: p, icon_name: Some(desktop_icon_name(launcher_text)), is_app: true, is_dir: false }
        } else {
            DesktopIcon { name, path: p, icon_name: Some(mime_icon_name(content_type)), is_app: false, is_dir: false }
        },
    }
}

/// The icon name an icon asks for: its own, else the generic one.
pub open spec fn requested_icon_spec(icon_name: Option<Seq<char>>) -> Seq<char> {
    match icon_name {
        Some(n) => n,
        None => generic_icon(),
    }
}

/// The icon name an icon asks for.
pub fn requested_icon(icon: &DesktopIcon) -> (r: String)
    ensures
        r@ == requested_icon_spec(opt_view(icon.icon_name)),
{
    match &icon.icon_name {
        Some(n) => n.clone(),
        None => String::from_str("text-x-generic"),
    }
}

/// The icon shown when the theme lacks the requested one: the executable
/// icon for an application, the generic icon otherwise.
pub open spec fn fallback_icon_spec(is_app: bool) -> Seq<char> {
    if is_app {
        "application-x-executable"@
    } else {
        generic_icon()
    }
}

/// How an icon's picture is found.
#[derive(PartialEq, Eq, Debug)]
pub enum IconChoice {
    /// Load the requested name as an image file.
    File(String),
    /// Look this name up in the icon theme.
    Themed(String),
}

/// Where the picture of an icon comes from: an absolute path to an image
/// file that loads is shown as it is; a name the theme has is looked up
/// there; anything else falls back (`IconProvider::load_icon_paintable`).
/// `file_loaded` tells whether the requested name, an absolute path to an
/// existing file, loaded as an image; `theme_has` whether the theme has it.
pub fn icon_choice(icon: &DesktopIcon, file_loaded: bool, theme_has: bool) -> (r: IconChoice)
    ensures
        ({
            let req = requested_icon_spec(opt_view(icon.icon_name));
            match r {
                IconChoice::File(p) => file_loaded && is_absolute_spec(req) && p@ == req,
                IconChoice::Themed(n) => !(file_loaded && is_absolute_spec(req)) && if theme_has {
                    n@ == req
                } else {
                    n@ == fallback_icon_spec(icon.is_app)
                },
            }
        }),
{
    let req = requested_icon(icon);
    let rc = chars_of(req.as_str());
    let absolute = rc.len() > 0 && rc[0] == '/';
    if file_loaded && absolute {
        IconChoice::File(req)
    } else if theme_has {
        IconChoice::Themed(req)
    } else if icon.is_app {
        IconChoice::Themed(String::from_str("application-x-executable"))
    } else {
        IconChoice::Themed(String::from_str("text-x-generic"))
    }
}

/// How many characters of a label an unselected icon shows.
pub const LABEL_CHARS: usize = 12;

/// The label shown under an icon: in full when selected, cut to
/// `LABEL_CHARS` characters otherwise.
pub fn item_label(full_label: &str, selected: bool) -> (r: String)
    ensures
        r@ == if selected {
            full_label@
        } else {
            truncate_spec(full_label@, LABEL_CHARS as nat)
        },
{
    if selected {
        String::from_str(full_label)
    } else {
        truncate(full_label, LABEL_CHARS)
    }
}

} // verus!
