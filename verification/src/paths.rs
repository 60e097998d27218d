//! Unix path handling over character sequences: joining, absolute paths,
//! and the file name, stem, extension and parent of a path.

use vstd::prelude::*;
use crate::text::{chars_of, copy_chars, push_all, slice_chars, string_from_chars};

verus! {

/// Whether `p` is absolute (on Unix: it starts with `/`).
pub open spec fn is_absolute_spec(p: Seq<char>) -> bool {
    p.len() > 0 && p[0] == '/'
}

/// `PathBuf::join` on Unix: an absolute `comp` replaces `base`; otherwise a
/// `/` is put between them when `base` is non-empty and does not already end
/// in one.
pub open spec fn join_spec(base: Seq<char>, comp: Seq<char>) -> Seq<char> {
    if is_absolute_spec(comp) {
        comp
    } else if base.len() > 0 && base.last() != '/' {
        base + seq!['/'] + comp
    } else {
        base + comp
    }
}

/// `PathBuf::join` on Unix, over characters.
pub fn join(base: &Vec<char>, comp: &Vec<char>) -> (r: Vec<char>)
    ensures
        r@ == join_spec(base@, comp@),
{
    if comp.len() > 0 && comp[0] == '/' {
        return copy_chars(comp);
    }
    let mut out = copy_chars(base);
    if base.len() > 0 && base[base.len() - 1] != '/' {
        out.push('/');
    }
    push_all(&mut out, comp);
    out
}

/// `PathBuf::join` on strings.
pub fn join_str(base: &str, comp: &str) -> (r: String)
    ensures
        r@ == join_spec(base@, comp@),
{
    let b = chars_of(base);
    let c = chars_of(comp);
    string_from_chars(&join(&b, &c))
}

/// What `Path::file_name` returns for a path, as characters.
pub uninterp spec fn path_file_name(p: Seq<char>) -> Option<Seq<char>>;

/// What `Path::parent` returns for a path, as characters.
pub uninterp spec fn path_parent(p: Seq<char>) -> Option<Seq<char>>;

/// `Path::new(p).file_name()`, taken through `to_string_lossy`.
/// Trusted: the result is whatever `Path::file_name` gives for `p`; a name is
/// never empty and holds no `/` (a path component).
#[verifier::external_body]
pub(crate) fn file_name(p: &str) -> (r: Option<String>)
    ensures
        match r {
            Some(n) => path_file_name(p@) == Some(n@) && n@.len() > 0 && !n@.contains('/'),
            None => path_file_name(p@) is None,
        },
{
    std::path::Path::new(p).file_name().map(|s| s.to_string_lossy().into_owned())
}

/// `Path::new(p).parent()`, taken through `to_string_lossy`.
/// Trusted: the result is whatever `Path::parent` gives for `p`.
#[verifier::external_body]
pub(crate) fn parent(p: &str) -> (r: Option<String>)
    ensures
        match r {
            Some(d) => path_parent(p@) == Some(d@),
            None => path_parent(p@) is None,
        },
{
    std::path::Path::new(p).parent().map(|d| d.to_string_lossy().into_owned())
}

/// The file name of a path, empty when it has none.
pub open spec fn base_name_spec(p: Seq<char>) -> Seq<char> {
    match path_file_name(p) {
        Some(n) => n,
        None => seq![],
    }
}

/// The file name of a path (`Path::file_name`), empty when it has none.
pub fn base_name(p: &str) -> (r: String)
    ensures
        r@ == base_name_spec(p@),
{
    match file_name(p) {
        Some(n) => n,
        None => String::new(),
    }
}

/// The path of `name` in the folder holding `path`, `None` when `path` has
/// no parent.
pub fn sibling(path: &str, name: &str) -> (r: Option<String>)
    ensures
        match path_parent(path@) {
            Some(d) => r matches Some(s) && s@ == join_spec(d, name@),
            None => r is None,
        },
{
    match parent(path) {
        Some(d) => Some(join_str(d.as_str(), name)),
        None => None,
    }
}

/// What `Path::starts_with` answers for two paths, as characters.
pub uninterp spec fn path_starts_with(p: Seq<char>, base: Seq<char>) -> bool;

/// `Path::new(p).starts_with(base)`.
/// Trusted: the answer is whatever `Path::starts_with` gives (a prefix of
/// whole path components).
#[verifier::external_body]
pub(crate) fn starts_with_path(p: &str, base: &str) -> (r: bool)
    ensures
        r == path_starts_with(p@, base@),
{
    std::path::Path::new(p).starts_with(base)
}

/// Index of the last `.` in `name`, if any.
pub open spec fn last_dot(name: Seq<char>) -> Option<int>
    decreases name.len(),
{
    if name.len() == 0 {
        None
    } else if name.last() == '.' {
        Some(name.len() - 1)
    } else {
        last_dot(name.drop_last())
    }
}

/// `last_dot` gives the greatest index holding a `.`.
pub proof fn lemma_last_dot(name: Seq<char>)
    ensures
        match last_dot(name) {
            Some(i) => 0 <= i < name.len() && name[i] == '.' && forall|j: int|
                i < j < name.len() ==> name[j] != '.',
            None => forall|j: int| 0 <= j < name.len() ==> name[j] != '.',
        },
    decreases name.len(),
{
    if name.len() > 0 && name.last() != '.' {
        lemma_last_dot(name.drop_last());
        match last_dot(name.drop_last()) {
            Some(i) => {
                assert forall|j: int| i < j < name.len() implies name[j] != '.' by {
                    if j < name.len() - 1 {
                        assert(name[j] == name.drop_last()[j]);
                    }
                }
            },
            None => {
                assert forall|j: int| 0 <= j < name.len() implies name[j] != '.' by {
                    if j < name.len() - 1 {
                        assert(name[j] == name.drop_last()[j]);
                    }
                }
            },
        }
    }
}

/// The extension of a file name, as `Path::extension` documents it: none
/// without a `.`, none when the only `.` is the first character, otherwise
/// what follows the last `.`.
pub open spec fn extension_of_spec(name: Seq<char>) -> Option<Seq<char>> {
    match last_dot(name) {
        Some(i) => if i > 0 {
            Some(name.subrange(i + 1, name.len() as int))
        } else {
            None
        },
        None => None,
    }
}

/// The stem of a file name, as `Path::file_stem` documents it: the whole
/// name without a `.` or when the only `.` is the first character,
/// otherwise what precedes the last `.`.
pub open spec fn stem_of_spec(name: Seq<char>) -> Seq<char> {
    match last_dot(name) {
        Some(i) => if i > 0 {
            name.subrange(0, i)
        } else {
            name
        },
        None => name,
    }
}

/// Position of the last `.` of a file name.
fn find_last_dot(name: &Vec<char>) -> (r: Option<usize>)
    ensures
        r matches Some(i) ==> i < name.len() && last_dot(name@) == Some(i as int),
        r is None ==> last_dot(name@) is None,
{
    proof {
        lemma_last_dot(name@);
    }
    let mut i: usize = name.len();
    while i > 0
        invariant
            i <= name.len(),
            forall|j: int| i <= j < name.len() ==> name@[j] != '.',
        decreases i,
    {
        if name[i - 1] == '.' {
            proof {
                lemma_last_dot(name@);
                match last_dot(name@) {
                    Some(k) => {
                        if k > i - 1 {
                            assert(name@[k] != '.');
                        } else if k < i - 1 {
                            assert(name@[i - 1] != '.');
                        }
                    },
                    None => {
                        assert(name@[i - 1] != '.');
                    },
                }
            }
            return Some(i - 1);
        }
        i = i - 1;
    }
    proof {
        if last_dot(name@) is Some {
            let k = last_dot(name@)->0;
            assert(name@[k] != '.');
        }
    }
    None
}

/// `Path::extension` of a file name.
pub fn extension_of(name: &Vec<char>) -> (r: Option<Vec<char>>)
    ensures
        match r {
            Some(e) => extension_of_spec(name@) == Some(e@),
            None => extension_of_spec(name@) is None,
        },
{
    match find_last_dot(name) {
        Some(i) => if i > 0 {
            Some(slice_chars(name, i + 1, name.len()))
        } else {
            None
        },
        None => None,
    }
}

/// `Path::file_stem` of a file name.
pub fn stem_of(name: &Vec<char>) -> (r: Vec<char>)
    ensures
        r@ == stem_of_spec(name@),
{
    match find_last_dot(name) {
        Some(i) => if i > 0 {
            slice_chars(name, 0, i)
        } else {
            copy_chars(name)
        },
        None => copy_chars(name),
    }
}

/// The extension of the file a path names (`Path::extension`).
pub open spec fn path_extension_spec(p: Seq<char>) -> Option<Seq<char>> {
    match path_file_name(p) {
        Some(n) => extension_of_spec(n),
        None => None,
    }
}

/// `Path::new(p).extension()` as characters.
pub fn path_extension(p: &str) -> (r: Option<Vec<char>>)
    ensures
        match r {
            Some(e) => path_extension_spec(p@) == Some(e@),
            None => path_extension_spec(p@) is None,
        },
{
    match file_name(p) {
        Some(n) => {
            let nc = chars_of(n.as_str());
            extension_of(&nc)
        },
        None => None,
    }
}

} // verus!
