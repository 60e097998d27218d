//! Saved icon positions for free placement: a map from item name to grid
//! coordinates, stored as a JSON object of two-element integer arrays.

use vstd::prelude::*;
use crate::config::home_dir;
use crate::paths::{join_spec, join_str, parent, path_parent};
use crate::config::config_dir_spec;
use crate::config::config_dir_for;
use crate::config::opt_view;
use serde_json::Value;

verus! {

// ---------------------------------------------------------------------------
// the JSON document, as far as positions read it
// ---------------------------------------------------------------------------

/// A value under a top-level key: an array (each element an integer that
/// fits in `i64`, or `None` for anything else), or any other JSON value.
pub enum JsonEntry {
    Array(Vec<Option<i64>>),
    Other,
}

/// A parsed document: an object (its keys and values, in the order the
/// parser yields them), or any other JSON value.
pub enum JsonDoc {
    Object(Vec<(String, JsonEntry)>),
    Other,
}

/// A `JsonEntry` as plain values.
pub enum JsonEntryView {
    Array(Seq<Option<i64>>),
    Other,
}

/// A `JsonDoc` as plain values.
pub enum JsonDocView {
    Object(Seq<(Seq<char>, JsonEntryView)>),
    Other,
}

impl View for JsonEntry {
    type V = JsonEntryView;

    open spec fn view(&self) -> JsonEntryView {
        match self {
            JsonEntry::Array(a) => JsonEntryView::Array(a@),
            JsonEntry::Other => JsonEntryView::Other,
        }
    }
}

impl View for JsonDoc {
    type V = JsonDocView;

    open spec fn view(&self) -> JsonDocView {
        match self {
            JsonDoc::Object(es) => JsonDocView::Object(
                es@.map_values(|e: (String, JsonEntry)| (e.0@, e.1@)),
            ),
            JsonDoc::Other => JsonDocView::Other,
        }
    }
}

/// An optional document as plain values.
pub open spec fn doc_opt_view(d: Option<JsonDoc>) -> Option<JsonDocView> {
    match d {
        Some(x) => Some(x@),
        None => None,
    }
}

/// What `serde_json::from_str::<serde_json::Value>` yields for a text, seen
/// through `JsonDoc` (`None`: not valid JSON).
pub uninterp spec fn parse_json_doc(text: Seq<char>) -> Option<JsonDocView>;

/// What `serde_json::to_string_pretty` yields for a document
/// (`None`: serialization failed).
pub uninterp spec fn render_json_doc(doc: JsonDocView) -> Option<Seq<char>>;

/// `serde_json::from_str::<Value>`, converted to `JsonDoc`: an object's
/// entries are listed in the map's order; each array element is taken
/// through `Value::as_i64`.
/// Trusted: the result is whatever serde_json's parser gives for `text`.
#[verifier::external_body]
pub(crate) fn parse_json(text: &str) -> (r: Option<JsonDoc>)
    ensures
        doc_opt_view(r) == parse_json_doc(text@),
{
    match serde_json::from_str::<Value>(text) {
        Ok(Value::Object(m)) => Some(JsonDoc::Object(m.into_iter().map(|(k, v)| (k, match v {
            Value::Array(a) => JsonEntry::Array(a.iter().map(Value::as_i64).collect()),
            _ => JsonEntry::Other,
        })).collect())),
        Ok(_) => Some(JsonDoc::Other),
        Err(_) => None,
    }
}

/// `serde_json::to_string_pretty` of the `serde_json::Value` a `JsonDoc`
/// stands for (integers as numbers, other array elements and values as
/// `null`).
/// Trusted: the result is whatever serde_json's printer gives for it.
#[verifier::external_body]
pub(crate) fn render_json(doc: &JsonDoc) -> (r: Option<String>)
    ensures
        opt_view(r) == render_json_doc(doc@),
{
    let v = match doc {
        JsonDoc::Object(es) => Value::Object(es.iter().map(|(k, e)| (k.clone(), match e {
            JsonEntry::Array(a) => Value::Array(a.iter().map(|x| match x {
                Some(i) => Value::from(*i),
                None => Value::Null,
            }).collect()),
            JsonEntry::Other => Value::Null,
        })).collect()),
        JsonDoc::Other => Value::Null,
    };
    serde_json::to_string_pretty(&v).ok()
}

// ---------------------------------------------------------------------------
// loading rule
// ---------------------------------------------------------------------------

/// The position an entry stands for: an array of exactly two integers,
/// each truncated to `i32`.
pub open spec fn entry_position(e: JsonEntryView) -> Option<(i32, i32)> {
    match e {
        JsonEntryView::Array(a) => if a.len() == 2 && a[0] is Some && a[1] is Some {
            Some((a[0]->0 as i32, a[1]->0 as i32))
        } else {
            None
        },
        JsonEntryView::Other => None,
    }
}

/// `m` after taking in the entries in order; entries that are not a pair
/// of integers are skipped.
pub open spec fn load_entries_spec(
    m: Map<Seq<char>, (i32, i32)>,
    es: Seq<(Seq<char>, JsonEntryView)>,
) -> Map<Seq<char>, (i32, i32)>
    decreases es.len(),
{
    if es.len() == 0 {
        m
    } else {
        let m2 = load_entries_spec(m, es.drop_last());
        match entry_position(es.last().1) {
            Some(p) => m2.insert(es.last().0, p),
            None => m2,
        }
    }
}

/// `m` after loading a document: an object's entries are taken in; any
/// other document leaves `m` unchanged.
pub open spec fn load_doc_spec(m: Map<Seq<char>, (i32, i32)>, d: JsonDocView) -> Map<
    Seq<char>,
    (i32, i32),
> {
    match d {
        JsonDocView::Object(es) => load_entries_spec(m, es),
        JsonDocView::Other => m,
    }
}

/// `m` after loading a file's contents (`None`: the file is missing or
/// unreadable; a text that is not JSON also leaves `m` unchanged).
pub open spec fn load_text_spec(m: Map<Seq<char>, (i32, i32)>, contents: Option<Seq<char>>) -> Map<
    Seq<char>,
    (i32, i32),
> {
    match contents {
        Some(t) => match parse_json_doc(t) {
            Some(d) => load_doc_spec(m, d),
            None => m,
        },
        None => m,
    }
}

// ---------------------------------------------------------------------------
// the store
// ---------------------------------------------------------------------------

/// `<home>/.config/hypricons/positions.json`.
pub open spec fn positions_file_spec(home: Seq<char>) -> Seq<char> {
    join_spec(config_dir_spec(home), "positions.json"@)
}

/// The positions file below a home directory.
pub fn positions_file_for(home: &str) -> (r: String)
    ensures
        r@ == positions_file_spec(home@),
{
    let d = config_dir_for(home);
    join_str(d.as_str(), "positions.json")
}

/// The current user's positions file, `None` when no home directory can be
/// found.
pub fn positions_file() -> (r: Option<String>)
    ensures
        r matches Some(f) ==> exists|h: Seq<char>| h.len() > 0 && f@ == #[trigger] positions_file_spec(h),
{
    match home_dir() {
        Some(h) => Some(positions_file_for(h.as_str())),
        None => None,
    }
}

/// The map that a list of entries stands for (a later entry wins).
pub open spec fn map_of(s: Seq<(String, (i32, i32))>) -> Map<Seq<char>, (i32, i32)>
    decreases s.len(),
{
    if s.len() == 0 {
        Map::empty()
    } else {
        map_of(s.drop_last()).insert(s.last().0@, s.last().1)
    }
}

/// No two entries share a key.
pub open spec fn unique_keys(s: Seq<(String, (i32, i32))>) -> bool {
    forall|i: int, j: int| 0 <= i < j < s.len() ==> s[i].0@ != s[j].0@
}

proof fn lemma_map_of_dom(s: Seq<(String, (i32, i32))>, k: Seq<char>)
    ensures
        map_of(s).dom().contains(k) <==> exists|i: int| 0 <= i < s.len() && #[trigger] s[i].0@ == k,
    decreases s.len(),
{
    if s.len() > 0 {
        lemma_map_of_dom(s.drop_last(), k);
        if map_of(s.drop_last()).dom().contains(k) {
            let i = choose|i: int| 0 <= i < s.drop_last().len() && #[trigger] s.drop_last()[i].0@ == k;
            assert(s[i].0@ == k);
        }
        if exists|i: int| 0 <= i < s.len() && #[trigger] s[i].0@ == k {
            let i = choose|i: int| 0 <= i < s.len() && #[trigger] s[i].0@ == k;
            if i < s.len() - 1 {
                assert(s.drop_last()[i].0@ == k);
            }
        }
    }
}

proof fn lemma_map_of_val(s: Seq<(String, (i32, i32))>, i: int)
    requires
        unique_keys(s),
        0 <= i < s.len(),
    ensures
        map_of(s).dom().contains(s[i].0@),
        map_of(s)[s[i].0@] == s[i].1,
    decreases s.len(),
{
    lemma_map_of_dom(s, s[i].0@);
    if i < s.len() - 1 {
        assert(unique_keys(s.drop_last()));
        assert(s.drop_last()[i] == s[i]);
        lemma_map_of_val(s.drop_last(), i);
    }
}

proof fn lemma_unique_push(s: Seq<(String, (i32, i32))>, e: (String, (i32, i32)))
    requires
        unique_keys(s),
        !map_of(s).dom().contains(e.0@),
    ensures
        unique_keys(s.push(e)),
{
    lemma_map_of_dom(s, e.0@);
    assert forall|i: int, j: int| 0 <= i < j < s.push(e).len() implies s.push(e)[i].0@ != s.push(
        e,
    )[j].0@ by {
        if j == s.len() {
            assert(s.push(e)[i] == s[i]);
        } else {
            assert(s.push(e)[i] == s[i]);
            assert(s.push(e)[j] == s[j]);
        }
    }
}

proof fn lemma_map_of_take(s: Seq<(String, (i32, i32))>, i: int)
    requires
        0 <= i < s.len(),
    ensures
        map_of(s.take(i + 1)) == map_of(s.take(i)).insert(s[i].0@, s[i].1),
{
    assert(s.take(i + 1).drop_last() =~= s.take(i));
}

/// Index of the entry for `key` in a list of entries.
fn find_key(d: &Vec<(String, (i32, i32))>, key: &String) -> (r: Option<usize>)
    ensures
        match r {
            Some(i) => i < d.len() && d@[i as int].0@ == key@,
            None => forall|i: int| 0 <= i < d.len() ==> d@[i].0@ != key@,
        },
{
    let mut i: usize = 0;
    while i < d.len()
        invariant
            i <= d.len(),
            forall|j: int| 0 <= j < i ==> d@[j].0@ != key@,
        decreases d.len() - i,
    {
        if d[i].0 == *key {
            return Some(i);
        }
        i = i + 1;
    }
    None
}

/// Saved positions keyed by item name, and the file they belong to.
pub struct Positions {
    path: String,
    data: Vec<(String, (i32, i32))>,
}

impl View for Positions {
    type V = Map<Seq<char>, (i32, i32)>;

    closed spec fn view(&self) -> Map<Seq<char>, (i32, i32)> {
        map_of(self.data@)
    }
}

impl Positions {
    #[verifier::type_invariant]
    spec fn inv(self) -> bool {
        unique_keys(self.data@)
    }

    /// The file these positions are read from and written to.
    pub closed spec fn path_view(self) -> Seq<char> {
        self.path@
    }

    /// The file these positions are read from and written to.
    pub fn path(&self) -> (r: &String)
        ensures
            r@ == self.path_view(),
    {
        &self.path
    }

    /// The folder of the positions file (created before saving), if the
    /// path has one.
    pub fn folder(&self) -> (r: Option<String>)
        ensures
            match path_parent(self.path_view()) {
                Some(d) => r matches Some(s) && s@ == d,
                None => r is None,
            },
    {
        parent(self.path.as_str())
    }

    /// Positions for `path` loaded from that file's `contents` (`None` when
    /// the file is missing or cannot be read).
    pub fn with_path(path: String, contents: Option<&str>) -> (r: Positions)
        ensures
            r@ == load_text_spec(Map::empty(), match contents {
                Some(t) => Some(t@),
                None => None,
            }),
            r.path_view() == path@,
    {
        let mut p = Positions { path, data: Vec::new() };
        assert(p@ =~= Map::<Seq<char>, (i32, i32)>::empty());
        p.load(contents);
        p
    }

    /// Positions for the current user's positions file, loaded from its
    /// `contents`; `None` when no home directory can be found.
    pub fn new(contents: Option<&str>) -> (r: Option<Positions>)
        ensures
            r matches Some(p) ==> p@ == load_text_spec(Map::empty(), match contents {
                Some(t) => Some(t@),
                None => None,
            }) && exists|h: Seq<char>|
                h.len() > 0 && p.path_view() == #[trigger] positions_file_spec(h),
    {
        match positions_file() {
            Some(f) => Some(Positions::with_path(f, contents)),
            None => None,
        }
    }

    /// Index of the entry for `name`.
    fn find(&self, name: &String) -> (r: Option<usize>)
        ensures
            match r {
                Some(i) => i < self.data.len() && self.data@[i as int].0@ == name@,
                None => forall|i: int| 0 <= i < self.data.len() ==> self.data@[i].0@ != name@,
            },
    {
        find_key(&self.data, name)
    }

    /// The saved position of `name`, if any.
    pub fn get(&self, name: &str) -> (r: Option<(i32, i32)>)
        ensures
            r == (if self@.dom().contains(name@) {
                Some(self@[name@])
            } else {
                None
            }),
    {
        proof {
            use_type_invariant(self);
        }
        let key = name.to_owned();
        match self.find(&key) {
            Some(i) => {
                proof {
                    lemma_map_of_val(self.data@, i as int);
                }
                Some(self.data[i].1)
            },
            None => {
                proof {
                    lemma_map_of_dom(self.data@, name@);
                }
                None
            },
        }
    }

    /// Records `name` at `(x, y)`.
    pub fn set(&mut self, name: &str, x: i32, y: i32)
        ensures
            final(self)@ == old(self)@.insert(name@, (x, y)),
            final(self).path_view() == old(self).path_view(),
    {
        proof {
            use_type_invariant(&*self);
        }
        let key = name.to_owned();
        let mut d: Vec<(String, (i32, i32))> = Vec::new();
        std::mem::swap(&mut d, &mut self.data);
        let ghost s = d@;
        assert(unique_keys(s));
        let found = find_key(&d, &key);
        if let Some(i) = found {
            let ghost t = s.update(i as int, (key, (x, y)));
            d.set(i, (key, (x, y)));
            proof {
                assert(d@ == t);
                assert(unique_keys(t)) by {
                    assert forall|a: int, b: int| 0 <= a < b < t.len() implies t[a].0@ != t[b].0@ by {
                        assert(s[a].0@ != s[b].0@);
                        assert(t[a].0@ == s[a].0@);
                        assert(t[b].0@ == s[b].0@);
                    }
                }
                assert(t[i as int].0@ == name@);
                assert(s[i as int].0@ == name@);
                assert forall|k: Seq<char>| #[trigger] map_of(t).dom().contains(k) <==> map_of(
                    s,
                ).insert(name@, (x, y)).dom().contains(k) by {
                    lemma_map_of_dom(t, k);
                    lemma_map_of_dom(s, k);
                    if k == name@ {
                        assert(t[i as int].0@ == k);
                    }
                    if exists|a: int| 0 <= a < s.len() && #[trigger] s[a].0@ == k {
                        let a = choose|a: int| 0 <= a < s.len() && #[trigger] s[a].0@ == k;
                        if a != i {
                            assert(t[a].0@ == k);
                        }
                    }
                    if exists|a: int| 0 <= a < t.len() && #[trigger] t[a].0@ == k {
                        let a = choose|a: int| 0 <= a < t.len() && #[trigger] t[a].0@ == k;
                        if a != i {
                            assert(s[a].0@ == k);
                        }
                    }
                }
                assert forall|k: Seq<char>| #[trigger] map_of(t).dom().contains(k) implies map_of(
                    t,
                )[k] == map_of(s).insert(name@, (x, y))[k] by {
                    lemma_map_of_dom(t, k);
                    let a = choose|a: int| 0 <= a < t.len() && #[trigger] t[a].0@ == k;
                    lemma_map_of_val(t, a);
                    if a != i {
                        assert(t[a] == s[a]);
                        lemma_map_of_val(s, a);
                    }
                }
                assert(map_of(t) =~= map_of(s).insert(name@, (x, y)));
            }
        } else {
            proof {
                lemma_map_of_dom(s, key@);
                lemma_unique_push(s, (key, (x, y)));
            }
            d.push((key, (x, y)));
            assert(d@.drop_last() =~= s);
        }
        self.data = d;
    }

    /// Forgets the position of `name`.
    pub fn remove(&mut self, name: &str)
        ensures
            final(self)@ == old(self)@.remove(name@),
            final(self).path_view() == old(self).path_view(),
    {
        proof {
            use_type_invariant(&*self);
        }
        let key = name.to_owned();
        match self.find(&key) {
            Some(i) => {
                let mut d: Vec<(String, (i32, i32))> = Vec::new();
                std::mem::swap(&mut d, &mut self.data);
                let ghost s = d@;
                d.remove(i);
                let ghost t = d@;
                proof {
                    assert(t =~= s.remove(i as int));
                    assert(unique_keys(t)) by {
                        assert forall|a: int, b: int| 0 <= a < b < t.len() implies t[a].0@
                            != t[b].0@ by {
                            let a2 = if a < i { a } else { a + 1 };
                            let b2 = if b < i { b } else { b + 1 };
                            assert(t[a] == s[a2]);
                            assert(t[b] == s[b2]);
                        }
                    }
                    assert forall|k: Seq<char>| #[trigger] map_of(t).dom().contains(k) <==> map_of(
                        s,
                    ).remove(name@).dom().contains(k) by {
                        lemma_map_of_dom(t, k);
                        lemma_map_of_dom(s, k);
                        if exists|a: int| 0 <= a < s.len() && #[trigger] s[a].0@ == k {
                            let a = choose|a: int| 0 <= a < s.len() && #[trigger] s[a].0@ == k;
                            if a < i {
                                assert(t[a] == s[a]);
                            } else if a > i {
                                assert(t[a - 1] == s[a]);
                            }
                        }
                        if exists|a: int| 0 <= a < t.len() && #[trigger] t[a].0@ == k {
                            let a = choose|a: int| 0 <= a < t.len() && #[trigger] t[a].0@ == k;
                            let a2 = if a < i { a } else { a + 1 };
                            assert(t[a] == s[a2]);
                            assert(s[a2].0@ != s[i as int].0@);
                        }
                    }
                    assert forall|k: Seq<char>| #[trigger] map_of(t).dom().contains(k) implies map_of(
                        t,
                    )[k] == map_of(s).remove(name@)[k] by {
                        lemma_map_of_dom(t, k);
                        let a = choose|a: int| 0 <= a < t.len() && #[trigger] t[a].0@ == k;
                        lemma_map_of_val(t, a);
                        let a2 = if a < i { a } else { a + 1 };
                        assert(t[a] == s[a2]);
                        lemma_map_of_val(s, a2);
                    }
                    assert(map_of(t) =~= map_of(s).remove(name@));
                }
                self.data = d;
            },
            None => {
                proof {
                    lemma_map_of_dom(self.data@, name@);
                    assert(self@ =~= self@.remove(name@));
                }
            },
        }
    }

    /// Forgets every position.
    pub fn clear(&mut self)
        ensures
            final(self)@ == Map::<Seq<char>, (i32, i32)>::empty(),
            final(self).path_view() == old(self).path_view(),
    {
        self.data = Vec::new();
        assert(map_of(self.data@) =~= Map::<Seq<char>, (i32, i32)>::empty());
    }

    /// Keeps only the positions of the names in `valid_names`.
    pub fn prune(&mut self, valid_names: &[String])
        ensures
            final(self)@ == old(self)@.restrict(
                Set::new(|k: Seq<char>| exists|i: int| 0 <= i < valid_names@.len() && #[trigger] valid_names@[i]@ == k),
            ),
            final(self).path_view() == old(self).path_view(),
    {
        proof {
            use_type_invariant(&*self);
        }
        let ghost keep = Set::new(
            |k: Seq<char>| exists|i: int| 0 <= i < valid_names@.len() && #[trigger] valid_names@[i]@ == k,
        );
        let mut d: Vec<(String, (i32, i32))> = Vec::new();
        std::mem::swap(&mut d, &mut self.data);
        let ghost s = d@;
        let mut out: Vec<(String, (i32, i32))> = Vec::new();
        let mut i: usize = 0;
        assert(map_of(out@) =~= map_of(s.take(0)).restrict(keep));
        while i < d.len()
            invariant
                i <= d.len(),
                d@ == s,
                unique_keys(s),
                unique_keys(out@),
                keep == Set::new(
                    |k: Seq<char>| exists|i: int| 0 <= i < valid_names@.len() && #[trigger] valid_names@[i]@ == k,
                ),
                map_of(out@) == map_of(s.take(i as int)).restrict(keep),
            decreases d.len() - i,
        {
            let mut listed = false;
            let mut j: usize = 0;
            while j < valid_names.len()
                invariant
                    i < d@.len(),
                    j <= valid_names@.len(),
                    listed == exists|m: int| 0 <= m < j && #[trigger] valid_names@[m]@ == d@[i as int].0@,
                decreases valid_names.len() - j,
            {
                if valid_names[j] == d[i].0 {
                    listed = true;
                }
                j = j + 1;
            }
            proof {
                lemma_map_of_take(s, i as int);
                lemma_map_of_dom(s.take(i as int), s[i as int].0@);
                if exists|a: int| 0 <= a < s.take(i as int).len() && #[trigger] s.take(
                    i as int,
                )[a].0@ == s[i as int].0@ {
                    let a = choose|a: int| 0 <= a < s.take(i as int).len() && #[trigger] s.take(
                        i as int,
                    )[a].0@ == s[i as int].0@;
                    assert(s[a].0@ != s[i as int].0@);
                }
            }
            let ghost old_out = out@;
            let ghost k = s[i as int].0@;
            let ghost v = s[i as int].1;
            if listed {
                let e = (d[i].0.clone(), d[i].1);
                proof {
                    assert(!map_of(s.take(i as int)).dom().contains(k));
                    assert(!map_of(old_out).dom().contains(k));
                    lemma_unique_push(out@, e);
                }
                out.push(e);
                proof {
                    assert(keep.contains(k));
                    assert(out@.drop_last() =~= old_out);
                    assert(map_of(out@) == map_of(old_out).insert(k, v));
                    assert(map_of(out@) =~= map_of(s.take(i + 1)).restrict(keep));
                }
            } else {
                proof {
                    assert(!keep.contains(k));
                    assert(map_of(out@) =~= map_of(s.take(i + 1)).restrict(keep));
                }
            }
            i = i + 1;
        }
        assert(s.take(d.len() as int) =~= s);
        self.data = out;
    }

    /// Moves the saved position of `old_name`, if it has one, to `new_name`
    /// (after a rename); `old_name` is forgotten either way.
    pub fn rename(&mut self, old_name: &str, new_name: &str)
        ensures
            final(self)@ == (if old(self)@.dom().contains(old_name@) {
                old(self)@.remove(old_name@).insert(new_name@, old(self)@[old_name@])
            } else {
                old(self)@.remove(old_name@)
            }),
            final(self).path_view() == old(self).path_view(),
    {
        let pos = self.get(old_name);
        self.remove(old_name);
        match pos {
            Some(p) => self.set(new_name, p.0, p.1),
            None => {},
        }
    }

    /// Takes in the entries of a parsed positions document: each key whose
    /// value is an array of exactly two integers is set to them (truncated to
    /// `i32`); other entries, and a document that is not an object, are
    /// ignored.
    pub fn load_doc(&mut self, doc: &JsonDoc)
        ensures
            final(self)@ == load_doc_spec(old(self)@, doc@),
            final(self).path_view() == old(self).path_view(),
    {
        match doc {
            JsonDoc::Object(es) => {
                let ghost m0 = self@;
                let ghost ev = es@.map_values(|e: (String, JsonEntry)| (e.0@, e.1@));
                let mut i: usize = 0;
                while i < es.len()
                    invariant
                        i <= es.len(),
                        ev == es@.map_values(|e: (String, JsonEntry)| (e.0@, e.1@)),
                        self@ == load_entries_spec(m0, ev.take(i as int)),
                        self.path_view() == old(self).path_view(),
                    decreases es.len() - i,
                {
                    let ghost before = self@;
                    let (k, e) = &es[i];
                    proof {
                        assert(ev.take(i + 1).drop_last() =~= ev.take(i as int));
                        assert(ev[i as int] == (k@, e@));
                    }
                    match e {
                        JsonEntry::Array(a) => {
                            if a.len() == 2 {
                                match (a[0], a[1]) {
                                    (Some(x), Some(y)) => {
                                        self.set(k.as_str(), x as i32, y as i32);
                                    },
                                    _ => {},
                                }
                            }
                        },
                        JsonEntry::Other => {},
                    }
                    i = i + 1;
                }
                assert(ev.take(es.len() as int) =~= ev);
            },
            JsonDoc::Other => {},
        }
    }

    /// Takes in the contents of the positions file (`None` when it is missing
    /// or cannot be read); text that is not JSON changes nothing.
    pub fn load(&mut self, contents: Option<&str>)
        ensures
            final(self)@ == load_text_spec(old(self)@, match contents {
                Some(t) => Some(t@),
                None => None,
            }),
            final(self).path_view() == old(self).path_view(),
    {
        match contents {
            Some(t) => match parse_json(t) {
                Some(d) => self.load_doc(&d),
                None => {},
            },
            None => {},
        }
    }

    /// The document the positions are saved as: an object whose entries are
    /// the names, each with a `[x, y]` array.
    pub fn to_doc(&self) -> (r: JsonDoc)
        ensures
            r@ == positions_doc_spec(*self),
    {
        let mut es: Vec<(String, JsonEntry)> = Vec::new();
        let mut i: usize = 0;
        while i < self.data.len()
            invariant
                i <= self.data.len(),
                es@.map_values(|e: (String, JsonEntry)| (e.0@, e.1@)) =~= self.data@.take(
                    i as int,
                ).map_values(|e: (String, (i32, i32))| pair_entry(e)),
            decreases self.data.len() - i,
        {
            let mut a: Vec<Option<i64>> = Vec::new();
            a.push(Some(self.data[i].1.0 as i64));
            a.push(Some(self.data[i].1.1 as i64));
            let ghost old_es = es@;
            es.push((self.data[i].0.clone(), JsonEntry::Array(a)));
            proof {
                assert(a@ =~= seq![Some(self.data@[i as int].1.0 as i64), Some(self.data@[i as int].1.1 as i64)]);
                assert(self.data@.take(i + 1).map_values(|e: (String, (i32, i32))| pair_entry(e))
                    =~= self.data@.take(i as int).map_values(|e: (String, (i32, i32))| pair_entry(e)).push(
                    pair_entry(self.data@[i as int]),
                ));
                assert(es@.map_values(|e: (String, JsonEntry)| (e.0@, e.1@)) =~= old_es.map_values(
                    |e: (String, JsonEntry)| (e.0@, e.1@),
                ).push((self.data@[i as int].0@, es@.last().1@)));
            }
            i = i + 1;
        }
        assert(self.data@.take(self.data.len() as int) =~= self.data@);
        JsonDoc::Object(es)
    }

    /// The text to write to the positions file (`None` when serialization
    /// fails).
    pub fn save(&self) -> (r: Option<String>)
        ensures
            opt_view(r) == render_json_doc(positions_doc_spec(*self)),
    {
        let d = self.to_doc();
        render_json(&d)
    }
}

/// An entry as it is saved: the name and a `[x, y]` array.
pub open spec fn pair_entry(e: (String, (i32, i32))) -> (Seq<char>, JsonEntryView) {
    (e.0@, JsonEntryView::Array(seq![Some(e.1.0 as i64), Some(e.1.1 as i64)]))
}

/// The document `Positions::save` renders.
pub closed spec fn positions_doc_spec(p: Positions) -> JsonDocView {
    JsonDocView::Object(p.data@.map_values(|e: (String, (i32, i32))| pair_entry(e)))
}

// ---------------------------------------------------------------------------
// laws
// ---------------------------------------------------------------------------

proof fn lemma_load_saved_prefix(m: Map<Seq<char>, (i32, i32)>, d: Seq<(String, (i32, i32))>, i: int)
    requires
        0 <= i <= d.len(),
    ensures
        load_entries_spec(m, d.take(i).map_values(|e: (String, (i32, i32))| pair_entry(e)))
            == m.union_prefer_right(map_of(d.take(i))),
    decreases i,
{
    let es = d.take(i).map_values(|e: (String, (i32, i32))| pair_entry(e));
    if i == 0 {
        assert(es =~= seq![]);
        assert(m.union_prefer_right(map_of(d.take(0))) =~= m);
    } else {
        lemma_load_saved_prefix(m, d, i - 1);
        assert(es.drop_last() =~= d.take(i - 1).map_values(|e: (String, (i32, i32))| pair_entry(e)));
        assert(d.take(i).drop_last() =~= d.take(i - 1));
        let e = d[i - 1];
        assert(es.last() == pair_entry(e));
        assert(entry_position(pair_entry(e).1) == Some(e.1));
        assert(m.union_prefer_right(map_of(d.take(i - 1))).insert(e.0@, e.1) =~= m.union_prefer_right(
            map_of(d.take(i - 1)).insert(e.0@, e.1),
        ));
    }
}

/// Loading what `save` renders gives the positions back: taking in the saved
/// document on top of `m` yields `m` overridden by every saved position.
pub proof fn law_load_of_saved(p: Positions, m: Map<Seq<char>, (i32, i32)>)
    ensures
        load_doc_spec(m, positions_doc_spec(p)) == m.union_prefer_right(p@),
{
    lemma_load_saved_prefix(m, p.data@, p.data@.len() as int);
    assert(p.data@.take(p.data@.len() as int) =~= p.data@);
}

/// Loading what `save` renders into an empty store reproduces the store.
pub proof fn law_save_load_round_trip(p: Positions)
    ensures
        load_doc_spec(Map::empty(), positions_doc_spec(p)) == p@,
{
    law_load_of_saved(p, Map::empty());
    assert(Map::<Seq<char>, (i32, i32)>::empty().union_prefer_right(p@) =~= p@);
}

/// A position read back after it was set is the one set, and setting one
/// name leaves every other name's position as it was.
pub proof fn law_set_then_get(m: Map<Seq<char>, (i32, i32)>, name: Seq<char>, x: i32, y: i32)
    ensures
        m.insert(name, (x, y)).dom().contains(name),
        m.insert(name, (x, y))[name] == (x, y),
        forall|k: Seq<char>|
            k != name ==> (#[trigger] m.insert(name, (x, y)).dom().contains(k) == m.dom().contains(k)
                && (m.dom().contains(k) ==> m.insert(name, (x, y))[k] == m[k])),
{
}

/// A removed name has no position, and the other names keep theirs.
pub proof fn law_remove_then_get(m: Map<Seq<char>, (i32, i32)>, name: Seq<char>)
    ensures
        !m.remove(name).dom().contains(name),
        forall|k: Seq<char>|
            k != name ==> (#[trigger] m.remove(name).dom().contains(k) == m.dom().contains(k) && (
            m.dom().contains(k) ==> m.remove(name)[k] == m[k])),
{
}

/// Pruning keeps exactly the listed names' positions, and pruning twice with
/// the same list changes nothing more.
pub proof fn law_prune(m: Map<Seq<char>, (i32, i32)>, keep: Set<Seq<char>>)
    ensures
        forall|k: Seq<char>|
            #[trigger] m.restrict(keep).dom().contains(k) == (m.dom().contains(k) && keep.contains(k)),
        forall|k: Seq<char>| #[trigger] m.restrict(keep).dom().contains(k) ==> m.restrict(keep)[k] == m[k],
        m.restrict(keep).restrict(keep) == m.restrict(keep),
{
    assert(m.restrict(keep).restrict(keep) =~= m.restrict(keep));
}

/// After a rename the position saved under the old name is found under the
/// new one, and the old name has none.
pub proof fn law_rename_moves_position(m: Map<Seq<char>, (i32, i32)>, old_name: Seq<char>, new_name: Seq<char>)
    requires
        m.dom().contains(old_name),
        old_name != new_name,
    ensures
        m.remove(old_name).insert(new_name, m[old_name])[new_name] == m[old_name],
        !m.remove(old_name).insert(new_name, m[old_name]).dom().contains(old_name),
{
}

} // verus!
