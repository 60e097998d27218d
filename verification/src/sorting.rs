//! Ordering of desktop icons: by name, modification time or type, ascending
//! or descending, with a stable sort; and the order of "auto-arrange now".

use vstd::prelude::*;
use vstd::utf8::encode_utf8;
use crate::text::{chars_of, string_from_chars, decimal, decimal_spec, chars_eq};
use crate::paths::{path_extension, path_extension_spec};
use crate::uri::strings_view;

verus! {

// ---------------------------------------------------------------------------
// keys and their order
// ---------------------------------------------------------------------------

/// A sort key: text (compared by its UTF-8 bytes, as `String`'s `Ord`
/// does) or an optional time (no time first).
pub enum SortKey {
    Text(Vec<u8>),
    Time(Option<i128>),
}

/// A `SortKey` as plain values.
pub enum KeyView {
    Text(Seq<u8>),
    Time(Option<i128>),
}

impl View for SortKey {
    type V = KeyView;

    open spec fn view(&self) -> KeyView {
        match self {
            SortKey::Text(b) => KeyView::Text(b@),
            SortKey::Time(t) => KeyView::Time(*t),
        }
    }
}

/// Lexicographic order of byte sequences (a prefix comes first).
pub open spec fn bytes_le(a: Seq<u8>, b: Seq<u8>) -> bool
    decreases a.len(),
{
    if a.len() == 0 {
        true
    } else if b.len() == 0 {
        false
    } else if a[0] < b[0] {
        true
    } else if a[0] > b[0] {
        false
    } else {
        bytes_le(a.drop_first(), b.drop_first())
    }
}

/// The order of keys: times before texts (never mixed in one sort), texts
/// by bytes, no time before any time, times by value.
pub open spec fn key_le(a: KeyView, b: KeyView) -> bool {
    match (a, b) {
        (KeyView::Text(x), KeyView::Text(y)) => bytes_le(x, y),
        (KeyView::Time(x), KeyView::Time(y)) => match (x, y) {
            (None, _) => true,
            (Some(_), None) => false,
            (Some(p), Some(q)) => p <= q,
        },
        (KeyView::Time(_), KeyView::Text(_)) => true,
        (KeyView::Text(_), KeyView::Time(_)) => false,
    }
}

proof fn lemma_bytes_le_total(a: Seq<u8>, b: Seq<u8>)
    ensures
        bytes_le(a, b) || bytes_le(b, a),
    decreases a.len(),
{
    if a.len() > 0 && b.len() > 0 && a[0] == b[0] {
        lemma_bytes_le_total(a.drop_first(), b.drop_first());
    }
}

proof fn lemma_bytes_le_trans(a: Seq<u8>, b: Seq<u8>, c: Seq<u8>)
    requires
        bytes_le(a, b),
        bytes_le(b, c),
    ensures
        bytes_le(a, c),
    decreases a.len(),
{
    if a.len() > 0 && b.len() > 0 && c.len() > 0 && a[0] == b[0] && b[0] == c[0] {
        lemma_bytes_le_trans(a.drop_first(), b.drop_first(), c.drop_first());
    }
}

/// `key_le` is a total preorder.
pub proof fn lemma_key_le_total_preorder()
    ensures
        forall|a: KeyView, b: KeyView| #[trigger] key_le(a, b) || key_le(b, a),
        forall|a: KeyView, b: KeyView, c: KeyView|
            #[trigger] key_le(a, b) && #[trigger] key_le(b, c) ==> key_le(a, c),
{
    assert forall|a: KeyView, b: KeyView| #[trigger] key_le(a, b) || key_le(b, a) by {
        match (a, b) {
            (KeyView::Text(x), KeyView::Text(y)) => lemma_bytes_le_total(x, y),
            _ => {},
        }
    }
    assert forall|a: KeyView, b: KeyView, c: KeyView|
        #[trigger] key_le(a, b) && #[trigger] key_le(b, c) implies key_le(a, c) by {
        match (a, b, c) {
            (KeyView::Text(x), KeyView::Text(y), KeyView::Text(z)) => lemma_bytes_le_trans(x, y, z),
            _ => {},
        }
    }
}

fn bytes_le_exec(a: &Vec<u8>, b: &Vec<u8>) -> (r: bool)
    ensures
        r == bytes_le(a@, b@),
{
    let mut i: usize = 0;
    assert(a@.subrange(0, a@.len() as int) =~= a@);
    assert(b@.subrange(0, b@.len() as int) =~= b@);
    while i < a.len() && i < b.len() && a[i] == b[i]
        invariant
            i <= a@.len(),
            i <= b@.len(),
            bytes_le(a@, b@) == bytes_le(a@.subrange(i as int, a@.len() as int), b@.subrange(i as int, b@.len() as int)),
        decreases a.len() - i,
    {
        let ghost sa = a@.subrange(i as int, a@.len() as int);
        let ghost sb = b@.subrange(i as int, b@.len() as int);
        assert(sa[0] == a@[i as int] && sb[0] == b@[i as int]);
        assert(sa.drop_first() =~= a@.subrange(i + 1, a@.len() as int));
        assert(sb.drop_first() =~= b@.subrange(i + 1, b@.len() as int));
        i = i + 1;
    }
    let ghost sa = a@.subrange(i as int, a@.len() as int);
    let ghost sb = b@.subrange(i as int, b@.len() as int);
    if i == a.len() {
        assert(sa.len() == 0);
        true
    } else if i == b.len() {
        assert(sb.len() == 0);
        false
    } else {
        assert(sa[0] == a@[i as int] && sb[0] == b@[i as int]);
        a[i] < b[i]
    }
}

fn key_le_exec(a: &SortKey, b: &SortKey) -> (r: bool)
    ensures
        r == key_le(a@, b@),
{
    match (a, b) {
        (SortKey::Text(x), SortKey::Text(y)) => bytes_le_exec(x, y),
        (SortKey::Time(x), SortKey::Time(y)) => match (x, y) {
            (None, _) => true,
            (Some(_), None) => false,
            (Some(p), Some(q)) => *p <= *q,
        },
        (SortKey::Time(_), SortKey::Text(_)) => true,
        (SortKey::Text(_), SortKey::Time(_)) => false,
    }
}

/// The keys of a list as plain values.
pub open spec fn keys_view(k: Seq<SortKey>) -> Seq<KeyView> {
    k.map_values(|x: SortKey| x@)
}

/// `perm` lists each index below `n` exactly once.
pub open spec fn is_permutation(perm: Seq<usize>, n: int) -> bool {
    &&& perm.len() == n
    &&& forall|a: int| 0 <= a < perm.len() ==> #[trigger] perm[a] < n
    &&& forall|a: int, b: int| 0 <= a < b < perm.len() ==> perm[a] != perm[b]
}

/// `perm` is the order a stable sort by `keys` gives: a permutation under
/// which keys never decrease and items with equal keys keep their order.
pub open spec fn is_stable_order(keys: Seq<KeyView>, perm: Seq<usize>) -> bool {
    &&& is_permutation(perm, keys.len() as int)
    &&& forall|a: int, b: int|
        0 <= a < b < perm.len() ==> key_le(keys[#[trigger] perm[a] as int], keys[#[trigger] perm[b] as int])
    &&& forall|a: int, b: int|
        0 <= a < b < perm.len() && key_le(keys[#[trigger] perm[b] as int], keys[#[trigger] perm[a] as int])
            ==> perm[a] < perm[b]
}

/// Every index below `n` occurs in a permutation of them.
proof fn lemma_permutation_onto(perm: Seq<usize>, n: int, k: int)
    requires
        is_permutation(perm, n),
        0 <= k < n,
    ensures
        exists|a: int| 0 <= a < perm.len() && perm[a] == k,
{
    let s = perm.map_values(|v: usize| v as int);
    assert(s.no_duplicates()) by {
        assert forall|a: int, b: int| 0 <= a < s.len() && 0 <= b < s.len() && a != b implies s[a] != s[b] by {
            if a < b {
                assert(perm[a] != perm[b]);
            } else {
                assert(perm[b] != perm[a]);
            }
        }
    }
    s.unique_seq_to_set();
    vstd::set_lib::lemma_int_range(0, n);
    let r = vstd::set_lib::set_int_range(0, n);
    assert(s.to_set().subset_of(r)) by {
        assert forall|v: int| s.to_set().contains(v) implies r.contains(v) by {
            let a = choose|a: int| 0 <= a < s.len() && s[a] == v;
            assert(perm[a] < n);
        }
    }
    vstd::seq_lib::seq_to_set_is_finite(s);
    vstd::set_lib::lemma_subset_equality(s.to_set(), r);
    assert(r.contains(k));
    assert(s.to_set().contains(k));
    let a = choose|a: int| 0 <= a < s.len() && s[a] == k;
    assert(perm[a] == k);
}

proof fn lemma_stable_prefix(keys: Seq<KeyView>, p: Seq<usize>, q: Seq<usize>, a: int)
    requires
        is_stable_order(keys, p),
        is_stable_order(keys, q),
        0 <= a <= p.len(),
    ensures
        forall|b: int| 0 <= b < a ==> p[b] == q[b],
    decreases a,
{
    if a > 0 {
        lemma_stable_prefix(keys, p, q, a - 1);
        let i = a - 1;
        let x = p[i];
        let y = q[i];
        if x != y {
            lemma_permutation_onto(q, keys.len() as int, x as int);
            let b = choose|b: int| 0 <= b < q.len() && q[b] == x;
            lemma_permutation_onto(p, keys.len() as int, y as int);
            let c = choose|c: int| 0 <= c < p.len() && p[c] == y;
            if b < i {
                assert(p[b] == q[b]);
                assert(p[b] != p[i]);
            }
            if c < i {
                assert(p[c] == q[c]);
                assert(q[c] != q[i]);
            }
            assert(i < b && i < c);
            assert(key_le(keys[p[i] as int], keys[p[c] as int]));
            assert(key_le(keys[q[i] as int], keys[q[b] as int]));
            assert(p[i] < p[c]);
            assert(q[i] < q[b]);
        }
    }
}

/// A stable sort has exactly one outcome: two orders of the same keys that
/// are both stable sorts are the same order.
pub proof fn law_stable_order_unique(keys: Seq<KeyView>, p: Seq<usize>, q: Seq<usize>)
    requires
        is_stable_order(keys, p),
        is_stable_order(keys, q),
    ensures
        p == q,
{
    lemma_stable_prefix(keys, p, q, p.len() as int);
    assert(p =~= q);
}

/// The order a stable sort by `keys` gives.
pub open spec fn stable_perm(keys: Seq<KeyView>) -> Seq<usize> {
    choose|p: Seq<usize>| is_stable_order(keys, p)
}

/// The stable sort is the one `stable_perm` names.
proof fn lemma_is_stable_perm(keys: Seq<KeyView>, p: Seq<usize>)
    requires
        is_stable_order(keys, p),
    ensures
        p == stable_perm(keys),
{
    law_stable_order_unique(keys, p, stable_perm(keys));
}

/// A stable insertion sort of indices by key.
pub fn stable_order(keys: &Vec<SortKey>) -> (r: Vec<usize>)
    ensures
        is_stable_order(keys_view(keys@), r@),
        r@ == stable_perm(keys_view(keys@)),
{
    proof {
        lemma_key_le_total_preorder();
    }
    let ghost kv = keys_view(keys@);
    let mut perm: Vec<usize> = Vec::new();
    let mut i: usize = 0;
    while i < keys.len()
        invariant
            i <= keys@.len(),
            kv == keys_view(keys@),
            forall|a: KeyView, b: KeyView| #[trigger] key_le(a, b) || key_le(b, a),
            forall|a: KeyView, b: KeyView, c: KeyView|
                #[trigger] key_le(a, b) && #[trigger] key_le(b, c) ==> key_le(a, c),
            is_permutation(perm@, i as int),
            forall|a: int, b: int|
                0 <= a < b < perm@.len() ==> key_le(kv[#[trigger] perm@[a] as int], kv[#[trigger] perm@[b] as int]),
            forall|a: int, b: int|
                0 <= a < b < perm@.len() && key_le(kv[#[trigger] perm@[b] as int], kv[#[trigger] perm@[a] as int])
                    ==> perm@[a] < perm@[b],
        decreases keys.len() - i,
    {
        let mut j: usize = perm.len();
        while j > 0 && !key_le_exec(&keys[perm[j - 1]], &keys[i])
            invariant
                j <= perm@.len(),
                i < keys@.len(),
                kv == keys_view(keys@),
                is_permutation(perm@, i as int),
                forall|b: int| j <= b < perm@.len() ==> !key_le(#[trigger] kv[perm@[b] as int], kv[i as int]),
            decreases j,
        {
            j = j - 1;
        }
        let ghost old_perm = perm@;
        perm.insert(j, i);
        proof {
            let np = perm@;
            assert(np == old_perm.insert(j as int, i));
            assert forall|a: int| 0 <= a < np.len() implies #[trigger] np[a] < i + 1 by {
                if a < j {
                    assert(np[a] == old_perm[a]);
                } else if a > j {
                    assert(np[a] == old_perm[a - 1]);
                }
            }
            assert forall|a: int, b: int| 0 <= a < b < np.len() implies np[a] != np[b] by {
                if a < j {
                    assert(np[a] == old_perm[a]);
                }
                if a > j {
                    assert(np[a] == old_perm[a - 1]);
                }
                if b < j {
                    assert(np[b] == old_perm[b]);
                }
                if b > j {
                    assert(np[b] == old_perm[b - 1]);
                }
            }
            if j > 0 {
                assert(key_le(kv[old_perm[j - 1] as int], kv[i as int]));
            }
            assert forall|a: int, b: int| 0 <= a < b < np.len() implies key_le(
                kv[#[trigger] np[a] as int],
                kv[#[trigger] np[b] as int],
            ) by {
                let pa = if a < j { a } else if a == j { -1 } else { a - 1 };
                let pb = if b < j { b } else if b == j { -1 } else { b - 1 };
                if a != j && b != j {
                    assert(np[a] == old_perm[pa] && np[b] == old_perm[pb]);
                } else if a == j {
                    assert(np[b] == old_perm[pb]);
                    assert(!key_le(kv[old_perm[pb] as int], kv[i as int]));
                } else {
                    assert(np[a] == old_perm[pa]);
                    if pa < j - 1 {
                        assert(key_le(kv[old_perm[pa] as int], kv[old_perm[j - 1] as int]));
                    }
                }
            }
            assert forall|a: int, b: int|
                0 <= a < b < np.len() && key_le(kv[#[trigger] np[b] as int], kv[#[trigger] np[a] as int])
                    implies np[a] < np[b] by {
                let pa = if a < j { a } else if a == j { -1 } else { a - 1 };
                let pb = if b < j { b } else if b == j { -1 } else { b - 1 };
                if a != j && b != j {
                    assert(np[a] == old_perm[pa] && np[b] == old_perm[pb]);
                } else if a == j {
                    assert(np[b] == old_perm[pb]);
                } else {
                    assert(np[a] == old_perm[pa]);
                }
            }
        }
        i = i + 1;
    }
    proof {
        lemma_is_stable_perm(kv, perm@);
    }
    perm
}

// ---------------------------------------------------------------------------
// sorting the desktop's files
// ---------------------------------------------------------------------------

/// What `str::to_lowercase` yields for a text.
pub uninterp spec fn lowercase_spec(s: Seq<char>) -> Seq<char>;

/// `str::to_lowercase`.
/// Trusted: the result is the Unicode lower-case mapping `to_lowercase`
/// computes for `s`.
#[verifier::external_body]
pub(crate) fn to_lowercase(s: &str) -> (r: String)
    ensures
        r@ == lowercase_spec(s@),
{
    s.to_lowercase()
}

/// The type key of a file name: its extension in lower case, empty when it
/// has none.
pub open spec fn type_key_spec(name: Seq<char>) -> Seq<char> {
    match path_extension_spec(name) {
        Some(e) => lowercase_spec(e),
        None => seq![],
    }
}

/// The type key of a file name.
pub fn type_key(name: &str) -> (r: String)
    ensures
        r@ == type_key_spec(name@),
{
    match path_extension(name) {
        Some(e) => {
            let es = string_from_chars(&e);
            to_lowercase(es.as_str())
        },
        None => String::new(),
    }
}

/// The bytes of a string.
fn bytes_of(s: &str) -> (r: Vec<u8>)
    ensures
        r@ == encode_utf8(s@),
{
    let b = s.as_bytes();
    let mut out: Vec<u8> = Vec::new();
    let mut i: usize = 0;
    while i < b.len()
        invariant
            i <= b@.len(),
            b@ == encode_utf8(s@),
            out@ == b@.take(i as int),
        decreases b.len() - i,
    {
        out.push(b[i]);
        assert(b@.take(i + 1) =~= b@.take(i as int).push(b@[i as int]));
        i = i + 1;
    }
    assert(b@.take(b@.len() as int) =~= b@);
    out
}

/// The key each file is sorted by under a setting: the name, the
/// modification time (`mtimes[i]`, nanoseconds since the epoch, `None` when
/// unknown), or the type key; an unknown setting sorts by name.
pub open spec fn file_key_spec(name: Seq<char>, sort_by: Seq<char>, mtime: Option<i128>) -> KeyView {
    if sort_by == "date"@ {
        KeyView::Time(mtime)
    } else if sort_by == "type"@ {
        KeyView::Text(encode_utf8(type_key_spec(name)))
    } else {
        KeyView::Text(encode_utf8(name))
    }
}

/// The keys of all files.
pub open spec fn file_keys_spec(names: Seq<Seq<char>>, sort_by: Seq<char>, mtimes: Seq<Option<i128>>) -> Seq<KeyView> {
    Seq::new(names.len(), |i: int| file_key_spec(names[i], sort_by, mtimes[i]))
}

/// The files stably sorted by the chosen key, reversed for the descending
/// order (`sort_order == "desc"`).
pub open spec fn sorted_files_spec(
    files: Seq<Seq<char>>,
    sort_by: Seq<char>,
    sort_order: Seq<char>,
    mtimes: Seq<Option<i128>>,
) -> Seq<Seq<char>> {
    let asc = stable_perm(file_keys_spec(files, sort_by, mtimes)).map_values(|k: usize| files[k as int]);
    if sort_order == "desc"@ {
        asc.reverse()
    } else {
        asc
    }
}

/// `sort_files`: the files stably sorted by the chosen key, reversed for
/// the descending order (`sort_order == "desc"`).
pub fn sort_files(files: &Vec<String>, sort_by: &str, sort_order: &str, mtimes: &Vec<Option<i128>>) -> (r: Vec<String>)
    requires
        mtimes@.len() == files@.len(),
    ensures
        is_stable_order(
            file_keys_spec(strings_view(files@), sort_by@, mtimes@),
            stable_perm(file_keys_spec(strings_view(files@), sort_by@, mtimes@)),
        ),
        strings_view(r@) == sorted_files_spec(strings_view(files@), sort_by@, sort_order@, mtimes@),
{
    proof {
        reveal_strlit("date");
        reveal_strlit("type");
        reveal_strlit("desc");
    }
    let by = chars_of(sort_by);
    let by_date = chars_eq(&by, &chars_of("date"));
    let by_type = chars_eq(&by, &chars_of("type"));
    let ghost fk = file_keys_spec(strings_view(files@), sort_by@, mtimes@);
    let mut keys: Vec<SortKey> = Vec::new();
    let mut i: usize = 0;
    while i < files.len()
        invariant
            i <= files@.len(),
            mtimes@.len() == files@.len(),
            by_date == (sort_by@ == "date"@),
            by_type == (sort_by@ == "type"@),
            fk == file_keys_spec(strings_view(files@), sort_by@, mtimes@),
            keys_view(keys@) == fk.take(i as int),
        decreases files.len() - i,
    {
        let k = if by_date {
            SortKey::Time(mtimes[i])
        } else if by_type {
            let t = type_key(files[i].as_str());
            SortKey::Text(bytes_of(t.as_str()))
        } else {
            SortKey::Text(bytes_of(files[i].as_str()))
        };
        let ghost before = keys@;
        keys.push(k);
        assert(keys_view(keys@) =~= keys_view(before).push(k@));
        assert(fk.take(i + 1) =~= fk.take(i as int).push(fk[i as int]));
        i = i + 1;
    }
    assert(fk.take(files@.len() as int) =~= fk);
    let perm = stable_order(&keys);
    let desc = chars_eq(&chars_of(sort_order), &chars_of("desc"));
    let ghost sorted = perm@.map_values(|k: usize| files@[k as int]@);
    let mut out: Vec<String> = Vec::new();
    let n = perm.len();
    let mut j: usize = 0;
    while j < n
        invariant
            j <= n,
            n == perm@.len(),
            is_permutation(perm@, files@.len() as int),
            sorted == perm@.map_values(|k: usize| files@[k as int]@),
            strings_view(out@) == if desc {
                sorted.reverse().take(j as int)
            } else {
                sorted.take(j as int)
            },
        decreases n - j,
    {
        let idx = if desc { perm[n - 1 - j] } else { perm[j] };
        let ghost before = out@;
        out.push(files[idx].clone());
        proof {
            assert(strings_view(out@) =~= strings_view(before).push(files@[idx as int]@));
            if desc {
                assert(sorted.reverse()[j as int] == sorted[n - 1 - j]);
                assert(sorted.reverse().take(j + 1) =~= sorted.reverse().take(j as int).push(
                    sorted.reverse()[j as int],
                ));
            } else {
                assert(sorted.take(j + 1) =~= sorted.take(j as int).push(sorted[j as int]));
            }
        }
        j = j + 1;
    }
    proof {
        assert(sorted.take(n as int) =~= sorted);
        assert(sorted.reverse().take(n as int) =~= sorted.reverse());
        let fv = strings_view(files@);
        assert(perm@.map_values(|k: usize| fv[k as int]) =~= sorted);
    }
    out
}

// ---------------------------------------------------------------------------
// auto-arrange
// ---------------------------------------------------------------------------

/// `n` zero-padded to twenty digits (`format!("{:020}", n)`).
pub open spec fn padded20_spec(n: nat) -> Seq<char> {
    Seq::new((20 - decimal_spec(n).len()) as nat, |i: int| '0') + decimal_spec(n)
}

/// The key "auto-arrange now" orders an icon by: the modification time in
/// whole seconds since the epoch, zero-padded (`"0"` when unknown); the type
/// key; or the name.
pub open spec fn arrange_key_spec(name: Seq<char>, sort_by: Seq<char>, secs: Option<u64>) -> Seq<char> {
    if sort_by == "date"@ {
        match secs {
            Some(s) => padded20_spec(s as nat),
            None => "0"@,
        }
    } else if sort_by == "type"@ {
        type_key_spec(name)
    } else {
        name
    }
}

/// Ten to the power `k`.
spec fn pow10(k: nat) -> nat
    decreases k,
{
    if k == 0 {
        1
    } else {
        10 * pow10((k - 1) as nat)
    }
}

proof fn lemma_decimal_len(n: nat, k: nat)
    requires
        k >= 1,
        n < pow10(k),
    ensures
        1 <= decimal_spec(n).len() <= k,
    decreases n,
{
    if n >= 10 {
        assert(k >= 2) by {
            if k == 1 {
                assert(pow10(1) == 10) by {
                    reveal_with_fuel(pow10, 2);
                }
            }
        }
        assert(n / 10 < pow10((k - 1) as nat));
        lemma_decimal_len(n / 10, (k - 1) as nat);
    }
}

fn padded20(n: u64) -> (r: Vec<char>)
    ensures
        r@ == padded20_spec(n as nat),
{
    proof {
        assert(pow10(20) == 100000000000000000000) by {
            reveal_with_fuel(pow10, 21);
        }
        lemma_decimal_len(n as nat, 20);
    }
    let d = decimal(n);
    let mut out: Vec<char> = Vec::new();
    let pad = 20 - d.len();
    let mut i: usize = 0;
    while i < pad
        invariant
            i <= pad,
            out@ == Seq::new(i as nat, |k: int| '0'),
        decreases pad - i,
    {
        out.push('0');
        assert(out@ =~= Seq::new((i + 1) as nat, |k: int| '0'));
        i = i + 1;
    }
    crate::text::push_all(&mut out, &d);
    out
}

/// The key of one icon for "auto-arrange now".
pub fn arrange_key(name: &str, sort_by: &str, secs: Option<u64>) -> (r: String)
    ensures
        r@ == arrange_key_spec(name@, sort_by@, secs),
{
    proof {
        reveal_strlit("date");
        reveal_strlit("type");
        reveal_strlit("0");
    }
    let by = chars_of(sort_by);
    if chars_eq(&by, &chars_of("date")) {
        match secs {
            Some(s) => string_from_chars(&padded20(s)),
            None => String::from_str("0"),
        }
    } else if chars_eq(&by, &chars_of("type")) {
        type_key(name)
    } else {
        string_from_chars(&chars_of(name))
    }
}

/// The keys of all icons for "auto-arrange now".
pub open spec fn arrange_keys_spec(names: Seq<Seq<char>>, sort_by: Seq<char>, secs: Seq<Option<u64>>) -> Seq<KeyView> {
    Seq::new(names.len(), |i: int| KeyView::Text(encode_utf8(arrange_key_spec(names[i], sort_by, secs[i]))))
}

/// The order of the icons after "auto-arrange now": a stable sort of their
/// indices by `arrange_key`.
pub fn arrange_order(names: &Vec<String>, sort_by: &str, secs: &Vec<Option<u64>>) -> (r: Vec<usize>)
    requires
        secs@.len() == names@.len(),
    ensures
        is_stable_order(arrange_keys_spec(strings_view(names@), sort_by@, secs@), r@),
        r@ == stable_perm(arrange_keys_spec(strings_view(names@), sort_by@, secs@)),
{
    let ghost ak = arrange_keys_spec(strings_view(names@), sort_by@, secs@);
    let mut keys: Vec<SortKey> = Vec::new();
    let mut i: usize = 0;
    while i < names.len()
        invariant
            i <= names@.len(),
            secs@.len() == names@.len(),
            ak == arrange_keys_spec(strings_view(names@), sort_by@, secs@),
            keys_view(keys@) == ak.take(i as int),
        decreases names.len() - i,
    {
        let key = arrange_key(names[i].as_str(), sort_by, secs[i]);
        let k = SortKey::Text(bytes_of(key.as_str()));
        let ghost before = keys@;
        keys.push(k);
        assert(keys_view(keys@) =~= keys_view(before).push(k@));
        assert(ak.take(i + 1) =~= ak.take(i as int).push(ak[i as int]));
        i = i + 1;
    }
    assert(ak.take(names@.len() as int) =~= ak);
    stable_order(&keys)
}

/// Sorting by type orders the files by their type key (the lower-case
/// extension, empty for a name without one), compared as text: ascending,
/// the key of each file is at most that of every later file; descending,
/// at least.
pub proof fn law_type_sort_by_extension(files: Seq<Seq<char>>, sort_order: Seq<char>, mtimes: Seq<Option<i128>>)
    requires
        is_stable_order(
            file_keys_spec(files, "type"@, mtimes),
            stable_perm(file_keys_spec(files, "type"@, mtimes)),
        ),
    ensures
        ({
            let r = sorted_files_spec(files, "type"@, sort_order, mtimes);
            &&& r.len() == files.len()
            &&& forall|a: int, b: int|
                0 <= a < b < r.len() ==> if sort_order == "desc"@ {
                    bytes_le(encode_utf8(type_key_spec(#[trigger] r[b])), encode_utf8(type_key_spec(#[trigger] r[a])))
                } else {
                    bytes_le(encode_utf8(type_key_spec(r[a])), encode_utf8(type_key_spec(r[b])))
                }
        }),
{
    reveal_strlit("type");
    reveal_strlit("date");
    assert("type"@ != "date"@) by {
        assert("type"@[0] != "date"@[0]);
    }
    let keys = file_keys_spec(files, "type"@, mtimes);
    let p = stable_perm(keys);
    let asc = p.map_values(|k: usize| files[k as int]);
    assert forall|a: int, b: int| 0 <= a < b < asc.len() implies bytes_le(
        encode_utf8(type_key_spec(#[trigger] asc[a])),
        encode_utf8(type_key_spec(#[trigger] asc[b])),
    ) by {
        assert(key_le(keys[p[a] as int], keys[p[b] as int]));
        assert(p[a] < files.len() && p[b] < files.len());
        assert(keys[p[a] as int] == KeyView::Text(encode_utf8(type_key_spec(files[p[a] as int]))));
        assert(keys[p[b] as int] == KeyView::Text(encode_utf8(type_key_spec(files[p[b] as int]))));
    }
    let r = sorted_files_spec(files, "type"@, sort_order, mtimes);
    if sort_order == "desc"@ {
        assert forall|a: int, b: int| 0 <= a < b < r.len() implies bytes_le(
            encode_utf8(type_key_spec(#[trigger] r[b])),
            encode_utf8(type_key_spec(#[trigger] r[a])),
        ) by {
            let n = asc.len() as int;
            assert(r[a] == asc[n - 1 - a]);
            assert(r[b] == asc[n - 1 - b]);
            assert(asc[n - 1 - b] == asc[n - 1 - b] && asc[n - 1 - a] == asc[n - 1 - a]);
        }
    }
}

/// Sorting by type in ascending order puts every file whose type key is
/// empty (a name without an extension) before every file whose type key is
/// not.
pub proof fn law_type_sort_extensionless_first(files: Seq<Seq<char>>, sort_order: Seq<char>, mtimes: Seq<Option<i128>>)
    requires
        sort_order != "desc"@,
        is_stable_order(
            file_keys_spec(files, "type"@, mtimes),
            stable_perm(file_keys_spec(files, "type"@, mtimes)),
        ),
    ensures
        forall|a: int, b: int|
            0 <= a < b < sorted_files_spec(files, "type"@, sort_order, mtimes).len() && type_key_spec(
                #[trigger] sorted_files_spec(files, "type"@, sort_order, mtimes)[b],
            ) == Seq::<char>::empty() ==> type_key_spec(
                #[trigger] sorted_files_spec(files, "type"@, sort_order, mtimes)[a],
            ) == Seq::<char>::empty(),
{
    law_type_sort_by_extension(files, sort_order, mtimes);
    let r = sorted_files_spec(files, "type"@, sort_order, mtimes);
    assert forall|a: int, b: int|
        0 <= a < b < r.len() && type_key_spec(#[trigger] r[b]) == Seq::<char>::empty() implies type_key_spec(
        #[trigger] r[a],
    ) == Seq::<char>::empty() by {
        let ka = type_key_spec(r[a]);
        assert(bytes_le(encode_utf8(ka), encode_utf8(type_key_spec(r[b]))));
        assert(encode_utf8(Seq::<char>::empty()) =~= Seq::<u8>::empty());
        assert(encode_utf8(ka) =~= Seq::<u8>::empty());
        vstd::utf8::encode_utf8_decode_utf8(ka);
        vstd::utf8::encode_utf8_decode_utf8(Seq::<char>::empty());
    }
}

/// Sorting in descending order gives the ascending order reversed.
pub proof fn law_descending_reverses_ascending(
    files: Seq<Seq<char>>,
    sort_by: Seq<char>,
    mtimes: Seq<Option<i128>>,
)
    ensures
        sorted_files_spec(files, sort_by, "desc"@, mtimes) == sorted_files_spec(files, sort_by, "asc"@, mtimes).reverse(),
{
    reveal_strlit("asc");
    reveal_strlit("desc");
    assert("asc"@ != "desc"@) by {
        assert("asc"@[0] != "desc"@[0]);
    }
}

} // verus!
