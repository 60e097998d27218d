//! `file://` URIs: percent-encoding of paths, decoding, `text/uri-list`
//! parsing, and the clipboard and drag payloads built from them.

use vstd::prelude::*;
use vstd::utf8::{decode_utf8, encode_utf8, valid_utf8, is_continuation_byte};
use crate::text::{
    chars_of, hex_upper, hex_upper_char, string_from_chars, push_all, slice_chars, find_char,
    first_index_of, lemma_first_index_of, has_prefix, starts_with, trim, trim_spec, lines_spec,
    split_lines,
};

verus! {

broadcast use vstd::utf8::group_utf8_lib;

// ---------------------------------------------------------------------------
// percent-encoding
// ---------------------------------------------------------------------------

/// Bytes left as they are: ASCII letters, digits, `-`, `_`, `.`, `~`, `/`.
pub open spec fn is_unreserved(b: u8) -> bool {
    ||| 0x41 <= b <= 0x5A
    ||| 0x61 <= b <= 0x7A
    ||| 0x30 <= b <= 0x39
    ||| b == 0x2D
    ||| b == 0x5F
    ||| b == 0x2E
    ||| b == 0x7E
    ||| b == 0x2F
}

/// The characters one byte is encoded as: itself when unreserved, else `%`
/// and two upper-case hex digits.
pub open spec fn encode_byte_spec(b: u8) -> Seq<char> {
    if is_unreserved(b) {
        seq![b as char]
    } else {
        seq!['%', hex_upper_char((b / 16) as nat), hex_upper_char((b % 16) as nat)]
    }
}

/// Percent-encoding of a byte sequence.
pub open spec fn percent_encode_spec(bs: Seq<u8>) -> Seq<char>
    decreases bs.len(),
{
    if bs.len() == 0 {
        seq![]
    } else {
        encode_byte_spec(bs[0]) + percent_encode_spec(bs.drop_first())
    }
}

/// The characters of `percent_encode_spec(bs)`, seen byte by byte.
proof fn lemma_encode_prefix(bs: Seq<u8>, i: int)
    requires
        0 <= i < bs.len(),
    ensures
        percent_encode_spec(bs.take(i + 1)) == percent_encode_spec(bs.take(i)) + encode_byte_spec(
            bs[i],
        ),
    decreases i,
{
    if i == 0 {
        assert(bs.take(1).drop_first() =~= seq![]);
        assert(percent_encode_spec(bs.take(1).drop_first()) =~= seq![]);
        assert(percent_encode_spec(bs.take(1)) =~= encode_byte_spec(bs[0]));
        assert(bs.take(0) =~= seq![]);
    } else {
        let t = bs.drop_first();
        lemma_encode_prefix(t, i - 1);
        assert(bs.take(i + 1).drop_first() =~= t.take(i));
        assert(bs.take(i).drop_first() =~= t.take(i - 1));
        assert(t[i - 1] == bs[i]);
    }
}

/// `percent_encode_path`: every byte of the path's UTF-8 encoding outside
/// the unreserved set becomes `%XX`.
pub fn percent_encode_path(s: &str) -> (r: String)
    ensures
        r@ == percent_encode_spec(encode_utf8(s@)),
{
    let bytes = s.as_bytes();
    let ghost bs = bytes@;
    assert(bs == encode_utf8(s@));
    let mut out: Vec<char> = Vec::new();
    let mut i: usize = 0;
    while i < bytes.len()
        invariant
            i <= bytes@.len(),
            bytes@ == bs,
            out@ == percent_encode_spec(bs.take(i as int)),
        decreases bytes.len() - i,
    {
        let b = bytes[i];
        proof {
            lemma_encode_prefix(bs, i as int);
        }
        if (0x41 <= b && b <= 0x5A) || (0x61 <= b && b <= 0x7A) || (0x30 <= b && b <= 0x39) || b
            == 0x2D || b == 0x5F || b == 0x2E || b == 0x7E || b == 0x2F {
            out.push(b as char);
        } else {
            out.push('%');
            out.push(hex_upper(b / 16));
            out.push(hex_upper(b % 16));
        }
        assert(out@ =~= percent_encode_spec(bs.take(i as int)) + encode_byte_spec(b));
        i = i + 1;
    }
    assert(bs.take(bytes.len() as int) =~= bs);
    string_from_chars(&out)
}

// ---------------------------------------------------------------------------
// percent-decoding
// ---------------------------------------------------------------------------

/// The value of an ASCII hex digit.
pub open spec fn hex_value(b: u8) -> Option<u8> {
    if 0x30 <= b <= 0x39 {
        Some((b - 0x30) as u8)
    } else if 0x41 <= b <= 0x46 {
        Some((b - 0x41 + 10) as u8)
    } else if 0x61 <= b <= 0x66 {
        Some((b - 0x61 + 10) as u8)
    } else {
        None
    }
}

/// `u8::from_str_radix(two_bytes, 16)`: an optional `+` and one digit, or
/// two digits.
pub open spec fn hex_pair(a: u8, b: u8) -> Option<u8> {
    if a == 0x2B {
        hex_value(b)
    } else {
        match (hex_value(a), hex_value(b)) {
            (Some(x), Some(y)) => Some((x * 16 + y) as u8),
            _ => None,
        }
    }
}

/// Percent-decoding of a byte sequence: `%` followed by two more bytes that
/// `hex_pair` accepts becomes that byte; every other byte stays.
pub open spec fn percent_decode_bytes(bs: Seq<u8>) -> Seq<u8>
    decreases bs.len(),
{
    if bs.len() == 0 {
        seq![]
    } else if bs[0] == 0x25 && bs.len() > 2 && hex_pair(bs[1], bs[2]) is Some {
        seq![hex_pair(bs[1], bs[2])->0] + percent_decode_bytes(bs.subrange(3, bs.len() as int))
    } else {
        seq![bs[0]] + percent_decode_bytes(bs.drop_first())
    }
}

/// Whether decoding slices the text inside a character and so panics: a
/// `%` with two more bytes after it whose third following byte continues a
/// multi-byte character.
pub open spec fn percent_decode_panics(bs: Seq<u8>) -> bool
    decreases bs.len(),
{
    if bs.len() == 0 {
        false
    } else if bs[0] == 0x25 && bs.len() > 2 {
        if bs.len() > 3 && is_continuation_byte(bs[3]) {
            true
        } else if hex_pair(bs[1], bs[2]) is Some {
            percent_decode_panics(bs.subrange(3, bs.len() as int))
        } else {
            percent_decode_panics(bs.drop_first())
        }
    } else {
        percent_decode_panics(bs.drop_first())
    }
}

/// What `String::from_utf8_lossy` yields for a byte sequence.
pub uninterp spec fn utf8_lossy(bs: Seq<u8>) -> Seq<char>;

/// Lossy UTF-8 decoding: exact for valid UTF-8.
pub open spec fn lossy_spec(bs: Seq<u8>) -> Seq<char> {
    if valid_utf8(bs) {
        decode_utf8(bs)
    } else {
        utf8_lossy(bs)
    }
}

/// `String::from_utf8_lossy(bytes).into_owned()`.
/// Trusted: the result is whatever `from_utf8_lossy` gives; for valid UTF-8
/// it is the decoded text, as its documentation says.
#[verifier::external_body]
pub(crate) fn utf8_to_string_lossy(bytes: &Vec<u8>) -> (r: String)
    ensures
        r@ == utf8_lossy(bytes@),
        valid_utf8(bytes@) ==> r@ == decode_utf8(bytes@),
{
    String::from_utf8_lossy(bytes).into_owned()
}

/// The text `percent_decode` yields for a text.
pub open spec fn percent_decode_spec(s: Seq<char>) -> Seq<char> {
    lossy_spec(percent_decode_bytes(encode_utf8(s)))
}

fn hex_value_exec(b: u8) -> (r: Option<u8>)
    ensures
        r == hex_value(b),
{
    if 0x30 <= b && b <= 0x39 {
        Some(b - 0x30)
    } else if 0x41 <= b && b <= 0x46 {
        Some(b - 0x41 + 10)
    } else if 0x61 <= b && b <= 0x66 {
        Some(b - 0x61 + 10)
    } else {
        None
    }
}

fn hex_pair_exec(a: u8, b: u8) -> (r: Option<u8>)
    ensures
        r == hex_pair(a, b),
{
    if a == 0x2B {
        hex_value_exec(b)
    } else {
        match (hex_value_exec(a), hex_value_exec(b)) {
            (Some(x), Some(y)) => Some(x * 16 + y),
            _ => None,
        }
    }
}

/// Whether `percent_decode` would panic on `s`.
pub fn percent_decode_would_panic(s: &str) -> (r: bool)
    ensures
        r == percent_decode_panics(encode_utf8(s@)),
{
    let bytes = s.as_bytes();
    let ghost bs = bytes@;
    assert(bs == encode_utf8(s@));
    let mut i: usize = 0;
    assert(bs.subrange(0, bs.len() as int) =~= bs);
    while i < bytes.len()
        invariant
            i <= bytes@.len(),
            bytes@ == bs,
            bs == encode_utf8(s@),
            percent_decode_panics(bs) == percent_decode_panics(bs.subrange(i as int, bs.len() as int)),
        decreases bytes.len() - i,
    {
        let ghost rest = bs.subrange(i as int, bs.len() as int);
        assert(rest[0] == bs[i as int]);
        if bytes[i] == 0x25 && bytes.len() - i > 2 {
            if bytes.len() - i > 3 && 0x80 <= bytes[i + 3] && bytes[i + 3] <= 0xBF {
                proof {
                    assert(rest.len() == bs.len() - i);
                    assert(rest[3] == bs[i + 3]);
                    assert(is_continuation_byte(rest[3]));
                    assert(percent_decode_panics(rest));
                }
                return true;
            }
            proof {
                assert(rest[1] == bs[i + 1] && rest[2] == bs[i + 2]);
                if rest.len() > 3 {
                    assert(rest[3] == bs[i + 3]);
                }
            }
            if hex_pair_exec(bytes[i + 1], bytes[i + 2]).is_some() {
                assert(rest.subrange(3, rest.len() as int) =~= bs.subrange(i + 3, bs.len() as int));
                i = i + 3;
            } else {
                assert(rest.drop_first() =~= bs.subrange(i + 1, bs.len() as int));
                i = i + 1;
            }
        } else {
            assert(rest.drop_first() =~= bs.subrange(i + 1, bs.len() as int));
            i = i + 1;
        }
    }
    assert(bs.subrange(i as int, bs.len() as int) =~= seq![]);
    false
}

/// `percent_decode`: `%XX` escapes become bytes, and the bytes are read as
/// UTF-8 (invalid sequences replaced).
pub fn percent_decode(s: &str) -> (r: String)
    requires
        !percent_decode_panics(encode_utf8(s@)),
    ensures
        r@ == percent_decode_spec(s@),
{
    let bytes = s.as_bytes();
    let ghost bs = bytes@;
    assert(bs == encode_utf8(s@));
    let mut out: Vec<u8> = Vec::new();
    let mut i: usize = 0;
    assert(bs.subrange(0, bs.len() as int) =~= bs);
    while i < bytes.len()
        invariant
            i <= bytes@.len(),
            bytes@ == bs,
            !percent_decode_panics(bs.subrange(i as int, bs.len() as int)),
            out@ + percent_decode_bytes(bs.subrange(i as int, bs.len() as int))
                == percent_decode_bytes(bs),
        decreases bytes.len() - i,
    {
        let ghost rest = bs.subrange(i as int, bs.len() as int);
        let ghost before = out@;
        let b = bytes[i];
        if b == 0x25 && bytes.len() - i > 2 {
            proof {
                assert(rest[1] == bs[i + 1] && rest[2] == bs[i + 2]);
                if rest.len() > 3 {
                    assert(rest[3] == bs[i + 3]);
                }
            }
            match hex_pair_exec(bytes[i + 1], bytes[i + 2]) {
                Some(v) => {
                    out.push(v);
                    proof {
                        assert(rest.subrange(3, rest.len() as int) =~= bs.subrange(
                            i + 3,
                            bs.len() as int,
                        ));
                        assert(out@ + percent_decode_bytes(bs.subrange(i + 3, bs.len() as int))
                            =~= before + percent_decode_bytes(rest));
                    }
                    i = i + 3;
                    continue;
                },
                None => {},
            }
        }
        out.push(b);
        proof {
            assert(rest.drop_first() =~= bs.subrange(i + 1, bs.len() as int));
            assert(out@ + percent_decode_bytes(bs.subrange(i + 1, bs.len() as int)) =~= before
                + percent_decode_bytes(rest));
        }
        i = i + 1;
    }
    proof {
        assert(bs.subrange(i as int, bs.len() as int) =~= seq![]);
        assert(out@ =~= percent_decode_bytes(bs));
    }
    utf8_to_string_lossy(&out)
}

// ---------------------------------------------------------------------------
// round trip
// ---------------------------------------------------------------------------

/// The ASCII bytes of an encoding.
pub open spec fn ascii_bytes(cs: Seq<char>) -> Seq<u8> {
    cs.map_values(|c: char| c as u8)
}

proof fn lemma_hex_char_byte(d: nat)
    requires
        d < 16,
    ensures
        hex_value(hex_upper_char(d) as u8) == Some(d as u8),
        hex_upper_char(d) as u8 != 0x2B,
        '\0' <= hex_upper_char(d) <= '\u{7f}',
{
}

/// Encoded text is ASCII.
proof fn lemma_encode_ascii(bs: Seq<u8>)
    ensures
        vstd::utf8::is_ascii_chars(percent_encode_spec(bs)),
    decreases bs.len(),
{
    if bs.len() > 0 {
        lemma_encode_ascii(bs.drop_first());
        let b = bs[0];
        if !is_unreserved(b) {
            lemma_hex_char_byte((b / 16) as nat);
            lemma_hex_char_byte((b % 16) as nat);
        }
        let e = encode_byte_spec(b);
        assert(vstd::utf8::is_ascii_chars(e));
        vstd::utf8::is_ascii_chars_concat(e + percent_encode_spec(bs.drop_first()), e,
            percent_encode_spec(bs.drop_first()));
    }
}

/// Decoding the encoding of `bs` gives `bs` back, and never panics.
proof fn lemma_decode_encode(bs: Seq<u8>)
    ensures
        percent_decode_bytes(ascii_bytes(percent_encode_spec(bs))) == bs,
        !percent_decode_panics(ascii_bytes(percent_encode_spec(bs))),
    decreases bs.len(),
{
    if bs.len() > 0 {
        let b = bs[0];
        let rest = bs.drop_first();
        lemma_decode_encode(rest);
        let er = ascii_bytes(percent_encode_spec(rest));
        let e = ascii_bytes(percent_encode_spec(bs));
        if is_unreserved(b) {
            assert(e =~= seq![b] + er);
            assert(e.drop_first() =~= er);
            assert(b != 0x25);
        } else {
            let h1 = hex_upper_char((b / 16) as nat);
            let h2 = hex_upper_char((b % 16) as nat);
            lemma_hex_char_byte((b / 16) as nat);
            lemma_hex_char_byte((b % 16) as nat);
            assert(e =~= seq![0x25u8, h1 as u8, h2 as u8] + er);
            assert(e.subrange(3, e.len() as int) =~= er);
            assert(hex_pair(h1 as u8, h2 as u8) == Some(b));
            if e.len() > 3 {
                lemma_encode_ascii(rest);
                vstd::utf8::is_ascii_chars_nat_bound(percent_encode_spec(rest));
                assert(e[3] == er[0]);
                assert((percent_encode_spec(rest)[0] as nat) < 128);
            }
        }
        assert(percent_decode_bytes(e) =~= bs);
    } else {
        assert(ascii_bytes(percent_encode_spec(bs)) =~= seq![]);
    }
}

/// Decoding an encoded path gives the path back: `percent_decode`
/// undoes `percent_encode_path` for every text, and does not panic on its
/// output.
pub proof fn law_percent_round_trip(s: Seq<char>)
    ensures
        !percent_decode_panics(encode_utf8(percent_encode_spec(encode_utf8(s)))),
        percent_decode_spec(percent_encode_spec(encode_utf8(s))) == s,
{
    let e = percent_encode_spec(encode_utf8(s));
    lemma_encode_ascii(encode_utf8(s));
    vstd::utf8::is_ascii_chars_encode_utf8(e);
    assert(encode_utf8(e) =~= ascii_bytes(e));
    lemma_decode_encode(encode_utf8(s));
}

// ---------------------------------------------------------------------------
// URI lines
// ---------------------------------------------------------------------------

/// `file://`.
pub open spec fn file_scheme() -> Seq<char> {
    seq!['f', 'i', 'l', 'e', ':', '/', '/']
}

/// The still-encoded path of a `file://` line: what follows `file://`,
/// from the first `/` on when a host name precedes it; `None` for any other
/// line (comments and blank lines included).
pub open spec fn uri_path_part(line: Seq<char>) -> Option<Seq<char>> {
    if has_prefix(line, file_scheme()) {
        let rest = line.subrange(7, line.len() as int);
        match first_index_of(rest, '/') {
            Some(i) => if 0 < i < rest.len() {
                Some(rest.subrange(i, rest.len() as int))
            } else {
                Some(rest)
            },
            None => Some(rest),
        }
    } else {
        None
    }
}

fn file_scheme_exec() -> (r: Vec<char>)
    ensures
        r@ == file_scheme(),
{
    let mut v: Vec<char> = Vec::new();
    v.push('f');
    v.push('i');
    v.push('l');
    v.push('e');
    v.push(':');
    v.push('/');
    v.push('/');
    assert(v@ =~= file_scheme());
    v
}

/// The still-encoded path of a `file://` line.
pub fn uri_path_part_exec(line: &Vec<char>) -> (r: Option<Vec<char>>)
    ensures
        match r {
            Some(p) => uri_path_part(line@) == Some(p@),
            None => uri_path_part(line@) is None,
        },
{
    let scheme = file_scheme_exec();
    if !starts_with(line, &scheme) {
        return None;
    }
    let rest = slice_chars(line, 7, line.len());
    proof {
        lemma_first_index_of(rest@, '/');
    }
    match find_char(&rest, '/') {
        Some(i) => if i > 0 {
            Some(slice_chars(&rest, i, rest.len()))
        } else {
            Some(rest)
        },
        None => Some(rest),
    }
}

/// A line's path, decoded.
pub open spec fn line_path(l: Seq<char>) -> Seq<Seq<char>> {
    match uri_path_part(trim_spec(l)) {
        Some(p) => seq![percent_decode_spec(p)],
        None => seq![],
    }
}

/// The paths a `text/uri-list` names, in order: each line is trimmed;
/// lines that are not `file://` URIs (blank lines and `#` comments among
/// them) are skipped.
pub open spec fn uri_list_paths(ls: Seq<Seq<char>>) -> Seq<Seq<char>>
    decreases ls.len(),
{
    if ls.len() == 0 {
        seq![]
    } else {
        uri_list_paths(ls.drop_last()) + line_path(ls.last())
    }
}

/// The line is not a `file://` line, or decoding its path does not panic.
pub open spec fn line_decodable(l: Seq<char>) -> bool {
    match uri_path_part(trim_spec(l)) {
        Some(p) => !percent_decode_panics(encode_utf8(p)),
        None => true,
    }
}

/// No `file://` line of the list makes `percent_decode` panic.
pub open spec fn uri_list_decodable(ls: Seq<Seq<char>>) -> bool {
    forall|i: int| 0 <= i < ls.len() ==> #[trigger] line_decodable(ls[i])
}

/// The views of a vector of strings.
pub open spec fn strings_view(v: Seq<String>) -> Seq<Seq<char>> {
    v.map_values(|s: String| s@)
}

/// `parse_uri_list`: the filesystem paths of a `text/uri-list`.
pub fn parse_uri_list(text: &str) -> (r: Vec<String>)
    requires
        uri_list_decodable(lines_spec(text@)),
    ensures
        strings_view(r@) == uri_list_paths(lines_spec(text@)),
{
    let tc = chars_of(text);
    let ls = split_lines(&tc);
    let ghost lv = lines_spec(text@);
    let mut out: Vec<String> = Vec::new();
    let mut i: usize = 0;
    while i < ls.len()
        invariant
            i <= ls@.len(),
            ls@.len() == lv.len(),
            forall|k: int| 0 <= k < ls@.len() ==> #[trigger] ls@[k]@ == lv[k],
            uri_list_decodable(lv),
            strings_view(out@) == uri_list_paths(lv.take(i as int)),
        decreases ls.len() - i,
    {
        let t = trim(&ls[i]);
        proof {
            assert(lv.take(i + 1).drop_last() =~= lv.take(i as int));
            assert(lv.take(i + 1).last() == lv[i as int]);
            assert(ls@[i as int]@ == lv[i as int]);
        }
        let ghost before = out@;
        match uri_path_part_exec(&t) {
            Some(p) => {
                let ps = string_from_chars(&p);
                proof {
                    assert(uri_path_part(trim_spec(lv[i as int])) == Some(p@));
                    assert(line_decodable(lv[i as int]));
                }
                let d = percent_decode(ps.as_str());
                out.push(d);
                proof {
                    assert(strings_view(out@) =~= strings_view(before) + seq![d@]);
                }
            },
            None => {
                proof {
                    assert(line_path(lv[i as int]) =~= seq![]);
                    assert(uri_list_paths(lv.take(i as int)) + seq![] =~= uri_list_paths(lv.take(i as int)));
                }
            },
        }
        i = i + 1;
    }
    assert(lv.take(ls.len() as int) =~= lv);
    out
}

/// Whether `parse_uri_list` would panic on `text`.
pub fn uri_list_would_panic(text: &str) -> (r: bool)
    ensures
        r == !uri_list_decodable(lines_spec(text@)),
{
    let tc = chars_of(text);
    let ls = split_lines(&tc);
    let ghost lv = lines_spec(text@);
    let mut i: usize = 0;
    while i < ls.len()
        invariant
            i <= ls@.len(),
            ls@.len() == lv.len(),
            forall|k: int| 0 <= k < ls@.len() ==> #[trigger] ls@[k]@ == lv[k],
            lv == lines_spec(text@),
            forall|k: int| 0 <= k < i ==> #[trigger] line_decodable(lv[k]),
        decreases ls.len() - i,
    {
        let t = trim(&ls[i]);
        assert(ls@[i as int]@ == lv[i as int]);
        match uri_path_part_exec(&t) {
            Some(p) => {
                let ps = string_from_chars(&p);
                if percent_decode_would_panic(ps.as_str()) {
                    assert(!line_decodable(lv[i as int]));
                    return true;
                }
            },
            None => {},
        }
        i = i + 1;
    }
    false
}

// ---------------------------------------------------------------------------
// clipboard and drag payloads
// ---------------------------------------------------------------------------

/// The `file://` URI of a path.
pub open spec fn file_uri_spec(p: Seq<char>) -> Seq<char> {
    file_scheme() + percent_encode_spec(encode_utf8(p))
}

/// The URIs of a list of paths.
pub open spec fn uris_spec(paths: Seq<Seq<char>>) -> Seq<Seq<char>> {
    paths.map_values(|p: Seq<char>| file_uri_spec(p))
}

/// `items.join(sep)`.
pub open spec fn join_with(items: Seq<Seq<char>>, sep: Seq<char>) -> Seq<char>
    decreases items.len(),
{
    if items.len() == 0 {
        seq![]
    } else if items.len() == 1 {
        items[0]
    } else {
        items[0] + sep + join_with(items.drop_first(), sep)
    }
}

proof fn lemma_join_take(items: Seq<Seq<char>>, sep: Seq<char>, i: int)
    requires
        1 <= i < items.len(),
    ensures
        join_with(items.take(i + 1), sep) == join_with(items.take(i), sep) + sep + items[i],
    decreases i,
{
    let t = items.drop_first();
    assert(items.take(i + 1).drop_first() =~= t.take(i));
    assert(items.take(i).drop_first() =~= t.take(i - 1));
    if i == 1 {
        assert(t.take(1).len() == 1);
        assert(join_with(t.take(1), sep) == t[0]);
        assert(join_with(items.take(1), sep) == items[0]);
        assert(join_with(items.take(2), sep) == items[0] + sep + join_with(t.take(1), sep));
    } else {
        lemma_join_take(t, sep, i - 1);
        assert(t[i - 1] == items[i]);
        assert(join_with(items.take(i + 1), sep) =~= items[0] + sep + join_with(t.take(i), sep));
        assert(join_with(items.take(i), sep) =~= items[0] + sep + join_with(t.take(i - 1), sep));
    }
}

/// Joins character sequences with a separator.
fn join_chars(items: &Vec<Vec<char>>, sep: &Vec<char>) -> (r: Vec<char>)
    ensures
        r@ == join_with(items@.map_values(|v: Vec<char>| v@), sep@),
{
    let ghost iv = items@.map_values(|v: Vec<char>| v@);
    let mut out: Vec<char> = Vec::new();
    let mut i: usize = 0;
    assert(iv.take(0) =~= seq![]);
    while i < items.len()
        invariant
            i <= items@.len(),
            iv == items@.map_values(|v: Vec<char>| v@),
            out@ == join_with(iv.take(i as int), sep@),
        decreases items.len() - i,
    {
        if i == 0 {
            crate::text::push_all(&mut out, &items[0]);
            assert(iv.take(1).len() == 1);
            assert(out@ =~= join_with(iv.take(1), sep@));
        } else {
            proof {
                lemma_join_take(iv, sep@, i as int);
            }
            crate::text::push_all(&mut out, sep);
            crate::text::push_all(&mut out, &items[i]);
            assert(out@ =~= join_with(iv.take(i + 1), sep@));
        }
        i = i + 1;
    }
    assert(iv.take(items.len() as int) =~= iv);
    out
}

/// The `file://` URI of a path.
pub fn file_uri(p: &str) -> (r: Vec<char>)
    ensures
        r@ == file_uri_spec(p@),
{
    let mut u = file_scheme_exec();
    let e = percent_encode_path(p);
    push_all(&mut u, &chars_of(e.as_str()));
    u
}

fn uris_of(paths: &Vec<String>) -> (r: Vec<Vec<char>>)
    ensures
        r@.map_values(|v: Vec<char>| v@) == uris_spec(strings_view(paths@)),
{
    let mut out: Vec<Vec<char>> = Vec::new();
    let mut i: usize = 0;
    while i < paths.len()
        invariant
            i <= paths@.len(),
            out@.map_values(|v: Vec<char>| v@) == uris_spec(strings_view(paths@.take(i as int))),
        decreases paths.len() - i,
    {
        let u = file_uri(paths[i].as_str());
        let ghost before = out@;
        out.push(u);
        proof {
            assert(strings_view(paths@.take(i + 1)) =~= strings_view(paths@.take(i as int)).push(
                paths@[i as int]@,
            ));
            assert(out@.map_values(|v: Vec<char>| v@) =~= before.map_values(|v: Vec<char>| v@).push(
                u@,
            ));
        }
        i = i + 1;
    }
    assert(paths@.take(paths.len() as int) =~= paths@);
    out
}

/// `cut` or `copy`.
pub open spec fn clipboard_op(cut: bool) -> Seq<char> {
    if cut {
        seq!['c', 'u', 't']
    } else {
        seq!['c', 'o', 'p', 'y']
    }
}

/// The `x-special/gnome-copied-files` text: the operation, then one URI per
/// line.
pub open spec fn gnome_text_spec(paths: Seq<Seq<char>>, cut: bool) -> Seq<char> {
    clipboard_op(cut) + seq!['\n'] + join_with(uris_spec(paths), seq!['\n'])
}

/// The `text/uri-list` text: one URI per line, each ended by CR LF.
pub open spec fn uri_list_text_spec(paths: Seq<Seq<char>>) -> Seq<char> {
    join_with(uris_spec(paths), seq!['\r', '\n']) + seq!['\r', '\n']
}

/// The clipboard contents for copying (or cutting) paths: the GNOME
/// copied-files text (also offered as plain text) and the URI list.
pub fn clipboard_payload(paths: &Vec<String>, cut: bool) -> (r: (String, String))
    ensures
        r.0@ == gnome_text_spec(strings_view(paths@), cut),
        r.1@ == uri_list_text_spec(strings_view(paths@)),
{
    let uris = uris_of(paths);
    let mut nl: Vec<char> = Vec::new();
    nl.push('\n');
    assert(nl@ =~= seq!['\n']);
    let mut crlf: Vec<char> = Vec::new();
    crlf.push('\r');
    crlf.push('\n');
    assert(crlf@ =~= seq!['\r', '\n']);
    let mut gnome: Vec<char> = Vec::new();
    if cut {
        gnome.push('c');
        gnome.push('u');
        gnome.push('t');
    } else {
        gnome.push('c');
        gnome.push('o');
        gnome.push('p');
        gnome.push('y');
    }
    gnome.push('\n');
    push_all(&mut gnome, &join_chars(&uris, &nl));
    let mut list = join_chars(&uris, &crlf);
    push_all(&mut list, &crlf);
    assert(gnome@ =~= gnome_text_spec(strings_view(paths@), cut));
    assert(list@ =~= uri_list_text_spec(strings_view(paths@)));
    (string_from_chars(&gnome), string_from_chars(&list))
}

/// The drag payload of paths: the URI list and the paths joined by newlines.
pub fn drag_payload(paths: &Vec<String>) -> (r: (String, String))
    ensures
        r.0@ == uri_list_text_spec(strings_view(paths@)),
        r.1@ == join_with(strings_view(paths@), seq!['\n']),
{
    let uris = uris_of(paths);
    let mut crlf: Vec<char> = Vec::new();
    crlf.push('\r');
    crlf.push('\n');
    assert(crlf@ =~= seq!['\r', '\n']);
    let mut list = join_chars(&uris, &crlf);
    push_all(&mut list, &crlf);
    assert(list@ =~= uri_list_text_spec(strings_view(paths@)));
    let mut pv: Vec<Vec<char>> = Vec::new();
    let mut i: usize = 0;
    while i < paths.len()
        invariant
            i <= paths@.len(),
            pv@.map_values(|v: Vec<char>| v@) == strings_view(paths@.take(i as int)),
        decreases paths.len() - i,
    {
        let c = chars_of(paths[i].as_str());
        let ghost before = pv@;
        pv.push(c);
        proof {
            assert(strings_view(paths@.take(i + 1)) =~= strings_view(paths@.take(i as int)).push(
                paths@[i as int]@,
            ));
            assert(pv@.map_values(|v: Vec<char>| v@) =~= before.map_values(|v: Vec<char>| v@).push(
                c@,
            ));
        }
        i = i + 1;
    }
    assert(paths@.take(paths.len() as int) =~= paths@);
    let mut nl: Vec<char> = Vec::new();
    nl.push('\n');
    assert(nl@ =~= seq!['\n']);
    let plain = join_chars(&pv, &nl);
    (string_from_chars(&list), string_from_chars(&plain))
}

// ---------------------------------------------------------------------------
// pasting
// ---------------------------------------------------------------------------

/// The trimmed lines that are not empty.
pub open spec fn trimmed_nonempty(ls: Seq<Seq<char>>) -> Seq<Seq<char>>
    decreases ls.len(),
{
    if ls.len() == 0 {
        seq![]
    } else {
        trimmed_nonempty(ls.drop_last()) + (if trim_spec(ls.last()).len() > 0 {
            seq![trim_spec(ls.last())]
        } else {
            seq![]
        })
    }
}

/// A pasted line as a path: a `file://` URI decoded, anything else as it is.
pub open spec fn clipboard_source(l: Seq<char>) -> Seq<char> {
    match uri_path_part(l) {
        Some(p) => percent_decode_spec(p),
        None => l,
    }
}

/// The sources of pasted lines.
pub open spec fn clipboard_sources(ls: Seq<Seq<char>>) -> Seq<Seq<char>> {
    ls.map_values(|l: Seq<char>| clipboard_source(l))
}

/// Pasted clipboard text: the trimmed non-empty lines; a first line `cut`
/// or `copy` gives the operation (otherwise a copy) and is dropped; the
/// rest are the source paths.
pub open spec fn clipboard_spec(text: Seq<char>) -> (bool, Seq<Seq<char>>) {
    let ls = trimmed_nonempty(lines_spec(text));
    if ls.len() > 0 && ls[0] == clipboard_op(true) {
        (true, clipboard_sources(ls.drop_first()))
    } else if ls.len() > 0 && ls[0] == clipboard_op(false) {
        (false, clipboard_sources(ls.drop_first()))
    } else {
        (false, clipboard_sources(ls))
    }
}

/// The line is not a `file://` URI, or decoding it does not panic.
pub open spec fn source_decodable(l: Seq<char>) -> bool {
    match uri_path_part(l) {
        Some(p) => !percent_decode_panics(encode_utf8(p)),
        None => true,
    }
}

/// No pasted line makes `percent_decode` panic.
pub open spec fn clipboard_decodable(text: Seq<char>) -> bool {
    let ls = trimmed_nonempty(lines_spec(text));
    forall|i: int| 0 <= i < ls.len() ==> #[trigger] source_decodable(ls[i])
}

/// The trimmed non-empty lines of a text.
pub fn trimmed_lines(text: &str) -> (r: Vec<Vec<char>>)
    ensures
        r@.map_values(|v: Vec<char>| v@) == trimmed_nonempty(lines_spec(text@)),
{
    let tc = chars_of(text);
    let ls = split_lines(&tc);
    let ghost lv = lines_spec(text@);
    let mut out: Vec<Vec<char>> = Vec::new();
    let mut i: usize = 0;
    while i < ls.len()
        invariant
            i <= ls@.len(),
            ls@.len() == lv.len(),
            forall|k: int| 0 <= k < ls@.len() ==> #[trigger] ls@[k]@ == lv[k],
            out@.map_values(|v: Vec<char>| v@) == trimmed_nonempty(lv.take(i as int)),
        decreases ls.len() - i,
    {
        let t = trim(&ls[i]);
        proof {
            assert(lv.take(i + 1).drop_last() =~= lv.take(i as int));
            assert(ls@[i as int]@ == lv[i as int]);
        }
        let ghost before = out@;
        if t.len() > 0 {
            out.push(t);
            assert(out@.map_values(|v: Vec<char>| v@) =~= before.map_values(|v: Vec<char>| v@)
                + seq![t@]);
        } else {
            assert(trimmed_nonempty(lv.take(i + 1)) =~= trimmed_nonempty(lv.take(i as int)));
        }
        i = i + 1;
    }
    assert(lv.take(ls.len() as int) =~= lv);
    out
}

/// Whether `parse_clipboard_text` would panic on `text`.
pub fn clipboard_would_panic(text: &str) -> (r: bool)
    ensures
        r == !clipboard_decodable(text@),
{
    let ls = trimmed_lines(text);
    let ghost lv = trimmed_nonempty(lines_spec(text@));
    let mut i: usize = 0;
    while i < ls.len()
        invariant
            i <= ls@.len(),
            lv == trimmed_nonempty(lines_spec(text@)),
            ls@.map_values(|v: Vec<char>| v@) == lv,
            forall|k: int| 0 <= k < i ==> #[trigger] source_decodable(lv[k]),
        decreases ls.len() - i,
    {
        assert(lv[i as int] == ls@[i as int]@);
        match uri_path_part_exec(&ls[i]) {
            Some(p) => {
                let ps = string_from_chars(&p);
                if percent_decode_would_panic(ps.as_str()) {
                    assert(!source_decodable(lv[i as int]));
                    return true;
                }
            },
            None => {},
        }
        i = i + 1;
    }
    false
}

/// Reads pasted clipboard text: whether it was a cut, and the source paths.
pub fn parse_clipboard_text(text: &str) -> (r: (bool, Vec<String>))
    requires
        clipboard_decodable(text@),
    ensures
        r.0 == clipboard_spec(text@).0,
        strings_view(r.1@) == clipboard_spec(text@).1,
{
    let ls = trimmed_lines(text);
    let ghost lv = trimmed_nonempty(lines_spec(text@));
    assert(ls@.len() == lv.len());
    let mut cut_w: Vec<char> = Vec::new();
    cut_w.push('c');
    cut_w.push('u');
    cut_w.push('t');
    let mut copy_w: Vec<char> = Vec::new();
    copy_w.push('c');
    copy_w.push('o');
    copy_w.push('p');
    copy_w.push('y');
    assert(cut_w@ =~= clipboard_op(true));
    assert(copy_w@ =~= clipboard_op(false));
    let mut start: usize = 0;
    let mut cut = false;
    if ls.len() > 0 {
        assert(ls@[0]@ == lv[0]);
        if crate::text::chars_eq(&ls[0], &cut_w) {
            cut = true;
            start = 1;
        } else if crate::text::chars_eq(&ls[0], &copy_w) {
            start = 1;
        }
    }
    let ghost rest = lv.subrange(start as int, lv.len() as int);
    assert(start == 1 ==> rest =~= lv.drop_first());
    assert(start == 0 ==> rest =~= lv);
    let mut out: Vec<String> = Vec::new();
    let mut i: usize = start;
    while i < ls.len()
        invariant
            start <= i <= ls@.len(),
            lv == trimmed_nonempty(lines_spec(text@)),
            clipboard_decodable(text@),
            ls@.map_values(|v: Vec<char>| v@) == lv,
            rest == lv.subrange(start as int, lv.len() as int),
            strings_view(out@) == clipboard_sources(lv.subrange(start as int, i as int)),
        decreases ls.len() - i,
    {
        assert(lv[i as int] == ls@[i as int]@);
        let ghost before = out@;
        let src = match uri_path_part_exec(&ls[i]) {
            Some(p) => {
                let ps = string_from_chars(&p);
                assert(source_decodable(lv[i as int]));
                percent_decode(ps.as_str())
            },
            None => string_from_chars(&ls[i]),
        };
        out.push(src);
        proof {
            assert(lv.subrange(start as int, i + 1) =~= lv.subrange(start as int, i as int).push(
                lv[i as int],
            ));
            assert(strings_view(out@) =~= strings_view(before).push(src@));
            assert(clipboard_sources(lv.subrange(start as int, i + 1)) =~= clipboard_sources(
                lv.subrange(start as int, i as int),
            ).push(clipboard_source(lv[i as int])));
        }
        i = i + 1;
    }
    (cut, out)
}

// ---------------------------------------------------------------------------
// round trips through the clipboard and drag payloads
// ---------------------------------------------------------------------------

/// A printable ASCII character other than space.
pub open spec fn plain_char(c: char) -> bool {
    0x21 <= (c as u32) <= 0x7E
}

/// Every character of `s` is plain.
pub open spec fn all_plain(s: Seq<char>) -> bool {
    forall|i: int| 0 <= i < s.len() ==> #[trigger] plain_char(s[i])
}

proof fn lemma_encode_plain(bs: Seq<u8>)
    ensures
        all_plain(percent_encode_spec(bs)),
    decreases bs.len(),
{
    if bs.len() > 0 {
        lemma_encode_plain(bs.drop_first());
        let b = bs[0];
        let e = encode_byte_spec(b);
        if !is_unreserved(b) {
            lemma_hex_char_byte((b / 16) as nat);
            lemma_hex_char_byte((b % 16) as nat);
        }
        assert(all_plain(e));
        let r = percent_encode_spec(bs.drop_first());
        assert forall|i: int| 0 <= i < (e + r).len() implies #[trigger] plain_char((e + r)[i]) by {
            if i < e.len() {
                assert((e + r)[i] == e[i]);
            } else {
                assert((e + r)[i] == r[i - e.len()]);
            }
        }
    }
}

proof fn lemma_uri_plain(p: Seq<char>)
    ensures
        all_plain(file_uri_spec(p)),
        file_uri_spec(p).len() > 0,
{
    lemma_encode_plain(encode_utf8(p));
    let e = percent_encode_spec(encode_utf8(p));
    let u = file_scheme() + e;
    assert forall|i: int| 0 <= i < u.len() implies #[trigger] plain_char(u[i]) by {
        if i < 7 {
            assert(u[i] == file_scheme()[i]);
        } else {
            assert(u[i] == e[i - 7]);
        }
    }
}

proof fn lemma_plain_trim(s: Seq<char>)
    requires
        all_plain(s),
    ensures
        trim_spec(s) == s,
{
    if s.len() > 0 {
        assert(plain_char(s[0]));
        assert(plain_char(s.last()));
    }
}

proof fn lemma_plain_no_newline(s: Seq<char>)
    requires
        all_plain(s),
    ensures
        first_index_of(s, '\n') is None,
{
    lemma_first_index_of(s, '\n');
    if first_index_of(s, '\n') is Some {
        let k = first_index_of(s, '\n')->0;
        assert(plain_char(s[k]));
    }
}

proof fn lemma_lines_single(u: Seq<char>)
    requires
        all_plain(u),
        u.len() > 0,
    ensures
        lines_spec(u) == seq![u],
{
    lemma_plain_no_newline(u);
}

proof fn lemma_lines_sep(u: Seq<char>, sep: Seq<char>, rest: Seq<char>)
    requires
        all_plain(u),
        u.len() > 0,
        sep == seq!['\n'] || sep == seq!['\r', '\n'],
    ensures
        lines_spec(u + sep + rest) == seq![u] + lines_spec(rest),
{
    let t = u + sep + rest;
    let j = u.len() + sep.len() - 1;
    assert(t[j] == '\n');
    assert forall|k: int| 0 <= k < j implies t[k] != '\n' by {
        if k < u.len() {
            assert(t[k] == u[k]);
            assert(plain_char(u[k]));
        } else {
            assert(t[k] == '\r');
        }
    }
    crate::text::lemma_first_index_of_is(t, '\n', j);
    assert(t.subrange(j + 1, t.len() as int) =~= rest);
    assert(plain_char(u.last()));
    if sep.len() == 2 {
        assert(t.subrange(0, j) =~= u.push('\r'));
        assert(u.push('\r').drop_last() =~= u);
    } else {
        assert(t.subrange(0, j) =~= u);
    }
}

/// Lines of URIs, each ended by CR LF, split back into the URIs.
proof fn lemma_lines_terminated(us: Seq<Seq<char>>)
    requires
        us.len() > 0,
        forall|i: int| 0 <= i < us.len() ==> all_plain(#[trigger] us[i]) && us[i].len() > 0,
    ensures
        lines_spec(join_with(us, seq!['\r', '\n']) + seq!['\r', '\n']) == us,
    decreases us.len(),
{
    let crlf = seq!['\r', '\n'];
    assert(all_plain(us[0]));
    if us.len() == 1 {
        lemma_lines_sep(us[0], crlf, seq![]);
        assert(us[0] + crlf + seq![] =~= us[0] + crlf);
        assert(lines_spec(seq![]) == Seq::<Seq<char>>::empty());
        assert(seq![us[0]] + Seq::<Seq<char>>::empty() =~= us);
    } else {
        let r = us.drop_first();
        assert forall|i: int| 0 <= i < r.len() implies all_plain(#[trigger] r[i]) && r[i].len() > 0 by {
            assert(r[i] == us[i + 1]);
        }
        lemma_lines_terminated(r);
        let tail = join_with(r, crlf) + crlf;
        assert(join_with(us, crlf) + crlf =~= us[0] + crlf + tail);
        lemma_lines_sep(us[0], crlf, tail);
        assert(seq![us[0]] + r =~= us);
    }
}

/// Lines joined by LF, split back into the lines.
proof fn lemma_lines_joined(us: Seq<Seq<char>>)
    requires
        us.len() > 0,
        forall|i: int| 0 <= i < us.len() ==> all_plain(#[trigger] us[i]) && us[i].len() > 0,
    ensures
        lines_spec(join_with(us, seq!['\n'])) == us,
    decreases us.len(),
{
    assert(all_plain(us[0]));
    if us.len() == 1 {
        lemma_lines_single(us[0]);
        assert(seq![us[0]] =~= us);
    } else {
        let r = us.drop_first();
        assert forall|i: int| 0 <= i < r.len() implies all_plain(#[trigger] r[i]) && r[i].len() > 0 by {
            assert(r[i] == us[i + 1]);
        }
        lemma_lines_joined(r);
        lemma_lines_sep(us[0], seq!['\n'], join_with(r, seq!['\n']));
        assert(seq![us[0]] + r =~= us);
    }
}

/// The encoded path of an absolute path's URI, and its decoding.
/// No byte of a character's UTF-8 encoding is `/` unless it is `/`.
proof fn lemma_scalar_no_slash(c: char)
    requires
        c != '/',
    ensures
        !vstd::utf8::encode_scalar(c as u32).contains(0x2Fu8),
{
    let v = c as u32;
    assert(v != 0x2F);
    let e = vstd::utf8::encode_scalar(v);
    if vstd::utf8::has_width_1_encoding(v) {
        assert((v & 0x7F) as u8 != 0x2Fu8) by (bit_vector)
            requires v <= 0x7F, v != 0x2F;
        assert(e =~= seq![(v & 0x7F) as u8]);
    } else {
        assert forall|i: int| 0 <= i < e.len() implies e[i] != 0x2Fu8 by {
            let b2 = 0xC0 | ((v >> 6) & 0x1F) as u8;
            let b3 = 0xE0 | ((v >> 12) & 0x0F) as u8;
            let b4 = 0xF0 | ((v >> 18) & 0x7) as u8;
            let c1 = 0x80 | (v & 0x3F) as u8;
            let c2 = 0x80 | ((v >> 6) & 0x3F) as u8;
            let c3 = 0x80 | ((v >> 12) & 0x3F) as u8;
            assert(b2 >= 0x80 && b3 >= 0x80 && b4 >= 0x80 && c1 >= 0x80 && c2 >= 0x80 && c3 >= 0x80) by (bit_vector)
                requires
                    b2 == 0xC0 | ((v >> 6) & 0x1F) as u8,
                    b3 == 0xE0 | ((v >> 12) & 0x0F) as u8,
                    b4 == 0xF0 | ((v >> 18) & 0x7) as u8,
                    c1 == 0x80 | (v & 0x3F) as u8,
                    c2 == 0x80 | ((v >> 6) & 0x3F) as u8,
                    c3 == 0x80 | ((v >> 12) & 0x3F) as u8,
            ;
        }
    }
}

/// A text without `/` encodes to bytes without `/`.
proof fn lemma_encode_utf8_no_slash(p: Seq<char>)
    requires
        !p.contains('/'),
    ensures
        !encode_utf8(p).contains(0x2Fu8),
    decreases p.len(),
{
    if p.len() > 0 {
        assert(p[0] != '/');
        lemma_scalar_no_slash(p[0]);
        assert(!p.drop_first().contains('/')) by {
            if p.drop_first().contains('/') {
                let j = choose|j: int| 0 <= j < p.drop_first().len() && p.drop_first()[j] == '/';
                assert(p[j + 1] == '/');
            }
        }
        lemma_encode_utf8_no_slash(p.drop_first());
        let a = vstd::utf8::encode_scalar(p[0] as u32);
        let b = encode_utf8(p.drop_first());
        assert(encode_utf8(p) == a + b);
        assert forall|i: int| 0 <= i < (a + b).len() implies (a + b)[i] != 0x2Fu8 by {
            if i < a.len() {
                assert((a + b)[i] == a[i]);
            } else {
                assert((a + b)[i] == b[i - a.len()]);
            }
        }
    }
}

/// Bytes without `/` percent-encode to text without `/`.
proof fn lemma_percent_no_slash(bs: Seq<u8>)
    requires
        !bs.contains(0x2Fu8),
    ensures
        !percent_encode_spec(bs).contains('/'),
    decreases bs.len(),
{
    if bs.len() > 0 {
        let b = bs[0];
        assert(b != 0x2Fu8);
        assert(!bs.drop_first().contains(0x2Fu8)) by {
            if bs.drop_first().contains(0x2Fu8) {
                let j = choose|j: int| 0 <= j < bs.drop_first().len() && bs.drop_first()[j] == 0x2Fu8;
                assert(bs[j + 1] == 0x2Fu8);
            }
        }
        lemma_percent_no_slash(bs.drop_first());
        let e = encode_byte_spec(b);
        if !is_unreserved(b) {
            lemma_hex_char_byte((b / 16) as nat);
            lemma_hex_char_byte((b % 16) as nat);
        }
        assert(!e.contains('/')) by {
            if is_unreserved(b) {
                assert(e[0] == b as char);
            } else {
                assert(hex_value(hex_upper_char((b / 16) as nat) as u8) is Some);
                assert(hex_value(hex_upper_char((b % 16) as nat) as u8) is Some);
                assert(hex_value('/' as u8) is None);
            }
        }
        let r = percent_encode_spec(bs.drop_first());
        assert forall|i: int| 0 <= i < (e + r).len() implies (e + r)[i] != '/' by {
            if i < e.len() {
                assert((e + r)[i] == e[i]);
            } else {
                assert((e + r)[i] == r[i - e.len()]);
            }
        }
    }
}

/// A path a URI carries unchanged: an absolute one, or one without any
/// `/` (nothing in it can be taken for a host name).
pub open spec fn carried_path(p: Seq<char>) -> bool {
    (p.len() > 0 && p[0] == '/') || !p.contains('/')
}

proof fn lemma_uri_path(p: Seq<char>)
    requires
        carried_path(p),
    ensures
        uri_path_part(file_uri_spec(p)) == Some(percent_encode_spec(encode_utf8(p))),
        percent_decode_spec(percent_encode_spec(encode_utf8(p))) == p,
        !percent_decode_panics(encode_utf8(percent_encode_spec(encode_utf8(p)))),
{
    let u = file_uri_spec(p);
    let e = percent_encode_spec(encode_utf8(p));
    assert(u.subrange(0, 7) =~= file_scheme());
    assert(u.subrange(7, u.len() as int) =~= e);
    if p.len() > 0 && p[0] == '/' {
        vstd::utf8::is_ascii_chars_encode_utf8(seq![p[0]]);
        assert(encode_utf8(p) =~= encode_utf8(seq![p[0]]) + encode_utf8(p.drop_first())) by {
            assert(p =~= seq![p[0]] + p.drop_first());
            assert(encode_utf8(seq![p[0]]) =~= vstd::utf8::encode_scalar(p[0] as u32) + encode_utf8(
                seq![p[0]].drop_first(),
            ));
            assert(seq![p[0]].drop_first() =~= Seq::<char>::empty());
        }
        assert(encode_utf8(p)[0] == 0x2Fu8);
        assert(is_unreserved(0x2Fu8));
        assert(e[0] == '/');
        crate::text::lemma_first_index_of_is(e, '/', 0);
    } else {
        lemma_encode_utf8_no_slash(p);
        lemma_percent_no_slash(encode_utf8(p));
        crate::text::lemma_first_index_of(e, '/');
        if first_index_of(e, '/') is Some {
            let k = first_index_of(e, '/')->0;
            assert(e.contains('/')) by {
                assert(e[k] == '/');
            }
        }
    }
    law_percent_round_trip(p);
}

/// Paths that a URI list or the clipboard carries unchanged.
pub open spec fn carried_paths(paths: Seq<Seq<char>>) -> bool {
    forall|i: int| 0 <= i < paths.len() ==> #[trigger] carried_path(paths[i])
}

proof fn lemma_uris_plain(paths: Seq<Seq<char>>)
    ensures
        forall|i: int|
            0 <= i < uris_spec(paths).len() ==> all_plain(#[trigger] uris_spec(paths)[i])
                && uris_spec(paths)[i].len() > 0,
{
    assert forall|i: int| 0 <= i < uris_spec(paths).len() implies all_plain(
        #[trigger] uris_spec(paths)[i],
    ) && uris_spec(paths)[i].len() > 0 by {
        lemma_uri_plain(paths[i]);
    }
}

/// Dropping paths as a URI list and reading the list back gives
/// the same paths, in order, and reading it cannot panic.
pub proof fn law_uri_list_round_trip(paths: Seq<Seq<char>>)
    requires
        carried_paths(paths),
    ensures
        uri_list_decodable(lines_spec(uri_list_text_spec(paths))),
        uri_list_paths(lines_spec(uri_list_text_spec(paths))) == paths,
{
    if paths.len() == 0 {
        let crlf = seq!['\r', '\n'];
        assert(uris_spec(paths) =~= Seq::<Seq<char>>::empty());
        assert(uri_list_text_spec(paths) =~= crlf);
        crate::text::lemma_first_index_of_is(crlf, '\n', 1);
        assert(crlf.subrange(0, 1) =~= seq!['\r']);
        assert(crlf.subrange(2, 2) =~= Seq::<char>::empty());
        assert(lines_spec(crlf.subrange(2, 2)) =~= Seq::<Seq<char>>::empty());
        assert(crate::text::strip_cr(seq!['\r']) =~= Seq::<char>::empty());
        let ls = lines_spec(crlf);
        assert(ls == seq![crate::text::strip_cr(crlf.subrange(0, 1))] + lines_spec(crlf.subrange(2, 2)));
        assert(ls =~= seq![Seq::<char>::empty()]);
        assert(uri_list_paths(ls.drop_last()) =~= Seq::<Seq<char>>::empty());
        assert(line_path(Seq::<char>::empty()) =~= Seq::<Seq<char>>::empty());
        assert(trim_spec(Seq::<char>::empty()) =~= Seq::<char>::empty()) by {
            reveal_with_fuel(crate::text::trim_start_spec, 2);
            reveal_with_fuel(crate::text::trim_end_spec, 2);
        }
        assert(uri_path_part(Seq::<char>::empty()) is None);
        assert(ls.drop_last() =~= Seq::<Seq<char>>::empty());
        assert(uri_list_paths(ls) =~= paths);
        return;
    }
    let us = uris_spec(paths);
    lemma_uris_plain(paths);
    lemma_lines_terminated(us);
    assert forall|i: int| 0 <= i < us.len() implies #[trigger] line_decodable(us[i]) by {
        lemma_plain_trim(us[i]);
        lemma_uri_path(paths[i]);
    }
    assert forall|i: int| 0 <= i < us.len() implies #[trigger] line_path(us[i]) == seq![paths[i]] by {
        lemma_plain_trim(us[i]);
        lemma_uri_path(paths[i]);
    }
    assert forall|k: int| 0 <= k <= us.len() implies #[trigger] uri_list_paths(us.take(k))
        == paths.take(k) by {
        lemma_uri_list_prefix(us, paths, k);
    }
    assert(us.take(us.len() as int) =~= us);
    assert(paths.take(paths.len() as int) =~= paths);
}

proof fn lemma_uri_list_prefix(us: Seq<Seq<char>>, paths: Seq<Seq<char>>, k: int)
    requires
        0 <= k <= us.len(),
        us.len() == paths.len(),
        forall|i: int| 0 <= i < us.len() ==> #[trigger] line_path(us[i]) == seq![paths[i]],
    ensures
        uri_list_paths(us.take(k)) == paths.take(k),
    decreases k,
{
    if k == 0 {
        assert(us.take(0) =~= Seq::<Seq<char>>::empty());
        assert(paths.take(0) =~= Seq::<Seq<char>>::empty());
    } else {
        lemma_uri_list_prefix(us, paths, k - 1);
        assert(us.take(k).drop_last() =~= us.take(k - 1));
        assert(us.take(k).last() == us[k - 1]);
        assert(paths.take(k) =~= paths.take(k - 1) + seq![paths[k - 1]]);
    }
}

proof fn lemma_trimmed_plain(ls: Seq<Seq<char>>, k: int)
    requires
        0 <= k <= ls.len(),
        forall|i: int| 0 <= i < ls.len() ==> all_plain(#[trigger] ls[i]) && ls[i].len() > 0,
    ensures
        trimmed_nonempty(ls.take(k)) == ls.take(k),
    decreases k,
{
    if k == 0 {
        assert(ls.take(0) =~= Seq::<Seq<char>>::empty());
    } else {
        lemma_trimmed_plain(ls, k - 1);
        assert(ls.take(k).drop_last() =~= ls.take(k - 1));
        assert(all_plain(ls[k - 1]));
        lemma_plain_trim(ls[k - 1]);
        assert(ls.take(k) =~= ls.take(k - 1) + seq![ls[k - 1]]);
    }
}

proof fn lemma_clipboard_lines(paths: Seq<Seq<char>>, cut: bool)
    ensures
        trimmed_nonempty(lines_spec(gnome_text_spec(paths, cut))) == seq![clipboard_op(cut)]
            + uris_spec(paths),
{
    let us = uris_spec(paths);
    let op = clipboard_op(cut);
    let all = seq![op] + us;
    lemma_uris_plain(paths);
    assert(all_plain(op)) by {
        assert forall|i: int| 0 <= i < op.len() implies #[trigger] plain_char(op[i]) by {}
    }
    assert forall|i: int| 0 <= i < all.len() implies all_plain(#[trigger] all[i]) && all[i].len()
        > 0 by {
        if i > 0 {
            assert(all[i] == us[i - 1]);
        }
    }
    assert(all.drop_first() =~= us);
    if us.len() == 0 {
        assert(gnome_text_spec(paths, cut) =~= op + seq!['\n'] + Seq::<char>::empty());
        lemma_lines_sep(op, seq!['\n'], Seq::<char>::empty());
        assert(lines_spec(Seq::<char>::empty()) == Seq::<Seq<char>>::empty());
        assert(seq![op] + Seq::<Seq<char>>::empty() =~= all);
    } else {
        assert(gnome_text_spec(paths, cut) =~= join_with(all, seq!['\n']));
        lemma_lines_joined(all);
    }
    lemma_trimmed_plain(all, all.len() as int);
    assert(all.take(all.len() as int) =~= all);
}

proof fn lemma_clipboard_sources(paths: Seq<Seq<char>>)
    requires
        carried_paths(paths),
    ensures
        forall|i: int| 0 <= i < uris_spec(paths).len() ==> #[trigger] source_decodable(uris_spec(paths)[i]),
        clipboard_sources(uris_spec(paths)) == paths,
{
    let us = uris_spec(paths);
    assert forall|i: int| 0 <= i < us.len() implies #[trigger] source_decodable(us[i]) by {
        lemma_uri_path(paths[i]);
    }
    assert forall|i: int| 0 <= i < us.len() implies #[trigger] clipboard_source(us[i]) == paths[i] by {
        lemma_uri_path(paths[i]);
    }
    assert(clipboard_sources(us) =~= paths);
}

/// Copying (or cutting) paths and pasting the clipboard text back
/// gives the same operation and the same paths, and pasting cannot panic.
pub proof fn law_clipboard_round_trip(paths: Seq<Seq<char>>, cut: bool)
    requires
        carried_paths(paths),
    ensures
        clipboard_decodable(gnome_text_spec(paths, cut)),
        clipboard_spec(gnome_text_spec(paths, cut)) == (cut, paths),
{
    let us = uris_spec(paths);
    let op = clipboard_op(cut);
    let all = seq![op] + us;
    lemma_clipboard_lines(paths, cut);
    lemma_clipboard_sources(paths);
    assert(all[0] == op);
    assert(all.drop_first() =~= us);
    assert(!has_prefix(op, file_scheme())) by {
        assert(op[0] == 'c');
    }
    assert(source_decodable(op));
    assert forall|i: int| 0 <= i < all.len() implies #[trigger] source_decodable(all[i]) by {
        if i > 0 {
            assert(all[i] == us[i - 1]);
        }
    }
    assert(op != clipboard_op(!cut)) by {
        assert(op.len() != clipboard_op(!cut).len());
    }
}

} // verus!
