//! `.desktop` files: the `[Desktop Entry]` keys, the `Exec=` command line,
//! the `Icon=` name, and what launching an entry runs or opens.

use vstd::prelude::*;
use crate::text::{chars_of, string_from_chars, slice_chars, is_whitespace, is_ws, trim, trim_spec, lines_spec, split_lines, find_char, first_index_of, lemma_first_index_of, chars_eq, starts_with, has_prefix};
use crate::uri::strings_view;

verus! {

// ---------------------------------------------------------------------------
// Exec= tokenizing
// ---------------------------------------------------------------------------

/// Characters that a backslash escapes inside double quotes.
pub open spec fn is_quoted_escape(c: char) -> bool {
    c == '"' || c == '\\' || c == '`' || c == '$'
}

/// The tokenizer of an `Exec=` value, from the state after some input:
/// the finished arguments, the argument being built, whether one has
/// started, and whether a double quote is open. Unquoted whitespace ends an
/// argument; `"` toggles quoting; inside quotes `\` escapes `"`, `\`, `` ` ``
/// and `$` and is kept before anything else; outside quotes `%%` is a
/// literal `%` and `%` with any other character (a field code) is dropped.
pub open spec fn exec_tokens(
    rest: Seq<char>,
    args: Seq<Seq<char>>,
    cur: Seq<char>,
    has_tok: bool,
    in_quote: bool,
) -> Seq<Seq<char>>
    decreases rest.len(),
{
    if rest.len() == 0 {
        if has_tok {
            args.push(cur)
        } else {
            args
        }
    } else {
        let c = rest[0];
        let r = rest.drop_first();
        if c == '"' {
            exec_tokens(r, args, cur, true, !in_quote)
        } else if c == '\\' && in_quote {
            if r.len() > 0 {
                if is_quoted_escape(r[0]) {
                    exec_tokens(r.drop_first(), args, cur.push(r[0]), has_tok, in_quote)
                } else {
                    exec_tokens(r, args, cur.push('\\'), has_tok, in_quote)
                }
            } else {
                exec_tokens(r, args, cur, has_tok, in_quote)
            }
        } else if c == '%' && !in_quote {
            if r.len() > 0 {
                if r[0] == '%' {
                    exec_tokens(r.drop_first(), args, cur.push('%'), has_tok, in_quote)
                } else {
                    exec_tokens(r.drop_first(), args, cur, has_tok, in_quote)
                }
            } else {
                exec_tokens(r, args, cur, has_tok, in_quote)
            }
        } else if is_ws(c) && !in_quote {
            if has_tok {
                exec_tokens(r, args.push(cur), seq![], false, in_quote)
            } else {
                exec_tokens(r, args, cur, has_tok, in_quote)
            }
        } else {
            exec_tokens(r, args, cur.push(c), true, in_quote)
        }
    }
}

/// The arguments of an `Exec=` value.
pub open spec fn parse_exec_spec(exec: Seq<char>) -> Seq<Seq<char>> {
    exec_tokens(exec, seq![], seq![], false, false)
}

/// The tokenizer keeps the arguments it has finished in front of whatever
/// the rest of the input gives.
proof fn lemma_exec_tokens_args(
    rest: Seq<char>,
    args: Seq<Seq<char>>,
    cur: Seq<char>,
    has_tok: bool,
    in_quote: bool,
)
    ensures
        exec_tokens(rest, args, cur, has_tok, in_quote) == args + exec_tokens(rest, seq![], cur, has_tok, in_quote),
    decreases rest.len(),
{
    if rest.len() == 0 {
        assert(args.push(cur) =~= args + seq![cur]);
        assert(args =~= args + Seq::<Seq<char>>::empty());
    } else {
        let c = rest[0];
        let r = rest.drop_first();
        if c == '"' {
            lemma_exec_tokens_args(r, args, cur, true, !in_quote);
        } else if in_quote && c == '\\' {
            if r.len() > 0 {
                if is_quoted_escape(r[0]) {
                    lemma_exec_tokens_args(r.drop_first(), args, cur.push(r[0]), has_tok, in_quote);
                } else {
                    lemma_exec_tokens_args(r, args, cur.push('\\'), has_tok, in_quote);
                }
            } else {
                lemma_exec_tokens_args(r, args, cur, has_tok, in_quote);
            }
        } else if !in_quote && c == '%' {
            if r.len() > 0 {
                if r[0] == '%' {
                    lemma_exec_tokens_args(r.drop_first(), args, cur.push('%'), has_tok, in_quote);
                } else {
                    lemma_exec_tokens_args(r.drop_first(), args, cur, has_tok, in_quote);
                }
            } else {
                lemma_exec_tokens_args(r, args, cur, has_tok, in_quote);
            }
        } else if !in_quote && is_ws(c) {
            if has_tok {
                lemma_exec_tokens_args(r, args.push(cur), seq![], false, in_quote);
                lemma_exec_tokens_args(r, seq![cur], seq![], false, in_quote);
                assert(args.push(cur) =~= args + seq![cur]);
                assert((args + seq![cur]) + exec_tokens(r, seq![], seq![], false, in_quote) =~= args + (seq![cur]
                    + exec_tokens(r, seq![], seq![], false, in_quote)));
            } else {
                lemma_exec_tokens_args(r, args, cur, has_tok, in_quote);
            }
        } else {
            lemma_exec_tokens_args(r, args, cur.push(c), true, in_quote);
        }
    }
}

/// Inside double quotes, a run holding neither a quote nor a backslash is
/// appended to the argument being built, character for character.
proof fn lemma_quoted_run(
    q: Seq<char>,
    tail: Seq<char>,
    args: Seq<Seq<char>>,
    cur: Seq<char>,
    has_tok: bool,
)
    requires
        forall|i: int| 0 <= i < q.len() ==> #[trigger] q[i] != '"' && q[i] != '\\',
    ensures
        exec_tokens(q + tail, args, cur, has_tok, true) == exec_tokens(tail, args, cur + q, has_tok || q.len() > 0, true),
    decreases q.len(),
{
    if q.len() == 0 {
        assert(q + tail =~= tail);
        assert(cur + q =~= cur);
    } else {
        let c = q[0];
        let q1 = q.drop_first();
        assert((q + tail)[0] == c);
        assert((q + tail).drop_first() =~= q1 + tail);
        assert forall|i: int| 0 <= i < q1.len() implies #[trigger] q1[i] != '"' && q1[i] != '\\' by {
            assert(q1[i] == q[i + 1]);
        }
        lemma_quoted_run(q1, tail, args, cur.push(c), true);
        assert(cur.push(c) + q1 =~= cur + q);
    }
}

/// Outside quotes, a run of ordinary characters (no whitespace, quote or
/// `%`) is appended to the argument being built, character for character.
proof fn lemma_plain_run(
    w: Seq<char>,
    tail: Seq<char>,
    args: Seq<Seq<char>>,
    cur: Seq<char>,
    has_tok: bool,
)
    requires
        forall|i: int| 0 <= i < w.len() ==> !is_ws(#[trigger] w[i]) && w[i] != '"' && w[i] != '%',
    ensures
        exec_tokens(w + tail, args, cur, has_tok, false) == exec_tokens(tail, args, cur + w, has_tok || w.len() > 0, false),
    decreases w.len(),
{
    if w.len() == 0 {
        assert(w + tail =~= tail);
        assert(cur + w =~= cur);
    } else {
        let c = w[0];
        let w1 = w.drop_first();
        assert((w + tail)[0] == c);
        assert((w + tail).drop_first() =~= w1 + tail);
        assert forall|i: int| 0 <= i < w1.len() implies !is_ws(#[trigger] w1[i]) && w1[i] != '"' && w1[i] != '%' by {
            assert(w1[i] == w[i + 1]);
        }
        lemma_plain_run(w1, tail, args, cur.push(c), true);
        assert(cur.push(c) + w1 =~= cur + w);
    }
}

/// Wherever it stands, a double-quoted text holding neither a quote nor a
/// backslash is copied into the current argument unchanged: whitespace, `%`
/// and every other character inside it are kept as they are.
pub proof fn law_quoted_text_kept(
    q: Seq<char>,
    tail: Seq<char>,
    args: Seq<Seq<char>>,
    cur: Seq<char>,
    has_tok: bool,
)
    requires
        forall|i: int| 0 <= i < q.len() ==> #[trigger] q[i] != '"' && q[i] != '\\',
    ensures
        exec_tokens(seq!['"'] + q + seq!['"'] + tail, args, cur, has_tok, false) == exec_tokens(
            tail,
            args,
            cur + q,
            true,
            false,
        ),
{
    let s = seq!['"'] + q + seq!['"'] + tail;
    assert(s[0] == '"');
    assert(s.drop_first() =~= q + (seq!['"'] + tail));
    lemma_quoted_run(q, seq!['"'] + tail, args, cur, true);
    let t = seq!['"'] + tail;
    assert(t[0] == '"');
    assert(t.drop_first() =~= tail);
}

/// An `Exec=` value that starts with a double-quoted text (holding neither a
/// quote nor a backslash) followed by whitespace or nothing has that text,
/// unchanged, as its first argument, and the arguments of the rest after
/// it.
pub proof fn law_quoted_argument(q: Seq<char>, tail: Seq<char>)
    requires
        forall|i: int| 0 <= i < q.len() ==> #[trigger] q[i] != '"' && q[i] != '\\',
        tail.len() == 0 || is_ws(tail[0]),
    ensures
        parse_exec_spec(seq!['"'] + q + seq!['"'] + tail) == seq![q] + parse_exec_spec(tail),
{
    law_quoted_text_kept(q, tail, seq![], seq![], false);
    assert(Seq::<char>::empty() + q =~= q);
    lemma_word_then_rest(q, tail);
}

/// After an argument `a` has been started outside quotes, whitespace or the
/// end of the input finishes it, and the rest is tokenized afresh.
proof fn lemma_word_then_rest(a: Seq<char>, tail: Seq<char>)
    requires
        tail.len() == 0 || is_ws(tail[0]),
    ensures
        exec_tokens(tail, seq![], a, true, false) == seq![a] + parse_exec_spec(tail),
{
    if tail.len() == 0 {
        assert(seq![a] + Seq::<Seq<char>>::empty() =~= seq![a]);
        assert(Seq::<Seq<char>>::empty().push(a) =~= seq![a]);
    } else {
        let r = tail.drop_first();
        lemma_exec_tokens_args(r, seq![a], seq![], false, false);
        assert(Seq::<Seq<char>>::empty().push(a) =~= seq![a]);
    }
}

/// An `Exec=` value that starts with an ordinary word (no whitespace, quote
/// or `%`) followed by whitespace or nothing has that word as its first
/// argument, and the arguments of the rest after it.
pub proof fn law_plain_word(w: Seq<char>, tail: Seq<char>)
    requires
        w.len() > 0,
        forall|i: int| 0 <= i < w.len() ==> !is_ws(#[trigger] w[i]) && w[i] != '"' && w[i] != '%',
        tail.len() == 0 || is_ws(tail[0]),
    ensures
        parse_exec_spec(w + tail) == seq![w] + parse_exec_spec(tail),
{
    lemma_plain_run(w, tail, seq![], seq![], false);
    assert(Seq::<char>::empty() + w =~= w);
    lemma_word_then_rest(w, tail);
}

/// Whitespace before the first argument is skipped.
pub proof fn law_leading_whitespace(c: char, rest: Seq<char>)
    requires
        is_ws(c),
    ensures
        parse_exec_spec(seq![c] + rest) == parse_exec_spec(rest),
{
    let s = seq![c] + rest;
    assert(s[0] == c);
    assert(s.drop_first() =~= rest);
}

/// `parse_exec`: splits a `.desktop` `Exec=` value into arguments as the
/// freedesktop specification describes (quoting, escapes, field codes).
pub fn parse_exec(exec: &str) -> (r: Vec<String>)
    ensures
        strings_view(r@) == parse_exec_spec(exec@),
{
    let cs = chars_of(exec);
    let mut args: Vec<Vec<char>> = Vec::new();
    let mut cur: Vec<char> = Vec::new();
    let mut has_tok = false;
    let mut in_quote = false;
    let mut i: usize = 0;
    assert(cs@.subrange(0, cs@.len() as int) =~= cs@);
    assert(args@.map_values(|x: Vec<char>| x@) =~= Seq::<Seq<char>>::empty());
    assert(cur@ =~= Seq::<char>::empty());
    while i < cs.len()
        invariant
            i <= cs@.len(),
            cs@ == exec@,
            exec_tokens(cs@.subrange(i as int, cs@.len() as int), args@.map_values(|x: Vec<char>| x@), cur@,
                has_tok, in_quote) == parse_exec_spec(exec@),
        decreases cs.len() - i,
    {
        let ghost rest = cs@.subrange(i as int, cs@.len() as int);
        let ghost r = rest.drop_first();
        let c = cs[i];
        assert(rest[0] == c);
        assert(r =~= cs@.subrange(i + 1, cs@.len() as int));
        if c == '"' {
            in_quote = !in_quote;
            has_tok = true;
            i = i + 1;
        } else if c == '\\' && in_quote {
            if i + 1 < cs.len() {
                let n = cs[i + 1];
                assert(r[0] == n);
                if n == '"' || n == '\\' || n == '`' || n == '$' {
                    cur.push(n);
                    assert(r.drop_first() =~= cs@.subrange(i + 2, cs@.len() as int));
                    i = i + 2;
                } else {
                    cur.push('\\');
                    i = i + 1;
                }
            } else {
                i = i + 1;
            }
        } else if c == '%' && !in_quote {
            if i + 1 < cs.len() {
                let n = cs[i + 1];
                assert(r[0] == n);
                assert(r.drop_first() =~= cs@.subrange(i + 2, cs@.len() as int));
                if n == '%' {
                    cur.push('%');
                }
                i = i + 2;
            } else {
                i = i + 1;
            }
        } else if is_whitespace(c) && !in_quote {
            if has_tok {
                let ghost before = args@;
                let t = cur;
                cur = Vec::new();
                args.push(t);
                assert(args@.map_values(|x: Vec<char>| x@) =~= before.map_values(|x: Vec<char>| x@).push(
                    t@,
                ));
                assert(cur@ =~= Seq::<char>::empty());
                has_tok = false;
            }
            i = i + 1;
        } else {
            cur.push(c);
            has_tok = true;
            i = i + 1;
        }
    }
    let ghost before = args@;
    if has_tok {
        args.push(cur);
        assert(args@.map_values(|x: Vec<char>| x@) =~= before.map_values(|x: Vec<char>| x@).push(
            args@.last()@,
        ));
    }
    assert(cs@.subrange(i as int, cs@.len() as int) =~= Seq::<char>::empty());
    let mut out: Vec<String> = Vec::new();
    let mut j: usize = 0;
    while j < args.len()
        invariant
            j <= args@.len(),
            strings_view(out@) == args@.take(j as int).map_values(|x: Vec<char>| x@),
        decreases args.len() - j,
    {
        let s = string_from_chars(&args[j]);
        let ghost before_out = out@;
        out.push(s);
        assert(strings_view(out@) =~= strings_view(before_out).push(s@));
        assert(args@.take(j + 1).map_values(|x: Vec<char>| x@) =~= args@.take(j as int).map_values(
            |x: Vec<char>| x@,
        ).push(args@[j as int]@));
        j = j + 1;
    }
    assert(args@.take(args.len() as int) =~= args@);
    out
}

// ---------------------------------------------------------------------------
// [Desktop Entry] keys
// ---------------------------------------------------------------------------

/// The value recorded for `k`: the first entry with that key.
pub open spec fn lookup_spec(es: Seq<(Seq<char>, Seq<char>)>, k: Seq<char>) -> Option<Seq<char>>
    decreases es.len(),
{
    if es.len() == 0 {
        None
    } else if es[0].0 == k {
        Some(es[0].1)
    } else {
        lookup_spec(es.drop_first(), k)
    }
}

/// `[Desktop Entry]`.
pub open spec fn desktop_entry_header() -> Seq<char> {
    seq!['[', 'D', 'e', 's', 'k', 't', 'o', 'p', ' ', 'E', 'n', 't', 'r', 'y', ']']
}

/// The entries after one more (trimmed) line, given whether the line before
/// is inside `[Desktop Entry]`: a `[` line starts a section; inside the
/// section a non-empty, non-`#` line with a `=` adds its trimmed key and
/// value unless the key was seen already.
pub open spec fn entry_step(
    state: (bool, Seq<(Seq<char>, Seq<char>)>),
    line: Seq<char>,
) -> (bool, Seq<(Seq<char>, Seq<char>)>) {
    let (in_section, es) = state;
    if line.len() > 0 && line[0] == '[' {
        (line == desktop_entry_header(), es)
    } else if !in_section || line.len() == 0 || line[0] == '#' {
        (in_section, es)
    } else {
        match first_index_of(line, '=') {
            Some(i) => {
                let k = trim_spec(line.subrange(0, i));
                let v = trim_spec(line.subrange(i + 1, line.len() as int));
                if lookup_spec(es, k) is Some {
                    (in_section, es)
                } else {
                    (in_section, es.push((k, v)))
                }
            },
            None => (in_section, es),
        }
    }
}

/// The state after a sequence of lines.
pub open spec fn entry_fold(ls: Seq<Seq<char>>) -> (bool, Seq<(Seq<char>, Seq<char>)>)
    decreases ls.len(),
{
    if ls.len() == 0 {
        (false, seq![])
    } else {
        entry_step(entry_fold(ls.drop_last()), trim_spec(ls.last()))
    }
}

/// The `[Desktop Entry]` keys of a `.desktop` file's text, each with its
/// first value, in order of first appearance.
pub open spec fn desktop_entry_spec(content: Seq<char>) -> Seq<(Seq<char>, Seq<char>)> {
    entry_fold(lines_spec(content)).1
}

/// The entries of a `.desktop` file.
pub struct DesktopEntry {
    pub entries: Vec<(String, String)>,
}

/// The entries of a `.desktop` file as plain values.
pub open spec fn entries_view(es: Seq<(String, String)>) -> Seq<(Seq<char>, Seq<char>)> {
    es.map_values(|e: (String, String)| (e.0@, e.1@))
}

fn lookup_chars(es: &Vec<(String, String)>, k: &Vec<char>) -> (r: Option<usize>)
    ensures
        match r {
            Some(i) => i < es.len() && lookup_spec(entries_view(es@), k@) == Some(es@[i as int].1@),
            None => lookup_spec(entries_view(es@), k@) is None,
        },
{
    let ghost ev = entries_view(es@);
    let mut i: usize = 0;
    assert(ev.subrange(0, ev.len() as int) =~= ev);
    while i < es.len()
        invariant
            i <= es@.len(),
            ev == entries_view(es@),
            lookup_spec(ev, k@) == lookup_spec(ev.subrange(i as int, ev.len() as int), k@),
        decreases es.len() - i,
    {
        let ghost sub = ev.subrange(i as int, ev.len() as int);
        let kc = chars_of(es[i].0.as_str());
        assert(sub[0] == ev[i as int]);
        assert(sub.drop_first() =~= ev.subrange(i + 1, ev.len() as int));
        if chars_eq(&kc, k) {
            return Some(i);
        }
        i = i + 1;
    }
    assert(ev.subrange(i as int, ev.len() as int) =~= Seq::<(Seq<char>, Seq<char>)>::empty());
    None
}

impl DesktopEntry {
    /// The value of `key`, if the entry has it.
    pub fn get(&self, key: &str) -> (r: Option<String>)
        ensures
            opt_chars(r) == lookup_spec(entries_view(self.entries@), key@),
    {
        let k = chars_of(key);
        match lookup_chars(&self.entries, &k) {
            Some(i) => Some(self.entries[i].1.clone()),
            None => None,
        }
    }

    /// Whether the entry has no keys.
    pub fn is_empty(&self) -> (r: bool)
        ensures
            r == (self.entries@.len() == 0),
    {
        self.entries.len() == 0
    }
}

/// An optional string as characters.
pub open spec fn opt_chars(o: Option<String>) -> Option<Seq<char>> {
    match o {
        Some(s) => Some(s@),
        None => None,
    }
}

/// `parse_desktop_entry` on the text of a `.desktop` file (`None` when it
/// cannot be read, which gives no entries).
pub fn parse_desktop_entry(content: Option<&str>) -> (r: DesktopEntry)
    ensures
        entries_view(r.entries@) == (match content {
            Some(t) => desktop_entry_spec(t@),
            None => seq![],
        }),
{
    let mut es: Vec<(String, String)> = Vec::new();
    let t = match content {
        Some(t) => t,
        None => {
            assert(entries_view(es@) =~= Seq::<(Seq<char>, Seq<char>)>::empty());
            return DesktopEntry { entries: es };
        },
    };
    let tc = chars_of(t);
    let ls = split_lines(&tc);
    let ghost lv = lines_spec(t@);
    let mut in_section = false;
    let mut i: usize = 0;
    let header = chars_of("[Desktop Entry]");
    proof {
        reveal_strlit("[Desktop Entry]");
        assert(header@ =~= desktop_entry_header());
        assert(entries_view(es@) =~= Seq::<(Seq<char>, Seq<char>)>::empty());
        assert(lv.take(0) =~= Seq::<Seq<char>>::empty());
    }
    while i < ls.len()
        invariant
            i <= ls@.len(),
            lv == lines_spec(t@),
            ls@.len() == lv.len(),
            header@ == desktop_entry_header(),
            forall|k: int| 0 <= k < ls@.len() ==> #[trigger] ls@[k]@ == lv[k],
            entry_fold(lv.take(i as int)) == (in_section, entries_view(es@)),
        decreases ls.len() - i,
    {
        let line = trim(&ls[i]);
        proof {
            assert(lv.take(i + 1).drop_last() =~= lv.take(i as int));
            assert(ls@[i as int]@ == lv[i as int]);
        }
        let ghost st = (in_section, entries_view(es@));
        if line.len() > 0 && line[0] == '[' {
            in_section = chars_eq(&line, &header);
        } else if !in_section || line.len() == 0 || line[0] == '#' {
        } else {
            proof {
                lemma_first_index_of(line@, '=');
            }
            match find_char(&line, '=') {
                Some(j) => {
                    let k = trim(&slice_chars(&line, 0, j));
                    let v = trim(&slice_chars(&line, j + 1, line.len()));
                    match lookup_chars(&es, &k) {
                        Some(_) => {},
                        None => {
                            let ghost before = es@;
                            es.push((string_from_chars(&k), string_from_chars(&v)));
                            assert(entries_view(es@) =~= entries_view(before).push((k@, v@)));
                        },
                    }
                },
                None => {},
            }
        }
        assert(entry_fold(lv.take(i + 1)) == entry_step(st, trim_spec(lv[i as int])));
        i = i + 1;
    }
    assert(lv.take(ls.len() as int) =~= lv);
    DesktopEntry { entries: es }
}

// ---------------------------------------------------------------------------
// launching
// ---------------------------------------------------------------------------

/// What launching a `.desktop` entry does.
pub enum LaunchPlan {
    /// The file has no `[Desktop Entry]` keys.
    Invalid,
    /// A `Type=Link` entry: open its URL with the default handler.
    OpenUrl(String),
    /// A `Type=Link` entry without a URL.
    NoUrl,
    /// No `Exec=` key, or an empty one.
    NoExec,
    /// `Exec=` holds no argument.
    EmptyExec,
    /// Spawn a program with arguments, in a working directory if one is set.
    Spawn { program: String, args: Vec<String>, cwd: Option<String> },
}

/// A `LaunchPlan` as plain values.
pub enum LaunchPlanView {
    Invalid,
    OpenUrl(Seq<char>),
    NoUrl,
    NoExec,
    EmptyExec,
    Spawn { program: Seq<char>, args: Seq<Seq<char>>, cwd: Option<Seq<char>> },
}

impl View for LaunchPlan {
    type V = LaunchPlanView;

    open spec fn view(&self) -> LaunchPlanView {
        match self {
            LaunchPlan::Invalid => LaunchPlanView::Invalid,
            LaunchPlan::OpenUrl(u) => LaunchPlanView::OpenUrl(u@),
            LaunchPlan::NoUrl => LaunchPlanView::NoUrl,
            LaunchPlan::NoExec => LaunchPlanView::NoExec,
            LaunchPlan::EmptyExec => LaunchPlanView::EmptyExec,
            LaunchPlan::Spawn { program, args, cwd } => LaunchPlanView::Spawn {
                program: program@,
                args: strings_view(args@),
                cwd: opt_chars(*cwd),
            },
        }
    }
}

/// A key's value when it is present and not empty.
pub open spec fn nonempty_value(es: Seq<(Seq<char>, Seq<char>)>, k: Seq<char>) -> Option<Seq<char>> {
    match lookup_spec(es, k) {
        Some(v) => if v.len() > 0 {
            Some(v)
        } else {
            None
        },
        None => None,
    }
}

/// What launching an entry does: `Type=Link` opens `URL=`; otherwise
/// `Exec=` is tokenized and its first argument run with the rest, through
/// `<terminal> -e` when `Terminal=true` (`terminal`: `$TERMINAL`, else
/// `xterm`), in `Path=` when that is set.
pub open spec fn launch_plan_spec(es: Seq<(Seq<char>, Seq<char>)>, terminal: Option<Seq<char>>) -> LaunchPlanView {
    if es.len() == 0 {
        LaunchPlanView::Invalid
    } else if lookup_spec(es, "Type"@) == Some("Link"@) {
        match nonempty_value(es, "URL"@) {
            Some(u) => LaunchPlanView::OpenUrl(u),
            None => LaunchPlanView::NoUrl,
        }
    } else {
        match nonempty_value(es, "Exec"@) {
            None => LaunchPlanView::NoExec,
            Some(e) => {
                let toks = parse_exec_spec(e);
                if toks.len() == 0 {
                    LaunchPlanView::EmptyExec
                } else if lookup_spec(es, "Terminal"@) == Some("true"@) {
                    LaunchPlanView::Spawn {
                        program: match terminal {
                            Some(t) => t,
                            None => "xterm"@,
                        },
                        args: seq!["-e"@, toks[0]] + toks.drop_first(),
                        cwd: nonempty_value(es, "Path"@),
                    }
                } else {
                    LaunchPlanView::Spawn {
                        program: toks[0],
                        args: toks.drop_first(),
                        cwd: nonempty_value(es, "Path"@),
                    }
                }
            },
        }
    }
}

fn nonempty_get(entry: &DesktopEntry, key: &str) -> (r: Option<String>)
    ensures
        opt_chars(r) == nonempty_value(entries_view(entry.entries@), key@),
{
    match entry.get(key) {
        Some(v) => if v.as_str().unicode_len() > 0 {
            Some(v)
        } else {
            None
        },
        None => None,
    }
}

fn value_is(entry: &DesktopEntry, key: &str, expected: &str) -> (r: bool)
    ensures
        r == (lookup_spec(entries_view(entry.entries@), key@) == Some(expected@)),
{
    match entry.get(key) {
        Some(v) => {
            let a = chars_of(v.as_str());
            let b = chars_of(expected);
            chars_eq(&a, &b)
        },
        None => false,
    }
}

/// Decides how to launch a `.desktop` entry.
pub fn launch_plan(entry: &DesktopEntry, terminal: Option<String>) -> (r: LaunchPlan)
    ensures
        r@ == launch_plan_spec(entries_view(entry.entries@), opt_chars(terminal)),
{
    let ghost es = entries_view(entry.entries@);
    if entry.is_empty() {
        return LaunchPlan::Invalid;
    }
    if value_is(entry, "Type", "Link") {
        return match nonempty_get(entry, "URL") {
            Some(u) => LaunchPlan::OpenUrl(u),
            None => LaunchPlan::NoUrl,
        };
    }
    let exec = match nonempty_get(entry, "Exec") {
        Some(e) => e,
        None => {
            return LaunchPlan::NoExec;
        },
    };
    let toks = parse_exec(exec.as_str());
    if toks.len() == 0 {
        return LaunchPlan::EmptyExec;
    }
    let cwd = nonempty_get(entry, "Path");
    let ghost tv = strings_view(toks@);
    let mut rest: Vec<String> = Vec::new();
    let mut i: usize = 1;
    while i < toks.len()
        invariant
            1 <= i <= toks@.len(),
            tv == strings_view(toks@),
            strings_view(rest@) == tv.subrange(1, i as int),
        decreases toks.len() - i,
    {
        let ghost before = rest@;
        rest.push(toks[i].clone());
        assert(strings_view(rest@) =~= strings_view(before).push(toks@[i as int]@));
        assert(tv.subrange(1, i + 1) =~= tv.subrange(1, i as int).push(tv[i as int]));
        i = i + 1;
    }
    assert(tv.subrange(1, toks@.len() as int) =~= tv.drop_first());
    let first = toks[0].clone();
    if value_is(entry, "Terminal", "true") {
        let program = match terminal {
            Some(t) => t,
            None => String::from_str("xterm"),
        };
        let mut args: Vec<String> = Vec::new();
        args.push(String::from_str("-e"));
        args.push(first);
        let ghost before = args@;
        let mut j: usize = 0;
        while j < rest.len()
            invariant
                j <= rest@.len(),
                args@.len() == 2 + j,
                strings_view(args@) == seq!["-e"@, tv[0]] + strings_view(rest@).take(j as int),
            decreases rest.len() - j,
        {
            let ghost b2 = args@;
            args.push(rest[j].clone());
            assert(strings_view(args@) =~= strings_view(b2).push(rest@[j as int]@));
            assert(strings_view(rest@).take(j + 1) =~= strings_view(rest@).take(j as int).push(
                rest@[j as int]@,
            ));
            j = j + 1;
        }
        assert(strings_view(rest@).take(rest@.len() as int) =~= strings_view(rest@));
        LaunchPlan::Spawn { program, args, cwd }
    } else {
        LaunchPlan::Spawn { program: first, args: rest, cwd }
    }
}

// ---------------------------------------------------------------------------
// Icon=
// ---------------------------------------------------------------------------

/// The icon a `.desktop` file names: the trimmed value of the first line
/// that starts with `Icon=`, else `application-x-executable` (also when the
/// file cannot be read).
pub open spec fn desktop_icon_spec(content: Option<Seq<char>>) -> Seq<char> {
    match content {
        Some(t) => icon_line_value(lines_spec(t)),
        None => "application-x-executable"@,
    }
}

/// `Icon=`.
pub open spec fn icon_key() -> Seq<char> {
    seq!['I', 'c', 'o', 'n', '=']
}

/// The value of the first `Icon=` line, else the executable icon.
pub open spec fn icon_line_value(ls: Seq<Seq<char>>) -> Seq<char>
    decreases ls.len(),
{
    if ls.len() == 0 {
        "application-x-executable"@
    } else if has_prefix(ls[0], icon_key()) {
        trim_spec(ls[0].subrange(5, ls[0].len() as int))
    } else {
        icon_line_value(ls.drop_first())
    }
}

/// The icon name of a `.desktop` file from its text (`None`: unreadable).
pub fn desktop_icon_name(content: Option<&str>) -> (r: String)
    ensures
        r@ == desktop_icon_spec(match content {
            Some(t) => Some(t@),
            None => None,
        }),
{
    let t = match content {
        Some(t) => t,
        None => {
            return String::from_str("application-x-executable");
        },
    };
    let tc = chars_of(t);
    let ls = split_lines(&tc);
    let ghost lv = lines_spec(t@);
    let key = chars_of("Icon=");
    proof {
        reveal_strlit("Icon=");
        assert(key@ =~= icon_key());
    }
    let mut i: usize = 0;
    assert(lv.subrange(0, lv.len() as int) =~= lv);
    while i < ls.len()
        invariant
            i <= ls@.len(),
            ls@.len() == lv.len(),
            key@ == icon_key(),
            lv == lines_spec(t@),
            content == Some(t),
            forall|k: int| 0 <= k < ls@.len() ==> #[trigger] ls@[k]@ == lv[k],
            icon_line_value(lv) == icon_line_value(lv.subrange(i as int, lv.len() as int)),
        decreases ls.len() - i,
    {
        let ghost sub = lv.subrange(i as int, lv.len() as int);
        assert(sub[0] == lv[i as int]);
        assert(ls@[i as int]@ == lv[i as int]);
        if starts_with(&ls[i], &key) {
            let v = trim(&slice_chars(&ls[i], 5, ls[i].len()));
            proof {
                assert(sub.len() > 0);
                assert(has_prefix(sub[0], icon_key()));
                assert(v@ == trim_spec(sub[0].subrange(5, sub[0].len() as int)));
                assert(icon_line_value(sub) == v@);
            }
            return string_from_chars(&v);
        }
        assert(sub.drop_first() =~= lv.subrange(i + 1, lv.len() as int));
        i = i + 1;
    }
    assert(lv.subrange(i as int, lv.len() as int) =~= Seq::<Seq<char>>::empty());
    String::from_str("application-x-executable")
}

} // verus!
