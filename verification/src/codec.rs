//! The durable form of the shortlist: a JSON array of objects
//! `{"tab_name": ..., "pane_title": ...}`, one file per session. This
//! module defines the format — the writer below emits it and the reader
//! accepts it with arbitrary whitespace between tokens, the two object
//! keys in either order, and the string escapes `\" \\ \/ \n \t \r \b
//! \f`. Characters outside those escapes stand for themselves.

use vstd::prelude::*;
use vstd::string::StrSliceExecFns;
use vstd::string::StringExecFns;
use crate::model::{bookmark_keys, PaneBookmark};

verus! {

/// Whitespace accepted between tokens.
pub open spec fn spec_is_ws(c: char) -> bool {
    c == ' ' || c == '\t' || c == '\n' || c == '\r'
}

/// The first position at or after `i` that holds no whitespace.
pub open spec fn spec_skip_ws(s: Seq<char>, i: int) -> int
    decreases s.len() - i,
    when 0 <= i <= s.len()
{
    if i < s.len() && spec_is_ws(s[i]) {
        spec_skip_ws(s, i + 1)
    } else {
        i
    }
}

pub proof fn lemma_skip_ws_bounds(s: Seq<char>, i: int)
    requires
        0 <= i <= s.len(),
    ensures
        i <= spec_skip_ws(s, i) <= s.len(),
    decreases s.len() - i,
{
    if i < s.len() && spec_is_ws(s[i]) {
        lemma_skip_ws_bounds(s, i + 1);
    }
}

/// The character stood for by a backslash escape, if the escape is
/// accepted.
pub open spec fn spec_unescape(c: char) -> Option<char> {
    if c == '"' {
        Some('"')
    } else if c == '\\' {
        Some('\\')
    } else if c == '/' {
        Some('/')
    } else if c == 'n' {
        Some('\n')
    } else if c == 't' {
        Some('\t')
    } else if c == 'r' {
        Some('\r')
    } else if c == 'b' {
        Some('\u{8}')
    } else if c == 'f' {
        Some('\u{c}')
    } else {
        None
    }
}

/// Parses the body of a string literal, starting just after the opening
/// quote; yields the decoded content and the position after the closing
/// quote.
pub open spec fn spec_parse_string_body(s: Seq<char>, i: int) -> Option<(Seq<char>, int)>
    decreases s.len() - i,
    when 0 <= i <= s.len()
{
    if i >= s.len() {
        None
    } else if s[i] == '"' {
        Some((Seq::empty(), i + 1))
    } else if s[i] == '\\' {
        if i + 1 < s.len() {
            match spec_unescape(s[i + 1]) {
                Some(c) => match spec_parse_string_body(s, i + 2) {
                    Some((t, e)) => Some((seq![c] + t, e)),
                    None => None,
                },
                None => None,
            }
        } else {
            None
        }
    } else {
        match spec_parse_string_body(s, i + 1) {
            Some((t, e)) => Some((seq![s[i]] + t, e)),
            None => None,
        }
    }
}

pub proof fn lemma_parse_string_body_bounds(s: Seq<char>, i: int)
    requires
        0 <= i <= s.len(),
    ensures
        spec_parse_string_body(s, i) matches Some(r) ==> i < r.1 <= s.len(),
    decreases s.len() - i,
{
    if i < s.len() && s[i] != '"' {
        if s[i] == '\\' {
            if i + 1 < s.len() {
                lemma_parse_string_body_bounds(s, i + 2);
            }
        } else {
            lemma_parse_string_body_bounds(s, i + 1);
        }
    }
}

/// Parses a quoted string at `i`.
pub open spec fn spec_parse_string(s: Seq<char>, i: int) -> Option<(Seq<char>, int)> {
    if 0 <= i < s.len() && s[i] == '"' {
        spec_parse_string_body(s, i + 1)
    } else {
        None
    }
}

pub proof fn lemma_parse_string_bounds(s: Seq<char>, i: int)
    requires
        0 <= i <= s.len(),
    ensures
        spec_parse_string(s, i) matches Some(r) ==> i < r.1 <= s.len(),
{
    if i < s.len() && s[i] == '"' {
        lemma_parse_string_body_bounds(s, i + 1);
    }
}

/// Parses one `"key" : "value"` member.
pub open spec fn spec_parse_member(s: Seq<char>, i: int) -> Option<((Seq<char>, Seq<char>), int)> {
    match spec_parse_string(s, i) {
        Some((k, j)) => {
            let j2 = spec_skip_ws(s, j);
            if j2 < s.len() && s[j2] == ':' {
                let j3 = spec_skip_ws(s, j2 + 1);
                match spec_parse_string(s, j3) {
                    Some((v, e)) => Some(((k, v), e)),
                    None => None,
                }
            } else {
                None
            }
        },
        None => None,
    }
}

pub proof fn lemma_parse_member_bounds(s: Seq<char>, i: int)
    requires
        0 <= i <= s.len(),
    ensures
        spec_parse_member(s, i) matches Some(r) ==> i < r.1 <= s.len(),
{
    lemma_parse_string_bounds(s, i);
    if let Some((k, j)) = spec_parse_string(s, i) {
        lemma_skip_ws_bounds(s, j);
        let j2 = spec_skip_ws(s, j);
        if j2 < s.len() && s[j2] == ':' {
            lemma_skip_ws_bounds(s, j2 + 1);
            let j3 = spec_skip_ws(s, j2 + 1);
            lemma_parse_string_bounds(s, j3);
        }
    }
}

/// The (tab name, pane title) pair of an object whose two keys are
/// exactly `tab_name` and `pane_title`, in either order.
pub open spec fn spec_object_value(
    k1: Seq<char>,
    v1: Seq<char>,
    k2: Seq<char>,
    v2: Seq<char>,
) -> Option<(Seq<char>, Seq<char>)> {
    if k1 == "tab_name"@ && k2 == "pane_title"@ {
        Some((v1, v2))
    } else if k1 == "pane_title"@ && k2 == "tab_name"@ {
        Some((v2, v1))
    } else {
        None
    }
}

/// Parses one bookmark object.
pub open spec fn spec_parse_object(s: Seq<char>, i: int) -> Option<((Seq<char>, Seq<char>), int)> {
    if 0 <= i < s.len() && s[i] == '{' {
        let j = spec_skip_ws(s, i + 1);
        match spec_parse_member(s, j) {
            Some(((k1, v1), e1)) => {
                let j2 = spec_skip_ws(s, e1);
                if j2 < s.len() && s[j2] == ',' {
                    let j3 = spec_skip_ws(s, j2 + 1);
                    match spec_parse_member(s, j3) {
                        Some(((k2, v2), e2)) => {
                            let j4 = spec_skip_ws(s, e2);
                            if j4 < s.len() && s[j4] == '}' {
                                match spec_object_value(k1, v1, k2, v2) {
                                    Some(kv) => Some((kv, j4 + 1)),
                                    None => None,
                                }
                            } else {
                                None
                            }
                        },
                        None => None,
                    }
                } else {
                    None
                }
            },
            None => None,
        }
    } else {
        None
    }
}

pub proof fn lemma_parse_object_bounds(s: Seq<char>, i: int)
    requires
        0 <= i <= s.len(),
    ensures
        spec_parse_object(s, i) matches Some(r) ==> i < r.1 <= s.len(),
{
    if 0 <= i < s.len() && s[i] == '{' {
        lemma_skip_ws_bounds(s, i + 1);
        let j = spec_skip_ws(s, i + 1);
        lemma_parse_member_bounds(s, j);
        if let Some(((k1, v1), e1)) = spec_parse_member(s, j) {
            lemma_skip_ws_bounds(s, e1);
            let j2 = spec_skip_ws(s, e1);
            if j2 < s.len() && s[j2] == ',' {
                lemma_skip_ws_bounds(s, j2 + 1);
                let j3 = spec_skip_ws(s, j2 + 1);
                lemma_parse_member_bounds(s, j3);
                if let Some(((k2, v2), e2)) = spec_parse_member(s, j3) {
                    lemma_skip_ws_bounds(s, e2);
                }
            }
        }
    }
}

/// Parses the elements after the first one: any number of `, object`,
/// then the closing bracket. The position guard only restates what the
/// bounds lemmas prove, so that the recursion visibly terminates.
pub open spec fn spec_parse_more_items(s: Seq<char>, i: int) -> Option<
    (Seq<(Seq<char>, Seq<char>)>, int),
>
    decreases s.len() - i,
    when 0 <= i <= s.len()
{
    let j = spec_skip_ws(s, i);
    if j < s.len() && s[j] == ']' {
        Some((Seq::empty(), j + 1))
    } else if j < s.len() && s[j] == ',' {
        let j2 = spec_skip_ws(s, j + 1);
        match spec_parse_object(s, j2) {
            Some((kv, e)) => if i < e <= s.len() {
                match spec_parse_more_items(s, e) {
                    Some((rest, e2)) => Some((seq![kv] + rest, e2)),
                    None => None,
                }
            } else {
                None
            },
            None => None,
        }
    } else {
        None
    }
}

pub proof fn lemma_parse_more_items_bounds(s: Seq<char>, i: int)
    requires
        0 <= i <= s.len(),
    ensures
        spec_parse_more_items(s, i) matches Some(r) ==> i < r.1 <= s.len(),
    decreases s.len() - i,
{
    lemma_skip_ws_bounds(s, i);
    let j = spec_skip_ws(s, i);
    if j < s.len() && s[j] == ']' {
    } else if j < s.len() && s[j] == ',' {
        lemma_skip_ws_bounds(s, j + 1);
        let j2 = spec_skip_ws(s, j + 1);
        lemma_parse_object_bounds(s, j2);
        if let Some((kv, e)) = spec_parse_object(s, j2) {
            if i < e <= s.len() {
                lemma_parse_more_items_bounds(s, e);
            }
        }
    }
}

/// Parses a whole array of bookmark objects.
pub open spec fn spec_parse_array(s: Seq<char>, i: int) -> Option<
    (Seq<(Seq<char>, Seq<char>)>, int),
> {
    if 0 <= i < s.len() && s[i] == '[' {
        let j = spec_skip_ws(s, i + 1);
        if j < s.len() && s[j] == ']' {
            Some((Seq::empty(), j + 1))
        } else {
            match spec_parse_object(s, j) {
                Some((kv, e)) => if i < e <= s.len() {
                    match spec_parse_more_items(s, e) {
                        Some((rest, e2)) => Some((seq![kv] + rest, e2)),
                        None => None,
                    }
                } else {
                    None
                },
                None => None,
            }
        }
    } else {
        None
    }
}

pub proof fn lemma_parse_array_bounds(s: Seq<char>, i: int)
    requires
        0 <= i <= s.len(),
    ensures
        spec_parse_array(s, i) matches Some(r) ==> i < r.1 <= s.len(),
{
    if 0 <= i < s.len() && s[i] == '[' {
        lemma_skip_ws_bounds(s, i + 1);
        let j = spec_skip_ws(s, i + 1);
        if j < s.len() && s[j] == ']' {
        } else {
            lemma_parse_object_bounds(s, j);
            if let Some((kv, e)) = spec_parse_object(s, j) {
                if i < e <= s.len() {
                    lemma_parse_more_items_bounds(s, e);
                }
            }
        }
    }
}

/// Parses a whole durable payload: one array with nothing but whitespace
/// around it. Yields the (tab name, pane title) keys in array order.
pub open spec fn spec_parse_bookmarks(s: Seq<char>) -> Option<Seq<(Seq<char>, Seq<char>)>> {
    let i = spec_skip_ws(s, 0);
    match spec_parse_array(s, i) {
        Some((kvs, e)) => if 0 <= e <= s.len() && spec_skip_ws(s, e) == s.len() {
            Some(kvs)
        } else {
            None
        },
        None => None,
    }
}

/// What the writer emits for one character of a string.
pub open spec fn spec_escape_char(c: char) -> Seq<char> {
    if c == '"' {
        "\\\""@
    } else if c == '\\' {
        "\\\\"@
    } else if c == '\n' {
        "\\n"@
    } else if c == '\t' {
        "\\t"@
    } else if c == '\r' {
        "\\r"@
    } else if c == '\u{8}' {
        "\\b"@
    } else if c == '\u{c}' {
        "\\f"@
    } else {
        seq![c]
    }
}

/// The escaped form of a whole string.
pub open spec fn spec_escape(s: Seq<char>) -> Seq<char>
    decreases s.len(),
{
    if s.len() == 0 {
        Seq::empty()
    } else {
        spec_escape(s.drop_last()) + spec_escape_char(s.last())
    }
}

/// A quoted, escaped string literal.
pub open spec fn spec_quote(s: Seq<char>) -> Seq<char> {
    "\""@ + spec_escape(s) + "\""@
}

/// The canonical emitted form of one bookmark object.
pub open spec fn spec_encode_object(b: PaneBookmark) -> Seq<char> {
    "{"@ + spec_quote("tab_name"@) + ":"@ + spec_quote(b.tab_name@) + ","@ + spec_quote(
        "pane_title"@,
    ) + ":"@ + spec_quote(b.pane_title@) + "}"@
}

/// The comma-separated bookmark objects.
pub open spec fn spec_encode_list(bs: Seq<PaneBookmark>) -> Seq<char>
    decreases bs.len(),
{
    if bs.len() == 0 {
        Seq::empty()
    } else if bs.len() == 1 {
        spec_encode_object(bs[0])
    } else {
        spec_encode_list(bs.drop_last()) + ","@ + spec_encode_object(bs.last())
    }
}

/// The canonical emitted form of a whole durable payload.
pub open spec fn spec_encode_bookmarks(bs: Seq<PaneBookmark>) -> Seq<char> {
    "["@ + spec_encode_list(bs) + "]"@
}

/// The escaped form, read off from the front.
proof fn lemma_escape_front(s: Seq<char>)
    requires
        s.len() > 0,
    ensures
        spec_escape(s) == spec_escape_char(s[0]) + spec_escape(s.drop_first()),
    decreases s.len(),
{
    if s.len() == 1 {
        assert(s.drop_last() =~= Seq::<char>::empty());
        assert(s.drop_first() =~= Seq::<char>::empty());
        assert(spec_escape(s) =~= spec_escape_char(s[0]) + spec_escape(s.drop_first()));
    } else {
        let dl = s.drop_last();
        lemma_escape_front(dl);
        assert(s.drop_first().drop_last() =~= dl.drop_first());
        assert(s.drop_first().last() == s.last());
        assert(spec_escape(s.drop_first()) == spec_escape(dl.drop_first()) + spec_escape_char(
            s.last(),
        ));
        assert(spec_escape_char(s[0]) + (spec_escape(dl.drop_first()) + spec_escape_char(s.last()))
            =~= (spec_escape_char(s[0]) + spec_escape(dl.drop_first())) + spec_escape_char(
            s.last(),
        ));
    }
}

/// What the writer emits for one character, read back: either the
/// character itself, unescaped and not special, or a two-character
/// escape that decodes to it.
proof fn lemma_escape_char_cases(c: char)
    ensures
        spec_escape_char(c).len() == 1 ==> spec_escape_char(c) == seq![c] && c != '"' && c != '\\',
        spec_escape_char(c).len() == 2 ==> spec_escape_char(c)[0] == '\\' && spec_unescape(
            spec_escape_char(c)[1],
        ) == Some(c),
        spec_escape_char(c).len() == 1 || spec_escape_char(c).len() == 2,
{
    reveal_strlit("\\\"");
    reveal_strlit("\\\\");
    reveal_strlit("\\n");
    reveal_strlit("\\t");
    reveal_strlit("\\r");
    reveal_strlit("\\b");
    reveal_strlit("\\f");
    if c == '"' || c == '\\' || c == '\n' || c == '\t' || c == '\r' || c == '\u{8}' || c
        == '\u{c}' {
    } else {
        assert(spec_escape_char(c) == seq![c]);
    }
}

/// The parser reads back from an emitted string body exactly the string
/// that was written: at a position followed by the escaped content, the
/// closing quote, and anything after, the body parse yields the content
/// and stops after the quote.
proof fn lemma_parse_body_of_escaped(p: Seq<char>, t: Seq<char>, u: Seq<char>)
    ensures
        ({
            let s = p + spec_escape(t) + seq!['"'] + u;
            spec_parse_string_body(s, p.len() as int) == Some(
                (t, p.len() as int + spec_escape(t).len() as int + 1),
            )
        }),
    decreases t.len(),
{
    let s = p + spec_escape(t) + seq!['"'] + u;
    let i = p.len() as int;
    if t.len() == 0 {
        assert(spec_escape(t) =~= Seq::<char>::empty());
        assert(s[i] == '"');
        assert(spec_parse_string_body(s, i) == Some((Seq::<char>::empty(), i + 1)));
        assert(t =~= Seq::<char>::empty());
    } else {
        lemma_escape_front(t);
        let e0 = spec_escape_char(t[0]);
        let t1 = t.drop_first();
        lemma_escape_char_cases(t[0]);
        let p2 = p + e0;
        assert(s =~= p2 + spec_escape(t1) + seq!['"'] + u);
        lemma_parse_body_of_escaped(p2, t1, u);
        let inner = spec_parse_string_body(s, p2.len() as int);
        assert(inner == Some((t1, p2.len() as int + spec_escape(t1).len() as int + 1)));
        if e0.len() == 1 {
            assert(s[i] == t[0]);
            assert(t[0] != '"' && t[0] != '\\');
            assert(i + 1 == p2.len() as int);
            assert(spec_parse_string_body(s, i) == Some(
                (seq![t[0]] + t1, p2.len() as int + spec_escape(t1).len() as int + 1),
            ));
            assert(seq![t[0]] + t1 =~= t);
            assert(spec_escape(t).len() == 1 + spec_escape(t1).len());
        } else {
            assert(s[i] == e0[0] && s[i + 1] == e0[1]);
            assert(s[i] == '\\');
            assert(i + 1 < s.len());
            assert(spec_unescape(s[i + 1]) == Some(t[0]));
            assert(i + 2 == p2.len() as int);
            assert(spec_parse_string_body(s, i) == Some(
                (seq![t[0]] + t1, p2.len() as int + spec_escape(t1).len() as int + 1),
            ));
            assert(seq![t[0]] + t1 =~= t);
            assert(spec_escape(t).len() == 2 + spec_escape(t1).len());
        }
    }
}

/// The parser reads back an emitted quoted string exactly.
proof fn lemma_parse_string_of_quote(p: Seq<char>, t: Seq<char>, u: Seq<char>)
    ensures
        ({
            let s = p + spec_quote(t) + u;
            spec_parse_string(s, p.len() as int) == Some((t, p.len() as int + spec_quote(t).len() as int))
        }),
{
    let s = p + spec_quote(t) + u;
    let i = p.len() as int;
    reveal_strlit("\"");
    assert(("\"")@ =~= seq!['"']);
    assert(s =~= (p + seq!['"']) + spec_escape(t) + seq!['"'] + u);
    assert(s[i] == '"');
    lemma_parse_body_of_escaped(p + seq!['"'], t, u);
    assert(spec_parse_string_body(s, i + 1) == Some((t, i + 1 + spec_escape(t).len() + 1)));
    assert(spec_quote(t).len() == spec_escape(t).len() + 2);
}

/// The parser reads back an emitted `"key":"value"` member exactly.
proof fn lemma_parse_member_of_encoded(p: Seq<char>, k: Seq<char>, v: Seq<char>, u: Seq<char>)
    ensures
        ({
            let s = p + spec_quote(k) + ":"@ + spec_quote(v) + u;
            spec_parse_member(s, p.len() as int) == Some(
                (
                    (k, v),
                    p.len() as int + spec_quote(k).len() as int + 1 + spec_quote(v).len() as int,
                ),
            )
        }),
{
    let s = p + spec_quote(k) + ":"@ + spec_quote(v) + u;
    let i = p.len() as int;
    reveal_strlit(":");
    assert((":")@ =~= seq![':']);
    reveal_strlit("\"");
    assert(("\"")@ =~= seq!['"']);
    assert(s =~= p + spec_quote(k) + (":"@ + spec_quote(v) + u));
    lemma_parse_string_of_quote(p, k, ":"@ + spec_quote(v) + u);
    let j = i + spec_quote(k).len() as int;
    assert(spec_parse_string(s, i) == Some((k, j)));
    let p2 = p + spec_quote(k) + ":"@;
    assert(s =~= p2 + spec_quote(v) + u);
    assert(s[j] == ':');
    assert(!spec_is_ws(':'));
    assert(spec_skip_ws(s, j) == j);
    assert(s[j + 1] == spec_quote(v)[0]);
    assert(spec_quote(v)[0] == '"');
    assert(spec_skip_ws(s, j + 1) == j + 1);
    lemma_parse_string_of_quote(p2, v, u);
    assert(p2.len() as int == j + 1);
    assert(spec_parse_string(s, j + 1) == Some((v, j + 1 + spec_quote(v).len() as int)));
}

/// The parser reads back an emitted bookmark object exactly.
#[verifier::rlimit(80)]
proof fn lemma_parse_object_of_encoded(p: Seq<char>, b: PaneBookmark, u: Seq<char>)
    ensures
        ({
            let s = p + spec_encode_object(b) + u;
            spec_parse_object(s, p.len() as int) == Some(
                (
                    (b.tab_name@, b.pane_title@),
                    p.len() as int + spec_encode_object(b).len() as int,
                ),
            )
        }),
{
    let s = p + spec_encode_object(b) + u;
    let i = p.len() as int;
    reveal_strlit("{");
    assert(("{")@ =~= seq!['{']);
    reveal_strlit("}");
    assert(("}")@ =~= seq!['}']);
    reveal_strlit(",");
    assert((",")@ =~= seq![',']);
    reveal_strlit("\"");
    assert(("\"")@ =~= seq!['"']);
    reveal_strlit(":");
    assert((":")@ =~= seq![':']);
    let m1 = spec_quote("tab_name"@) + ":"@ + spec_quote(b.tab_name@);
    let m2 = spec_quote("pane_title"@) + ":"@ + spec_quote(b.pane_title@);
    assert(spec_encode_object(b) =~= "{"@ + m1 + ","@ + m2 + "}"@);
    assert(s =~= (p + "{"@) + m1 + (","@ + m2 + "}"@ + u));
    let p1 = p + "{"@;
    assert(s[i] == '{');
    assert(s[i + 1] == spec_quote("tab_name"@)[0]);
    assert(spec_quote("tab_name"@)[0] == '"');
    assert(spec_skip_ws(s, i + 1) == i + 1);
    let su = ","@ + m2 + "}"@ + u;
    let sm = p1 + spec_quote("tab_name"@) + ":"@ + spec_quote(b.tab_name@) + su;
    assert(s =~= sm);
    lemma_parse_member_of_encoded(p1, "tab_name"@, b.tab_name@, su);
    let e1 = p1.len() as int + m1.len() as int;
    assert(p1.len() as int == i + 1);
    assert(spec_parse_member(sm, p1.len() as int) == Some(
        (
            ("tab_name"@, b.tab_name@),
            p1.len() as int + spec_quote("tab_name"@).len() as int + 1 + spec_quote(
                b.tab_name@,
            ).len() as int,
        ),
    ));
    assert(e1 == p1.len() as int + spec_quote("tab_name"@).len() as int + 1 + spec_quote(
        b.tab_name@,
    ).len() as int);
    assert(spec_parse_member(s, i + 1) == Some((("tab_name"@, b.tab_name@), e1)));
    let p3 = p1 + m1 + ","@;
    assert(s =~= p3 + m2 + ("}"@ + u));
    assert(s[e1] == ',');
    assert(spec_skip_ws(s, e1) == e1);
    assert(s[e1 + 1] == spec_quote("pane_title"@)[0]);
    assert(spec_quote("pane_title"@)[0] == '"');
    assert(spec_skip_ws(s, e1 + 1) == e1 + 1);
    assert(s =~= p3 + spec_quote("pane_title"@) + ":"@ + spec_quote(b.pane_title@) + ("}"@ + u));
    lemma_parse_member_of_encoded(p3, "pane_title"@, b.pane_title@, "}"@ + u);
    let e2 = p3.len() as int + m2.len() as int;
    assert(p3.len() as int == e1 + 1);
    assert(spec_parse_member(s, e1 + 1) == Some((("pane_title"@, b.pane_title@), e2)));
    assert(s[e2] == '}');
    assert(spec_skip_ws(s, e2) == e2);
    assert(spec_object_value("tab_name"@, b.tab_name@, "pane_title"@, b.pane_title@) == Some(
        (b.tab_name@, b.pane_title@),
    ));
    assert(e2 + 1 == i + spec_encode_object(b).len() as int);
}

/// The encoded elements after the first: a comma and an object for each.
spec fn spec_encode_items_tail(bs: Seq<PaneBookmark>) -> Seq<char>
    decreases bs.len(),
{
    if bs.len() == 0 {
        Seq::empty()
    } else {
        ","@ + spec_encode_object(bs[0]) + spec_encode_items_tail(bs.drop_first())
    }
}

proof fn lemma_encode_tail_snoc(y: Seq<PaneBookmark>, z: PaneBookmark)
    ensures
        spec_encode_items_tail(y.push(z)) == spec_encode_items_tail(y) + ","@ + spec_encode_object(
            z,
        ),
    decreases y.len(),
{
    if y.len() == 0 {
        assert(y.push(z)[0] == z);
        assert(y.push(z).drop_first() =~= Seq::<PaneBookmark>::empty());
        assert(spec_encode_items_tail(y.push(z).drop_first()) =~= Seq::<char>::empty());
        assert(spec_encode_items_tail(y) =~= Seq::<char>::empty());
        assert(spec_encode_items_tail(y.push(z)) =~= spec_encode_items_tail(y) + ","@
            + spec_encode_object(z));
    } else {
        assert(y.push(z)[0] == y[0]);
        assert(y.push(z).drop_first() =~= y.drop_first().push(z));
        lemma_encode_tail_snoc(y.drop_first(), z);
        assert(","@ + spec_encode_object(y[0]) + (spec_encode_items_tail(y.drop_first()) + ","@
            + spec_encode_object(z)) =~= (","@ + spec_encode_object(y[0]) + spec_encode_items_tail(
            y.drop_first(),
        )) + ","@ + spec_encode_object(z));
    }
}

/// The encoded list, read off from the front.
proof fn lemma_encode_list_front(bs: Seq<PaneBookmark>)
    requires
        bs.len() > 0,
    ensures
        spec_encode_list(bs) == spec_encode_object(bs[0]) + spec_encode_items_tail(
            bs.drop_first(),
        ),
    decreases bs.len(),
{
    if bs.len() == 1 {
        assert(bs.drop_first() =~= Seq::<PaneBookmark>::empty());
        assert(spec_encode_list(bs) =~= spec_encode_object(bs[0]) + spec_encode_items_tail(
            bs.drop_first(),
        ));
    } else {
        let dl = bs.drop_last();
        lemma_encode_list_front(dl);
        assert(bs.drop_first() =~= dl.drop_first().push(bs.last()));
        lemma_encode_tail_snoc(dl.drop_first(), bs.last());
        assert(spec_encode_object(bs[0]) + (spec_encode_items_tail(dl.drop_first()) + ","@
            + spec_encode_object(bs.last())) =~= (spec_encode_object(bs[0])
            + spec_encode_items_tail(dl.drop_first())) + ","@ + spec_encode_object(bs.last()));
    }
}

/// The parser reads back the encoded elements after the first exactly.
#[verifier::rlimit(80)]
proof fn lemma_parse_more_of_tail(p: Seq<char>, bs: Seq<PaneBookmark>, u: Seq<char>)
    ensures
        ({
            let s = p + spec_encode_items_tail(bs) + "]"@ + u;
            spec_parse_more_items(s, p.len() as int) == Some(
                (
                    bookmark_keys(bs),
                    p.len() as int + spec_encode_items_tail(bs).len() as int + 1,
                ),
            )
        }),
    decreases bs.len(),
{
    let s = p + spec_encode_items_tail(bs) + "]"@ + u;
    let i = p.len() as int;
    reveal_strlit("]");
    assert(("]")@ =~= seq![']']);
    reveal_strlit(",");
    assert((",")@ =~= seq![',']);
    reveal_strlit("{");
    assert(("{")@ =~= seq!['{']);
    if bs.len() == 0 {
        assert(spec_encode_items_tail(bs) =~= Seq::<char>::empty());
        assert(s =~= (p + "]"@) + u);
        assert(s[i] == ']');
        assert(spec_skip_ws(s, i) == i);
        assert(bookmark_keys(bs) =~= Seq::<(Seq<char>, Seq<char>)>::empty());
    } else {
        let b0 = bs[0];
        let rest = bs.drop_first();
        assert(s =~= (p + ","@) + spec_encode_object(b0) + (spec_encode_items_tail(rest) + "]"@
            + u));
        assert(s[i] == ',');
        assert(spec_skip_ws(s, i) == i);
        let p1 = p + ","@;
        lemma_parse_object_of_encoded(p1, b0, spec_encode_items_tail(rest) + "]"@ + u);
        let e = p1.len() as int + spec_encode_object(b0).len() as int;
        assert(spec_parse_object(s, i + 1) == Some(((b0.tab_name@, b0.pane_title@), e)));
        assert(i < e <= s.len());
        let p2 = p1 + spec_encode_object(b0);
        assert(s =~= p2 + spec_encode_items_tail(rest) + "]"@ + u);
        lemma_parse_more_of_tail(p2, rest, u);
        assert(p2.len() as int == e);
        let tail_end = e + spec_encode_items_tail(rest).len() as int + 1;
        assert(spec_parse_more_items(s, e) == Some((bookmark_keys(rest), tail_end)));
        assert(seq![(b0.tab_name@, b0.pane_title@)] + bookmark_keys(rest) =~= bookmark_keys(bs));
        assert(tail_end == i + spec_encode_items_tail(bs).len() as int + 1);
    }
}

/// The parser reads back an emitted array exactly.
#[verifier::rlimit(80)]
proof fn lemma_parse_array_of_encoded(p: Seq<char>, bs: Seq<PaneBookmark>, u: Seq<char>)
    ensures
        ({
            let s = p + spec_encode_bookmarks(bs) + u;
            spec_parse_array(s, p.len() as int) == Some(
                (bookmark_keys(bs), p.len() as int + spec_encode_bookmarks(bs).len() as int),
            )
        }),
{
    let s = p + spec_encode_bookmarks(bs) + u;
    let i = p.len() as int;
    reveal_strlit("[");
    assert(("[")@ =~= seq!['[']);
    reveal_strlit("]");
    assert(("]")@ =~= seq![']']);
    reveal_strlit("{");
    assert(("{")@ =~= seq!['{']);
    assert(s =~= (p + "["@) + spec_encode_list(bs) + ("]"@ + u));
    let p1 = p + "["@;
    assert(s[i] == '[');
    if bs.len() == 0 {
        assert(spec_encode_list(bs) =~= Seq::<char>::empty());
        assert(s =~= (p1 + "]"@) + u);
        assert(s[i + 1] == ']');
        assert(spec_skip_ws(s, i + 1) == i + 1);
        assert(bookmark_keys(bs) =~= Seq::<(Seq<char>, Seq<char>)>::empty());
        assert(spec_encode_bookmarks(bs).len() == 2);
    } else {
        lemma_encode_list_front(bs);
        let b0 = bs[0];
        let rest = bs.drop_first();
        assert(s =~= p1 + spec_encode_object(b0) + (spec_encode_items_tail(rest) + "]"@ + u));
        assert(s[i + 1] == spec_encode_object(b0)[0]);
        assert(spec_encode_object(b0)[0] == '{');
        assert(spec_skip_ws(s, i + 1) == i + 1);
        lemma_parse_object_of_encoded(p1, b0, spec_encode_items_tail(rest) + "]"@ + u);
        let e = p1.len() as int + spec_encode_object(b0).len() as int;
        assert(spec_parse_object(s, i + 1) == Some(((b0.tab_name@, b0.pane_title@), e)));
        assert(i < e <= s.len());
        let p2 = p1 + spec_encode_object(b0);
        assert(s =~= p2 + spec_encode_items_tail(rest) + "]"@ + u);
        lemma_parse_more_of_tail(p2, rest, u);
        assert(p2.len() as int == e);
        let tail_end = e + spec_encode_items_tail(rest).len() as int + 1;
        assert(spec_parse_more_items(s, e) == Some((bookmark_keys(rest), tail_end)));
        assert(seq![(b0.tab_name@, b0.pane_title@)] + bookmark_keys(rest) =~= bookmark_keys(bs));
        assert(tail_end == i + spec_encode_bookmarks(bs).len() as int);
    }
}

/// The round trip: the reader accepts exactly what the writer emits, and
/// reads back, key for key and in order, the bookmark list that was
/// written.
pub proof fn lemma_encode_parse_round_trip(bs: Seq<PaneBookmark>)
    ensures
        spec_parse_bookmarks(spec_encode_bookmarks(bs)) == Some(bookmark_keys(bs)),
{
    let s = spec_encode_bookmarks(bs);
    reveal_strlit("[");
    assert(("[")@ =~= seq!['[']);
    assert(s =~= Seq::<char>::empty() + s + Seq::<char>::empty());
    lemma_parse_array_of_encoded(Seq::<char>::empty(), bs, Seq::<char>::empty());
    assert(s[0] == '[');
    assert(spec_skip_ws(s, 0) == 0);
    assert(spec_parse_array(s, 0) == Some((bookmark_keys(bs), s.len() as int)));
    assert(spec_skip_ws(s, s.len() as int) == s.len() as int);
}

/// Writes one string as a quoted, escaped literal.
fn append_quoted(out: &mut String, s: &String)
    ensures
        final(out)@ == old(out)@ + spec_quote(s@),
{
    out.append("\"");
    let ghost base = out@;
    let n = s.as_str().unicode_len();
    let mut i: usize = 0;
    proof {
        assert(s@.take(0) =~= Seq::<char>::empty());
        assert(base + spec_escape(s@.take(0)) =~= base);
    }
    while i < n
        invariant
            n as nat == s@.len(),
            i <= n,
            out@ == base + spec_escape(s@.take(i as int)),
        decreases n - i,
    {
        let ghost pre = out@;
        let c = s.as_str().get_char(i);
        proof {
            assert(s@.take(i as int + 1).drop_last() =~= s@.take(i as int));
            assert(s@.take(i as int + 1).last() == s@[i as int]);
        }
        if c == '"' {
            out.append("\\\"");
        } else if c == '\\' {
            out.append("\\\\");
        } else if c == '\n' {
            out.append("\\n");
        } else if c == '\t' {
            out.append("\\t");
        } else if c == '\r' {
            out.append("\\r");
        } else if c == '\u{8}' {
            out.append("\\b");
        } else if c == '\u{c}' {
            out.append("\\f");
        } else {
            let piece = s.as_str().substring_char(i, i + 1);
            proof {
                assert(piece@ =~= seq![s@[i as int]]);
            }
            out.append(piece);
        }
        proof {
            assert(out@ == pre + spec_escape_char(s@[i as int]));
            assert(base + spec_escape(s@.take(i as int)) + spec_escape_char(s@[i as int]) =~= base
                + spec_escape(s@.take(i as int + 1)));
        }
        i += 1;
    }
    proof {
        assert(s@.take(i as int) =~= s@);
    }
    out.append("\"");
    proof {
        assert(old(out)@ + "\""@ + spec_escape(s@) + "\""@ =~= old(out)@ + spec_quote(s@));
    }
}

/// Writes one bookmark object in its canonical form.
fn append_object(out: &mut String, b: &PaneBookmark)
    ensures
        final(out)@ == old(out)@ + spec_encode_object(*b),
{
    out.append("{");
    append_quoted(out, &String::from_str("tab_name"));
    out.append(":");
    append_quoted(out, &b.tab_name);
    out.append(",");
    append_quoted(out, &String::from_str("pane_title"));
    out.append(":");
    append_quoted(out, &b.pane_title);
    out.append("}");
    proof {
        assert(old(out)@ + "{"@ + spec_quote("tab_name"@) + ":"@ + spec_quote(b.tab_name@) + ","@
            + spec_quote("pane_title"@) + ":"@ + spec_quote(b.pane_title@) + "}"@ =~= old(out)@
            + spec_encode_object(*b));
    }
}

/// Emits the durable payload for a bookmark list, in its canonical form.
pub fn encode_bookmarks(bookmarks: &Vec<PaneBookmark>) -> (r: String)
    ensures
        r@ == spec_encode_bookmarks(bookmarks@),
{
    let mut out = String::from_str("[");
    let mut i: usize = 0;
    proof {
        assert(bookmarks@.take(0) =~= Seq::<PaneBookmark>::empty());
        assert(out@ =~= "["@ + spec_encode_list(bookmarks@.take(0)));
    }
    while i < bookmarks.len()
        invariant
            i <= bookmarks@.len(),
            out@ == "["@ + spec_encode_list(bookmarks@.take(i as int)),
        decreases bookmarks@.len() - i,
    {
        let ghost pre = out@;
        if i > 0 {
            out.append(",");
        }
        append_object(&mut out, &bookmarks[i]);
        proof {
            let taken = bookmarks@.take(i as int + 1);
            assert(taken.drop_last() =~= bookmarks@.take(i as int));
            assert(taken.last() == bookmarks@[i as int]);
            if i == 0 {
                assert(spec_encode_list(bookmarks@.take(0)) =~= Seq::<char>::empty());
                assert(out@ =~= "["@ + spec_encode_list(taken));
            } else {
                assert(out@ =~= "["@ + (spec_encode_list(bookmarks@.take(i as int)) + ","@
                    + spec_encode_object(bookmarks@[i as int])));
            }
        }
        i += 1;
    }
    proof {
        assert(bookmarks@.take(i as int) =~= bookmarks@);
    }
    out.append("]");
    proof {
        assert(out@ =~= spec_encode_bookmarks(bookmarks@));
    }
    out
}

/// Whether two strings hold the same characters.
fn str_eq_str(a: &str, b: &str) -> (r: bool)
    ensures
        r == (a@ == b@),
{
    let na = a.unicode_len();
    let nb = b.unicode_len();
    if na != nb {
        return false;
    }
    let mut i: usize = 0;
    while i < na
        invariant
            na as nat == a@.len(),
            nb as nat == b@.len(),
            na == nb,
            i <= na,
            forall|k: int| 0 <= k < i ==> a@[k] == b@[k],
        decreases na - i,
    {
        if a.get_char(i) != b.get_char(i) {
            return false;
        }
        i += 1;
    }
    proof {
        assert(a@ =~= b@);
    }
    true
}

/// Whether a character is accepted as whitespace between tokens.
fn is_ws_char(c: char) -> (r: bool)
    ensures
        r == spec_is_ws(c),
{
    c == ' ' || c == '\t' || c == '\n' || c == '\r'
}

/// Advances past whitespace.
fn skip_ws(s: &str, n: usize, i: usize) -> (r: usize)
    requires
        n as nat == s@.len(),
        i <= n,
    ensures
        r as int == spec_skip_ws(s@, i as int),
        i <= r <= n,
{
    let mut j = i;
    while j < n
        invariant
            n as nat == s@.len(),
            i <= j <= n,
            spec_skip_ws(s@, i as int) == spec_skip_ws(s@, j as int),
        decreases n - j,
    {
        let c = s.get_char(j);
        if !is_ws_char(c) {
            return j;
        }
        j += 1;
    }
    j
}

/// Appends the character stood for by a backslash escape; reports an
/// escape that is not accepted.
fn append_escape(acc: &mut String, c: char) -> (ok: bool)
    ensures
        match spec_unescape(c) {
            Some(d) => ok && final(acc)@ == old(acc)@ + seq![d],
            None => !ok && final(acc)@ == old(acc)@,
        },
{
    if c == '"' {
        acc.append("\"");
        proof {
            reveal_strlit("\"");
            assert(("\"")@ =~= seq!['"']);
        }
        true
    } else if c == '\\' {
        acc.append("\\");
        proof {
            reveal_strlit("\\");
            assert(("\\")@ =~= seq!['\\']);
        }
        true
    } else if c == '/' {
        acc.append("/");
        proof {
            reveal_strlit("/");
            assert(("/")@ =~= seq!['/']);
        }
        true
    } else if c == 'n' {
        acc.append("\n");
        proof {
            reveal_strlit("\n");
            assert(("\n")@ =~= seq!['\n']);
        }
        true
    } else if c == 't' {
        acc.append("\t");
        proof {
            reveal_strlit("\t");
            assert(("\t")@ =~= seq!['\t']);
        }
        true
    } else if c == 'r' {
        acc.append("\r");
        proof {
            reveal_strlit("\r");
            assert(("\r")@ =~= seq!['\r']);
        }
        true
    } else if c == 'b' {
        acc.append("\u{8}");
        proof {
            reveal_strlit("\u{8}");
            assert(("\u{8}")@ =~= seq!['\u{8}']);
        }
        true
    } else if c == 'f' {
        acc.append("\u{c}");
        proof {
            reveal_strlit("\u{c}");
            assert(("\u{c}")@ =~= seq!['\u{c}']);
        }
        true
    } else {
        false
    }
}

/// Parses a quoted string literal at `i`.
fn parse_string_at(s: &str, n: usize, i: usize) -> (r: Option<(String, usize)>)
    requires
        n as nat == s@.len(),
        i <= n,
    ensures
        match r {
            Some(t) => spec_parse_string(s@, i as int) == Some((t.0@, t.1 as int)) && i < t.1 <= n,
            None => spec_parse_string(s@, i as int) is None,
        },
{
    if i >= n {
        return None;
    }
    if s.get_char(i) != '"' {
        return None;
    }
    let mut acc = String::new();
    let mut j = i + 1;
    while j < n
        invariant
            n as nat == s@.len(),
            i < n,
            s@[i as int] == '"',
            i + 1 <= j <= n,
            match spec_parse_string_body(s@, j as int) {
                Some(t) => spec_parse_string_body(s@, i as int + 1) == Some((acc@ + t.0, t.1)),
                None => spec_parse_string_body(s@, i as int + 1) is None,
            },
        decreases n - j,
    {
        let c = s.get_char(j);
        if c == '"' {
            proof {
                assert(spec_parse_string_body(s@, j as int) == Some(
                    (Seq::<char>::empty(), j as int + 1),
                ));
                assert(acc@ + Seq::<char>::empty() =~= acc@);
                assert(spec_parse_string_body(s@, i as int + 1) == Some((acc@, j as int + 1)));
                assert(spec_parse_string(s@, i as int) == Some((acc@, j as int + 1)));
            }
            return Some((acc, j + 1));
        }
        if c == '\\' {
            if j + 1 >= n {
                return None;
            }
            let c2 = s.get_char(j + 1);
            let ghost acc_pre = acc@;
            let ok = append_escape(&mut acc, c2);
            if !ok {
                return None;
            }
            proof {
                if let Some(d) = spec_unescape(s@[j as int + 1]) {
                    match spec_parse_string_body(s@, j as int + 2) {
                        Some(t) => {
                            assert(acc_pre + (seq![d] + t.0) =~= acc@ + t.0);
                        },
                        None => {},
                    }
                }
            }
            j += 2;
        } else {
            let piece = s.substring_char(j, j + 1);
            let ghost acc_pre = acc@;
            proof {
                assert(piece@ =~= seq![s@[j as int]]);
            }
            acc.append(piece);
            proof {
                match spec_parse_string_body(s@, j as int + 1) {
                    Some(t) => {
                        assert(acc_pre + (seq![s@[j as int]] + t.0) =~= acc@ + t.0);
                    },
                    None => {},
                }
            }
            j += 1;
        }
    }
    None
}

/// Parses one `"key" : "value"` member at `i`.
fn parse_member_at(s: &str, n: usize, i: usize) -> (r: Option<(String, String, usize)>)
    requires
        n as nat == s@.len(),
        i <= n,
    ensures
        match r {
            Some(t) => spec_parse_member(s@, i as int) == Some(((t.0@, t.1@), t.2 as int)) && i
                < t.2 <= n,
            None => spec_parse_member(s@, i as int) is None,
        },
{
    let key = match parse_string_at(s, n, i) {
        Some(t) => t,
        None => {
            return None;
        },
    };
    let j2 = skip_ws(s, n, key.1);
    if j2 >= n {
        return None;
    }
    if s.get_char(j2) != ':' {
        return None;
    }
    let j3 = skip_ws(s, n, j2 + 1);
    let value = match parse_string_at(s, n, j3) {
        Some(t) => t,
        None => {
            return None;
        },
    };
    Some((key.0, value.0, value.1))
}

/// Parses one bookmark object at `i`.
fn parse_object_at(s: &str, n: usize, i: usize) -> (r: Option<(PaneBookmark, usize)>)
    requires
        n as nat == s@.len(),
        i <= n,
    ensures
        match r {
            Some(t) => spec_parse_object(s@, i as int) == Some(
                ((t.0.tab_name@, t.0.pane_title@), t.1 as int),
            ) && i < t.1 <= n,
            None => spec_parse_object(s@, i as int) is None,
        },
{
    if i >= n {
        return None;
    }
    if s.get_char(i) != '{' {
        return None;
    }
    let j = skip_ws(s, n, i + 1);
    let first = match parse_member_at(s, n, j) {
        Some(t) => t,
        None => {
            return None;
        },
    };
    let j2 = skip_ws(s, n, first.2);
    if j2 >= n {
        return None;
    }
    if s.get_char(j2) != ',' {
        return None;
    }
    let j3 = skip_ws(s, n, j2 + 1);
    let second = match parse_member_at(s, n, j3) {
        Some(t) => t,
        None => {
            return None;
        },
    };
    let j4 = skip_ws(s, n, second.2);
    if j4 >= n {
        return None;
    }
    if s.get_char(j4) != '}' {
        return None;
    }
    if str_eq_str(first.0.as_str(), "tab_name") && str_eq_str(second.0.as_str(), "pane_title") {
        Some((PaneBookmark { tab_name: first.1, pane_title: second.1 }, j4 + 1))
    } else if str_eq_str(first.0.as_str(), "pane_title") && str_eq_str(
        second.0.as_str(),
        "tab_name",
    ) {
        Some((PaneBookmark { tab_name: second.1, pane_title: first.1 }, j4 + 1))
    } else {
        None
    }
}

/// Parses a whole array of bookmark objects at `i`.
fn parse_array_at(s: &str, n: usize, i: usize) -> (r: Option<(Vec<PaneBookmark>, usize)>)
    requires
        n as nat == s@.len(),
        i <= n,
    ensures
        match r {
            Some(t) => spec_parse_array(s@, i as int) == Some((bookmark_keys(t.0@), t.1 as int))
                && i < t.1 <= n,
            None => spec_parse_array(s@, i as int) is None,
        },
{
    if i >= n {
        return None;
    }
    if s.get_char(i) != '[' {
        return None;
    }
    let j = skip_ws(s, n, i + 1);
    let mut acc: Vec<PaneBookmark> = Vec::new();
    if j < n && s.get_char(j) == ']' {
        proof {
            assert(bookmark_keys(acc@) =~= Seq::<(Seq<char>, Seq<char>)>::empty());
        }
        return Some((acc, j + 1));
    }
    let first = match parse_object_at(s, n, j) {
        Some(t) => t,
        None => {
            return None;
        },
    };
    let mut cur = first.1;
    acc.push(first.0);
    proof {
        assert(bookmark_keys(acc@) =~= seq![(first.0.tab_name@, first.0.pane_title@)]);
    }
    loop
        invariant_except_break
            i < cur <= n,
            match spec_parse_more_items(s@, cur as int) {
                Some(t) => spec_parse_array(s@, i as int) == Some(
                    (bookmark_keys(acc@) + t.0, t.1),
                ),
                None => spec_parse_array(s@, i as int) is None,
            },
        invariant
            n as nat == s@.len(),
        ensures
            spec_parse_array(s@, i as int) == Some((bookmark_keys(acc@), cur as int)),
            i < cur <= n,
        decreases n - cur,
    {
        let ghost cur0 = cur as int;
        let j2 = skip_ws(s, n, cur);
        if j2 < n && s.get_char(j2) == ']' {
            cur = j2 + 1;
            proof {
                assert(spec_parse_more_items(s@, cur0) == Some(
                    (Seq::<(Seq<char>, Seq<char>)>::empty(), j2 as int + 1),
                ));
                assert(bookmark_keys(acc@) + Seq::<(Seq<char>, Seq<char>)>::empty() =~= bookmark_keys(
                    acc@,
                ));
            }
            break;
        }
        if !(j2 < n && s.get_char(j2) == ',') {
            return None;
        }
        let j3 = skip_ws(s, n, j2 + 1);
        let next = match parse_object_at(s, n, j3) {
            Some(t) => t,
            None => {
                return None;
            },
        };
        let ghost keys_pre = bookmark_keys(acc@);
        let ghost kv = (next.0.tab_name@, next.0.pane_title@);
        cur = next.1;
        acc.push(next.0);
        proof {
            assert(bookmark_keys(acc@) =~= keys_pre.push(kv));
            match spec_parse_more_items(s@, cur as int) {
                Some(t) => {
                    assert(spec_parse_more_items(s@, cur0) == Some((seq![kv] + t.0, t.1)));
                    assert(keys_pre + (seq![kv] + t.0) =~= bookmark_keys(acc@) + t.0);
                },
                None => {},
            }
        }
    }
    Some((acc, cur))
}

/// Parses a whole durable payload. Yields the bookmark list on success;
/// any deviation from the format yields nothing.
pub fn parse_bookmarks(content: &str) -> (r: Option<Vec<PaneBookmark>>)
    ensures
        match r {
            Some(v) => spec_parse_bookmarks(content@) == Some(bookmark_keys(v@)),
            None => spec_parse_bookmarks(content@) is None,
        },
{
    let n = content.unicode_len();
    let i0 = skip_ws(content, n, 0);
    let parsed = match parse_array_at(content, n, i0) {
        Some(t) => t,
        None => {
            return None;
        },
    };
    let t = skip_ws(content, n, parsed.1);
    if t != n {
        return None;
    }
    Some(parsed.0)
}

} // verus!
