//! JSON text: string literals through serde_json, and the objects and
//! arrays requests are made of.
use vstd::prelude::*;
use crate::text::{chars_of, join, push_str, string_of, views};

verus! {

pub open spec fn hex_lower(d: nat) -> char {
    if d < 10 {
        ((d + 48) as u32) as char
    } else {
        ((d + 87) as u32) as char
    }
}

/// How a character is written inside a JSON string: quotes and backslashes
/// escaped, the control characters below U+0020 by their short escape or as
/// `\u00XX`, everything else as it is.
pub open spec fn json_escape_char(c: char) -> Seq<char> {
    let u = c as u32;
    if c == '"' {
        seq!['\\', '"']
    } else if c == '\\' {
        seq!['\\', '\\']
    } else if u == 8 {
        seq!['\\', 'b']
    } else if u == 9 {
        seq!['\\', 't']
    } else if u == 10 {
        seq!['\\', 'n']
    } else if u == 12 {
        seq!['\\', 'f']
    } else if u == 13 {
        seq!['\\', 'r']
    } else if u < 0x20 {
        seq!['\\', 'u', '0', '0', hex_lower((u / 16) as nat), hex_lower((u % 16) as nat)]
    } else {
        seq![c]
    }
}

pub open spec fn json_escape(s: Seq<char>) -> Seq<char>
    decreases s.len(),
{
    if s.len() == 0 {
        Seq::empty()
    } else {
        json_escape(s.drop_last()) + json_escape_char(s.last())
    }
}

/// A JSON string literal holding `s`.
pub open spec fn json_string(s: Seq<char>) -> Seq<char> {
    seq!['"'] + json_escape(s) + seq!['"']
}

pub open spec fn is_lower_hex(c: char) -> bool {
    ('0' <= c && c <= '9') || ('a' <= c && c <= 'f')
}

/// The number a lower case hexadecimal digit stands for.
pub open spec fn lower_hex_value(c: char) -> int {
    if '0' <= c && c <= '9' {
        (c as int) - ('0' as int)
    } else {
        (c as int) - ('a' as int) + 10
    }
}

proof fn lemma_hex_lower(d: nat)
    requires
        d < 16,
    ensures
        is_lower_hex(hex_lower(d)),
        lower_hex_value(hex_lower(d)) == d,
{
}

/// How a character is written in a JSON string: a quote and a backslash
/// behind a backslash; backspace, tab, line feed, form feed and carriage
/// return as `\b \t \n \f \r`; another control character below U+0020
/// as `\u00` and two lower case hex digits that read back as its code;
/// any other character as it is.
pub proof fn lemma_json_escapes(c: char)
    ensures
        c == '"' ==> json_escape_char(c) == seq!['\\', '"'],
        c == '\\' ==> json_escape_char(c) == seq!['\\', '\\'],
        c == '\u{8}' ==> json_escape_char(c) == seq!['\\', 'b'],
        c == '\t' ==> json_escape_char(c) == seq!['\\', 't'],
        c == '\n' ==> json_escape_char(c) == seq!['\\', 'n'],
        c == '\u{c}' ==> json_escape_char(c) == seq!['\\', 'f'],
        c == '\r' ==> json_escape_char(c) == seq!['\\', 'r'],
        c < ' ' && c != '\u{8}' && c != '\t' && c != '\n' && c != '\u{c}' && c != '\r' ==> {
            let e = json_escape_char(c);
            &&& e.len() == 6
            &&& e.subrange(0, 4) == seq!['\\', 'u', '0', '0']
            &&& is_lower_hex(e[4]) && is_lower_hex(e[5])
            &&& lower_hex_value(e[4]) * 16 + lower_hex_value(e[5]) == c as int
        },
        c >= ' ' && c != '"' && c != '\\' ==> json_escape_char(c) == seq![c],
{
    let u = c as u32;
    if u < 0x20 {
        lemma_hex_lower((u / 16) as nat);
        lemma_hex_lower((u % 16) as nat);
        let e = json_escape_char(c);
        if c != '\u{8}' && c != '\t' && c != '\n' && c != '\u{c}' && c != '\r' {
            assert(e.subrange(0, 4) =~= seq!['\\', 'u', '0', '0']);
        }
    }
}

/// `serde_json::to_string` on a `str`: the JSON string literal of the text,
/// written as `format_escaped_str` writes it. Writing to memory cannot
/// fail, so the error arm is never taken.
#[verifier::external_body]
pub(crate) fn json_quote(s: &str) -> (r: String)
    ensures
        r@ == json_string(s@),
{
    match serde_json::to_string(s) {
        Ok(j) => j,
        Err(_) => String::new(),
    }
}

/// A JSON array of strings.
pub open spec fn json_array(vs: Seq<Seq<char>>) -> Seq<char> {
    "["@ + join(vs.map_values(|v: Seq<char>| json_string(v)), ","@) + "]"@
}

/// A JSON object from its members, each a key and the JSON text of its
/// value, in the order given.
pub open spec fn json_object(ms: Seq<(Seq<char>, Seq<char>)>) -> Seq<char> {
    "{"@ + join(ms.map_values(|m: (Seq<char>, Seq<char>)| json_string(m.0) + ":"@ + m.1), ","@) + "}"@
}

pub fn json_array_exec(vs: &[String]) -> (r: String)
    ensures
        r@ == json_array(views(vs@)),
{
    let ghost js = views(vs@).map_values(|v: Seq<char>| json_string(v));
    let mut out = chars_of("[");
    let ghost head = out@;
    let mut i: usize = 0;
    while i < vs.len()
        invariant
            i <= vs@.len(),
            js == views(vs@).map_values(|v: Seq<char>| json_string(v)),
            out@ == head + join(js.take(i as int), ","@),
        decreases vs@.len() - i,
    {
        let ghost before = out@;
        if i > 0 {
            push_str(&mut out, ",");
        }
        let q = json_quote(vs[i].as_str());
        push_str(&mut out, q.as_str());
        proof {
            assert(js.take(i + 1).drop_last() =~= js.take(i as int));
            assert(js[i as int] == json_string(vs@[i as int]@));
            if i == 0 {
                assert(js.take(1) =~= seq![js[0]]);
                assert(out@ =~= head + js[0]);
            } else {
                assert(out@ =~= head + (join(js.take(i as int), ","@) + ","@ + js[i as int]));
            }
        }
        i = i + 1;
    }
    assert(js.take(vs@.len() as int) =~= js);
    push_str(&mut out, "]");
    string_of(out.as_slice())
}

pub open spec fn members_view(ms: Seq<(String, String)>) -> Seq<(Seq<char>, Seq<char>)> {
    ms.map_values(|m: (String, String)| (m.0@, m.1@))
}

pub fn json_object_exec(ms: &[(String, String)]) -> (r: String)
    ensures
        r@ == json_object(members_view(ms@)),
{
    let ghost js = members_view(ms@).map_values(
        |m: (Seq<char>, Seq<char>)| json_string(m.0) + ":"@ + m.1,
    );
    let mut out = chars_of("{");
    let ghost head = out@;
    let mut i: usize = 0;
    while i < ms.len()
        invariant
            i <= ms@.len(),
            js == members_view(ms@).map_values(|m: (Seq<char>, Seq<char>)| json_string(m.0) + ":"@ + m.1),
            out@ == head + join(js.take(i as int), ","@),
        decreases ms@.len() - i,
    {
        let ghost before = out@;
        if i > 0 {
            push_str(&mut out, ",");
        }
        let (k, v) = &ms[i];
        let q = json_quote(k.as_str());
        push_str(&mut out, q.as_str());
        push_str(&mut out, ":");
        push_str(&mut out, v.as_str());
        proof {
            assert(js.take(i + 1).drop_last() =~= js.take(i as int));
            assert(js[i as int] == json_string(k@) + ":"@ + v@);
            if i == 0 {
                assert(js.take(1) =~= seq![js[0]]);
                assert(out@ =~= head + js[0]);
            } else {
                assert(out@ =~= head + (join(js.take(i as int), ","@) + ","@ + js[i as int]));
            }
        }
        i = i + 1;
    }
    assert(js.take(ms@.len() as int) =~= js);
    push_str(&mut out, "}");
    string_of(out.as_slice())
}

/// What `serde_json::from_str::<Vec<String>>` reads from a text: the
/// strings of a JSON array of strings, when the text is one. JSON's grammar
/// takes pages to state.
pub uninterp spec fn json_string_list(s: Seq<char>) -> Option<Seq<Seq<char>>>;

/// `serde_json::from_str::<Vec<String>>`, its error dropped.
#[verifier::external_body]
pub(crate) fn parse_string_list(s: &str) -> (r: Option<Vec<String>>)
    ensures
        match r {
            Some(v) => json_string_list(s@) == Some(views(v@)),
            None => json_string_list(s@) is None,
        },
{
    serde_json::from_str::<Vec<String>>(s).ok()
}

/// What reading bytes as a JSON value and taking the string member of that
/// name gives: none when the bytes are no JSON, `Some(None)` when the value
/// has no string member of that name.
pub uninterp spec fn json_str_member(data: Seq<u8>, name: Seq<char>) -> Option<Option<Seq<char>>>;

/// `serde_json::from_slice::<serde_json::Value>`, then indexing by the name
/// and `as_str`; the parse error dropped.
#[verifier::external_body]
pub(crate) fn str_member(data: &[u8], name: &str) -> (r: Option<Option<String>>)
    ensures
        json_str_member(data@, name@) == match r {
            Some(Some(s)) => Some(Some(s@)),
            Some(None) => Some(None),
            None => None,
        },
{
    match serde_json::from_slice::<serde_json::Value>(data) {
        Ok(v) => match v[name].as_str() {
            Some(s) => Some(Some(s.to_string())),
            None => Some(None),
        },
        Err(_) => None,
    }
}

/// What reading a text as a JSON value gives for the entries of its
/// `@graph` array, each as its `@type` and `url` members where those are
/// strings: none when the text is no JSON, `Some(None)` when there is no
/// such array.
pub uninterp spec fn json_graph_entries(s: Seq<char>) -> Option<
    Option<Seq<(Option<Seq<char>>, Option<Seq<char>>)>>,
>;

/// `serde_json::from_str::<serde_json::Value>`, then `get("@graph")` and
/// `as_array`, each entry's `@type` and `url` taken by `get` and `as_str`;
/// the parse error dropped.
#[verifier::external_body]
pub(crate) fn graph_entries(s: &str) -> (r: Option<Option<Vec<(Option<String>, Option<String>)>>>)
    ensures
        json_graph_entries(s@) == match r {
            Some(Some(v)) => Some(Some(v@.map_values(|e: (Option<String>, Option<String>)| (crate::model::opt_string(e.0), crate::model::opt_string(e.1))))),
            Some(None) => Some(None),
            None => None,
        },
{
    match serde_json::from_str::<serde_json::Value>(s) {
        Ok(v) => match v.get("@graph").and_then(|g| g.as_array()) {
            Some(a) => Some(Some(a.iter().map(|e| (
                e.get("@type").and_then(|t| t.as_str()).map(|t| t.to_string()),
                e.get("url").and_then(|u| u.as_str()).map(|u| u.to_string()),
            )).collect())),
            None => Some(None),
        },
        Err(_) => None,
    }
}

} // verus!
