//! Percent-encoding and query strings.
//!
//! Components are encoded the way JavaScript's `encodeURIComponent` does
//! (every UTF-8 byte outside `A-Z a-z 0-9 - _ . ! ~ * ' ( )` becomes `%XX`),
//! whole urls the way `encodeURI` does, which also keeps the reserved
//! characters `; , / ? : @ & = + $ #`.
use vstd::prelude::*;
use crate::text::{char_from_u32_ascii, join, push_str, str_eq, string_of};

verus! {

pub open spec fn is_unreserved(b: u8) -> bool {
    (48 <= b <= 57) || (65 <= b <= 90) || (97 <= b <= 122) || b == 45 || b == 95 || b == 46
        || b == 33 || b == 126 || b == 42 || b == 39 || b == 40 || b == 41
}

pub open spec fn is_uri_reserved(b: u8) -> bool {
    b == 59 || b == 44 || b == 47 || b == 63 || b == 58 || b == 64 || b == 38 || b == 61 || b
        == 43 || b == 36 || b == 35
}

pub open spec fn hex_digit(d: nat) -> char {
    if d < 10 {
        (d + 48) as char
    } else {
        (d + 55) as char
    }
}

/// How one byte is written: itself, or `%` and two upper case hex digits.
pub open spec fn encode_byte(b: u8, keep_reserved: bool) -> Seq<char> {
    if is_unreserved(b) || (keep_reserved && is_uri_reserved(b)) {
        seq![b as char]
    } else {
        seq!['%', hex_digit((b / 16) as nat), hex_digit((b % 16) as nat)]
    }
}

pub open spec fn percent_encode(bytes: Seq<u8>, keep_reserved: bool) -> Seq<char>
    decreases bytes.len(),
{
    if bytes.len() == 0 {
        seq![]
    } else {
        percent_encode(bytes.drop_last(), keep_reserved) + encode_byte(bytes.last(), keep_reserved)
    }
}

/// `encodeURIComponent` of the text `s`.
pub open spec fn encode_component(s: Seq<char>) -> Seq<char> {
    percent_encode(vstd::utf8::encode_utf8(s), false)
}

/// `encodeURI` of the text `s`.
pub open spec fn encode_uri_spec(s: Seq<char>) -> Seq<char> {
    percent_encode(vstd::utf8::encode_utf8(s), true)
}

fn hex_digit_exec(d: u8) -> (c: char)
    requires
        d < 16,
    ensures
        c == hex_digit(d as nat),
{
    if d < 10 {
        char_from_u32_ascii((d + 48) as u32)
    } else {
        char_from_u32_ascii((d + 55) as u32)
    }
}

fn percent_encode_exec(bytes: &[u8], keep_reserved: bool) -> (r: Vec<char>)
    ensures
        r@ == percent_encode(bytes@, keep_reserved),
{
    let mut out: Vec<char> = Vec::new();
    let mut i: usize = 0;
    while i < bytes.len()
        invariant
            i <= bytes@.len(),
            out@ == percent_encode(bytes@.subrange(0, i as int), keep_reserved),
        decreases bytes@.len() - i,
    {
        let b = bytes[i];
        let keep = (48 <= b && b <= 57) || (65 <= b && b <= 90) || (97 <= b && b <= 122) || b == 45
            || b == 95 || b == 46 || b == 33 || b == 126 || b == 42 || b == 39 || b == 40 || b
            == 41 || (keep_reserved && (b == 59 || b == 44 || b == 47 || b == 63 || b == 58 || b
            == 64 || b == 38 || b == 61 || b == 43 || b == 36 || b == 35));
        let ghost before = out@;
        if keep {
            out.push(char_from_u32_ascii(b as u32));
            assert(out@ =~= before + encode_byte(b, keep_reserved));
        } else {
            out.push('%');
            out.push(hex_digit_exec(b / 16));
            out.push(hex_digit_exec(b % 16));
            assert(out@ =~= before + encode_byte(b, keep_reserved));
        }
        assert(bytes@.subrange(0, i + 1).drop_last() =~= bytes@.subrange(0, i as int));
        i = i + 1;
    }
    assert(bytes@.subrange(0, bytes@.len() as int) =~= bytes@);
    out
}

/// Percent-encodes `s` as a url component.
pub fn encode_uri_component(s: &str) -> (r: String)
    ensures
        r@ == encode_component(s@),
{
    let v = percent_encode_exec(s.as_bytes(), false);
    string_of(v.as_slice())
}

/// Percent-encodes `s` as a whole url.
pub fn encode_uri(s: &str) -> (r: String)
    ensures
        r@ == encode_uri_spec(s@),
{
    let v = percent_encode_exec(s.as_bytes(), true);
    string_of(v.as_slice())
}

pub open spec fn is_upper_hex(c: char) -> bool {
    ('0' <= c && c <= '9') || ('A' <= c && c <= 'F')
}

/// The number an upper case hexadecimal digit stands for.
pub open spec fn upper_hex_value(c: char) -> int {
    if '0' <= c && c <= '9' {
        (c as int) - ('0' as int)
    } else {
        (c as int) - ('A' as int) + 10
    }
}

/// The characters `encodeURIComponent` leaves as they are.
pub open spec fn component_keeps(c: char) -> bool {
    ('A' <= c && c <= 'Z') || ('a' <= c && c <= 'z') || ('0' <= c && c <= '9') || c == '-' || c
        == '_' || c == '.' || c == '!' || c == '~' || c == '*' || c == '\'' || c == '(' || c == ')'
}

/// The characters `encodeURI` keeps besides those.
pub open spec fn uri_also_keeps(c: char) -> bool {
    c == ';' || c == ',' || c == '/' || c == '?' || c == ':' || c == '@' || c == '&' || c == '='
        || c == '+' || c == '$' || c == '#'
}

proof fn lemma_hex_digit(d: nat)
    requires
        d < 16,
    ensures
        is_upper_hex(hex_digit(d)),
        upper_hex_value(hex_digit(d)) == d,
{
}

/// How one byte is written: an ASCII letter, digit or one of the marks
/// `- _ . ! ~ * ' ( )` stands for itself; any other byte becomes `%` and
/// two upper case hexadecimal digits that read back as the byte. Encoding a
/// whole url also keeps `; , / ? : @ & = + $ #` as they are.
pub proof fn lemma_byte_encoding(b: u8)
    ensures
        component_keeps(b as char) ==> encode_byte(b, false) == seq![b as char],
        !component_keeps(b as char) ==> {
            let e = encode_byte(b, false);
            &&& e.len() == 3
            &&& e[0] == '%'
            &&& is_upper_hex(e[1]) && is_upper_hex(e[2])
            &&& upper_hex_value(e[1]) * 16 + upper_hex_value(e[2]) == b
        },
        component_keeps(b as char) || uri_also_keeps(b as char) ==> encode_byte(b, true) == seq![
            b as char,
        ],
        !component_keeps(b as char) && !uri_also_keeps(b as char) ==> encode_byte(b, true)
            == encode_byte(b, false),
{
    lemma_hex_digit((b / 16) as nat);
    lemma_hex_digit((b % 16) as nat);
}

proof fn lemma_plain_bytes(bytes: Seq<u8>, keep_reserved: bool)
    requires
        forall|i: int| 0 <= i < bytes.len() ==> component_keeps(#[trigger] bytes[i] as char),
    ensures
        percent_encode(bytes, keep_reserved) == bytes.map_values(|b: u8| b as char),
    decreases bytes.len(),
{
    if bytes.len() > 0 {
        lemma_plain_bytes(bytes.drop_last(), keep_reserved);
        assert(component_keeps(bytes[bytes.len() - 1] as char));
        lemma_byte_encoding(bytes.last());
        assert(bytes.map_values(|b: u8| b as char) =~= bytes.drop_last().map_values(|b: u8| b as char)
            + seq![bytes.last() as char]);
    }
}

/// Text made only of characters a component keeps is its own encoding,
/// as a component and as a url.
pub proof fn lemma_plain_text(s: Seq<char>)
    requires
        forall|i: int| 0 <= i < s.len() ==> component_keeps(#[trigger] s[i]),
    ensures
        encode_component(s) == s,
        encode_uri_spec(s) == s,
{
    assert(vstd::utf8::is_ascii_chars(s)) by {
        assert forall|i: int| 0 <= i < s.len() implies '\0' <= #[trigger] s[i] <= '\u{7f}' by {
            assert(component_keeps(s[i]));
        }
    }
    vstd::utf8::is_ascii_chars_encode_utf8(s);
    let bytes = vstd::utf8::encode_utf8(s);
    assert forall|i: int| 0 <= i < bytes.len() implies component_keeps(#[trigger] bytes[i] as char) by {
        assert(s[i] as u8 == bytes[i]);
        assert(component_keeps(s[i]));
        assert((s[i] as u8) as char == s[i]);
    }
    lemma_plain_bytes(bytes, false);
    lemma_plain_bytes(bytes, true);
    assert forall|i: int| 0 <= i < s.len() implies bytes.map_values(|b: u8| b as char)[i] == s[i] by {
        assert(s[i] as u8 == bytes[i]);
        assert(component_keeps(s[i]));
        assert((s[i] as u8) as char == s[i]);
    }
    assert(bytes.map_values(|b: u8| b as char) =~= s);
}

/// One `name=value` (or bare `name`) parameter, both already encoded.
pub open spec fn param_text(p: (Seq<char>, Option<Seq<char>>)) -> Seq<char> {
    match p.1 {
        Some(v) => p.0 + seq!['='] + v,
        None => p.0,
    }
}

/// The query string of a list of encoded parameters.
pub open spec fn query_text(ps: Seq<(Seq<char>, Option<Seq<char>>)>) -> Seq<char> {
    join(ps.map_values(|p: (Seq<char>, Option<Seq<char>>)| param_text(p)), seq!['&'])
}

/// A number written in decimal is its own encoding.
pub proof fn lemma_plain_number(n: int)
    ensures
        encode_component(crate::text::dec_int(n)) == crate::text::dec_int(n),
{
    let m: nat = if n < 0 {
        (-n) as nat
    } else {
        n as nat
    };
    crate::text::lemma_dec_reads_back(m);
    let d = crate::text::dec_int(n);
    assert forall|i: int| 0 <= i < d.len() implies component_keeps(#[trigger] d[i]) by {
        if n < 0 {
            if i > 0 {
                assert(d[i] == crate::text::dec(m)[i - 1]);
                assert(crate::text::is_ascii_digit(crate::text::dec(m)[i - 1]));
            }
        } else {
            assert(crate::text::is_ascii_digit(crate::text::dec(m)[i]));
        }
    }
    lemma_plain_text(d);
}

/// A query string joins its parameters with `&`.
pub proof fn lemma_query_pairs(
    a: (Seq<char>, Option<Seq<char>>),
    b: (Seq<char>, Option<Seq<char>>),
    c: (Seq<char>, Option<Seq<char>>),
)
    ensures
        query_text(seq![a]) == param_text(a),
        query_text(seq![a, b]) == param_text(a) + seq!['&'] + param_text(b),
        query_text(seq![a, b, c]) == param_text(a) + seq!['&'] + param_text(b) + seq!['&']
            + param_text(c),
{
    let f = |p: (Seq<char>, Option<Seq<char>>)| param_text(p);
    let one = seq![a].map_values(f);
    let two = seq![a, b].map_values(f);
    let three = seq![a, b, c].map_values(f);
    assert(one =~= seq![param_text(a)]);
    assert(two =~= seq![param_text(a), param_text(b)]);
    assert(two.drop_last() =~= one);
    assert(three =~= seq![param_text(a), param_text(b), param_text(c)]);
    assert(three.drop_last() =~= two);
    let amp = seq!['&'];
    assert(crate::text::join(one, amp) == param_text(a));
    assert(two.last() == param_text(b));
    assert(three.last() == param_text(c));
    assert(crate::text::join(two, amp) == param_text(a) + amp + param_text(b));
    assert(crate::text::join(three, amp) == crate::text::join(two, amp) + amp + param_text(c));
}

/// The encoded form of an optional value.
pub open spec fn encode_opt(v: Option<Seq<char>>) -> Option<Seq<char>> {
    match v {
        Some(x) => Some(encode_component(x)),
        None => None,
    }
}

/// An ordered list of query parameters.
pub struct QueryParameters {
    params: Vec<(String, Option<String>)>,
}

impl View for QueryParameters {
    type V = Seq<(Seq<char>, Option<Seq<char>>)>;

    closed spec fn view(&self) -> Seq<(Seq<char>, Option<Seq<char>>)> {
        self.params@.map_values(
            |p: (String, Option<String>)|
                (
                    p.0@,
                    match p.1 {
                        Some(v) => Some(v@),
                        None => None,
                    },
                ),
        )
    }
}

impl QueryParameters {
    pub fn new() -> (q: Self)
        ensures
            q@ == Seq::<(Seq<char>, Option<Seq<char>>)>::empty(),
    {
        let q = QueryParameters { params: Vec::new() };
        assert(q@ =~= Seq::<(Seq<char>, Option<Seq<char>>)>::empty());
        q
    }

    /// Appends a parameter, encoding its name and value.
    pub fn push(&mut self, name: &str, value: Option<&str>)
        ensures
            final(self)@ == old(self)@.push(
                (
                    encode_component(name@),
                    encode_opt(
                        match value {
                            Some(v) => Some(v@),
                            None => None,
                        },
                    ),
                ),
            ),
    {
        let n = encode_uri_component(name);
        let v = match value {
            Some(v) => Some(encode_uri_component(v)),
            None => None,
        };
        let ghost before = self@;
        self.params.push((n, v));
        assert(self@ =~= before.push(
            (
                encode_component(name@),
                encode_opt(
                    match value {
                        Some(v) => Some(v@),
                        None => None,
                    },
                ),
            ),
        ));
    }

    /// Appends a parameter whose value is already encoded.
    pub fn push_encoded(&mut self, name: &str, value: Option<&str>)
        ensures
            final(self)@ == old(self)@.push(
                (
                    encode_component(name@),
                    match value {
                        Some(v) => Some(v@),
                        None => None,
                    },
                ),
            ),
    {
        let n = encode_uri_component(name);
        let v = match value {
            Some(v) => Some(v.to_owned()),
            None => None,
        };
        let ghost before = self@;
        self.params.push((n, v));
        assert(self@ =~= before.push(
            (
                encode_component(name@),
                match value {
                    Some(v) => Some(v@),
                    None => None,
                },
            ),
        ));
    }

    /// Replaces every parameter of that name by a single one at the end.
    pub fn set(&mut self, name: &str, value: Option<&str>)
        ensures
            final(self)@ == old(self)@.filter(
                |p: (Seq<char>, Option<Seq<char>>)| p.0 != encode_component(name@),
            ).push(
                (
                    encode_component(name@),
                    encode_opt(
                        match value {
                            Some(v) => Some(v@),
                            None => None,
                        },
                    ),
                ),
            ),
    {
        let n = encode_uri_component(name);
        let ghost pred = |p: (Seq<char>, Option<Seq<char>>)| p.0 != encode_component(name@);
        let ghost old_view = self@;
        let mut kept: Vec<(String, Option<String>)> = Vec::new();
        let mut i: usize = 0;
        while i < self.params.len()
            invariant
                i <= self.params@.len(),
                old_view == self@,
                n@ == encode_component(name@),
                pred == (|p: (Seq<char>, Option<Seq<char>>)| p.0 != encode_component(name@)),
                (QueryParameters { params: kept })@ == old_view.subrange(0, i as int).filter(
                    pred,
                ),
            decreases self.params@.len() - i,
        {
            let ghost kept_before = (QueryParameters { params: kept })@;
            let same = str_eq(self.params[i].0.as_str(), n.as_str());
            if !same {
                let name_copy = self.params[i].0.clone();
                let value_copy = match &self.params[i].1 {
                    Some(v) => Some(v.clone()),
                    None => None,
                };
                kept.push((name_copy, value_copy));
            }
            proof {
                let s = old_view.subrange(0, i + 1);
                assert(s.drop_last() =~= old_view.subrange(0, i as int));
                assert(old_view[i as int].0 == self.params@[i as int].0@);
                assert(s.filter(pred) == s.drop_last().filter(pred) + (if pred(s.last()) {
                    seq![s.last()]
                } else {
                    Seq::empty()
                })) by {
                    reveal_with_fuel(Seq::<_>::filter, 1);
                }
                if !same {
                    assert((QueryParameters { params: kept })@ =~= kept_before.push(
                        old_view[i as int],
                    ));
                } else {
                    assert((QueryParameters { params: kept })@ =~= kept_before);
                }
                assert((QueryParameters { params: kept })@ =~= s.filter(pred));
            }
            i = i + 1;
        }
        assert(old_view.subrange(0, self.params@.len() as int) =~= old_view);
        self.params = kept;
        self.push(name, value);
    }

    /// The query string: parameters joined with `&`.
    pub fn to_query_string(&self) -> (r: String)
        ensures
            r@ == query_text(self@),
    {
        let mut out: Vec<char> = Vec::new();
        let mut i: usize = 0;
        let ghost texts = self@.map_values(
            |p: (Seq<char>, Option<Seq<char>>)| param_text(p),
        );
        while i < self.params.len()
            invariant
                i <= self.params@.len(),
                texts == self@.map_values(|p: (Seq<char>, Option<Seq<char>>)| param_text(p)),
                out@ == join(texts.subrange(0, i as int), seq!['&']),
            decreases self.params@.len() - i,
        {
            let ghost before = out@;
            if i > 0 {
                out.push('&');
            }
            push_str(&mut out, self.params[i].0.as_str());
            match &self.params[i].1 {
                Some(v) => {
                    out.push('=');
                    push_str(&mut out, v.as_str());
                },
                None => {},
            }
            proof {
                let t = texts.subrange(0, i + 1);
                assert(t.drop_last() =~= texts.subrange(0, i as int));
                assert(texts[i as int] == param_text(self@[i as int]));
                if i > 0 {
                    assert(out@ =~= before + seq!['&'] + texts[i as int]);
                } else {
                    assert(before =~= Seq::<char>::empty());
                    assert(out@ =~= texts[i as int]);
                }
            }
            i = i + 1;
        }
        assert(texts.subrange(0, self.params@.len() as int) =~= texts);
        string_of(out.as_slice())
    }
}

} // verus!
