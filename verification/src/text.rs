//! Character sequence helpers shared by every source: conversions between
//! strings and character vectors, searching, trimming, ASCII case folding and
//! decimal formatting, each with its specification over `Seq<char>`.
use vstd::prelude::*;

verus! {

// ---------------------------------------------------------------------------
// Specifications
// ---------------------------------------------------------------------------

/// `p` occurs in `s` at position `i`.
pub open spec fn occurs_at(s: Seq<char>, p: Seq<char>, i: int) -> bool {
    0 <= i && i + p.len() <= s.len() && s.subrange(i, i + p.len()) == p
}

pub open spec fn starts_with(s: Seq<char>, p: Seq<char>) -> bool {
    occurs_at(s, p, 0)
}

pub open spec fn ends_with(s: Seq<char>, p: Seq<char>) -> bool {
    occurs_at(s, p, s.len() - p.len())
}

pub open spec fn contains(s: Seq<char>, p: Seq<char>) -> bool {
    exists|i: int| occurs_at(s, p, i)
}

/// `i` is the first position at which `p` occurs in `s`.
pub open spec fn is_first_occurrence(s: Seq<char>, p: Seq<char>, i: int) -> bool {
    occurs_at(s, p, i) && forall|j: int| 0 <= j < i ==> !occurs_at(s, p, j)
}

/// `i` is the last position at which `p` occurs in `s`.
pub open spec fn is_last_occurrence(s: Seq<char>, p: Seq<char>, i: int) -> bool {
    occurs_at(s, p, i) && forall|j: int| i < j <= s.len() ==> !occurs_at(s, p, j)
}

/// The first position of `p` in `s`, if any.
pub open spec fn find(s: Seq<char>, p: Seq<char>) -> Option<int> {
    if contains(s, p) {
        Some(choose|i: int| is_first_occurrence(s, p, i))
    } else {
        None
    }
}

pub open spec fn strip_prefix(s: Seq<char>, p: Seq<char>) -> Option<Seq<char>> {
    if starts_with(s, p) {
        Some(s.subrange(p.len() as int, s.len() as int))
    } else {
        None
    }
}

pub open spec fn strip_suffix(s: Seq<char>, p: Seq<char>) -> Option<Seq<char>> {
    if ends_with(s, p) {
        Some(s.subrange(0, s.len() - p.len()))
    } else {
        None
    }
}

/// Unicode White_Space, the set `char::is_whitespace` tests for.
pub open spec fn is_whitespace(c: char) -> bool {
    let u = c as u32;
    (0x09 <= u <= 0x0d) || u == 0x20 || u == 0x85 || u == 0xa0 || u == 0x1680 || (0x2000 <= u
        <= 0x200a) || u == 0x2028 || u == 0x2029 || u == 0x202f || u == 0x205f || u == 0x3000
}

/// Number of leading white space characters.
pub open spec fn leading_ws(s: Seq<char>) -> nat
    decreases s.len(),
{
    if s.len() > 0 && is_whitespace(s[0]) {
        1 + leading_ws(s.drop_first())
    } else {
        0
    }
}

/// Number of trailing white space characters.
pub open spec fn trailing_ws(s: Seq<char>) -> nat
    decreases s.len(),
{
    if s.len() > 0 && is_whitespace(s.last()) {
        1 + trailing_ws(s.drop_last())
    } else {
        0
    }
}

pub open spec fn trim_start(s: Seq<char>) -> Seq<char> {
    s.subrange(leading_ws(s) as int, s.len() as int)
}

pub open spec fn trim_end(s: Seq<char>) -> Seq<char> {
    s.subrange(0, s.len() - trailing_ws(s))
}

/// `str::trim`: white space removed from both ends.
pub open spec fn trim(s: Seq<char>) -> Seq<char> {
    trim_end(trim_start(s))
}

pub open spec fn is_ascii_digit(c: char) -> bool {
    '0' <= c <= '9'
}

pub open spec fn is_ascii_alpha(c: char) -> bool {
    ('a' <= c <= 'z') || ('A' <= c <= 'Z')
}

pub open spec fn is_ascii_alphanumeric(c: char) -> bool {
    is_ascii_digit(c) || is_ascii_alpha(c)
}

pub open spec fn is_ascii_hexdigit(c: char) -> bool {
    is_ascii_digit(c) || ('a' <= c <= 'f') || ('A' <= c <= 'F')
}

pub open spec fn all_digits(s: Seq<char>) -> bool {
    forall|i: int| 0 <= i < s.len() ==> is_ascii_digit(#[trigger] s[i])
}

pub open spec fn ascii_lower_char(c: char) -> char {
    if 'A' <= c <= 'Z' {
        ((c as u32) + 32) as char
    } else {
        c
    }
}

pub open spec fn ascii_upper_char(c: char) -> char {
    if 'a' <= c <= 'z' {
        ((c as u32) - 32) as char
    } else {
        c
    }
}

/// `str::to_ascii_lowercase`.
pub open spec fn ascii_lower(s: Seq<char>) -> Seq<char> {
    s.map_values(|c: char| ascii_lower_char(c))
}

/// `str::to_ascii_uppercase`.
pub open spec fn ascii_upper(s: Seq<char>) -> Seq<char> {
    s.map_values(|c: char| ascii_upper_char(c))
}

/// `str::eq_ignore_ascii_case`.
pub open spec fn eq_ignore_ascii_case(a: Seq<char>, b: Seq<char>) -> bool {
    ascii_lower(a) == ascii_lower(b)
}

pub open spec fn digit_char(d: nat) -> char {
    ((d % 10) + 48) as char
}

/// Decimal digits of `n`, as `u64::to_string` writes them.
pub open spec fn dec(n: nat) -> Seq<char>
    decreases n,
{
    if n < 10 {
        seq![digit_char(n)]
    } else {
        dec(n / 10).push(digit_char(n % 10))
    }
}

/// Decimal form of `n`, with a leading minus sign when negative.
pub open spec fn dec_int(n: int) -> Seq<char> {
    if n < 0 {
        seq!['-'] + dec((-n) as nat)
    } else {
        dec(n as nat)
    }
}

/// `s` split at every occurrence of `c`, as `str::split` with a char does.
pub open spec fn split(s: Seq<char>, c: char) -> Seq<Seq<char>>
    decreases s.len(),
{
    if s.len() == 0 {
        seq![seq![]]
    } else {
        let rest = split(s.drop_first(), c);
        if s[0] == c {
            seq![seq![]] + rest
        } else {
            seq![seq![s[0]] + rest[0]] + rest.drop_first()
        }
    }
}

/// A word free of `c` is split off whole: alone it is the only part, and
/// followed by `c` it is the first part, before the parts of the rest.
pub proof fn lemma_split_word(w: Seq<char>, rest: Seq<char>, c: char)
    requires
        forall|j: int| 0 <= j < w.len() ==> w[j] != c,
    ensures
        split(w, c) == seq![w],
        split(w + seq![c] + rest, c) == seq![w] + split(rest, c),
    decreases w.len(),
{
    let s = w + seq![c] + rest;
    if w.len() == 0 {
        assert(s.drop_first() =~= rest);
        assert(s[0] == c);
        assert(w =~= Seq::<char>::empty());
    } else {
        let w1 = w.drop_first();
        lemma_split_word(w1, rest, c);
        assert(s.drop_first() =~= w1 + seq![c] + rest);
        assert(s[0] == w[0]);
        assert(seq![w[0]] + w1 =~= w);
        assert(w.drop_first() =~= w1);
        assert((seq![w1] + split(rest, c)).drop_first() =~= split(rest, c));
        assert(seq![w] + split(rest, c) =~= seq![seq![w[0]] + w1] + split(rest, c));
    }
}

/// `pieces` joined with `sep` between each pair, as `[String]::join` does.
pub open spec fn join(pieces: Seq<Seq<char>>, sep: Seq<char>) -> Seq<char>
    decreases pieces.len(),
{
    if pieces.len() == 0 {
        seq![]
    } else if pieces.len() == 1 {
        pieces[0]
    } else {
        join(pieces.drop_last(), sep) + sep + pieces.last()
    }
}

/// The views of a list of strings.
pub open spec fn views(v: Seq<String>) -> Seq<Seq<char>> {
    v.map_values(|s: String| s@)
}

/// The part of `s` before the first `c`, as `s.split(c).next()` gives it.
pub open spec fn before_char(s: Seq<char>, c: char) -> Seq<char> {
    split(s, c)[0]
}

/// The split at `c` of `cur` followed by `rest`, when `cur` holds no `c`.
pub open spec fn split_tail(cur: Seq<char>, rest: Seq<char>, c: char) -> Seq<Seq<char>> {
    let sp = split(rest, c);
    seq![cur + sp[0]] + sp.drop_first()
}

/// `str::split` with a character, as vectors of characters.
pub fn split_exec(text: &[char], c: char) -> (r: Vec<Vec<char>>)
    ensures
        r@.map_values(|v: Vec<char>| v@) == split(text@, c),
{
    let mut parts: Vec<Vec<char>> = Vec::new();
    let mut cur: Vec<char> = Vec::new();
    let mut i: usize = 0;
    proof {
        lemma_split_len(text@, c);
        assert(text@.subrange(0, text@.len() as int) =~= text@);
        let sp = split(text@, c);
        assert(seq![Seq::<char>::empty() + sp[0]] + sp.drop_first() =~= sp);
        assert(parts@.map_values(|v: Vec<char>| v@) + split_tail(cur@, text@, c) =~= sp);
    }
    while i < text.len()
        invariant
            i <= text@.len(),
            split(text@, c) == parts@.map_values(|v: Vec<char>| v@) + split_tail(
                cur@,
                text@.subrange(i as int, text@.len() as int),
                c,
            ),
        decreases text@.len() - i,
    {
        let ghost rest = text@.subrange(i as int, text@.len() as int);
        let ghost rest1 = text@.subrange(i + 1, text@.len() as int);
        assert(rest.drop_first() =~= rest1);
        let ghost pv = parts@.map_values(|v: Vec<char>| v@);
        proof {
            lemma_split_len(rest1, c);
        }
        if text[i] == c {
            let done = cur;
            cur = Vec::new();
            parts.push(done);
            assert(parts@.map_values(|v: Vec<char>| v@) =~= pv.push(done@));
            let ghost sp1 = split(rest1, c);
            assert(split_tail(done@, rest, c) =~= seq![done@] + split_tail(Seq::<char>::empty(), rest1, c)) by {
                assert(seq![Seq::<char>::empty() + sp1[0]] + sp1.drop_first() =~= sp1);
            }
            assert(pv + split_tail(done@, rest, c) =~= parts@.map_values(|v: Vec<char>| v@) + split_tail(
                cur@,
                rest1,
                c,
            ));
        } else {
            let ghost before = cur@;
            cur.push(text[i]);
            let ghost sp1 = split(rest1, c);
            assert(split_tail(before, rest, c) =~= split_tail(cur@, rest1, c)) by {
                assert(before + (seq![text@[i as int]] + sp1[0]) =~= cur@ + sp1[0]);
            }
        }
        i = i + 1;
    }
    let ghost pv = parts@.map_values(|v: Vec<char>| v@);
    assert(text@.subrange(text@.len() as int, text@.len() as int) =~= Seq::<char>::empty());
    assert(split_tail(cur@, Seq::<char>::empty(), c) =~= seq![cur@]);
    parts.push(cur);
    assert(parts@.map_values(|v: Vec<char>| v@) =~= pv + seq![cur@]);
    parts
}

// ---------------------------------------------------------------------------
// Lemmas
// ---------------------------------------------------------------------------

/// Splitting always gives at least one piece.
pub proof fn lemma_split_len(s: Seq<char>, c: char)
    ensures
        split(s, c).len() >= 1,
    decreases s.len(),
{
    if s.len() > 0 {
        lemma_split_len(s.drop_first(), c);
    }
}

/// The first piece of a split is the longest prefix free of `c`.
pub proof fn lemma_split_first(s: Seq<char>, c: char, k: int)
    requires
        0 <= k <= s.len(),
        forall|j: int| 0 <= j < k ==> s[j] != c,
        k == s.len() || s[k] == c,
    ensures
        split(s, c)[0] == s.subrange(0, k),
    decreases s.len(),
{
    lemma_split_len(s, c);
    if s.len() > 0 {
        if k == 0 {
            assert(s.subrange(0, 0) =~= Seq::<char>::empty());
        } else {
            lemma_split_first(s.drop_first(), c, k - 1);
            assert(seq![s[0]] + s.drop_first().subrange(0, k - 1) =~= s.subrange(0, k));
        }
    }
}

/// A number written in decimal has at least one digit.
pub proof fn lemma_dec_len(n: nat)
    ensures
        dec(n).len() >= 1,
    decreases n,
{
    if n >= 10 {
        lemma_dec_len(n / 10);
    }
}

/// The decimal form of a number is all digits, reads back as the number,
/// and starts with no `0` unless the number is zero.
pub proof fn lemma_dec_reads_back(n: nat)
    ensures
        all_digits(dec(n)),
        digits_value(dec(n)) == n,
        dec(n)[0] == '0' <==> n == 0,
    decreases n,
{
    lemma_dec_len(n);
    let last = digit_char(n % 10);
    assert(last as u32 == n % 10 + 48);
    if n < 10 {
        let d = dec(n);
        assert(d.drop_last() =~= Seq::<char>::empty());
        assert(n % 10 == n);
        assert(d.last() == last);
        assert(digits_value(d) == digits_value(d.drop_last()) * 10 + ((d.last() as u32) - 48) as nat);
    } else {
        assert((n / 10) * 10 + n % 10 == n);
        lemma_dec_reads_back(n / 10);
        lemma_dec_len(n / 10);
        let d = dec(n);
        assert(d.drop_last() =~= dec(n / 10));
        assert(d.last() == last);
        assert(digits_value(d) == digits_value(d.drop_last()) * 10 + ((d.last() as u32) - 48) as nat);
        assert(d[0] == dec(n / 10)[0]);
        assert forall|i: int| 0 <= i < d.len() implies is_ascii_digit(#[trigger] d[i]) by {
            if i < d.len() - 1 {
                assert(d[i] == dec(n / 10)[i]);
            }
        }
    }
}

// ---------------------------------------------------------------------------
// Conversions
// ---------------------------------------------------------------------------

/// `String::push`, which appends one character.
#[verifier::external_body]
fn push_char(s: &mut String, c: char)
    ensures
        final(s)@ == old(s)@.push(c),
{
    s.push(c)
}

/// The characters of `s`.
pub fn chars_of(s: &str) -> (v: Vec<char>)
    ensures
        v@ == s@,
{
    let mut v: Vec<char> = Vec::new();
    for c in it: s.chars()
        invariant
            v@ == it.seq().take(it.index() as int),
    {
        v.push(c);
    }
    assert(v@ =~= s@);
    v
}

/// The string made of the characters of `v`.
pub fn string_of(v: &[char]) -> (s: String)
    ensures
        s@ == v@,
{
    let mut s = String::new();
    let mut i: usize = 0;
    while i < v.len()
        invariant
            i <= v@.len(),
            s@ == v@.subrange(0, i as int),
        decreases v@.len() - i,
    {
        push_char(&mut s, v[i]);
        assert(s@ =~= v@.subrange(0, i + 1));
        i = i + 1;
    }
    assert(v@.subrange(0, v@.len() as int) =~= v@);
    s
}

/// Appends the characters of `s` to `out`.
pub fn push_str(out: &mut Vec<char>, s: &str)
    ensures
        final(out)@ == old(out)@ + s@,
{
    let v = chars_of(s);
    out.extend_from_slice(v.as_slice());
}

pub fn push_slice(out: &mut Vec<char>, s: &[char])
    ensures
        final(out)@ == old(out)@ + s@,
{
    out.extend_from_slice(s);
}

/// A copy of `s[from..to]`.
pub fn slice_to_vec(s: &[char], from: usize, to: usize) -> (v: Vec<char>)
    requires
        from <= to <= s@.len(),
    ensures
        v@ == s@.subrange(from as int, to as int),
{
    let mut v: Vec<char> = Vec::new();
    let mut i = from;
    while i < to
        invariant
            from <= i <= to,
            to <= s@.len(),
            v@ == s@.subrange(from as int, i as int),
        decreases to - i,
    {
        v.push(s[i]);
        assert(v@ =~= s@.subrange(from as int, i + 1));
        i = i + 1;
    }
    v
}

/// The string made of `s[from..to]`.
pub fn substring(s: &[char], from: usize, to: usize) -> (r: String)
    requires
        from <= to <= s@.len(),
    ensures
        r@ == s@.subrange(from as int, to as int),
{
    let v = slice_to_vec(s, from, to);
    string_of(v.as_slice())
}

pub fn str_eq(a: &str, b: &str) -> (r: bool)
    ensures
        r == (a@ == b@),
{
    let x = chars_of(a);
    let y = chars_of(b);
    slices_eq(x.as_slice(), y.as_slice())
}

pub fn slices_eq(x: &[char], y: &[char]) -> (r: bool)
    ensures
        r == (x@ == y@),
{
    if x.len() != y.len() {
        return false;
    }
    let mut i: usize = 0;
    while i < x.len()
        invariant
            x@.len() == y@.len(),
            i <= x@.len(),
            forall|j: int| 0 <= j < i ==> x@[j] == y@[j],
        decreases x@.len() - i,
    {
        if x[i] != y[i] {
            return false;
        }
        i = i + 1;
    }
    assert(x@ =~= y@);
    true
}

/// Whether `v` is one of `options`.
pub fn is_one_of(v: &[char], options: &[&str]) -> (r: bool)
    ensures
        r == exists|i: int| 0 <= i < options@.len() && options@[i]@ == v@,
{
    let mut i: usize = 0;
    while i < options.len()
        invariant
            i <= options@.len(),
            forall|j: int| 0 <= j < i ==> options@[j]@ != v@,
        decreases options@.len() - i,
    {
        let o = chars_of(options[i]);
        if slices_eq(o.as_slice(), v) {
            return true;
        }
        i = i + 1;
    }
    false
}

// ---------------------------------------------------------------------------
// Searching
// ---------------------------------------------------------------------------

pub fn occurs_at_exec(s: &[char], p: &[char], i: usize) -> (r: bool)
    ensures
        r == occurs_at(s@, p@, i as int),
{
    if i > s.len() || p.len() > s.len() - i {
        return false;
    }
    let mut k: usize = 0;
    while k < p.len()
        invariant
            i + p@.len() <= s@.len(),
            s@.len() == s.len(),
            p@.len() == p.len(),
            k <= p@.len(),
            forall|j: int| 0 <= j < k ==> s@[i + j] == p@[j],
        decreases p@.len() - k,
    {
        if s[i + k] != p[k] {
            assert(s@.subrange(i as int, i + p@.len())[k as int] != p@[k as int]);
            return false;
        }
        k = k + 1;
    }
    assert(s@.subrange(i as int, i + p@.len()) =~= p@);
    true
}

pub fn starts_with_exec(s: &[char], p: &[char]) -> (r: bool)
    ensures
        r == starts_with(s@, p@),
{
    occurs_at_exec(s, p, 0)
}

pub fn ends_with_exec(s: &[char], p: &[char]) -> (r: bool)
    ensures
        r == ends_with(s@, p@),
{
    if p.len() > s.len() {
        return false;
    }
    occurs_at_exec(s, p, s.len() - p.len())
}

/// The first position at or after `from` at which `p` occurs.
pub fn find_from(s: &[char], p: &[char], from: usize) -> (r: Option<usize>)
    ensures
        match r {
            Some(i) => from <= i && occurs_at(s@, p@, i as int) && forall|j: int|
                from <= j < i ==> !occurs_at(s@, p@, j),
            None => forall|j: int| from <= j ==> !occurs_at(s@, p@, j),
        },
{
    let mut i = from;
    while i < s.len()
        invariant
            from <= i,
            forall|j: int| from <= j < i ==> !occurs_at(s@, p@, j),
        decreases s@.len() - i,
    {
        if occurs_at_exec(s, p, i) {
            return Some(i);
        }
        i = i + 1;
    }
    if i == s.len() && occurs_at_exec(s, p, i) {
        return Some(i);
    }
    assert forall|j: int| from <= j implies !occurs_at(s@, p@, j) by {
        if j > s@.len() {
        } else if j == s@.len() {
        }
    }
    None
}

/// The first position of `p` in `s`.
pub fn find_exec(s: &[char], p: &[char]) -> (r: Option<usize>)
    ensures
        match r {
            Some(i) => is_first_occurrence(s@, p@, i as int),
            None => !contains(s@, p@),
        },
        r matches Some(i) ==> find(s@, p@) == Some(i as int),
        r is None ==> find(s@, p@) is None,
{
    let r = find_from(s, p, 0);
    match r {
        Some(i) => {
            proof {
                assert(contains(s@, p@));
                let k = choose|k: int| is_first_occurrence(s@, p@, k);
                assert(is_first_occurrence(s@, p@, i as int));
                if k < i {
                } else if k > i {
                }
                assert(k == i);
            }
        },
        None => {
            assert forall|j: int| !occurs_at(s@, p@, j) by {
                if j < 0 {
                }
            }
        },
    }
    r
}

/// The last position of `p` in `s`.
pub fn rfind_exec(s: &[char], p: &[char]) -> (r: Option<usize>)
    ensures
        match r {
            Some(i) => is_last_occurrence(s@, p@, i as int),
            None => !contains(s@, p@),
        },
{
    if p.len() > s.len() {
        return None;
    }
    let n = s.len() - p.len();
    let mut i = n;
    loop
        invariant
            i <= n,
            n == s@.len() - p@.len(),
            forall|j: int| i < j <= s@.len() ==> !occurs_at(s@, p@, j),
        decreases i,
    {
        if occurs_at_exec(s, p, i) {
            return Some(i);
        }
        if i == 0 {
            return None;
        }
        i = i - 1;
    }
}

/// The first position of the character `c` at or after `from`.
pub fn find_char_from(s: &[char], c: char, from: usize) -> (r: Option<usize>)
    ensures
        match r {
            Some(i) => from <= i < s@.len() && s@[i as int] == c && forall|j: int|
                from <= j < i ==> s@[j] != c,
            None => forall|j: int| from <= j < s@.len() ==> s@[j] != c,
        },
{
    let mut i = from;
    while i < s.len()
        invariant
            from <= i,
            forall|j: int| from <= j < i && j < s@.len() ==> s@[j] != c,
        decreases s@.len() - i,
    {
        if s[i] == c {
            return Some(i);
        }
        i = i + 1;
    }
    None
}

/// The part of `s` before the first `c` (all of `s` when there is none).
pub fn before_char_exec(s: &[char], c: char) -> (r: Vec<char>)
    ensures
        r@ == before_char(s@, c),
{
    let end = match find_char_from(s, c, 0) {
        Some(i) => i,
        None => s.len(),
    };
    proof {
        lemma_split_first(s@, c, end as int);
    }
    slice_to_vec(s, 0, end)
}

pub fn contains_exec(s: &[char], p: &[char]) -> (r: bool)
    ensures
        r == contains(s@, p@),
{
    find_exec(s, p).is_some()
}

pub fn str_contains(s: &str, p: &str) -> (r: bool)
    ensures
        r == contains(s@, p@),
{
    let a = chars_of(s);
    let b = chars_of(p);
    contains_exec(a.as_slice(), b.as_slice())
}

pub fn str_starts_with(s: &str, p: &str) -> (r: bool)
    ensures
        r == starts_with(s@, p@),
{
    let a = chars_of(s);
    let b = chars_of(p);
    starts_with_exec(a.as_slice(), b.as_slice())
}

/// `str::strip_prefix` on characters.
pub fn strip_prefix_exec(s: &[char], p: &str) -> (r: Option<Vec<char>>)
    ensures
        match r {
            Some(v) => strip_prefix(s@, p@) == Some(v@),
            None => strip_prefix(s@, p@) is None,
        },
{
    let pv = chars_of(p);
    if starts_with_exec(s, pv.as_slice()) {
        Some(slice_to_vec(s, pv.len(), s.len()))
    } else {
        None
    }
}

/// `str::strip_suffix` on characters.
pub fn strip_suffix_exec(s: &[char], p: &str) -> (r: Option<Vec<char>>)
    ensures
        match r {
            Some(v) => strip_suffix(s@, p@) == Some(v@),
            None => strip_suffix(s@, p@) is None,
        },
{
    let pv = chars_of(p);
    if ends_with_exec(s, pv.as_slice()) {
        Some(slice_to_vec(s, 0, s.len() - pv.len()))
    } else {
        None
    }
}

// ---------------------------------------------------------------------------
// White space and case
// ---------------------------------------------------------------------------

pub fn is_whitespace_exec(c: char) -> (r: bool)
    ensures
        r == is_whitespace(c),
{
    let u = c as u32;
    (0x09 <= u && u <= 0x0d) || u == 0x20 || u == 0x85 || u == 0xa0 || u == 0x1680 || (0x2000 <= u
        && u <= 0x200a) || u == 0x2028 || u == 0x2029 || u == 0x202f || u == 0x205f || u == 0x3000
}

proof fn lemma_leading_ws(s: Seq<char>, k: int)
    requires
        0 <= k <= s.len(),
        forall|j: int| 0 <= j < k ==> is_whitespace(s[j]),
        k == s.len() || !is_whitespace(s[k]),
    ensures
        leading_ws(s) == k,
    decreases s.len(),
{
    if s.len() > 0 && k > 0 {
        lemma_leading_ws(s.drop_first(), k - 1);
    }
}

proof fn lemma_trailing_ws(s: Seq<char>, k: int)
    requires
        0 <= k <= s.len(),
        forall|j: int| s.len() - k <= j < s.len() ==> is_whitespace(s[j]),
        k == s.len() || !is_whitespace(s[s.len() - k - 1]),
    ensures
        trailing_ws(s) == k,
    decreases s.len(),
{
    if s.len() > 0 && k > 0 {
        lemma_trailing_ws(s.drop_last(), k - 1);
    }
}

/// The bounds of `s` with white space removed from both ends.
pub fn trim_bounds(s: &[char]) -> (r: (usize, usize))
    ensures
        r.0 <= r.1 <= s@.len(),
        s@.subrange(r.0 as int, r.1 as int) == trim(s@),
{
    let mut a: usize = 0;
    while a < s.len() && is_whitespace_exec(s[a])
        invariant
            a <= s@.len(),
            forall|j: int| 0 <= j < a ==> is_whitespace(s@[j]),
        decreases s@.len() - a,
    {
        a = a + 1;
    }
    proof {
        lemma_leading_ws(s@, a as int);
    }
    let ghost t = s@.subrange(a as int, s@.len() as int);
    let mut b: usize = s.len();
    while b > a && is_whitespace_exec(s[b - 1])
        invariant
            a <= b <= s@.len(),
            t == s@.subrange(a as int, s@.len() as int),
            forall|j: int| b <= j < s@.len() ==> is_whitespace(s@[j]),
        decreases b,
    {
        b = b - 1;
    }
    proof {
        lemma_trailing_ws(t, (s@.len() - b) as int);
        assert(t.subrange(0, b - a) =~= s@.subrange(a as int, b as int));
    }
    (a, b)
}

/// A copy of a list of strings.
pub fn copy_strings(v: &Vec<String>) -> (r: Vec<String>)
    ensures
        views(r@) == views(v@),
{
    let mut out: Vec<String> = Vec::new();
    let mut i: usize = 0;
    while i < v.len()
        invariant
            i <= v@.len(),
            out@.len() == i,
            forall|j: int| 0 <= j < i ==> (#[trigger] out@[j])@ == v@[j]@,
        decreases v@.len() - i,
    {
        out.push(string_of(chars_of(v[i].as_str()).as_slice()));
        i = i + 1;
    }
    assert(views(out@) =~= views(v@));
    out
}

/// `String::from_utf8`: the text the bytes encode, when they are UTF-8.
#[verifier::external_body]
pub(crate) fn utf8_string(bytes: Vec<u8>) -> (r: Option<String>)
    ensures
        r is Some <==> vstd::utf8::valid_utf8(bytes@),
        r matches Some(s) ==> s@ == vstd::utf8::decode_utf8(bytes@),
{
    String::from_utf8(bytes).ok()
}

/// `str::trim_start` on characters.
pub fn trim_start_exec(s: &[char]) -> (r: Vec<char>)
    ensures
        r@ == trim_start(s@),
{
    let mut a: usize = 0;
    while a < s.len() && is_whitespace_exec(s[a])
        invariant
            a <= s@.len(),
            forall|j: int| 0 <= j < a ==> is_whitespace(s@[j]),
        decreases s@.len() - a,
    {
        a = a + 1;
    }
    proof {
        lemma_leading_ws(s@, a as int);
    }
    slice_to_vec(s, a, s.len())
}

/// `str::trim` on characters.
pub fn trim_exec(s: &[char]) -> (r: Vec<char>)
    ensures
        r@ == trim(s@),
{
    let (a, b) = trim_bounds(s);
    slice_to_vec(s, a, b)
}

/// `str::trim`.
pub fn trim_str(s: &str) -> (r: String)
    ensures
        r@ == trim(s@),
{
    let v = chars_of(s);
    let t = trim_exec(v.as_slice());
    string_of(t.as_slice())
}

pub fn ascii_lower_exec(s: &[char]) -> (r: Vec<char>)
    ensures
        r@ == ascii_lower(s@),
{
    let mut r: Vec<char> = Vec::new();
    let mut i: usize = 0;
    while i < s.len()
        invariant
            i <= s@.len(),
            r@ == ascii_lower(s@.subrange(0, i as int)),
        decreases s@.len() - i,
    {
        let c = s[i];
        let l = if 'A' <= c && c <= 'Z' {
            char_from_u32_ascii((c as u32) + 32)
        } else {
            c
        };
        r.push(l);
        assert(ascii_lower(s@.subrange(0, i + 1)) =~= ascii_lower(s@.subrange(0, i as int)).push(
            ascii_lower_char(c),
        ));
        i = i + 1;
    }
    assert(s@.subrange(0, s@.len() as int) =~= s@);
    r
}

pub fn ascii_upper_exec(s: &[char]) -> (r: Vec<char>)
    ensures
        r@ == ascii_upper(s@),
{
    let mut r: Vec<char> = Vec::new();
    let mut i: usize = 0;
    while i < s.len()
        invariant
            i <= s@.len(),
            r@ == ascii_upper(s@.subrange(0, i as int)),
        decreases s@.len() - i,
    {
        let c = s[i];
        let l = if 'a' <= c && c <= 'z' {
            char_from_u32_ascii((c as u32) - 32)
        } else {
            c
        };
        r.push(l);
        assert(ascii_upper(s@.subrange(0, i + 1)) =~= ascii_upper(s@.subrange(0, i as int)).push(
            ascii_upper_char(c),
        ));
        i = i + 1;
    }
    assert(s@.subrange(0, s@.len() as int) =~= s@);
    r
}

/// `str::eq_ignore_ascii_case`.
pub fn eq_ignore_ascii_case_exec(a: &[char], b: &[char]) -> (r: bool)
    ensures
        r == eq_ignore_ascii_case(a@, b@),
{
    let x = ascii_lower_exec(a);
    let y = ascii_lower_exec(b);
    let r = slices_eq(x.as_slice(), y.as_slice());
    proof {
        if !r && x@.len() == y@.len() {
        }
    }
    r
}

/// The character with the given ASCII code.
pub fn char_from_u32_ascii(u: u32) -> (c: char)
    requires
        u < 128,
    ensures
        c as u32 == u,
{
    (u as u8) as char
}

pub fn digit_char_exec(d: u64) -> (c: char)
    requires
        d < 10,
    ensures
        c == digit_char(d as nat),
{
    char_from_u32_ascii((d + 48) as u32)
}

// ---------------------------------------------------------------------------
// Numbers
// ---------------------------------------------------------------------------

/// Decimal digits of `n`.
pub fn dec_u64(n: u64) -> (r: Vec<char>)
    ensures
        r@ == dec(n as nat),
    decreases n,
{
    if n < 10 {
        let mut v: Vec<char> = Vec::new();
        v.push(digit_char_exec(n));
        assert(v@ =~= seq![digit_char(n as nat)]);
        v
    } else {
        let mut v = dec_u64(n / 10);
        v.push(digit_char_exec(n % 10));
        v
    }
}

/// Decimal form of `n`, with a minus sign when negative.
pub fn dec_i64(n: i64) -> (r: Vec<char>)
    ensures
        r@ == dec_int(n as int),
{
    if n < 0 {
        let m: u64 = if n == i64::MIN {
            9223372036854775808u64
        } else {
            (-n) as u64
        };
        let mut v: Vec<char> = Vec::new();
        v.push('-');
        let d = dec_u64(m);
        v.extend_from_slice(d.as_slice());
        assert(v@ =~= seq!['-'] + dec(m as nat));
        v
    } else {
        dec_u64(n as u64)
    }
}

/// `i32::to_string`.
pub fn i32_to_string(n: i32) -> (r: String)
    ensures
        r@ == dec_int(n as int),
{
    let v = dec_i64(n as i64);
    string_of(v.as_slice())
}

/// The value of a run of decimal digits.
pub open spec fn digits_value(s: Seq<char>) -> nat
    decreases s.len(),
{
    if s.len() == 0 {
        0
    } else {
        digits_value(s.drop_last()) * 10 + ((s.last() as u32) - 48) as nat
    }
}

/// `str::parse::<i64>` for a non-empty run of ASCII digits that fits.
pub open spec fn parse_digits(s: Seq<char>) -> Option<i64> {
    if s.len() > 0 && all_digits(s) && digits_value(s) <= i64::MAX {
        Some(digits_value(s) as i64)
    } else {
        None
    }
}

/// Reads a non-empty run of ASCII digits as a number, failing on overflow.
pub fn parse_digits_exec(s: &[char]) -> (r: Option<i64>)
    ensures
        r == parse_digits(s@),
{
    if s.len() == 0 {
        return None;
    }
    let mut v: i64 = 0;
    let mut i: usize = 0;
    while i < s.len()
        invariant
            i <= s@.len(),
            s@.len() > 0,
            all_digits(s@.subrange(0, i as int)),
            0 <= v,
            v as nat == digits_value(s@.subrange(0, i as int)),
        decreases s@.len() - i,
    {
        let c = s[i];
        if !('0' <= c && c <= '9') {
            assert(!all_digits(s@)) by {
                assert(!is_ascii_digit(s@[i as int]));
            }
            return None;
        }
        let d = (c as u32 - 48) as i64;
        assert(s@.subrange(0, i + 1).drop_last() =~= s@.subrange(0, i as int));
        assert(digits_value(s@.subrange(0, i + 1)) == digits_value(s@.subrange(0, i as int)) * 10
            + d);
        if v > (i64::MAX - d) / 10 {
            proof {
                assert(v * 10 + d > i64::MAX) by (nonlinear_arith)
                    requires v > (i64::MAX - d) / 10, 0 <= d < 10;
                if all_digits(s@) {
                    lemma_digits_value_prefix(s@, i + 1);
                }
            }
            return None;
        }
        assert(v * 10 + d <= i64::MAX) by (nonlinear_arith)
            requires v <= (i64::MAX - d) / 10, 0 <= d < 10, v >= 0;
        assert(all_digits(s@.subrange(0, i + 1))) by {
            assert forall|j: int| 0 <= j < i + 1 implies is_ascii_digit(#[trigger] s@.subrange(0, i + 1)[j]) by {
                if j < i {
                    assert(s@.subrange(0, i + 1)[j] == s@.subrange(0, i as int)[j]);
                }
            }
        }
        v = v * 10 + d;
        i = i + 1;
    }
    assert(s@.subrange(0, s@.len() as int) =~= s@);
    Some(v)
}

/// A value only grows as digits are appended.
pub proof fn lemma_digits_value_prefix(s: Seq<char>, k: int)
    requires
        0 <= k <= s.len(),
        all_digits(s),
    ensures
        digits_value(s.subrange(0, k)) <= digits_value(s),
    decreases s.len() - k,
{
    if k < s.len() {
        lemma_digits_value_prefix(s, k + 1);
        assert(s.subrange(0, k + 1).drop_last() =~= s.subrange(0, k));
        assert(is_ascii_digit(s[k]));
    } else {
        assert(s.subrange(0, k) =~= s);
    }
}

// ---------------------------------------------------------------------------
// Unicode lower case
// ---------------------------------------------------------------------------

/// What `str::to_lowercase` gives for a text: its Unicode lower case, which
/// depends on the Unicode tables and, for a final sigma, on the characters
/// around it.
pub uninterp spec fn lowercase(s: Seq<char>) -> Seq<char>;

/// A text of ASCII characters only.
pub open spec fn all_ascii(s: Seq<char>) -> bool {
    forall|i: int| 0 <= i < s.len() ==> (#[trigger] s[i] as u32) < 128
}

/// `str::to_lowercase`: an ASCII text comes out in its ASCII lower case, as
/// std documents; of other texts only the name is stated.
#[verifier::external_body]
pub(crate) fn to_lowercase(s: &str) -> (r: String)
    ensures
        r@ == lowercase(s@),
        all_ascii(s@) ==> r@ == ascii_lower(s@),
{
    s.to_lowercase()
}

// ---------------------------------------------------------------------------
// Signed numbers
// ---------------------------------------------------------------------------

/// `str::parse::<u64>` on a non-empty run of ASCII digits that fits.
pub open spec fn parse_digits_u64(s: Seq<char>) -> Option<u64> {
    if s.len() > 0 && all_digits(s) && digits_value(s) <= u64::MAX {
        Some(digits_value(s) as u64)
    } else {
        None
    }
}

pub fn parse_digits_u64_exec(s: &[char]) -> (r: Option<u64>)
    ensures
        r == parse_digits_u64(s@),
{
    if s.len() == 0 {
        return None;
    }
    let mut v: u64 = 0;
    let mut i: usize = 0;
    while i < s.len()
        invariant
            i <= s@.len(),
            s@.len() > 0,
            all_digits(s@.subrange(0, i as int)),
            v as nat == digits_value(s@.subrange(0, i as int)),
        decreases s@.len() - i,
    {
        let c = s[i];
        if !('0' <= c && c <= '9') {
            assert(!all_digits(s@)) by {
                assert(!is_ascii_digit(s@[i as int]));
            }
            return None;
        }
        let d = (c as u32 - 48) as u64;
        assert(s@.subrange(0, i + 1).drop_last() =~= s@.subrange(0, i as int));
        assert(digits_value(s@.subrange(0, i + 1)) == digits_value(s@.subrange(0, i as int)) * 10
            + d);
        if v > (u64::MAX - d) / 10 {
            proof {
                assert(v * 10 + d > u64::MAX) by (nonlinear_arith)
                    requires v > (u64::MAX - d) / 10, 0 <= d < 10;
                if all_digits(s@) {
                    lemma_digits_value_prefix(s@, i + 1);
                }
            }
            return None;
        }
        assert(v * 10 + d <= u64::MAX) by (nonlinear_arith)
            requires v <= (u64::MAX - d) / 10, 0 <= d < 10;
        assert(all_digits(s@.subrange(0, i + 1))) by {
            assert forall|j: int| 0 <= j < i + 1 implies is_ascii_digit(#[trigger] s@.subrange(0, i + 1)[j]) by {
                if j < i {
                    assert(s@.subrange(0, i + 1)[j] == s@.subrange(0, i as int)[j]);
                }
            }
        }
        v = v * 10 + d;
        i = i + 1;
    }
    assert(s@.subrange(0, s@.len() as int) =~= s@);
    Some(v)
}

/// `str::parse::<i64>`: an optional sign, then a non-empty run of ASCII
/// digits whose value fits.
pub open spec fn parse_i64(s: Seq<char>) -> Option<i64> {
    if s.len() > 0 && s[0] == '-' {
        match parse_digits_u64(s.drop_first()) {
            Some(v) => if v <= 0x8000_0000_0000_0000 {
                Some((-(v as int)) as i64)
            } else {
                None
            },
            None => None,
        }
    } else {
        let d = if s.len() > 0 && s[0] == '+' {
            s.drop_first()
        } else {
            s
        };
        match parse_digits_u64(d) {
            Some(v) => if v <= i64::MAX {
                Some(v as i64)
            } else {
                None
            },
            None => None,
        }
    }
}

pub fn parse_i64_exec(s: &[char]) -> (r: Option<i64>)
    ensures
        r == parse_i64(s@),
{
    if s.len() > 0 && s[0] == '-' {
        let d = slice_to_vec(s, 1, s.len());
        assert(d@ =~= s@.drop_first());
        match parse_digits_u64_exec(d.as_slice()) {
            Some(v) => if v <= 0x8000_0000_0000_0000u64 {
                if v == 0x8000_0000_0000_0000u64 {
                    Some(i64::MIN)
                } else {
                    Some(-(v as i64))
                }
            } else {
                None
            },
            None => None,
        }
    } else {
        let d = if s.len() > 0 && s[0] == '+' {
            slice_to_vec(s, 1, s.len())
        } else {
            slice_to_vec(s, 0, s.len())
        };
        assert(s@.subrange(0, s@.len() as int) =~= s@);
        assert(s@.len() > 0 ==> s@.subrange(1, s@.len() as int) =~= s@.drop_first());
        match parse_digits_u64_exec(d.as_slice()) {
            Some(v) => if v <= i64::MAX as u64 {
                Some(v as i64)
            } else {
                None
            },
            None => None,
        }
    }
}

// ---------------------------------------------------------------------------
// Replacing and words
// ---------------------------------------------------------------------------

/// `str::replace`: every occurrence of `from`, left to right and without
/// overlaps, replaced by `to`.
pub open spec fn replace(s: Seq<char>, from: Seq<char>, to: Seq<char>) -> Seq<char>
    decreases s.len(),
{
    if s.len() == 0 || from.len() == 0 {
        s
    } else if starts_with(s, from) {
        to + replace(s.subrange(from.len() as int, s.len() as int), from, to)
    } else {
        seq![s[0]] + replace(s.drop_first(), from, to)
    }
}

/// `str::replace` with a non-empty pattern.
pub fn replace_exec(s: &[char], from: &str, to: &str) -> (r: Vec<char>)
    requires
        from@.len() > 0,
    ensures
        r@ == replace(s@, from@, to@),
{
    let f = chars_of(from);
    let t = chars_of(to);
    let mut out: Vec<char> = Vec::new();
    let mut i: usize = 0;
    assert(s@.subrange(0, s@.len() as int) =~= s@);
    while i < s.len()
        invariant
            i <= s@.len(),
            f@ == from@,
            t@ == to@,
            f@.len() > 0,
            out@ + replace(s@.subrange(i as int, s@.len() as int), from@, to@) == replace(s@, from@, to@),
        decreases s@.len() - i,
    {
        let ghost rest = s@.subrange(i as int, s@.len() as int);
        if occurs_at_exec(s, f.as_slice(), i) {
            assert(rest.subrange(0, f@.len() as int) =~= s@.subrange(i as int, i + f@.len()));
            assert(rest.subrange(f@.len() as int, rest.len() as int) =~= s@.subrange(
                i + f@.len(),
                s@.len() as int,
            ));
            let ghost before = out@;
            out.extend_from_slice(t.as_slice());
            assert(before + (to@ + replace(s@.subrange(i + f@.len(), s@.len() as int), from@, to@))
                =~= out@ + replace(s@.subrange(i + f@.len(), s@.len() as int), from@, to@));
            i = i + f.len();
        } else {
            proof {
                if starts_with(rest, from@) {
                    assert(rest.subrange(0, f@.len() as int) =~= s@.subrange(i as int, i + f@.len()));
                }
            }
            assert(rest.drop_first() =~= s@.subrange(i + 1, s@.len() as int));
            let ghost before = out@;
            out.push(s[i]);
            assert(before + (seq![s@[i as int]] + replace(s@.subrange(i + 1, s@.len() as int), from@, to@))
                =~= out@ + replace(s@.subrange(i + 1, s@.len() as int), from@, to@));
            i = i + 1;
        }
    }
    assert(s@.subrange(s@.len() as int, s@.len() as int) =~= Seq::<char>::empty());
    assert(out@ + Seq::<char>::empty() =~= out@);
    out
}

/// The part of `s` before the first character that is one of `stops`, as
/// `s.split(stops).next()` gives it.
pub open spec fn before_set(s: Seq<char>, stops: Seq<char>) -> Seq<char>
    decreases s.len(),
{
    if s.len() == 0 || stops.contains(s[0]) {
        Seq::empty()
    } else {
        seq![s[0]] + before_set(s.drop_first(), stops)
    }
}

/// A text free of the stops is all before them.
pub proof fn lemma_before_set_free(s: Seq<char>, stops: Seq<char>)
    requires
        forall|j: int| 0 <= j < s.len() ==> !stops.contains(#[trigger] s[j]),
    ensures
        before_set(s, stops) == s,
    decreases s.len(),
{
    if s.len() > 0 {
        assert(!stops.contains(s[0]));
        lemma_before_set_free(s.drop_first(), stops);
        assert(seq![s[0]] + s.drop_first() =~= s);
    }
}

proof fn lemma_before_set(s: Seq<char>, stops: Seq<char>, k: int)
    requires
        0 <= k <= s.len(),
        forall|j: int| 0 <= j < k ==> !stops.contains(#[trigger] s[j]),
        k == s.len() || stops.contains(s[k]),
    ensures
        before_set(s, stops) == s.subrange(0, k),
    decreases k,
{
    if k > 0 {
        lemma_before_set(s.drop_first(), stops, k - 1);
        assert(seq![s[0]] + s.drop_first().subrange(0, k - 1) =~= s.subrange(0, k));
    } else {
        assert(s.subrange(0, 0) =~= Seq::<char>::empty());
    }
}

pub fn before_set_exec(s: &[char], stops: &[char]) -> (r: Vec<char>)
    ensures
        r@ == before_set(s@, stops@),
{
    let mut k: usize = 0;
    while k < s.len()
        invariant
            k <= s@.len(),
            forall|j: int| 0 <= j < k ==> !stops@.contains(#[trigger] s@[j]),
        decreases s@.len() - k,
    {
        let mut m: usize = 0;
        let mut hit = false;
        while m < stops.len()
            invariant
                m <= stops@.len(),
                k < s@.len(),
                hit == exists|x: int| 0 <= x < m && stops@[x] == s@[k as int],
            decreases stops@.len() - m,
        {
            if stops[m] == s[k] {
                hit = true;
            }
            m = m + 1;
        }
        if hit {
            proof {
                lemma_before_set(s@, stops@, k as int);
            }
            return slice_to_vec(s, 0, k);
        }
        k = k + 1;
    }
    proof {
        lemma_before_set(s@, stops@, k as int);
    }
    slice_to_vec(s, 0, k)
}

/// Length of the leading run of characters that are not white space.
pub open spec fn word_len(s: Seq<char>) -> nat
    decreases s.len(),
{
    if s.len() == 0 || is_whitespace(s[0]) {
        0
    } else {
        1 + word_len(s.drop_first())
    }
}

/// The first word of `s`, as `s.split_whitespace().next()` gives it.
pub open spec fn first_word(s: Seq<char>) -> Option<Seq<char>> {
    let t = trim_start(s);
    if t.len() == 0 {
        None
    } else {
        Some(t.subrange(0, word_len(t) as int))
    }
}

/// What follows the first word of `s`.
pub open spec fn after_first_word(s: Seq<char>) -> Seq<char> {
    let t = trim_start(s);
    t.subrange(word_len(t) as int, t.len() as int)
}

proof fn lemma_word_len(s: Seq<char>, k: int)
    requires
        0 <= k <= s.len(),
        forall|j: int| 0 <= j < k ==> !is_whitespace(#[trigger] s[j]),
        k == s.len() || is_whitespace(s[k]),
    ensures
        word_len(s) == k,
    decreases k,
{
    if k > 0 {
        lemma_word_len(s.drop_first(), k - 1);
    }
}

/// The bounds of the first word of `s`.
pub fn first_word_bounds(s: &[char]) -> (r: Option<(usize, usize)>)
    ensures
        match r {
            Some((a, b)) => a < b <= s@.len() && first_word(s@) == Some(s@.subrange(a as int, b as int))
                && after_first_word(s@) == s@.subrange(b as int, s@.len() as int),
            None => first_word(s@) is None,
        },
{
    let mut a: usize = 0;
    while a < s.len() && is_whitespace_exec(s[a])
        invariant
            a <= s@.len(),
            forall|j: int| 0 <= j < a ==> is_whitespace(s@[j]),
        decreases s@.len() - a,
    {
        a = a + 1;
    }
    proof {
        lemma_leading_ws(s@, a as int);
    }
    let ghost t = s@.subrange(a as int, s@.len() as int);
    if a == s.len() {
        return None;
    }
    let mut b: usize = a;
    while b < s.len() && !is_whitespace_exec(s[b])
        invariant
            a <= b <= s@.len(),
            forall|j: int| a <= j < b ==> !is_whitespace(s@[j]),
        decreases s@.len() - b,
    {
        b = b + 1;
    }
    proof {
        assert forall|j: int| 0 <= j < b - a implies !is_whitespace(#[trigger] t[j]) by {
            assert(t[j] == s@[a + j]);
        }
        if b < s@.len() {
            assert(t[b - a] == s@[b as int]);
        }
        lemma_word_len(t, (b - a) as int);
        assert(t.subrange(0, b - a) =~= s@.subrange(a as int, b as int));
        assert(t.subrange(b - a, t.len() as int) =~= s@.subrange(b as int, s@.len() as int));
    }
    Some((a, b))
}

/// The words of `s`, as `s.split_whitespace()` gives them.
pub open spec fn words(s: Seq<char>) -> Seq<Seq<char>>
    decreases s.len(),
{
    match first_word(s) {
        Some(w) => {
            proof {
                lemma_after_first_word_len(s);
            }
            seq![w] + words(after_first_word(s))
        },
        None => Seq::empty(),
    }
}

/// What follows the first word is shorter than the text.
pub proof fn lemma_after_first_word_len(s: Seq<char>)
    requires
        first_word(s) is Some,
    ensures
        after_first_word(s).len() < s.len(),
{
    lemma_leading_ws_props(s);
    let t = trim_start(s);
    assert(t[0] == s[leading_ws(s) as int]);
    lemma_word_len_le(t);
}

/// The leading white space lies within the text, and what follows it is
/// not white space.
pub proof fn lemma_leading_ws_props(s: Seq<char>)
    ensures
        leading_ws(s) <= s.len(),
        leading_ws(s) < s.len() ==> !is_whitespace(s[leading_ws(s) as int]),
    decreases s.len(),
{
    if s.len() > 0 && is_whitespace(s[0]) {
        lemma_leading_ws_props(s.drop_first());
    }
}

/// A word is no longer than the text it starts.
pub proof fn lemma_word_len_le(t: Seq<char>)
    ensures
        word_len(t) <= t.len(),
    decreases t.len(),
{
    if t.len() > 0 && !is_whitespace(t[0]) {
        lemma_word_len_le(t.drop_first());
    }
}

/// `s.split_whitespace().collect::<Vec<_>>().join(" ")`: the words of `s`
/// with single spaces between them.
pub fn normalize_ws(s: &str) -> (r: String)
    ensures
        r@ == join(words(s@), " "@),
{
    let v = chars_of(s);
    let mut rest = v;
    let mut out: Vec<char> = Vec::new();
    let ghost mut done: Seq<Seq<char>> = Seq::empty();
    let mut any = false;
    assert(Seq::<Seq<char>>::empty() + words(rest@) =~= words(rest@));
    loop
        invariant
            words(s@) == done + words(rest@),
            out@ == join(done, " "@),
            any == (done.len() > 0),
        decreases rest@.len(),
    {
        match first_word_bounds(rest.as_slice()) {
            Some((a, b)) => {
                proof {
                    lemma_after_first_word_len(rest@);
                }
                let w = slice_to_vec(rest.as_slice(), a, b);
                let ghost before = out@;
                if any {
                    push_str(&mut out, " ");
                }
                out.extend_from_slice(w.as_slice());
                any = true;
                proof {
                    let nd = done.push(w@);
                    assert(nd.drop_last() =~= done);
                    if done.len() == 0 {
                        assert(nd =~= seq![w@]);
                        assert(out@ =~= w@);
                    } else {
                        assert(out@ =~= before + " "@ + w@);
                    }
                    assert(seq![w@] + words(after_first_word(rest@)) == words(rest@));
                    assert(done + words(rest@) =~= nd + words(after_first_word(rest@)));
                    done = nd;
                }
                rest = slice_to_vec(rest.as_slice(), b, rest.len());
            },
            None => {
                assert(words(rest@) =~= Seq::<Seq<char>>::empty());
                assert(done + Seq::<Seq<char>>::empty() =~= done);
                return string_of(out.as_slice());
            },
        }
    }
}

// ---------------------------------------------------------------------------
// Scanning from a position
// ---------------------------------------------------------------------------

/// The first position at or after `k` where `p` occurs.
pub open spec fn pattern_from(s: Seq<char>, p: Seq<char>, k: int) -> Option<int>
    decreases s.len() - k,
{
    if k < 0 || k + p.len() > s.len() {
        None
    } else if p.len() == 0 || occurs_at(s, p, k) {
        Some(k)
    } else {
        pattern_from(s, p, k + 1)
    }
}

/// An occurrence found from `k` on is at or after `k`, within the text, and
/// is one.
pub proof fn lemma_pattern_from(s: Seq<char>, p: Seq<char>, k: int)
    ensures
        pattern_from(s, p, k) matches Some(i) ==> k <= i && i + p.len() <= s.len() && occurs_at(s, p, i),
    decreases s.len() - k,
{
    if !(k < 0 || k + p.len() > s.len()) {
        if p.len() == 0 {
            assert(s.subrange(k, k) =~= p);
        } else if !occurs_at(s, p, k) {
            lemma_pattern_from(s, p, k + 1);
        }
    }
}

pub fn pattern_from_exec(s: &[char], p: &[char], k: usize) -> (r: Option<usize>)
    ensures
        match r {
            Some(i) => pattern_from(s@, p@, k as int) == Some(i as int),
            None => pattern_from(s@, p@, k as int) is None,
        },
{
    let mut j: usize = k;
    while j <= s.len() && p.len() <= s.len() - j
        invariant
            k <= j,
            pattern_from(s@, p@, j as int) == pattern_from(s@, p@, k as int),
        decreases s@.len() - j,
    {
        if p.len() == 0 || occurs_at_exec(s, p, j) {
            return Some(j);
        }
        j = j + 1;
    }
    None
}

/// The last position at or before `k` where `p` occurs.
pub open spec fn pattern_before(s: Seq<char>, p: Seq<char>, k: int) -> Option<int>
    decreases k + 1,
{
    if k < 0 {
        None
    } else if k + p.len() <= s.len() && occurs_at(s, p, k) {
        Some(k)
    } else {
        pattern_before(s, p, k - 1)
    }
}

/// Searching back from `k`, an occurrence at `i` with none after it up to
/// `k` is the one found.
pub proof fn lemma_pattern_before_last(s: Seq<char>, p: Seq<char>, k: int, i: int)
    requires
        0 <= i <= k,
        i + p.len() <= s.len(),
        occurs_at(s, p, i),
        forall|j: int| i < j <= k ==> !occurs_at(s, p, j),
    ensures
        pattern_before(s, p, k) == Some(i),
    decreases k - i,
{
    if k > i {
        lemma_pattern_before_last(s, p, k - 1, i);
    }
}

/// The last position where `p` occurs, as `str::rfind` finds it.
pub open spec fn rfind(s: Seq<char>, p: Seq<char>) -> Option<int> {
    pattern_before(s, p, s.len() - p.len())
}

/// An occurrence found at or before `k` is one, within the text.
pub proof fn lemma_pattern_before(s: Seq<char>, p: Seq<char>, k: int)
    ensures
        pattern_before(s, p, k) matches Some(i) ==> 0 <= i <= k && i + p.len() <= s.len() && occurs_at(s, p, i),
    decreases k + 1,
{
    if k >= 0 && !(k + p.len() <= s.len() && occurs_at(s, p, k)) {
        lemma_pattern_before(s, p, k - 1);
    }
}

pub fn rfind_pattern(s: &[char], p: &[char]) -> (r: Option<usize>)
    ensures
        match r {
            Some(i) => rfind(s@, p@) == Some(i as int),
            None => rfind(s@, p@) is None,
        },
{
    if p.len() > s.len() {
        return None;
    }
    let mut j: usize = s.len() - p.len();
    loop
        invariant
            j + p@.len() <= s@.len(),
            pattern_before(s@, p@, j as int) == rfind(s@, p@),
        decreases j,
    {
        if occurs_at_exec(s, p, j) {
            return Some(j);
        }
        if j == 0 {
            assert(pattern_before(s@, p@, -1) is None);
            return None;
        }
        j = j - 1;
    }
}

/// `s` with `p` removed from its start as often as it occurs there, as
/// `trim_start_matches` with a string does.
pub open spec fn trim_start_str(s: Seq<char>, p: Seq<char>) -> Seq<char>
    decreases s.len(),
{
    if p.len() > 0 && starts_with(s, p) {
        trim_start_str(s.subrange(p.len() as int, s.len() as int), p)
    } else {
        s
    }
}

pub fn trim_start_str_exec(s: &[char], p: &[char]) -> (r: Vec<char>)
    ensures
        r@ == trim_start_str(s@, p@),
{
    let mut i: usize = 0;
    assert(s@.subrange(0, s@.len() as int) =~= s@);
    while p.len() > 0 && p.len() <= s.len() - i && occurs_at_exec(s, p, i)
        invariant
            i <= s@.len(),
            trim_start_str(s@.subrange(i as int, s@.len() as int), p@) == trim_start_str(s@, p@),
        decreases s@.len() - i,
    {
        let ghost t = s@.subrange(i as int, s@.len() as int);
        assert(t.subrange(0, p@.len() as int) =~= s@.subrange(i as int, i + p@.len()));
        assert(t.subrange(p@.len() as int, t.len() as int) =~= s@.subrange(i + p@.len(), s@.len() as int));
        i = i + p.len();
    }
    proof {
        let t = s@.subrange(i as int, s@.len() as int);
        if p@.len() > 0 && starts_with(t, p@) {
            assert(t.subrange(0, p@.len() as int) =~= s@.subrange(i as int, i + p@.len()));
        }
    }
    slice_to_vec(s, i, s.len())
}

/// The first position at or after `k` holding `c`.
pub open spec fn char_from(s: Seq<char>, c: char, k: int) -> Option<int>
    decreases s.len() - k,
{
    if k < 0 || k >= s.len() {
        None
    } else if s[k] == c {
        Some(k)
    } else {
        char_from(s, c, k + 1)
    }
}

/// A character found from `k` on is at or after `k` and is that character.
pub proof fn lemma_char_from(s: Seq<char>, c: char, k: int)
    ensures
        char_from(s, c, k) matches Some(i) ==> k <= i < s.len() && s[i] == c,
    decreases s.len() - k,
{
    if !(k < 0 || k >= s.len()) && s[k] != c {
        lemma_char_from(s, c, k + 1);
    }
}

/// Searching from `k`, the first `c` at or after `k` is found, and none is
/// found where there is none.
pub proof fn lemma_char_from_first(s: Seq<char>, c: char, k: int, i: int)
    requires
        0 <= k <= i <= s.len(),
        forall|j: int| k <= j < i ==> s[j] != c,
    ensures
        i < s.len() && s[i] == c ==> char_from(s, c, k) == Some(i),
        i == s.len() ==> char_from(s, c, k) is None,
    decreases i - k,
{
    if k < i {
        lemma_char_from_first(s, c, k + 1, i);
    }
}

pub fn char_from_exec(s: &[char], c: char, k: usize) -> (r: Option<usize>)
    ensures
        match r {
            Some(i) => char_from(s@, c, k as int) == Some(i as int),
            None => char_from(s@, c, k as int) is None,
        },
{
    let mut j: usize = k;
    while j < s.len()
        invariant
            k <= j,
            char_from(s@, c, j as int) == char_from(s@, c, k as int),
        decreases s@.len() - j,
    {
        if s[j] == c {
            return Some(j);
        }
        j = j + 1;
    }
    None
}

/// The last position before `k` holding `c`.
pub open spec fn char_before(s: Seq<char>, c: char, k: int) -> Option<int>
    decreases k,
{
    if k <= 0 || k > s.len() {
        None
    } else if s[k - 1] == c {
        Some(k - 1)
    } else {
        char_before(s, c, k - 1)
    }
}

/// A character found before `k` is before `k` and is that character.
pub proof fn lemma_char_before(s: Seq<char>, c: char, k: int)
    ensures
        char_before(s, c, k) matches Some(i) ==> 0 <= i < k && s[i] == c,
    decreases k,
{
    if !(k <= 0 || k > s.len()) && s[k - 1] != c {
        lemma_char_before(s, c, k - 1);
    }
}

/// Searching back from `k`, a `c` at `i` with none after it before `k` is
/// the one found.
pub proof fn lemma_char_before_last(s: Seq<char>, c: char, k: int, i: int)
    requires
        0 <= i < k <= s.len(),
        s[i] == c,
        forall|j: int| i < j < k ==> s[j] != c,
    ensures
        char_before(s, c, k) == Some(i),
    decreases k - i,
{
    if k - 1 > i {
        lemma_char_before_last(s, c, k - 1, i);
    }
}

pub fn char_before_exec(s: &[char], c: char, k: usize) -> (r: Option<usize>)
    requires
        k <= s@.len(),
    ensures
        match r {
            Some(i) => char_before(s@, c, k as int) == Some(i as int),
            None => char_before(s@, c, k as int) is None,
        },
{
    let mut j: usize = k;
    while j > 0
        invariant
            j <= k <= s@.len(),
            char_before(s@, c, j as int) == char_before(s@, c, k as int),
        decreases j,
    {
        if s[j - 1] == c {
            return Some(j - 1);
        }
        j = j - 1;
    }
    None
}

/// `s` with the characters of `set` removed from its start, as
/// `trim_start_matches` with a set of characters does.
pub open spec fn trim_start_set(s: Seq<char>, set: Seq<char>) -> Seq<char>
    decreases s.len(),
{
    if s.len() > 0 && set.contains(s[0]) {
        trim_start_set(s.drop_first(), set)
    } else {
        s
    }
}

pub fn trim_start_set_exec(s: &[char], set: &[char]) -> (r: Vec<char>)
    ensures
        r@ == trim_start_set(s@, set@),
{
    let mut i: usize = 0;
    assert(s@.subrange(0, s@.len() as int) =~= s@);
    loop
        invariant
            i <= s@.len(),
            trim_start_set(s@.subrange(i as int, s@.len() as int), set@) == trim_start_set(s@, set@),
        decreases s@.len() - i,
    {
        if i == s.len() {
            return slice_to_vec(s, i, i);
        }
        let mut m: usize = 0;
        let mut hit = false;
        while m < set.len()
            invariant
                m <= set@.len(),
                i < s@.len(),
                hit == exists|x: int| 0 <= x < m && set@[x] == s@[i as int],
            decreases set@.len() - m,
        {
            if set[m] == s[i] {
                hit = true;
            }
            m = m + 1;
        }
        let ghost rest = s@.subrange(i as int, s@.len() as int);
        assert(rest[0] == s@[i as int]);
        if !hit {
            return slice_to_vec(s, i, s.len());
        }
        assert(rest.drop_first() =~= s@.subrange(i + 1, s@.len() as int));
        i = i + 1;
    }
}

/// `s` with the character `c` removed from its end as often as it occurs
/// there, as `trim_end_matches` with a character does.
pub open spec fn trim_end_char(s: Seq<char>, c: char) -> Seq<char>
    decreases s.len(),
{
    if s.len() > 0 && s.last() == c {
        trim_end_char(s.drop_last(), c)
    } else {
        s
    }
}

pub fn trim_end_char_exec(s: &[char], c: char) -> (r: Vec<char>)
    ensures
        r@ == trim_end_char(s@, c),
{
    let mut e: usize = s.len();
    assert(s@.subrange(0, s@.len() as int) =~= s@);
    while e > 0 && s[e - 1] == c
        invariant
            e <= s@.len(),
            trim_end_char(s@.subrange(0, e as int), c) == trim_end_char(s@, c),
        decreases e,
    {
        assert(s@.subrange(0, e as int).drop_last() =~= s@.subrange(0, e - 1));
        e = e - 1;
    }
    slice_to_vec(s, 0, e)
}

// ---------------------------------------------------------------------------
// Unicode letters
// ---------------------------------------------------------------------------

/// Whether a character has the Unicode Alphabetic property, which
/// `char::is_alphabetic` reads off the Unicode tables.
pub uninterp spec fn alphabetic(c: char) -> bool;

/// `char::is_alphabetic`: an ASCII character is alphabetic exactly when it
/// is a letter, as std documents.
#[verifier::external_body]
pub(crate) fn is_alphabetic(c: char) -> (r: bool)
    ensures
        r == alphabetic(c),
        (c as u32) < 128 ==> (r <==> is_ascii_alpha(c)),
{
    c.is_alphabetic()
}

/// The text left once its leading letters are removed, as
/// `trim_start_matches(char::is_alphabetic)` leaves it.
pub open spec fn trim_letters_start(s: Seq<char>) -> Seq<char>
    decreases s.len(),
{
    if s.len() > 0 && alphabetic(s[0]) {
        trim_letters_start(s.drop_first())
    } else {
        s
    }
}

proof fn lemma_trim_letters_step(s: Seq<char>, k: int)
    requires
        0 <= k < s.len(),
        alphabetic(s[k]),
    ensures
        trim_letters_start(s.subrange(k, s.len() as int)) == trim_letters_start(
            s.subrange(k + 1, s.len() as int),
        ),
{
    assert(s.subrange(k, s.len() as int).drop_first() =~= s.subrange(k + 1, s.len() as int));
}

/// `trim_start_matches(char::is_alphabetic)`.
pub fn trim_letters_start_exec(s: &[char]) -> (r: Vec<char>)
    ensures
        r@ == trim_letters_start(s@),
{
    let mut i: usize = 0;
    assert(s@.subrange(0, s@.len() as int) =~= s@);
    while i < s.len() && is_alphabetic(s[i])
        invariant
            i <= s@.len(),
            trim_letters_start(s@.subrange(i as int, s@.len() as int)) == trim_letters_start(s@),
        decreases s@.len() - i,
    {
        proof {
            lemma_trim_letters_step(s@, i as int);
        }
        i = i + 1;
    }
    slice_to_vec(s, i, s.len())
}

/// The text a markup parser gave for a fragment, or the fragment itself
/// where it gave none, trimmed.
pub fn text_or_source(parsed: Option<String>, source: &str) -> (r: String)
    ensures
        r@ == trim(
            match parsed {
                Some(t) => t@,
                None => source@,
            },
        ),
{
    match parsed {
        Some(t) => trim_str(t.as_str()),
        None => trim_str(source),
    }
}

// ---------------------------------------------------------------------------
// Paths
// ---------------------------------------------------------------------------

/// The part of `s` before the first `a` or `b`, as `s.split([a, b]).next()`
/// gives it.
pub open spec fn before_any(s: Seq<char>, a: char, b: char) -> Seq<char>
    decreases s.len(),
{
    if s.len() == 0 {
        s
    } else if s[0] == a || s[0] == b {
        Seq::empty()
    } else {
        seq![s[0]] + before_any(s.drop_first(), a, b)
    }
}

/// Text free of `?` and `#` is its own part before either.
pub proof fn lemma_before_any_plain(s: Seq<char>)
    requires
        forall|j: int| 0 <= j < s.len() ==> s[j] != '?' && s[j] != '#',
    ensures
        before_any(s, '?', '#') == s,
    decreases s.len(),
{
    if s.len() > 0 {
        lemma_before_any_plain(s.drop_first());
        assert(seq![s[0]] + s.drop_first() =~= s);
    }
}

/// The non-empty pieces of `s` between `c` separators, as
/// `s.split(c).filter(|p| !p.is_empty())` yields them.
pub open spec fn pieces(s: Seq<char>, c: char) -> Seq<Seq<char>>
    decreases s.len(),
{
    if s.len() == 0 {
        Seq::empty()
    } else if s[0] == c {
        pieces(s.drop_first(), c)
    } else {
        let k = run_len(s, c);
        proof {
            lemma_run_len_bound(s, c);
        }
        seq![s.subrange(0, k as int)] + pieces(s.subrange(k as int, s.len() as int), c)
    }
}

/// A separator in front changes no pieces.
pub proof fn lemma_pieces_sep(rest: Seq<char>, c: char)
    ensures
        pieces(seq![c] + rest, c) == pieces(rest, c),
{
    assert((seq![c] + rest).drop_first() =~= rest);
}

/// A word free of the separator, followed by nothing or a separator, is the
/// first piece.
pub proof fn lemma_pieces_word(w: Seq<char>, rest: Seq<char>, c: char)
    requires
        w.len() > 0,
        forall|j: int| 0 <= j < w.len() ==> w[j] != c,
        rest.len() == 0 || rest[0] == c,
    ensures
        pieces(w + rest, c) == seq![w] + pieces(rest, c),
{
    let s = w + rest;
    assert(s[0] == w[0]);
    lemma_run_len(s, c, w.len() as int);
    assert(s.subrange(0, w.len() as int) =~= w);
    assert(s.subrange(w.len() as int, s.len() as int) =~= rest);
}

/// Length of the leading run of characters other than `c`.
pub open spec fn run_len(s: Seq<char>, c: char) -> nat
    decreases s.len(),
{
    if s.len() == 0 || s[0] == c {
        0
    } else {
        1 + run_len(s.drop_first(), c)
    }
}

/// A run free of `c` is no longer than the text.
pub proof fn lemma_run_len_bound(s: Seq<char>, c: char)
    ensures
        run_len(s, c) <= s.len(),
    decreases s.len(),
{
    if s.len() > 0 && s[0] != c {
        lemma_run_len_bound(s.drop_first(), c);
    }
}

/// The run free of `c` ends at the first `c`, or at the end.
pub proof fn lemma_run_len(s: Seq<char>, c: char, k: int)
    requires
        0 <= k <= s.len(),
        forall|j: int| 0 <= j < k ==> s[j] != c,
        k == s.len() || s[k] == c,
    ensures
        run_len(s, c) == k,
    decreases s.len(),
{
    if s.len() > 0 && k > 0 {
        lemma_run_len(s.drop_first(), c, k - 1);
    }
}

proof fn lemma_before_any(s: Seq<char>, a: char, b: char, k: int)
    requires
        0 <= k <= s.len(),
        forall|j: int| 0 <= j < k ==> s[j] != a && s[j] != b,
        k == s.len() || s[k] == a || s[k] == b,
    ensures
        before_any(s, a, b) == s.subrange(0, k),
    decreases s.len(),
{
    if s.len() > 0 {
        if k == 0 {
            assert(s.subrange(0, 0) =~= Seq::<char>::empty());
        } else {
            lemma_before_any(s.drop_first(), a, b, k - 1);
            assert(seq![s[0]] + s.drop_first().subrange(0, k - 1) =~= s.subrange(0, k));
        }
    }
}

/// The part of `s` before the first `a` or `b`.
pub fn before_any_exec(s: &[char], a: char, b: char) -> (r: Vec<char>)
    ensures
        r@ == before_any(s@, a, b),
{
    let mut k: usize = 0;
    while k < s.len() && s[k] != a && s[k] != b
        invariant
            k <= s@.len(),
            forall|j: int| 0 <= j < k ==> s@[j] != a && s@[j] != b,
        decreases s@.len() - k,
    {
        k = k + 1;
    }
    proof {
        lemma_before_any(s@, a, b, k as int);
    }
    slice_to_vec(s, 0, k)
}

/// The non-empty pieces of `s` between `c` separators.
pub fn pieces_exec(s: &[char], c: char) -> (r: Vec<Vec<char>>)
    ensures
        r@.map_values(|v: Vec<char>| v@) == pieces(s@, c),
{
    let mut out: Vec<Vec<char>> = Vec::new();
    let mut i: usize = 0;
    assert(s@.subrange(0, s@.len() as int) =~= s@);
    assert(out@.map_values(|v: Vec<char>| v@) =~= Seq::<Seq<char>>::empty());
    while i < s.len()
        invariant
            i <= s@.len(),
            out@.map_values(|v: Vec<char>| v@) + pieces(s@.subrange(i as int, s@.len() as int), c)
                == pieces(s@, c),
        decreases s@.len() - i,
    {
        let ghost rest = s@.subrange(i as int, s@.len() as int);
        let ghost before = out@.map_values(|v: Vec<char>| v@);
        if s[i] == c {
            assert(rest.drop_first() =~= s@.subrange(i + 1, s@.len() as int));
            i = i + 1;
        } else {
            let mut k = i;
            while k < s.len() && s[k] != c
                invariant
                    i <= k <= s@.len(),
                    forall|j: int| i <= j < k ==> s@[j] != c,
                decreases s@.len() - k,
            {
                k = k + 1;
            }
            proof {
                lemma_run_len(rest, c, (k - i) as int);
                assert(rest.subrange(0, (k - i) as int) =~= s@.subrange(i as int, k as int));
                assert(rest.subrange((k - i) as int, rest.len() as int) =~= s@.subrange(
                    k as int,
                    s@.len() as int,
                ));
            }
            let piece = slice_to_vec(s, i, k);
            out.push(piece);
            assert(out@.map_values(|v: Vec<char>| v@) =~= before.push(
                s@.subrange(i as int, k as int),
            ));
            assert(before.push(s@.subrange(i as int, k as int)) + pieces(
                s@.subrange(k as int, s@.len() as int),
                c,
            ) =~= before + pieces(rest, c));
            i = k;
        }
    }
    assert(s@.subrange(s@.len() as int, s@.len() as int) =~= Seq::<char>::empty());
    assert(out@.map_values(|v: Vec<char>| v@) + pieces(Seq::<char>::empty(), c) =~= out@.map_values(
        |v: Vec<char>| v@,
    ));
    out
}

/// The pieces trimmed, with those left empty dropped.
pub open spec fn trimmed_nonempty(ps: Seq<Seq<char>>) -> Seq<Seq<char>>
    decreases ps.len(),
{
    if ps.len() == 0 {
        Seq::empty()
    } else {
        let rest = trimmed_nonempty(ps.drop_last());
        if trim(ps.last()).len() > 0 {
            rest.push(trim(ps.last()))
        } else {
            rest
        }
    }
}

/// Texts trimmed, with those left empty dropped.
pub fn trimmed_texts(texts: &[String]) -> (r: Vec<String>)
    ensures
        views(r@) == trimmed_nonempty(views(texts@)),
{
    let ghost tv = views(texts@);
    let mut out: Vec<String> = Vec::new();
    let mut i: usize = 0;
    assert(views(out@) =~= trimmed_nonempty(tv.take(0)));
    while i < texts.len()
        invariant
            i <= texts@.len(),
            tv == views(texts@),
            views(out@) == trimmed_nonempty(tv.take(i as int)),
        decreases texts@.len() - i,
    {
        let t = trim_exec(chars_of(texts[i].as_str()).as_slice());
        assert(tv.take(i + 1).drop_last() =~= tv.take(i as int));
        assert(tv.take(i + 1).last() == texts@[i as int]@);
        if t.len() > 0 {
            out.push(string_of(t.as_slice()));
            assert(views(out@) =~= trimmed_nonempty(tv.take(i as int)).push(t@));
        }
        i = i + 1;
    }
    assert(tv.take(texts@.len() as int) =~= tv);
    out
}

/// The pieces of `s` between occurrences of `c`, trimmed, without the empty
/// ones: `s.split(c).map(str::trim).filter(|p| !p.is_empty())`.
pub fn split_trimmed(s: &str, c: char) -> (r: Vec<String>)
    ensures
        views(r@) == trimmed_nonempty(pieces(s@, c)),
{
    let v = chars_of(s);
    let ps = pieces_exec(v.as_slice(), c);
    let ghost pv = ps@.map_values(|x: Vec<char>| x@);
    let mut out: Vec<String> = Vec::new();
    let mut i: usize = 0;
    assert(views(out@) =~= trimmed_nonempty(pv.take(0)));
    while i < ps.len()
        invariant
            i <= ps@.len(),
            pv == ps@.map_values(|x: Vec<char>| x@),
            pv == pieces(s@, c),
            views(out@) == trimmed_nonempty(pv.take(i as int)),
        decreases ps@.len() - i,
    {
        let t = trim_exec(ps[i].as_slice());
        assert(pv.take(i + 1).drop_last() =~= pv.take(i as int));
        assert(pv.take(i + 1).last() == ps@[i as int]@);
        if t.len() > 0 {
            out.push(string_of(t.as_slice()));
            assert(views(out@) =~= trimmed_nonempty(pv.take(i as int)).push(t@));
        }
        i = i + 1;
    }
    assert(pv.take(ps@.len() as int) =~= pv);
    out
}

/// `[String]::join`: the strings with `sep` between each pair.
pub fn join_strings(v: &[String], sep: &str) -> (r: String)
    ensures
        r@ == join(views(v@), sep@),
{
    let ghost ps = views(v@);
    let mut out: Vec<char> = Vec::new();
    let mut i: usize = 0;
    while i < v.len()
        invariant
            i <= v@.len(),
            ps == views(v@),
            out@ == join(ps.subrange(0, i as int), sep@),
        decreases v@.len() - i,
    {
        let ghost before = out@;
        if i > 0 {
            push_str(&mut out, sep);
        }
        push_str(&mut out, v[i].as_str());
        proof {
            assert(ps.subrange(0, i + 1).drop_last() =~= ps.subrange(0, i as int));
            assert(ps[i as int] == v@[i as int]@);
            if i == 0 {
                assert(out@ =~= ps[0]);
            } else {
                assert(out@ =~= before + sep@ + ps[i as int]);
            }
        }
        i = i + 1;
    }
    assert(ps.subrange(0, v@.len() as int) =~= ps);
    string_of(out.as_slice())
}

// ---------------------------------------------------------------------------
// Comparing with literals and lists
// ---------------------------------------------------------------------------

pub open spec fn strs_view(v: Seq<&str>) -> Seq<Seq<char>> {
    v.map_values(|s: &str| s@)
}

/// Some entry of `items` is one of `options`.
pub open spec fn has_any(items: Seq<Seq<char>>, options: Seq<Seq<char>>) -> bool {
    exists|i: int| 0 <= i < items.len() && options.contains(#[trigger] items[i])
}

/// `v` equals the literal `lit`.
pub fn lit_eq(v: &[char], lit: &str) -> (r: bool)
    ensures
        r == (v@ == lit@),
{
    let l = chars_of(lit);
    slices_eq(v, l.as_slice())
}

/// `v` equals one of `options`.
pub fn one_of(v: &[char], options: &[&str]) -> (r: bool)
    ensures
        r == strs_view(options@).contains(v@),
{
    let r = is_one_of(v, options);
    proof {
        if r {
            let i = choose|i: int| 0 <= i < options@.len() && options@[i]@ == v@;
            assert(strs_view(options@)[i] == v@);
        } else {
            if strs_view(options@).contains(v@) {
                let i = choose|i: int| 0 <= i < strs_view(options@).len() && strs_view(options@)[i] == v@;
                assert(options@[i]@ == v@);
            }
        }
    }
    r
}

/// Some entry of `items` equals one of `options`.
pub fn any_one_of(items: &[String], options: &[&str]) -> (r: bool)
    ensures
        r == has_any(views(items@), strs_view(options@)),
{
    let mut i: usize = 0;
    while i < items.len()
        invariant
            i <= items@.len(),
            forall|j: int| 0 <= j < i ==> !strs_view(options@).contains(#[trigger] views(items@)[j]),
        decreases items@.len() - i,
    {
        let v = chars_of(items[i].as_str());
        if one_of(v.as_slice(), options) {
            assert(views(items@)[i as int] == items@[i as int]@);
            return true;
        }
        assert(views(items@)[i as int] == items@[i as int]@);
        i = i + 1;
    }
    false
}

/// `s` contains the literal `lit`.
pub fn contains_lit(s: &[char], lit: &str) -> (r: bool)
    ensures
        r == contains(s@, lit@),
{
    let l = chars_of(lit);
    contains_exec(s, l.as_slice())
}

/// Owned strings made of character vectors.
pub fn strings_of(v: &Vec<Vec<char>>) -> (r: Vec<String>)
    ensures
        views(r@) == v@.map_values(|x: Vec<char>| x@),
{
    let mut out: Vec<String> = Vec::new();
    let mut i: usize = 0;
    while i < v.len()
        invariant
            i <= v@.len(),
            views(out@) == v@.subrange(0, i as int).map_values(|x: Vec<char>| x@),
        decreases v@.len() - i,
    {
        let ghost before = out@;
        let x = string_of(v[i].as_slice());
        out.push(x);
        assert(out@ == before.push(x));
        assert(views(out@) =~= views(before).push(x@));
        assert(v@.subrange(0, i + 1).map_values(|x: Vec<char>| x@) =~= v@.subrange(0, i as int).map_values(|x: Vec<char>| x@).push(v@[i as int]@));
        i = i + 1;
    }
    assert(v@.subrange(0, v@.len() as int) =~= v@);
    out
}

/// The option `v` equals, if any.
pub fn find_lit<'a>(v: &[char], options: &[&'a str]) -> (r: Option<&'a str>)
    ensures
        match r {
            Some(o) => o@ == v@ && strs_view(options@).contains(v@),
            None => !strs_view(options@).contains(v@),
        },
{
    let mut i: usize = 0;
    while i < options.len()
        invariant
            i <= options@.len(),
            forall|j: int| 0 <= j < i ==> options@[j]@ != v@,
        decreases options@.len() - i,
    {
        if lit_eq(v, options[i]) {
            assert(strs_view(options@)[i as int] == v@);
            return Some(options[i]);
        }
        i = i + 1;
    }
    proof {
        if strs_view(options@).contains(v@) {
            let j = choose|j: int| 0 <= j < strs_view(options@).len() && strs_view(options@)[j] == v@;
            assert(options@[j]@ == v@);
        }
    }
    None
}

} // verus!
