//! OniSaga (onisaga.com): paths and urls, relative dates and chapter numbers,
//! the Livewire component state it pages through, the reader's token and
//! page urls, the filter properties a search sends, the settings, and the
//! mapping of the title page's badges.
use vstd::prelude::*;
use crate::model::{ContentRating, DeepLink, DeepLinkResult, FilterValue, MangaStatus, Viewer, link_view, opt_string, opt_strings};
use crate::text::{
    after_first_word, before_set, before_set_exec, chars_of, contains, copy_strings, contains_exec, dec, ends_with,
    ends_with_exec, find, find_exec, first_word, first_word_bounds, is_ascii_alphanumeric,
    is_ascii_digit, lowercase, parse_i64, parse_i64_exec, pieces, push_slice, push_str, replace,
    replace_exec, slice_to_vec, starts_with, starts_with_exec, str_eq, string_of, strip_prefix,
    strip_prefix_exec, to_lowercase, trim, trim_exec, trim_str, trimmed_nonempty, views,
};

verus! {

pub const BASE_URL: &'static str = "https://onisaga.com";

/// The reader's page api.
pub const API_PATH: &'static str = "/api/chapter/";

// ---------------------------------------------------------------------------
// Paths and urls
// ---------------------------------------------------------------------------

/// The path of a url: what follows the host once the scheme's `//` is
/// passed; an empty path when the host is all there is; the text itself
/// when there is no `//`.
pub open spec fn url_path(url: Seq<char>) -> Seq<char> {
    match find(url, "//"@) {
        Some(i) => {
            let rest = url.subrange(i + 2, url.len() as int);
            match find(rest, "/"@) {
                Some(j) => rest.subrange(j, rest.len() as int),
                None => Seq::empty(),
            }
        },
        None => url,
    }
}

fn url_path_exec(url: &[char]) -> (r: Vec<char>)
    ensures
        r@ == url_path(url@),
{
    let sep = chars_of("//");
    let slash = chars_of("/");
    proof {
        reveal_strlit("//");
        reveal_strlit("/");
    }
    match find_exec(url, sep.as_slice()) {
        Some(i) => {
            assert(sep@ == "//"@ && sep@.len() == 2);
            assert(i + 2 <= url@.len());
            assert(url@.len() == url.len());
            let rest = slice_to_vec(url, i + 2, url.len());
            match find_exec(rest.as_slice(), slash.as_slice()) {
                Some(j) => slice_to_vec(rest.as_slice(), j, rest.len()),
                None => Vec::new(),
            }
        },
        None => slice_to_vec(url, 0, url.len()),
    }
}

pub open spec fn manga_slug_spec(url: Seq<char>) -> Option<Seq<char>> {
    match strip_prefix(url_path(url), "/manga/"@) {
        Some(rest) => {
            let slug = before_set(rest, seq!['/', '?', '#']);
            if slug.len() > 0 {
                Some(slug)
            } else {
                None
            }
        },
        None => None,
    }
}

/// The slug of a title page url (or path): the segment after `/manga/`, up
/// to a slash, query or fragment.
pub fn manga_slug(url: &str) -> (r: Option<String>)
    ensures
        opt_string(r) == manga_slug_spec(url@),
{
    let u = chars_of(url);
    let path = url_path_exec(u.as_slice());
    match strip_prefix_exec(path.as_slice(), "/manga/") {
        Some(rest) => {
            let stops: [char; 3] = ['/', '?', '#'];
            assert(stops@ =~= seq!['/', '?', '#']);
            let slug = before_set_exec(rest.as_slice(), &stops);
            if slug.len() > 0 {
                Some(string_of(slug.as_slice()))
            } else {
                None
            }
        },
        None => None,
    }
}

pub open spec fn to_path_spec(url: Seq<char>) -> Seq<char> {
    match find(url, "//"@) {
        Some(i) => {
            let rest = url.subrange(i + 2, url.len() as int);
            match find(rest, "/"@) {
                Some(j) => rest.subrange(j, rest.len() as int),
                None => url,
            }
        },
        None => url,
    }
}

/// The path of a url, or the url itself when it has no path.
pub fn to_path(url: &str) -> (r: String)
    ensures
        r@ == to_path_spec(url@),
{
    let u = chars_of(url);
    let sep = chars_of("//");
    let slash = chars_of("/");
    proof {
        reveal_strlit("//");
        reveal_strlit("/");
    }
    match find_exec(u.as_slice(), sep.as_slice()) {
        Some(i) => {
            assert(sep@ == "//"@ && sep@.len() == 2);
            assert(i + 2 <= u@.len());
            assert(u@.len() == u.len());
            let rest = slice_to_vec(u.as_slice(), i + 2, u.len());
            match find_exec(rest.as_slice(), slash.as_slice()) {
                Some(j) => string_of(slice_to_vec(rest.as_slice(), j, rest.len()).as_slice()),
                None => string_of(u.as_slice()),
            }
        },
        None => string_of(u.as_slice()),
    }
}

pub open spec fn manga_url_spec(key: Seq<char>) -> Seq<char> {
    BASE_URL@ + "/manga/"@ + key
}

pub fn manga_url(key: &str) -> (r: String)
    ensures
        r@ == manga_url_spec(key@),
{
    let mut v = chars_of(BASE_URL);
    push_str(&mut v, "/manga/");
    push_str(&mut v, key);
    string_of(v.as_slice())
}

pub open spec fn chapter_url_spec(key: Seq<char>) -> Seq<char> {
    if starts_with(key, "http"@) {
        key
    } else {
        BASE_URL@ + key
    }
}

/// A chapter's page: keys are paths, or full urls already.
pub fn chapter_url(key: &str) -> (r: String)
    ensures
        r@ == chapter_url_spec(key@),
{
    if crate::text::str_starts_with(key, "http") {
        string_of(chars_of(key).as_slice())
    } else {
        let mut v = chars_of(BASE_URL);
        push_str(&mut v, key);
        string_of(v.as_slice())
    }
}

pub open spec fn absolute_spec(url: Seq<char>) -> Seq<char> {
    if starts_with(url, "http"@) {
        url
    } else if starts_with(url, "//"@) {
        "https://"@ + url.subrange(2, url.len() as int)
    } else if starts_with(url, "/"@) {
        BASE_URL@ + url
    } else {
        BASE_URL@ + "/"@ + url
    }
}

/// A url made absolute against the site.
pub fn absolute(url: &str) -> (r: String)
    ensures
        r@ == absolute_spec(url@),
{
    let u = chars_of(url);
    if crate::text::str_starts_with(url, "http") {
        string_of(u.as_slice())
    } else if crate::text::str_starts_with(url, "//") {
        proof {
            reveal_strlit("//");
        }
        let mut v = chars_of("https://");
        let rest = slice_to_vec(u.as_slice(), 2, u.len());
        v.extend_from_slice(rest.as_slice());
        string_of(v.as_slice())
    } else if crate::text::str_starts_with(url, "/") {
        let mut v = chars_of(BASE_URL);
        v.extend_from_slice(u.as_slice());
        string_of(v.as_slice())
    } else {
        let mut v = chars_of(BASE_URL);
        push_str(&mut v, "/");
        v.extend_from_slice(u.as_slice());
        string_of(v.as_slice())
    }
}

/// Whether an image attribute holds a usable url: not empty and not an
/// inline `data:` placeholder.
pub open spec fn usable_src(src: Seq<char>) -> bool {
    src.len() > 0 && !starts_with(src, "data:"@)
}

pub open spec fn first_usable(srcs: Seq<Option<Seq<char>>>) -> Option<Seq<char>>
    decreases srcs.len(),
{
    if srcs.len() == 0 {
        None
    } else {
        match srcs[0] {
            Some(s) if usable_src(trim(s)) => Some(trim(s)),
            _ => first_usable(srcs.drop_first()),
        }
    }
}

/// An image's url, from the values of its `data-src`, `data-lazy-src` and
/// `src` attributes in that order: the first that, trimmed, is usable, made
/// absolute.
pub fn image_url(srcs: &[Option<String>]) -> (r: Option<String>)
    ensures
        opt_string(r) == (match first_usable(srcs@.map_values(|o: Option<String>| opt_string(o))) {
            Some(s) => Some(absolute_spec(s)),
            None => None,
        }),
{
    let ghost sv = srcs@.map_values(|o: Option<String>| opt_string(o));
    let mut i: usize = 0;
    assert(sv.subrange(0, sv.len() as int) =~= sv);
    while i < srcs.len()
        invariant
            i <= srcs@.len(),
            sv == srcs@.map_values(|o: Option<String>| opt_string(o)),
            first_usable(sv.subrange(i as int, sv.len() as int)) == first_usable(sv),
        decreases srcs@.len() - i,
    {
        let ghost rest = sv.subrange(i as int, sv.len() as int);
        assert(rest.drop_first() =~= sv.subrange(i + 1, sv.len() as int));
        assert(rest[0] == opt_string(srcs@[i as int]));
        match &srcs[i] {
            Some(s) => {
                let t = trim_str(s.as_str());
                if !t.as_str().is_empty() && !crate::text::str_starts_with(t.as_str(), "data:") {
                    return Some(absolute(t.as_str()));
                }
            },
            None => {},
        }
        i = i + 1;
    }
    assert(sv.subrange(sv.len() as int, sv.len() as int) =~= Seq::<Option<Seq<char>>>::empty());
    None
}

/// The parts of a `·`-separated detail line, which writes some separators
/// as ` - `, trimmed, empty ones left out.
pub open spec fn split_details_spec(text: Seq<char>) -> Seq<Seq<char>> {
    trimmed_nonempty(pieces(replace(text, " - "@, " · "@), '·'))
}

pub fn split_details(text: &str) -> (r: Vec<String>)
    ensures
        views(r@) == split_details_spec(text@),
{
    proof {
        reveal_strlit(" - ");
    }
    let t = chars_of(text);
    let replaced = replace_exec(t.as_slice(), " - ", " · ");
    let s = string_of(replaced.as_slice());
    crate::text::split_trimmed(s.as_str(), '·')
}


// ---------------------------------------------------------------------------
// Dates and chapter numbers
// ---------------------------------------------------------------------------

/// The length in seconds of a unit the site writes relative dates in.
pub open spec fn unit_seconds(u: Seq<char>) -> Option<int> {
    if u == "minute"@ {
        Some(60)
    } else if u == "hour"@ {
        Some(3_600)
    } else if u == "day"@ {
        Some(86_400)
    } else if u == "week"@ {
        Some(604_800)
    } else if u == "month"@ {
        Some(2_592_000)
    } else if u == "year"@ {
        Some(31_536_000)
    } else {
        None
    }
}

fn unit_seconds_exec(u: &str) -> (r: Option<i64>)
    ensures
        match r {
            Some(x) => unit_seconds(u@) == Some(x as int),
            None => unit_seconds(u@) is None,
        },
{
    if str_eq(u, "minute") {
        Some(60)
    } else if str_eq(u, "hour") {
        Some(3_600)
    } else if str_eq(u, "day") {
        Some(86_400)
    } else if str_eq(u, "week") {
        Some(604_800)
    } else if str_eq(u, "month") {
        Some(2_592_000)
    } else if str_eq(u, "year") {
        Some(31_536_000)
    } else {
        None
    }
}

/// The moment a relative date such as "3 days ago", "today" or
/// "yesterday" names, taking `now` as the current time, in seconds.
pub open spec fn relative_date_spec(text: Seq<char>, now: int) -> Option<int> {
    let t = lowercase(trim(text));
    if t.len() == 0 {
        None
    } else if contains(t, "today"@) {
        Some(now)
    } else if contains(t, "yesterday"@) {
        Some(now - 86_400)
    } else if !ends_with(t, "ago"@) {
        None
    } else {
        match first_word(t) {
            Some(w1) => match parse_i64(w1) {
                Some(v) => match first_word(after_first_word(t)) {
                    Some(w2) => match unit_seconds(crate::text::trim_end_char(w2, 's')) {
                        Some(sec) => Some(now - v * sec),
                        None => None,
                    },
                    None => None,
                },
                None => None,
            },
            None => None,
        }
    }
}

/// A relative upload date, given the current time. The moment is given
/// where it can be held in an `i64`.
pub fn parse_relative_date(text: &str, now: i64) -> (r: Option<i64>)
    ensures
        r == (match relative_date_spec(text@, now as int) {
            Some(x) => if i64::MIN <= x <= i64::MAX {
                Some(x as i64)
            } else {
                None
            },
            None => None,
        }),
{
    let trimmed = trim_str(text);
    let lower = to_lowercase(trimmed.as_str());
    let t = chars_of(lower.as_str());
    if t.len() == 0 {
        return None;
    }
    if crate::text::contains_lit(t.as_slice(), "today") {
        return Some(now);
    }
    if crate::text::contains_lit(t.as_slice(), "yesterday") {
        if now < i64::MIN + 86_400 {
            return None;
        }
        return Some(now - 86_400);
    }
    let ago = chars_of("ago");
    if !ends_with_exec(t.as_slice(), ago.as_slice()) {
        return None;
    }
    let (a, b) = match first_word_bounds(t.as_slice()) {
        Some(w) => w,
        None => return None,
    };
    let w1 = slice_to_vec(t.as_slice(), a, b);
    let v = match parse_i64_exec(w1.as_slice()) {
        Some(v) => v,
        None => return None,
    };
    let rest = slice_to_vec(t.as_slice(), b, t.len());
    let (c, d) = match first_word_bounds(rest.as_slice()) {
        Some(w) => w,
        None => return None,
    };
    let w2 = slice_to_vec(rest.as_slice(), c, d);
    let unit = crate::text::trim_end_char_exec(w2.as_slice(), 's');
    let u = string_of(unit.as_slice());
    let sec = match unit_seconds_exec(u.as_str()) {
        Some(x) => x,
        None => return None,
    };
    let x: i128 = now as i128 - (v as i128) * (sec as i128);
    if x < i64::MIN as i128 || x > i64::MAX as i128 {
        return None;
    }
    Some(x as i64)
}

/// The leading run of ASCII digits and dots.
pub open spec fn number_run(s: Seq<char>) -> nat
    decreases s.len(),
{
    if s.len() > 0 && (is_ascii_digit(s[0]) || s[0] == '.') {
        1 + number_run(s.drop_first())
    } else {
        0
    }
}

/// The text a chapter heading's number is read from: the heading trimmed,
/// without a leading "Chapter" or "chapter", trimmed again, up to the first
/// character that is neither an ASCII digit nor a dot, trailing dots
/// removed.
pub open spec fn chapter_number_text_spec(text: Seq<char>) -> Seq<char> {
    let t = trim(text);
    let d = trim(
        match strip_prefix(t, "Chapter"@) {
            Some(r) => r,
            None => match strip_prefix(t, "chapter"@) {
                Some(r) => r,
                None => t,
            },
        },
    );
    crate::text::trim_end_char(d.subrange(0, number_run(d) as int), '.')
}

proof fn lemma_number_run(s: Seq<char>, k: int)
    requires
        0 <= k <= s.len(),
        forall|j: int| 0 <= j < k ==> is_ascii_digit(#[trigger] s[j]) || s[j] == '.',
        k == s.len() || !(is_ascii_digit(s[k]) || s[k] == '.'),
    ensures
        number_run(s) == k,
    decreases k,
{
    if k > 0 {
        lemma_number_run(s.drop_first(), k - 1);
    }
}

/// The chapter number's text in a heading, which the app reads as a
/// number (an empty text reads as none).
proof fn lemma_number_run_digits(n: Seq<char>)
    requires
        forall|j: int| 0 <= j < n.len() ==> is_ascii_digit(#[trigger] n[j]) || n[j] == '.',
    ensures
        number_run(n) == n.len(),
    decreases n.len(),
{
    if n.len() > 0 {
        lemma_number_run_digits(n.drop_first());
    }
}

/// A heading "Chapter <number>", the number digits with at most dots
/// between them, reads as that number.
pub proof fn lemma_chapter_heading(n: Seq<char>)
    requires
        n.len() > 0,
        forall|j: int| 0 <= j < n.len() ==> is_ascii_digit(#[trigger] n[j]) || n[j] == '.',
        is_ascii_digit(n[0]),
        is_ascii_digit(n.last()),
    ensures
        chapter_number_text_spec("Chapter "@ + n) == n,
{
    reveal_strlit("Chapter ");
    reveal_strlit("Chapter");
    let s = "Chapter "@ + n;
    assert(s[0] == 'C');
    assert(!crate::text::is_whitespace(s[0]));
    assert(crate::text::leading_ws(s) == 0);
    assert(s.last() == n.last());
    assert(crate::text::trailing_ws(s) == 0);
    assert(trim(s) =~= s);
    assert(s.subrange(0, 7) =~= "Chapter"@);
    let r = s.subrange(7, s.len() as int);
    assert(r =~= seq![' '] + n);
    assert(r.drop_first() =~= n);
    assert(crate::text::leading_ws(n) == 0);
    assert(crate::text::leading_ws(r) == 1);
    assert(r.last() == n.last());
    assert(crate::text::trailing_ws(r) == 0);
    assert(trim(r) =~= n);
    lemma_number_run_digits(n);
    assert(n.subrange(0, n.len() as int) =~= n);
}

pub fn chapter_number_text(text: &str) -> (r: String)
    ensures
        r@ == chapter_number_text_spec(text@),
{
    let t = trim_exec(chars_of(text).as_slice());
    let stripped = match strip_prefix_exec(t.as_slice(), "Chapter") {
        Some(r) => r,
        None => match strip_prefix_exec(t.as_slice(), "chapter") {
            Some(r) => r,
            None => t,
        },
    };
    let d = trim_exec(stripped.as_slice());
    let mut k: usize = 0;
    while k < d.len() && (('0' <= d[k] && d[k] <= '9') || d[k] == '.')
        invariant
            k <= d@.len(),
            forall|j: int| 0 <= j < k ==> is_ascii_digit(#[trigger] d@[j]) || d@[j] == '.',
        decreases d@.len() - k,
    {
        k = k + 1;
    }
    proof {
        lemma_number_run(d@, k as int);
    }
    let run = slice_to_vec(d.as_slice(), 0, k);
    let n = crate::text::trim_end_char_exec(run.as_slice(), '.');
    string_of(n.as_slice())
}

// ---------------------------------------------------------------------------
// Livewire
// ---------------------------------------------------------------------------

/// The attribute a component's snapshot is written in.
pub const SNAPSHOT_ATTR: &'static str = "wire:snapshot=\"";

/// An attribute value with its escaping undone.
pub open spec fn unescape_attr_spec(v: Seq<char>) -> Seq<char> {
    replace(
        replace(
            replace(
                replace(
                    replace(replace(replace(v, "&quot;"@, "\""@), "&#34;"@, "\""@), "&apos;"@, "'"@),
                    "&#39;"@,
                    "'"@,
                ),
                "&lt;"@,
                "<"@,
            ),
            "&gt;"@,
            ">"@,
        ),
        "&amp;"@,
        "&"@,
    )
}

pub fn unescape_attr(value: &[char]) -> (r: Vec<char>)
    ensures
        r@ == unescape_attr_spec(value@),
{
    proof {
        reveal_strlit("&quot;");
        reveal_strlit("&#34;");
        reveal_strlit("&apos;");
        reveal_strlit("&#39;");
        reveal_strlit("&lt;");
        reveal_strlit("&gt;");
        reveal_strlit("&amp;");
    }
    let a = replace_exec(value, "&quot;", "\"");
    let b = replace_exec(a.as_slice(), "&#34;", "\"");
    let c = replace_exec(b.as_slice(), "&apos;", "'");
    let d = replace_exec(c.as_slice(), "&#39;", "'");
    let e = replace_exec(d.as_slice(), "&lt;", "<");
    let f = replace_exec(e.as_slice(), "&gt;", ">");
    replace_exec(f.as_slice(), "&amp;", "&")
}

/// The snapshot of the first component, from position `i` on, whose
/// snapshot attribute names `component`.
pub open spec fn snapshot_scan(body: Seq<char>, component: Seq<char>, i: int) -> Option<Seq<char>>
    decreases body.len() - i,
{
    match crate::text::pattern_from(body, SNAPSHOT_ATTR@, i) {
        Some(idx) => {
            let start = idx + SNAPSHOT_ATTR@.len();
            match crate::text::char_from(body, '"', start) {
                Some(end) => {
                    proof {
                        crate::text::lemma_pattern_from(body, SNAPSHOT_ATTR@, i);
                        crate::text::lemma_char_from(body, '"', start);
                        reveal_strlit("wire:snapshot=\"");
                    }
                    let v = body.subrange(start, end);
                    if contains(v, component) {
                        Some(unescape_attr_spec(v))
                    } else {
                        snapshot_scan(body, component, end)
                    }
                },
                None => None,
            }
        },
        None => None,
    }
}

/// The snapshot of the named component in a freshly loaded page: the first
/// `wire:snapshot` attribute whose value mentions the component, unescaped.
pub fn find_snapshot(body: &str, component: &str) -> (r: Option<String>)
    ensures
        opt_string(r) == snapshot_scan(body@, component@, 0),
{
    let b = chars_of(body);
    let attr = chars_of(SNAPSHOT_ATTR);
    let comp = chars_of(component);
    proof {
        reveal_strlit("wire:snapshot=\"");
    }
    let mut i: usize = 0;
    loop
        invariant
            b@ == body@,
            attr@ == SNAPSHOT_ATTR@,
            comp@ == component@,
            attr@.len() == 15,
            snapshot_scan(b@, comp@, i as int) == snapshot_scan(b@, comp@, 0),
        decreases b@.len() - i,
    {
        let idx = match crate::text::pattern_from_exec(b.as_slice(), attr.as_slice(), i) {
            Some(idx) => idx,
            None => return None,
        };
        proof {
            crate::text::lemma_pattern_from(b@, attr@, i as int);
        }
        let start = idx + 15;
        let end = match crate::text::char_from_exec(b.as_slice(), '"', start) {
            Some(e) => e,
            None => return None,
        };
        proof {
            crate::text::lemma_char_from(b@, '"', start as int);
        }
        let v = slice_to_vec(b.as_slice(), start, end);
        if contains_exec(v.as_slice(), comp.as_slice()) {
            let u = unescape_attr(v.as_slice());
            return Some(string_of(u.as_slice()));
        }
        i = end;
    }
}

/// Whether the paginator fragment from position `from` on offers a next
/// page: some tag mentioning `nextPage` that isn't disabled.
pub open spec fn next_page_scan(html: Seq<char>, from: int) -> bool
    decreases html.len() - from,
{
    match crate::text::pattern_from(html, "nextPage"@, from) {
        Some(idx) => {
            let start = match crate::text::char_before(html, '<', idx) {
                Some(s) => s,
                None => 0,
            };
            let end = match crate::text::char_from(html, '>', idx) {
                Some(e) => e,
                None => html.len() as int,
            };
            proof {
                reveal_strlit("nextPage");
                crate::text::lemma_pattern_from(html, "nextPage"@, from);
                crate::text::lemma_char_from(html, '>', idx);
                assert("nextPage"@.len() == 8 && "nextPage"@[0] == 'n');
                assert(html.subrange(idx, idx + 8) == "nextPage"@);
                assert(html.subrange(idx, idx + 8)[0] == html[idx]);
            }
            if !contains(html.subrange(start, end), "disabled"@) {
                true
            } else {
                next_page_scan(html, end)
            }
        },
        None => false,
    }
}

/// Whether the paginator still offers a next page.
pub fn has_next_page(html: &str) -> (r: bool)
    ensures
        r == next_page_scan(html@, 0),
{
    let h = chars_of(html);
    let pat = chars_of("nextPage");
    proof {
        reveal_strlit("nextPage");
    }
    let mut from: usize = 0;
    loop
        invariant
            h@ == html@,
            pat@ == "nextPage"@,
            from <= h@.len(),
            next_page_scan(h@, from as int) == next_page_scan(h@, 0),
        decreases h@.len() - from,
    {
        let idx = match crate::text::pattern_from_exec(h.as_slice(), pat.as_slice(), from) {
            Some(i) => i,
            None => return false,
        };
        proof {
            reveal_strlit("nextPage");
            crate::text::lemma_pattern_from(h@, pat@, from as int);
            assert("nextPage"@.len() == 8 && "nextPage"@[0] == 'n');
            assert(h@.subrange(idx as int, idx + 8) == pat@);
            assert(h@.subrange(idx as int, idx + 8)[0] == h@[idx as int]);
        }
        let start = match crate::text::char_before_exec(h.as_slice(), '<', idx) {
            Some(s) => s,
            None => 0,
        };
        proof {
            crate::text::lemma_char_before(h@, '<', idx as int);
        }
        let end = match crate::text::char_from_exec(h.as_slice(), '>', idx) {
            Some(e) => e,
            None => h.len(),
        };
        proof {
            crate::text::lemma_char_from(h@, '>', idx as int);
        }
        let tag = slice_to_vec(h.as_slice(), start, end);
        if !crate::text::contains_lit(tag.as_slice(), "disabled") {
            return true;
        }
        from = end;
    }
}


// ---------------------------------------------------------------------------
// Reader
// ---------------------------------------------------------------------------

pub open spec fn quotes() -> Seq<char> {
    seq!['"', '\'']
}

/// The reader token in the reader page's inline script: after the first
/// `readerToken`, past white space, the quote closing a json key and white
/// space again, a colon, white space, then a quoted value that isn't empty.
pub open spec fn token_spec(body: Seq<char>) -> Option<Seq<char>> {
    match find(body, "readerToken"@) {
        Some(i) => {
            let after = body.subrange(i + 11, body.len() as int);
            let a = crate::text::trim_start(
                crate::text::trim_start_set(crate::text::trim_start(after), quotes()),
            );
            if a.len() > 0 && a[0] == ':' {
                let b = crate::text::trim_start(a.drop_first());
                if b.len() > 0 && (b[0] == '"' || b[0] == '\'') {
                    let value = crate::text::before_char(b.drop_first(), b[0]);
                    if value.len() > 0 {
                        Some(value)
                    } else {
                        None
                    }
                } else {
                    None
                }
            } else {
                None
            }
        },
        None => None,
    }
}

fn trim_start_exec(s: &[char]) -> (r: Vec<char>)
    ensures
        r@ == crate::text::trim_start(s@),
{
    let mut a: usize = 0;
    assert(s@.subrange(0, s@.len() as int) =~= s@);
    while a < s.len() && crate::text::is_whitespace_exec(s[a])
        invariant
            a <= s@.len(),
            crate::text::leading_ws(s@.subrange(a as int, s@.len() as int)) + a == crate::text::leading_ws(s@),
        decreases s@.len() - a,
    {
        assert(s@.subrange(a as int, s@.len() as int).drop_first() =~= s@.subrange(a + 1, s@.len() as int));
        a = a + 1;
    }
    assert(s@.subrange(a as int, s@.len() as int).len() == 0 || !crate::text::is_whitespace(
        s@.subrange(a as int, s@.len() as int)[0],
    ));
    slice_to_vec(s, a, s.len())
}

/// The reader token of a reader page.
pub fn token(body: &str) -> (r: Option<String>)
    ensures
        opt_string(r) == token_spec(body@),
{
    let b = chars_of(body);
    let key = chars_of("readerToken");
    proof {
        reveal_strlit("readerToken");
    }
    let i = match find_exec(b.as_slice(), key.as_slice()) {
        Some(i) => i,
        None => return None,
    };
    assert(b@.len() == b.len());
    let after = slice_to_vec(b.as_slice(), i + 11, b.len());
    let q: [char; 2] = ['"', '\''];
    assert(q@ =~= quotes());
    let t1 = trim_start_exec(after.as_slice());
    let t2 = crate::text::trim_start_set_exec(t1.as_slice(), &q);
    let a = trim_start_exec(t2.as_slice());
    if a.len() == 0 || a[0] != ':' {
        return None;
    }
    let a1 = slice_to_vec(a.as_slice(), 1, a.len());
    assert(a1@ =~= a@.drop_first());
    let bb = trim_start_exec(a1.as_slice());
    if bb.len() == 0 || !(bb[0] == '"' || bb[0] == '\'') {
        return None;
    }
    let quote = bb[0];
    let rest = slice_to_vec(bb.as_slice(), 1, bb.len());
    assert(rest@ =~= bb@.drop_first());
    let value = crate::text::before_char_exec(rest.as_slice(), quote);
    if value.len() == 0 {
        None
    } else {
        Some(string_of(value.as_slice()))
    }
}

/// Whether the `order` at `idx` opens a page entry: not the tail of a
/// longer word, then past quotes and white space a colon, then past white
/// space an ASCII digit.
pub open spec fn is_page_entry(body: Seq<char>, idx: int) -> bool {
    let prev_ok = idx == 0 || !(is_ascii_alphanumeric(body[idx - 1]) || body[idx - 1] == '_');
    let rest = crate::text::trim_start(
        crate::text::trim_start_set(body.subrange(idx + 5, body.len() as int), quotes()),
    );
    prev_ok && rest.len() > 0 && rest[0] == ':' && crate::text::trim_start(rest.drop_first()).len() > 0
        && is_ascii_digit(crate::text::trim_start(rest.drop_first())[0])
}

/// The number of page entries from position `from` on.
pub open spec fn page_count_from(body: Seq<char>, from: int) -> nat
    decreases body.len() - from,
{
    match crate::text::pattern_from(body, "order"@, from) {
        Some(idx) => {
            proof {
                reveal_strlit("order");
                crate::text::lemma_pattern_from(body, "order"@, from);
            }
            (if is_page_entry(body, idx) {
                1nat
            } else {
                0nat
            }) + page_count_from(body, idx + 5)
        },
        None => 0,
    }
}

fn is_page_entry_exec(b: &[char], idx: usize) -> (r: bool)
    requires
        idx + 5 <= b@.len(),
    ensures
        r == is_page_entry(b@, idx as int),
{
    if idx > 0 {
        let c = b[idx - 1];
        if ('0' <= c && c <= '9') || ('a' <= c && c <= 'z') || ('A' <= c && c <= 'Z') || c == '_' {
            return false;
        }
    }
    let q: [char; 2] = ['"', '\''];
    assert(q@ =~= quotes());
    let tail = slice_to_vec(b, idx + 5, b.len());
    let t1 = crate::text::trim_start_set_exec(tail.as_slice(), &q);
    let rest = trim_start_exec(t1.as_slice());
    if rest.len() == 0 || rest[0] != ':' {
        return false;
    }
    let r1 = slice_to_vec(rest.as_slice(), 1, rest.len());
    assert(r1@ =~= rest@.drop_first());
    let r2 = trim_start_exec(r1.as_slice());
    r2.len() > 0 && '0' <= r2[0] && r2[0] <= '9'
}

/// The number of pages a reader page lists, one `order: N` entry each.
pub fn page_count(body: &str) -> (r: usize)
    ensures
        r as nat == page_count_from(body@, 0),
{
    let b = chars_of(body);
    let pat = chars_of("order");
    let mut count: usize = 0;
    let mut from: usize = 0;
    loop
        invariant
            b@ == body@,
            pat@ == "order"@,
            from <= b@.len(),
            count <= from,
            count + page_count_from(b@, from as int) == page_count_from(b@, 0),
        decreases b@.len() - from,
    {
        proof {
            reveal_strlit("order");
        }
        let idx = match crate::text::pattern_from_exec(b.as_slice(), pat.as_slice(), from) {
            Some(i) => i,
            None => return count,
        };
        proof {
            crate::text::lemma_pattern_from(b@, pat@, from as int);
        }
        if is_page_entry_exec(b.as_slice(), idx) {
            count = count + 1;
        }
        from = idx + 5;
    }
}

pub open spec fn page_url_spec(chapter_key: Seq<char>, order: nat) -> Seq<char> {
    let trimmed = crate::text::trim_end_char(chapter_key, '/');
    let id = match crate::text::char_before(trimmed, '/', trimmed.len() as int) {
        Some(j) => trimmed.subrange(j + 1, trimmed.len() as int),
        None => trimmed,
    };
    BASE_URL@ + API_PATH@ + id + "/page/"@ + dec(order)
}

/// The page api url of one page: the chapter's id is the last segment of
/// its key.
pub fn page_url(chapter_key: &str, order: usize) -> (r: String)
    ensures
        r@ == page_url_spec(chapter_key@, order as nat),
{
    let k = chars_of(chapter_key);
    let trimmed = crate::text::trim_end_char_exec(k.as_slice(), '/');
    let id = match crate::text::char_before_exec(trimmed.as_slice(), '/', trimmed.len()) {
        Some(j) => {
            proof {
                crate::text::lemma_char_before(trimmed@, '/', trimmed@.len() as int);
            }
            slice_to_vec(trimmed.as_slice(), j + 1, trimmed.len())
        },
        None => trimmed,
    };
    let mut v = chars_of(BASE_URL);
    push_str(&mut v, API_PATH);
    v.extend_from_slice(id.as_slice());
    push_str(&mut v, "/page/");
    let d = crate::text::dec_u64(order as u64);
    v.extend_from_slice(d.as_slice());
    string_of(v.as_slice())
}

/// Whether a url is one of the reader's page api urls.
pub fn is_page_url(url: &str) -> (r: bool)
    ensures
        r == (starts_with(url@, BASE_URL@) && contains(url@, API_PATH@)),
{
    crate::text::str_starts_with(url, BASE_URL) && crate::text::str_contains(url, API_PATH)
}


// ---------------------------------------------------------------------------
// Component properties
// ---------------------------------------------------------------------------

/// The `post-filter` component's public properties.
pub struct PostFilterUpdates {
    pub platform: String,
    pub status: String,
    pub sort: String,
    pub min_chapters: String,
    pub group: Option<String>,
    pub release_start: Option<String>,
    pub release_end: Option<String>,
    pub genre: Vec<String>,
    pub exclude_genre: Vec<String>,
}

/// The properties as values.
pub struct PostFilter {
    pub platform: Seq<char>,
    pub status: Seq<char>,
    pub sort: Seq<char>,
    pub min_chapters: Seq<char>,
    pub group: Option<Seq<char>>,
    pub release_start: Option<Seq<char>>,
    pub release_end: Option<Seq<char>>,
    pub genre: Seq<Seq<char>>,
    pub exclude_genre: Seq<Seq<char>>,
}

impl View for PostFilterUpdates {
    type V = PostFilter;

    open spec fn view(&self) -> PostFilter {
        PostFilter {
            platform: self.platform@,
            status: self.status@,
            sort: self.sort@,
            min_chapters: self.min_chapters@,
            group: opt_string(self.group),
            release_start: opt_string(self.release_start),
            release_end: opt_string(self.release_end),
            genre: views(self.genre@),
            exclude_genre: views(self.exclude_genre@),
        }
    }
}

/// What the component starts with: newest first, nothing else narrowed.
pub open spec fn default_filter() -> PostFilter {
    PostFilter {
        platform: Seq::empty(),
        status: Seq::empty(),
        sort: "created_at"@,
        min_chapters: Seq::empty(),
        group: None,
        release_start: None,
        release_end: None,
        genre: Seq::empty(),
        exclude_genre: Seq::empty(),
    }
}

impl Default for PostFilterUpdates {
    fn default() -> (r: Self)
        ensures
            r@ == default_filter(),
    {
        let r = PostFilterUpdates {
            platform: String::new(),
            status: String::new(),
            sort: string_of(chars_of("created_at").as_slice()),
            min_chapters: String::new(),
            group: None,
            release_start: None,
            release_end: None,
            genre: Vec::new(),
            exclude_genre: Vec::new(),
        };
        assert(r@.genre =~= Seq::<Seq<char>>::empty());
        assert(r@.exclude_genre =~= Seq::<Seq<char>>::empty());
        r
    }
}

impl PostFilterUpdates {
    /// Whether the properties are still those the component starts with.
    pub fn is_default(&self) -> (r: bool)
        ensures
            r == (self@ == default_filter()),
    {
        let r = self.platform.as_str().is_empty() && self.status.as_str().is_empty() && str_eq(
            self.sort.as_str(),
            "created_at",
        ) && self.min_chapters.as_str().is_empty() && self.group.is_none()
            && self.release_start.is_none() && self.release_end.is_none() && self.genre.len() == 0
            && self.exclude_genre.len() == 0;
        proof {
            if r {
                assert(self@.platform =~= Seq::<char>::empty());
                assert(self@.status =~= Seq::<char>::empty());
                assert(self@.min_chapters =~= Seq::<char>::empty());
                assert(self@.genre =~= Seq::<Seq<char>>::empty());
                assert(self@.exclude_genre =~= Seq::<Seq<char>>::empty());
            }
        }
        r
    }
}

/// The `manga.chapter-list` component's public properties.
pub struct ChapterListUpdates<'a> {
    pub language: &'a str,
}

/// One method call on a component.
pub struct Call<'a> {
    pub kind: &'a str,
    pub path: &'a str,
    pub method: &'a str,
    pub params: Vec<String>,
}

impl<'a> Call<'a> {
    pub fn new(method: &'a str, params: Vec<String>) -> (r: Self)
        ensures
            r.kind@ == "call"@,
            r.path@ == ""@,
            r.method == method,
            r.params == params,
    {
        Call { kind: "call", path: "", method, params }
    }
}

/// The sort a sort filter's index stands for.
pub open spec fn sort_key(index: int) -> Seq<char> {
    if index == 1 {
        "view"@
    } else if index == 2 {
        "release_date"@
    } else if index == 3 {
        "like_count"@
    } else if index == 4 {
        "title"@
    } else if index == 5 {
        "vote_average"@
    } else if index == 6 {
        "fan_favorites"@
    } else {
        "created_at"@
    }
}

/// The sort options, in the order the filter lists them: "created_at",
/// "view", "release_date", "like_count", "title", "vote_average",
/// "fan_favorites"; any other index sorts by "created_at".
pub proof fn lemma_sort_keys(index: int)
    ensures
        sort_key(0) == "created_at"@,
        sort_key(1) == "view"@,
        sort_key(2) == "release_date"@,
        sort_key(3) == "like_count"@,
        sort_key(4) == "title"@,
        sort_key(5) == "vote_average"@,
        sort_key(6) == "fan_favorites"@,
        (index < 0 || index >= 7) ==> sort_key(index) == "created_at"@,
{
    reveal_strlit("created_at");
    reveal_strlit("fan_favorites");
    reveal_strlit("like_count");
    reveal_strlit("release_date");
    reveal_strlit("title");
    reveal_strlit("view");
    reveal_strlit("vote_average");
}

fn sort_key_exec(index: i32) -> (r: &'static str)
    ensures
        r@ == sort_key(index as int),
{
    if index == 1 {
        "view"
    } else if index == 2 {
        "release_date"
    } else if index == 3 {
        "like_count"
    } else if index == 4 {
        "title"
    } else if index == 5 {
        "vote_average"
    } else if index == 6 {
        "fan_favorites"
    } else {
        "created_at"
    }
}

/// The properties once one filter value is applied: selects set the type,
/// status or minimum chapter count; non-empty texts, trimmed, set the group
/// or release bounds; the genres multi select sets both genre lists; a sort
/// sets the sort.
pub open spec fn apply_filter(u: PostFilter, f: FilterValue) -> PostFilter {
    match f {
        FilterValue::Select { id, value } => if id@ == "type"@ {
            PostFilter { platform: value@, ..u }
        } else if id@ == "status"@ {
            PostFilter { status: value@, ..u }
        } else if id@ == "minChapters"@ {
            PostFilter { min_chapters: value@, ..u }
        } else {
            u
        },
        FilterValue::Text { id, value } => {
            let v = trim(value@);
            if v.len() == 0 {
                u
            } else if id@ == "group"@ {
                PostFilter { group: Some(v), ..u }
            } else if id@ == "releaseStart"@ {
                PostFilter { release_start: Some(v), ..u }
            } else if id@ == "releaseEnd"@ {
                PostFilter { release_end: Some(v), ..u }
            } else {
                u
            }
        },
        FilterValue::MultiSelect { id, included, excluded } => if id@ == "genres"@ {
            PostFilter { genre: views(included@), exclude_genre: views(excluded@), ..u }
        } else {
            u
        },
        FilterValue::Sort { index, .. } => PostFilter { sort: sort_key(index as int), ..u },
        _ => u,
    }
}

pub open spec fn apply_filters(u: PostFilter, fs: Seq<FilterValue>) -> PostFilter
    decreases fs.len(),
{
    if fs.len() == 0 {
        u
    } else {
        apply_filter(apply_filters(u, fs.drop_last()), fs.last())
    }
}

/// The `post-filter` properties a search's filter values stand for.
pub fn updates_from(filters: Vec<FilterValue>) -> (r: PostFilterUpdates)
    ensures
        r@ == apply_filters(default_filter(), filters@),
{
    let mut u = PostFilterUpdates::default();
    let ghost fs = filters@;
    let rest = filters;
    let mut i: usize = 0;
    while i < rest.len()
        invariant
            i <= fs.len(),
            rest@ == fs,
            u@ == apply_filters(default_filter(), fs.subrange(0, i as int)),
        decreases fs.len() - i,
    {
        assert(fs.subrange(0, i + 1).drop_last() =~= fs.subrange(0, i as int));
        match &rest[i] {
            FilterValue::Select { id, value } => {
                let v = string_of(chars_of(value.as_str()).as_slice());
                if str_eq(id.as_str(), "type") {
                    u.platform = v;
                } else if str_eq(id.as_str(), "status") {
                    u.status = v;
                } else if str_eq(id.as_str(), "minChapters") {
                    u.min_chapters = v;
                }
            },
            FilterValue::Text { id, value } => {
                let v = trim_str(value.as_str());
                if !v.as_str().is_empty() {
                    if str_eq(id.as_str(), "group") {
                        u.group = Some(v);
                    } else if str_eq(id.as_str(), "releaseStart") {
                        u.release_start = Some(v);
                    } else if str_eq(id.as_str(), "releaseEnd") {
                        u.release_end = Some(v);
                    }
                }
            },
            FilterValue::MultiSelect { id, included, excluded } => {
                if str_eq(id.as_str(), "genres") {
                    u.genre = copy_strings(included);
                    u.exclude_genre = copy_strings(excluded);
                }
            },
            FilterValue::Sort { index, .. } => {
                u.sort = string_of(chars_of(sort_key_exec(*index)).as_slice());
            },
            _ => {},
        }
        assert(u@ =~= apply_filter(apply_filters(default_filter(), fs.subrange(0, i as int)), fs[i as int]));
        i = i + 1;
    }
    assert(fs.subrange(0, fs.len() as int) =~= fs);
    u
}

/// Whether a browse request has to go through the component rather than
/// the plain page: past the first page, with filters set, or with genres
/// the user excludes.
pub fn needs_component(page: i32, updates: &PostFilterUpdates, excluded: &Vec<String>) -> (r: bool)
    ensures
        r == !(page <= 1 && updates@ == default_filter() && excluded@.len() == 0),
{
    !(page <= 1 && updates.is_default() && excluded.len() == 0)
}

/// The excluded genres with those the user always excludes appended, each
/// one not already there.
pub open spec fn merge_excluded_spec(current: Seq<Seq<char>>, excluded: Seq<Seq<char>>) -> Seq<Seq<char>>
    decreases excluded.len(),
{
    if excluded.len() == 0 {
        current
    } else {
        let before = merge_excluded_spec(current, excluded.drop_last());
        if before.contains(excluded.last()) {
            before
        } else {
            before.push(excluded.last())
        }
    }
}

pub fn merge_excluded(updates: &mut PostFilterUpdates, excluded: Vec<String>)
    ensures
        final(updates)@ == (PostFilter {
            exclude_genre: merge_excluded_spec(old(updates)@.exclude_genre, views(excluded@)),
            ..old(updates)@
        }),
{
    let ghost ex = views(excluded@);
    let ghost start = updates@.exclude_genre;
    let mut i: usize = 0;
    while i < excluded.len()
        invariant
            i <= excluded@.len(),
            ex == views(excluded@),
            updates@ == (PostFilter {
                exclude_genre: merge_excluded_spec(start, ex.subrange(0, i as int)),
                ..old(updates)@
            }),
        decreases excluded@.len() - i,
    {
        assert(ex.subrange(0, i + 1).drop_last() =~= ex.subrange(0, i as int));
        assert(ex[i as int] == excluded@[i as int]@);
        let g = excluded[i].as_str();
        let mut found = false;
        let mut k: usize = 0;
        while k < updates.exclude_genre.len()
            invariant
                k <= updates@.exclude_genre.len(),
                updates@.exclude_genre == views(updates.exclude_genre@),
                found == exists|j: int| 0 <= j < k && updates@.exclude_genre[j] == g@,
            decreases updates.exclude_genre@.len() - k,
        {
            if str_eq(updates.exclude_genre[k].as_str(), g) {
                found = true;
            }
            assert(updates@.exclude_genre[k as int] == updates.exclude_genre@[k as int]@);
            k = k + 1;
        }
        let ghost before = updates@;
        if !found {
            let copy = string_of(chars_of(g).as_slice());
            updates.exclude_genre.push(copy);
            assert(views(updates.exclude_genre@) =~= before.exclude_genre.push(g@));
        }
        proof {
            if found {
                let j = choose|j: int| 0 <= j < k && before.exclude_genre[j] == g@;
                assert(before.exclude_genre.contains(g@));
            } else {
                assert(!before.exclude_genre.contains(g@));
            }
        }
        i = i + 1;
    }
    assert(ex.subrange(0, ex.len() as int) =~= ex);
}

// ---------------------------------------------------------------------------
// Settings
// ---------------------------------------------------------------------------

/// The chapter languages the site has, as (app code, site code) pairs.
pub open spec fn all_languages() -> Seq<(Seq<char>, Seq<char>)> {
    seq![
        ("en"@, "EN"@),
        ("fr"@, "FR"@),
        ("ja"@, "JA"@),
        ("pt-BR"@, "PT-BR"@),
        ("pt"@, "PT"@),
        ("es-419"@, "ES-LA"@),
        ("es"@, "ES"@),
    ]
}

pub open spec fn pair_view(p: (&str, &str)) -> (Seq<char>, Seq<char>) {
    (p.0@, p.1@)
}

/// The pairs whose app code is selected, in order.
pub open spec fn selected_pairs(ps: Seq<(Seq<char>, Seq<char>)>, selected: Seq<Seq<char>>) -> Seq<(Seq<char>, Seq<char>)>
    decreases ps.len(),
{
    if ps.len() == 0 {
        ps
    } else if selected.contains(ps.last().0) {
        selected_pairs(ps.drop_last(), selected).push(ps.last())
    } else {
        selected_pairs(ps.drop_last(), selected)
    }
}

/// The languages to load chapters for: all of them when the user selected
/// none, otherwise those the user selected, in the site's order.
pub open spec fn languages_spec(selected: Seq<Seq<char>>) -> Seq<(Seq<char>, Seq<char>)> {
    if selected.len() == 0 {
        all_languages()
    } else {
        selected_pairs(all_languages(), selected)
    }
}

pub fn languages(selected: &[String]) -> (r: Vec<(&'static str, &'static str)>)
    ensures
        r@.map_values(|p: (&str, &str)| pair_view(p)) == languages_spec(views(selected@)),
{
    let all: [(&'static str, &'static str); 7] = [
        ("en", "EN"),
        ("fr", "FR"),
        ("ja", "JA"),
        ("pt-BR", "PT-BR"),
        ("pt", "PT"),
        ("es-419", "ES-LA"),
        ("es", "ES"),
    ];
    let ghost av = all@.map_values(|p: (&str, &str)| pair_view(p));
    assert(av =~= all_languages());
    let ghost sel = views(selected@);
    let mut out: Vec<(&'static str, &'static str)> = Vec::new();
    let mut i: usize = 0;
    assert(av.take(0) =~= Seq::<(Seq<char>, Seq<char>)>::empty());
    while i < 7
        invariant
            i <= 7,
            av == all@.map_values(|p: (&str, &str)| pair_view(p)),
            sel == views(selected@),
            out@.map_values(|p: (&str, &str)| pair_view(p)) == (if sel.len() == 0 {
                av.take(i as int)
            } else {
                selected_pairs(av.take(i as int), sel)
            }),
        decreases 7 - i,
    {
        let (code, site) = all[i];
        let ghost before = out@.map_values(|p: (&str, &str)| pair_view(p));
        assert(av.take(i + 1) =~= av.take(i as int).push(av[i as int]));
        assert(av[i as int] == (code@, site@));
        let mut keep = selected.len() == 0;
        if !keep {
            let mut k: usize = 0;
            while k < selected.len()
                invariant
                    k <= selected@.len(),
                    sel == views(selected@),
                    keep == exists|j: int| 0 <= j < k && sel[j] == code@,
                decreases selected@.len() - k,
            {
                assert(sel[k as int] == selected@[k as int]@);
                if str_eq(selected[k].as_str(), code) {
                    keep = true;
                }
                k = k + 1;
            }
        }
        assert(av.take(i + 1).drop_last() =~= av.take(i as int));
        proof {
            if sel.len() > 0 && keep {
                let j = choose|j: int| 0 <= j < selected@.len() && sel[j] == code@;
                assert(sel.contains(code@));
            }
        }
        if keep {
            out.push((code, site));
            assert(out@.map_values(|p: (&str, &str)| pair_view(p)) =~= before.push((code@, site@)));
        }
        i = i + 1;
    }
    assert(av.take(7) =~= av);
    out
}

/// The request pacing a setting asks for, as (permits, period in seconds).
pub open spec fn rate_limit_spec(setting: Option<Seq<char>>) -> (int, int) {
    if setting == Some("fast"@) {
        (2, 1)
    } else if setting == Some("normal"@) {
        (1, 1)
    } else {
        (1, 2)
    }
}

pub fn rate_limit(setting: Option<&str>) -> (r: (i32, i32))
    ensures
        (r.0 as int, r.1 as int) == rate_limit_spec(crate::atsumaru::opt_view(setting)),
{
    match setting {
        Some(s) => if str_eq(s, "fast") {
            (2, 1)
        } else if str_eq(s, "normal") {
            (1, 1)
        } else {
            (1, 2)
        },
        None => (1, 2),
    }
}


// ---------------------------------------------------------------------------
// Title pages
// ---------------------------------------------------------------------------

/// The status the first badge that names one gives, in lower case.
pub open spec fn badge_status(b: Seq<char>) -> Option<MangaStatus> {
    let l = lowercase(b);
    if contains(l, "ongoing"@) || contains(l, "releasing"@) {
        Some(MangaStatus::Ongoing)
    } else if contains(l, "completed"@) {
        Some(MangaStatus::Completed)
    } else if contains(l, "hiatus"@) {
        Some(MangaStatus::Hiatus)
    } else if contains(l, "cancelled"@) || contains(l, "dropped"@) {
        Some(MangaStatus::Cancelled)
    } else {
        None
    }
}

/// A badge names a status when, in lower case, it mentions one: "ongoing"
/// or "releasing" is ongoing; "completed" completed; "hiatus" on hiatus;
/// "cancelled" or "dropped" cancelled, each only when no earlier one in
/// this list is mentioned.
pub proof fn lemma_badge_names(b: Seq<char>)
    ensures
        ({
            let l = lowercase(b);
            let ongoing = contains(l, "ongoing"@) || contains(l, "releasing"@);
            &&& ongoing ==> badge_status(b) == Some(MangaStatus::Ongoing)
            &&& !ongoing && contains(l, "completed"@) ==> badge_status(b) == Some(MangaStatus::Completed)
            &&& !ongoing && !contains(l, "completed"@) && contains(l, "hiatus"@) ==> badge_status(b) == Some(
                MangaStatus::Hiatus,
            )
            &&& !ongoing && !contains(l, "completed"@) && !contains(l, "hiatus"@) && (contains(l, "cancelled"@)
                || contains(l, "dropped"@)) ==> badge_status(b) == Some(MangaStatus::Cancelled)
        }),
{
}

pub open spec fn status_spec(badges: Seq<Seq<char>>) -> MangaStatus
    decreases badges.len(),
{
    if badges.len() == 0 {
        MangaStatus::Unknown
    } else {
        match badge_status(badges[0]) {
            Some(st) => st,
            None => status_spec(badges.drop_first()),
        }
    }
}

/// The first badge that names a status decides the title's status; a row
/// where none does gives unknown.
pub proof fn lemma_first_badge_decides(before: Seq<Seq<char>>, b: Seq<char>, after: Seq<Seq<char>>)
    requires
        forall|i: int| 0 <= i < before.len() ==> badge_status(#[trigger] before[i]) is None,
    ensures
        badge_status(b) matches Some(st) ==> status_spec(before + seq![b] + after) == st,
        (forall|i: int| 0 <= i < after.len() ==> badge_status(#[trigger] after[i]) is None) && badge_status(b)
            is None ==> status_spec(before + seq![b] + after) == MangaStatus::Unknown,
    decreases before.len(),
{
    let all = before + seq![b] + after;
    if before.len() > 0 {
        assert(all[0] == before[0]);
        assert(all.drop_first() =~= before.drop_first() + seq![b] + after);
        lemma_first_badge_decides(before.drop_first(), b, after);
    } else {
        assert(all[0] == b);
        assert(all.drop_first() =~= after);
        if badge_status(b) is None && forall|i: int| 0 <= i < after.len() ==> badge_status(#[trigger] after[i]) is None {
            lemma_no_status(after);
        }
    }
}

proof fn lemma_no_status(bs: Seq<Seq<char>>)
    requires
        forall|i: int| 0 <= i < bs.len() ==> badge_status(#[trigger] bs[i]) is None,
    ensures
        status_spec(bs) == MangaStatus::Unknown,
    decreases bs.len(),
{
    if bs.len() > 0 {
        assert(badge_status(bs[0]) is None);
        assert forall|i: int| 0 <= i < bs.drop_first().len() implies badge_status(#[trigger] bs.drop_first()[i]) is None by {
            assert(bs.drop_first()[i] == bs[i + 1]);
        }
        lemma_no_status(bs.drop_first());
    }
}

/// The publishing status the badge row gives.
pub fn status(badges: &[String]) -> (r: MangaStatus)
    ensures
        r == status_spec(views(badges@)),
{
    let ghost bs = views(badges@);
    let mut i: usize = 0;
    assert(bs.subrange(0, bs.len() as int) =~= bs);
    while i < badges.len()
        invariant
            i <= badges@.len(),
            bs == views(badges@),
            status_spec(bs.subrange(i as int, bs.len() as int)) == status_spec(bs),
        decreases badges@.len() - i,
    {
        let ghost rest = bs.subrange(i as int, bs.len() as int);
        assert(rest.drop_first() =~= bs.subrange(i + 1, bs.len() as int));
        assert(rest[0] == badges@[i as int]@);
        let l = to_lowercase(badges[i].as_str());
        let lv = chars_of(l.as_str());
        let v = lv.as_slice();
        if crate::text::contains_lit(v, "ongoing") || crate::text::contains_lit(v, "releasing") {
            return MangaStatus::Ongoing;
        }
        if crate::text::contains_lit(v, "completed") {
            return MangaStatus::Completed;
        }
        if crate::text::contains_lit(v, "hiatus") {
            return MangaStatus::Hiatus;
        }
        if crate::text::contains_lit(v, "cancelled") || crate::text::contains_lit(v, "dropped") {
            return MangaStatus::Cancelled;
        }
        i = i + 1;
    }
    MangaStatus::Unknown
}

/// The type badges the site puts on a title, and the reader each implies.
pub open spec fn type_viewer(name: Seq<char>) -> Option<Viewer> {
    if name == "manga"@ {
        Some(Viewer::RightToLeft)
    } else if name == "manhwa"@ || name == "manhua"@ {
        Some(Viewer::Webtoon)
    } else if name == "shounen"@ || name == "seinen"@ || name == "shoujo"@ || name == "josei"@ {
        Some(Viewer::RightToLeft)
    } else {
        None
    }
}

/// Manga and the demographic badges (shounen, seinen, shoujo, josei) are
/// read right to left; manhwa and manhua as webtoons; other badges imply
/// no reader.
pub proof fn lemma_type_viewers(name: Seq<char>)
    ensures
        name == "manga"@ || name == "shounen"@ || name == "seinen"@ || name == "shoujo"@ || name
            == "josei"@ ==> type_viewer(name) == Some(Viewer::RightToLeft),
        name == "manhwa"@ || name == "manhua"@ ==> type_viewer(name) == Some(Viewer::Webtoon),
        !(name == "manga"@ || name == "shounen"@ || name == "seinen"@ || name == "shoujo"@ || name
            == "josei"@ || name == "manhwa"@ || name == "manhua"@) ==> type_viewer(name) is None,
{
    reveal_strlit("manga");
    reveal_strlit("manhwa");
    reveal_strlit("manhua");
    reveal_strlit("shounen");
    reveal_strlit("seinen");
    reveal_strlit("shoujo");
    reveal_strlit("josei");
    if name == "manhwa"@ || name == "manhua"@ {
        assert(name.len() == 6 && name[0] == 'm');
        assert(name != "manga"@);
    }
}

fn type_viewer_exec(name: &str) -> (r: Option<Viewer>)
    ensures
        r == type_viewer(name@),
{
    if str_eq(name, "manga") {
        Some(Viewer::RightToLeft)
    } else if str_eq(name, "manhwa") || str_eq(name, "manhua") {
        Some(Viewer::Webtoon)
    } else if str_eq(name, "shounen") || str_eq(name, "seinen") || str_eq(name, "shoujo") || str_eq(
        name,
        "josei",
    ) {
        Some(Viewer::RightToLeft)
    } else {
        None
    }
}

/// A type name with its first letter in upper case.
pub open spec fn capitalized(name: Seq<char>) -> Seq<char> {
    if name.len() > 0 {
        seq![crate::text::ascii_upper_char(name[0])] + name.drop_first()
    } else {
        name
    }
}

/// The tags the type badges give, in order.
pub open spec fn type_tags(badges: Seq<Seq<char>>) -> Seq<Seq<char>>
    decreases badges.len(),
{
    if badges.len() == 0 {
        Seq::empty()
    } else {
        let before = type_tags(badges.drop_last());
        let l = lowercase(badges.last());
        if type_viewer(l) is Some {
            before.push(capitalized(l))
        } else {
            before
        }
    }
}

/// The reader the first type badge implies.
pub open spec fn badges_viewer(badges: Seq<Seq<char>>) -> Viewer
    decreases badges.len(),
{
    if badges.len() == 0 {
        Viewer::Unknown
    } else {
        match type_viewer(lowercase(badges[0])) {
            Some(v) => v,
            None => badges_viewer(badges.drop_first()),
        }
    }
}

proof fn lemma_badges_viewer_take(badges: Seq<Seq<char>>, i: int)
    requires
        0 <= i < badges.len(),
    ensures
        badges_viewer(badges.take(i + 1)) == (match badges_viewer(badges.take(i)) {
            Viewer::Unknown => match type_viewer(lowercase(badges[i])) {
                Some(v) => v,
                None => Viewer::Unknown,
            },
            v => v,
        }),
    decreases i,
{
    if i == 0 {
        assert(badges.take(1).drop_first() =~= Seq::<Seq<char>>::empty());
        assert(badges.take(0) =~= Seq::<Seq<char>>::empty());
    } else {
        lemma_badges_viewer_take(badges.drop_first(), i - 1);
        assert(badges.take(i + 1).drop_first() =~= badges.drop_first().take(i));
        assert(badges.take(i).drop_first() =~= badges.drop_first().take(i - 1));
        assert(badges.take(i + 1)[0] == badges[0]);
        assert(badges.take(i)[0] == badges[0]);
        assert(badges.drop_first()[i - 1] == badges[i]);
    }
}

/// A title's tags and reader: the type badges, capitalized, then the genre
/// links; the reader comes from the first type badge. No tags is none.
pub fn tags_and_viewer(badges: &[String], genres: Option<Vec<String>>) -> (r: (Option<Vec<String>>, Viewer))
    ensures
        opt_strings(r.0) == ({
            let tags = type_tags(views(badges@)) + match genres {
                Some(g) => views(g@),
                None => Seq::empty(),
            };
            if tags.len() > 0 {
                Some(tags)
            } else {
                None
            }
        }),
        r.1 == badges_viewer(views(badges@)),
{
    let ghost bs = views(badges@);
    let mut tags: Vec<String> = Vec::new();
    let mut viewer = Viewer::Unknown;
    let mut i: usize = 0;
    assert(bs.take(0) =~= Seq::<Seq<char>>::empty());
    while i < badges.len()
        invariant
            i <= badges@.len(),
            bs == views(badges@),
            views(tags@) == type_tags(bs.take(i as int)),
            viewer == badges_viewer(bs.take(i as int)),
        decreases badges@.len() - i,
    {
        proof {
            lemma_badges_viewer_take(bs, i as int);
        }
        assert(bs.take(i + 1).drop_last() =~= bs.take(i as int));
        assert(bs[i as int] == badges@[i as int]@);
        let l = to_lowercase(badges[i].as_str());
        match type_viewer_exec(l.as_str()) {
            Some(v) => {
                if viewer == Viewer::Unknown {
                    viewer = v;
                }
                let mut c = chars_of(l.as_str());
                if c.len() > 0 {
                    let first = c[0];
                    let up = if 'a' <= first && first <= 'z' {
                        crate::text::char_from_u32_ascii((first as u32) - 32)
                    } else {
                        first
                    };
                    c.set(0, up);
                }
                assert(c@ =~= capitalized(l@));
                tags.push(string_of(c.as_slice()));
                assert(views(tags@) =~= type_tags(bs.take(i as int)).push(capitalized(l@)));
            },
            None => {},
        }
        i = i + 1;
    }
    assert(bs.take(bs.len() as int) =~= bs);
    match genres {
        Some(g) => {
            let ghost before = views(tags@);
            let mut k: usize = 0;
            while k < g.len()
                invariant
                    k <= g@.len(),
                    views(tags@) == before + views(g@.take(k as int)),
                decreases g@.len() - k,
            {
                let ghost mid = views(tags@);
                tags.push(string_of(chars_of(g[k].as_str()).as_slice()));
                assert(views(tags@) =~= mid.push(g@[k as int]@));
                assert(views(g@.take(k + 1)) =~= views(g@.take(k as int)).push(g@[k as int]@));
                assert(views(tags@) =~= before + views(g@.take(k + 1)));
                k = k + 1;
            }
            assert(g@.take(g@.len() as int) =~= g@);
        },
        None => {
            assert(views(tags@) + Seq::<Seq<char>>::empty() =~= views(tags@));
        },
    }
    let ghost tv = views(tags@);
    if tags.len() > 0 {
        assert(tags@.map_values(|s: String| s@) == tv);
        (Some(tags), viewer)
    } else {
        (None, viewer)
    }
}

/// Titles the site gates behind an "18+" overlay are NSFW; others aren't
/// known.
pub open spec fn overlay_rating(texts: Seq<Seq<char>>) -> ContentRating {
    if exists|i: int| 0 <= i < texts.len() && contains(#[trigger] texts[i], "18+"@) {
        ContentRating::NSFW
    } else {
        ContentRating::Unknown
    }
}

/// A title with any text mentioning `18+` is rated explicit; one with none
/// has no known rating.
pub proof fn lemma_overlay_ratings(texts: Seq<Seq<char>>, i: int)
    ensures
        0 <= i < texts.len() && contains(texts[i], "18+"@) ==> overlay_rating(texts)
            == ContentRating::NSFW,
        (forall|j: int| 0 <= j < texts.len() ==> !contains(#[trigger] texts[j], "18+"@))
            ==> overlay_rating(texts) == ContentRating::Unknown,
{
}

/// The rating from the own texts of a title's `span`s.
pub fn overlay_content_rating(texts: &[String]) -> (r: ContentRating)
    ensures
        r == overlay_rating(views(texts@)),
{
    let ghost ts = views(texts@);
    let mut i: usize = 0;
    while i < texts.len()
        invariant
            i <= texts@.len(),
            ts == views(texts@),
            forall|j: int| 0 <= j < i ==> !contains(#[trigger] ts[j], "18+"@),
        decreases texts@.len() - i,
    {
        assert(ts[i as int] == texts@[i as int]@);
        if crate::text::str_contains(texts[i].as_str(), "18+") {
            return ContentRating::NSFW;
        }
        i = i + 1;
    }
    ContentRating::Unknown
}

/// A title page's rating: an "18+" badge, or else the cover's overlay.
pub fn details_content_rating(badges: &[String], cover_texts: &[String]) -> (r: ContentRating)
    ensures
        r == (if overlay_rating(views(badges@)) == ContentRating::NSFW {
            ContentRating::NSFW
        } else {
            overlay_rating(views(cover_texts@))
        }),
{
    if overlay_content_rating(badges) == ContentRating::NSFW {
        ContentRating::NSFW
    } else {
        overlay_content_rating(cover_texts)
    }
}

/// The alternative titles as a markdown list under a heading.
pub open spec fn alternatives_text(alts: Seq<Seq<char>>) -> Seq<char>
    decreases alts.len(),
{
    if alts.len() == 0 {
        "**Alternative Titles:**\n"@
    } else {
        alternatives_text(alts.drop_last()) + "- "@ + alts.last() + "\n"@
    }
}

pub open spec fn description_spec(text: Seq<char>, alts: Seq<Seq<char>>) -> Option<Seq<char>> {
    let d = if alts.len() > 0 {
        (if text.len() > 0 {
            text + "\n\n"@
        } else {
            text
        }) + alternatives_text(alts)
    } else {
        text
    };
    if d.len() > 0 {
        Some(d)
    } else {
        None
    }
}

/// A title's description: its synopsis (`text`, trimmed, empty when there
/// is none), then the alternative titles when there are any.
pub fn description(text: &str, alternatives: &[String]) -> (r: Option<String>)
    ensures
        opt_string(r) == description_spec(text@, views(alternatives@)),
{
    let ghost alts = views(alternatives@);
    let mut d = chars_of(text);
    if alternatives.len() > 0 {
        if d.len() > 0 {
            push_str(&mut d, "\n\n");
        }
        let ghost head = d@;
        push_str(&mut d, "**Alternative Titles:**\n");
        let mut i: usize = 0;
        assert(alts.take(0) =~= Seq::<Seq<char>>::empty());
        while i < alternatives.len()
            invariant
                i <= alternatives@.len(),
                alts == views(alternatives@),
                d@ == head + alternatives_text(alts.take(i as int)),
            decreases alternatives@.len() - i,
        {
            assert(alts.take(i + 1).drop_last() =~= alts.take(i as int));
            assert(alts[i as int] == alternatives@[i as int]@);
            push_str(&mut d, "- ");
            push_str(&mut d, alternatives[i].as_str());
            push_str(&mut d, "\n");
            i = i + 1;
        }
        assert(alts.take(alts.len() as int) =~= alts);
    }
    if d.len() > 0 {
        Some(string_of(d.as_slice()))
    } else {
        None
    }
}

/// The url of the first image that has one and carries a non-empty `alt`.
pub open spec fn first_with_alt(images: Seq<(Option<Seq<char>>, Option<Seq<char>>)>) -> Option<Seq<char>>
    decreases images.len(),
{
    if images.len() == 0 {
        None
    } else {
        match (images[0].0, images[0].1) {
            (Some(u), Some(a)) if trim(a).len() > 0 => Some(u),
            _ => first_with_alt(images.drop_first()),
        }
    }
}

/// The url of the first image that has one.
pub open spec fn first_url(images: Seq<(Option<Seq<char>>, Option<Seq<char>>)>) -> Option<Seq<char>>
    decreases images.len(),
{
    if images.len() == 0 {
        None
    } else {
        match images[0].0 {
            Some(u) => Some(u),
            None => first_url(images.drop_first()),
        }
    }
}

pub open spec fn image_pair(p: (Option<String>, Option<String>)) -> (Option<Seq<char>>, Option<Seq<char>>) {
    (opt_string(p.0), opt_string(p.1))
}

/// A cover among a title's images, each given as its url (when it has a
/// usable one) and its `alt`: the first with a non-empty `alt`, or else the
/// first.
pub fn pick_cover(images: &[(Option<String>, Option<String>)]) -> (r: Option<String>)
    ensures
        opt_string(r) == (match first_with_alt(images@.map_values(|p: (Option<String>, Option<String>)| image_pair(p))) {
            Some(u) => Some(u),
            None => first_url(images@.map_values(|p: (Option<String>, Option<String>)| image_pair(p))),
        }),
{
    let ghost iv = images@.map_values(|p: (Option<String>, Option<String>)| image_pair(p));
    let mut fallback: Option<String> = None;
    let mut i: usize = 0;
    assert(iv.subrange(0, iv.len() as int) =~= iv);
    while i < images.len()
        invariant
            i <= images@.len(),
            iv == images@.map_values(|p: (Option<String>, Option<String>)| image_pair(p)),
            first_with_alt(iv) == first_with_alt(iv.subrange(i as int, iv.len() as int)),
            first_url(iv) == (match opt_string(fallback) {
                Some(f) => Some(f),
                None => first_url(iv.subrange(i as int, iv.len() as int)),
            }),
        decreases images@.len() - i,
    {
        let ghost rest = iv.subrange(i as int, iv.len() as int);
        assert(rest.drop_first() =~= iv.subrange(i + 1, iv.len() as int));
        assert(rest[0] == image_pair(images@[i as int]));
        let (url, alt) = &images[i];
        match url {
            Some(u) => {
                match alt {
                    Some(a) => {
                        let t = trim_str(a.as_str());
                        if !t.as_str().is_empty() {
                            return Some(string_of(chars_of(u.as_str()).as_slice()));
                        }
                    },
                    None => {},
                }
                if fallback.is_none() {
                    fallback = Some(string_of(chars_of(u.as_str()).as_slice()));
                }
            },
            None => {},
        }
        i = i + 1;
    }
    fallback
}


// ---------------------------------------------------------------------------
// Chapters
// ---------------------------------------------------------------------------

/// Whether a group name the site shows stands for a known group.
pub open spec fn is_named_group(t: Option<Seq<char>>) -> bool {
    match t {
        Some(x) => x.len() > 0 && !crate::text::eq_ignore_ascii_case(x, "Unknown group"@),
        None => false,
    }
}

/// The number of unnamed groups among the first `n`.
pub open spec fn unnamed_before(ts: Seq<Option<Seq<char>>>, n: int) -> nat
    decreases n,
{
    if n <= 0 || n > ts.len() {
        0
    } else {
        unnamed_before(ts, n - 1) + (if is_named_group(ts[n - 1]) {
            0nat
        } else {
            1nat
        })
    }
}

/// The scanlator of each release in a chapter's dropdown: its group name
/// (trimmed by the caller), or "Unknown N" counting the unnamed ones.
pub open spec fn group_name(ts: Seq<Option<Seq<char>>>, i: int) -> Seq<char> {
    if is_named_group(ts[i]) {
        ts[i]->0
    } else {
        "Unknown "@ + dec(unnamed_before(ts, i + 1))
    }
}

pub open spec fn opt_texts(v: Seq<Option<String>>) -> Seq<Option<Seq<char>>> {
    v.map_values(|o: Option<String>| opt_string(o))
}

pub fn group_names(texts: &[Option<String>]) -> (r: Vec<String>)
    ensures
        r@.len() == texts@.len(),
        forall|i: int| 0 <= i < r@.len() ==> (#[trigger] r@[i])@ == group_name(opt_texts(texts@), i),
{
    let ghost ts = opt_texts(texts@);
    let mut out: Vec<String> = Vec::new();
    let mut unknown: u64 = 0;
    let mut i: usize = 0;
    while i < texts.len()
        invariant
            i <= texts@.len(),
            ts == opt_texts(texts@),
            out@.len() == i,
            unknown as nat == unnamed_before(ts, i as int),
            unknown <= i,
            forall|j: int| 0 <= j < i ==> (#[trigger] out@[j])@ == group_name(ts, j),
        decreases texts@.len() - i,
    {
        assert(ts[i as int] == opt_string(texts@[i as int]));
        let named = match &texts[i] {
            Some(t) => !t.as_str().is_empty() && !crate::text::eq_ignore_ascii_case_exec(
                chars_of(t.as_str()).as_slice(),
                chars_of("Unknown group").as_slice(),
            ),
            None => false,
        };
        if named {
            let t = match &texts[i] {
                Some(t) => t,
                None => { return out; },
            };
            out.push(string_of(chars_of(t.as_str()).as_slice()));
        } else {
            unknown = unknown + 1;
            let mut v = chars_of("Unknown ");
            let d = crate::text::dec_u64(unknown);
            v.extend_from_slice(d.as_slice());
            out.push(string_of(v.as_slice()));
        }
        i = i + 1;
    }
    out
}

/// A chapter row as the app shows it: keyed by its path, in a language,
/// with the number's text (see `chapter_number_text`), upload date and
/// group the row gives.
pub fn chapter(
    key: String,
    number: Option<String>,
    date_uploaded: Option<i64>,
    group: Option<String>,
    language: &str,
) -> (c: crate::model::Chapter)
    ensures
        c.key == key,
        c.url matches Some(u) && u@ == chapter_url_spec(key@),
        c.number == number,
        c.date_uploaded == date_uploaded,
        opt_strings(c.scanlators) == (match group {
            Some(g) => Some(seq![g@]),
            None => None,
        }),
        c.language matches Some(l) && l@ == language@,
        c.title is None,
{
    let url = chapter_url(key.as_str());
    let mut c = crate::model::Chapter::new(key);
    c.url = Some(url);
    c.number = number;
    c.date_uploaded = date_uploaded;
    c.scanlators = match group {
        Some(g) => {
            let ghost gv = g@;
            let v = vec![g];
            assert(v@.map_values(|s: String| s@) =~= seq![gv]);
            Some(v)
        },
        None => None,
    };
    c.language = Some(string_of(chars_of(language).as_slice()));
    c
}

/// The keys of a list of chapters.
pub open spec fn keys(cs: Seq<crate::model::Chapter>) -> Seq<Seq<char>> {
    cs.map_values(|c: crate::model::Chapter| c.key@)
}

/// The chapters with every chapter whose key came before left out.
pub open spec fn first_by_key(cs: Seq<crate::model::Chapter>) -> Seq<crate::model::Chapter>
    decreases cs.len(),
{
    if cs.len() == 0 {
        cs
    } else {
        let before = first_by_key(cs.drop_last());
        if keys(before).contains(cs.last().key@) {
            before
        } else {
            before.push(cs.last())
        }
    }
}

/// Merging keeps each key once: the merged chapters have distinct keys,
/// each of them a chapter of the input, and every key of the input is
/// among them.
pub proof fn lemma_merge_keys(cs: Seq<crate::model::Chapter>)
    ensures
        forall|i: int, j: int|
            0 <= i < j < first_by_key(cs).len() ==> #[trigger] first_by_key(cs)[i].key@
                != #[trigger] first_by_key(cs)[j].key@,
        forall|i: int| 0 <= i < first_by_key(cs).len() ==> cs.contains(#[trigger] first_by_key(cs)[i]),
        forall|i: int| 0 <= i < cs.len() ==> keys(first_by_key(cs)).contains(#[trigger] cs[i].key@),
    decreases cs.len(),
{
    if cs.len() > 0 {
        let init = cs.drop_last();
        lemma_merge_keys(init);
        let before = first_by_key(init);
        let last = cs.last();
        if !keys(before).contains(last.key@) {
            let after = before.push(last);
            assert(first_by_key(cs) == after);
            assert forall|i: int, j: int| 0 <= i < j < after.len() implies after[i].key@ != after[j].key@ by {
                if j == after.len() - 1 {
                    assert(keys(before)[i] == before[i].key@);
                }
            }
            assert forall|i: int| 0 <= i < after.len() implies cs.contains(after[i]) by {
                if i < before.len() {
                    let k = choose|k: int| 0 <= k < init.len() && init[k] == before[i];
                    assert(cs[k] == init[k]);
                } else {
                    assert(cs[cs.len() - 1] == last);
                }
            }
            assert forall|i: int| 0 <= i < cs.len() implies keys(after).contains(cs[i].key@) by {
                if i < cs.len() - 1 {
                    assert(init[i] == cs[i]);
                    let k = choose|k: int| 0 <= k < keys(before).len() && keys(before)[k] == init[i].key@;
                    assert(keys(after)[k] == keys(before)[k]);
                } else {
                    assert(keys(after)[after.len() - 1] == last.key@);
                }
            }
        } else {
            assert(first_by_key(cs) == before);
            assert forall|i: int| 0 <= i < before.len() implies cs.contains(before[i]) by {
                let k = choose|k: int| 0 <= k < init.len() && init[k] == before[i];
                assert(cs[k] == init[k]);
            }
            assert forall|i: int| 0 <= i < cs.len() implies keys(before).contains(cs[i].key@) by {
                if i < cs.len() - 1 {
                    assert(init[i] == cs[i]);
                }
            }
        }
    }
}

/// The chapters of every language, one language after the other, with
/// each key kept once, where it first comes.
pub fn merge_chapters(chapters: Vec<crate::model::Chapter>) -> (r: Vec<crate::model::Chapter>)
    ensures
        r@ == first_by_key(chapters@),
{
    let mut out: Vec<crate::model::Chapter> = Vec::new();
    let mut rest = chapters;
    let ghost all = rest@;
    let n = rest.len();
    let mut i: usize = 0;
    assert(all.take(0) =~= Seq::<crate::model::Chapter>::empty());
    while rest.len() > 0
        invariant
            n == all.len(),
            i + rest@.len() == all.len(),
            rest@ == all.subrange(i as int, all.len() as int),
            out@ == first_by_key(all.take(i as int)),
        decreases rest@.len(),
    {
        let c = rest.remove(0);
        assert(all.take(i + 1).drop_last() =~= all.take(i as int));
        assert(all.take(i + 1).last() == c);
        let mut seen = false;
        let mut k: usize = 0;
        while k < out.len()
            invariant
                k <= out@.len(),
                seen == exists|j: int| 0 <= j < k && out@[j].key@ == c.key@,
            decreases out@.len() - k,
        {
            if str_eq(out[k].key.as_str(), c.key.as_str()) {
                seen = true;
            }
            k = k + 1;
        }
        proof {
            if seen {
                let j = choose|j: int| 0 <= j < out@.len() && out@[j].key@ == c.key@;
                assert(keys(out@)[j] == c.key@);
            } else {
                if keys(out@).contains(c.key@) {
                    let j = choose|j: int| 0 <= j < keys(out@).len() && keys(out@)[j] == c.key@;
                    assert(out@[j].key@ == c.key@);
                }
            }
        }
        if !seen {
            out.push(c);
        }
        assert(rest@ =~= all.subrange(i + 1, all.len() as int));
        i = i + 1;
    }
    assert(all.take(all.len() as int) =~= all);
    out
}


/// One language's progress through the chapter list, which the site hands
/// out a batch more per call.
pub struct Chain {
    pub language: &'static str,
    pub code: &'static str,
    pub snapshot: String,
    pub chapters: Vec<crate::model::Chapter>,
    pub done: bool,
}

impl Chain {
    /// Takes one reply: the component's next snapshot and the chapters its
    /// fragment lists, or nothing when the call or its fragment failed. The
    /// chain is done once a reply fails or lists no more chapters than it
    /// already has; otherwise it moves on to the reply.
    pub fn advance(&mut self, reply: Option<(String, Vec<crate::model::Chapter>)>)
        ensures
            final(self).language == old(self).language,
            final(self).code == old(self).code,
            match reply {
                Some((snapshot, chapters)) => if chapters@.len() <= old(self).chapters@.len() {
                    final(self).done && final(self).chapters == old(self).chapters
                        && final(self).snapshot == old(self).snapshot
                } else {
                    final(self).done == old(self).done && final(self).chapters == chapters
                        && final(self).snapshot == snapshot
                },
                None => final(self).done && final(self).chapters == old(self).chapters
                    && final(self).snapshot == old(self).snapshot,
            },
    {
        match reply {
            Some((snapshot, chapters)) => {
                if chapters.len() <= self.chapters.len() {
                    self.done = true;
                } else {
                    self.chapters = chapters;
                    self.snapshot = snapshot;
                }
            },
            None => {
                self.done = true;
            },
        }
    }
}

// ---------------------------------------------------------------------------
// Search, listings and deep links
// ---------------------------------------------------------------------------

pub open spec fn browse_url_spec() -> Seq<char> {
    BASE_URL@ + "/browse"@
}

pub fn browse_url() -> (r: String)
    ensures
        r@ == browse_url_spec(),
{
    let mut v = chars_of(BASE_URL);
    push_str(&mut v, "/browse");
    string_of(v.as_slice())
}

pub open spec fn search_url_spec(query: Option<Seq<char>>) -> Seq<char> {
    match query {
        Some(q) if trim(q).len() > 0 => BASE_URL@ + "/search/"@ + crate::url::encode_component(trim(q)),
        _ => browse_url_spec(),
    }
}

/// The page a search starts from: the search page of the trimmed term,
/// or the browse page when there is none.
pub fn search_url(query: Option<&str>) -> (r: String)
    ensures
        r@ == search_url_spec(crate::atsumaru::opt_view(query)),
{
    match query {
        Some(q) => {
            let t = trim_str(q);
            if t.as_str().is_empty() {
                browse_url()
            } else {
                let mut v = chars_of(BASE_URL);
                push_str(&mut v, "/search/");
                let e = crate::url::encode_uri_component(t.as_str());
                push_str(&mut v, e.as_str());
                string_of(v.as_slice())
            }
        },
        None => browse_url(),
    }
}

pub open spec fn listing_sort_spec(id: Seq<char>) -> Option<Seq<char>> {
    if id == "popular"@ {
        Some("view"@)
    } else if id == "latest"@ {
        Some("created_at"@)
    } else {
        None
    }
}

/// The sort a listing browses with; nothing for a listing the source
/// doesn't have.
pub fn listing_sort(id: &str) -> (r: Option<&'static str>)
    ensures
        crate::atsumaru::opt_view(r) == listing_sort_spec(id@),
{
    if str_eq(id, "popular") {
        Some("view")
    } else if str_eq(id, "latest") {
        Some("created_at")
    } else {
        None
    }
}

/// The properties a listing browses with: the type and status the user
/// pins, and the listing's sort.
pub fn listing_updates(platform: String, status: String, sort: &str) -> (r: PostFilterUpdates)
    ensures
        r@ == (PostFilter { platform: platform@, status: status@, sort: sort@, ..default_filter() }),
{
    let mut u = PostFilterUpdates::default();
    u.platform = platform;
    u.status = status;
    u.sort = string_of(chars_of(sort).as_slice());
    u
}

/// Where a link leads: a title, or a reader page, which has to be read to
/// learn the title it belongs to.
pub enum LinkTarget {
    Manga(String),
    ReaderPage(String),
}

pub open spec fn target_view(t: Option<LinkTarget>) -> Option<(bool, Seq<char>)> {
    match t {
        Some(LinkTarget::Manga(k)) => Some((true, k@)),
        Some(LinkTarget::ReaderPage(p)) => Some((false, p@)),
        None => None,
    }
}

pub open spec fn link_target_spec(url: Seq<char>) -> Option<(bool, Seq<char>)> {
    let path = match strip_prefix(url, BASE_URL@) {
        Some(p) => p,
        None => url,
    };
    match manga_slug_spec(path) {
        Some(k) => Some((true, k)),
        None => if starts_with(path, "/read/"@) {
            Some((false, to_path_spec(url)))
        } else {
            None
        },
    }
}

/// A title page `/manga/<slug>` on the site is a link to that title, keyed
/// by its slug.
pub proof fn lemma_title_links(slug: Seq<char>)
    requires
        slug.len() > 0,
        forall|j: int| 0 <= j < slug.len() ==> slug[j] != '/' && slug[j] != '?' && slug[j] != '#',
    ensures
        link_target_spec(BASE_URL@ + "/manga/"@ + slug) == Some((true, slug)),
        manga_slug_spec("/manga/"@ + slug) == Some(slug),
{
    reveal_strlit("/manga/");
    reveal_strlit("//");
    let path = "/manga/"@ + slug;
    let u = BASE_URL@ + path;
    assert(u =~= BASE_URL@ + "/manga/"@ + slug);
    assert(u.subrange(0, BASE_URL@.len() as int) =~= BASE_URL@);
    assert(u.subrange(BASE_URL@.len() as int, u.len() as int) =~= path);
    let dd = "//"@;
    assert(!contains(path, dd)) by {
        if contains(path, dd) {
            let i = choose|i: int| crate::text::occurs_at(path, dd, i);
            assert(path.subrange(i, i + 2)[0] == path[i] && path.subrange(i, i + 2)[1] == path[i + 1]);
            assert(path[i] == '/' && path[i + 1] == '/');
            if i >= 7 {
                assert(path[i] == slug[i - 7]);
            } else if i == 6 {
                assert(path[i + 1] == slug[0]);
            } else {
                assert(path[i] == "/manga/"@[i]);
                assert(path[i + 1] == "/manga/"@[i + 1]);
            }
        }
    }
    assert(url_path(path) == path);
    assert(path.subrange(0, 7) =~= "/manga/"@);
    assert(path.subrange(7, path.len() as int) =~= slug);
    let stops = seq!['/', '?', '#'];
    assert forall|j: int| 0 <= j < slug.len() implies !stops.contains(#[trigger] slug[j]) by {
        if stops.contains(slug[j]) {
            let k = choose|k: int| 0 <= k < stops.len() && stops[k] == slug[j];
            assert(k == 0 || k == 1 || k == 2);
        }
    }
    crate::text::lemma_before_set_free(slug, stops);
}

/// Classifies a link: title pages by their slug, reader pages by their path.
pub fn link_target(url: &str) -> (r: Option<LinkTarget>)
    ensures
        target_view(r) == link_target_spec(url@),
{
    let u = chars_of(url);
    let path = match strip_prefix_exec(u.as_slice(), BASE_URL) {
        Some(p) => p,
        None => u,
    };
    let p = string_of(path.as_slice());
    match manga_slug(p.as_str()) {
        Some(k) => Some(LinkTarget::Manga(k)),
        None => if crate::text::str_starts_with(p.as_str(), "/read/") {
            Some(LinkTarget::ReaderPage(to_path(url)))
        } else {
            None
        },
    }
}

/// A reader page's link, once the page's link to its title (`manga_href`)
/// is read.
pub fn reader_link(page_path: String, manga_href: Option<&str>) -> (r: Option<DeepLinkResult>)
    ensures
        link_view(r) == (match manga_href {
            Some(h) => match manga_slug_spec(h@) {
                Some(k) => Some(DeepLink::Chapter(k, page_path@)),
                None => None,
            },
            None => None,
        }),
{
    match manga_href {
        Some(h) => match manga_slug(h) {
            Some(k) => Some(DeepLinkResult::Chapter { manga_key: k, key: page_path }),
            None => None,
        },
        None => None,
    }
}

// ---------------------------------------------------------------------------
// Page images
// ---------------------------------------------------------------------------

/// What to do with a page api answer.
#[derive(Debug, Clone, PartialEq, Eq)]
pub enum ResolveAction {
    /// The signed image address.
    Image(String),
    /// Give up, with this message.
    Fail(String),
    /// Fetch a fresh reader token and ask again.
    RefreshToken,
}

pub open spec fn resolve_spec(attempt: u32, status: i32, url: Option<Seq<char>>, message: Option<Seq<char>>) -> (bool, Seq<char>) {
    if status == 429 {
        (false, "The site is rate limiting us; try again in a few minutes"@)
    } else {
        match url {
            Some(u) => (true, u),
            None => (false, match message {
                Some(m) => m,
                None => "Page request failed (HTTP "@ + crate::text::dec_int(status as int) + ")"@,
            }),
        }
    }
}

/// The step after a page api answer, on the first or the second try: a
/// rate limit ends it, an image address is the answer, a first failure
/// refreshes the token, a second one ends it with the api's message.
pub fn resolve_step(attempt: u32, status: i32, url: Option<String>, message: Option<String>) -> (r: ResolveAction)
    ensures
        status != 429 && url is None && attempt == 0 ==> r == ResolveAction::RefreshToken,
        !(status != 429 && url is None && attempt == 0) ==> ({
            let (ok, text) = resolve_spec(attempt, status, opt_string(url), opt_string(message));
            if ok {
                r matches ResolveAction::Image(u) && u@ == text
            } else {
                r matches ResolveAction::Fail(m) && m@ == text
            }
        }),
{
    if status == 429 {
        return ResolveAction::Fail(string_of(chars_of("The site is rate limiting us; try again in a few minutes").as_slice()));
    }
    match url {
        Some(u) => ResolveAction::Image(u),
        None => {
            if attempt == 0 {
                ResolveAction::RefreshToken
            } else {
                match message {
                    Some(m) => ResolveAction::Fail(m),
                    None => {
                        let mut v = chars_of("Page request failed (HTTP ");
                        let st = crate::text::dec_i64(status as i64);
                        push_slice(&mut v, st.as_slice());
                        push_str(&mut v, ")");
                        ResolveAction::Fail(string_of(v.as_slice()))
                    },
                }
            }
        },
    }
}

// ---------------------------------------------------------------------------
// Listing entries and chapter rows
// ---------------------------------------------------------------------------

/// The title of a listing entry: its heading, else the link's `title`, else
/// the link's text, whichever is there first; none when that one is empty.
pub open spec fn entry_title(
    heading: Option<Seq<char>>,
    link_title: Option<Seq<char>>,
    link_text: Option<Seq<char>>,
) -> Option<Seq<char>> {
    let first = match heading {
        Some(h) => Some(h),
        None => match link_title {
            Some(t) => Some(t),
            None => link_text,
        },
    };
    match first {
        Some(t) => if t.len() > 0 {
            Some(t)
        } else {
            None
        },
        None => None,
    }
}

/// A listing entry: the slug its manga link names is the key, the title is
/// read as [`entry_title`] says, the cover is picked among its images and the
/// rating read off its overlay texts. None when the link names no manga or
/// there is no title.
pub fn listing_entry(
    href: &str,
    heading: Option<String>,
    link_title: Option<String>,
    link_text: Option<String>,
    images: &[(Option<String>, Option<String>)],
    overlay: &[String],
) -> (r: Option<crate::model::Manga>)
    ensures
        r is Some <==> (manga_slug_spec(href@) is Some && entry_title(
            opt_string(heading),
            opt_string(link_title),
            opt_string(link_text),
        ) is Some),
        r matches Some(m) ==> {
            &&& Some(m.key@) == manga_slug_spec(href@)
            &&& Some(m.title@) == entry_title(
                opt_string(heading),
                opt_string(link_title),
                opt_string(link_text),
            )
            &&& opt_string(m.url) == Some(manga_url_spec(m.key@))
            &&& opt_string(m.cover) == (match first_with_alt(
                images@.map_values(|p: (Option<String>, Option<String>)| image_pair(p)),
            ) {
                Some(u) => Some(u),
                None => first_url(images@.map_values(|p: (Option<String>, Option<String>)| image_pair(p))),
            })
            &&& m.content_rating == overlay_rating(views(overlay@))
            &&& m.status == MangaStatus::Unknown
            &&& m.viewer == Viewer::Unknown
            &&& m.authors is None
            &&& m.artists is None
            &&& m.description is None
            &&& m.tags is None
        },
{
    let key = match manga_slug(href) {
        Some(k) => k,
        None => return None,
    };
    let first = match heading {
        Some(h) => Some(h),
        None => match link_title {
            Some(t) => Some(t),
            None => link_text,
        },
    };
    let title = match first {
        Some(t) => if t.as_str().unicode_len() > 0 {
            t
        } else {
            return None;
        },
        None => return None,
    };
    let url = manga_url(key.as_str());
    let mut m = crate::model::Manga::new(key, title);
    m.url = Some(url);
    m.cover = pick_cover(images);
    m.content_rating = overlay_content_rating(overlay);
    Some(m)
}

/// A relative date as a timestamp, when it reads as one that fits.
pub open spec fn relative_date_i64(text: Seq<char>, now: int) -> Option<i64> {
    match relative_date_spec(text, now) {
        Some(x) => if i64::MIN <= x <= i64::MAX {
            Some(x as i64)
        } else {
            None
        },
        None => None,
    }
}

/// The first of the parts that reads as a relative date.
pub open spec fn first_date(parts: Seq<Seq<char>>, now: int) -> Option<i64>
    decreases parts.len(),
{
    if parts.len() == 0 {
        None
    } else {
        match relative_date_i64(parts[0], now) {
            Some(t) => Some(t),
            None => first_date(parts.drop_first(), now),
        }
    }
}

fn first_date_exec(parts: &Vec<String>, now: i64) -> (r: Option<i64>)
    ensures
        r == first_date(views(parts@), now as int),
{
    let ghost pv = views(parts@);
    let mut i: usize = 0;
    assert(pv.subrange(0, pv.len() as int) =~= pv);
    while i < parts.len()
        invariant
            i <= parts@.len(),
            pv == views(parts@),
            first_date(pv, now as int) == first_date(pv.subrange(i as int, pv.len() as int), now as int),
        decreases parts@.len() - i,
    {
        let ghost rest = pv.subrange(i as int, pv.len() as int);
        assert(rest[0] == parts@[i as int]@);
        let t = parse_relative_date(parts[i].as_str(), now);
        if t.is_some() {
            return t;
        }
        assert(rest.drop_first() =~= pv.subrange(i + 1, pv.len() as int));
        i = i + 1;
    }
    None
}

/// The number and upload date of a chapter row. The number is read off the
/// row's heading when it holds more than white space, else off its number
/// column; the date is the first part of its details line that reads as a
/// relative date.
pub fn row_meta(
    heading: Option<String>,
    number_column: Option<String>,
    details: Option<String>,
    now: i64,
) -> (r: (Option<String>, Option<i64>))
    ensures
        opt_string(r.0) == (match heading {
            Some(h) if trim(h@).len() > 0 => Some(chapter_number_text_spec(h@)),
            _ => match number_column {
                Some(c) => Some(chapter_number_text_spec(c@)),
                None => None,
            },
        }),
        r.1 == (match details {
            Some(d) => first_date(split_details_spec(d@), now as int),
            None => None,
        }),
{
    let text = match heading {
        Some(h) => if trim_exec(chars_of(h.as_str()).as_slice()).len() > 0 {
            Some(h)
        } else {
            number_column
        },
        None => number_column,
    };
    let number = match text {
        Some(t) => Some(chapter_number_text(t.as_str())),
        None => None,
    };
    let date = match details {
        Some(d) => first_date_exec(&split_details(d.as_str()), now),
        None => None,
    };
    (number, date)
}

} // verus!
