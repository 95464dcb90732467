//! MangaRawJP (mangarawjp.tv): titles and chapter numbers, browse and
//! search urls, listing and chapter links, the details page with its tags
//! sorted and without repeats, the reader's script values and image list,
//! the tile order of scrambled pages, and deep links.
use vstd::prelude::*;
use crate::model::{Chapter, ContentRating, DeepLink, DeepLinkResult, FilterValue, Manga, MangaStatus, Viewer, link_view, opt_string, opt_strings};
use crate::text::{
    char_from, char_from_exec, chars_of, contains, is_ascii_digit, join, join_strings, pattern_from,
    pattern_from_exec, pieces, push_slice, push_str, slice_to_vec, starts_with, str_eq,
    str_starts_with, string_of, strip_prefix, strip_prefix_exec, strip_suffix, strip_suffix_exec,
    trim, trim_end_char, trim_end_char_exec, trim_exec, trim_start, trim_start_exec, views,
};
use crate::url::encode_component;
use vstd::string::StringSliceAdditionalSpecFns;

verus! {

pub const BASE_URL: &'static str = "https://mangarawjp.tv";
/// Where page images are served from.
pub const IMG_CDN: &'static str = "https://img-cdn.stackpathcdn.app";
/// The referer image requests carry.
pub const REFERER: &'static str = "https://mangarawjp.tv/";
/// The key the tile order is scrambled with.
pub const XOR_KEY: &'static str = "mangarawjp.tv";

// ---------------------------------------------------------------------------
// Titles and chapter numbers
// ---------------------------------------------------------------------------

/// A title without its "Raw Free" suffix (the first of its spellings that
/// ends it), trimmed; other titles as they are.
pub open spec fn clean_title_spec(t: Seq<char>) -> Seq<char> {
    match strip_suffix(t, " Raw Free"@) {
        Some(c) => trim(c),
        None => match strip_suffix(t, " Raw free"@) {
            Some(c) => trim(c),
            None => match strip_suffix(t, " raw free"@) {
                Some(c) => trim(c),
                None => t,
            },
        },
    }
}

pub fn clean_title(title: String) -> (r: String)
    ensures
        r@ == clean_title_spec(title@),
{
    let v = chars_of(title.as_str());
    match strip_suffix_exec(v.as_slice(), " Raw Free") {
        Some(c) => return string_of(trim_exec(c.as_slice()).as_slice()),
        None => {},
    }
    match strip_suffix_exec(v.as_slice(), " Raw free") {
        Some(c) => return string_of(trim_exec(c.as_slice()).as_slice()),
        None => {},
    }
    match strip_suffix_exec(v.as_slice(), " raw free") {
        Some(c) => return string_of(trim_exec(c.as_slice()).as_slice()),
        None => {},
    }
    title
}

/// A chapter's number in its text `【第N話】`: what stands between the first
/// `第` and the first `話` after it. The app reads it as a number.
pub open spec fn ch_number_spec(s: Seq<char>) -> Option<Seq<char>> {
    match char_from(s, '第', 0) {
        Some(a) => match char_from(s, '話', a + 1) {
            Some(b) => Some(s.subrange(a + 1, b)),
            None => None,
        },
        None => None,
    }
}

/// A chapter text `…第<number>話…` is numbered by what stands between its
/// first `第` and the first `話` after it.
pub proof fn lemma_chapter_numbers(head: Seq<char>, n: Seq<char>, tail: Seq<char>)
    requires
        forall|j: int| 0 <= j < head.len() ==> head[j] != '第',
        forall|j: int| 0 <= j < n.len() ==> n[j] != '話',
    ensures
        ch_number_spec(head + seq!['第'] + n + seq!['話'] + tail) == Some(n),
        ch_number_spec(head) is None,
{
    let s = head + seq!['第'] + n + seq!['話'] + tail;
    let a = head.len() as int;
    let b = a + 1 + n.len();
    assert forall|j: int| 0 <= j < a implies s[j] != '第' by {
        assert(s[j] == head[j]);
    }
    assert(s[a] == '第');
    crate::text::lemma_char_from_first(s, '第', 0, a);
    assert forall|j: int| a + 1 <= j < b implies s[j] != '話' by {
        assert(s[j] == n[j - a - 1]);
    }
    assert(s[b] == '話');
    crate::text::lemma_char_from_first(s, '話', a + 1, b);
    assert(s.subrange(a + 1, b) =~= n);
    crate::text::lemma_char_from_first(head, '第', 0, a);
}

pub fn extract_ch_number(s: &str) -> (r: Option<String>)
    ensures
        opt_string(r) == ch_number_spec(s@),
{
    let v = chars_of(s);
    let a = match char_from_exec(v.as_slice(), '第', 0) {
        Some(a) => a,
        None => return None,
    };
    proof {
        crate::text::lemma_char_from(v@, '第', 0);
    }
    let b = match char_from_exec(v.as_slice(), '話', a + 1) {
        Some(b) => b,
        None => return None,
    };
    proof {
        crate::text::lemma_char_from(v@, '話', a + 1);
    }
    Some(string_of(slice_to_vec(v.as_slice(), a + 1, b).as_slice()))
}

// ---------------------------------------------------------------------------
// Browse and search
// ---------------------------------------------------------------------------

/// The index of the first sort filter; the first option without one.
pub open spec fn sort_index_spec(fs: Seq<FilterValue>) -> i32
    decreases fs.len(),
{
    if fs.len() == 0 {
        0
    } else {
        match fs[0] {
            FilterValue::Sort { index, .. } => index,
            _ => sort_index_spec(fs.drop_first()),
        }
    }
}

pub fn sort_index(filters: &[FilterValue]) -> (r: i32)
    ensures
        r == sort_index_spec(filters@),
{
    let mut i: usize = 0;
    assert(filters@.subrange(0, filters@.len() as int) =~= filters@);
    while i < filters.len()
        invariant
            i <= filters@.len(),
            sort_index_spec(filters@.subrange(i as int, filters@.len() as int)) == sort_index_spec(filters@),
        decreases filters@.len() - i,
    {
        let ghost rest = filters@.subrange(i as int, filters@.len() as int);
        assert(rest[0] == filters@[i as int]);
        assert(rest.drop_first() =~= filters@.subrange(i + 1, filters@.len() as int));
        match &filters[i] {
            FilterValue::Sort { index, .. } => return *index,
            _ => {},
        }
        i = i + 1;
    }
    assert(filters@.subrange(i as int, filters@.len() as int) =~= Seq::<FilterValue>::empty());
    0
}

/// A non-empty query searches; otherwise the ranking or the updates are
/// browsed, each on a path of its own.
pub open spec fn search_url_spec(query: Option<Seq<char>>, page: int, fs: Seq<FilterValue>) -> Seq<char> {
    match query {
        Some(q) if q.len() > 0 => BASE_URL@ + "?s="@ + encode_component(q) + "&page="@ + crate::text::dec_int(page),
        _ => if sort_index_spec(fs) == 1 {
            BASE_URL@ + "/ranking/"@ + crate::text::dec_int(page) + "/"@
        } else {
            BASE_URL@ + "/page/"@ + crate::text::dec_int(page) + "/"@
        },
    }
}

pub fn search_url(query: Option<&str>, page: i32, filters: &[FilterValue]) -> (r: String)
    ensures
        r@ == search_url_spec(crate::atsumaru::opt_view(query), page as int, filters@),
{
    let p = crate::text::i32_to_string(page);
    match query {
        Some(q) => {
            if !q.is_empty() {
                let mut u = chars_of(BASE_URL);
                push_str(&mut u, "?s=");
                let e = crate::url::encode_uri_component(q);
                push_str(&mut u, e.as_str());
                push_str(&mut u, "&page=");
                push_str(&mut u, p.as_str());
                return string_of(u.as_slice());
            }
        },
        None => {},
    }
    let mut u = chars_of(BASE_URL);
    if sort_index(filters) == 1 {
        push_str(&mut u, "/ranking/");
    } else {
        push_str(&mut u, "/page/");
    }
    push_str(&mut u, p.as_str());
    push_str(&mut u, "/");
    string_of(u.as_slice())
}

/// A listing entry: keyed by its link's path on the site, titled by its
/// heading (cleaned), with its lazily loaded cover; none for a link
/// elsewhere or without a heading.
pub fn listing_entry(href: Option<String>, heading: Option<String>, cover: Option<String>) -> (r: Option<Manga>)
    ensures
        (match (href, heading) {
            (Some(h), Some(t)) => strip_prefix(h@, BASE_URL@) is Some,
            _ => false,
        }) ==> (r matches Some(m) && m.key@ == strip_prefix(href->0@, BASE_URL@)->0
            && m.title@ == clean_title_spec(heading->0@) && m.cover == cover && m.url == href
            && m.artists is None && m.authors is None && m.description is None && m.tags is None
            && m.status == MangaStatus::Unknown && m.content_rating == ContentRating::Unknown
            && m.viewer == Viewer::Unknown),
        !(match (href, heading) {
            (Some(h), Some(t)) => strip_prefix(h@, BASE_URL@) is Some,
            _ => false,
        }) ==> r is None,
{
    let h = match href {
        Some(h) => h,
        None => return None,
    };
    let key = match strip_prefix_exec(chars_of(h.as_str()).as_slice(), BASE_URL) {
        Some(k) => k,
        None => return None,
    };
    let t = match heading {
        Some(t) => t,
        None => return None,
    };
    let mut m = Manga::new(string_of(key.as_slice()), clean_title(t));
    m.cover = cover;
    m.url = Some(h);
    Some(m)
}

/// A chapter link: keyed by its path on the site, numbered by its text;
/// none for a link elsewhere or without text.
pub fn chapter_entry(href: Option<String>, text: Option<String>) -> (r: Option<Chapter>)
    ensures
        (match (href, text) {
            (Some(h), Some(t)) => strip_prefix(h@, BASE_URL@) is Some,
            _ => false,
        }) ==> (r matches Some(c) && c.key@ == strip_prefix(href->0@, BASE_URL@)->0
            && opt_string(c.number) == ch_number_spec(text->0@) && c.url == href && c.title is None
            && c.volume is None && c.date_uploaded is None && c.scanlators is None
            && c.language is None),
        !(match (href, text) {
            (Some(h), Some(t)) => strip_prefix(h@, BASE_URL@) is Some,
            _ => false,
        }) ==> r is None,
{
    let h = match href {
        Some(h) => h,
        None => return None,
    };
    let key = match strip_prefix_exec(chars_of(h.as_str()).as_slice(), BASE_URL) {
        Some(k) => k,
        None => return None,
    };
    let t = match text {
        Some(t) => t,
        None => return None,
    };
    let mut c = Chapter::new(string_of(key.as_slice()));
    c.number = extract_ch_number(t.as_str());
    c.url = Some(h);
    Some(c)
}

// ---------------------------------------------------------------------------
// Tags: sorted, without repeats
// ---------------------------------------------------------------------------

/// The order strings sort in: that of their UTF-8 bytes, which is that of
/// their characters' code points.
pub open spec fn lex_lt(a: Seq<char>, b: Seq<char>) -> bool
    decreases a.len(),
{
    if a.len() == 0 {
        b.len() > 0
    } else if b.len() == 0 {
        false
    } else if a[0] != b[0] {
        a[0] < b[0]
    } else {
        lex_lt(a.drop_first(), b.drop_first())
    }
}

/// No text sorts before itself.
pub proof fn lemma_lex_irreflexive(a: Seq<char>)
    ensures
        !lex_lt(a, a),
    decreases a.len(),
{
    if a.len() > 0 {
        lemma_lex_irreflexive(a.drop_first());
    }
}

/// Sorting before is transitive.
pub proof fn lemma_lex_transitive(a: Seq<char>, b: Seq<char>, c: Seq<char>)
    requires
        lex_lt(a, b),
        lex_lt(b, c),
    ensures
        lex_lt(a, c),
    decreases a.len(),
{
    if a.len() > 0 && b.len() > 0 && c.len() > 0 && a[0] == b[0] && b[0] == c[0] {
        lemma_lex_transitive(a.drop_first(), b.drop_first(), c.drop_first());
    }
}

/// Of two different texts one sorts before the other.
pub proof fn lemma_lex_total(a: Seq<char>, b: Seq<char>)
    ensures
        a =~= b || lex_lt(a, b) || lex_lt(b, a),
    decreases a.len(),
{
    if a.len() > 0 && b.len() > 0 {
        if a[0] == b[0] {
            lemma_lex_total(a.drop_first(), b.drop_first());
            if a.drop_first() =~= b.drop_first() {
                assert(a =~= seq![a[0]] + a.drop_first());
                assert(b =~= seq![b[0]] + b.drop_first());
            }
        }
    }
}

pub fn lex_lt_exec(a: &[char], b: &[char]) -> (r: bool)
    ensures
        r == lex_lt(a@, b@),
{
    let mut i: usize = 0;
    assert(a@.subrange(0, a@.len() as int) =~= a@);
    assert(b@.subrange(0, b@.len() as int) =~= b@);
    while i < a.len() && i < b.len() && a[i] == b[i]
        invariant
            i <= a@.len(),
            i <= b@.len(),
            lex_lt(a@.subrange(i as int, a@.len() as int), b@.subrange(i as int, b@.len() as int))
                == lex_lt(a@, b@),
        decreases a@.len() - i,
    {
        let ghost sa = a@.subrange(i as int, a@.len() as int);
        let ghost sb = b@.subrange(i as int, b@.len() as int);
        assert(sa.drop_first() =~= a@.subrange(i + 1, a@.len() as int));
        assert(sb.drop_first() =~= b@.subrange(i + 1, b@.len() as int));
        i = i + 1;
    }
    if i == a.len() {
        i < b.len()
    } else if i == b.len() {
        false
    } else {
        let ghost sa = a@.subrange(i as int, a@.len() as int);
        let ghost sb = b@.subrange(i as int, b@.len() as int);
        assert(sa[0] == a@[i as int] && sb[0] == b@[i as int]);
        a[i] < b[i]
    }
}

/// A list sorted with no value twice.
pub open spec fn strictly_sorted(s: Seq<Seq<char>>) -> bool {
    forall|i: int, j: int| 0 <= i < j < s.len() ==> lex_lt(#[trigger] s[i], #[trigger] s[j])
}

/// Adds a value to a strictly sorted list, in its place, unless it is there.
fn insert_sorted(out: &mut Vec<String>, v: &str)
    requires
        strictly_sorted(views(old(out)@)),
    ensures
        strictly_sorted(views(final(out)@)),
        forall|x: Seq<char>| views(final(out)@).contains(x) <==> (views(old(out)@).contains(x) || x == v@),
{
    let ghost o = views(out@);
    let vv = chars_of(v);
    let mut p: usize = 0;
    while p < out.len() && lex_lt_exec(chars_of(out[p].as_str()).as_slice(), vv.as_slice())
        invariant
            p <= out@.len(),
            o == views(out@),
            vv@ == v@,
            forall|j: int| 0 <= j < p ==> lex_lt(#[trigger] o[j], v@),
        decreases out@.len() - p,
    {
        assert(o[p as int] == out@[p as int]@);
        p = p + 1;
    }
    if p < out.len() && str_eq(out[p].as_str(), v) {
        assert(o[p as int] == out@[p as int]@);
        assert(o.contains(v@));
        return;
    }
    proof {
        if p < out@.len() {
            assert(o[p as int] == out@[p as int]@);
            lemma_lex_total(o[p as int], v@);
            assert(lex_lt(v@, o[p as int]));
        }
    }
    out.insert(p, string_of(vv.as_slice()));
    let ghost n = views(out@);
    assert(n =~= o.subrange(0, p as int).push(v@) + o.subrange(p as int, o.len() as int));
    proof {
        assert forall|i: int, j: int| 0 <= i < j < n.len() implies lex_lt(#[trigger] n[i], #[trigger] n[j]) by {
            if j < p {
                assert(n[i] == o[i] && n[j] == o[j]);
            } else if j == p {
                assert(n[i] == o[i]);
            } else if i == p {
                assert(n[j] == o[j - 1]);
                if j - 1 > p {
                    lemma_lex_transitive(v@, o[p as int], o[j - 1]);
                }
            } else if i < p {
                assert(n[i] == o[i] && n[j] == o[j - 1]);
            } else {
                assert(n[i] == o[i - 1] && n[j] == o[j - 1]);
            }
        }
        assert forall|x: Seq<char>| n.contains(x) <==> (o.contains(x) || x == v@) by {
            if n.contains(x) {
                let k = choose|k: int| 0 <= k < n.len() && n[k] == x;
                if k < p {
                    assert(o[k] == x);
                } else if k > p {
                    assert(o[k - 1] == x);
                }
            }
            if o.contains(x) {
                let k = choose|k: int| 0 <= k < o.len() && o[k] == x;
                if k < p {
                    assert(n[k] == x);
                } else {
                    assert(n[k + 1] == x);
                }
            }
            if x == v@ {
                assert(n[p as int] == x);
            }
        }
    }
}

/// The tags sorted, each once.
pub fn sorted_unique(tags: &[String]) -> (r: Vec<String>)
    ensures
        strictly_sorted(views(r@)),
        forall|x: Seq<char>| views(r@).contains(x) <==> views(tags@).contains(x),
{
    let mut out: Vec<String> = Vec::new();
    let ghost tv = views(tags@);
    let mut i: usize = 0;
    while i < tags.len()
        invariant
            i <= tags@.len(),
            tv == views(tags@),
            strictly_sorted(views(out@)),
            forall|x: Seq<char>| views(out@).contains(x) <==> tv.subrange(0, i as int).contains(x),
        decreases tags@.len() - i,
    {
        insert_sorted(&mut out, tags[i].as_str());
        proof {
            let s = tv.subrange(0, i + 1);
            assert(s =~= tv.subrange(0, i as int).push(tv[i as int]));
            assert(tv[i as int] == tags@[i as int]@);
            assert forall|x: Seq<char>| s.contains(x) <==> (tv.subrange(0, i as int).contains(x) || x == tv[i as int]) by {
                if s.contains(x) {
                    let k = choose|k: int| 0 <= k < s.len() && s[k] == x;
                    if k < i {
                        assert(tv.subrange(0, i as int)[k] == x);
                    }
                }
                if tv.subrange(0, i as int).contains(x) {
                    let k = choose|k: int| 0 <= k < i && tv.subrange(0, i as int)[k] == x;
                    assert(s[k] == x);
                }
                if x == tv[i as int] {
                    assert(s[i as int] == x);
                }
            }
        }
        i = i + 1;
    }
    assert(tv.subrange(0, tags@.len() as int) =~= tv);
    out
}

/// Two lists sorted without repeats that hold the same values are the same
/// list: what `sorted_unique` states of its result pins it down.
pub proof fn lemma_sorted_unique_is_unique(a: Seq<Seq<char>>, b: Seq<Seq<char>>)
    requires
        strictly_sorted(a),
        strictly_sorted(b),
        forall|x: Seq<char>| a.contains(x) <==> b.contains(x),
    ensures
        a == b,
    decreases a.len() + b.len(),
{
    if a.len() == 0 || b.len() == 0 {
        if a.len() > 0 {
            assert(a.contains(a[0]));
        }
        if b.len() > 0 {
            assert(b.contains(b[0]));
        }
        assert(a =~= b);
    } else {
        // The first values are the least, so they agree.
        assert(a.contains(a[0]));
        assert(b.contains(b[0]));
        let ka = choose|k: int| 0 <= k < b.len() && b[k] == a[0];
        let kb = choose|k: int| 0 <= k < a.len() && a[k] == b[0];
        if ka > 0 {
            assert(lex_lt(b[0], b[ka]));
            if kb > 0 {
                assert(lex_lt(a[0], a[kb]));
                lemma_lex_transitive(a[0], b[0], a[0]);
                lemma_lex_irreflexive(a[0]);
            } else {
                lemma_lex_irreflexive(a[0]);
            }
        }
        assert(a[0] == b[0]);
        let a2 = a.drop_first();
        let b2 = b.drop_first();
        assert forall|i: int, j: int| 0 <= i < j < a2.len() implies lex_lt(#[trigger] a2[i], #[trigger] a2[j]) by {
            assert(a2[i] == a[i + 1] && a2[j] == a[j + 1]);
        }
        assert forall|i: int, j: int| 0 <= i < j < b2.len() implies lex_lt(#[trigger] b2[i], #[trigger] b2[j]) by {
            assert(b2[i] == b[i + 1] && b2[j] == b[j + 1]);
        }
        assert forall|x: Seq<char>| a2.contains(x) <==> b2.contains(x) by {
            if a2.contains(x) {
                let k = choose|k: int| 0 <= k < a2.len() && a2[k] == x;
                assert(a[k + 1] == x);
                assert(lex_lt(a[0], x));
                assert(b.contains(x));
                let m = choose|m: int| 0 <= m < b.len() && b[m] == x;
                if m == 0 {
                    lemma_lex_irreflexive(x);
                }
                assert(b2[m - 1] == x);
            }
            if b2.contains(x) {
                let k = choose|k: int| 0 <= k < b2.len() && b2[k] == x;
                assert(b[k + 1] == x);
                assert(lex_lt(b[0], x));
                assert(a.contains(x));
                let m = choose|m: int| 0 <= m < a.len() && a[m] == x;
                if m == 0 {
                    lemma_lex_irreflexive(x);
                }
                assert(a2[m - 1] == x);
            }
        }
        lemma_sorted_unique_is_unique(a2, b2);
        assert(a =~= seq![a[0]] + a2);
        assert(b =~= seq![b[0]] + b2);
    }
}

// ---------------------------------------------------------------------------
// Details
// ---------------------------------------------------------------------------

/// What a title's page shows: its heading, its cover's address, the own
/// texts of its description paragraphs, and its category and tag link
/// texts (none when the page has no such list).
pub struct RawJpDetails {
    pub heading: Option<String>,
    pub cover: Option<String>,
    pub paragraphs: Vec<String>,
    pub tags: Option<Vec<String>>,
}

pub open spec fn is_adult_tag(t: Seq<char>) -> bool {
    t == "オトナ"@ || contains(t, "エロ"@)
}

/// Adult tags make a title explicit, an `Ecchi` one suggestive.
pub open spec fn rating_spec(tags: Seq<Seq<char>>) -> ContentRating {
    if exists|i: int| 0 <= i < tags.len() && is_adult_tag(#[trigger] tags[i]) {
        ContentRating::NSFW
    } else if exists|i: int| 0 <= i < tags.len() && #[trigger] tags[i] == "Ecchi"@ {
        ContentRating::Suggestive
    } else {
        ContentRating::Safe
    }
}

/// A tag "オトナ" makes a title NSFW wherever it stands; "Ecchi" makes it
/// at least suggestive.
pub proof fn lemma_rating_words(before: Seq<Seq<char>>, t: Seq<char>, after: Seq<Seq<char>>, all: Seq<Seq<char>>)
    requires
        all == before + seq![t] + after,
    ensures
        t == "オトナ"@ ==> rating_spec(all) == ContentRating::NSFW,
        t == "Ecchi"@ ==> rating_spec(all) != ContentRating::Safe,
{
    assert(all[before.len() as int] == t);
}

pub fn tags_rating(tags: &[String]) -> (r: ContentRating)
    ensures
        r == rating_spec(views(tags@)),
{
    let ghost ts = views(tags@);
    let mut adult = false;
    let mut ecchi = false;
    let mut i: usize = 0;
    while i < tags.len()
        invariant
            i <= tags@.len(),
            ts == views(tags@),
            adult == exists|j: int| 0 <= j < i && is_adult_tag(#[trigger] ts[j]),
            ecchi == exists|j: int| 0 <= j < i && #[trigger] ts[j] == "Ecchi"@,
        decreases tags@.len() - i,
    {
        assert(ts[i as int] == tags@[i as int]@);
        let t = tags[i].as_str();
        if str_eq(t, "オトナ") || crate::text::str_contains(t, "エロ") {
            adult = true;
        }
        if str_eq(t, "Ecchi") {
            ecchi = true;
        }
        i = i + 1;
    }
    if adult {
        ContentRating::NSFW
    } else if ecchi {
        ContentRating::Suggestive
    } else {
        ContentRating::Safe
    }
}

/// Fills in a manga from its page: the heading (else the old title)
/// cleaned, the cover, the paragraphs on lines of their own, the page's
/// address, the tags sorted each once, the rating they imply, right to
/// left.
pub fn apply_details(manga: &mut Manga, d: RawJpDetails)
    ensures
        final(manga).title@ == clean_title_spec(match d.heading {
            Some(h) => h@,
            None => old(manga).title@,
        }),
        final(manga).cover == d.cover,
        opt_string(final(manga).description) == (if d.paragraphs@.len() > 0 {
            Some(join(views(d.paragraphs@), "\n "@))
        } else {
            None
        }),
        opt_string(final(manga).url) == Some(BASE_URL@ + old(manga).key@),
        d.tags is None ==> final(manga).tags is None && final(manga).content_rating == ContentRating::Safe,
        d.tags matches Some(ts) ==> (final(manga).tags matches Some(out) && strictly_sorted(views(out@))
            && (forall|x: Seq<char>| views(out@).contains(x) <==> views(ts@).contains(x))
            && final(manga).content_rating == rating_spec(views(ts@))),
        final(manga).viewer == Viewer::RightToLeft,
        final(manga).key == old(manga).key,
        final(manga).authors == old(manga).authors,
        final(manga).artists == old(manga).artists,
        final(manga).status == old(manga).status,
{
    let RawJpDetails { heading, cover, paragraphs, tags } = d;
    let t = match heading {
        Some(h) => h,
        None => string_of(chars_of(manga.title.as_str()).as_slice()),
    };
    manga.title = clean_title(t);
    manga.cover = cover;
    manga.description = if paragraphs.len() > 0 {
        Some(join_strings(paragraphs.as_slice(), "\n "))
    } else {
        None
    };
    let mut url = chars_of(BASE_URL);
    push_str(&mut url, manga.key.as_str());
    manga.url = Some(string_of(url.as_slice()));
    match tags {
        Some(ts) => {
            let sorted = sorted_unique(ts.as_slice());
            let rating = tags_rating(sorted.as_slice());
            proof {
                let sv = views(sorted@);
                let tv = views(ts@);
                if exists|i: int| 0 <= i < tv.len() && is_adult_tag(#[trigger] tv[i]) {
                    let i = choose|i: int| 0 <= i < tv.len() && is_adult_tag(#[trigger] tv[i]);
                    assert(tv.contains(tv[i]));
                    let k = choose|k: int| 0 <= k < sv.len() && sv[k] == tv[i];
                    assert(is_adult_tag(sv[k]));
                }
                if exists|i: int| 0 <= i < sv.len() && is_adult_tag(#[trigger] sv[i]) {
                    let i = choose|i: int| 0 <= i < sv.len() && is_adult_tag(#[trigger] sv[i]);
                    assert(sv.contains(sv[i]));
                    let k = choose|k: int| 0 <= k < tv.len() && tv[k] == sv[i];
                    assert(is_adult_tag(tv[k]));
                }
                if exists|i: int| 0 <= i < tv.len() && #[trigger] tv[i] == "Ecchi"@ {
                    let i = choose|i: int| 0 <= i < tv.len() && #[trigger] tv[i] == "Ecchi"@;
                    assert(tv.contains(tv[i]));
                    let k = choose|k: int| 0 <= k < sv.len() && sv[k] == tv[i];
                    assert(sv[k] == "Ecchi"@);
                }
                if exists|i: int| 0 <= i < sv.len() && #[trigger] sv[i] == "Ecchi"@ {
                    let i = choose|i: int| 0 <= i < sv.len() && #[trigger] sv[i] == "Ecchi"@;
                    assert(sv.contains(sv[i]));
                    let k = choose|k: int| 0 <= k < tv.len() && tv[k] == sv[i];
                    assert(tv[k] == "Ecchi"@);
                }
                assert(rating_spec(sv) == rating_spec(tv));
            }
            manga.content_rating = rating;
            manga.tags = Some(sorted);
        },
        None => {
            manga.tags = None;
            manga.content_rating = ContentRating::Safe;
        },
    }
    manga.viewer = Viewer::RightToLeft;
}

// ---------------------------------------------------------------------------
// Reader pages
// ---------------------------------------------------------------------------

/// Length of the leading run of digits (and dots, when they count).
pub open spec fn number_len(t: Seq<char>, dots: bool) -> nat
    decreases t.len(),
{
    if t.len() > 0 && (is_ascii_digit(t[0]) || (dots && t[0] == '.')) {
        1 + number_len(t.drop_first(), dots)
    } else {
        0
    }
}

proof fn lemma_number_len(t: Seq<char>, dots: bool, k: int)
    requires
        0 <= k <= t.len(),
        forall|j: int| 0 <= j < k ==> is_ascii_digit(#[trigger] t[j]) || (dots && t[j] == '.'),
        k == t.len() || !(is_ascii_digit(t[k]) || (dots && t[k] == '.')),
    ensures
        number_len(t, dots) == k,
    decreases k,
{
    if k > 0 {
        assert forall|j: int| 0 <= j < k - 1 implies is_ascii_digit(#[trigger] t.drop_first()[j]) || (dots && t.drop_first()[j] == '.') by {
            assert(t.drop_first()[j] == t[j + 1]);
        }
        if k - 1 < t.drop_first().len() {
            assert(t.drop_first()[k - 1] == t[k]);
        }
        lemma_number_len(t.drop_first(), dots, k - 1);
    }
}

/// The number a script assigns after a marker: past the marker's first
/// occurrence and the next `=`, white space skipped, the leading digits
/// (and dots, when they count); none when there are none.
pub open spec fn script_value(data: Seq<char>, marker: Seq<char>, dots: bool) -> Option<Seq<char>> {
    match pattern_from(data, marker, 0) {
        Some(pos) => {
            let after = data.subrange(pos + marker.len(), data.len() as int);
            match char_from(after, '=', 0) {
                Some(e) => {
                    let ae = trim_start(after.subrange(e + 1, after.len() as int));
                    let n = ae.subrange(0, number_len(ae, dots) as int);
                    if n.len() > 0 {
                        Some(n)
                    } else {
                        None
                    }
                },
                None => None,
            }
        },
        None => None,
    }
}

fn script_value_exec(data: &[char], marker: &str, dots: bool) -> (r: Option<String>)
    ensures
        opt_string(r) == script_value(data@, marker@, dots),
{
    let m = chars_of(marker);
    let pos = match pattern_from_exec(data, m.as_slice(), 0) {
        Some(p) => p,
        None => return None,
    };
    proof {
        crate::text::lemma_pattern_from(data@, m@, 0);
    }
    let dl = data.len();
    let after = slice_to_vec(data, pos + m.len(), dl);
    let e = match char_from_exec(after.as_slice(), '=', 0) {
        Some(e) => e,
        None => return None,
    };
    proof {
        crate::text::lemma_char_from(after@, '=', 0);
    }
    let al = after.len();
    let ae = trim_start_exec(slice_to_vec(after.as_slice(), e + 1, al).as_slice());
    let mut k: usize = 0;
    while k < ae.len() && (('0' <= ae[k] && ae[k] <= '9') || (dots && ae[k] == '.'))
        invariant
            k <= ae@.len(),
            forall|j: int| 0 <= j < k ==> is_ascii_digit(#[trigger] ae@[j]) || (dots && ae@[j] == '.'),
        decreases ae@.len() - k,
    {
        k = k + 1;
    }
    proof {
        lemma_number_len(ae@, dots, k as int);
    }
    if k > 0 {
        Some(string_of(slice_to_vec(ae.as_slice(), 0, k).as_slice()))
    } else {
        None
    }
}

/// The title and chapter ids the reader's scripts assign, scanning them in
/// order, a later assignment replacing an earlier one, until both are
/// known.
pub open spec fn scan_ids(
    scripts: Seq<Seq<char>>,
    id: Option<Seq<char>>,
    num: Option<Seq<char>>,
) -> (Option<Seq<char>>, Option<Seq<char>>)
    decreases scripts.len(),
{
    if scripts.len() == 0 {
        (id, num)
    } else {
        let id2 = match script_value(scripts[0], "window.MangaId"@, false) {
            Some(v) => Some(v),
            None => id,
        };
        let num2 = match script_value(scripts[0], "window.CNumber"@, true) {
            Some(v) => Some(v),
            None => num,
        };
        if id2 is Some && num2 is Some {
            (id2, num2)
        } else {
            scan_ids(scripts.drop_first(), id2, num2)
        }
    }
}

/// Why the reader's images can't be asked for.
#[derive(Debug, Clone, Copy, PartialEq, Eq)]
pub enum ReaderError {
    MangaIdNotFound,
    ChapterNumberNotFound,
}

/// The body of the image list request, from the reader's scripts:
/// `{"m":<title id>,"n":<chapter id>}`; an error when either id is missing.
pub fn image_request_body(scripts: &[String]) -> (r: Result<String, ReaderError>)
    ensures
        ({
            let (id, num) = scan_ids(views(scripts@), None, None);
            match (id, num) {
                (Some(m), Some(n)) => r matches Ok(b) && b@ == "{\"m\":"@ + m + ",\"n\":"@ + n + "}"@,
                (None, _) => r == Err::<String, ReaderError>(ReaderError::MangaIdNotFound),
                (Some(_), None) => r == Err::<String, ReaderError>(ReaderError::ChapterNumberNotFound),
            }
        }),
{
    let ghost sv = views(scripts@);
    let mut id: Option<String> = None;
    let mut num: Option<String> = None;
    let mut i: usize = 0;
    assert(sv.subrange(0, sv.len() as int) =~= sv);
    while i < scripts.len() && !(id.is_some() && num.is_some())
        invariant
            i <= scripts@.len(),
            sv == views(scripts@),
            !(id is Some && num is Some) ==> scan_ids(sv.subrange(i as int, sv.len() as int), opt_string(id), opt_string(num)) == scan_ids(sv, None, None),
            id is Some && num is Some ==> scan_ids(sv, None, None) == (opt_string(id), opt_string(num)),
        decreases scripts@.len() - i,
    {
        let ghost rest = sv.subrange(i as int, sv.len() as int);
        assert(rest[0] == scripts@[i as int]@);
        assert(rest.drop_first() =~= sv.subrange(i + 1, sv.len() as int));
        let d = chars_of(scripts[i].as_str());
        match script_value_exec(d.as_slice(), "window.MangaId", false) {
            Some(v) => {
                id = Some(v);
            },
            None => {},
        }
        match script_value_exec(d.as_slice(), "window.CNumber", true) {
            Some(v) => {
                num = Some(v);
            },
            None => {},
        }
        i = i + 1;
    }
    proof {
        if !(id is Some && num is Some) {
            assert(sv.subrange(i as int, sv.len() as int) =~= Seq::<Seq<char>>::empty());
        }
    }
    let m = match id {
        Some(m) => m,
        None => return Err(ReaderError::MangaIdNotFound),
    };
    let n = match num {
        Some(n) => n,
        None => return Err(ReaderError::ChapterNumberNotFound),
    };
    let mut b = chars_of("{\"m\":");
    push_str(&mut b, m.as_str());
    push_str(&mut b, ",\"n\":");
    push_str(&mut b, n.as_str());
    push_str(&mut b, "}");
    Ok(string_of(b.as_slice()))
}

/// The pages' image addresses, from the paths the image list gives.
pub fn page_urls(paths: &[String]) -> (r: Vec<String>)
    ensures
        views(r@) == views(paths@).map_values(|p: Seq<char>| IMG_CDN@ + p),
{
    let ghost pv = views(paths@);
    let mut out: Vec<String> = Vec::new();
    let mut k: usize = 0;
    while k < paths.len()
        invariant
            k <= paths@.len(),
            pv == views(paths@),
            views(out@) == pv.subrange(0, k as int).map_values(|p: Seq<char>| IMG_CDN@ + p),
        decreases paths@.len() - k,
    {
        let mut u = chars_of(IMG_CDN);
        push_str(&mut u, paths[k].as_str());
        out.push(string_of(u.as_slice()));
        assert(pv.subrange(0, k + 1).map_values(|p: Seq<char>| IMG_CDN@ + p) =~= pv.subrange(0, k as int).map_values(|p: Seq<char>| IMG_CDN@ + p).push(IMG_CDN@ + pv[k as int]));
        assert(views(out@) =~= pv.subrange(0, k + 1).map_values(|p: Seq<char>| IMG_CDN@ + p));
        k = k + 1;
    }
    assert(pv.subrange(0, paths@.len() as int) =~= pv);
    out
}

// ---------------------------------------------------------------------------
// Scrambled pages
// ---------------------------------------------------------------------------

/// The value of a hex digit's byte.
pub open spec fn hex_val(b: u8) -> Option<u8> {
    if 48 <= b <= 57 {
        Some((b - 48) as u8)
    } else if 97 <= b <= 102 {
        Some((b - 87) as u8)
    } else if 65 <= b <= 70 {
        Some((b - 55) as u8)
    } else {
        None
    }
}

/// A chunk of one or two bytes read as a hex number, as
/// `u8::from_str_radix(_, 16)` reads it: hex digits, after an optional `+`.
pub open spec fn chunk_value(c: Seq<u8>) -> Option<u8> {
    if c.len() == 1 {
        hex_val(c[0])
    } else if c.len() == 2 {
        if c[0] == 43 {
            hex_val(c[1])
        } else {
            match (hex_val(c[0]), hex_val(c[1])) {
                (Some(a), Some(b)) => Some((a * 16 + b) as u8),
                _ => None,
            }
        }
    } else {
        None
    }
}

/// The bytes a hex text stands for, two digits each (the last chunk may be
/// one); none when a chunk doesn't read.
pub open spec fn hex_chunks(b: Seq<u8>) -> Option<Seq<u8>>
    decreases b.len(),
{
    if b.len() == 0 {
        Some(Seq::empty())
    } else {
        let n: int = if b.len() >= 2 { 2 } else { 1 };
        match chunk_value(b.subrange(0, n)) {
            Some(v) => match hex_chunks(b.subrange(n, b.len() as int)) {
                Some(rest) => Some(seq![v] + rest),
                None => None,
            },
            None => None,
        }
    }
}

/// A byte xored with each of the key's bytes in turn.
pub open spec fn xor_fold(b: u8, ks: Seq<u8>) -> u8
    decreases ks.len(),
{
    if ks.len() == 0 {
        b
    } else {
        xor_fold(b ^ ks[0], ks.drop_first())
    }
}

/// `i32::from_str`.
pub open spec fn parse_i32(s: Seq<char>) -> Option<i32> {
    match crate::text::parse_i64(s) {
        Some(v) => if i32::MIN <= v <= i32::MAX {
            Some(v as i32)
        } else {
            None
        },
        None => None,
    }
}

/// The pieces that read as numbers, in order.
pub open spec fn parsed_parts(ps: Seq<Seq<char>>) -> Seq<i32>
    decreases ps.len(),
{
    if ps.len() == 0 {
        Seq::empty()
    } else {
        match parse_i32(ps.last()) {
            Some(v) => parsed_parts(ps.drop_last()).push(v),
            None => parsed_parts(ps.drop_last()),
        }
    }
}

/// Why a tile order can't be read.
#[derive(Debug, Clone, Copy, PartialEq, Eq)]
pub enum TileError {
    /// The order key isn't hex.
    InvalidKey,
    /// The unscrambled key isn't UTF-8.
    InvalidDecoded,
}

fn hex_val_exec(b: u8) -> (r: Option<u8>)
    ensures
        r == hex_val(b),
{
    if 48 <= b && b <= 57 {
        Some(b - 48)
    } else if 97 <= b && b <= 102 {
        Some(b - 87)
    } else if 65 <= b && b <= 70 {
        Some(b - 55)
    } else {
        None
    }
}

fn hex_chunks_exec(b: &[u8]) -> (r: Option<Vec<u8>>)
    ensures
        match r {
            Some(v) => hex_chunks(b@) == Some(v@),
            None => hex_chunks(b@) is None,
        },
{
    let mut out: Vec<u8> = Vec::new();
    let mut i: usize = 0;
    assert(b@.subrange(0, b@.len() as int) =~= b@);
    while i < b.len()
        invariant
            i <= b@.len(),
            hex_chunks(b@) == match hex_chunks(b@.subrange(i as int, b@.len() as int)) {
                Some(rest) => Some(out@ + rest),
                None => None::<Seq<u8>>,
            },
        decreases b@.len() - i,
    {
        let ghost t = b@.subrange(i as int, b@.len() as int);
        let n: usize = if b.len() - i >= 2 { 2 } else { 1 };
        assert(t.subrange(0, n as int) =~= b@.subrange(i as int, i + n));
        assert(t.subrange(n as int, t.len() as int) =~= b@.subrange(i + n, b@.len() as int));
        let v = if n == 1 {
            hex_val_exec(b[i])
        } else if b[i] == 43 {
            hex_val_exec(b[i + 1])
        } else {
            match (hex_val_exec(b[i]), hex_val_exec(b[i + 1])) {
                (Some(x), Some(y)) => Some(x * 16 + y),
                _ => None,
            }
        };
        let v = match v {
            Some(v) => v,
            None => return None,
        };
        proof {
            let ghost before = out@;
            match hex_chunks(t.subrange(n as int, t.len() as int)) {
                Some(rest) => {
                    assert(before + (seq![v] + rest) =~= before.push(v) + rest);
                },
                None => {},
            }
        }
        out.push(v);
        i = i + n;
    }
    assert(b@.subrange(b@.len() as int, b@.len() as int) =~= Seq::<u8>::empty());
    assert(out@ + Seq::<u8>::empty() =~= out@);
    Some(out)
}

fn parse_i32_exec(s: &[char]) -> (r: Option<i32>)
    ensures
        r == parse_i32(s@),
{
    match crate::text::parse_i64_exec(s) {
        Some(v) => if -2147483648 <= v && v <= 2147483647 {
            Some(v as i32)
        } else {
            None
        },
        None => None,
    }
}

/// The tile order a page's key holds: the key read as hex, each byte
/// xored with every byte of `mangarawjp.tv`, read as UTF-8, split at
/// commas, the pieces that read as numbers.
pub fn tile_order(key: &str) -> (r: Result<Vec<i32>, TileError>)
    ensures
        match hex_chunks(key.spec_bytes()) {
            None => r == Err::<Vec<i32>, TileError>(TileError::InvalidKey),
            Some(order) => {
                let decoded = order.map_values(|b: u8| xor_fold(b, XOR_KEY.spec_bytes()));
                if vstd::utf8::valid_utf8(decoded) {
                    r matches Ok(parts) && parts@ == parsed_parts(
                        crate::text::split(vstd::utf8::decode_utf8(decoded), ','),
                    )
                } else {
                    r == Err::<Vec<i32>, TileError>(TileError::InvalidDecoded)
                }
            },
        },
{
    let order = match hex_chunks_exec(key.as_bytes()) {
        Some(o) => o,
        None => return Err(TileError::InvalidKey),
    };
    let ks = XOR_KEY.as_bytes();
    let ghost kv = ks@;
    let mut decoded: Vec<u8> = Vec::new();
    let mut i: usize = 0;
    while i < order.len()
        invariant
            i <= order@.len(),
            kv == ks@,
            kv == XOR_KEY.spec_bytes(),
            decoded@ == order@.subrange(0, i as int).map_values(|b: u8| xor_fold(b, kv)),
        decreases order@.len() - i,
    {
        let mut byte = order[i];
        let mut k: usize = 0;
        assert(kv.subrange(0, kv.len() as int) =~= kv);
        while k < ks.len()
            invariant
                k <= kv.len(),
                kv == ks@,
                xor_fold(byte, kv.subrange(k as int, kv.len() as int)) == xor_fold(order@[i as int], kv),
            decreases kv.len() - k,
        {
            let ghost rest = kv.subrange(k as int, kv.len() as int);
            assert(rest.drop_first() =~= kv.subrange(k + 1, kv.len() as int));
            byte = byte ^ ks[k];
            k = k + 1;
        }
        assert(kv.subrange(k as int, kv.len() as int) =~= Seq::<u8>::empty());
        decoded.push(byte);
        assert(order@.subrange(0, i + 1).map_values(|b: u8| xor_fold(b, kv)) =~= order@.subrange(0, i as int).map_values(|b: u8| xor_fold(b, kv)).push(xor_fold(order@[i as int], kv)));
        i = i + 1;
    }
    assert(order@.subrange(0, order@.len() as int) =~= order@);
    let text = match crate::text::utf8_string(decoded) {
        Some(t) => t,
        None => return Err(TileError::InvalidDecoded),
    };
    let pieces = crate::text::split_exec(chars_of(text.as_str()).as_slice(), ',');
    let ghost pv = pieces@.map_values(|v: Vec<char>| v@);
    let mut parts: Vec<i32> = Vec::new();
    let mut j: usize = 0;
    assert(pv.take(0) =~= Seq::<Seq<char>>::empty());
    while j < pieces.len()
        invariant
            j <= pieces@.len(),
            pv == pieces@.map_values(|v: Vec<char>| v@),
            parts@ == parsed_parts(pv.take(j as int)),
        decreases pieces@.len() - j,
    {
        assert(pv.take(j + 1).drop_last() =~= pv.take(j as int));
        assert(pv.take(j + 1).last() == pieces@[j as int]@);
        match parse_i32_exec(pieces[j].as_slice()) {
            Some(v) => parts.push(v),
            None => {},
        }
        j = j + 1;
    }
    assert(pv.take(pieces@.len() as int) =~= pv);
    Ok(parts)
}

/// The side of the tile grid for a number of tiles: the integer square
/// root.
pub fn grid_cols(n: usize) -> (r: usize)
    ensures
        r * r <= n < (r + 1) * (r + 1),
{
    let mut c: usize = 0;
    while c + 1 <= n / (c + 1)
        invariant
            c * c <= n,
            c < usize::MAX,
        decreases n - c,
    {
        let ghost ci = c as int;
        let ghost ni = n as int;
        assert((ci + 1) * (ci + 1) <= ni) by (nonlinear_arith)
            requires
                ci + 1 <= ni / (ci + 1),
                ci + 1 > 0,
        ;
        assert(ci + 1 <= ni && ci + 1 < usize::MAX) by (nonlinear_arith)
            requires
                (ci + 1) * (ci + 1) <= ni,
                ni <= usize::MAX,
                ci >= 0,
        ;
        c = c + 1;
    }
    let ghost ci = c as int;
    let ghost ni = n as int;
    assert(ni < (ci + 1) * (ci + 1)) by (nonlinear_arith)
        requires
            ci + 1 > ni / (ci + 1),
            ci + 1 > 0,
            ni >= 0,
    ;
    c
}

// ---------------------------------------------------------------------------
// Deep links
// ---------------------------------------------------------------------------

/// Title pages lead to their title; pages a level deeper to a chapter of
/// it.
pub open spec fn deep_link_spec(url: Seq<char>) -> Option<DeepLink> {
    match strip_prefix(url, BASE_URL@) {
        Some(key) => if starts_with(key, "/manga-raw/"@) {
            let segs = pieces(trim_end_char(key, '/'), '/');
            if segs.len() > 2 {
                Some(DeepLink::Chapter("/"@ + segs[0] + "/"@ + segs[1] + "/"@, key))
            } else {
                Some(DeepLink::Manga(key))
            }
        } else {
            None
        },
        None => None,
    }
}

/// Title pages, `/manga-raw/<slug>`, lead to the title, keyed by their
/// path; pages one level further down, `/manga-raw/<slug>/<chapter>`, lead
/// to that chapter of the title `/manga-raw/<slug>/`. Slug and chapter are
/// non-empty and free of `/`.
pub proof fn lemma_deep_links(slug: Seq<char>, chapter: Seq<char>)
    requires
        slug.len() > 0,
        forall|j: int| 0 <= j < slug.len() ==> slug[j] != '/',
        chapter.len() > 0,
        forall|j: int| 0 <= j < chapter.len() ==> chapter[j] != '/',
    ensures
        deep_link_spec(BASE_URL@ + "/manga-raw/"@ + slug) == Some(DeepLink::Manga("/manga-raw/"@ + slug)),
        deep_link_spec(BASE_URL@ + "/manga-raw/"@ + slug + "/"@ + chapter) == Some(
            DeepLink::Chapter("/manga-raw/"@ + slug + "/"@, "/manga-raw/"@ + slug + "/"@ + chapter),
        ),
{
    reveal_strlit("/manga-raw/");
    reveal_strlit("/");
    let mr = seq!['m', 'a', 'n', 'g', 'a', '-', 'r', 'a', 'w'];
    assert("/manga-raw/"@ =~= seq!['/'] + mr + seq!['/']);
    // a title page
    let k1 = "/manga-raw/"@ + slug;
    let u1 = BASE_URL@ + k1;
    assert(u1 =~= BASE_URL@ + "/manga-raw/"@ + slug);
    assert(u1.subrange(0, BASE_URL@.len() as int) =~= BASE_URL@);
    assert(u1.subrange(BASE_URL@.len() as int, u1.len() as int) =~= k1);
    assert(k1.subrange(0, 11) =~= "/manga-raw/"@);
    assert(k1.last() == slug.last());
    assert(trim_end_char(k1, '/') == k1);
    assert(k1 =~= seq!['/'] + (mr + (seq!['/'] + (slug + Seq::<char>::empty()))));
    crate::text::lemma_pieces_sep(mr + (seq!['/'] + (slug + Seq::<char>::empty())), '/');
    crate::text::lemma_pieces_word(mr, seq!['/'] + (slug + Seq::<char>::empty()), '/');
    crate::text::lemma_pieces_sep(slug + Seq::<char>::empty(), '/');
    crate::text::lemma_pieces_word(slug, Seq::<char>::empty(), '/');
    assert(pieces(k1, '/') =~= seq![mr, slug]);
    // a chapter page
    let k2 = "/manga-raw/"@ + slug + "/"@ + chapter;
    let u2 = BASE_URL@ + k2;
    assert(u2 =~= BASE_URL@ + "/manga-raw/"@ + slug + "/"@ + chapter);
    assert(u2.subrange(0, BASE_URL@.len() as int) =~= BASE_URL@);
    assert(u2.subrange(BASE_URL@.len() as int, u2.len() as int) =~= k2);
    assert(k2.subrange(0, 11) =~= "/manga-raw/"@);
    assert(k2.last() == chapter.last());
    assert(trim_end_char(k2, '/') == k2);
    let tail = seq!['/'] + (chapter + Seq::<char>::empty());
    assert(k2 =~= seq!['/'] + (mr + (seq!['/'] + (slug + tail))));
    crate::text::lemma_pieces_sep(mr + (seq!['/'] + (slug + tail)), '/');
    crate::text::lemma_pieces_word(mr, seq!['/'] + (slug + tail), '/');
    crate::text::lemma_pieces_sep(slug + tail, '/');
    crate::text::lemma_pieces_word(slug, tail, '/');
    crate::text::lemma_pieces_sep(chapter + Seq::<char>::empty(), '/');
    crate::text::lemma_pieces_word(chapter, Seq::<char>::empty(), '/');
    assert(pieces(k2, '/') =~= seq![mr, slug, chapter]);
    assert("/"@ =~= seq!['/']);
    let segs = pieces(k2, '/');
    assert(segs[0] == mr && segs[1] == slug);
    assert("/"@ + segs[0] + "/"@ + segs[1] + "/"@ =~= "/manga-raw/"@ + slug + "/"@);
}

pub fn handle_deep_link(url: &str) -> (r: Option<DeepLinkResult>)
    ensures
        link_view(r) == deep_link_spec(url@),
{
    let key = match strip_prefix_exec(chars_of(url).as_slice(), BASE_URL) {
        Some(k) => k,
        None => return None,
    };
    if !crate::text::starts_with_exec(key.as_slice(), chars_of("/manga-raw/").as_slice()) {
        return None;
    }
    let t = trim_end_char_exec(key.as_slice(), '/');
    let segs = crate::text::pieces_exec(t.as_slice(), '/');
    proof {
        assert(segs@.len() == segs@.map_values(|v: Vec<char>| v@).len());
    }
    if segs.len() > 2 {
        let mut mk = chars_of("/");
        push_slice(&mut mk, segs[0].as_slice());
        push_str(&mut mk, "/");
        push_slice(&mut mk, segs[1].as_slice());
        push_str(&mut mk, "/");
        proof {
            assert(segs@.map_values(|v: Vec<char>| v@)[0] == segs@[0]@);
            assert(segs@.map_values(|v: Vec<char>| v@)[1] == segs@[1]@);
        }
        Some(DeepLinkResult::Chapter { manga_key: string_of(mk.as_slice()), key: string_of(key.as_slice()) })
    } else {
        Some(DeepLinkResult::Manga { key: string_of(key.as_slice()) })
    }
}

} // verus!
