//! Fandogamia (fandogamia.com/fanternet): slugs, the series archive with its
//! covers, the search over it, strips as chapters numbered newest first,
//! strip images and deep links.
use vstd::prelude::*;
use crate::model::{Chapter, ContentRating, DeepLink, DeepLinkResult, Manga, MangaStatus, Viewer, link_view, opt_string};
use crate::text::{
    all_digits, ascii_lower, before_char, before_char_exec, chars_of, contains, pieces, pieces_exec,
    push_str, starts_with, str_eq, string_of, strip_prefix, strip_prefix_exec, trim_start_str,
    trim_start_str_exec, views,
};

verus! {

pub const BASE_URL: &'static str = "https://fandogamia.com/fanternet/";
pub const ARCHIVE_URL: &'static str = "https://fandogamia.com/fanternet/archive/";

/// The last non-empty path segment of an address, its query left out.
pub open spec fn slug_spec(url: Seq<char>) -> Seq<char> {
    let ps = pieces(before_char(url, '?'), '/');
    if ps.len() > 0 {
        ps.last()
    } else {
        Seq::empty()
    }
}

pub fn slug_from_url(url: &str) -> (r: String)
    ensures
        r@ == slug_spec(url@),
{
    let head = before_char_exec(chars_of(url).as_slice(), '?');
    let ps = pieces_exec(head.as_slice(), '/');
    proof {
        assert(ps@.len() == ps@.map_values(|v: Vec<char>| v@).len());
    }
    if ps.len() > 0 {
        let k = ps.len() - 1;
        proof {
            assert(ps@.map_values(|v: Vec<char>| v@)[k as int] == ps@[k as int]@);
        }
        string_of(ps[k].as_slice())
    } else {
        String::new()
    }
}

/// Series known to be explicit are rated so; the archive rates none.
pub open spec fn rating_for(slug: Seq<char>) -> ContentRating {
    if slug == "oglaf"@ {
        ContentRating::NSFW
    } else {
        ContentRating::Unknown
    }
}

/// Oglaf, and no other series of the archive, is rated explicit.
pub proof fn lemma_ratings(slug: Seq<char>)
    ensures
        slug == "oglaf"@ <==> rating_for(slug) == ContentRating::NSFW,
        slug != "oglaf"@ <==> rating_for(slug) == ContentRating::Unknown,
{
}

pub fn content_rating_for(slug: &str) -> (r: ContentRating)
    ensures
        r == rating_for(slug@),
{
    if str_eq(slug, "oglaf") {
        ContentRating::NSFW
    } else {
        ContentRating::Unknown
    }
}

/// A series of the archive: keyed by its link's slug, titled by the link's
/// text, its cover's address encoded, read left to right.
pub open spec fn series_manga(href: Seq<char>, title: Option<Seq<char>>, cover: Option<Seq<char>>, m: Manga) -> bool {
    &&& m.key@ == slug_spec(href)
    &&& m.title@ == (match title {
        Some(t) => t,
        None => Seq::empty(),
    })
    &&& opt_string(m.cover) == (match cover {
        Some(c) => Some(crate::url::encode_uri_spec(c)),
        None => None,
    })
    &&& opt_string(m.url) == Some(href)
    &&& m.content_rating == rating_for(slug_spec(href))
    &&& m.viewer == Viewer::LeftToRight
    &&& m.artists is None && m.authors is None && m.description is None && m.tags is None
    &&& m.status == MangaStatus::Unknown
}

pub fn series_entry(href: String, title: Option<String>, cover: Option<String>) -> (r: Manga)
    ensures
        series_manga(href@, opt_string(title), opt_string(cover), r),
{
    let slug = slug_from_url(href.as_str());
    let rating = content_rating_for(slug.as_str());
    let t = match title {
        Some(t) => t,
        None => String::new(),
    };
    let mut m = Manga::new(slug, t);
    m.cover = match cover {
        Some(c) => Some(crate::url::encode_uri(c.as_str())),
        None => None,
    };
    m.url = Some(href);
    m.content_rating = rating;
    m.viewer = Viewer::LeftToRight;
    m
}

/// A link of the archive's series list: its address and text.
pub struct SeriesLink {
    pub href: Option<String>,
    pub text: Option<String>,
}

/// The archive's series: its list's links after the first (which lists
/// every series), paired in order with the sidebar's covers, those without
/// an address left out; none when there are no links.
pub open spec fn archive_pairs(links: Seq<SeriesLink>, covers: Seq<Option<String>>) -> Seq<(SeriesLink, Option<String>)> {
    let ls = if links.len() > 0 { links.drop_first() } else { links };
    let n = if ls.len() < covers.len() { ls.len() } else { covers.len() };
    Seq::new(n, |i: int| (ls[i], covers[i])).filter(|p: (SeriesLink, Option<String>)| p.0.href is Some)
}

pub fn series_list(links: Vec<SeriesLink>, covers: Vec<Option<String>>) -> (r: Vec<Manga>)
    ensures
        r@.len() == archive_pairs(links@, covers@).len(),
        forall|i: int| 0 <= i < r@.len() ==> {
            let p = #[trigger] archive_pairs(links@, covers@)[i];
            series_manga(p.0.href->0@, opt_string(p.0.text), opt_string(p.1), r@[i])
        },
{
    let ghost ls = if links@.len() > 0 { links@.drop_first() } else { links@ };
    let ghost n: int = if ls.len() < covers@.len() { ls.len() as int } else { covers@.len() as int };
    let ghost all = Seq::new(n as nat, |i: int| (ls[i], covers@[i]));
    let ghost pred = |p: (SeriesLink, Option<String>)| p.0.href is Some;
    let mut rest_links = links;
    if rest_links.len() > 0 {
        let _first = rest_links.remove(0);
    }
    let mut rest_covers = covers;
    assert(rest_links@ =~= ls);
    let nl = rest_links.len();
    let mut out: Vec<Manga> = Vec::new();
    let mut i: usize = 0;
    while rest_links.len() > 0 && rest_covers.len() > 0
        invariant
            nl == ls.len(),
            0 <= i <= n,
            n == (if ls.len() < covers@.len() { ls.len() as int } else { covers@.len() as int }),
            all == Seq::new(n as nat, |i: int| (ls[i], covers@[i])),
            pred == (|p: (SeriesLink, Option<String>)| p.0.href is Some),
            rest_links@ == ls.subrange(i as int, ls.len() as int),
            rest_covers@ == covers@.subrange(i as int, covers@.len() as int),
            out@.len() == all.subrange(0, i as int).filter(pred).len(),
            forall|j: int| 0 <= j < out@.len() ==> {
                let p = #[trigger] all.subrange(0, i as int).filter(pred)[j];
                series_manga(p.0.href->0@, opt_string(p.0.text), opt_string(p.1), out@[j])
            },
        decreases rest_links@.len(),
    {
        let link = rest_links.remove(0);
        let cover = rest_covers.remove(0);
        proof {
            assert(link == ls[i as int]);
            assert(cover == covers@[i as int]);
            assert(all[i as int] == (link, cover));
            let s = all.subrange(0, i + 1);
            assert(s.drop_last() =~= all.subrange(0, i as int));
            assert(s.filter(pred) == s.drop_last().filter(pred) + (if pred(s.last()) {
                seq![s.last()]
            } else {
                Seq::empty()
            })) by {
                reveal_with_fuel(Seq::<_>::filter, 1);
            }
        }
        let SeriesLink { href, text } = link;
        match href {
            Some(h) => {
                out.push(series_entry(h, text, cover));
            },
            None => {},
        }
        assert(rest_links@ =~= ls.subrange(i + 1, ls.len() as int));
        assert(rest_covers@ =~= covers@.subrange(i + 1, covers@.len() as int));
        i = i + 1;
    }
    assert(i == n);
    assert(all.subrange(0, n) =~= all);
    out
}

/// Whether a series' title holds the query, both in ASCII lower case.
pub fn title_matches(title: &str, query: &str) -> (r: bool)
    ensures
        r == contains(ascii_lower(title@), ascii_lower(query@)),
{
    let t = crate::text::ascii_lower_exec(chars_of(title).as_slice());
    let q = crate::text::ascii_lower_exec(chars_of(query).as_slice());
    crate::text::contains_exec(t.as_slice(), q.as_slice())
}

// ---------------------------------------------------------------------------
// Strips
// ---------------------------------------------------------------------------

/// A recent strip, shown as a thumbnail: keyed by its link's slug, titled
/// by its caption.
pub fn thumb_chapter(href: String, title: Option<String>) -> (r: Chapter)
    ensures
        r.key@ == slug_spec(href@),
        r.title == title,
        r.url == Some(href),
        r.number is None && r.volume is None && r.date_uploaded is None,
        r.scanlators is None && r.language is None,
{
    let mut c = Chapter::new(slug_from_url(href.as_str()));
    c.title = title;
    c.url = Some(href);
    c
}

/// An older strip, listed as `<date> - <title>`: keyed by its link's slug,
/// titled by the text without its date, dated as the app read the date.
pub fn listed_chapter(href: String, date_text: Option<String>, date_uploaded: Option<i64>, text: String) -> (r: Chapter)
    ensures
        r.key@ == slug_spec(href@),
        opt_string(r.title) == Some(match date_text {
            Some(d) => match strip_prefix(text@, d@ + " - "@) {
                Some(t) => t,
                None => text@,
            },
            None => text@,
        }),
        r.date_uploaded == date_uploaded,
        r.url == Some(href),
        r.number is None && r.volume is None && r.scanlators is None && r.language is None,
{
    let title = match &date_text {
        Some(d) => {
            let mut p = chars_of(d.as_str());
            push_str(&mut p, " - ");
            let ps = string_of(p.as_slice());
            match strip_prefix_exec(chars_of(text.as_str()).as_slice(), ps.as_str()) {
                Some(t) => string_of(t.as_slice()),
                None => text,
            }
        },
        None => text,
    };
    let mut c = Chapter::new(slug_from_url(href.as_str()));
    c.title = Some(title);
    c.date_uploaded = date_uploaded;
    c.url = Some(href);
    c
}

/// Numbers strips listed newest first: the last one is the first.
pub fn number_chapters(chapters: &mut Vec<Chapter>)
    ensures
        final(chapters)@.len() == old(chapters)@.len(),
        forall|i: int| 0 <= i < final(chapters)@.len() ==> {
            &&& opt_string((#[trigger] final(chapters)@[i]).number) == Some(
                crate::text::dec((old(chapters)@.len() - i) as nat),
            )
            &&& final(chapters)@[i].key == old(chapters)@[i].key
            &&& final(chapters)@[i].title == old(chapters)@[i].title
            &&& final(chapters)@[i].date_uploaded == old(chapters)@[i].date_uploaded
            &&& final(chapters)@[i].url == old(chapters)@[i].url
            &&& final(chapters)@[i].volume == old(chapters)@[i].volume
            &&& final(chapters)@[i].scanlators == old(chapters)@[i].scanlators
            &&& final(chapters)@[i].language == old(chapters)@[i].language
        },
{
    let total = chapters.len();
    let ghost orig = chapters@;
    let mut i: usize = 0;
    while i < total
        invariant
            total == orig.len(),
            chapters@.len() == total,
            i <= total,
            forall|j: int| i <= j < total ==> #[trigger] chapters@[j] == orig[j],
            forall|j: int| 0 <= j < i ==> {
                &&& opt_string((#[trigger] chapters@[j]).number) == Some(crate::text::dec((total - j) as nat))
                &&& chapters@[j].key == orig[j].key
                &&& chapters@[j].title == orig[j].title
                &&& chapters@[j].date_uploaded == orig[j].date_uploaded
                &&& chapters@[j].url == orig[j].url
                &&& chapters@[j].volume == orig[j].volume
                &&& chapters@[j].scanlators == orig[j].scanlators
                &&& chapters@[j].language == orig[j].language
            },
        decreases total - i,
    {
        let n = crate::text::dec_u64((total - i) as u64);
        let mut c = chapters.remove(i);
        c.number = Some(string_of(n.as_slice()));
        chapters.insert(i, c);
        i = i + 1;
    }
}

/// A strip's image: its page's image address, encoded.
pub fn parse_page_image_url(src: &str) -> (r: String)
    ensures
        r@ == crate::url::encode_uri_spec(src@),
{
    crate::url::encode_uri(src)
}

// ---------------------------------------------------------------------------
// Deep links
// ---------------------------------------------------------------------------

pub open spec fn is_number(s: Seq<char>) -> bool {
    all_digits(s)
}

/// A series' archive page or home page leads to the series; a strip's page
/// under a series, `/comic/<slug>/<id>/...`, to that strip.
pub open spec fn deep_link_spec(url: Seq<char>) -> Option<DeepLink> {
    if !starts_with(url, BASE_URL@) {
        None
    } else {
        let segs = pieces(trim_start_str(url, BASE_URL@), '/');
        if segs.len() == 2 && segs[0] == "archive"@ {
            Some(DeepLink::Manga(segs[1]))
        } else if segs.len() >= 3 && segs[0] == "comic"@ && !is_number(segs[1]) && is_number(segs[2]) {
            Some(DeepLink::Chapter(segs[1], slug_spec(url)))
        } else if segs.len() == 2 && segs[0] == "comic"@ && !is_number(segs[1]) {
            Some(DeepLink::Manga(segs[1]))
        } else {
            None
        }
    }
}

/// A series' archive page `archive/<slug>` and its home page
/// `comic/<slug>` (a slug that is not a number) lead to the series; a strip
/// `comic/<slug>/<number>`, with anything after a further `/`, leads to
/// that strip of the series, keyed by the last segment of its address.
pub proof fn lemma_series_links(slug: Seq<char>, number: Seq<char>, tail: Seq<char>)
    requires
        slug.len() > 0,
        forall|j: int| 0 <= j < slug.len() ==> slug[j] != '/',
    ensures
        deep_link_spec(BASE_URL@ + "archive/"@ + slug) == Some(DeepLink::Manga(slug)),
        !is_number(slug) ==> deep_link_spec(BASE_URL@ + "comic/"@ + slug) == Some(
            DeepLink::Manga(slug),
        ),
        !is_number(slug) && number.len() > 0 && is_number(number) && (tail.len() == 0 || tail[0]
            == '/') ==> {
            let u = BASE_URL@ + "comic/"@ + slug + seq!['/'] + number + tail;
            deep_link_spec(u) == Some(DeepLink::Chapter(slug, slug_spec(u)))
        },
{
    reveal_strlit("archive/");
    reveal_strlit("comic/");
    reveal_strlit("archive");
    reveal_strlit("comic");
    reveal_strlit("https://fandogamia.com/fanternet/");
    let b = BASE_URL@;
    assert(b[0] == 'h');
    // archive/<slug>
    let pa = "archive/"@ + slug;
    let ua = b + pa;
    assert(ua =~= BASE_URL@ + "archive/"@ + slug);
    assert(ua.subrange(0, b.len() as int) =~= b);
    assert(ua.subrange(b.len() as int, ua.len() as int) =~= pa);
    assert(!starts_with(pa, b)) by {
        if starts_with(pa, b) {
            assert(pa.subrange(0, b.len() as int)[0] == pa[0]);
        }
    }
    assert(trim_start_str(pa, b) == pa);
    assert(trim_start_str(ua, b) == pa);
    assert(pa =~= "archive"@ + (seq!['/'] + slug));
    crate::text::lemma_pieces_word("archive"@, seq!['/'] + slug, '/');
    crate::text::lemma_pieces_sep(slug, '/');
    assert(slug + Seq::<char>::empty() =~= slug);
    crate::text::lemma_pieces_word(slug, Seq::empty(), '/');
    assert(pieces(pa, '/') =~= seq!["archive"@, slug]);
    // comic/<slug>
    let pc = "comic/"@ + slug;
    let uc = b + pc;
    assert(uc =~= BASE_URL@ + "comic/"@ + slug);
    assert(uc.subrange(0, b.len() as int) =~= b);
    assert(uc.subrange(b.len() as int, uc.len() as int) =~= pc);
    assert(!starts_with(pc, b)) by {
        if starts_with(pc, b) {
            assert(pc.subrange(0, b.len() as int)[0] == pc[0]);
        }
    }
    assert(trim_start_str(pc, b) == pc);
    assert(trim_start_str(uc, b) == pc);
    assert(pc =~= "comic"@ + (seq!['/'] + slug));
    crate::text::lemma_pieces_word("comic"@, seq!['/'] + slug, '/');
    assert(pieces(pc, '/') =~= seq!["comic"@, slug]);
    assert("comic"@ != "archive"@) by {
        assert("comic"@.len() != "archive"@.len());
    }
    // comic/<slug>/<number>...
    if !is_number(slug) && number.len() > 0 && is_number(number) && (tail.len() == 0 || tail[0]
        == '/') {
        let ps = "comic/"@ + slug + seq!['/'] + number + tail;
        let us = b + ps;
        assert(us =~= BASE_URL@ + "comic/"@ + slug + seq!['/'] + number + tail);
        assert(us.subrange(0, b.len() as int) =~= b);
        assert(us.subrange(b.len() as int, us.len() as int) =~= ps);
        assert(!starts_with(ps, b)) by {
            if starts_with(ps, b) {
                assert(ps.subrange(0, b.len() as int)[0] == ps[0]);
            }
        }
        assert(trim_start_str(ps, b) == ps);
        assert(trim_start_str(us, b) == ps);
        assert forall|j: int| 0 <= j < number.len() implies number[j] != '/' by {
            assert(crate::text::is_ascii_digit(number[j]));
        }
        assert(ps =~= "comic"@ + (seq!['/'] + (slug + (seq!['/'] + (number + tail)))));
        crate::text::lemma_pieces_word("comic"@, seq!['/'] + (slug + (seq!['/'] + (number + tail))), '/');
        crate::text::lemma_pieces_sep(slug + (seq!['/'] + (number + tail)), '/');
        crate::text::lemma_pieces_word(slug, seq!['/'] + (number + tail), '/');
        crate::text::lemma_pieces_sep(number + tail, '/');
        crate::text::lemma_pieces_word(number, tail, '/');
        let segs = pieces(ps, '/');
        assert(segs =~= seq!["comic"@, slug, number] + pieces(tail, '/'));
        assert(segs[0] == "comic"@ && segs[1] == slug && segs[2] == number);
    }
}

fn is_number_exec(s: &[char]) -> (r: bool)
    ensures
        r == is_number(s@),
{
    let mut i: usize = 0;
    while i < s.len()
        invariant
            i <= s@.len(),
            forall|j: int| 0 <= j < i ==> crate::text::is_ascii_digit(#[trigger] s@[j]),
        decreases s@.len() - i,
    {
        if !('0' <= s[i] && s[i] <= '9') {
            return false;
        }
        i = i + 1;
    }
    true
}

pub fn handle_deep_link(url: &str) -> (r: Option<DeepLinkResult>)
    ensures
        link_view(r) == deep_link_spec(url@),
{
    let u = chars_of(url);
    if !crate::text::starts_with_exec(u.as_slice(), chars_of(BASE_URL).as_slice()) {
        return None;
    }
    let path = trim_start_str_exec(u.as_slice(), chars_of(BASE_URL).as_slice());
    let segs = pieces_exec(path.as_slice(), '/');
    let ghost sv = segs@.map_values(|v: Vec<char>| v@);
    proof {
        assert(segs@.len() == sv.len());
        if segs@.len() > 0 {
            assert(sv[0] == segs@[0]@);
        }
        if segs@.len() > 1 {
            assert(sv[1] == segs@[1]@);
        }
        if segs@.len() > 2 {
            assert(sv[2] == segs@[2]@);
        }
    }
    if segs.len() == 2 && crate::text::lit_eq(segs[0].as_slice(), "archive") {
        return Some(DeepLinkResult::Manga { key: string_of(segs[1].as_slice()) });
    }
    if segs.len() >= 3 && crate::text::lit_eq(segs[0].as_slice(), "comic") && !is_number_exec(segs[1].as_slice())
        && is_number_exec(segs[2].as_slice()) {
        return Some(DeepLinkResult::Chapter { manga_key: string_of(segs[1].as_slice()), key: slug_from_url(url) });
    }
    if segs.len() == 2 && crate::text::lit_eq(segs[0].as_slice(), "comic") && !is_number_exec(segs[1].as_slice()) {
        return Some(DeepLinkResult::Manga { key: string_of(segs[1].as_slice()) });
    }
    None
}

} // verus!
