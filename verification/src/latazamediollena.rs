//! La Taza Medio Llena (latazamediollena.es): the one comic the site
//! publishes, its search, strips from the archive with titles read off
//! their slugs, strip pages and their descriptions, and deep links.
use vstd::prelude::*;
use crate::fandogamia::{slug_from_url, slug_spec};
use crate::model::{Chapter, ContentRating, DeepLink, DeepLinkResult, Manga, MangaStatus, Viewer, link_view, opt_string, opt_strings};
use crate::text::{chars_of, join, pieces, pieces_exec, push_str, starts_with, string_of, trim_start_str, trim_start_str_exec, views};

verus! {

pub const BASE_URL: &'static str = "https://www.latazamediollena.es";
pub const MANGA_KEY: &'static str = "es.latazamediollena";
pub const ARCHIVE_URL: &'static str = "https://www.latazamediollena.es/comic/";
pub const TITLE: &'static str = "La Taza Medio Llena";
pub const COVER: &'static str = "https://www.latazamediollena.es/wp-content/uploads/2023/05/cropped-Taza-medio-llena-logo-web_v2_grande_texto-visible.png";
pub const AUTHOR: &'static str = "Laurielle";
pub const DESCRIPTION: &'static str = "Un cómic de fantasía, tés calentitos junto al fuego... y monstruos.";

/// The comic: by Laurielle, ongoing, safe, read left to right.
pub fn comic_info() -> (r: Manga)
    ensures
        r.key@ == MANGA_KEY@,
        r.title@ == TITLE@,
        opt_string(r.cover) == Some(COVER@),
        opt_strings(r.authors) == Some(seq![AUTHOR@]),
        opt_strings(r.artists) == Some(seq![AUTHOR@]),
        opt_string(r.description) == Some(DESCRIPTION@),
        opt_string(r.url) == Some(BASE_URL@),
        r.tags is None,
        r.status == MangaStatus::Ongoing,
        r.content_rating == ContentRating::Safe,
        r.viewer == Viewer::LeftToRight,
{
    let mut m = Manga::new(string_of(chars_of(MANGA_KEY).as_slice()), string_of(chars_of(TITLE).as_slice()));
    m.cover = Some(string_of(chars_of(COVER).as_slice()));
    let a = string_of(chars_of(AUTHOR).as_slice());
    let b = string_of(chars_of(AUTHOR).as_slice());
    let authors = vec![a];
    let artists = vec![b];
    assert(views(authors@) =~= seq![AUTHOR@]);
    assert(views(artists@) =~= seq![AUTHOR@]);
    m.authors = Some(authors);
    m.artists = Some(artists);
    m.description = Some(string_of(chars_of(DESCRIPTION).as_slice()));
    m.url = Some(string_of(chars_of(BASE_URL).as_slice()));
    m.status = MangaStatus::Ongoing;
    m.content_rating = ContentRating::Safe;
    m.viewer = Viewer::LeftToRight;
    m
}

/// A strip's title as its slug spells it: dashes as spaces, the first
/// letter capitalized when it is ASCII.
pub open spec fn title_from_slug_spec(slug: Seq<char>) -> Seq<char> {
    let t = slug.map_values(|c: char| if c == '-' { ' ' } else { c });
    if t.len() > 0 && (t[0] as u32) < 128 {
        t.update(0, crate::text::ascii_upper_char(t[0]))
    } else {
        t
    }
}

pub fn title_from_slug(slug: &str) -> (r: String)
    ensures
        r@ == title_from_slug_spec(slug@),
{
    let v = chars_of(slug);
    let mut t: Vec<char> = Vec::new();
    let mut i: usize = 0;
    while i < v.len()
        invariant
            i <= v@.len(),
            t@ == v@.subrange(0, i as int).map_values(|c: char| if c == '-' { ' ' } else { c }),
        decreases v@.len() - i,
    {
        let c = if v[i] == '-' {
            ' '
        } else {
            v[i]
        };
        t.push(c);
        assert(v@.subrange(0, i + 1).map_values(|c: char| if c == '-' { ' ' } else { c }) =~= v@.subrange(0, i as int).map_values(|c: char| if c == '-' { ' ' } else { c }).push(c));
        i = i + 1;
    }
    assert(v@.subrange(0, v@.len() as int) =~= v@);
    if t.len() > 0 && (t[0] as u32) < 128 {
        let u = crate::text::ascii_upper_exec(crate::text::slice_to_vec(t.as_slice(), 0, 1).as_slice());
        assert(u@.len() == 1);
        let first = u[0];
        t.set(0, first);
    }
    string_of(t.as_slice())
}

/// A strip of the archive: keyed by its link's slug, titled by it, dated as
/// the app read its date.
pub fn archive_chapter(href: String, date_uploaded: Option<i64>) -> (r: Chapter)
    ensures
        r.key@ == slug_spec(href@),
        opt_string(r.title) == Some(title_from_slug_spec(slug_spec(href@))),
        r.date_uploaded == date_uploaded,
        r.url == Some(href),
        r.number is None && r.volume is None && r.scanlators is None && r.language is None,
{
    let slug = slug_from_url(href.as_str());
    let title = title_from_slug(slug.as_str());
    let mut c = Chapter::new(slug);
    c.title = Some(title);
    c.date_uploaded = date_uploaded;
    c.url = Some(href);
    c
}

/// A strip's page: its address, else its key's page on the site.
pub fn chapter_page_url(url: Option<String>, key: &str) -> (r: String)
    ensures
        r@ == (match url {
            Some(u) => u@,
            None => BASE_URL@ + "/comic/"@ + key@ + "/"@,
        }),
{
    match url {
        Some(u) => u,
        None => {
            let mut v = chars_of(BASE_URL);
            push_str(&mut v, "/comic/");
            push_str(&mut v, key);
            push_str(&mut v, "/");
            string_of(v.as_slice())
        },
    }
}

/// The parts of a strip page's description: its title in bold, its date,
/// and its image's summary when not empty.
pub open spec fn description_parts(title: Option<Seq<char>>, date: Option<Seq<char>>, summary: Option<Seq<char>>) -> Seq<Seq<char>> {
    (match title {
        Some(t) => seq!["**"@ + t + "**"@],
        None => Seq::empty(),
    }) + (match date {
        Some(d) => seq![d],
        None => Seq::empty(),
    }) + (match summary {
        Some(s) => if s.len() > 0 {
            seq![s]
        } else {
            Seq::empty()
        },
        None => Seq::empty(),
    })
}

/// A strip page's description: its parts in paragraphs; none without any.
pub fn parse_page_description(title: Option<String>, date: Option<String>, summary: Option<String>) -> (r: Option<String>)
    ensures
        ({
            let ps = description_parts(opt_string(title), opt_string(date), opt_string(summary));
            opt_string(r) == (if ps.len() > 0 {
                Some(join(ps, "\n\n"@))
            } else {
                None
            })
        }),
{
    let ghost ps = description_parts(opt_string(title), opt_string(date), opt_string(summary));
    let mut parts: Vec<String> = Vec::new();
    match title {
        Some(t) => {
            let mut v = chars_of("**");
            push_str(&mut v, t.as_str());
            push_str(&mut v, "**");
            parts.push(string_of(v.as_slice()));
        },
        None => {},
    }
    let ghost p1 = views(parts@);
    match date {
        Some(d) => parts.push(d),
        None => {},
    }
    let ghost p2 = views(parts@);
    match summary {
        Some(s) => if !s.as_str().is_empty() {
            parts.push(s);
        },
        None => {},
    }
    proof {
        assert(views(parts@) =~= ps);
    }
    if parts.len() > 0 {
        Some(crate::text::join_strings(parts.as_slice(), "\n\n"))
    } else {
        None
    }
}

/// Strip pages lead to their strip; any other page on the site to the
/// comic.
pub open spec fn deep_link_spec(url: Seq<char>) -> Option<DeepLink> {
    if !starts_with(url, BASE_URL@) {
        None
    } else {
        let segs = pieces(trim_start_str(url, BASE_URL@), '/');
        if segs.len() >= 2 && segs[0] == "comic"@ {
            Some(DeepLink::Chapter(MANGA_KEY@, slug_spec(segs[1])))
        } else {
            Some(DeepLink::Manga(MANGA_KEY@))
        }
    }
}

/// A strip's page `/comic/<slug>` (with anything after a further `/`) leads
/// to that strip of the comic, keyed by its slug; the site's home page
/// leads to the comic; other sites lead nowhere.
pub proof fn lemma_strip_links(slug: Seq<char>, tail: Seq<char>, url: Seq<char>)
    requires
        slug.len() > 0,
        forall|j: int| 0 <= j < slug.len() ==> slug[j] != '/' && slug[j] != '?',
        tail.len() == 0 || tail[0] == '/',
    ensures
        deep_link_spec(BASE_URL@ + "/comic/"@ + slug + tail) == Some(
            DeepLink::Chapter(MANGA_KEY@, slug),
        ),
        deep_link_spec(BASE_URL@) == Some(DeepLink::Manga(MANGA_KEY@)),
        !starts_with(url, BASE_URL@) ==> deep_link_spec(url) is None,
{
    reveal_strlit("/comic/");
    reveal_strlit("comic");
    reveal_strlit("https://www.latazamediollena.es");
    let b = BASE_URL@;
    let p = "/comic/"@ + slug + tail;
    let u = b + p;
    assert(u =~= BASE_URL@ + "/comic/"@ + slug + tail);
    assert(u.subrange(0, b.len() as int) =~= b);
    assert(u.subrange(b.len() as int, u.len() as int) =~= p);
    assert(!starts_with(p, b)) by {
        if starts_with(p, b) {
            assert(p.subrange(0, b.len() as int)[0] == p[0]);
        }
    }
    assert(trim_start_str(p, b) == p);
    assert(trim_start_str(u, b) == p);
    assert(p =~= seq!['/'] + ("comic"@ + (seq!['/'] + (slug + tail))));
    crate::text::lemma_pieces_sep("comic"@ + (seq!['/'] + (slug + tail)), '/');
    crate::text::lemma_pieces_word("comic"@, seq!['/'] + (slug + tail), '/');
    crate::text::lemma_pieces_sep(slug + tail, '/');
    crate::text::lemma_pieces_word(slug, tail, '/');
    let segs = pieces(p, '/');
    assert(segs =~= seq!["comic"@, slug] + pieces(tail, '/'));
    assert(segs[0] == "comic"@ && segs[1] == slug);
    crate::text::lemma_split_first(slug, '?', slug.len() as int);
    assert(slug.subrange(0, slug.len() as int) =~= slug);
    assert(slug + Seq::<char>::empty() =~= slug);
    crate::text::lemma_pieces_word(slug, Seq::empty(), '/');
    assert(pieces(slug, '/') =~= seq![slug]);
    assert(slug_spec(slug) == slug);
    // the home page
    assert(b.subrange(0, b.len() as int) =~= b);
    let e = b.subrange(b.len() as int, b.len() as int);
    assert(e =~= Seq::<char>::empty());
    assert(!starts_with(e, b));
    assert(trim_start_str(e, b) == e);
    assert(trim_start_str(b, b) == e);
}

/// A strip's title from its slug: every dash a space, a leading ASCII
/// letter in upper case, and the rest as it is.
pub proof fn lemma_slug_titles(slug: Seq<char>)
    ensures
        title_from_slug_spec(slug).len() == slug.len(),
        forall|i: int|
            0 < i < slug.len() ==> #[trigger] title_from_slug_spec(slug)[i] == if slug[i] == '-' {
                ' '
            } else {
                slug[i]
            },
        slug.len() > 0 && 'a' <= slug[0] && slug[0] <= 'z' ==> title_from_slug_spec(slug)[0] as u32
            == (slug[0] as u32) - 32,
        slug.len() > 0 && slug[0] == '-' ==> title_from_slug_spec(slug)[0] == ' ',
{
}

pub fn handle_deep_link(url: &str) -> (r: Option<DeepLinkResult>)
    ensures
        link_view(r) == deep_link_spec(url@),
{
    let u = chars_of(url);
    if !crate::text::starts_with_exec(u.as_slice(), chars_of(BASE_URL).as_slice()) {
        return None;
    }
    let path = trim_start_str_exec(u.as_slice(), chars_of(BASE_URL).as_slice());
    let segs = pieces_exec(path.as_slice(), '/');
    let ghost sv = segs@.map_values(|v: Vec<char>| v@);
    proof {
        assert(segs@.len() == sv.len());
        if segs@.len() > 1 {
            assert(sv[0] == segs@[0]@);
            assert(sv[1] == segs@[1]@);
        }
    }
    let key = string_of(chars_of(MANGA_KEY).as_slice());
    if segs.len() >= 2 && crate::text::lit_eq(segs[0].as_slice(), "comic") {
        let slug = string_of(segs[1].as_slice());
        Some(DeepLinkResult::Chapter { manga_key: key, key: slug_from_url(slug.as_str()) })
    } else {
        Some(DeepLinkResult::Manga { key })
    }
}

} // verus!
