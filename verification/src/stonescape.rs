//! StoneScape (stonescape.xyz): its json api's series and chapters as the
//! app shows them, genre names, listing and search urls, page images and
//! deep links.
use vstd::prelude::*;
use crate::model::{
    Chapter, ContentRating, DeepLink, DeepLinkResult, FilterValue, Manga, MangaStatus,
    MangaWithChapter, Viewer, link_view, opt_string, opt_strings,
};
use crate::text::{
    ascii_upper_char, before_char, before_char_exec, chars_of, dec_i64, dec_int,
    eq_ignore_ascii_case, eq_ignore_ascii_case_exec, join, join_strings, push_str, str_eq,
    string_of, strip_prefix, strip_prefix_exec, views,
};
use crate::url::{encode_component, encode_uri_component};

verus! {

pub const BASE_URL: &'static str = "https://stonescape.xyz";

pub const API_URL: &'static str = "https://stonescape.xyz/api";

// ---------------------------------------------------------------------------
// Genres
// ---------------------------------------------------------------------------

/// The display name of a genre slug the site is known to use.
pub open spec fn known_genre(g: Seq<char>) -> Option<Seq<char>> {
    if g == "action"@ {
        Some("Action"@)
    } else if g == "adaptation"@ {
        Some("Adaptation"@)
    } else if g == "adult"@ {
        Some("Adult"@)
    } else if g == "adventure"@ {
        Some("Adventure"@)
    } else if g == "comedy"@ {
        Some("Comedy"@)
    } else if g == "demons"@ {
        Some("Demons"@)
    } else if g == "drama"@ {
        Some("Drama"@)
    } else if g == "ecchi"@ {
        Some("Ecchi"@)
    } else if g == "fantasy"@ {
        Some("Fantasy"@)
    } else if g == "genderbender"@ || g == "gender-bender"@ {
        Some("Gender Bender"@)
    } else if g == "gore"@ {
        Some("Gore"@)
    } else if g == "harem"@ {
        Some("Harem"@)
    } else if g == "historical"@ {
        Some("Historical"@)
    } else if g == "horror"@ {
        Some("Horror"@)
    } else if g == "isekai"@ {
        Some("Isekai"@)
    } else if g == "josei"@ {
        Some("Josei"@)
    } else if g == "magic"@ {
        Some("Magic"@)
    } else if g == "martialarts"@ || g == "martial-arts"@ {
        Some("Martial Arts"@)
    } else if g == "mature"@ {
        Some("Mature"@)
    } else if g == "mecha"@ {
        Some("Mecha"@)
    } else if g == "military"@ {
        Some("Military"@)
    } else if g == "monsters"@ {
        Some("Monsters"@)
    } else if g == "mystery"@ {
        Some("Mystery"@)
    } else if g == "post-apocalyptic"@ {
        Some("Post-Apocalyptic"@)
    } else if g == "psychological"@ {
        Some("Psychological"@)
    } else if g == "romance"@ {
        Some("Romance"@)
    } else if g == "schoollife"@ || g == "school-life"@ {
        Some("School Life"@)
    } else if g == "sci-fi"@ || g == "scifi"@ {
        Some("Sci-Fi"@)
    } else if g == "seinen"@ {
        Some("Seinen"@)
    } else if g == "shoujo"@ {
        Some("Shoujo"@)
    } else if g == "shoujoai"@ || g == "shoujo-ai"@ {
        Some("Shoujo Ai"@)
    } else if g == "shounen"@ {
        Some("Shounen"@)
    } else if g == "shounenai"@ || g == "shounen-ai"@ {
        Some("Shounen Ai"@)
    } else if g == "sliceoflife"@ || g == "slice-of-life"@ {
        Some("Slice of Life"@)
    } else if g == "smut"@ {
        Some("Smut"@)
    } else if g == "sports"@ {
        Some("Sports"@)
    } else if g == "supernatural"@ {
        Some("Supernatural"@)
    } else if g == "thriller"@ {
        Some("Thriller"@)
    } else if g == "tragedy"@ {
        Some("Tragedy"@)
    } else if g == "video-games"@ || g == "videogames"@ {
        Some("Video Games"@)
    } else if g == "webtoons"@ || g == "webtoon"@ {
        Some("Webtoons"@)
    } else if g == "wuxia"@ {
        Some("Wuxia"@)
    } else if g == "yaoi"@ {
        Some("Yaoi"@)
    } else if g == "yuri"@ {
        Some("Yuri"@)
    } else {
        None
    }
}

fn known_genre_exec(g: &str) -> (r: Option<&'static str>)
    ensures
        crate::atsumaru::opt_view(r) == known_genre(g@),
{
    if str_eq(g, "action") {
        Some("Action")
    } else if str_eq(g, "adaptation") {
        Some("Adaptation")
    } else if str_eq(g, "adult") {
        Some("Adult")
    } else if str_eq(g, "adventure") {
        Some("Adventure")
    } else if str_eq(g, "comedy") {
        Some("Comedy")
    } else if str_eq(g, "demons") {
        Some("Demons")
    } else if str_eq(g, "drama") {
        Some("Drama")
    } else if str_eq(g, "ecchi") {
        Some("Ecchi")
    } else if str_eq(g, "fantasy") {
        Some("Fantasy")
    } else if str_eq(g, "genderbender") || str_eq(g, "gender-bender") {
        Some("Gender Bender")
    } else if str_eq(g, "gore") {
        Some("Gore")
    } else if str_eq(g, "harem") {
        Some("Harem")
    } else if str_eq(g, "historical") {
        Some("Historical")
    } else if str_eq(g, "horror") {
        Some("Horror")
    } else if str_eq(g, "isekai") {
        Some("Isekai")
    } else if str_eq(g, "josei") {
        Some("Josei")
    } else if str_eq(g, "magic") {
        Some("Magic")
    } else if str_eq(g, "martialarts") || str_eq(g, "martial-arts") {
        Some("Martial Arts")
    } else if str_eq(g, "mature") {
        Some("Mature")
    } else if str_eq(g, "mecha") {
        Some("Mecha")
    } else if str_eq(g, "military") {
        Some("Military")
    } else if str_eq(g, "monsters") {
        Some("Monsters")
    } else if str_eq(g, "mystery") {
        Some("Mystery")
    } else if str_eq(g, "post-apocalyptic") {
        Some("Post-Apocalyptic")
    } else if str_eq(g, "psychological") {
        Some("Psychological")
    } else if str_eq(g, "romance") {
        Some("Romance")
    } else if str_eq(g, "schoollife") || str_eq(g, "school-life") {
        Some("School Life")
    } else if str_eq(g, "sci-fi") || str_eq(g, "scifi") {
        Some("Sci-Fi")
    } else if str_eq(g, "seinen") {
        Some("Seinen")
    } else if str_eq(g, "shoujo") {
        Some("Shoujo")
    } else if str_eq(g, "shoujoai") || str_eq(g, "shoujo-ai") {
        Some("Shoujo Ai")
    } else if str_eq(g, "shounen") {
        Some("Shounen")
    } else if str_eq(g, "shounenai") || str_eq(g, "shounen-ai") {
        Some("Shounen Ai")
    } else if str_eq(g, "sliceoflife") || str_eq(g, "slice-of-life") {
        Some("Slice of Life")
    } else if str_eq(g, "smut") {
        Some("Smut")
    } else if str_eq(g, "sports") {
        Some("Sports")
    } else if str_eq(g, "supernatural") {
        Some("Supernatural")
    } else if str_eq(g, "thriller") {
        Some("Thriller")
    } else if str_eq(g, "tragedy") {
        Some("Tragedy")
    } else if str_eq(g, "video-games") || str_eq(g, "videogames") {
        Some("Video Games")
    } else if str_eq(g, "webtoons") || str_eq(g, "webtoon") {
        Some("Webtoons")
    } else if str_eq(g, "wuxia") {
        Some("Wuxia")
    } else if str_eq(g, "yaoi") {
        Some("Yaoi")
    } else if str_eq(g, "yuri") {
        Some("Yuri")
    } else {
        None
    }
}

/// A genre's display name: the known name of its slug, or the slug with its
/// first character in ASCII upper case.
pub open spec fn format_genre_spec(g: Seq<char>) -> Seq<char> {
    match known_genre(g) {
        Some(name) => name,
        None => if g.len() > 0 {
            seq![ascii_upper_char(g[0])] + g.drop_first()
        } else {
            g
        },
    }
}

pub fn format_genre(genre: &str) -> (r: String)
    ensures
        r@ == format_genre_spec(genre@),
{
    match known_genre_exec(genre) {
        Some(name) => string_of(chars_of(name).as_slice()),
        None => {
            let mut v = chars_of(genre);
            if v.len() > 0 {
                let c = v[0];
                let u = if 'a' <= c && c <= 'z' {
                    crate::text::char_from_u32_ascii((c as u32) - 32)
                } else {
                    c
                };
                v.set(0, u);
                assert(v@ =~= seq![ascii_upper_char(genre@[0])] + genre@.drop_first());
            }
            string_of(v.as_slice())
        },
    }
}

pub open spec fn is_nsfw_genre(g: Seq<char>) -> bool {
    eq_ignore_ascii_case(g, "adult"@) || eq_ignore_ascii_case(g, "gore"@) || eq_ignore_ascii_case(
        g,
        "mature"@,
    ) || eq_ignore_ascii_case(g, "smut"@)
}

pub open spec fn genre_rating(genres: Seq<Seq<char>>) -> ContentRating {
    if exists|i: int| 0 <= i < genres.len() && is_nsfw_genre(#[trigger] genres[i]) {
        ContentRating::NSFW
    } else if exists|i: int| 0 <= i < genres.len() && eq_ignore_ascii_case(#[trigger] genres[i], "ecchi"@) {
        ContentRating::Suggestive
    } else {
        ContentRating::Safe
    }
}

fn eq_ignore_case_lit(g: &str, lit: &str) -> (r: bool)
    ensures
        r == eq_ignore_ascii_case(g@, lit@),
{
    let a = chars_of(g);
    let b = chars_of(lit);
    eq_ignore_ascii_case_exec(a.as_slice(), b.as_slice())
}

/// A genre "adult", "gore", "mature" or "smut" (any ASCII case) makes an
/// entry NSFW wherever it stands; "ecchi" makes it at least suggestive.
pub proof fn lemma_rating_words(before: Seq<Seq<char>>, g: Seq<char>, after: Seq<Seq<char>>, all: Seq<Seq<char>>)
    requires
        all == before + seq![g] + after,
    ensures
        eq_ignore_ascii_case(g, "adult"@) || eq_ignore_ascii_case(g, "gore"@) || eq_ignore_ascii_case(g, "mature"@)
            || eq_ignore_ascii_case(g, "smut"@) ==> genre_rating(all) == ContentRating::NSFW,
        eq_ignore_ascii_case(g, "ecchi"@) ==> genre_rating(all) != ContentRating::Safe,
{
    assert(all[before.len() as int] == g);
}

/// The rating genres imply: adult, gore, mature or smut in any ASCII case
/// make an entry NSFW, ecchi suggestive, and it is safe otherwise.
pub fn genre_content_rating(genres: &[String]) -> (r: ContentRating)
    ensures
        r == genre_rating(views(genres@)),
{
    let ghost gs = views(genres@);
    let mut suggestive = false;
    let mut i: usize = 0;
    while i < genres.len()
        invariant
            i <= genres@.len(),
            gs == views(genres@),
            forall|j: int| 0 <= j < i ==> !is_nsfw_genre(#[trigger] gs[j]),
            suggestive == exists|j: int| 0 <= j < i && eq_ignore_ascii_case(#[trigger] gs[j], "ecchi"@),
        decreases genres@.len() - i,
    {
        let g = genres[i].as_str();
        assert(gs[i as int] == g@);
        if eq_ignore_case_lit(g, "adult") || eq_ignore_case_lit(g, "gore") || eq_ignore_case_lit(
            g,
            "mature",
        ) || eq_ignore_case_lit(g, "smut") {
            return ContentRating::NSFW;
        }
        if eq_ignore_case_lit(g, "ecchi") {
            suggestive = true;
        }
        i = i + 1;
    }
    if suggestive {
        ContentRating::Suggestive
    } else {
        ContentRating::Safe
    }
}

/// The display names of a list of genres, in order.
pub fn format_genres(genres: &[String]) -> (r: Vec<String>)
    ensures
        views(r@) == views(genres@).map_values(|g: Seq<char>| format_genre_spec(g)),
{
    let mut out: Vec<String> = Vec::new();
    let mut i: usize = 0;
    while i < genres.len()
        invariant
            i <= genres@.len(),
            out@.len() == i,
            forall|j: int| 0 <= j < i ==> (#[trigger] out@[j])@ == format_genre_spec(genres@[j]@),
        decreases genres@.len() - i,
    {
        out.push(format_genre(genres[i].as_str()));
        i = i + 1;
    }
    assert(views(out@) =~= views(genres@).map_values(|g: Seq<char>| format_genre_spec(g)));
    out
}

// ---------------------------------------------------------------------------
// Series and chapters
// ---------------------------------------------------------------------------

pub struct Pagination {
    pub page: Option<i32>,
    pub total_pages: Option<i32>,
}

pub open spec fn has_next_page_spec(p: Option<Pagination>) -> bool {
    match p {
        Some(p) => (match p.page {
            Some(n) => n as int,
            None => 1,
        }) < (match p.total_pages {
            Some(n) => n as int,
            None => 1,
        }),
        None => false,
    }
}

/// Whether a listing has a page after this one: a missing page counts as
/// the first, and missing totals as one page.
pub fn has_next_page(pagination: &Option<Pagination>) -> (r: bool)
    ensures
        r == has_next_page_spec(*pagination),
{
    match pagination {
        Some(p) => {
            let page = match p.page {
                Some(n) => n,
                None => 1,
            };
            let total = match p.total_pages {
                Some(n) => n,
                None => 1,
            };
            page < total
        },
        None => false,
    }
}

pub struct Series {
    pub title: String,
    pub slug: String,
    pub cover_url: Option<String>,
    pub banner_url: Option<String>,
    pub description: Option<String>,
    pub publication_status: Option<String>,
    pub author: Option<String>,
    pub artist: Option<String>,
    pub genres: Option<Vec<String>>,
    pub latest_chapter: Option<ChapterData>,
}

pub struct ChapterData {
    pub chapter_id: String,
    pub chapter_number: String,
    pub title: Option<String>,
    pub created_at: Option<String>,
}

/// An image path of the site as a url.
pub open spec fn site_url(path: Seq<char>) -> Seq<char> {
    BASE_URL@ + path
}

fn site_url_exec(path: &str) -> (r: String)
    ensures
        r@ == site_url(path@),
{
    let mut v = chars_of(BASE_URL);
    push_str(&mut v, path);
    string_of(v.as_slice())
}

pub open spec fn opt_site_url(path: Option<Seq<char>>) -> Option<Seq<char>> {
    match path {
        Some(p) => Some(site_url(p)),
        None => None,
    }
}

fn opt_site_url_exec(path: Option<String>) -> (r: Option<String>)
    ensures
        opt_string(r) == opt_site_url(opt_string(path)),
{
    match path {
        Some(p) => Some(site_url_exec(p.as_str())),
        None => None,
    }
}

pub open spec fn status_spec(s: Option<Seq<char>>) -> MangaStatus {
    if s == Some("ongoing"@) {
        MangaStatus::Ongoing
    } else if s == Some("completed"@) {
        MangaStatus::Completed
    } else if s == Some("hiatus"@) {
        MangaStatus::Hiatus
    } else if s == Some("dropped"@) || s == Some("cancelled"@) {
        MangaStatus::Cancelled
    } else {
        MangaStatus::Unknown
    }
}

/// The api's publication status: "ongoing", "completed", "hiatus", and
/// "dropped" or "cancelled" name what they say; anything else is unknown.
pub proof fn lemma_status_names(s: Seq<char>)
    ensures
        s == "ongoing"@ ==> status_spec(Some(s)) == MangaStatus::Ongoing,
        s == "completed"@ ==> status_spec(Some(s)) == MangaStatus::Completed,
        s == "hiatus"@ ==> status_spec(Some(s)) == MangaStatus::Hiatus,
        s == "dropped"@ || s == "cancelled"@ ==> status_spec(Some(s)) == MangaStatus::Cancelled,
        status_spec(None) == MangaStatus::Unknown,
{
    reveal_strlit("ongoing");
    reveal_strlit("completed");
    reveal_strlit("hiatus");
    reveal_strlit("dropped");
    reveal_strlit("cancelled");
    assert("ongoing"@.len() == 7 && "completed"@.len() == 9 && "hiatus"@.len() == 6);
    assert("dropped"@.len() == 7 && "cancelled"@.len() == 9);
    assert("dropped"@[0] != "ongoing"@[0]);
    assert("cancelled"@[1] != "completed"@[1]);
}

pub fn parse_status(s: &Option<String>) -> (r: MangaStatus)
    ensures
        r == status_spec(opt_string(*s)),
{
    match s {
        Some(t) => {
            let t = t.as_str();
            if str_eq(t, "ongoing") {
                MangaStatus::Ongoing
            } else if str_eq(t, "completed") {
                MangaStatus::Completed
            } else if str_eq(t, "hiatus") {
                MangaStatus::Hiatus
            } else if str_eq(t, "dropped") || str_eq(t, "cancelled") {
                MangaStatus::Cancelled
            } else {
                MangaStatus::Unknown
            }
        },
        None => MangaStatus::Unknown,
    }
}

/// A name as a one-name list, when it isn't empty.
pub open spec fn single_name(n: Option<Seq<char>>) -> Option<Seq<Seq<char>>> {
    match n {
        Some(x) => if x.len() > 0 {
            Some(seq![x])
        } else {
            None
        },
        None => None,
    }
}

fn single_name_exec(n: Option<String>) -> (r: Option<Vec<String>>)
    ensures
        opt_strings(r) == single_name(opt_string(n)),
{
    match n {
        Some(x) => if x.as_str().is_empty() {
            None
        } else {
            let ghost xv = x@;
            let v = vec![x];
            assert(v@.map_values(|s: String| s@) =~= seq![xv]);
            Some(v)
        },
        None => None,
    }
}

/// A series as a listed manga: keyed by its slug, with its title and its
/// cover on the site, nothing else known.
pub open spec fn listed_manga(s: Series, m: Manga) -> bool {
    &&& m.key == s.slug
    &&& m.title == s.title
    &&& opt_string(m.cover) == opt_site_url(opt_string(s.cover_url))
    &&& m.artists is None && m.authors is None && m.description is None
    &&& m.url is None && m.tags is None
    &&& m.status == MangaStatus::Unknown
    &&& m.content_rating == ContentRating::Unknown
    &&& m.viewer == Viewer::Unknown
}

/// A series as a featured manga: the banner stands in for the cover where
/// there is one, and the description comes along.
pub open spec fn banner_manga(s: Series, m: Manga) -> bool {
    &&& m.key == s.slug
    &&& m.title == s.title
    &&& opt_string(m.cover) == opt_site_url(
        match s.banner_url {
            Some(b) => Some(b@),
            None => opt_string(s.cover_url),
        },
    )
    &&& m.description == s.description
    &&& m.artists is None && m.authors is None
    &&& m.url is None && m.tags is None
    &&& m.status == MangaStatus::Unknown
    &&& m.content_rating == ContentRating::Unknown
    &&& m.viewer == Viewer::Unknown
}

/// A series with its latest chapter `c` as a release entry.
pub open spec fn latest_entry(s: Series, c: ChapterData, r: MangaWithChapter) -> bool {
    &&& r.manga.key == s.slug
    &&& r.manga.title == s.title
    &&& opt_string(r.manga.cover) == opt_site_url(opt_string(s.cover_url))
    &&& r.chapter.key == c.chapter_id
    &&& r.chapter.number == Some(c.chapter_number)
    &&& r.chapter.url is Some
    &&& r.chapter.url->0@ == chapter_url_spec(s.slug@, c.chapter_number@, c.chapter_id@)
    &&& r.chapter.title == (match c.title {
        Some(t) => if t@.len() > 0 {
            Some(t)
        } else {
            None
        },
        None => None,
    })
    &&& r.chapter.date_uploaded == (match c.created_at {
        Some(d) => match crate::dates::rfc3339_seconds(d@) {
            Some(t) => Some(t as i64),
            None => None,
        },
        None => None,
    })
    &&& r.chapter.volume is None
    &&& r.chapter.scanlators is None
    &&& r.chapter.language is None
    &&& r.manga.artists is None && r.manga.authors is None
    &&& r.manga.description is None
    &&& r.manga.url is None && r.manga.tags is None
    &&& r.manga.status == MangaStatus::Unknown
    &&& r.manga.content_rating == ContentRating::Unknown
    &&& r.manga.viewer == Viewer::Unknown
}

impl Series {
    /// The rating and tags the genres give, when the series lists any;
    /// otherwise the manga is left as it is.
    pub fn apply_genres(&self, manga: &mut Manga)
        ensures
            match self.genres {
                Some(g) => {
                    &&& final(manga).content_rating == genre_rating(views(g@))
                    &&& opt_strings(final(manga).tags) == Some(
                        views(g@).map_values(|x: Seq<char>| format_genre_spec(x)),
                    )
                },
                None => final(manga).content_rating == old(manga).content_rating
                    && final(manga).tags == old(manga).tags,
            },
            final(manga).key == old(manga).key,
            final(manga).title == old(manga).title,
            final(manga).cover == old(manga).cover,
            final(manga).artists == old(manga).artists,
            final(manga).authors == old(manga).authors,
            final(manga).description == old(manga).description,
            final(manga).url == old(manga).url,
            final(manga).status == old(manga).status,
            final(manga).viewer == old(manga).viewer,
    {
        match &self.genres {
            Some(g) => {
                manga.content_rating = genre_content_rating(g.as_slice());
                let tags = format_genres(g.as_slice());
                assert(tags@.map_values(|s: String| s@) == views(tags@));
                manga.tags = Some(tags);
            },
            None => {},
        }
    }

    /// A listing entry: key, title and cover.
    pub fn into_manga(self) -> (m: Manga)
        ensures
            listed_manga(self, m),
    {
        let mut m = Manga::new(self.slug, self.title);
        m.cover = opt_site_url_exec(self.cover_url);
        m
    }

    /// A featured entry: the banner stands in for the cover where there is
    /// one, and the description comes along.
    pub fn into_banner_manga(self) -> (m: Manga)
        ensures
            banner_manga(self, m),
    {
        let path = match self.banner_url {
            Some(b) => Some(b),
            None => self.cover_url,
        };
        let mut m = Manga::new(self.slug, self.title);
        m.cover = opt_site_url_exec(path);
        m.description = self.description;
        m
    }

    /// A release entry: the series with its latest chapter; nothing when it
    /// has none.
    pub fn into_manga_with_chapter(self) -> (r: Option<MangaWithChapter>)
        ensures
            match self.latest_chapter {
                Some(c) => r matches Some(x) && latest_entry(self, c, x),
                None => r is None,
            },
    {
        match self.latest_chapter {
            Some(c) => {
                let chapter = c.into_chapter(self.slug.as_str());
                let mut manga = Manga::new(self.slug, self.title);
                manga.cover = opt_site_url_exec(self.cover_url);
                Some(MangaWithChapter { manga, chapter })
            },
            None => None,
        }
    }

    /// Fills in a manga's details from the series: rating and tags from the
    /// genres, title, description, cover, page url, author and artist when
    /// not empty, status, and the webtoon reader.
    pub fn apply_details(self, manga: &mut Manga)
        ensures
            match self.genres {
                Some(g) => {
                    &&& final(manga).content_rating == genre_rating(views(g@))
                    &&& opt_strings(final(manga).tags) == Some(
                        views(g@).map_values(|x: Seq<char>| format_genre_spec(x)),
                    )
                },
                None => final(manga).content_rating == old(manga).content_rating
                    && final(manga).tags == old(manga).tags,
            },
            final(manga).key == old(manga).key,
            final(manga).title == self.title,
            final(manga).description == self.description,
            opt_string(final(manga).cover) == opt_site_url(opt_string(self.cover_url)),
            final(manga).url matches Some(u) && u@ == BASE_URL@ + "/series/"@ + self.slug@,
            opt_strings(final(manga).authors) == single_name(opt_string(self.author)),
            opt_strings(final(manga).artists) == single_name(opt_string(self.artist)),
            final(manga).status == status_spec(opt_string(self.publication_status)),
            final(manga).viewer == Viewer::Webtoon,
    {
        self.apply_genres(manga);
        let mut u = chars_of(BASE_URL);
        push_str(&mut u, "/series/");
        push_str(&mut u, self.slug.as_str());
        manga.status = parse_status(&self.publication_status);
        manga.title = self.title;
        manga.description = self.description;
        manga.cover = opt_site_url_exec(self.cover_url);
        manga.url = Some(string_of(u.as_slice()));
        manga.authors = single_name_exec(self.author);
        manga.artists = single_name_exec(self.artist);
        manga.viewer = Viewer::Webtoon;
    }
}

/// A component of the home screen: the featured series in a big scroller,
/// the popular series in a scroller, the latest releases as a list.
pub enum HomeComponent {
    Featured(Vec<Manga>),
    Popular(Vec<Manga>),
    Latest(Vec<MangaWithChapter>),
}

/// The series that have a latest chapter, in order.
pub open spec fn with_latest(ss: Seq<Series>) -> Seq<Series>
    decreases ss.len(),
{
    if ss.len() == 0 {
        Seq::empty()
    } else {
        let rest = with_latest(ss.drop_last());
        if ss.last().latest_chapter is Some {
            rest.push(ss.last())
        } else {
            rest
        }
    }
}

/// The featured entries are there when the banner answer came with series.
pub open spec fn has_featured(banner: Option<Vec<Series>>) -> bool {
    banner matches Some(b) && b@.len() > 0
}

/// How many components come before the popular series.
pub open spec fn featured_count(banner: Option<Vec<Series>>) -> int {
    if has_featured(banner) {
        1
    } else {
        0
    }
}

pub open spec fn has_popular(popular: Option<Vec<Series>>) -> bool {
    popular matches Some(p) && p@.len() > 0
}

pub open spec fn has_latest(latest: Option<Vec<Series>>) -> bool {
    latest matches Some(l) && with_latest(l@).len() > 0
}

fn banner_entries(series: Vec<Series>) -> (r: Vec<Manga>)
    ensures
        r@.len() == series@.len(),
        forall|i: int| 0 <= i < r@.len() ==> banner_manga(series@[i], #[trigger] r@[i]),
{
    let ghost all = series@;
    let n0: usize = series.len();
    let mut rest = series;
    let mut out: Vec<Manga> = Vec::new();
    let mut i: usize = 0;
    while rest.len() > 0
        invariant
            i <= all.len(),
            all.len() == n0 as int,
            rest@ == all.subrange(i as int, all.len() as int),
            out@.len() == i,
            forall|j: int| 0 <= j < i ==> banner_manga(all[j], #[trigger] out@[j]),
        decreases rest@.len(),
    {
        let s = rest.remove(0);
        assert(s == all[i as int]);
        out.push(s.into_banner_manga());
        i = i + 1;
    }
    out
}

fn listed_entries(series: Vec<Series>) -> (r: Vec<Manga>)
    ensures
        r@.len() == series@.len(),
        forall|i: int| 0 <= i < r@.len() ==> listed_manga(series@[i], #[trigger] r@[i]),
{
    let ghost all = series@;
    let n0: usize = series.len();
    let mut rest = series;
    let mut out: Vec<Manga> = Vec::new();
    let mut i: usize = 0;
    while rest.len() > 0
        invariant
            i <= all.len(),
            all.len() == n0 as int,
            rest@ == all.subrange(i as int, all.len() as int),
            out@.len() == i,
            forall|j: int| 0 <= j < i ==> listed_manga(all[j], #[trigger] out@[j]),
        decreases rest@.len(),
    {
        let s = rest.remove(0);
        assert(s == all[i as int]);
        out.push(s.into_manga());
        i = i + 1;
    }
    out
}

fn latest_entries(series: Vec<Series>) -> (r: Vec<MangaWithChapter>)
    ensures
        r@.len() == with_latest(series@).len(),
        forall|i: int| 0 <= i < r@.len() ==> {
            let s = #[trigger] with_latest(series@)[i];
            latest_entry(s, s.latest_chapter->0, r@[i])
        },
{
    let ghost all = series@;
    let n0: usize = series.len();
    let mut rest = series;
    let mut out: Vec<MangaWithChapter> = Vec::new();
    let mut i: usize = 0;
    assert(all.take(0) =~= Seq::<Series>::empty());
    while rest.len() > 0
        invariant
            i <= all.len(),
            all.len() == n0 as int,
            rest@ == all.subrange(i as int, all.len() as int),
            out@.len() == with_latest(all.take(i as int)).len(),
            forall|j: int| 0 <= j < out@.len() ==> {
                let s = #[trigger] with_latest(all.take(i as int))[j];
                latest_entry(s, s.latest_chapter->0, out@[j])
            },
        decreases rest@.len(),
    {
        let s = rest.remove(0);
        assert(s == all[i as int]);
        assert(all.take(i + 1).drop_last() =~= all.take(i as int));
        assert(all.take(i + 1).last() == all[i as int]);
        let ghost before = with_latest(all.take(i as int));
        let ghost sv = s;
        match s.into_manga_with_chapter() {
            Some(x) => {
                out.push(x);
                assert(with_latest(all.take(i + 1)) == before.push(sv));
                assert forall|j: int| 0 <= j < out@.len() implies {
                    let t = #[trigger] with_latest(all.take(i + 1))[j];
                    latest_entry(t, t.latest_chapter->0, out@[j])
                } by {
                    if j < before.len() {
                        assert(with_latest(all.take(i + 1))[j] == before[j]);
                    }
                }
            },
            None => {
                assert(with_latest(all.take(i + 1)) == before);
            },
        }
        i = i + 1;
    }
    assert(all.take(all.len() as int) =~= all);
    out
}

/// The home screen's components, in order: the featured series, the
/// popular series and the latest releases, each from its answer (none when
/// the request failed), and each only when it has entries. Only series with
/// a latest chapter make a release.
pub fn home_components(
    banner: Option<Vec<Series>>,
    popular: Option<Vec<Series>>,
    latest: Option<Vec<Series>>,
) -> (r: Vec<HomeComponent>)
    ensures
        r@.len() == featured_count(banner) + (if has_popular(popular) {
            1int
        } else {
            0
        }) + (if has_latest(latest) { 1int } else { 0 }),
        has_featured(banner) ==> (r@[0] matches HomeComponent::Featured(ms) && {
            let b = banner->0@;
            &&& ms@.len() == b.len()
            &&& forall|i: int| 0 <= i < ms@.len() ==> banner_manga(b[i], #[trigger] ms@[i])
        }),
        has_popular(popular) ==> (r@[featured_count(banner)] matches HomeComponent::Popular(ms) && {
            let p = popular->0@;
            &&& ms@.len() == p.len()
            &&& forall|i: int| 0 <= i < ms@.len() ==> listed_manga(p[i], #[trigger] ms@[i])
        }),
        has_latest(latest) ==> (r@[r@.len() - 1] matches HomeComponent::Latest(ms) && {
            let l = with_latest(latest->0@);
            &&& ms@.len() == l.len()
            &&& forall|i: int| 0 <= i < ms@.len() ==> latest_entry(l[i], l[i].latest_chapter->0, #[trigger] ms@[i])
        }),
{
    let mut out: Vec<HomeComponent> = Vec::new();
    match banner {
        Some(b) => {
            if b.len() > 0 {
                out.push(HomeComponent::Featured(banner_entries(b)));
            }
        },
        None => {},
    }
    let ghost n1 = out@.len();
    match popular {
        Some(p) => {
            if p.len() > 0 {
                out.push(HomeComponent::Popular(listed_entries(p)));
            }
        },
        None => {},
    }
    match latest {
        Some(l) => {
            let entries = latest_entries(l);
            if entries.len() > 0 {
                out.push(HomeComponent::Latest(entries));
            }
        },
        None => {},
    }
    out
}

pub open spec fn chapter_url_spec(slug: Seq<char>, number: Seq<char>, id: Seq<char>) -> Seq<char> {
    BASE_URL@ + "/series/"@ + slug + "/ch-"@ + number + "#"@ + id
}

impl ChapterData {
    /// The chapter as the app shows it. The number is kept as the text the
    /// api gives, which the app reads as a number; the upload date is the
    /// creation time when it is an RFC 3339 date.
    pub fn into_chapter(self, slug: &str) -> (c: Chapter)
        ensures
            c.key == self.chapter_id,
            c.title == (match self.title {
                Some(t) => if t@.len() > 0 {
                    Some(t)
                } else {
                    None
                },
                None => None,
            }),
            c.number == Some(self.chapter_number),
            c.date_uploaded == (match self.created_at {
                Some(d) => match crate::dates::rfc3339_seconds(d@) {
                    Some(t) => Some(t as i64),
                    None => None,
                },
                None => None,
            }),
            c.url matches Some(u) && u@ == chapter_url_spec(slug@, self.chapter_number@, self.chapter_id@),
            c.scanlators is None && c.language is None && c.volume is None,
    {
        let mut u = chars_of(BASE_URL);
        push_str(&mut u, "/series/");
        push_str(&mut u, slug);
        push_str(&mut u, "/ch-");
        push_str(&mut u, self.chapter_number.as_str());
        push_str(&mut u, "#");
        push_str(&mut u, self.chapter_id.as_str());
        let date = match &self.created_at {
            Some(d) => crate::dates::parse_rfc3339(d.as_str()),
            None => None,
        };
        let title = match self.title {
            Some(t) => if t.as_str().is_empty() {
                None
            } else {
                Some(t)
            },
            None => None,
        };
        let mut c = Chapter::new(self.chapter_id);
        c.title = title;
        c.number = Some(self.chapter_number);
        c.date_uploaded = date;
        c.url = Some(string_of(u.as_slice()));
        c
    }
}

/// The chapters of a series, newest first as the api lists them oldest
/// first.
pub fn chapter_list(chapters: Vec<ChapterData>, slug: &str) -> (r: Vec<Chapter>)
    ensures
        r@.len() == chapters@.len(),
        forall|i: int|
            0 <= i < r@.len() ==> (#[trigger] r@[i]).key == chapters@[chapters@.len() - 1 - i].chapter_id
                && r@[i].number == Some(chapters@[chapters@.len() - 1 - i].chapter_number),
{
    let ghost orig = chapters@;
    let mut rest = chapters;
    let mut out: Vec<Chapter> = Vec::new();
    while rest.len() > 0
        invariant
            rest@ == orig.subrange(0, orig.len() - out@.len()),
            out@.len() <= orig.len(),
            forall|i: int|
                0 <= i < out@.len() ==> (#[trigger] out@[i]).key == orig[orig.len() - 1 - i].chapter_id
                    && out@[i].number == Some(orig[orig.len() - 1 - i].chapter_number),
        decreases rest@.len(),
    {
        let c = rest.pop().unwrap();
        out.push(c.into_chapter(slug));
    }
    out
}

/// The image urls of a chapter: its pages, or its images where the api
/// gives no pages.
pub fn page_urls(pages: Option<Vec<String>>, images: Option<Vec<String>>) -> (r: Vec<String>)
    ensures
        views(r@) == (match pages {
            Some(p) => views(p@),
            None => match images {
                Some(i) => views(i@),
                None => Seq::empty(),
            },
        }).map_values(|p: Seq<char>| site_url(p)),
{
    let list = match pages {
        Some(p) => p,
        None => match images {
            Some(i) => i,
            None => Vec::new(),
        },
    };
    let mut out: Vec<String> = Vec::new();
    let mut i: usize = 0;
    while i < list.len()
        invariant
            i <= list@.len(),
            out@.len() == i,
            forall|j: int| 0 <= j < i ==> (#[trigger] out@[j])@ == site_url(list@[j]@),
        decreases list@.len() - i,
    {
        out.push(site_url_exec(list[i].as_str()));
        i = i + 1;
    }
    assert(views(out@) =~= views(list@).map_values(|p: Seq<char>| site_url(p)));
    out
}

// ---------------------------------------------------------------------------
// Urls and deep links
// ---------------------------------------------------------------------------

/// The query part one filter value adds to a search: a non-empty status as
/// it is, non-empty included genres joined by commas.
pub open spec fn filter_part(f: FilterValue) -> Seq<char> {
    match f {
        FilterValue::Select { id, value } => if id@ == "status"@ && value@.len() > 0 {
            "&status="@ + value@
        } else {
            Seq::empty()
        },
        FilterValue::MultiSelect { id, included, .. } => if id@ == "genres"@ && included@.len() > 0 {
            "&genres="@ + join(views(included@), ","@)
        } else {
            Seq::empty()
        },
        _ => Seq::empty(),
    }
}

pub open spec fn filters_part(fs: Seq<FilterValue>) -> Seq<char>
    decreases fs.len(),
{
    if fs.len() == 0 {
        Seq::empty()
    } else {
        filters_part(fs.drop_last()) + filter_part(fs.last())
    }
}

pub open spec fn search_url_spec(query: Option<Seq<char>>, page: int, filters: Seq<FilterValue>) -> Seq<char> {
    API_URL@ + "/series?page="@ + dec_int(page) + "&limit=24&contentType=manhwa"@ + (match query {
        Some(q) => "&search="@ + encode_component(q),
        None => Seq::empty(),
    }) + filters_part(filters)
}

/// A search of the series api: the page, the term, then the status and
/// genre filters.
pub fn search_url(query: Option<&str>, page: i32, filters: &[FilterValue]) -> (r: String)
    ensures
        r@ == search_url_spec(crate::atsumaru::opt_view(query), page as int, filters@),
{
    let mut u = chars_of(API_URL);
    push_str(&mut u, "/series?page=");
    let d = dec_i64(page as i64);
    u.extend_from_slice(d.as_slice());
    push_str(&mut u, "&limit=24&contentType=manhwa");
    match query {
        Some(q) => {
            push_str(&mut u, "&search=");
            let e = encode_uri_component(q);
            push_str(&mut u, e.as_str());
        },
        None => {},
    }
    let ghost start = u@;
    let mut i: usize = 0;
    assert(filters@.subrange(0, 0) =~= Seq::<FilterValue>::empty());
    while i < filters.len()
        invariant
            i <= filters@.len(),
            u@ == start + filters_part(filters@.subrange(0, i as int)),
        decreases filters@.len() - i,
    {
        let ghost before = u@;
        assert(filters@.subrange(0, i + 1).drop_last() =~= filters@.subrange(0, i as int));
        match &filters[i] {
            FilterValue::Select { id, value } => {
                if str_eq(id.as_str(), "status") && !value.as_str().is_empty() {
                    push_str(&mut u, "&status=");
                    push_str(&mut u, value.as_str());
                }
            },
            FilterValue::MultiSelect { id, included, .. } => {
                if str_eq(id.as_str(), "genres") && included.len() > 0 {
                    push_str(&mut u, "&genres=");
                    let j = join_strings(included.as_slice(), ",");
                    push_str(&mut u, j.as_str());
                }
            },
            _ => {},
        }
        assert(u@ =~= before + filter_part(filters@[i as int]));
        i = i + 1;
    }
    assert(filters@.subrange(0, filters@.len() as int) =~= filters@);
    string_of(u.as_slice())
}

pub open spec fn listing_url_spec(id: Seq<char>, page: int) -> Option<Seq<char>> {
    if id == "popular"@ {
        Some(API_URL@ + "/series/popular?page="@ + dec_int(page) + "&period=week&contentType=manhwa&limit=24"@)
    } else if id == "latest"@ {
        Some(API_URL@ + "/series?page="@ + dec_int(page) + "&limit=24&contentType=manhwa"@)
    } else {
        None
    }
}

/// The url of a listing's page; nothing for a listing the source doesn't
/// have.
pub fn listing_url(id: &str, page: i32) -> (r: Option<String>)
    ensures
        opt_string(r) == listing_url_spec(id@, page as int),
{
    let d = dec_i64(page as i64);
    if str_eq(id, "popular") {
        let mut u = chars_of(API_URL);
        push_str(&mut u, "/series/popular?page=");
        u.extend_from_slice(d.as_slice());
        push_str(&mut u, "&period=week&contentType=manhwa&limit=24");
        Some(string_of(u.as_slice()))
    } else if str_eq(id, "latest") {
        let mut u = chars_of(API_URL);
        push_str(&mut u, "/series?page=");
        u.extend_from_slice(d.as_slice());
        push_str(&mut u, "&limit=24&contentType=manhwa");
        Some(string_of(u.as_slice()))
    } else {
        None
    }
}

pub open spec fn deep_link_spec(url: Seq<char>) -> Option<DeepLink> {
    let path = match strip_prefix(url, BASE_URL@) {
        Some(p) => p,
        None => url,
    };
    match strip_prefix(path, "/series/"@) {
        Some(rest) => Some(DeepLink::Manga(before_char(rest, '/'))),
        None => None,
    }
}

/// A series page, `/series/<slug>` on the site (or the path alone), with
/// anything after a further `/`, leads to that series, keyed by its slug.
pub proof fn lemma_series_links(slug: Seq<char>, tail: Seq<char>)
    requires
        forall|j: int| 0 <= j < slug.len() ==> slug[j] != '/',
        tail.len() == 0 || tail[0] == '/',
    ensures
        deep_link_spec(BASE_URL@ + "/series/"@ + slug + tail) == Some(DeepLink::Manga(slug)),
        deep_link_spec("/series/"@ + slug + tail) == Some(DeepLink::Manga(slug)),
{
    reveal_strlit("/series/");
    let p = "/series/"@ + slug + tail;
    let u = BASE_URL@ + p;
    assert(u =~= BASE_URL@ + "/series/"@ + slug + tail);
    assert(u.subrange(0, BASE_URL@.len() as int) =~= BASE_URL@);
    assert(u.subrange(BASE_URL@.len() as int, u.len() as int) =~= p);
    assert(p.subrange(0, 8) =~= "/series/"@);
    let rest = slug + tail;
    assert(p.subrange(8, p.len() as int) =~= rest);
    crate::text::lemma_split_first(rest, '/', slug.len() as int);
    assert(rest.subrange(0, slug.len() as int) =~= slug);
    assert(!crate::text::starts_with(p, BASE_URL@)) by {
        reveal_strlit("https://stonescape.xyz");
        if crate::text::starts_with(p, BASE_URL@) {
            assert(p.subrange(0, BASE_URL@.len() as int)[0] == p[0]);
        }
    }
}

/// A chapter's page sits under its series' page, so a link to it leads to
/// the series.
pub proof fn lemma_chapter_pages_lead_to_series(slug: Seq<char>, number: Seq<char>, id: Seq<char>)
    requires
        forall|j: int| 0 <= j < slug.len() ==> slug[j] != '/',
    ensures
        deep_link_spec(chapter_url_spec(slug, number, id)) == Some(DeepLink::Manga(slug)),
{
    reveal_strlit("/ch-");
    reveal_strlit("#");
    let tail = "/ch-"@ + number + "#"@ + id;
    assert(tail[0] == '/');
    lemma_series_links(slug, tail);
    assert(chapter_url_spec(slug, number, id) =~= BASE_URL@ + "/series/"@ + slug + tail);
}

/// With no term and no filters, a search asks for the same page as the
/// latest listing.
pub proof fn lemma_unfiltered_search_is_latest(page: int)
    ensures
        listing_url_spec("latest"@, page) == Some(search_url_spec(None, page, Seq::empty())),
{
    reveal_strlit("latest");
    reveal_strlit("popular");
    assert("latest"@ != "popular"@) by {
        assert("latest"@.len() != "popular"@.len());
    }
    assert(search_url_spec(None, page, Seq::empty()) =~= API_URL@ + "/series?page="@ + dec_int(page)
        + "&limit=24&contentType=manhwa"@);
}

/// Series pages lead to their series, keyed by the slug.
pub fn handle_deep_link(url: &str) -> (r: Option<DeepLinkResult>)
    ensures
        link_view(r) == deep_link_spec(url@),
{
    let u = chars_of(url);
    let path = match strip_prefix_exec(u.as_slice(), BASE_URL) {
        Some(p) => p,
        None => u,
    };
    match strip_prefix_exec(path.as_slice(), "/series/") {
        Some(rest) => {
            let slug = before_char_exec(rest.as_slice(), '/');
            Some(DeepLinkResult::Manga { key: string_of(slug.as_slice()) })
        },
        None => None,
    }
}

} // verus!
