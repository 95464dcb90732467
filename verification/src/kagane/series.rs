//! Kagane's api records as the app shows them: search results, series
//! details and chapters, and the page urls a license challenge unlocks.
use vstd::prelude::*;
use crate::kagane::helpers::{build_chapter_name, chapter_name_spec, parse_date, status_from_str, status_spec, timestamp_spec};
use crate::model::{Chapter, ContentRating, Manga, MangaStatus, Viewer, opt_string, opt_strings};
use crate::text::{ascii_lower, ascii_lower_exec, chars_of, contains, dec, dec_int, push_slice, push_str, str_eq, string_of, trim, trim_exec, views};

verus! {

pub const BASE_URL: &'static str = "https://kagane.org";

pub const API_URL: &'static str = "https://yuzuki.kagane.org";

// ---------------------------------------------------------------------------
// Records
// ---------------------------------------------------------------------------

pub struct SearchBook {
    pub series_id: String,
    pub title: String,
    pub cover_image_id: Option<String>,
}

pub struct SeriesStaff {
    pub name: String,
    pub role: String,
}

pub struct GenreItem {
    pub genre_name: String,
}

pub struct AlternateTitle {
    pub title: String,
}

pub struct GroupDto {
    pub title: String,
}

/// A book of a series; its sort number is kept as the decimal text the app
/// reads it from.
pub struct BookDto {
    pub book_id: String,
    pub title: String,
    pub created_at: Option<String>,
    pub sort_no: String,
    pub chapter_no: Option<String>,
    pub volume_no: Option<String>,
    pub groups: Vec<GroupDto>,
}

pub struct DetailsDto {
    pub title: String,
    pub description: Option<String>,
    pub upload_status: String,
    pub format: Option<String>,
    pub source_id: Option<String>,
    pub series_staff: Vec<SeriesStaff>,
    pub genres: Vec<GenreItem>,
    pub series_alternate_titles: Vec<AlternateTitle>,
    pub series_books: Vec<BookDto>,
    pub edition_info: Option<String>,
}

pub struct PageDto {
    pub page_number: i32,
    pub page_uuid: String,
}

pub struct ChallengeDto {
    pub access_token: String,
    pub cache_url: String,
    pub pages: Vec<PageDto>,
}

pub struct IntegrityDto {
    pub token: String,
    pub exp: i64,
}

/// The pages a challenge reply lists: its own, or where it lists none,
/// those of its manifest.
pub fn challenge_pages(pages: Vec<PageDto>, manifest: Option<Vec<PageDto>>) -> (r: Vec<PageDto>)
    ensures
        r@ == (if pages@.len() > 0 {
            pages@
        } else {
            match manifest {
                Some(m) => m@,
                None => Seq::empty(),
            }
        }),
{
    if pages.len() > 0 {
        pages
    } else {
        match manifest {
            Some(m) => m,
            None => Vec::new(),
        }
    }
}

// ---------------------------------------------------------------------------
// Search
// ---------------------------------------------------------------------------

pub open spec fn search_url_spec(page: int, sort: Seq<char>) -> Seq<char> {
    API_URL@ + "/api/v2/search/series?page="@ + dec_int(page - 1) + "&size=35"@ + (if sort.len() > 0 {
        "&sort="@ + sort
    } else {
        Seq::empty()
    })
}

/// The search endpoint's url for a page, which the api counts from zero.
pub fn search_url(page: i32, sort: &str) -> (r: String)
    requires
        page > i32::MIN,
    ensures
        r@ == search_url_spec(page as int, sort@),
{
    let mut v = chars_of(API_URL);
    push_str(&mut v, "/api/v2/search/series?page=");
    let d = crate::text::dec_i64((page - 1) as i64);
    v.extend_from_slice(d.as_slice());
    push_str(&mut v, "&size=35");
    if !sort.is_empty() {
        push_str(&mut v, "&sort=");
        push_str(&mut v, sort);
    }
    string_of(v.as_slice())
}

pub open spec fn image_url(id: Seq<char>) -> Seq<char> {
    API_URL@ + "/api/v2/image/"@ + id
}

pub open spec fn series_url(id: Seq<char>) -> Seq<char> {
    BASE_URL@ + "/series/"@ + id
}

impl SearchBook {
    /// A search result: keyed by its series, with its cover image and page.
    pub fn into_manga(self) -> (m: Manga)
        ensures
            m.key == self.series_id,
            m.title == self.title,
            opt_string(m.cover) == (match self.cover_image_id {
                Some(id) => Some(image_url(id@)),
                None => None,
            }),
            m.url matches Some(u) && u@ == series_url(self.series_id@),
            m.artists is None && m.authors is None && m.description is None && m.tags is None,
            m.status == MangaStatus::Unknown,
            m.content_rating == ContentRating::Unknown,
            m.viewer == Viewer::Unknown,
    {
        let cover = match &self.cover_image_id {
            Some(id) => {
                let mut v = chars_of(API_URL);
                push_str(&mut v, "/api/v2/image/");
                push_str(&mut v, id.as_str());
                Some(string_of(v.as_slice()))
            },
            None => None,
        };
        let mut u = chars_of(BASE_URL);
        push_str(&mut u, "/series/");
        push_str(&mut u, self.series_id.as_str());
        let mut m = Manga::new(self.series_id, self.title);
        m.cover = cover;
        m.url = Some(string_of(u.as_slice()));
        m
    }
}

// ---------------------------------------------------------------------------
// Details
// ---------------------------------------------------------------------------

pub open spec fn nonempty(o: Option<String>) -> Option<Seq<char>> {
    match o {
        Some(s) if s@.len() > 0 => Some(s@),
        _ => None,
    }
}

/// A series' title, with its edition and source appended when the user
/// asks for them and the series has them.
pub open spec fn title_spec(dto: DetailsDto, show_edition: bool, show_source: bool) -> Seq<char> {
    let t = trim(dto.title@);
    let t2 = match nonempty(dto.edition_info) {
        Some(e) if show_edition => t + " ("@ + e + ")"@,
        _ => t,
    };
    match nonempty(dto.source_id) {
        Some(s) if show_source => t2 + " ["@ + s + "]"@,
        _ => t2,
    }
}

pub open spec fn is_author_role(role: Seq<char>) -> bool {
    contains(ascii_lower(role), "author"@) || contains(ascii_lower(role), "story"@)
}

pub open spec fn is_artist_role(role: Seq<char>) -> bool {
    contains(ascii_lower(role), "artist"@) || contains(ascii_lower(role), "art"@)
}

/// The names of the staff whose role passes `pick`, in order.
pub open spec fn staff_names(staff: Seq<SeriesStaff>, authors: bool) -> Seq<Seq<char>>
    decreases staff.len(),
{
    if staff.len() == 0 {
        Seq::empty()
    } else {
        let before = staff_names(staff.drop_last(), authors);
        let r = staff.last().role@;
        if (authors && is_author_role(r)) || (!authors && is_artist_role(r)) {
            before.push(staff.last().name@)
        } else {
            before
        }
    }
}

pub open spec fn nonempty_list(v: Seq<Seq<char>>) -> Option<Seq<Seq<char>>> {
    if v.len() > 0 {
        Some(v)
    } else {
        None
    }
}

/// The tags: the format when there is one, then the genres.
pub open spec fn tags_spec(dto: DetailsDto) -> Seq<Seq<char>> {
    (match nonempty(dto.format) {
        Some(f) => seq![f],
        None => Seq::empty(),
    }) + dto.genres@.map_values(|g: GenreItem| g.genre_name@)
}

pub open spec fn alt_names(alts: Seq<AlternateTitle>) -> Seq<char>
    decreases alts.len(),
{
    if alts.len() == 0 {
        "Associated Names:\n"@
    } else {
        alt_names(alts.drop_last()) + "- "@ + alts.last().title@ + "\n"@
    }
}

/// The description: the synopsis trimmed, then the associated names.
pub open spec fn description_spec(dto: DetailsDto) -> Seq<char> {
    let d = match nonempty(dto.description) {
        Some(d) => trim(d),
        None => Seq::empty(),
    };
    if dto.series_alternate_titles@.len() > 0 {
        (if d.len() > 0 {
            d + "\n\n"@
        } else {
            d
        }) + alt_names(dto.series_alternate_titles@)
    } else {
        d
    }
}

fn role_matches(role: &str, authors: bool) -> (r: bool)
    ensures
        r == ((authors && is_author_role(role@)) || (!authors && is_artist_role(role@))),
{
    let l = ascii_lower_exec(chars_of(role).as_slice());
    if authors {
        crate::text::contains_lit(l.as_slice(), "author") || crate::text::contains_lit(l.as_slice(), "story")
    } else {
        crate::text::contains_lit(l.as_slice(), "artist") || crate::text::contains_lit(l.as_slice(), "art")
    }
}

fn staff_names_exec(staff: &Vec<SeriesStaff>, authors: bool) -> (r: Vec<String>)
    ensures
        views(r@) == staff_names(staff@, authors),
{
    let mut out: Vec<String> = Vec::new();
    let mut i: usize = 0;
    assert(staff@.take(0) =~= Seq::<SeriesStaff>::empty());
    while i < staff.len()
        invariant
            i <= staff@.len(),
            views(out@) == staff_names(staff@.take(i as int), authors),
        decreases staff@.len() - i,
    {
        assert(staff@.take(i + 1).drop_last() =~= staff@.take(i as int));
        assert(staff@.take(i + 1).last() == staff@[i as int]);
        if role_matches(staff[i].role.as_str(), authors) {
            let ghost before = views(out@);
            out.push(string_of(chars_of(staff[i].name.as_str()).as_slice()));
            assert(views(out@) =~= before.push(staff@[i as int].name@));
        }
        i = i + 1;
    }
    assert(staff@.take(staff@.len() as int) =~= staff@);
    out
}

fn opt_list(v: Vec<String>) -> (r: Option<Vec<String>>)
    ensures
        opt_strings(r) == nonempty_list(views(v@)),
{
    if v.len() > 0 {
        assert(v@.map_values(|s: String| s@) == views(v@));
        Some(v)
    } else {
        None
    }
}

/// Fills in a manga's details from a series record: title, status,
/// authors and artists by their roles, tags and description, each list left
/// unset when empty.
pub fn apply_details(manga: &mut Manga, dto: &DetailsDto, show_edition: bool, show_source: bool)
    ensures
        final(manga).title@ == title_spec(*dto, show_edition, show_source),
        final(manga).status == status_spec(dto.upload_status@),
        opt_strings(final(manga).authors) == (match nonempty_list(staff_names(dto.series_staff@, true)) {
            Some(a) => Some(a),
            None => opt_strings(old(manga).authors),
        }),
        opt_strings(final(manga).artists) == (match nonempty_list(staff_names(dto.series_staff@, false)) {
            Some(a) => Some(a),
            None => opt_strings(old(manga).artists),
        }),
        opt_strings(final(manga).tags) == (match nonempty_list(tags_spec(*dto)) {
            Some(t) => Some(t),
            None => opt_strings(old(manga).tags),
        }),
        opt_string(final(manga).description) == (if description_spec(*dto).len() > 0 {
            Some(description_spec(*dto))
        } else {
            opt_string(old(manga).description)
        }),
        final(manga).key == old(manga).key,
        final(manga).cover == old(manga).cover,
        final(manga).url == old(manga).url,
        final(manga).content_rating == old(manga).content_rating,
        final(manga).viewer == old(manga).viewer,
{
    let mut title = trim_exec(chars_of(dto.title.as_str()).as_slice());
    let ghost t0 = title@;
    if show_edition {
        match &dto.edition_info {
            Some(e) => if !e.as_str().is_empty() {
                push_str(&mut title, " (");
                push_str(&mut title, e.as_str());
                push_str(&mut title, ")");
            },
            None => {},
        }
    }
    let ghost t2 = match nonempty(dto.edition_info) {
        Some(e) if show_edition => t0 + " ("@ + e + ")"@,
        _ => t0,
    };
    assert(title@ =~= t2);
    if show_source {
        match &dto.source_id {
            Some(s) => if !s.as_str().is_empty() {
                push_str(&mut title, " [");
                push_str(&mut title, s.as_str());
                push_str(&mut title, "]");
            },
            None => {},
        }
    }
    assert(title@ =~= title_spec(*dto, show_edition, show_source));
    manga.title = string_of(title.as_slice());
    manga.status = status_from_str(dto.upload_status.as_str());
    let authors = staff_names_exec(&dto.series_staff, true);
    if authors.len() > 0 {
        manga.authors = opt_list(authors);
    }
    let artists = staff_names_exec(&dto.series_staff, false);
    if artists.len() > 0 {
        manga.artists = opt_list(artists);
    }
    let mut tags: Vec<String> = Vec::new();
    match &dto.format {
        Some(f) => if !f.as_str().is_empty() {
            tags.push(string_of(chars_of(f.as_str()).as_slice()));
        },
        None => {},
    }
    let ghost head = views(tags@);
    let mut g: usize = 0;
    while g < dto.genres.len()
        invariant
            g <= dto.genres@.len(),
            views(tags@) == head + dto.genres@.take(g as int).map_values(|x: GenreItem| x.genre_name@),
        decreases dto.genres@.len() - g,
    {
        let ghost before = views(tags@);
        tags.push(string_of(chars_of(dto.genres[g].genre_name.as_str()).as_slice()));
        assert(dto.genres@.take(g + 1).map_values(|x: GenreItem| x.genre_name@) =~= dto.genres@.take(
            g as int,
        ).map_values(|x: GenreItem| x.genre_name@).push(dto.genres@[g as int].genre_name@));
        assert(views(tags@) =~= before.push(dto.genres@[g as int].genre_name@));
        g = g + 1;
    }
    assert(dto.genres@.take(dto.genres@.len() as int) =~= dto.genres@);
    assert(views(tags@) =~= tags_spec(*dto));
    if tags.len() > 0 {
        manga.tags = opt_list(tags);
    }
    let mut desc: Vec<char> = Vec::new();
    match &dto.description {
        Some(d) => if !d.as_str().is_empty() {
            desc = trim_exec(chars_of(d.as_str()).as_slice());
        },
        None => {},
    }
    let ghost d0 = desc@;
    let alts = &dto.series_alternate_titles;
    if alts.len() > 0 {
        if desc.len() > 0 {
            push_str(&mut desc, "\n\n");
        }
        let ghost head2 = desc@;
        push_str(&mut desc, "Associated Names:\n");
        let mut i: usize = 0;
        assert(alts@.take(0) =~= Seq::<AlternateTitle>::empty());
        while i < alts.len()
            invariant
                i <= alts@.len(),
                desc@ == head2 + alt_names(alts@.take(i as int)),
            decreases alts@.len() - i,
        {
            assert(alts@.take(i + 1).drop_last() =~= alts@.take(i as int));
            assert(alts@.take(i + 1).last() == alts@[i as int]);
            push_str(&mut desc, "- ");
            push_str(&mut desc, alts[i].title.as_str());
            push_str(&mut desc, "\n");
            i = i + 1;
        }
        assert(alts@.take(alts@.len() as int) =~= alts@);
    }
    assert(desc@ =~= description_spec(*dto));
    if desc.len() > 0 {
        manga.description = Some(string_of(desc.as_slice()));
    }
}

// ---------------------------------------------------------------------------
// Chapters
// ---------------------------------------------------------------------------

/// The formats whose books are numbered by their sort number.
pub open spec fn uses_source_number(format: Option<Seq<char>>) -> bool {
    match format {
        Some(f) => f == "Dark Horse Comics"@ || f == "Flame Comics"@ || f == "MangaDex"@ || f
            == "Square Enix Manga"@,
        None => false,
    }
}

/// Books of Dark Horse Comics, Flame Comics, MangaDex and Square Enix
/// Manga are numbered by their source's number; other books, and those of
/// no known format, are not.
pub proof fn lemma_source_numbering(format: Seq<char>)
    ensures
        format == "Dark Horse Comics"@ || format == "Flame Comics"@ || format == "MangaDex"@ || format
            == "Square Enix Manga"@ <==> uses_source_number(Some(format)),
        !uses_source_number(None),
{
}

/// Staff credited with a role naming an author or the story write the
/// series; staff whose role names an artist or art draw it, in any case.
pub proof fn lemma_staff_roles(role: Seq<char>)
    ensures
        contains(ascii_lower(role), "author"@) || contains(ascii_lower(role), "story"@)
            <==> is_author_role(role),
        contains(ascii_lower(role), "artist"@) || contains(ascii_lower(role), "art"@)
            <==> is_artist_role(role),
        ascii_lower(role) == "story & art"@ ==> is_author_role(role) && is_artist_role(role),
{
    reveal_strlit("story & art");
    reveal_strlit("story");
    reveal_strlit("art");
    let l = ascii_lower(role);
    if l == "story & art"@ {
        assert(l.subrange(0, 5) =~= "story"@);
        assert(crate::text::occurs_at(l, "story"@, 0));
        assert(l.subrange(8, 11) =~= "art"@);
        assert(crate::text::occurs_at(l, "art"@, 8));
    }
}

pub open spec fn chapter_key_spec(manga_key: Seq<char>, book_id: Seq<char>) -> Seq<char> {
    "/series/"@ + manga_key + "/reader/"@ + book_id
}

/// The chapter a book stands for, in a chapter title mode.
pub open spec fn book_chapter_matches(c: Chapter, book: BookDto, manga_key: Seq<char>, mode: Seq<char>, source_number: bool) -> bool {
    let name = chapter_name_spec(book.title@, opt_string(book.chapter_no), opt_string(book.volume_no), mode);
    &&& c.key@ == chapter_key_spec(manga_key, book.book_id@)
    &&& opt_string(c.title) == (if name.len() > 0 {
        Some(name)
    } else {
        None
    })
    &&& opt_string(c.number) == (if source_number {
        Some(book.sort_no@)
    } else {
        opt_string(book.chapter_no)
    })
    &&& opt_string(c.volume) == opt_string(book.volume_no)
    &&& c.date_uploaded == (match book.created_at {
        Some(d) => Some(timestamp_spec(d@) as i64),
        None => None,
    })
    &&& opt_strings(c.scanlators) == nonempty_list(book.groups@.map_values(|g: GroupDto| g.title@))
    &&& c.url is Some && c.url->0@ == BASE_URL@ + chapter_key_spec(manga_key, book.book_id@)
}

fn copy_opt(o: &Option<String>) -> (r: Option<String>)
    ensures
        opt_string(r) == opt_string(*o),
{
    match o {
        Some(s) => Some(string_of(chars_of(s.as_str()).as_slice())),
        None => None,
    }
}

fn as_opt_str(o: &Option<String>) -> (r: Option<&str>)
    ensures
        crate::atsumaru::opt_view(r) == opt_string(*o),
{
    match o {
        Some(s) => Some(s.as_str()),
        None => None,
    }
}

fn book_chapter(book: &BookDto, manga_key: &str, mode: &str, source_number: bool) -> (c: Chapter)
    ensures
        book_chapter_matches(c, *book, manga_key@, mode@, source_number),
{
    let mut k = chars_of("/series/");
    push_str(&mut k, manga_key);
    push_str(&mut k, "/reader/");
    push_str(&mut k, book.book_id.as_str());
    assert(k@ =~= chapter_key_spec(manga_key@, book.book_id@));
    let key = string_of(k.as_slice());
    let mut u = chars_of(BASE_URL);
    u.extend_from_slice(k.as_slice());
    let title = build_chapter_name(
        book.title.as_str(),
        as_opt_str(&book.chapter_no),
        as_opt_str(&book.volume_no),
        mode,
    );
    let mut groups: Vec<String> = Vec::new();
    let mut i: usize = 0;
    while i < book.groups.len()
        invariant
            i <= book.groups@.len(),
            views(groups@) == book.groups@.take(i as int).map_values(|g: GroupDto| g.title@),
        decreases book.groups@.len() - i,
    {
        let ghost before = views(groups@);
        groups.push(string_of(chars_of(book.groups[i].title.as_str()).as_slice()));
        assert(book.groups@.take(i + 1).map_values(|g: GroupDto| g.title@) =~= book.groups@.take(
            i as int,
        ).map_values(|g: GroupDto| g.title@).push(book.groups@[i as int].title@));
        assert(views(groups@) =~= before.push(book.groups@[i as int].title@));
        i = i + 1;
    }
    assert(book.groups@.take(book.groups@.len() as int) =~= book.groups@);
    let mut c = Chapter::new(key);
    c.title = if title.as_str().is_empty() {
        None
    } else {
        Some(title)
    };
    c.number = if source_number {
        Some(string_of(chars_of(book.sort_no.as_str()).as_slice()))
    } else {
        copy_opt(&book.chapter_no)
    };
    c.volume = copy_opt(&book.volume_no);
    c.date_uploaded = match &book.created_at {
        Some(d) => Some(parse_date(d.as_str())),
        None => None,
    };
    c.scanlators = opt_list(groups);
    c.url = Some(string_of(u.as_slice()));
    let ghost name = chapter_name_spec(book.title@, opt_string(book.chapter_no), opt_string(book.volume_no), mode@);
    assert(c.key@ == chapter_key_spec(manga_key@, book.book_id@));
    assert(opt_string(c.title) == (if name.len() > 0 { Some(name) } else { None::<Seq<char>> }));
    assert(opt_string(c.volume) == opt_string(book.volume_no));
    assert(c.date_uploaded == (match book.created_at {
        Some(d) => Some(timestamp_spec(d@) as i64),
        None => None,
    }));
    assert(opt_strings(c.scanlators) == nonempty_list(book.groups@.map_values(|g: GroupDto| g.title@)));
    assert(c.url->0@ == BASE_URL@ + chapter_key_spec(manga_key@, book.book_id@));
    c
}

/// The chapters of a series, newest first as the api lists its books
/// oldest first.
pub fn chapters(manga_key: &str, dto: &DetailsDto, mode: &str) -> (r: Vec<Chapter>)
    ensures
        r@.len() == dto.series_books@.len(),
        forall|i: int|
            0 <= i < r@.len() ==> book_chapter_matches(
                #[trigger] r@[i],
                dto.series_books@[dto.series_books@.len() - 1 - i],
                manga_key@,
                mode@,
                uses_source_number(opt_string(dto.format)),
            ),
{
    let source_number = match &dto.format {
        Some(f) => {
            let f = f.as_str();
            str_eq(f, "Dark Horse Comics") || str_eq(f, "Flame Comics") || str_eq(f, "MangaDex") || str_eq(
                f,
                "Square Enix Manga",
            )
        },
        None => false,
    };
    let books = &dto.series_books;
    let n = books.len();
    let mut out: Vec<Chapter> = Vec::new();
    let mut i: usize = 0;
    while i < n
        invariant
            n == books@.len(),
            i <= n,
            out@.len() == i,
            forall|j: int|
                0 <= j < i ==> book_chapter_matches(
                    #[trigger] out@[j],
                    books@[n - 1 - j],
                    manga_key@,
                    mode@,
                    source_number,
                ),
        decreases n - i,
    {
        out.push(book_chapter(&books[n - 1 - i], manga_key, mode, source_number));
        i = i + 1;
    }
    out
}

// ---------------------------------------------------------------------------
// Pages
// ---------------------------------------------------------------------------

/// The pages inserted one by one, each after every page numbered no later:
/// ordered by number, pages of equal number in the order given.
pub open spec fn insert_page(sorted: Seq<PageDto>, p: PageDto) -> Seq<PageDto>
    decreases sorted.len(),
{
    if sorted.len() == 0 || sorted.last().page_number <= p.page_number {
        sorted.push(p)
    } else {
        insert_page(sorted.drop_last(), p).push(sorted.last())
    }
}

pub open spec fn sort_pages(ps: Seq<PageDto>) -> Seq<PageDto>
    decreases ps.len(),
{
    if ps.len() == 0 {
        ps
    } else {
        insert_page(sort_pages(ps.drop_last()), ps.last())
    }
}

pub open spec fn page_url_spec(cache_url: Seq<char>, chapter_id: Seq<char>, uuid: Seq<char>, token: Seq<char>, data_saver: bool) -> Seq<char> {
    cache_url + "/api/v2/books/file/"@ + chapter_id + "/"@ + uuid + "?token="@ + token + "&is_datasaver="@ + (if data_saver {
        "true"@
    } else {
        "false"@
    })
}

/// Why a challenge reply can't be read.
#[derive(Debug, Clone, Copy, PartialEq, Eq, Structural)]
pub enum ChallengeError {
    /// No access token or no cache url.
    InvalidAccess,
    /// No pages.
    NoPages,
    /// A page without an id.
    InvalidPage,
}

impl ChallengeError {
    pub fn message(&self) -> (r: &'static str)
        ensures
            r@ == (match self {
                ChallengeError::InvalidAccess => "Invalid chapter access data"@,
                ChallengeError::NoPages => "No pages found for this chapter"@,
                ChallengeError::InvalidPage => "Invalid chapter page data"@,
            }),
    {
        match self {
            ChallengeError::InvalidAccess => "Invalid chapter access data",
            ChallengeError::NoPages => "No pages found for this chapter",
            ChallengeError::InvalidPage => "Invalid chapter page data",
        }
    }
}

pub open spec fn pages_spec(chapter_id: Seq<char>, dto: ChallengeDto, data_saver: bool) -> Result<Seq<Seq<char>>, ChallengeError> {
    if dto.access_token@.len() == 0 || dto.cache_url@.len() == 0 {
        Err(ChallengeError::InvalidAccess)
    } else if dto.pages@.len() == 0 {
        Err(ChallengeError::NoPages)
    } else if exists|i: int| 0 <= i < dto.pages@.len() && (#[trigger] dto.pages@[i]).page_uuid@.len() == 0 {
        Err(ChallengeError::InvalidPage)
    } else {
        Ok(
            sort_pages(dto.pages@).map_values(
                |p: PageDto| page_url_spec(dto.cache_url@, chapter_id, p.page_uuid@, dto.access_token@, data_saver),
            ),
        )
    }
}

pub open spec fn urls_view(r: Result<Vec<String>, ChallengeError>) -> Result<Seq<Seq<char>>, ChallengeError> {
    match r {
        Ok(v) => Ok(views(v@)),
        Err(e) => Err(e),
    }
}

proof fn lemma_insert_keeps(sorted: Seq<PageDto>, p: PageDto)
    ensures
        insert_page(sorted, p).to_multiset() == sorted.to_multiset().insert(p),
        insert_page(sorted, p).len() == sorted.len() + 1,
    decreases sorted.len(),
{
    broadcast use vstd::seq_lib::group_to_multiset_ensures;
    if sorted.len() == 0 || sorted.last().page_number <= p.page_number {
    } else {
        lemma_insert_keeps(sorted.drop_last(), p);
        assert(sorted =~= sorted.drop_last().push(sorted.last()));
    }
}

proof fn lemma_filter_push(s: Seq<PageDto>, x: PageDto, n: i32)
    ensures
        s.push(x).filter(|p: PageDto| p.page_number == n) == s.filter(|p: PageDto| p.page_number == n) + (if x.page_number == n {
            seq![x]
        } else {
            Seq::empty()
        }),
{
    let t = s.push(x);
    assert(t.drop_last() =~= s);
    assert(t.last() == x);
    reveal_with_fuel(Seq::<_>::filter, 1);
}

proof fn lemma_insert_stable(s: Seq<PageDto>, x: PageDto, n: i32)
    ensures
        insert_page(s, x).filter(|p: PageDto| p.page_number == n) == s.filter(|p: PageDto| p.page_number == n) + (if x.page_number == n {
            seq![x]
        } else {
            Seq::empty()
        }),
    decreases s.len(),
{
    if s.len() == 0 || s.last().page_number <= x.page_number {
        lemma_filter_push(s, x, n);
    } else {
        let d = s.drop_last();
        lemma_insert_stable(d, x, n);
        lemma_filter_push(insert_page(d, x), s.last(), n);
        lemma_filter_push(d, s.last(), n);
        assert(d.push(s.last()) =~= s);
        if x.page_number == n {
            assert(s.last().page_number != n);
        }
        let f = d.filter(|p: PageDto| p.page_number == n);
        let a = if x.page_number == n { seq![x] } else { Seq::<PageDto>::empty() };
        let b = if s.last().page_number == n { seq![s.last()] } else { Seq::<PageDto>::empty() };
        assert(a.len() == 0 || b.len() == 0);
        assert(f + a + b =~= f + b + a);
    }
}

/// Sorting is stable: the pages that share a number come out in the order
/// they were given.
pub proof fn lemma_sort_pages_stable(ps: Seq<PageDto>, n: i32)
    ensures
        sort_pages(ps).filter(|p: PageDto| p.page_number == n) == ps.filter(|p: PageDto| p.page_number == n),
    decreases ps.len(),
{
    if ps.len() > 0 {
        let d = ps.drop_last();
        lemma_sort_pages_stable(d, n);
        lemma_insert_stable(sort_pages(d), ps.last(), n);
        lemma_filter_push(d, ps.last(), n);
        assert(d.push(ps.last()) =~= ps);
    }
}

/// Sorting keeps every page, as often as it was given.
pub proof fn lemma_sort_pages_permutes(ps: Seq<PageDto>)
    ensures
        sort_pages(ps).to_multiset() == ps.to_multiset(),
        sort_pages(ps).len() == ps.len(),
    decreases ps.len(),
{
    broadcast use vstd::seq_lib::group_to_multiset_ensures;
    if ps.len() > 0 {
        lemma_sort_pages_permutes(ps.drop_last());
        lemma_insert_keeps(sort_pages(ps.drop_last()), ps.last());
        assert(ps =~= ps.drop_last().push(ps.last()));
    }
}

pub open spec fn is_sorted(ps: Seq<PageDto>) -> bool {
    forall|i: int, j: int| 0 <= i < j < ps.len() ==> ps[i].page_number <= ps[j].page_number
}

proof fn lemma_insert_sorted(sorted: Seq<PageDto>, p: PageDto)
    requires
        is_sorted(sorted),
    ensures
        is_sorted(insert_page(sorted, p)),
        forall|i: int| 0 <= i < insert_page(sorted, p).len() ==> (#[trigger] insert_page(sorted, p)[i]) == p
            || sorted.contains(insert_page(sorted, p)[i]),
    decreases sorted.len(),
{
    if sorted.len() == 0 || sorted.last().page_number <= p.page_number {
        assert forall|i: int| 0 <= i < sorted.push(p).len() implies (#[trigger] sorted.push(p)[i]) == p
            || sorted.contains(sorted.push(p)[i]) by {
            if i < sorted.len() {
                assert(sorted.push(p)[i] == sorted[i]);
            }
        }
    } else {
        let d = sorted.drop_last();
        lemma_insert_sorted(d, p);
        let ins = insert_page(d, p);
        let r = ins.push(sorted.last());
        assert forall|i: int| 0 <= i < r.len() implies (#[trigger] r[i]) == p || sorted.contains(r[i]) by {
            if i < ins.len() {
                assert(r[i] == ins[i]);
                if ins[i] != p {
                    let k = choose|k: int| 0 <= k < d.len() && d[k] == ins[i];
                    assert(sorted[k] == d[k]);
                }
            } else {
                assert(sorted[sorted.len() - 1] == sorted.last());
            }
        }
        assert forall|i: int, j: int| 0 <= i < j < r.len() implies r[i].page_number <= r[j].page_number by {
            if j == r.len() - 1 {
                assert(r[j] == sorted.last());
                if i < ins.len() {
                    assert(r[i] == ins[i]);
                    if ins[i] == p {
                    } else {
                        let k = choose|k: int| 0 <= k < d.len() && d[k] == ins[i];
                        assert(sorted[k] == d[k]);
                    }
                }
            } else {
                assert(r[i] == ins[i]);
                assert(r[j] == ins[j]);
            }
        }
    }
}

/// The pages come out ordered by page number.
pub proof fn lemma_sort_pages_sorted(ps: Seq<PageDto>)
    ensures
        is_sorted(sort_pages(ps)),
    decreases ps.len(),
{
    if ps.len() > 0 {
        lemma_sort_pages_sorted(ps.drop_last());
        lemma_insert_sorted(sort_pages(ps.drop_last()), ps.last());
    }
}

fn insert_page_exec(sorted: &mut Vec<PageDto>, p: PageDto)
    ensures
        final(sorted)@ == insert_page(old(sorted)@, p),
    decreases old(sorted)@.len(),
{
    if sorted.len() == 0 || sorted[sorted.len() - 1].page_number <= p.page_number {
        sorted.push(p);
    } else {
        let last = sorted.pop().unwrap();
        insert_page_exec(sorted, p);
        sorted.push(last);
    }
}

/// The page urls a challenge reply unlocks, ordered by page number; an
/// error when the reply has no access data or no pages, or a page has no
/// id.
pub fn pages_from_challenge(chapter_id: &str, dto: ChallengeDto, data_saver: bool) -> (r: Result<Vec<String>, ChallengeError>)
    ensures
        urls_view(r) == pages_spec(chapter_id@, dto, data_saver),
{
    if dto.access_token.as_str().is_empty() || dto.cache_url.as_str().is_empty() {
        return Err(ChallengeError::InvalidAccess);
    }
    if dto.pages.len() == 0 {
        return Err(ChallengeError::NoPages);
    }
    let ghost orig = dto.pages@;
    let ghost d = dto;
    let ChallengeDto { access_token, cache_url, pages } = dto;
    let mut k: usize = 0;
    while k < pages.len()
        invariant
            k <= pages@.len(),
            pages@ == orig,
            d.pages@ == orig,
            d == dto,
            orig.len() > 0,
            d.access_token@.len() > 0,
            d.cache_url@.len() > 0,
            forall|j: int| 0 <= j < k ==> (#[trigger] orig[j]).page_uuid@.len() > 0,
        decreases pages@.len() - k,
    {
        if pages[k].page_uuid.as_str().is_empty() {
            assert(d.pages@[k as int].page_uuid@.len() == 0);
            assert(urls_view(Err(ChallengeError::InvalidPage)) == pages_spec(chapter_id@, d, data_saver));
            return Err(ChallengeError::InvalidPage);
        }
        k = k + 1;
    }
    let mut sorted: Vec<PageDto> = Vec::new();
    let mut rest = pages;
    let mut i: usize = 0;
    let n = rest.len();
    assert(orig.take(0) =~= Seq::<PageDto>::empty());
    while rest.len() > 0
        invariant
            n == orig.len(),
            i + rest@.len() == n,
            rest@ == orig.subrange(i as int, n as int),
            sorted@ == sort_pages(orig.take(i as int)),
        decreases rest@.len(),
    {
        let p = rest.remove(0);
        assert(orig.take(i + 1).drop_last() =~= orig.take(i as int));
        assert(orig.take(i + 1).last() == p);
        insert_page_exec(&mut sorted, p);
        assert(rest@ =~= orig.subrange(i + 1, n as int));
        i = i + 1;
    }
    assert(orig.take(n as int) =~= orig);
    let saver = if data_saver {
        "true"
    } else {
        "false"
    };
    let mut urls: Vec<String> = Vec::new();
    let mut j: usize = 0;
    while j < sorted.len()
        invariant
            j <= sorted@.len(),
            urls@.len() == j,
            forall|t: int|
                0 <= t < j ==> (#[trigger] urls@[t])@ == page_url_spec(
                    cache_url@,
                    chapter_id@,
                    sorted@[t].page_uuid@,
                    access_token@,
                    data_saver,
                ),
            saver@ == (if data_saver {
                "true"@
            } else {
                "false"@
            }),
        decreases sorted@.len() - j,
    {
        let mut u = chars_of(cache_url.as_str());
        push_str(&mut u, "/api/v2/books/file/");
        push_str(&mut u, chapter_id);
        push_str(&mut u, "/");
        push_str(&mut u, sorted[j].page_uuid.as_str());
        push_str(&mut u, "?token=");
        push_str(&mut u, access_token.as_str());
        push_str(&mut u, "&is_datasaver=");
        push_str(&mut u, saver);
        urls.push(string_of(u.as_slice()));
        j = j + 1;
    }
    assert(views(urls@) =~= sort_pages(orig).map_values(
        |p: PageDto| page_url_spec(cache_url@, chapter_id@, p.page_uuid@, access_token@, data_saver),
    ));
    Ok(urls)
}

/// The id of a chapter: the last segment of its key, when not empty.
pub open spec fn chapter_id_spec(k: Seq<char>) -> Option<Seq<char>> {
    let last = match crate::text::char_before(k, '/', k.len() as int) {
        Some(j) => k.subrange(j + 1, k.len() as int),
        None => k,
    };
    if last.len() > 0 {
        Some(last)
    } else {
        None
    }
}

/// A chapter's key gives back the id of the book it was made from.
pub proof fn lemma_chapter_ids(manga_key: Seq<char>, book_id: Seq<char>)
    requires
        book_id.len() > 0,
        forall|j: int| 0 <= j < book_id.len() ==> book_id[j] != '/',
    ensures
        chapter_id_spec(chapter_key_spec(manga_key, book_id)) == Some(book_id),
{
    reveal_strlit("/reader/");
    let k = chapter_key_spec(manga_key, book_id);
    let i = k.len() - book_id.len() - 1;
    assert(k[i] == '/');
    assert forall|j: int| i < j < k.len() implies k[j] != '/' by {
        assert(k[j] == book_id[j - i - 1]);
    }
    crate::text::lemma_char_before_last(k, '/', k.len() as int, i);
    assert(k.subrange(i + 1, k.len() as int) =~= book_id);
}

pub fn chapter_id(key: &str) -> (r: Option<String>)
    ensures
        opt_string(r) == chapter_id_spec(key@),
{
    let k = chars_of(key);
    let last = match crate::text::char_before_exec(k.as_slice(), '/', k.len()) {
        Some(j) => {
            proof {
                crate::text::lemma_char_before(k@, '/', k@.len() as int);
            }
            crate::text::slice_to_vec(k.as_slice(), j + 1, k.len())
        },
        None => k,
    };
    if last.len() > 0 {
        Some(string_of(last.as_slice()))
    } else {
        None
    }
}

/// The url a chapter's license challenge is posted to.
pub fn challenge_url(chapter_id: &str, data_saver: bool) -> (r: String)
    ensures
        r@ == API_URL@ + "/api/v2/books/"@ + chapter_id@ + "?is_datasaver="@ + (if data_saver {
            "true"@
        } else {
            "false"@
        }),
{
    let mut u = chars_of(API_URL);
    push_str(&mut u, "/api/v2/books/");
    push_str(&mut u, chapter_id);
    push_str(&mut u, "?is_datasaver=");
    if data_saver {
        push_str(&mut u, "true");
    } else {
        push_str(&mut u, "false");
    }
    string_of(u.as_slice())
}

/// The body a challenge is posted in.
pub fn challenge_body(challenge: &str) -> (r: String)
    ensures
        r@ == "{\"challenge\":\""@ + challenge@ + "\"}"@,
{
    let mut b = chars_of("{\"challenge\":\"");
    push_str(&mut b, challenge);
    push_str(&mut b, "\"}");
    string_of(b.as_slice())
}

/// The integrity token kept from before, while it hasn't expired: its
/// expiry is stored as decimal text.
pub fn cached_token(now: i64, exp: Option<&str>, token: Option<String>) -> (r: Option<String>)
    ensures
        r == (if now < (match exp {
            Some(e) => match crate::text::parse_i64(e@) {
                Some(x) => x as int,
                None => 0,
            },
            None => 0,
        }) && (token matches Some(t) && t@.len() > 0) {
            token
        } else {
            None
        }),
{
    let cached_exp: i64 = match exp {
        Some(e) => match crate::text::parse_i64_exec(chars_of(e).as_slice()) {
            Some(x) => x,
            None => 0,
        },
        None => 0,
    };
    if now < cached_exp {
        match token {
            Some(t) => if t.as_str().is_empty() {
                None
            } else {
                Some(t)
            },
            None => None,
        }
    } else {
        None
    }
}

} // verus!
