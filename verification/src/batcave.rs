//! BatCave (batcave.biz): search and listing urls, entries and details,
//! chapters and pages from the data its pages embed, the verification
//! cookie, and deep links.
use vstd::prelude::*;
use crate::model::{Chapter, ContentRating, DeepLink, DeepLinkResult, FilterValue, Manga, MangaStatus, Viewer, link_view, opt_string, opt_strings};
use crate::text::{
    all_digits, chars_of, contains, find, is_ascii_alphanumeric, is_first_occurrence, occurs_at, join, push_str, starts_with, str_eq,
    string_of, strip_prefix, strip_prefix_exec, strip_suffix, strip_suffix_exec, trim, trim_exec, views,
};
use crate::url::encode_component;

verus! {

pub const BASE_URL: &'static str = "https://batcave.biz";

pub const REFERER: &'static str = "https://batcave.biz/";

pub const VERIFY_KEY: &'static str = "verify";

pub const TRUST_COOKIE_KEY: &'static str = "__guard_trust";

// ---------------------------------------------------------------------------
// Search
// ---------------------------------------------------------------------------

/// The path parts one filter value adds to a browse url: a year range's
/// bounds, as the app writes them, and the included genres.
pub open spec fn filter_parts(f: FilterValue) -> Seq<Seq<char>> {
    match f {
        FilterValue::Range { from, to, .. } => (match from {
            Some(b) => seq!["y[from]="@ + b.text@],
            None => Seq::empty(),
        }) + (match to {
            Some(b) => seq!["y[to]="@ + b.text@],
            None => Seq::empty(),
        }),
        FilterValue::MultiSelect { included, .. } => seq!["g="@ + join(views(included@), ","@)],
        _ => Seq::empty(),
    }
}

pub open spec fn filters_parts(fs: Seq<FilterValue>) -> Seq<Seq<char>>
    decreases fs.len(),
{
    if fs.len() == 0 {
        Seq::empty()
    } else {
        filters_parts(fs.drop_last()) + filter_parts(fs.last())
    }
}

pub open spec fn search_url_spec(query: Option<Seq<char>>, page: int, filters: Seq<FilterValue>) -> Seq<char> {
    match query {
        Some(q) => BASE_URL@ + "/search/"@ + encode_component(q) + "/page/"@ + crate::text::dec_int(page) + "/"@,
        None => {
            let parts = filters_parts(filters);
            if parts.len() > 0 {
                BASE_URL@ + "/ComicList/"@ + join(parts, "/"@) + "/page/"@ + crate::text::dec_int(page) + "/"@
            } else {
                BASE_URL@ + "/comix/"@ + (if page > 1 {
                    "page/"@ + crate::text::dec_int(page) + "/"@
                } else {
                    Seq::empty()
                })
            }
        },
    }
}

fn push_part(parts: &mut Vec<String>, prefix: &str, value: &str)
    ensures
        views(final(parts)@) == views(old(parts)@).push(prefix@ + value@),
{
    let mut v = chars_of(prefix);
    push_str(&mut v, value);
    let ghost before = views(parts@);
    parts.push(string_of(v.as_slice()));
    assert(views(parts@) =~= before.push(prefix@ + value@));
}

/// A search: by the term when there is one; otherwise a browse by year
/// range and genres, or the plain list when no filter is set.
pub fn search_url(query: Option<&str>, page: i32, filters: &[FilterValue]) -> (r: String)
    ensures
        r@ == search_url_spec(crate::atsumaru::opt_view(query), page as int, filters@),
{
    let p = crate::text::i32_to_string(page);
    match query {
        Some(q) => {
            let mut u = chars_of(BASE_URL);
            push_str(&mut u, "/search/");
            push_str(&mut u, crate::url::encode_uri_component(q).as_str());
            push_str(&mut u, "/page/");
            push_str(&mut u, p.as_str());
            push_str(&mut u, "/");
            string_of(u.as_slice())
        },
        None => {
            let mut parts: Vec<String> = Vec::new();
            let mut i: usize = 0;
            assert(filters@.take(0) =~= Seq::<FilterValue>::empty());
            while i < filters.len()
                invariant
                    i <= filters@.len(),
                    views(parts@) == filters_parts(filters@.take(i as int)),
                decreases filters@.len() - i,
            {
                assert(filters@.take(i + 1).drop_last() =~= filters@.take(i as int));
                let ghost before = views(parts@);
                match &filters[i] {
                    FilterValue::Range { from, to, .. } => {
                        match from {
                            Some(b) => push_part(&mut parts, "y[from]=", b.text.as_str()),
                            None => {},
                        }
                        match to {
                            Some(b) => push_part(&mut parts, "y[to]=", b.text.as_str()),
                            None => {},
                        }
                    },
                    FilterValue::MultiSelect { included, .. } => {
                        let j = crate::text::join_strings(included.as_slice(), ",");
                        push_part(&mut parts, "g=", j.as_str());
                    },
                    _ => {},
                }
                assert(views(parts@) =~= before + filter_parts(filters@[i as int]));
                i = i + 1;
            }
            assert(filters@.take(filters@.len() as int) =~= filters@);
            if parts.len() > 0 {
                let mut u = chars_of(BASE_URL);
                push_str(&mut u, "/ComicList/");
                push_str(&mut u, crate::text::join_strings(parts.as_slice(), "/").as_str());
                push_str(&mut u, "/page/");
                push_str(&mut u, p.as_str());
                push_str(&mut u, "/");
                string_of(u.as_slice())
            } else {
                let mut u = chars_of(BASE_URL);
                push_str(&mut u, "/comix/");
                if page > 1 {
                    push_str(&mut u, "page/");
                    push_str(&mut u, p.as_str());
                    push_str(&mut u, "/");
                }
                string_of(u.as_slice())
            }
        },
    }
}

/// A listed entry: keyed by its url's path on the site; nothing when the
/// url is elsewhere.
pub fn entry(url: String, title: String, cover: Option<String>) -> (r: Option<Manga>)
    ensures
        match strip_prefix(url@, BASE_URL@) {
            Some(key) => r is Some && r->0.key@ == key && r->0.title == title && r->0.cover == cover
                && r->0.url == Some(url) && r->0.authors is None && r->0.tags is None
                && r->0.description is None && r->0.artists is None
                && r->0.status == MangaStatus::Unknown && r->0.content_rating == ContentRating::Unknown
                && r->0.viewer == Viewer::Unknown,
            None => r is None,
        },
{
    let u = chars_of(url.as_str());
    match strip_prefix_exec(u.as_slice(), BASE_URL) {
        Some(key) => {
            let mut m = Manga::new(string_of(key.as_slice()), title);
            m.cover = cover;
            m.url = Some(url);
            Some(m)
        },
        None => None,
    }
}

// ---------------------------------------------------------------------------
// Home
// ---------------------------------------------------------------------------

/// An entry of a home section as read off the page: its link, its title
/// and its cover.
pub struct HomeItem {
    pub url: Option<String>,
    pub title: String,
    pub cover: Option<String>,
}

/// A section of the home page: its heading and its entries.
pub struct HomeSection {
    pub title: Option<String>,
    pub items: Vec<HomeItem>,
}

/// How a home component shows its entries.
#[derive(Debug, Clone, Copy, PartialEq, Eq, Structural)]
pub enum HomeKind {
    Scroller,
    List,
}

/// A component of the home screen.
pub struct HomeComponent {
    pub title: Option<String>,
    pub kind: HomeKind,
    pub entries: Vec<Manga>,
}

/// What an entry shows: key, title, cover and page.
pub type EntryView = (Seq<char>, Seq<char>, Option<Seq<char>>, Seq<char>);

/// The entry an item on the site gives; none for a link elsewhere.
pub open spec fn item_entry(it: HomeItem) -> Option<EntryView> {
    match it.url {
        Some(u) => match strip_prefix(u@, BASE_URL@) {
            Some(k) => Some((k, it.title@, opt_string(it.cover), u@)),
            None => None,
        },
        None => None,
    }
}

/// The entries of a section's items, in order, those linking elsewhere left
/// out.
pub open spec fn section_entries(items: Seq<HomeItem>) -> Seq<EntryView>
    decreases items.len(),
{
    if items.len() == 0 {
        Seq::empty()
    } else {
        let rest = section_entries(items.drop_last());
        match item_entry(items.last()) {
            Some(e) => rest.push(e),
            None => rest,
        }
    }
}

/// What a manga entry shows.
pub open spec fn entry_view(m: Manga) -> EntryView {
    (m.key@, m.title@, opt_string(m.cover), match m.url {
        Some(u) => u@,
        None => Seq::empty(),
    })
}

/// An entry knows nothing but its key, title, cover and page.
pub open spec fn plain_entry(m: Manga) -> bool {
    &&& m.url is Some
    &&& m.artists is None && m.authors is None && m.description is None && m.tags is None
    &&& m.status == MangaStatus::Unknown
    &&& m.content_rating == ContentRating::Unknown
    &&& m.viewer == Viewer::Unknown
}

/// What a component shows: its title, how, and its entries.
pub type ComponentView = (Option<Seq<char>>, HomeKind, Seq<EntryView>);

pub open spec fn component_view(c: HomeComponent) -> ComponentView {
    (opt_string(c.title), c.kind, c.entries@.map_values(|m: Manga| entry_view(m)))
}

pub open spec fn plain_entries(c: HomeComponent) -> bool {
    forall|i: int| 0 <= i < c.entries@.len() ==> plain_entry(#[trigger] c.entries@[i])
}

fn copy_opt(o: &Option<String>) -> (r: Option<String>)
    ensures
        opt_string(r) == opt_string(*o),
{
    match o {
        Some(s) => Some(string_of(chars_of(s.as_str()).as_slice())),
        None => None,
    }
}

fn section_entries_exec(items: &Vec<HomeItem>) -> (r: Vec<Manga>)
    ensures
        r@.map_values(|m: Manga| entry_view(m)) == section_entries(items@),
        forall|i: int| 0 <= i < r@.len() ==> plain_entry(#[trigger] r@[i]),
{
    let mut out: Vec<Manga> = Vec::new();
    let mut i: usize = 0;
    assert(items@.take(0) =~= Seq::<HomeItem>::empty());
    while i < items.len()
        invariant
            i <= items@.len(),
            out@.map_values(|m: Manga| entry_view(m)) == section_entries(items@.take(i as int)),
            forall|j: int| 0 <= j < out@.len() ==> plain_entry(#[trigger] out@[j]),
        decreases items@.len() - i,
    {
        assert(items@.take(i + 1).drop_last() =~= items@.take(i as int));
        assert(items@.take(i + 1).last() == items@[i as int]);
        let it = &items[i];
        match &it.url {
            Some(u) => {
                let url = string_of(chars_of(u.as_str()).as_slice());
                let title = string_of(chars_of(it.title.as_str()).as_slice());
                match entry(url, title, copy_opt(&it.cover)) {
                    Some(m) => {
                        let ghost before = out@;
                        out.push(m);
                        assert(out@.map_values(|m: Manga| entry_view(m)) =~= before.map_values(
                            |m: Manga| entry_view(m),
                        ).push(entry_view(m)));
                    },
                    None => {},
                }
            },
            None => {},
        }
        i = i + 1;
    }
    assert(items@.take(items@.len() as int) =~= items@);
    out
}

/// A section shown as a scroller, when it has entries on the site.
pub open spec fn scroller_spec(sec: HomeSection) -> Seq<ComponentView> {
    if section_entries(sec.items@).len() > 0 {
        seq![(opt_string(sec.title), HomeKind::Scroller, section_entries(sec.items@))]
    } else {
        Seq::empty()
    }
}

/// A side block shown as a list, with whatever entries it has.
pub open spec fn list_spec(sec: HomeSection) -> Seq<ComponentView> {
    seq![(opt_string(sec.title), HomeKind::List, section_entries(sec.items@))]
}

pub open spec fn opt_section(sec: Option<HomeSection>, f: spec_fn(HomeSection) -> Seq<ComponentView>) -> Seq<ComponentView> {
    match sec {
        Some(s) => f(s),
        None => Seq::empty(),
    }
}

/// The home screen's components, in order: the hot releases and the series
/// worth starting as scrollers, each only when it has entries, then the
/// two side blocks (the site's second and third) as lists, each when the
/// page has it.
pub open spec fn home_spec(
    hot: HomeSection,
    worth: Option<HomeSection>,
    side_second: Option<HomeSection>,
    side_third: Option<HomeSection>,
) -> Seq<ComponentView> {
    scroller_spec(hot) + opt_section(worth, |s: HomeSection| scroller_spec(s)) + opt_section(
        side_second,
        |s: HomeSection| list_spec(s),
    ) + opt_section(side_third, |s: HomeSection| list_spec(s))
}

fn push_component(out: &mut Vec<HomeComponent>, sec: &HomeSection, kind: HomeKind)
    ensures
        final(out)@.map_values(|c: HomeComponent| component_view(c)) == old(out)@.map_values(
            |c: HomeComponent| component_view(c),
        ) + (if kind == HomeKind::Scroller {
            scroller_spec(*sec)
        } else {
            list_spec(*sec)
        }),
        forall|i: int| 0 <= i < old(out)@.len() ==> final(out)@[i] == old(out)@[i],
        forall|i: int| old(out)@.len() <= i < final(out)@.len() ==> plain_entries(#[trigger] final(out)@[i]),
{
    let entries = section_entries_exec(&sec.items);
    if kind == HomeKind::Scroller && entries.len() == 0 {
        assert(section_entries(sec.items@).len() == 0);
        assert(old(out)@.map_values(|c: HomeComponent| component_view(c)) + Seq::<ComponentView>::empty()
            =~= old(out)@.map_values(|c: HomeComponent| component_view(c)));
        return;
    }
    let c = HomeComponent { title: copy_opt(&sec.title), kind, entries };
    let ghost before = out@;
    out.push(c);
    assert(c.entries@.map_values(|m: Manga| entry_view(m)) == section_entries(sec.items@));
    assert(out@.map_values(|c: HomeComponent| component_view(c)) =~= before.map_values(
        |c: HomeComponent| component_view(c),
    ).push(component_view(c)));
}

/// The components of the home screen, as [`home_spec`] orders them.
pub fn home_components(
    hot: &HomeSection,
    worth: &Option<HomeSection>,
    side_second: &Option<HomeSection>,
    side_third: &Option<HomeSection>,
) -> (r: Vec<HomeComponent>)
    ensures
        r@.map_values(|c: HomeComponent| component_view(c)) == home_spec(
            *hot,
            *worth,
            *side_second,
            *side_third,
        ),
        forall|i: int| 0 <= i < r@.len() ==> plain_entries(#[trigger] r@[i]),
{
    let mut out: Vec<HomeComponent> = Vec::new();
    push_component(&mut out, hot, HomeKind::Scroller);
    match worth {
        Some(s) => push_component(&mut out, s, HomeKind::Scroller),
        None => {},
    }
    match side_second {
        Some(s) => push_component(&mut out, s, HomeKind::List),
        None => {},
    }
    match side_third {
        Some(s) => push_component(&mut out, s, HomeKind::List),
        None => {},
    }
    assert(out@.map_values(|c: HomeComponent| component_view(c)) =~= home_spec(
        *hot,
        *worth,
        *side_second,
        *side_third,
    ));
    out
}

/// Whether a listing has a next page: the paginator's last child is a link.
pub fn has_next_page(last_child_tag: Option<&str>) -> (r: bool)
    ensures
        r == (last_child_tag matches Some(t) && t@ == "a"@),
{
    match last_child_tag {
        Some(t) => str_eq(t, "a"),
        None => false,
    }
}

// ---------------------------------------------------------------------------
// Details
// ---------------------------------------------------------------------------

/// The name a labelled detail line gives, as a one-name list: the line
/// without its label.
pub fn labelled_name(line: Option<String>, label: &str) -> (r: Option<Vec<String>>)
    ensures
        opt_strings(r) == (match line {
            Some(l) => match strip_prefix(l@, label@) {
                Some(n) => Some(seq![n]),
                None => None,
            },
            None => None,
        }),
{
    match line {
        Some(l) => match strip_prefix_exec(chars_of(l.as_str()).as_slice(), label) {
            Some(n) => {
                let s = string_of(n.as_slice());
                let ghost sv = s@;
                let v = vec![s];
                assert(v@.map_values(|x: String| x@) =~= seq![sv]);
                Some(v)
            },
            None => None,
        },
        None => None,
    }
}

pub open spec fn status_spec(line: Seq<char>) -> MangaStatus {
    let v = match strip_prefix(line, "Release type: "@) {
        Some(x) => x,
        None => Seq::empty(),
    };
    if v == "Completed"@ || v == "Complete"@ {
        MangaStatus::Completed
    } else if v == "Ongoing"@ {
        MangaStatus::Ongoing
    } else {
        MangaStatus::Unknown
    }
}

/// The release type line names the status after its label: "Completed" or
/// "Complete" is completed, "Ongoing" is ongoing, anything else (or a line
/// without the label) unknown.
pub proof fn lemma_status_names(v: Seq<char>)
    ensures
        v == "Completed"@ || v == "Complete"@ ==> status_spec("Release type: "@ + v) == MangaStatus::Completed,
        v == "Ongoing"@ ==> status_spec("Release type: "@ + v) == MangaStatus::Ongoing,
        v != "Completed"@ && v != "Complete"@ && v != "Ongoing"@ ==> status_spec("Release type: "@ + v)
            == MangaStatus::Unknown,
{
    reveal_strlit("Release type: ");
    reveal_strlit("Completed");
    reveal_strlit("Complete");
    reveal_strlit("Ongoing");
    let line = "Release type: "@ + v;
    assert(line.subrange(0, 14) =~= "Release type: "@);
    assert(line.subrange(14, line.len() as int) =~= v);
    assert("Ongoing"@.len() == 7 && "Completed"@.len() == 9 && "Complete"@.len() == 8);
}

/// The status the release type line gives.
pub fn parse_status(line: &str) -> (r: MangaStatus)
    ensures
        r == status_spec(line@),
{
    let v = match strip_prefix_exec(chars_of(line).as_slice(), "Release type: ") {
        Some(x) => string_of(x.as_slice()),
        None => String::new(),
    };
    let v = v.as_str();
    if str_eq(v, "Completed") || str_eq(v, "Complete") {
        MangaStatus::Completed
    } else if str_eq(v, "Ongoing") {
        MangaStatus::Ongoing
    } else {
        MangaStatus::Unknown
    }
}

// ---------------------------------------------------------------------------
// Chapters and pages
// ---------------------------------------------------------------------------

/// The json a page's data script holds: the script without its
/// `window.__DATA__ = ` opening and closing `;`.
pub open spec fn data_json_spec(script: Seq<char>) -> Option<Seq<char>> {
    match strip_prefix(script, "window.__DATA__ = "@) {
        Some(x) => strip_suffix(x, ";"@),
        None => None,
    }
}

pub fn data_json(script: &str) -> (r: Option<String>)
    ensures
        opt_string(r) == data_json_spec(script@),
{
    match strip_prefix_exec(chars_of(script).as_slice(), "window.__DATA__ = ") {
        Some(x) => match strip_suffix_exec(x.as_slice(), ";") {
            Some(y) => Some(string_of(y.as_slice())),
            None => None,
        },
        None => None,
    }
}

/// A chapter of the chapter list.
pub struct SingleChapter {
    pub date: String,
    pub id: i32,
    pub title: String,
}

pub open spec fn chapter_title_spec(title: Seq<char>, manga_title: Seq<char>) -> Seq<char> {
    match strip_prefix(title, manga_title) {
        Some(rest) => trim(rest),
        None => title,
    }
}

/// The number's text in a chapter title: what follows its first `#`.
pub open spec fn number_text_spec(title: Seq<char>) -> Option<Seq<char>> {
    match find(title, "#"@) {
        Some(i) => Some(title.subrange(i + 1, title.len() as int)),
        None => None,
    }
}

/// A title `<anything without #>#<number>` gives the text after its `#`;
/// a title without `#` gives none.
pub proof fn lemma_number_texts(head: Seq<char>, rest: Seq<char>)
    requires
        forall|j: int| 0 <= j < head.len() ==> head[j] != '#',
    ensures
        number_text_spec(head + seq!['#'] + rest) == Some(rest),
        number_text_spec(head) is None,
{
    reveal_strlit("#");
    let p = "#"@;
    assert(p =~= seq!['#']);
    let s = head + seq!['#'] + rest;
    let h = head.len() as int;
    assert(s.subrange(h, h + 1) =~= p);
    assert(crate::text::occurs_at(s, p, h));
    assert forall|j: int| 0 <= j < h implies !crate::text::occurs_at(s, p, j) by {
        if crate::text::occurs_at(s, p, j) {
            assert(s.subrange(j, j + 1)[0] == s[j]);
            assert(s[j] == head[j]);
        }
    }
    assert(crate::text::is_first_occurrence(s, p, h));
    assert(crate::text::contains(s, p));
    let i = choose|i: int| crate::text::is_first_occurrence(s, p, i);
    assert(crate::text::is_first_occurrence(s, p, i));
    assert(i == h) by {
        if i < h {
            assert(!crate::text::occurs_at(s, p, i));
        } else if i > h {
            assert(!crate::text::occurs_at(s, p, h));
        }
    }
    assert(s.subrange(h + 1, s.len() as int) =~= rest);
    assert(!crate::text::contains(head, p)) by {
        if crate::text::contains(head, p) {
            let k = choose|k: int| crate::text::occurs_at(head, p, k);
            assert(head.subrange(k, k + 1)[0] == head[k]);
        }
    }
}

pub open spec fn chapter_key_spec(news_id: int, id: int) -> Seq<char> {
    "/reader/"@ + crate::text::dec_int(news_id) + "/"@ + crate::text::dec_int(id)
}

impl SingleChapter {
    /// The chapter as the app shows it: its title without the manga's title
    /// in front, its number the text after `#` (which the app reads as a
    /// number), its upload date read by the caller from `dd.MM.yyyy`.
    pub fn into_chapter(self, news_id: i32, manga_title: &str, date_uploaded: Option<i64>) -> (c: Chapter)
        ensures
            c.key@ == chapter_key_spec(news_id as int, self.id as int),
            c.title matches Some(t) && t@ == chapter_title_spec(self.title@, manga_title@),
            opt_string(c.number) == number_text_spec(chapter_title_spec(self.title@, manga_title@)),
            c.date_uploaded == date_uploaded,
            c.url matches Some(u) && u@ == BASE_URL@ + chapter_key_spec(news_id as int, self.id as int),
            c.scanlators is None && c.language is None && c.volume is None,
    {
        let mut k = chars_of("/reader/");
        k.extend_from_slice(crate::text::dec_i64(news_id as i64).as_slice());
        push_str(&mut k, "/");
        k.extend_from_slice(crate::text::dec_i64(self.id as i64).as_slice());
        assert(k@ =~= chapter_key_spec(news_id as int, self.id as int)) by {
            reveal_strlit("/");
        }
        let t = chars_of(self.title.as_str());
        let title = match strip_prefix_exec(t.as_slice(), manga_title) {
            Some(rest) => trim_exec(rest.as_slice()),
            None => t,
        };
        let hash = chars_of("#");
        proof {
            reveal_strlit("#");
        }
        let number = match crate::text::find_exec(title.as_slice(), hash.as_slice()) {
            Some(i) => {
                assert(title@.len() == title.len());
                Some(string_of(crate::text::slice_to_vec(title.as_slice(), i + 1, title.len()).as_slice()))
            },
            None => None,
        };
        let mut u = chars_of(BASE_URL);
        u.extend_from_slice(k.as_slice());
        let mut c = Chapter::new(string_of(k.as_slice()));
        c.title = Some(string_of(title.as_slice()));
        c.number = number;
        c.date_uploaded = date_uploaded;
        c.url = Some(string_of(u.as_slice()));
        c
    }
}

/// A page image's url: paths are on the site.
pub fn page_url(url: String) -> (r: String)
    ensures
        r@ == (if starts_with(url@, "/"@) {
            BASE_URL@ + url@
        } else {
            url@
        }),
{
    if crate::text::str_starts_with(url.as_str(), "/") {
        let mut u = chars_of(BASE_URL);
        push_str(&mut u, url.as_str());
        string_of(u.as_slice())
    } else {
        url
    }
}

// ---------------------------------------------------------------------------
// Verification, images and deep links
// ---------------------------------------------------------------------------

/// The cookie that carries a verification token.
pub fn trust_cookie(token: &str) -> (r: String)
    ensures
        r@ == TRUST_COOKIE_KEY@ + "="@ + token@,
{
    let mut v = chars_of(TRUST_COOKIE_KEY);
    push_str(&mut v, "=");
    push_str(&mut v, token);
    string_of(v.as_slice())
}

/// A page without a title is the site's verification wall.
pub fn needs_verification(title: Option<&str>) -> (r: bool)
    ensures
        r == (match title {
            Some(t) => t@.len() == 0,
            None => true,
        }),
{
    match title {
        Some(t) => t.is_empty(),
        None => true,
    }
}

/// A web login is done once the verification page has set its cookie.
pub fn handle_web_login(key: &str, cookie_names: &[String]) -> (r: bool)
    ensures
        r == (key@ == VERIFY_KEY@ && exists|i: int| 0 <= i < cookie_names@.len() && (#[trigger] cookie_names@[i])@ == TRUST_COOKIE_KEY@),
{
    if !str_eq(key, VERIFY_KEY) {
        return false;
    }
    let mut i: usize = 0;
    while i < cookie_names.len()
        invariant
            key@ == VERIFY_KEY@,
            i <= cookie_names@.len(),
            forall|j: int| 0 <= j < i ==> (#[trigger] cookie_names@[j])@ != TRUST_COOKIE_KEY@,
        decreases cookie_names@.len() - i,
    {
        if str_eq(cookie_names[i].as_str(), TRUST_COOKIE_KEY) {
            assert((cookie_names@[i as int])@ == TRUST_COOKIE_KEY@);
            return true;
        }
        i = i + 1;
    }
    false
}

/// Images on the site's own host want its referer.
pub fn needs_referer(url: &str) -> (r: bool)
    ensures
        r == contains(url@, "batcave.biz"@),
{
    crate::text::str_contains(url, "batcave.biz")
}

pub open spec fn is_slug_char(c: char) -> bool {
    is_ascii_alphanumeric(c) || c == '_' || c == '-'
}

pub open spec fn deep_link_spec(url: Seq<char>) -> Option<DeepLink> {
    match strip_prefix(url, BASE_URL@) {
        Some(key) => match strip_prefix(key, "/"@) {
            Some(path) => match find(path, "-"@) {
                Some(i) => {
                    let id = path.subrange(0, i);
                    match strip_suffix(path.subrange(i + 1, path.len() as int), ".html"@) {
                        Some(slug) => if id.len() > 0 && slug.len() > 0 && all_digits(id) && forall|j: int|
                            0 <= j < slug.len() ==> is_slug_char(#[trigger] slug[j]) {
                            Some(DeepLink::Manga(key))
                        } else {
                            None
                        },
                        None => None,
                    }
                },
                None => None,
            },
            None => None,
        },
        None => None,
    }
}

/// A comic page on the site, `/<id>-<slug>.html` with a numeric id and a
/// slug of ASCII letters, digits, `_` and `-` (dashes between its words
/// included), leads to that comic, keyed by its path.
pub proof fn lemma_comic_links(id: Seq<char>, slug: Seq<char>)
    requires
        id.len() > 0,
        slug.len() > 0,
        forall|j: int| 0 <= j < id.len() ==> '0' <= #[trigger] id[j] <= '9',
        forall|j: int|
            0 <= j < slug.len() ==> ('a' <= #[trigger] slug[j] <= 'z') || ('A' <= slug[j] <= 'Z') || ('0'
                <= slug[j] <= '9') || slug[j] == '_' || slug[j] == '-',
    ensures
        deep_link_spec(BASE_URL@ + "/"@ + id + "-"@ + slug + ".html"@) == Some(
            DeepLink::Manga("/"@ + id + "-"@ + slug + ".html"@),
        ),
{
    reveal_strlit("/");
    reveal_strlit("-");
    reveal_strlit(".html");
    let url = BASE_URL@ + "/"@ + id + "-"@ + slug + ".html"@;
    let key = "/"@ + id + "-"@ + slug + ".html"@;
    let path = id + "-"@ + slug + ".html"@;
    assert(url.subrange(0, BASE_URL@.len() as int) =~= BASE_URL@);
    assert(url.subrange(BASE_URL@.len() as int, url.len() as int) =~= key);
    assert(strip_prefix(url, BASE_URL@) == Some(key));
    assert(key.subrange(0, 1) =~= "/"@);
    assert(key.subrange(1, key.len() as int) =~= path);
    assert(strip_prefix(key, "/"@) == Some(path));
    let n = id.len() as int;
    assert(occurs_at(path, "-"@, n)) by {
        assert(path.subrange(n, n + 1) =~= "-"@);
    }
    assert forall|j: int| 0 <= j < n implies !occurs_at(path, "-"@, j) by {
        assert(path[j] == id[j]);
        if occurs_at(path, "-"@, j) {
            assert(path.subrange(j, j + 1)[0] == path[j]);
        }
    }
    assert(is_first_occurrence(path, "-"@, n));
    assert(contains(path, "-"@));
    let f = choose|i: int| is_first_occurrence(path, "-"@, i);
    assert(f == n) by {
        if f < n {
            assert(!occurs_at(path, "-"@, f));
        } else if f > n {
            assert(!occurs_at(path, "-"@, n));
        }
    }
    assert(find(path, "-"@) == Some(n));
    assert(path.subrange(0, n) =~= id);
    let rest = path.subrange(n + 1, path.len() as int);
    assert(rest =~= slug + ".html"@);
    assert(rest.subrange(rest.len() - 5, rest.len() as int) =~= ".html"@);
    assert(strip_suffix(rest, ".html"@) == Some(slug)) by {
        assert(rest.subrange(0, rest.len() - 5) =~= slug);
    }
    assert(all_digits(id)) by {
        assert forall|j: int| 0 <= j < id.len() implies crate::text::is_ascii_digit(#[trigger] id[j]) by {}
    }
    assert forall|j: int| 0 <= j < slug.len() implies is_slug_char(#[trigger] slug[j]) by {}
}

fn digits_only(id: &[char]) -> (r: bool)
    ensures
        r == all_digits(id@),
{
    let mut k: usize = 0;
    while k < id.len()
        invariant
            k <= id@.len(),
            forall|j: int| 0 <= j < k ==> crate::text::is_ascii_digit(#[trigger] id@[j]),
        decreases id@.len() - k,
    {
        if !('0' <= id[k] && id[k] <= '9') {
            assert(!crate::text::is_ascii_digit(id@[k as int]));
            return false;
        }
        k = k + 1;
    }
    true
}

fn slug_only(slug: &[char]) -> (r: bool)
    ensures
        r == forall|j: int| 0 <= j < slug@.len() ==> is_slug_char(#[trigger] slug@[j]),
{
    let mut m: usize = 0;
    while m < slug.len()
        invariant
            m <= slug@.len(),
            forall|j: int| 0 <= j < m ==> is_slug_char(#[trigger] slug@[j]),
        decreases slug@.len() - m,
    {
        let c = slug[m];
        if !(('0' <= c && c <= '9') || ('a' <= c && c <= 'z') || ('A' <= c && c <= 'Z') || c == '_' || c == '-') {
            assert(!is_slug_char(slug@[m as int]));
            return false;
        }
        m = m + 1;
    }
    true
}

/// Comic pages, `/<id>-<slug>.html`, lead to their comic, keyed by path.
pub fn handle_deep_link(url: &str) -> (r: Option<DeepLinkResult>)
    ensures
        link_view(r) == deep_link_spec(url@),
{
    let u = chars_of(url);
    let key = match strip_prefix_exec(u.as_slice(), BASE_URL) {
        Some(k) => k,
        None => return None,
    };
    let path = match strip_prefix_exec(key.as_slice(), "/") {
        Some(p) => p,
        None => return None,
    };
    let dash = chars_of("-");
    proof {
        reveal_strlit("-");
    }
    let i = match crate::text::find_exec(path.as_slice(), dash.as_slice()) {
        Some(i) => i,
        None => return None,
    };
    assert(path@.len() == path.len());
    let id = crate::text::slice_to_vec(path.as_slice(), 0, i);
    let tail = crate::text::slice_to_vec(path.as_slice(), i + 1, path.len());
    let slug = match strip_suffix_exec(tail.as_slice(), ".html") {
        Some(s) => s,
        None => return None,
    };
    if id.len() == 0 || slug.len() == 0 {
        return None;
    }
    if !digits_only(id.as_slice()) || !slug_only(slug.as_slice()) {
        return None;
    }
    Some(DeepLinkResult::Manga { key: string_of(key.as_slice()) })
}

} // verus!
