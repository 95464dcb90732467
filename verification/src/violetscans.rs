//! Violet Scans (violetscans.org): keys, the details table, statuses and
//! readers, chapter titles and numbers, the image list, search urls and
//! deep links.
use vstd::prelude::*;
use crate::model::{ContentRating, DeepLink, DeepLinkResult, FilterValue, Manga, MangaStatus, Viewer, link_view, opt_string, opt_strings};
use crate::text::{
    chars_of, contains, eq_ignore_ascii_case, find, is_ascii_digit, join, lowercase, push_str,
    slice_to_vec, split, starts_with, str_eq, string_of, strip_prefix, strip_prefix_exec, to_lowercase,
    trim, trim_exec, trim_str, views,
};
use crate::url::{QueryParameters, encode_component, encode_opt, query_text};

verus! {

pub const BASE_URL: &'static str = "https://violetscans.org";

pub const MANGA_PATH: &'static str = "/comics";

pub open spec fn key_spec(url: Seq<char>) -> Seq<char> {
    match strip_prefix(url, BASE_URL@) {
        Some(p) => p,
        None => url,
    }
}

/// An entry's key: its url without the site's address.
pub fn key_from_url(url: &str) -> (r: String)
    ensures
        r@ == key_spec(url@),
{
    let u = chars_of(url);
    match strip_prefix_exec(u.as_slice(), BASE_URL) {
        Some(p) => string_of(p.as_slice()),
        None => string_of(u.as_slice()),
    }
}

// ---------------------------------------------------------------------------
// The details table
// ---------------------------------------------------------------------------

/// A table value that stands for nothing.
pub open spec fn is_blank_value(v: Seq<char>) -> bool {
    v.len() == 0 || v == "-"@ || eq_ignore_ascii_case(v, "n/a"@) || eq_ignore_ascii_case(v, "unknown"@)
}

/// What one row of the table gives for a label: its value, trimmed, when
/// the row's text mentions the label in any case and the value means
/// something.
pub open spec fn row_value(row: (Option<Seq<char>>, Option<Seq<char>>), label: Seq<char>) -> Option<Seq<char>> {
    match row.0 {
        Some(text) => if contains(lowercase(text), lowercase(label)) {
            match row.1 {
                Some(v) => if is_blank_value(trim(v)) {
                    None
                } else {
                    Some(trim(v))
                },
                None => None,
            }
        } else {
            None
        },
        None => None,
    }
}

pub open spec fn table_value(rows: Seq<(Option<Seq<char>>, Option<Seq<char>>)>, label: Seq<char>) -> Option<Seq<char>>
    decreases rows.len(),
{
    if rows.len() == 0 {
        None
    } else {
        match row_value(rows[0], label) {
            Some(v) => Some(v),
            None => table_value(rows.drop_first(), label),
        }
    }
}

pub open spec fn rows_view(rows: Seq<(Option<String>, Option<String>)>) -> Seq<(Option<Seq<char>>, Option<Seq<char>>)> {
    rows.map_values(|r: (Option<String>, Option<String>)| (opt_string(r.0), opt_string(r.1)))
}

/// The value the details table gives for a label, from its rows, each
/// given as its text and the text of its value: the first row that names
/// the label with a value meaning something.
pub fn imptdt_value(rows: &[(Option<String>, Option<String>)], label: &str) -> (r: Option<String>)
    ensures
        opt_string(r) == table_value(rows_view(rows@), label@),
{
    let ghost rv = rows_view(rows@);
    let l = to_lowercase(label);
    let lv = chars_of(l.as_str());
    let mut i: usize = 0;
    assert(rv.subrange(0, rv.len() as int) =~= rv);
    while i < rows.len()
        invariant
            i <= rows@.len(),
            rv == rows_view(rows@),
            lv@ == lowercase(label@),
            table_value(rv.subrange(i as int, rv.len() as int), label@) == table_value(rv, label@),
        decreases rows@.len() - i,
    {
        let ghost rest = rv.subrange(i as int, rv.len() as int);
        assert(rest.drop_first() =~= rv.subrange(i + 1, rv.len() as int));
        assert(rest[0] == (opt_string(rows@[i as int].0), opt_string(rows@[i as int].1)));
        let (text, value) = &rows[i];
        match text {
            Some(t) => {
                let tl = to_lowercase(t.as_str());
                if crate::text::contains_exec(chars_of(tl.as_str()).as_slice(), lv.as_slice()) {
                    match value {
                        Some(v) => {
                            let tv = trim_str(v.as_str());
                            let tc = chars_of(tv.as_str());
                            let blank = tc.len() == 0 || str_eq(tv.as_str(), "-")
                                || crate::text::eq_ignore_ascii_case_exec(tc.as_slice(), chars_of("n/a").as_slice())
                                || crate::text::eq_ignore_ascii_case_exec(tc.as_slice(), chars_of("unknown").as_slice());
                            if !blank {
                                return Some(tv);
                            }
                        },
                        None => {},
                    }
                }
            },
            None => {},
        }
        i = i + 1;
    }
    assert(rv.subrange(rv.len() as int, rv.len() as int) =~= Seq::<(Option<Seq<char>>, Option<Seq<char>>)>::empty());
    None
}

pub open spec fn status_spec(s: Seq<char>) -> MangaStatus {
    let l = lowercase(trim(s));
    if l == "ongoing"@ || l == "on going"@ || l == "publishing"@ || l == "updating"@ {
        MangaStatus::Ongoing
    } else if l == "completed"@ || l == "finished"@ || l == "one-shot"@ {
        MangaStatus::Completed
    } else if l == "hiatus"@ || l == "on hold"@ || l == "paused"@ {
        MangaStatus::Hiatus
    } else if l == "cancelled"@ || l == "canceled"@ || l == "dropped"@ || l == "discontinued"@ {
        MangaStatus::Cancelled
    } else {
        MangaStatus::Unknown
    }
}

/// A status, trimmed and in lower case, reads as what it names: "ongoing",
/// "on going", "publishing" or "updating" as ongoing; "completed",
/// "finished" or "one-shot" as completed; "hiatus", "on hold" or "paused"
/// as on hiatus; "cancelled", "canceled", "dropped" or "discontinued" as
/// cancelled.
pub proof fn lemma_status_names(s: Seq<char>)
    ensures
        ({
            let l = lowercase(trim(s));
            &&& (l == "ongoing"@ || l == "on going"@ || l == "publishing"@ || l == "updating"@)
                ==> status_spec(s) == MangaStatus::Ongoing
            &&& (l == "completed"@ || l == "finished"@ || l == "one-shot"@) ==> status_spec(s)
                == MangaStatus::Completed
            &&& (l == "hiatus"@ || l == "on hold"@ || l == "paused"@) ==> status_spec(s) == MangaStatus::Hiatus
            &&& (l == "cancelled"@ || l == "canceled"@ || l == "dropped"@ || l == "discontinued"@)
                ==> status_spec(s) == MangaStatus::Cancelled
        }),
{
    reveal_strlit("ongoing");
    reveal_strlit("on going");
    reveal_strlit("publishing");
    reveal_strlit("updating");
    reveal_strlit("completed");
    reveal_strlit("finished");
    reveal_strlit("one-shot");
    reveal_strlit("hiatus");
    reveal_strlit("on hold");
    reveal_strlit("paused");
    reveal_strlit("cancelled");
    reveal_strlit("canceled");
    reveal_strlit("dropped");
    reveal_strlit("discontinued");
    assert("ongoing"@.len() == 7);
    assert("on going"@.len() == 8);
    assert("publishing"@.len() == 10);
    assert("updating"@.len() == 8);
    assert("completed"@.len() == 9);
    assert("finished"@.len() == 8);
    assert("one-shot"@.len() == 8);
    assert("hiatus"@.len() == 6);
    assert("on hold"@.len() == 7);
    assert("paused"@.len() == 6);
    assert("cancelled"@.len() == 9);
    assert("canceled"@.len() == 8);
    assert("dropped"@.len() == 7);
    assert("discontinued"@.len() == 12);
    assert("on going"@[0] != "finished"@[0]);
    assert("on going"@[2] != "one-shot"@[2]);
    assert("updating"@[0] != "finished"@[0]);
    assert("updating"@[0] != "one-shot"@[0]);
    assert("ongoing"@[2] != "on hold"@[2]);
    assert("ongoing"@[0] != "dropped"@[0]);
    assert("on going"@[0] != "canceled"@[0]);
    assert("updating"@[0] != "canceled"@[0]);
    assert("completed"@[1] != "cancelled"@[1]);
    assert("finished"@[0] != "canceled"@[0]);
    assert("one-shot"@[0] != "canceled"@[0]);
    assert("on hold"@[0] != "dropped"@[0]);
}

pub fn parse_status(s: &str) -> (r: MangaStatus)
    ensures
        r == status_spec(s@),
{
    let l = to_lowercase(trim_str(s).as_str());
    let l = l.as_str();
    if str_eq(l, "ongoing") || str_eq(l, "on going") || str_eq(l, "publishing") || str_eq(l, "updating") {
        MangaStatus::Ongoing
    } else if str_eq(l, "completed") || str_eq(l, "finished") || str_eq(l, "one-shot") {
        MangaStatus::Completed
    } else if str_eq(l, "hiatus") || str_eq(l, "on hold") || str_eq(l, "paused") {
        MangaStatus::Hiatus
    } else if str_eq(l, "cancelled") || str_eq(l, "canceled") || str_eq(l, "dropped") || str_eq(
        l,
        "discontinued",
    ) {
        MangaStatus::Cancelled
    } else {
        MangaStatus::Unknown
    }
}

pub open spec fn viewer_spec(s: Seq<char>) -> Viewer {
    let l = lowercase(trim(s));
    if l == "manga"@ || l == "one-shot"@ || l == "oneshot"@ || l == "doujinshi"@ {
        Viewer::RightToLeft
    } else if l == "manhwa"@ || l == "manhua"@ || l == "webtoon"@ || l == "webtoons"@ {
        Viewer::Webtoon
    } else if l == "comic"@ {
        Viewer::LeftToRight
    } else {
        Viewer::Unknown
    }
}

/// A series type, trimmed and in lower case: "manga", "one-shot",
/// "oneshot" or "doujinshi" read right to left; "manhwa", "manhua",
/// "webtoon" or "webtoons" as webtoons; "comic" left to right.
pub proof fn lemma_viewer_types(s: Seq<char>)
    ensures
        ({
            let l = lowercase(trim(s));
            &&& (l == "manga"@ || l == "one-shot"@ || l == "oneshot"@ || l == "doujinshi"@) ==> viewer_spec(s)
                == Viewer::RightToLeft
            &&& (l == "manhwa"@ || l == "manhua"@ || l == "webtoon"@ || l == "webtoons"@) ==> viewer_spec(s)
                == Viewer::Webtoon
            &&& l == "comic"@ ==> viewer_spec(s) == Viewer::LeftToRight
        }),
{
    reveal_strlit("manga");
    reveal_strlit("one-shot");
    reveal_strlit("oneshot");
    reveal_strlit("doujinshi");
    reveal_strlit("manhwa");
    reveal_strlit("manhua");
    reveal_strlit("webtoon");
    reveal_strlit("webtoons");
    reveal_strlit("comic");
    assert("manga"@.len() == 5 && "one-shot"@.len() == 8 && "oneshot"@.len() == 7 && "doujinshi"@.len() == 9);
    assert("manhwa"@.len() == 6 && "manhua"@.len() == 6 && "webtoon"@.len() == 7 && "webtoons"@.len() == 8);
    assert("comic"@.len() == 5 && "comic"@[0] != "manga"@[0]);
    assert("oneshot"@[0] != "webtoon"@[0] && "one-shot"@[0] != "webtoons"@[0]);
}

pub fn parse_viewer(s: &str) -> (r: Viewer)
    ensures
        r == viewer_spec(s@),
{
    let l = to_lowercase(trim_str(s).as_str());
    let l = l.as_str();
    if str_eq(l, "manga") || str_eq(l, "one-shot") || str_eq(l, "oneshot") || str_eq(l, "doujinshi") {
        Viewer::RightToLeft
    } else if str_eq(l, "manhwa") || str_eq(l, "manhua") || str_eq(l, "webtoon") || str_eq(l, "webtoons") {
        Viewer::Webtoon
    } else if str_eq(l, "comic") {
        Viewer::LeftToRight
    } else {
        Viewer::Unknown
    }
}

/// A comma separated name list, each name trimmed (empty ones kept).
pub fn split_names(s: &str) -> (r: Vec<String>)
    ensures
        views(r@) == split(s@, ',').map_values(|p: Seq<char>| trim(p)),
{
    let v = chars_of(s);
    let parts = crate::text::split_exec(v.as_slice(), ',');
    let ghost pv = parts@.map_values(|x: Vec<char>| x@);
    let mut out: Vec<String> = Vec::new();
    let mut i: usize = 0;
    while i < parts.len()
        invariant
            i <= parts@.len(),
            pv == parts@.map_values(|x: Vec<char>| x@),
            out@.len() == i,
            forall|j: int| 0 <= j < i ==> (#[trigger] out@[j])@ == trim(pv[j]),
        decreases parts@.len() - i,
    {
        assert(pv[i as int] == parts@[i as int]@);
        out.push(string_of(trim_exec(parts[i].as_slice()).as_slice()));
        i = i + 1;
    }
    assert(views(out@) =~= pv.map_values(|p: Seq<char>| trim(p)));
    out
}

// ---------------------------------------------------------------------------
// Details
// ---------------------------------------------------------------------------

/// The description: the synopsis (trimmed by the caller), then the
/// alternative names when there are any.
pub open spec fn description_spec(desc: Option<Seq<char>>, alt: Option<Seq<char>>) -> Option<Seq<char>> {
    let a = match alt {
        Some(x) if trim(x).len() > 0 => Some(trim(x)),
        _ => None,
    };
    match (desc, a) {
        (Some(d), Some(a)) => Some(d + "\n\nAlternative Names: "@ + a),
        (Some(d), None) => Some(d),
        (None, Some(a)) => Some("Alternative Names: "@ + a),
        (None, None) => None,
    }
}

pub fn description(desc: Option<String>, alt: Option<String>) -> (r: Option<String>)
    ensures
        opt_string(r) == description_spec(opt_string(desc), opt_string(alt)),
{
    let a = match alt {
        Some(x) => {
            let t = trim_str(x.as_str());
            if t.as_str().is_empty() {
                None
            } else {
                Some(t)
            }
        },
        None => None,
    };
    match (desc, a) {
        (Some(d), Some(a)) => {
            let mut v = chars_of(d.as_str());
            push_str(&mut v, "\n\nAlternative Names: ");
            push_str(&mut v, a.as_str());
            Some(string_of(v.as_slice()))
        },
        (Some(d), None) => Some(d),
        (None, Some(a)) => {
            let mut v = chars_of("Alternative Names: ");
            push_str(&mut v, a.as_str());
            Some(string_of(v.as_slice()))
        },
        (None, None) => None,
    }
}

/// The genre tags with the series type added when no tag names it already,
/// in any ASCII case.
pub open spec fn tags_spec(tags: Seq<Seq<char>>, series_type: Option<Seq<char>>) -> Seq<Seq<char>> {
    match series_type {
        Some(t) => if exists|i: int| 0 <= i < tags.len() && eq_ignore_ascii_case(#[trigger] tags[i], t) {
            tags
        } else {
            tags.push(t)
        },
        None => tags,
    }
}

pub fn tags_with_type(tags: Vec<String>, series_type: &Option<String>) -> (r: Vec<String>)
    ensures
        views(r@) == tags_spec(views(tags@), opt_string(*series_type)),
{
    let mut tags = tags;
    match series_type {
        Some(t) => {
            let tv = chars_of(t.as_str());
            let mut found = false;
            let mut i: usize = 0;
            while i < tags.len()
                invariant
                    i <= tags@.len(),
                    tv@ == t@,
                    found == exists|j: int| 0 <= j < i && eq_ignore_ascii_case(#[trigger] views(tags@)[j], t@),
                decreases tags@.len() - i,
            {
                assert(views(tags@)[i as int] == tags@[i as int]@);
                if crate::text::eq_ignore_ascii_case_exec(chars_of(tags[i].as_str()).as_slice(), tv.as_slice()) {
                    found = true;
                }
                i = i + 1;
            }
            if !found {
                let ghost before = views(tags@);
                tags.push(string_of(tv.as_slice()));
                assert(views(tags@) =~= before.push(t@));
            }
        },
        None => {},
    }
    tags
}

pub open spec fn is_nsfw_tag(t: Seq<char>) -> bool {
    let l = lowercase(t);
    l == "mature"@ || l == "smut"@ || l == "adult"@ || l == "yaoi"@
}

pub open spec fn is_suggestive_tag(t: Seq<char>) -> bool {
    let l = lowercase(t);
    l == "ecchi"@ || l == "shounen ai"@ || l == "shoujo ai"@
}

pub open spec fn rating_spec(tags: Seq<Seq<char>>) -> ContentRating {
    if exists|i: int| 0 <= i < tags.len() && is_nsfw_tag(#[trigger] tags[i]) {
        ContentRating::NSFW
    } else if exists|i: int| 0 <= i < tags.len() && is_suggestive_tag(#[trigger] tags[i]) {
        ContentRating::Suggestive
    } else {
        ContentRating::Safe
    }
}

/// A tag "mature", "smut", "adult" or "yaoi" (in any case) makes a title
/// NSFW wherever it stands; "ecchi", "shounen ai" or "shoujo ai" makes it
/// at least suggestive.
pub proof fn lemma_rating_words(before: Seq<Seq<char>>, t: Seq<char>, after: Seq<Seq<char>>, all: Seq<Seq<char>>)
    requires
        all == before + seq![t] + after,
    ensures
        lowercase(t) == "mature"@ || lowercase(t) == "smut"@ || lowercase(t) == "adult"@ || lowercase(t) == "yaoi"@ ==> rating_spec(all) == ContentRating::NSFW,
        lowercase(t) == "ecchi"@ || lowercase(t) == "shounen ai"@ || lowercase(t) == "shoujo ai"@ ==> rating_spec(all) != ContentRating::Safe,
{
    assert(all[before.len() as int] == t);
}

/// The rating the tags imply.
pub fn tag_rating(tags: &[String]) -> (r: ContentRating)
    ensures
        r == rating_spec(views(tags@)),
{
    let ghost ts = views(tags@);
    let mut nsfw = false;
    let mut suggestive = false;
    let mut i: usize = 0;
    while i < tags.len()
        invariant
            i <= tags@.len(),
            ts == views(tags@),
            nsfw == exists|j: int| 0 <= j < i && is_nsfw_tag(#[trigger] ts[j]),
            suggestive == exists|j: int| 0 <= j < i && is_suggestive_tag(#[trigger] ts[j]),
        decreases tags@.len() - i,
    {
        assert(ts[i as int] == tags@[i as int]@);
        let l = to_lowercase(tags[i].as_str());
        let l = l.as_str();
        if str_eq(l, "mature") || str_eq(l, "smut") || str_eq(l, "adult") || str_eq(l, "yaoi") {
            nsfw = true;
        }
        if str_eq(l, "ecchi") || str_eq(l, "shounen ai") || str_eq(l, "shoujo ai") {
            suggestive = true;
        }
        i = i + 1;
    }
    if nsfw {
        ContentRating::NSFW
    } else if suggestive {
        ContentRating::Suggestive
    } else {
        ContentRating::Safe
    }
}

/// What a title's details block shows, as read off its page.
pub struct DetailsBlock {
    /// The heading's text.
    pub title: Option<String>,
    /// The cover image's address.
    pub cover: Option<String>,
    /// The rows of the details table, each as its text and its value's text.
    pub rows: Vec<(Option<String>, Option<String>)>,
    /// The synopsis's text.
    pub description: Option<String>,
    /// The alternative names' text.
    pub alternative: Option<String>,
    /// The genre links' texts.
    pub genres: Vec<String>,
}

/// The names a table row gives for a label, split at commas and trimmed.
pub open spec fn names_for(rows: Seq<(Option<Seq<char>>, Option<Seq<char>>)>, label: Seq<char>) -> Option<
    Seq<Seq<char>>,
> {
    match table_value(rows, label) {
        Some(v) => Some(split(v, ',').map_values(|p: Seq<char>| trim(p))),
        None => None,
    }
}

/// The tags of a details block: its genres trimmed, and its type when no
/// genre names it already.
pub open spec fn block_tags(b: DetailsBlock) -> Seq<Seq<char>> {
    tags_spec(
        views(b.genres@).map_values(|g: Seq<char>| trim(g)),
        table_value(rows_view(b.rows@), "Type"@),
    )
}

fn trimmed_all(v: &Vec<String>) -> (r: Vec<String>)
    ensures
        views(r@) == views(v@).map_values(|g: Seq<char>| trim(g)),
{
    let mut out: Vec<String> = Vec::new();
    let mut i: usize = 0;
    while i < v.len()
        invariant
            i <= v@.len(),
            views(out@) == views(v@).subrange(0, i as int).map_values(|g: Seq<char>| trim(g)),
        decreases v@.len() - i,
    {
        let ghost before = views(out@);
        out.push(trim_str(v[i].as_str()));
        assert(views(out@) =~= before.push(trim(v@[i as int]@)));
        assert(views(v@).subrange(0, i + 1).map_values(|g: Seq<char>| trim(g)) =~= views(v@).subrange(
            0,
            i as int,
        ).map_values(|g: Seq<char>| trim(g)).push(trim(v@[i as int]@)));
        i = i + 1;
    }
    assert(views(v@).subrange(0, v@.len() as int) =~= views(v@));
    out
}

/// Fills in a manga from its details block, keeping its key: the title
/// (trimmed) and cover when the page has them, writers and artists when the
/// table names them, the synopsis with the alternative names, the address,
/// the tags with the type, the status, and the rating and reader they
/// imply.
pub fn apply_details(b: &DetailsBlock, manga: &mut Manga)
    ensures
        final(manga).key == old(manga).key,
        final(manga).title@ == (match b.title {
            Some(t) => trim(t@),
            None => old(manga).title@,
        }),
        opt_string(final(manga).cover) == (match b.cover {
            Some(c) => Some(c@),
            None => opt_string(old(manga).cover),
        }),
        opt_strings(final(manga).authors) == (match names_for(rows_view(b.rows@), "Author"@) {
            Some(n) => Some(n),
            None => opt_strings(old(manga).authors),
        }),
        opt_strings(final(manga).artists) == (match names_for(rows_view(b.rows@), "Artist"@) {
            Some(n) => Some(n),
            None => opt_strings(old(manga).artists),
        }),
        opt_string(final(manga).description) == description_spec(
            match b.description {
                Some(d) => Some(trim(d@)),
                None => None,
            },
            opt_string(b.alternative),
        ),
        opt_string(final(manga).url) == Some(BASE_URL@ + old(manga).key@),
        opt_strings(final(manga).tags) == (if block_tags(*b).len() > 0 {
            Some(block_tags(*b))
        } else {
            None
        }),
        final(manga).status == (match table_value(rows_view(b.rows@), "Status"@) {
            Some(st) => status_spec(st),
            None => MangaStatus::Unknown,
        }),
        final(manga).content_rating == rating_spec(block_tags(*b)),
        final(manga).viewer == (match table_value(rows_view(b.rows@), "Type"@) {
            Some(t) => viewer_spec(t),
            None => Viewer::Unknown,
        }),
{
    match &b.title {
        Some(t) => {
            manga.title = trim_str(t.as_str());
        },
        None => {},
    }
    match &b.cover {
        Some(c) => {
            manga.cover = Some(string_of(chars_of(c.as_str()).as_slice()));
            proof {
                assert(manga.cover->0@ == c@);
            }
        },
        None => {},
    }
    match imptdt_value(b.rows.as_slice(), "Author") {
        Some(a) => {
            manga.authors = Some(split_names(a.as_str()));
        },
        None => {},
    }
    match imptdt_value(b.rows.as_slice(), "Artist") {
        Some(a) => {
            manga.artists = Some(split_names(a.as_str()));
        },
        None => {},
    }
    let desc = match &b.description {
        Some(d) => Some(trim_str(d.as_str())),
        None => None,
    };
    let alt = match &b.alternative {
        Some(a) => Some(string_of(chars_of(a.as_str()).as_slice())),
        None => None,
    };
    manga.description = description(desc, alt);
    let mut url = chars_of(BASE_URL);
    push_str(&mut url, manga.key.as_str());
    manga.url = Some(string_of(url.as_slice()));
    let series_type = imptdt_value(b.rows.as_slice(), "Type");
    let tags = tags_with_type(trimmed_all(&b.genres), &series_type);
    manga.content_rating = tag_rating(tags.as_slice());
    manga.tags = if tags.len() > 0 {
        Some(tags)
    } else {
        None
    };
    manga.status = match imptdt_value(b.rows.as_slice(), "Status") {
        Some(st) => parse_status(st.as_str()),
        None => MangaStatus::Unknown,
    };
    manga.viewer = match &series_type {
        Some(t) => parse_viewer(t.as_str()),
        None => Viewer::Unknown,
    };
}

// ---------------------------------------------------------------------------
// Chapters and pages
// ---------------------------------------------------------------------------

/// Length of the run that makes up a number: digits, with at most one dot
/// (`dot` says whether the run already has one).
pub open spec fn number_run(t: Seq<char>, dot: bool) -> nat
    decreases t.len(),
{
    if t.len() > 0 && (is_ascii_digit(t[0]) || (t[0] == '.' && !dot)) {
        1 + number_run(t.drop_first(), dot || t[0] == '.')
    } else {
        0
    }
}

pub open spec fn first_digit(s: Seq<char>) -> Option<int> {
    if exists|i: int| 0 <= i < s.len() && is_ascii_digit(#[trigger] s[i]) {
        Some(choose|i: int| 0 <= i < s.len() && is_ascii_digit(#[trigger] s[i]) && forall|j: int| 0 <= j < i ==> !is_ascii_digit(s[j]))
    } else {
        None
    }
}

/// The first number in a text: from its first digit on, digits with at
/// most one dot. The app reads it as a number.
pub open spec fn first_number_spec(s: Seq<char>) -> Option<Seq<char>> {
    match first_digit(s) {
        Some(p) => Some(s.subrange(p, p + number_run(s.subrange(p, s.len() as int), false))),
        None => None,
    }
}

proof fn lemma_number_run_bound(t: Seq<char>, dot: bool)
    ensures
        number_run(t, dot) <= t.len(),
    decreases t.len(),
{
    if t.len() > 0 && (is_ascii_digit(t[0]) || (t[0] == '.' && !dot)) {
        lemma_number_run_bound(t.drop_first(), dot || t[0] == '.');
    }
}

proof fn lemma_digits_run(n: Seq<char>, rest: Seq<char>)
    requires
        forall|j: int| 0 <= j < n.len() ==> is_ascii_digit(#[trigger] n[j]),
        rest.len() == 0 || (!is_ascii_digit(rest[0]) && rest[0] != '.'),
    ensures
        number_run(n + rest, false) == n.len(),
    decreases n.len(),
{
    if n.len() == 0 {
        assert(n + rest =~= rest);
    } else {
        assert((n + rest)[0] == n[0]);
        assert((n + rest).drop_first() =~= n.drop_first() + rest);
        lemma_digits_run(n.drop_first(), rest);
    }
}

/// The first number of a text is the run of digits where its first digit
/// stands: in `<words> <digits><rest>`, with no digit in the words and the
/// rest starting with neither a digit nor a dot, it is the digits.
pub proof fn lemma_first_number(prefix: Seq<char>, n: Seq<char>, rest: Seq<char>)
    requires
        forall|j: int| 0 <= j < prefix.len() ==> !is_ascii_digit(#[trigger] prefix[j]),
        n.len() > 0,
        forall|j: int| 0 <= j < n.len() ==> is_ascii_digit(#[trigger] n[j]),
        rest.len() == 0 || (!is_ascii_digit(rest[0]) && rest[0] != '.'),
    ensures
        first_number_spec(prefix + n + rest) == Some(n),
{
    let s = prefix + n + rest;
    let p = prefix.len() as int;
    assert(s[p] == n[0]);
    assert(is_ascii_digit(s[p]));
    let f = choose|i: int| 0 <= i < s.len() && is_ascii_digit(#[trigger] s[i]) && forall|j: int| 0 <= j < i ==> !is_ascii_digit(s[j]);
    assert(f == p) by {
        if f < p {
            assert(s[f] == prefix[f]);
        } else if f > p {
            assert(!is_ascii_digit(s[p]));
        }
    }
    assert(first_digit(s) == Some(p));
    assert(s.subrange(p, s.len() as int) =~= n + rest);
    lemma_digits_run(n, rest);
    assert(s.subrange(p, p + n.len()) =~= n);
}

pub fn first_number_text(s: &str) -> (r: Option<String>)
    ensures
        opt_string(r) == first_number_spec(s@),
{
    let v = chars_of(s);
    let mut p: usize = 0;
    while p < v.len() && !('0' <= v[p] && v[p] <= '9')
        invariant
            p <= v@.len(),
            v@ == s@,
            forall|j: int| 0 <= j < p ==> !is_ascii_digit(#[trigger] v@[j]),
        decreases v@.len() - p,
    {
        p = p + 1;
    }
    if p == v.len() {
        return None;
    }
    proof {
        let w = choose|i: int| 0 <= i < s@.len() && is_ascii_digit(#[trigger] s@[i]) && forall|j: int| 0 <= j < i ==> !is_ascii_digit(s@[j]);
        assert(is_ascii_digit(s@[p as int]));
        if w < p {
            assert(!is_ascii_digit(v@[w]));
        }
        if w > p {
            assert(!is_ascii_digit(s@[p as int]));
        }
    }
    let ghost t0 = v@.subrange(p as int, v@.len() as int);
    let mut q: usize = p;
    let mut dot = false;
    assert(v@.subrange(p as int, p as int) =~= Seq::<char>::empty());
    while q < v.len() && (('0' <= v[q] && v[q] <= '9') || (v[q] == '.' && !dot))
        invariant
            p <= q <= v@.len(),
            t0 == v@.subrange(p as int, v@.len() as int),
            number_run(t0, false) == (q - p) + number_run(v@.subrange(q as int, v@.len() as int), dot),
        decreases v@.len() - q,
    {
        let ghost rest = v@.subrange(q as int, v@.len() as int);
        assert(rest.drop_first() =~= v@.subrange(q + 1, v@.len() as int));
        assert(rest[0] == v@[q as int]);
        if v[q] == '.' {
            dot = true;
        }
        q = q + 1;
    }
    proof {
        let rest = v@.subrange(q as int, v@.len() as int);
        if q < v@.len() {
            assert(rest[0] == v@[q as int]);
        }
    }
    Some(string_of(slice_to_vec(v.as_slice(), p, q).as_slice()))
}

/// A chapter's title, which is dropped when it only repeats the number: the
/// normalized heading, unless it equals one of the number's spellings
/// ("Chapter N" with the number as a whole number, and as the app writes
/// it), which the caller gives.
pub fn display_title(title: String, spellings: &[String]) -> (r: Option<String>)
    ensures
        r == (if exists|i: int| 0 <= i < spellings@.len() && (#[trigger] spellings@[i])@ == title@ {
            None
        } else {
            Some(title)
        }),
{
    let mut i: usize = 0;
    while i < spellings.len()
        invariant
            i <= spellings@.len(),
            forall|j: int| 0 <= j < i ==> (#[trigger] spellings@[j])@ != title@,
        decreases spellings@.len() - i,
    {
        if str_eq(spellings[i].as_str(), title.as_str()) {
            return None;
        }
        i = i + 1;
    }
    Some(title)
}

/// Whether a chapter link leads somewhere: not empty and not an anchor.
pub fn is_chapter_link(href: &str) -> (r: bool)
    ensures
        r == (href@.len() > 0 && !starts_with(href@, "#"@)),
{
    !href.is_empty() && !crate::text::str_starts_with(href, "#")
}

/// The heading of a chapter row: its number label's text, else its link's
/// text, else nothing, with white space runs made single spaces.
pub open spec fn row_heading(label: Option<Seq<char>>, link_text: Option<Seq<char>>) -> Seq<char> {
    let raw = match label {
        Some(l) => l,
        None => match link_text {
            Some(t) => t,
            None => Seq::empty(),
        },
    };
    join(crate::text::words(raw), " "@)
}

/// A row of the chapter list as a chapter: keyed by its link without the
/// site's address, at its link, numbered by the first number in its
/// heading, and titled by the heading unless that only spells the number
/// (`spellings`, the number's spellings the app writes, which the caller
/// gives). None when the link is missing, empty or an anchor. `date` is the
/// upload time the app read off the row.
pub fn chapter_from_row(
    href: Option<String>,
    label: Option<String>,
    link_text: Option<String>,
    spellings: &[String],
    date: Option<i64>,
) -> (r: Option<crate::model::Chapter>)
    ensures
        r is Some <==> (href matches Some(h) && h@.len() > 0 && !starts_with(h@, "#"@)),
        r matches Some(c) ==> {
            let heading = row_heading(opt_string(label), opt_string(link_text));
            &&& c.key@ == key_spec(href->0@)
            &&& opt_string(c.url) == Some(href->0@)
            &&& opt_string(c.number) == first_number_spec(heading)
            &&& opt_string(c.title) == (if first_number_spec(heading) is Some && exists|i: int|
                0 <= i < spellings@.len() && (#[trigger] spellings@[i])@ == heading {
                None
            } else {
                Some(heading)
            })
            &&& c.date_uploaded == date
            &&& c.volume is None && c.scanlators is None && c.language is None
        },
{
    let href = match href {
        Some(h) => h,
        None => return None,
    };
    if !is_chapter_link(href.as_str()) {
        return None;
    }
    let raw = match label {
        Some(l) => l,
        None => match link_text {
            Some(t) => t,
            None => String::new(),
        },
    };
    let heading = crate::text::normalize_ws(raw.as_str());
    let number = first_number_text(heading.as_str());
    let title = match &number {
        Some(_) => display_title(heading, spellings),
        None => Some(heading),
    };
    let mut c = crate::model::Chapter::new(key_from_url(href.as_str()));
    c.number = number;
    c.title = title;
    c.date_uploaded = date;
    c.url = Some(href);
    Some(c)
}

pub const IMAGES_NEEDLE: &'static str = "\"images\":[";

/// The image list a reader page's script holds: the array after the first
/// `"images":`, up to the first `]` after it, read as json; empty when it
/// isn't there or doesn't read.
pub open spec fn images_spec(content: Seq<char>) -> Seq<Seq<char>> {
    match find(content, IMAGES_NEEDLE@) {
        Some(start) => {
            let after = content.subrange(start + IMAGES_NEEDLE@.len() - 1, content.len() as int);
            match find(after, "]"@) {
                Some(end) => match crate::json::json_string_list(after.subrange(0, end + 1)) {
                    Some(list) => list,
                    None => Seq::empty(),
                },
                None => Seq::empty(),
            }
        },
        None => Seq::empty(),
    }
}

pub fn extract_images(content: &str) -> (r: Vec<String>)
    ensures
        views(r@) == images_spec(content@),
{
    let c = chars_of(content);
    let needle = chars_of(IMAGES_NEEDLE);
    let close = chars_of("]");
    proof {
        reveal_strlit("\"images\":[");
        reveal_strlit("]");
    }
    assert(needle@.len() == 10);
    let start = match crate::text::find_exec(c.as_slice(), needle.as_slice()) {
        Some(s) => s,
        None => return Vec::new(),
    };
    assert(c@.len() == c.len());
    let after = slice_to_vec(c.as_slice(), start + 9, c.len());
    let end = match crate::text::find_exec(after.as_slice(), close.as_slice()) {
        Some(e) => e,
        None => return Vec::new(),
    };
    assert(after@.len() == after.len());
    let text = string_of(slice_to_vec(after.as_slice(), 0, end + 1).as_slice());
    match crate::json::parse_string_list(text.as_str()) {
        Some(list) => list,
        None => {
            let e: Vec<String> = Vec::new();
            assert(views(e@) =~= Seq::<Seq<char>>::empty());
            e
        },
    }
}

// ---------------------------------------------------------------------------
// Search and deep links
// ---------------------------------------------------------------------------

pub type Params = Seq<(Seq<char>, Option<Seq<char>>)>;

pub open spec fn set_param(ps: Params, name: Seq<char>, value: Seq<char>) -> Params {
    ps.filter(|p: (Seq<char>, Option<Seq<char>>)| p.0 != encode_component(name)).push(
        (encode_component(name), Some(encode_component(value))),
    )
}

pub open spec fn sort_value(index: int) -> Seq<char> {
    if index == 1 {
        "title"@
    } else if index == 2 {
        "titlereverse"@
    } else if index == 3 {
        "update"@
    } else if index == 4 {
        "latest"@
    } else if index == 5 {
        "popular"@
    } else {
        Seq::empty()
    }
}

/// The sort options, in the order the filter lists them: the default (no
/// order sent), "title", "titlereverse", "update", "latest", "popular".
pub proof fn lemma_sort_keys(index: int)
    ensures
        sort_value(0) == Seq::<char>::empty(),
        sort_value(1) == "title"@,
        sort_value(2) == "titlereverse"@,
        sort_value(3) == "update"@,
        sort_value(4) == "latest"@,
        sort_value(5) == "popular"@,
        (index < 0 || index >= 6) ==> sort_value(index) == Seq::<char>::empty(),
{
    reveal_strlit("");
    reveal_strlit("latest");
    reveal_strlit("popular");
    reveal_strlit("title");
    reveal_strlit("titlereverse");
    reveal_strlit("update");
}

pub open spec fn pairs(id: Seq<char>, vs: Seq<Seq<char>>) -> Params {
    vs.map_values(|v: Seq<char>| (encode_component(id), Some(encode_component(v))))
}

/// The parameters one filter value adds: texts as they are; non-empty
/// selects and known sorts replacing what their id had; multi selects
/// once per included value and once per excluded one, prefixed by `-`.
pub open spec fn apply_filter(ps: Params, f: FilterValue) -> Params {
    match f {
        FilterValue::Text { id, value } => ps.push((encode_component(id@), Some(encode_component(value@)))),
        FilterValue::Select { id, value } => if value@.len() > 0 {
            set_param(ps, id@, value@)
        } else {
            ps
        },
        FilterValue::Sort { id, index, .. } => if sort_value(index as int).len() > 0 {
            set_param(ps, id@, sort_value(index as int))
        } else {
            ps
        },
        FilterValue::MultiSelect { id, included, excluded } => ps + pairs(id@, views(included@)) + pairs(
            id@,
            views(excluded@).map_values(|v: Seq<char>| "-"@ + v),
        ),
        _ => ps,
    }
}

pub open spec fn apply_filters(ps: Params, fs: Seq<FilterValue>) -> Params
    decreases fs.len(),
{
    if fs.len() == 0 {
        ps
    } else {
        apply_filter(apply_filters(ps, fs.drop_last()), fs.last())
    }
}

pub open spec fn search_url_spec(query: Option<Seq<char>>, page: int, filters: Seq<FilterValue>) -> Seq<char> {
    let start = seq![(encode_component("page"@), Some(encode_component(crate::text::dec_int(page))))]
        + match query {
        Some(q) => seq![(encode_component("title"@), Some(encode_component(q)))],
        None => Seq::empty(),
    };
    BASE_URL@ + MANGA_PATH@ + "/?"@ + query_text(apply_filters(start, filters))
}

fn sort_value_exec(index: i32) -> (r: &'static str)
    ensures
        r@ == sort_value(index as int),
{
    if index == 1 {
        "title"
    } else if index == 2 {
        "titlereverse"
    } else if index == 3 {
        "update"
    } else if index == 4 {
        "latest"
    } else if index == 5 {
        "popular"
    } else {
        proof {
            reveal_strlit("");
        }
        ""
    }
}

fn push_all(qs: &mut QueryParameters, id: &str, values: &Vec<String>, prefix: bool)
    ensures
        final(qs)@ == old(qs)@ + pairs(
            id@,
            if prefix {
                views(values@).map_values(|v: Seq<char>| "-"@ + v)
            } else {
                views(values@)
            },
        ),
{
    let ghost start = qs@;
    let ghost vs = if prefix {
        views(values@).map_values(|v: Seq<char>| "-"@ + v)
    } else {
        views(values@)
    };
    let mut k: usize = 0;
    assert(vs.take(0) =~= Seq::<Seq<char>>::empty());
    assert(start + pairs(id@, Seq::<Seq<char>>::empty()) =~= start);
    while k < values.len()
        invariant
            k <= values@.len(),
            vs.len() == values@.len(),
            vs == (if prefix {
                views(values@).map_values(|v: Seq<char>| "-"@ + v)
            } else {
                views(values@)
            }),
            qs@ == start + pairs(id@, vs.take(k as int)),
        decreases values@.len() - k,
    {
        let v = if prefix {
            let mut p = chars_of("-");
            push_str(&mut p, values[k].as_str());
            string_of(p.as_slice())
        } else {
            string_of(chars_of(values[k].as_str()).as_slice())
        };
        assert(v@ == vs[k as int]);
        let ghost before = qs@;
        qs.push(id, Some(v.as_str()));
        assert(pairs(id@, vs.take(k + 1)) =~= pairs(id@, vs.take(k as int)).push(
            (encode_component(id@), Some(encode_component(vs[k as int]))),
        ));
        k = k + 1;
    }
    assert(vs.take(values@.len() as int) =~= vs);
}

/// Without filters, a search for a term asks
/// `/comics/?page=<page>&title=<term>`, and a listing `/comics/?page=<page>`.
pub proof fn lemma_search_urls(q: Seq<char>, page: int)
    ensures
        search_url_spec(Some(q), page, Seq::empty()) == BASE_URL@ + "/comics/?page="@
            + crate::text::dec_int(page) + "&title="@ + encode_component(q),
        search_url_spec(None, page, Seq::empty()) == BASE_URL@ + "/comics/?page="@
            + crate::text::dec_int(page),
{
    reveal_strlit("page");
    reveal_strlit("title");
    reveal_strlit("/?");
    reveal_strlit("/comics");
    reveal_strlit("/comics/?page=");
    reveal_strlit("&title=");
    crate::url::lemma_plain_text("page"@);
    crate::url::lemma_plain_text("title"@);
    crate::url::lemma_plain_number(page);
    let d = crate::text::dec_int(page);
    let a = ("page"@, Some(d));
    let b = ("title"@, Some(encode_component(q)));
    crate::url::lemma_query_pairs(a, b, b);
    assert(seq![(encode_component("page"@), Some(encode_component(d)))] + seq![
        (encode_component("title"@), Some(encode_component(q))),
    ] =~= seq![a, b]);
    assert(seq![(encode_component("page"@), Some(encode_component(d)))] + Seq::empty() =~= seq![a]);
    assert(MANGA_PATH@ == "/comics"@);
    assert(BASE_URL@ + MANGA_PATH@ + "/?"@ + (crate::url::param_text(a) + seq!['&']
        + crate::url::param_text(b)) =~= BASE_URL@ + "/comics/?page="@ + d + "&title="@
        + encode_component(q));
    assert(BASE_URL@ + MANGA_PATH@ + "/?"@ + crate::url::param_text(a) =~= BASE_URL@
        + "/comics/?page="@ + d);
}

/// A search of the comics list: the page and title, then the filters.
pub fn search_url(query: Option<&str>, page: i32, filters: &[FilterValue]) -> (r: String)
    ensures
        r@ == search_url_spec(crate::atsumaru::opt_view(query), page as int, filters@),
{
    let mut qs = QueryParameters::new();
    let page_text = crate::text::i32_to_string(page);
    qs.push("page", Some(page_text.as_str()));
    match query {
        Some(q) => qs.push("title", Some(q)),
        None => {},
    }
    let ghost start = qs@;
    assert(start =~= seq![(encode_component("page"@), Some(encode_component(crate::text::dec_int(page as int))))]
        + match crate::atsumaru::opt_view(query) {
        Some(q) => seq![(encode_component("title"@), Some(encode_component(q)))],
        None => Seq::<(Seq<char>, Option<Seq<char>>)>::empty(),
    });
    let mut i: usize = 0;
    assert(filters@.take(0) =~= Seq::<FilterValue>::empty());
    while i < filters.len()
        invariant
            i <= filters@.len(),
            qs@ == apply_filters(start, filters@.take(i as int)),
        decreases filters@.len() - i,
    {
        assert(filters@.take(i + 1).drop_last() =~= filters@.take(i as int));
        let ghost before = qs@;
        match &filters[i] {
            FilterValue::Text { id, value } => {
                qs.push(id.as_str(), Some(value.as_str()));
            },
            FilterValue::Select { id, value } => {
                if !value.as_str().is_empty() {
                    qs.set(id.as_str(), Some(value.as_str()));
                }
            },
            FilterValue::Sort { id, index, .. } => {
                let v = sort_value_exec(*index);
                if !v.is_empty() {
                    qs.set(id.as_str(), Some(v));
                }
            },
            FilterValue::MultiSelect { id, included, excluded } => {
                push_all(&mut qs, id.as_str(), included, false);
                push_all(&mut qs, id.as_str(), excluded, true);
            },
            _ => {},
        }
        assert(qs@ =~= apply_filter(before, filters@[i as int]));
        i = i + 1;
    }
    assert(filters@.take(filters@.len() as int) =~= filters@);
    let q = qs.to_query_string();
    let mut u = chars_of(BASE_URL);
    push_str(&mut u, MANGA_PATH);
    push_str(&mut u, "/?");
    push_str(&mut u, q.as_str());
    string_of(u.as_slice())
}

pub open spec fn deep_link_spec(url: Seq<char>) -> Option<DeepLink> {
    match strip_prefix(url, BASE_URL@) {
        Some(path) => if starts_with(path, MANGA_PATH@) {
            Some(DeepLink::Manga(path))
        } else {
            None
        },
        None => None,
    }
}

/// A comic page on the site, under `/comics`, leads to that comic, keyed
/// by its path; a link to another site leads nowhere.
pub proof fn lemma_comic_links(rest: Seq<char>, url: Seq<char>)
    ensures
        deep_link_spec(BASE_URL@ + "/comics"@ + rest) == Some(DeepLink::Manga("/comics"@ + rest)),
        !starts_with(url, BASE_URL@) ==> deep_link_spec(url) is None,
{
    reveal_strlit("/comics");
    let u = BASE_URL@ + "/comics"@ + rest;
    let p = "/comics"@ + rest;
    assert(u.subrange(0, BASE_URL@.len() as int) =~= BASE_URL@);
    assert(u.subrange(BASE_URL@.len() as int, u.len() as int) =~= p);
    assert(p.subrange(0, 7) =~= "/comics"@);
    assert(MANGA_PATH@ == "/comics"@);
}

/// Comic pages lead to their comic, keyed by its path.
pub fn handle_deep_link(url: &str) -> (r: Option<DeepLinkResult>)
    ensures
        link_view(r) == deep_link_spec(url@),
{
    let u = chars_of(url);
    match strip_prefix_exec(u.as_slice(), BASE_URL) {
        Some(path) => {
            let p = string_of(path.as_slice());
            if crate::text::str_starts_with(p.as_str(), MANGA_PATH) {
                Some(DeepLinkResult::Manga { key: p })
            } else {
                None
            }
        },
        None => None,
    }
}

} // verus!
