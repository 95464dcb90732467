//! RawDevart (rawdevart.art): manga keys from page ids, descriptions and the
//! content rating its tags imply, and the pagination its listings carry.
use vstd::prelude::*;
use crate::model::{Chapter, ContentRating, Manga, MangaStatus, Viewer};
use crate::text::{
    all_digits, chars_of, dec_i64, dec_int, lowercase, string_of, text_or_source, to_lowercase, trim, trim_str,
    trim_letters_start, trim_letters_start_exec, views,
};

verus! {

/// The pagination of a manga listing.
pub struct Pagination {
    pub button: Option<PaginationButton>,
}

pub struct PaginationButton {
    /// The next page number, or zero when the current page is the last one.
    pub next: i32,
}

/// The key a page id stands for: page urls put letters in front of the
/// numeric id.
pub open spec fn manga_key_spec(id: Seq<char>) -> Option<Seq<char>> {
    let key = trim_letters_start(id);
    if key.len() > 0 && all_digits(key) {
        Some(key)
    } else {
        None
    }
}

/// The numeric key in a page id, once the letters in front of it are gone;
/// nothing when what is left is empty or not all digits.
pub fn manga_key(id: &str) -> (r: Option<String>)
    ensures
        crate::model::opt_string(r) == manga_key_spec(id@),
{
    let v = chars_of(id);
    let key = trim_letters_start_exec(v.as_slice());
    if key.len() == 0 {
        return None;
    }
    let mut i: usize = 0;
    while i < key.len()
        invariant
            i <= key@.len(),
            key@ == trim_letters_start(id@),
            forall|j: int| 0 <= j < i ==> crate::text::is_ascii_digit(#[trigger] key@[j]),
        decreases key@.len() - i,
    {
        if !('0' <= key[i] && key[i] <= '9') {
            return None;
        }
        i = i + 1;
    }
    Some(string_of(key.as_slice()))
}

/// A description with its markup taken out: the text the markup parser read
/// off it (`parsed`), or the description itself where it read none, trimmed.
pub fn strip_html(parsed: Option<String>, description: &str) -> (r: String)
    ensures
        r@ == trim(
            match parsed {
                Some(t) => t@,
                None => description@,
            },
        ),
{
    text_or_source(parsed, description)
}

pub open spec fn is_explicit_tag(t: Seq<char>) -> bool {
    t == "adult"@ || t == "hentai"@ || t == "loli"@ || t == "lolicon"@ || t == "mature"@ || t
        == "shotacon"@ || t == "smut"@
}

/// The rating the tags imply: an explicit tag, in any case, makes an entry
/// NSFW, "ecchi" makes it suggestive, and it is safe otherwise.
pub open spec fn content_rating_spec(tags: Seq<Seq<char>>) -> ContentRating {
    if exists|i: int| 0 <= i < tags.len() && is_explicit_tag(lowercase(#[trigger] tags[i])) {
        ContentRating::NSFW
    } else if exists|i: int| 0 <= i < tags.len() && lowercase(#[trigger] tags[i]) == "ecchi"@ {
        ContentRating::Suggestive
    } else {
        ContentRating::Safe
    }
}

/// A tag "adult", "hentai", "loli", "lolicon", "mature", "shotacon" or
/// "smut", in any case, makes an entry NSFW wherever it stands; "ecchi"
/// makes it at least suggestive.
pub proof fn lemma_rating_words(before: Seq<Seq<char>>, t: Seq<char>, after: Seq<Seq<char>>, all: Seq<Seq<char>>)
    requires
        all == before + seq![t] + after,
    ensures
        ({
            let l = lowercase(t);
            l == "adult"@ || l == "hentai"@ || l == "loli"@ || l == "lolicon"@ || l == "mature"@ || l
                == "shotacon"@ || l == "smut"@
        }) ==> content_rating_spec(all) == ContentRating::NSFW,
        lowercase(t) == "ecchi"@ ==> content_rating_spec(all) != ContentRating::Safe,
{
    assert(all[before.len() as int] == t);
}

/// The content rating of an entry, which the api leaves to its tags.
pub fn content_rating(tags: &[String]) -> (r: ContentRating)
    ensures
        r == content_rating_spec(views(tags@)),
{
    let ghost ts = views(tags@);
    let mut suggestive = false;
    let mut i: usize = 0;
    while i < tags.len()
        invariant
            i <= tags@.len(),
            ts == views(tags@),
            forall|j: int| 0 <= j < i ==> !is_explicit_tag(lowercase(#[trigger] ts[j])),
            suggestive == exists|j: int| 0 <= j < i && lowercase(#[trigger] ts[j]) == "ecchi"@,
        decreases tags@.len() - i,
    {
        let l = to_lowercase(tags[i].as_str());
        assert(ts[i as int] == tags@[i as int]@);
        let lv = chars_of(l.as_str());
        let s = lv.as_slice();
        let explicit: [&str; 7] = ["adult", "hentai", "loli", "lolicon", "mature", "shotacon", "smut"];
        let ghost opts = seq!["adult"@, "hentai"@, "loli"@, "lolicon"@, "mature"@, "shotacon"@, "smut"@];
        assert(crate::text::strs_view(explicit@) =~= opts);
        assert(opts.contains(s@) <==> is_explicit_tag(s@)) by {
            if is_explicit_tag(s@) {
                if s@ == "adult"@ { assert(opts[0] == s@); }
                else if s@ == "hentai"@ { assert(opts[1] == s@); }
                else if s@ == "loli"@ { assert(opts[2] == s@); }
                else if s@ == "lolicon"@ { assert(opts[3] == s@); }
                else if s@ == "mature"@ { assert(opts[4] == s@); }
                else if s@ == "shotacon"@ { assert(opts[5] == s@); }
                else { assert(opts[6] == s@); }
            }
        }
        if crate::text::one_of(s, &explicit) {
            return ContentRating::NSFW;
        }
        if crate::text::lit_eq(s, "ecchi") {
            suggestive = true;
        }
        i = i + 1;
    }
    if suggestive {
        ContentRating::Suggestive
    } else {
        ContentRating::Safe
    }
}

/// A manga of a listing, holding just enough to show a cover.
pub struct MangaEntry {
    pub manga_id: i64,
    pub manga_name: String,
    pub manga_cover_img: Option<String>,
    pub manga_cover_img_full: Option<String>,
}

/// A listing entry as a manga, keyed by its id in decimal, with its name
/// trimmed and the full size cover preferred. `url` is the address of its
/// page.
pub fn entry_manga(value: &MangaEntry, url: String) -> (m: Manga)
    ensures
        m.key@ == dec_int(value.manga_id as int),
        m.title@ == trim(value.manga_name@),
        crate::model::opt_string(m.url) == Some(url@),
        crate::model::opt_string(m.cover) == (match value.manga_cover_img_full {
            Some(c) => Some(c@),
            None => crate::model::opt_string(value.manga_cover_img),
        }),
        m.artists is None,
        m.authors is None,
        m.description is None,
        m.tags is None,
        m.status == MangaStatus::Unknown,
        m.content_rating == ContentRating::Unknown,
        m.viewer == Viewer::Unknown,
{
    let key = string_of(dec_i64(value.manga_id).as_slice());
    let mut m = Manga::new(key, trim_str(value.manga_name.as_str()));
    m.url = Some(url);
    m.cover = match &value.manga_cover_img_full {
        Some(c) => Some(string_of(chars_of(c.as_str()).as_slice())),
        None => match &value.manga_cover_img {
            Some(c) => Some(string_of(chars_of(c.as_str()).as_slice())),
            None => None,
        },
    };
    m
}

/// A chapter list entry. The chapter's number is its key; `number` is it as
/// the app writes it, and `date` the upload time read off its date text.
pub struct ChapterEntry {
    pub number: Option<String>,
    pub chapter_title: Option<String>,
    pub date: Option<i64>,
}

/// A chapter list entry as a chapter; one without a number cannot be asked
/// for, and gives none. `url` forms the reader's address from the chapter's
/// key.
pub fn into_chapter(entry: &ChapterEntry, url: String) -> (r: Option<Chapter>)
    ensures
        entry.number is None <==> r is None,
        entry.number matches Some(n) ==> {
            let c = r->0;
            &&& c.key@ == n@
            &&& crate::model::opt_string(c.number) == Some(n@)
            &&& crate::model::opt_string(c.url) == Some(url@)
            &&& crate::model::opt_string(c.title) == (match entry.chapter_title {
                Some(t) => if trim(t@).len() > 0 {
                    Some(trim(t@))
                } else {
                    None
                },
                None => None,
            })
            &&& c.date_uploaded == entry.date
            &&& c.volume is None
            &&& c.scanlators is None
            &&& c.language is None
        },
{
    let n = match &entry.number {
        Some(n) => n,
        None => return None,
    };
    let mut c = Chapter::new(string_of(chars_of(n.as_str()).as_slice()));
    c.number = Some(string_of(chars_of(n.as_str()).as_slice()));
    c.url = Some(url);
    c.title = match &entry.chapter_title {
        Some(t) => {
            let tr = trim_str(t.as_str());
            if tr.as_str().unicode_len() > 0 {
                Some(tr)
            } else {
                None
            }
        },
        None => None,
    };
    c.date_uploaded = entry.date;
    Some(c)
}

} // verus!
