//! The values sources hand to the app: manga, chapters, deep link targets and
//! the filter values a search comes with. Floating point fields of the app's
//! own types (chapter and volume numbers) are filled in by the caller.
use vstd::prelude::*;

verus! {

#[derive(Debug, Clone, Copy, PartialEq, Eq, Structural)]
pub enum ContentRating {
    Unknown,
    Safe,
    Suggestive,
    NSFW,
}

#[derive(Debug, Clone, Copy, PartialEq, Eq, Structural)]
pub enum MangaStatus {
    Unknown,
    Ongoing,
    Completed,
    Cancelled,
    Hiatus,
}

#[derive(Debug, Clone, Copy, PartialEq, Eq, Structural)]
pub enum Viewer {
    Unknown,
    LeftToRight,
    RightToLeft,
    Vertical,
    Webtoon,
}

/// Where a shared url leads.
#[derive(Debug, Clone, PartialEq, Eq)]
pub enum DeepLinkResult {
    Manga { key: String },
    Chapter { manga_key: String, key: String },
}

/// The view of a deep link target: the keys it names.
pub enum DeepLink {
    Manga(Seq<char>),
    Chapter(Seq<char>, Seq<char>),
}

impl DeepLinkResult {
    pub open spec fn spec_view(&self) -> DeepLink {
        match self {
            DeepLinkResult::Manga { key } => DeepLink::Manga(key@),
            DeepLinkResult::Chapter { manga_key, key } => DeepLink::Chapter(manga_key@, key@),
        }
    }
}

/// The view of an optional deep link result.
pub open spec fn link_view(r: Option<DeepLinkResult>) -> Option<DeepLink> {
    match r {
        Some(l) => Some(l.spec_view()),
        None => None,
    }
}

/// The view of an optional string.
pub open spec fn opt_string(o: Option<String>) -> Option<Seq<char>> {
    match o {
        Some(s) => Some(s@),
        None => None,
    }
}

/// The view of an optional list of strings.
pub open spec fn opt_strings(o: Option<Vec<String>>) -> Option<Seq<Seq<char>>> {
    match o {
        Some(v) => Some(v@.map_values(|s: String| s@)),
        None => None,
    }
}

/// A manga entry as shown in listings and on its details page.
#[derive(Debug, Clone, PartialEq, Eq)]
pub struct Manga {
    pub key: String,
    pub title: String,
    pub cover: Option<String>,
    pub artists: Option<Vec<String>>,
    pub authors: Option<Vec<String>>,
    pub description: Option<String>,
    pub url: Option<String>,
    pub tags: Option<Vec<String>>,
    pub status: MangaStatus,
    pub content_rating: ContentRating,
    pub viewer: Viewer,
}

impl Manga {
    /// An entry with a key and a title and nothing else known about it.
    pub fn new(key: String, title: String) -> (m: Manga)
        ensures
            m.key == key,
            m.title == title,
            m.cover is None,
            m.artists is None,
            m.authors is None,
            m.description is None,
            m.url is None,
            m.tags is None,
            m.status == MangaStatus::Unknown,
            m.content_rating == ContentRating::Unknown,
            m.viewer == Viewer::Unknown,
    {
        Manga {
            key,
            title,
            cover: None,
            artists: None,
            authors: None,
            description: None,
            url: None,
            tags: None,
            status: MangaStatus::Unknown,
            content_rating: ContentRating::Unknown,
            viewer: Viewer::Unknown,
        }
    }
}

/// A chapter entry. Its number and volume, when the source knows them, are
/// kept as the decimal text the app reads them from; a text that doesn't
/// read as a number stands for none.
#[derive(Debug, Clone, PartialEq, Eq)]
pub struct Chapter {
    pub key: String,
    pub title: Option<String>,
    pub number: Option<String>,
    pub volume: Option<String>,
    pub date_uploaded: Option<i64>,
    pub scanlators: Option<Vec<String>>,
    pub url: Option<String>,
    pub language: Option<String>,
}

impl Chapter {
    pub fn new(key: String) -> (c: Chapter)
        ensures
            c.key == key,
            c.title is None,
            c.number is None,
            c.volume is None,
            c.date_uploaded is None,
            c.scanlators is None,
            c.url is None,
            c.language is None,
    {
        Chapter {
            key,
            title: None,
            number: None,
            volume: None,
            date_uploaded: None,
            scanlators: None,
            url: None,
            language: None,
        }
    }
}

/// A manga together with its latest chapter, as release listings show it.
#[derive(Debug, Clone, PartialEq, Eq)]
pub struct MangaWithChapter {
    pub manga: Manga,
    pub chapter: Chapter,
}

/// A bound of a range filter: the value truncated to an integer, and the
/// value as the app writes it out.
#[derive(Debug, Clone, PartialEq, Eq)]
pub struct RangeBound {
    pub whole: i32,
    pub text: String,
}

/// A filter value a search is made with.
#[derive(Debug, Clone, PartialEq, Eq)]
pub enum FilterValue {
    Text { id: String, value: String },
    Sort { id: String, index: i32, ascending: bool },
    Check { id: String, value: i32 },
    Select { id: String, value: String },
    MultiSelect { id: String, included: Vec<String>, excluded: Vec<String> },
    Range { id: String, from: Option<RangeBound>, to: Option<RangeBound> },
}

} // verus!
