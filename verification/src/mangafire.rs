//! MangaFire: the api's listing, manga and chapter records as the app shows
//! them.
use vstd::prelude::*;
use crate::model::{Chapter, ContentRating, Manga, MangaStatus, Viewer, opt_string};
use crate::text::{chars_of, dec_i64, dec_int, push_str, string_of};

verus! {

/// A page of api results.
pub struct ApiResponse<T> {
    pub items: Vec<T>,
    pub meta: Option<ApiMeta>,
}

pub struct ApiMeta {
    pub has_next: bool,
}

impl<T> ApiResponse<T> {
    /// Whether the api has a page after this one; a response without paging
    /// data has none.
    pub fn has_next(&self) -> (r: bool)
        ensures
            r == (match self.meta {
                Some(m) => m.has_next,
                None => false,
            }),
    {
        match &self.meta {
            Some(m) => m.has_next,
            None => false,
        }
    }
}

pub struct ApiPoster {
    pub small: Option<String>,
    pub medium: Option<String>,
    pub large: Option<String>,
}

/// The largest poster size there is.
pub open spec fn poster_url(p: Option<ApiPoster>) -> Option<Seq<char>> {
    match p {
        Some(p) => match p.large {
            Some(l) => Some(l@),
            None => match p.medium {
                Some(m) => Some(m@),
                None => opt_string(p.small),
            },
        },
        None => None,
    }
}

pub fn poster_cover(poster: Option<ApiPoster>) -> (r: Option<String>)
    ensures
        opt_string(r) == poster_url(poster),
{
    match poster {
        Some(p) => match p.large {
            Some(l) => Some(l),
            None => match p.medium {
                Some(m) => Some(m),
                None => p.small,
            },
        },
        None => None,
    }
}

/// A manga as listings give it.
pub struct ApiManga {
    pub hid: String,
    pub slug: Option<String>,
    pub title: String,
    pub poster: Option<ApiPoster>,
}

impl ApiManga {
    /// A listing entry: keyed by its id, with the largest poster as cover.
    pub fn into_manga(self) -> (m: Manga)
        ensures
            m.key == self.hid,
            m.title == self.title,
            opt_string(m.cover) == poster_url(self.poster),
            m.artists is None && m.authors is None && m.description is None,
            m.url is None && m.tags is None,
            m.status == MangaStatus::Unknown,
            m.content_rating == ContentRating::Unknown,
            m.viewer == Viewer::Unknown,
    {
        let mut m = Manga::new(self.hid, self.title);
        m.cover = poster_cover(self.poster);
        m
    }
}

pub struct ApiEntity {
    pub title: String,
}

/// A chapter as the api lists it; its number is kept as the decimal text
/// the app reads it from.
pub struct ApiChapter {
    pub id: i32,
    pub number: String,
    pub name: Option<String>,
    pub created_at: Option<i64>,
}

impl ApiChapter {
    /// The chapter as the app shows it, in language `lang`, keyed by its id
    /// and found under the manga's key.
    pub fn into_chapter(self, manga_key: &str, lang: &str) -> (c: Chapter)
        ensures
            c.key@ == dec_int(self.id as int),
            c.title == (match self.name {
                Some(n) => if n@.len() > 0 {
                    Some(n)
                } else {
                    None
                },
                None => None,
            }),
            c.number == Some(self.number),
            c.date_uploaded == self.created_at,
            c.url matches Some(u) && u@ == manga_key@ + "/"@ + dec_int(self.id as int),
            c.language matches Some(l) && l@ == lang@,
            c.scanlators is None,
    {
        let id = dec_i64(self.id as i64);
        let mut u = chars_of(manga_key);
        push_str(&mut u, "/");
        u.extend_from_slice(id.as_slice());
        proof {
            reveal_strlit("/");
        }
        assert(u@ =~= manga_key@ + "/"@ + dec_int(self.id as int));
        let mut c = Chapter::new(string_of(id.as_slice()));
        c.title = match self.name {
            Some(n) => if n.as_str().is_empty() {
                None
            } else {
                Some(n)
            },
            None => None,
        };
        c.number = Some(self.number);
        c.date_uploaded = self.created_at;
        c.url = Some(string_of(u.as_slice()));
        c.language = Some(string_of(chars_of(lang).as_slice()));
        c
    }
}

pub struct ApiTag {
    pub id: i32,
    pub name: String,
    pub tag_type: String,
}

} // verus!
