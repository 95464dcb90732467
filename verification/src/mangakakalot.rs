//! MangaKakalot (mangakakalot.gg): the address the source works against.
use vstd::prelude::*;
use crate::text::{chars_of, string_of};

verus! {

pub const BASE_URL: &'static str = "https://www.mangakakalot.gg";

/// The site's address: the one the user set, else the default.
pub fn base_url(setting: Option<String>) -> (r: String)
    ensures
        r@ == (match setting {
            Some(s) => s@,
            None => BASE_URL@,
        }),
{
    match setting {
        Some(s) => s,
        None => string_of(chars_of(BASE_URL).as_slice()),
    }
}

} // verus!
