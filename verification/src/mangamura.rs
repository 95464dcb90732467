//! MangaMura (mangamura.me): sort ids, the page list's address and the
//! search's default filters.
use vstd::prelude::*;
use crate::text::{chars_of, push_str, string_of};
use crate::url::{QueryParameters, encode_component};

verus! {

pub const BASE_URL: &'static str = "https://mangamura.me";

pub open spec fn sort_id_spec(index: i32) -> Seq<char> {
    if index == 1 {
        "latest-update"@
    } else if index == 2 {
        "most-viewed"@
    } else if index == 3 {
        "title-az"@
    } else if index == 4 {
        "title-za"@
    } else {
        "default"@
    }
}

/// The sort options, in the order the filter lists them: "default",
/// "latest-update", "most-viewed", "title-az", "title-za"; any other index
/// sorts by "default".
pub proof fn lemma_sort_keys(index: i32)
    ensures
        sort_id_spec(0i32) == "default"@,
        sort_id_spec(1i32) == "latest-update"@,
        sort_id_spec(2i32) == "most-viewed"@,
        sort_id_spec(3i32) == "title-az"@,
        sort_id_spec(4i32) == "title-za"@,
        (index < 0 || index >= 5) ==> sort_id_spec(index) == "default"@,
{
    reveal_strlit("default");
    reveal_strlit("latest-update");
    reveal_strlit("most-viewed");
    reveal_strlit("title-az");
    reveal_strlit("title-za");
}

/// The sort a sort filter's index stands for; the default otherwise.
pub fn get_sort_id(index: i32) -> (r: &'static str)
    ensures
        r@ == sort_id_spec(index),
{
    if index == 1 {
        "latest-update"
    } else if index == 2 {
        "most-viewed"
    } else if index == 3 {
        "title-az"
    } else if index == 4 {
        "title-za"
    } else {
        "default"
    }
}

/// Where a chapter's pages are listed, vertically.
pub fn page_url_path(chapter_id: &str) -> (r: String)
    ensures
        r@ == "/json/chapter?id="@ + chapter_id@ + "&mode=vertical"@,
{
    let mut v = chars_of("/json/chapter?id=");
    push_str(&mut v, chapter_id);
    push_str(&mut v, "&mode=vertical");
    string_of(v.as_slice())
}

/// Sets the filters a search starts from: every type, status and
/// language, the default order.
pub fn set_default_filters(qs: &mut QueryParameters)
    ensures
        final(qs)@ == old(qs)@.filter(|p: (Seq<char>, Option<Seq<char>>)| p.0 != encode_component("type"@))
            .push((encode_component("type"@), Some(encode_component("all"@))))
            .filter(|p: (Seq<char>, Option<Seq<char>>)| p.0 != encode_component("status"@))
            .push((encode_component("status"@), Some(encode_component("all"@))))
            .filter(|p: (Seq<char>, Option<Seq<char>>)| p.0 != encode_component("language"@))
            .push((encode_component("language"@), Some(encode_component("all"@))))
            .filter(|p: (Seq<char>, Option<Seq<char>>)| p.0 != encode_component("sort"@))
            .push((encode_component("sort"@), Some(encode_component("default"@)))),
{
    qs.set("type", Some("all"));
    qs.set("status", Some("all"));
    qs.set("language", Some("all"));
    qs.set("sort", Some("default"));
}

} // verus!
