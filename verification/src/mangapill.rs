//! MangaPill: status, reader and rating mapping, search urls and deep links.
use vstd::prelude::*;
use crate::model::{ContentRating, DeepLink, DeepLinkResult, FilterValue, MangaStatus, Viewer, link_view};
use crate::text::{
    any_one_of, ascii_lower, ascii_lower_exec, chars_of, contains, contains_lit, has_any, push_str,
    starts_with, str_starts_with, string_of, strip_prefix, strip_prefix_exec, strs_view, views,
};
use crate::url::{QueryParameters, encode_component, encode_opt, query_text};

verus! {

pub const BASE_URL: &'static str = "https://mangapill.com";

pub open spec fn status_spec(text: Seq<char>) -> MangaStatus {
    let l = ascii_lower(text);
    if contains(l, "publishing"@) {
        MangaStatus::Ongoing
    } else if contains(l, "finished"@) {
        MangaStatus::Completed
    } else if contains(l, "on hiatus"@) {
        MangaStatus::Hiatus
    } else if contains(l, "discontinued"@) {
        MangaStatus::Cancelled
    } else {
        MangaStatus::Unknown
    }
}

/// A details text mentioning "publishing" (any ASCII case) is ongoing; one
/// mentioning "finished" and not "publishing" is completed; "on hiatus"
/// before "discontinued" makes it on hiatus, "discontinued" cancelled.
pub proof fn lemma_status_names(text: Seq<char>)
    ensures
        ({
            let l = ascii_lower(text);
            &&& contains(l, "publishing"@) ==> status_spec(text) == MangaStatus::Ongoing
            &&& !contains(l, "publishing"@) && contains(l, "finished"@) ==> status_spec(text)
                == MangaStatus::Completed
            &&& !contains(l, "publishing"@) && !contains(l, "finished"@) && contains(l, "on hiatus"@)
                ==> status_spec(text) == MangaStatus::Hiatus
            &&& !contains(l, "publishing"@) && !contains(l, "finished"@) && !contains(l, "on hiatus"@)
                && contains(l, "discontinued"@) ==> status_spec(text) == MangaStatus::Cancelled
        }),
{
}

/// The publishing status named in the details text.
pub fn parse_status(text: &str) -> (r: MangaStatus)
    ensures
        r == status_spec(text@),
{
    let l = ascii_lower_exec(chars_of(text).as_slice());
    if contains_lit(l.as_slice(), "publishing") {
        MangaStatus::Ongoing
    } else if contains_lit(l.as_slice(), "finished") {
        MangaStatus::Completed
    } else if contains_lit(l.as_slice(), "on hiatus") {
        MangaStatus::Hiatus
    } else if contains_lit(l.as_slice(), "discontinued") {
        MangaStatus::Cancelled
    } else {
        MangaStatus::Unknown
    }
}

/// Korean and Chinese comics scroll vertically; everything else reads right
/// to left.
pub fn parse_viewer(tags: &[String]) -> (r: Viewer)
    ensures
        r == if has_any(views(tags@), seq!["Manhwa"@, "Manhua"@]) {
            Viewer::Webtoon
        } else {
            Viewer::RightToLeft
        },
{
    let options: [&str; 2] = ["Manhwa", "Manhua"];
    assert(strs_view(options@) =~= seq!["Manhwa"@, "Manhua"@]);
    if any_one_of(tags, &options) {
        Viewer::Webtoon
    } else {
        Viewer::RightToLeft
    }
}

pub fn parse_content_rating(tags: &[String]) -> (r: ContentRating)
    ensures
        r == if has_any(views(tags@), seq!["Hentai"@]) {
            ContentRating::NSFW
        } else if has_any(views(tags@), seq!["Ecchi"@]) {
            ContentRating::Suggestive
        } else {
            ContentRating::Safe
        },
{
    let nsfw: [&str; 1] = ["Hentai"];
    let suggestive: [&str; 1] = ["Ecchi"];
    assert(strs_view(nsfw@) =~= seq!["Hentai"@]);
    assert(strs_view(suggestive@) =~= seq!["Ecchi"@]);
    if any_one_of(tags, &nsfw) {
        ContentRating::NSFW
    } else if any_one_of(tags, &suggestive) {
        ContentRating::Suggestive
    } else {
        ContentRating::Safe
    }
}

pub open spec fn deep_link_spec(url: Seq<char>) -> Option<DeepLink> {
    match strip_prefix(url, BASE_URL@) {
        Some(path) => if starts_with(path, "/manga/"@) {
            Some(DeepLink::Manga(path))
        } else {
            None
        },
        None => None,
    }
}

/// A manga page on the site, `/manga/...`, leads to that manga, keyed by
/// its path; a link to another site leads nowhere.
pub proof fn lemma_manga_links(rest: Seq<char>, url: Seq<char>)
    ensures
        deep_link_spec(BASE_URL@ + "/manga/"@ + rest) == Some(DeepLink::Manga("/manga/"@ + rest)),
        !starts_with(url, BASE_URL@) ==> deep_link_spec(url) is None,
{
    let u = BASE_URL@ + "/manga/"@ + rest;
    let p = "/manga/"@ + rest;
    assert(u.subrange(0, BASE_URL@.len() as int) =~= BASE_URL@);
    assert(u.subrange(BASE_URL@.len() as int, u.len() as int) =~= p);
    assert(p.subrange(0, "/manga/"@.len() as int) =~= "/manga/"@);
}

/// Manga pages are keyed by their path.
pub fn handle_deep_link(url: &str) -> (r: Option<DeepLinkResult>)
    ensures
        link_view(r) == deep_link_spec(url@),
{
    let u = chars_of(url);
    match strip_prefix_exec(u.as_slice(), BASE_URL) {
        Some(path) => {
            let p = string_of(path.as_slice());
            if str_starts_with(p.as_str(), "/manga/") {
                Some(DeepLinkResult::Manga { key: p })
            } else {
                None
            }
        },
        None => None,
    }
}

pub type Params = Seq<(Seq<char>, Option<Seq<char>>)>;

/// The parameters of one filter value when browsing: selects as they are,
/// multi selects once per included value.
pub open spec fn filter_params(f: FilterValue) -> Params {
    match f {
        FilterValue::Select { id, value } => seq![(encode_component(id@), Some(encode_component(value@)))],
        FilterValue::MultiSelect { id, included, .. } => views(included@).map_values(
            |v: Seq<char>| (encode_component(id@), Some(encode_component(v))),
        ),
        _ => Seq::empty(),
    }
}

pub open spec fn filters_params(fs: Seq<FilterValue>) -> Params
    decreases fs.len(),
{
    if fs.len() == 0 {
        Seq::empty()
    } else {
        filters_params(fs.drop_last()) + filter_params(fs.last())
    }
}

/// A search: the page, then the term, or the filters when there is none.
pub open spec fn search_url_spec(query: Option<Seq<char>>, page: int, filters: Seq<FilterValue>) -> Seq<char> {
    BASE_URL@ + "/search?"@ + query_text(
        seq![(encode_component("page"@), Some(encode_component(crate::text::dec_int(page))))] + match query {
            Some(q) => seq![(encode_component("q"@), Some(encode_component(q)))],
            None => filters_params(filters),
        },
    )
}

/// A search for a term asks `/search?page=<page>&q=<term>`, the term
/// encoded, whatever filters are set.
pub proof fn lemma_search_urls(q: Seq<char>, page: int, filters: Seq<FilterValue>)
    ensures
        search_url_spec(Some(q), page, filters) == BASE_URL@ + "/search?page="@ + crate::text::dec_int(
            page,
        ) + "&q="@ + encode_component(q),
{
    reveal_strlit("page");
    reveal_strlit("q");
    reveal_strlit("/search?");
    reveal_strlit("/search?page=");
    reveal_strlit("&q=");
    crate::url::lemma_plain_text("page"@);
    crate::url::lemma_plain_text("q"@);
    crate::url::lemma_plain_number(page);
    let d = crate::text::dec_int(page);
    let a = ("page"@, Some(d));
    let b = ("q"@, Some(encode_component(q)));
    crate::url::lemma_query_pairs(a, b, b);
    assert(seq![(encode_component("page"@), Some(encode_component(d)))] + seq![
        (encode_component("q"@), Some(encode_component(q))),
    ] =~= seq![a, b]);
    assert(BASE_URL@ + "/search?"@ + (crate::url::param_text(a) + seq!['&'] + crate::url::param_text(b))
        =~= BASE_URL@ + "/search?page="@ + d + "&q="@ + encode_component(q));
}

pub fn search_url(query: Option<&str>, page: i32, filters: &[FilterValue]) -> (r: String)
    ensures
        r@ == search_url_spec(crate::atsumaru::opt_view(query), page as int, filters@),
{
    let mut qs = QueryParameters::new();
    let page_text = string_of(crate::text::dec_i64(page as i64).as_slice());
    qs.push("page", Some(page_text.as_str()));
    let ghost start = qs@;
    assert(start =~= seq![(encode_component("page"@), Some(encode_component(crate::text::dec_int(page as int))))]);
    match query {
        Some(q) => {
            qs.push("q", Some(q));
        },
        None => {
            let mut i: usize = 0;
            while i < filters.len()
                invariant
                    i <= filters@.len(),
                    qs@ == start + filters_params(filters@.subrange(0, i as int)),
                decreases filters@.len() - i,
            {
                let ghost before = qs@;
                assert(filters@.subrange(0, i + 1).drop_last() =~= filters@.subrange(0, i as int));
                match &filters[i] {
                    FilterValue::Select { id, value } => {
                        qs.push(id.as_str(), Some(value.as_str()));
                        assert(qs@ =~= before + filter_params(filters@[i as int]));
                    },
                    FilterValue::MultiSelect { id, included, .. } => {
                        let mut k: usize = 0;
                        while k < included.len()
                            invariant
                                k <= included@.len(),
                                qs@ == before + views(included@.subrange(0, k as int)).map_values(
                                    |v: Seq<char>| (encode_component(id@), Some(encode_component(v))),
                                ),
                            decreases included@.len() - k,
                        {
                            let ghost mid = qs@;
                            qs.push(id.as_str(), Some(included[k].as_str()));
                            assert(views(included@.subrange(0, k + 1)).map_values(
                                |v: Seq<char>| (encode_component(id@), Some(encode_component(v))),
                            ) =~= views(included@.subrange(0, k as int)).map_values(
                                |v: Seq<char>| (encode_component(id@), Some(encode_component(v))),
                            ).push((encode_component(id@), Some(encode_component(included@[k as int]@)))));
                            k = k + 1;
                        }
                        assert(included@.subrange(0, included@.len() as int) =~= included@);
                    },
                    _ => {
                        assert(qs@ =~= before + filter_params(filters@[i as int]));
                    },
                }
                i = i + 1;
            }
            assert(filters@.subrange(0, filters@.len() as int) =~= filters@);
        },
    }
    assert(qs@ =~= seq![(encode_component("page"@), Some(encode_component(crate::text::dec_int(page as int))))] + match crate::atsumaru::opt_view(query) {
            Some(q) => seq![(encode_component("q"@), Some(encode_component(q)))],
            None => filters_params(filters@),
        });
    let mut out: Vec<char> = Vec::new();
    push_str(&mut out, BASE_URL);
    push_str(&mut out, "/search?");
    let t = qs.to_query_string();
    push_str(&mut out, t.as_str());
    assert(out@ =~= search_url_spec(crate::atsumaru::opt_view(query), page as int, filters@));
    string_of(out.as_slice())
}

} // verus!
