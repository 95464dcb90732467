//! Atsumaru (atsu.moe): search urls for its Typesense collection, image
//! urls, status and rating mapping, dates and deep links.
use vstd::prelude::*;
use crate::model::{ContentRating, DeepLink, DeepLinkResult, FilterValue, Manga, MangaStatus, Viewer, link_view};
use crate::text::{
    before_any, before_any_exec, chars_of, dec_int, dec_i64, join, lowercase, pieces, pieces_exec,
    push_slice, push_str, slice_to_vec, slices_eq, starts_with, starts_with_exec, str_eq,
    string_of, strip_prefix, strip_prefix_exec, to_lowercase, trim, trim_bounds, trim_exec, views,
};
use crate::url::{QueryParameters, encode_component, query_text};

verus! {

pub const BASE_URL: &'static str = "https://atsu.moe";

/// Static files are served from a separate host.
pub const CDN_URL: &'static str = "https://cdn.atsu.moe";

/// The manga types the website browses with.
pub const TYPES: &'static str = "Manga,Manwha,Manhua,OEL";

/// The amount of search results requested per page.
pub const PER_PAGE: i32 = 40;

// ---------------------------------------------------------------------------
// Listings
// ---------------------------------------------------------------------------

pub open spec fn listing_url_spec(endpoint: Seq<char>, page: int, adult: bool) -> Seq<char> {
    BASE_URL@ + "/api/infinite/"@ + endpoint + "?page="@ + dec_int(page - 1) + "&types="@ + TYPES@
        + (if adult {
        "&adult=1"@
    } else {
        Seq::empty()
    })
}

/// The url of one of the infinite scroll listing endpoints, which count pages
/// from zero. `adult` is the user's adult mode setting.
pub fn listing_url(endpoint: &str, page: i32, adult: bool) -> (r: String)
    requires
        page > i32::MIN,
    ensures
        r@ == listing_url_spec(endpoint@, page as int, adult),
{
    let mut out: Vec<char> = Vec::new();
    push_str(&mut out, BASE_URL);
    push_str(&mut out, "/api/infinite/");
    push_str(&mut out, endpoint);
    push_str(&mut out, "?page=");
    let p = dec_i64((page - 1) as i64);
    push_slice(&mut out, p.as_slice());
    push_str(&mut out, "&types=");
    push_str(&mut out, TYPES);
    if adult {
        push_str(&mut out, "&adult=1");
    }
    let ghost tail = if adult {
        "&adult=1"@
    } else {
        Seq::<char>::empty()
    };
    assert(out@ =~= listing_url_spec(endpoint@, page as int, adult));
    string_of(out.as_slice())
}

// ---------------------------------------------------------------------------
// Search
// ---------------------------------------------------------------------------

/// What the filters of a search ask for.
pub struct SearchOptions {
    pub sort_index: int,
    pub ascending: bool,
    pub genres_included: Seq<Seq<char>>,
    pub genres_excluded: Seq<Seq<char>>,
    pub tags_included: Seq<Seq<char>>,
    pub tags_excluded: Seq<Seq<char>>,
    pub types: Seq<Seq<char>>,
    pub statuses: Seq<Seq<char>>,
    pub year_from: Option<i32>,
    pub year_to: Option<i32>,
    pub chapters_from: Option<i32>,
    pub chapters_to: Option<i32>,
    pub official_only: bool,
}

pub open spec fn default_options() -> SearchOptions {
    SearchOptions {
        sort_index: 0,
        ascending: false,
        genres_included: Seq::empty(),
        genres_excluded: Seq::empty(),
        tags_included: Seq::empty(),
        tags_excluded: Seq::empty(),
        types: Seq::empty(),
        statuses: Seq::empty(),
        year_from: None,
        year_to: None,
        chapters_from: None,
        chapters_to: None,
        official_only: false,
    }
}

pub open spec fn bound_whole(b: Option<crate::model::RangeBound>) -> Option<i32> {
    match b {
        Some(x) => Some(x.whole),
        None => None,
    }
}

/// The options after one more filter value; later values win.
pub open spec fn apply_filter(o: SearchOptions, f: FilterValue) -> SearchOptions {
    match f {
        FilterValue::Sort { index, ascending, .. } => SearchOptions {
            sort_index: if index < 0 {
                0
            } else {
                index as int
            },
            ascending,
            ..o
        },
        FilterValue::MultiSelect { id, included, excluded } => if id@ == "genre"@ {
            SearchOptions {
                genres_included: views(included@),
                genres_excluded: views(excluded@),
                ..o
            }
        } else if id@ == "tag"@ {
            SearchOptions { tags_included: views(included@), tags_excluded: views(excluded@), ..o }
        } else if id@ == "type"@ {
            SearchOptions { types: views(included@), ..o }
        } else if id@ == "status"@ {
            SearchOptions { statuses: views(included@), ..o }
        } else {
            o
        },
        FilterValue::Range { id, from, to } => if id@ == "year"@ {
            SearchOptions { year_from: bound_whole(from), year_to: bound_whole(to), ..o }
        } else if id@ == "chapters"@ {
            SearchOptions { chapters_from: bound_whole(from), chapters_to: bound_whole(to), ..o }
        } else {
            o
        },
        FilterValue::Check { id, value } => if id@ == "official"@ {
            SearchOptions { official_only: value == 1, ..o }
        } else {
            o
        },
        _ => o,
    }
}

pub open spec fn scan_filters(fs: Seq<FilterValue>) -> SearchOptions
    decreases fs.len(),
{
    if fs.len() == 0 {
        default_options()
    } else {
        apply_filter(scan_filters(fs.drop_last()), fs.last())
    }
}

/// A value in backticks, as the search engine quotes literals.
pub open spec fn quoted(v: Seq<char>) -> Seq<char> {
    "`"@ + v + "`"@
}

pub open spec fn quoted_list_spec(ids: Seq<Seq<char>>) -> Seq<char> {
    join(ids.map_values(|id: Seq<char>| quoted(id)), ","@)
}

/// One clause per value, each prefixed.
pub open spec fn each_clause(prefix: Seq<char>, ids: Seq<Seq<char>>) -> Seq<Seq<char>> {
    ids.map_values(|id: Seq<char>| prefix + quoted(id))
}

pub open spec fn optional_clause(cond: bool, c: Seq<char>) -> Seq<Seq<char>> {
    if cond {
        seq![c]
    } else {
        Seq::empty()
    }
}

pub open spec fn bound_clause(prefix: Seq<char>, b: Option<i32>) -> Seq<Seq<char>> {
    match b {
        Some(v) => seq![prefix + dec_int(v as int)],
        None => Seq::empty(),
    }
}

/// The `filter_by` clauses of a search, all of which have to hold.
pub open spec fn clauses_spec(o: SearchOptions, adult: bool) -> Seq<Seq<char>> {
    seq!["hidden:!=true"@] + each_clause("genreIds:="@, o.genres_included) + optional_clause(
        o.genres_excluded.len() > 0,
        "genreIds:!=["@ + quoted_list_spec(o.genres_excluded) + "]"@,
    ) + each_clause("tagIds:="@, o.tags_included) + optional_clause(
        o.tags_excluded.len() > 0,
        "tagIds:!=["@ + quoted_list_spec(o.tags_excluded) + "]"@,
    ) + optional_clause(o.types.len() > 0, "type:=["@ + quoted_list_spec(o.types) + "]"@)
        + optional_clause(
        o.statuses.len() > 0,
        "status:=["@ + quoted_list_spec(o.statuses) + "]"@,
    ) + bound_clause("releaseYear:>="@, o.year_from) + bound_clause("releaseYear:<="@, o.year_to)
        + bound_clause("chapterCount:>="@, o.chapters_from) + bound_clause(
        "chapterCount:<="@,
        o.chapters_to,
    ) + optional_clause(!adult, "isAdult:=false"@) + optional_clause(
        o.official_only,
        "officialTranslation:=true"@,
    ) + seq![
        "(mbContentRating:=[`Safe`,`Suggestive`,`Erotica`] || mbContentRating:!=*)"@,
        "views:>0"@,
    ]
}

/// The sort field for an option of the sort filter; the first one, the
/// search engine's own relevance ordering, has none.
pub open spec fn sort_field(index: int) -> Option<Seq<char>> {
    let i = if index > 6 {
        6
    } else {
        index
    };
    if i == 1 {
        Some("views"@)
    } else if i == 2 {
        Some("trending"@)
    } else if i == 3 {
        Some("dateAdded"@)
    } else if i == 4 {
        Some("released"@)
    } else if i == 5 {
        Some("mbRating"@)
    } else if i == 6 {
        Some("title"@)
    } else {
        None
    }
}

/// The sort options, in the order the filter lists them: the search
/// engine's relevance (no field), "views", "trending", "dateAdded",
/// "released", "mbRating", "title"; indices past the last pick "title".
pub proof fn lemma_sort_keys(index: int)
    ensures
        sort_field(0) == None::<Seq<char>>,
        sort_field(1) == Some("views"@),
        sort_field(2) == Some("trending"@),
        sort_field(3) == Some("dateAdded"@),
        sort_field(4) == Some("released"@),
        sort_field(5) == Some("mbRating"@),
        sort_field(6) == Some("title"@),
        index > 6 ==> sort_field(index) == Some("title"@),
{
    reveal_strlit("");
    reveal_strlit("dateAdded");
    reveal_strlit("mbRating");
    reveal_strlit("released");
    reveal_strlit("title");
    reveal_strlit("trending");
    reveal_strlit("views");
}

/// An encoded `name=value` parameter.
pub open spec fn param(name: Seq<char>, value: Seq<char>) -> (Seq<char>, Option<Seq<char>>) {
    (encode_component(name), Some(encode_component(value)))
}

/// The query parameters of a search: the term (`*` when there is none), the
/// clauses, the ordering, the fields a term is matched against, and paging.
pub open spec fn search_params(query: Option<Seq<char>>, page: int, o: SearchOptions, adult: bool) -> Seq<
    (Seq<char>, Option<Seq<char>>),
> {
    let q = match query {
        Some(q) => if q.len() > 0 {
            Some(q)
        } else {
            None
        },
        None => None,
    };
    let field = sort_field(o.sort_index);
    seq![
        param("q"@, if q is Some { q->0 } else { "*"@ }),
        param("filter_by"@, join(clauses_spec(o, adult), " && "@)),
    ] + (if field is Some {
        seq![param("sort_by"@, field->0 + ":"@ + if o.ascending { "asc"@ } else { "desc"@ })]
    } else if q is None {
        seq![param("sort_by"@, "views:desc"@)]
    } else {
        Seq::empty()
    }) + (if q is Some {
        seq![
            param("query_by"@, "title,englishTitle,otherNames,authors"@),
            param("query_by_weights"@, "4,3,2,1"@),
            param("num_typos"@, "4,3,2,1"@),
        ]
    } else {
        Seq::empty()
    }) + seq![param("page"@, dec_int(page)), param("per_page"@, dec_int(PER_PAGE as int))]
}

/// A search sends its term as `q` (`*` without one), the page as `page`,
/// and 40 results a page; a sort option other than relevance is sent as
/// `sort_by` with the field and its direction; a search with neither a
/// term nor a sort asks for the most viewed first.
pub proof fn lemma_search_params(query: Option<Seq<char>>, page: int, o: SearchOptions, adult: bool)
    ensures
        ({
            let ps = search_params(query, page, o, adult);
            let term = match query {
                Some(q) => if q.len() > 0 { q } else { "*"@ },
                None => "*"@,
            };
            &&& ps[0] == (encode_component("q"@), Some(encode_component(term)))
            &&& ps.contains((encode_component("page"@), Some(encode_component(dec_int(page)))))
            &&& ps.contains((encode_component("per_page"@), Some(encode_component("40"@))))
            &&& sort_field(o.sort_index) matches Some(f) ==> ps.contains(
                (
                    encode_component("sort_by"@),
                    Some(encode_component(f + ":"@ + if o.ascending { "asc"@ } else { "desc"@ })),
                ),
            )
            &&& (sort_field(o.sort_index) is None && term == "*"@ && !(query matches Some(q) && q.len() > 0))
                ==> ps.contains((encode_component("sort_by"@), Some(encode_component("views:desc"@))))
        }),
{
    reveal_strlit("40");
    assert(dec_int(40) =~= "40"@) by {
        reveal_with_fuel(crate::text::dec, 3);
    }
    let ps = search_params(query, page, o, adult);
    assert(ps[ps.len() - 2] == param("page"@, dec_int(page)));
    assert(ps[ps.len() - 1] == param("per_page"@, dec_int(PER_PAGE as int)));
    if sort_field(o.sort_index) is Some || !(query matches Some(q) && q.len() > 0) {
        assert(ps[2].0 == encode_component("sort_by"@));
    }
}

pub open spec fn opt_view(q: Option<&str>) -> Option<Seq<char>> {
    match q {
        Some(s) => Some(s@),
        None => None,
    }
}

pub open spec fn search_url_spec(query: Option<Seq<char>>, page: int, filters: Seq<FilterValue>, adult: bool) -> Seq<char> {
    BASE_URL@ + "/collections/manga/documents/search?"@ + query_text(
        search_params(query, page, scan_filters(filters), adult),
    )
}

/// Backtick-quoted values joined with commas.
pub fn quoted_list(ids: &[String]) -> (r: String)
    ensures
        r@ == quoted_list_spec(views(ids@)),
{
    let v = quoted_list_chars(ids);
    string_of(v.as_slice())
}

fn quoted_list_chars(ids: &[String]) -> (r: Vec<char>)
    ensures
        r@ == quoted_list_spec(views(ids@)),
{
    let ghost q = views(ids@).map_values(|id: Seq<char>| quoted(id));
    let mut out: Vec<char> = Vec::new();
    let mut i: usize = 0;
    while i < ids.len()
        invariant
            i <= ids@.len(),
            q == views(ids@).map_values(|id: Seq<char>| quoted(id)),
            out@ == join(q.subrange(0, i as int), ","@),
        decreases ids@.len() - i,
    {
        let ghost before = out@;
        if i > 0 {
            push_str(&mut out, ",");
        }
        push_str(&mut out, "`");
        push_str(&mut out, ids[i].as_str());
        push_str(&mut out, "`");
        proof {
            assert(q.subrange(0, i + 1).drop_last() =~= q.subrange(0, i as int));
            assert(q[i as int] == quoted(ids@[i as int]@));
            if i == 0 {
                assert(out@ =~= q[0]);
            } else {
                assert(out@ =~= before + ","@ + q[i as int]);
            }
        }
        i = i + 1;
    }
    assert(q.subrange(0, ids@.len() as int) =~= q);
    out
}

/// Pushes `prefix` followed by each value quoted, one clause per value.
fn push_each_clause(clauses: &mut Vec<Vec<char>>, prefix: &str, ids: &[String])
    ensures
        final(clauses)@.map_values(|v: Vec<char>| v@) == old(clauses)@.map_values(
            |v: Vec<char>| v@,
        ) + each_clause(prefix@, views(ids@)),
{
    let ghost start = clauses@.map_values(|v: Vec<char>| v@);
    let mut i: usize = 0;
    while i < ids.len()
        invariant
            i <= ids@.len(),
            clauses@.map_values(|v: Vec<char>| v@) == start + each_clause(
                prefix@,
                views(ids@.subrange(0, i as int)),
            ),
        decreases ids@.len() - i,
    {
        let mut c: Vec<char> = Vec::new();
        push_str(&mut c, prefix);
        push_str(&mut c, "`");
        push_str(&mut c, ids[i].as_str());
        push_str(&mut c, "`");
        let ghost before = clauses@.map_values(|v: Vec<char>| v@);
        assert(c@ =~= prefix@ + quoted(ids@[i as int]@));
        clauses.push(c);
        assert(views(ids@.subrange(0, i + 1)) =~= views(ids@.subrange(0, i as int)).push(
            ids@[i as int]@,
        ));
        assert(clauses@.map_values(|v: Vec<char>| v@) =~= before.push(prefix@ + quoted(ids@[i as int]@)));
        assert(each_clause(prefix@, views(ids@.subrange(0, i + 1))) =~= each_clause(
            prefix@,
            views(ids@.subrange(0, i as int)),
        ).push(prefix@ + quoted(ids@[i as int]@)));
        i = i + 1;
    }
    assert(ids@.subrange(0, ids@.len() as int) =~= ids@);
}

/// Pushes `open`, the quoted list and `]` when the list is not empty.
fn push_list_clause(clauses: &mut Vec<Vec<char>>, open: &str, ids: &[String])
    ensures
        final(clauses)@.map_values(|v: Vec<char>| v@) == old(clauses)@.map_values(
            |v: Vec<char>| v@,
        ) + optional_clause(ids@.len() > 0, open@ + quoted_list_spec(views(ids@)) + "]"@),
{
    let ghost start = clauses@.map_values(|v: Vec<char>| v@);
    if ids.len() > 0 {
        let mut c: Vec<char> = Vec::new();
        push_str(&mut c, open);
        let q = quoted_list_chars(ids);
        push_slice(&mut c, q.as_slice());
        push_str(&mut c, "]");
        clauses.push(c);
        assert(clauses@.map_values(|v: Vec<char>| v@) =~= start + optional_clause(
            ids@.len() > 0,
            open@ + quoted_list_spec(views(ids@)) + "]"@,
        ));
    } else {
        assert(clauses@.map_values(|v: Vec<char>| v@) =~= start + optional_clause(
            ids@.len() > 0,
            open@ + quoted_list_spec(views(ids@)) + "]"@,
        ));
    }
}

fn push_bound_clause(clauses: &mut Vec<Vec<char>>, prefix: &str, b: Option<i32>)
    ensures
        final(clauses)@.map_values(|v: Vec<char>| v@) == old(clauses)@.map_values(
            |v: Vec<char>| v@,
        ) + bound_clause(prefix@, b),
{
    let ghost start = clauses@.map_values(|v: Vec<char>| v@);
    match b {
        Some(v) => {
            let mut c: Vec<char> = Vec::new();
            push_str(&mut c, prefix);
            let d = dec_i64(v as i64);
            push_slice(&mut c, d.as_slice());
            clauses.push(c);
        },
        None => {},
    }
    assert(clauses@.map_values(|v: Vec<char>| v@) =~= start + bound_clause(prefix@, b));
}

fn push_clause(clauses: &mut Vec<Vec<char>>, cond: bool, text: &str)
    ensures
        final(clauses)@.map_values(|v: Vec<char>| v@) == old(clauses)@.map_values(
            |v: Vec<char>| v@,
        ) + optional_clause(cond, text@),
{
    let ghost start = clauses@.map_values(|v: Vec<char>| v@);
    if cond {
        clauses.push(chars_of(text));
    }
    assert(clauses@.map_values(|v: Vec<char>| v@) =~= start + optional_clause(cond, text@));
}

/// Joins character vectors with `sep` between each pair.
pub fn join_chars(pieces: &Vec<Vec<char>>, sep: &str) -> (r: String)
    ensures
        r@ == join(pieces@.map_values(|v: Vec<char>| v@), sep@),
{
    let ghost ps = pieces@.map_values(|v: Vec<char>| v@);
    let mut out: Vec<char> = Vec::new();
    let mut i: usize = 0;
    while i < pieces.len()
        invariant
            i <= pieces@.len(),
            ps == pieces@.map_values(|v: Vec<char>| v@),
            out@ == join(ps.subrange(0, i as int), sep@),
        decreases pieces@.len() - i,
    {
        let ghost before = out@;
        if i > 0 {
            push_str(&mut out, sep);
        }
        push_slice(&mut out, pieces[i].as_slice());
        proof {
            assert(ps.subrange(0, i + 1).drop_last() =~= ps.subrange(0, i as int));
            if i == 0 {
                assert(out@ =~= ps[0]);
            } else {
                assert(out@ =~= before + sep@ + ps[i as int]);
            }
        }
        i = i + 1;
    }
    assert(ps.subrange(0, pieces@.len() as int) =~= ps);
    string_of(out.as_slice())
}

fn sort_field_exec(index: i32) -> (r: Option<&'static str>)
    requires
        index >= 0,
    ensures
        opt_view(r) == sort_field(index as int),
{
    let i = if index > 6 {
        6
    } else {
        index
    };
    if i == 1 {
        Some("views")
    } else if i == 2 {
        Some("trending")
    } else if i == 3 {
        Some("dateAdded")
    } else if i == 4 {
        Some("released")
    } else if i == 5 {
        Some("mbRating")
    } else if i == 6 {
        Some("title")
    } else {
        None
    }
}

/// The filter values of a search, read into the options they select.
pub struct FilterSelection<'a> {
    pub sort_index: i32,
    pub ascending: bool,
    pub genres_included: Option<&'a Vec<String>>,
    pub genres_excluded: Option<&'a Vec<String>>,
    pub tags_included: Option<&'a Vec<String>>,
    pub tags_excluded: Option<&'a Vec<String>>,
    pub types: Option<&'a Vec<String>>,
    pub statuses: Option<&'a Vec<String>>,
    pub year_from: Option<i32>,
    pub year_to: Option<i32>,
    pub chapters_from: Option<i32>,
    pub chapters_to: Option<i32>,
    pub official_only: bool,
}

pub open spec fn list_view(v: Option<&Vec<String>>) -> Seq<Seq<char>> {
    match v {
        Some(l) => views(l@),
        None => Seq::empty(),
    }
}

impl<'a> FilterSelection<'a> {
    pub open spec fn spec_options(&self) -> SearchOptions {
        SearchOptions {
            sort_index: self.sort_index as int,
            ascending: self.ascending,
            genres_included: list_view(self.genres_included),
            genres_excluded: list_view(self.genres_excluded),
            tags_included: list_view(self.tags_included),
            tags_excluded: list_view(self.tags_excluded),
            types: list_view(self.types),
            statuses: list_view(self.statuses),
            year_from: self.year_from,
            year_to: self.year_to,
            chapters_from: self.chapters_from,
            chapters_to: self.chapters_to,
            official_only: self.official_only,
        }
    }
}

fn the_list<'a>(v: Option<&'a Vec<String>>, empty: &'a Vec<String>) -> (r: &'a Vec<String>)
    requires
        empty@.len() == 0,
    ensures
        views(r@) == list_view(v),
{
    match v {
        Some(l) => l,
        None => {
            assert(views(empty@) =~= Seq::<Seq<char>>::empty());
            empty
        },
    }
}

/// Reads the filter values; later values win over earlier ones.
pub fn select_filters<'a>(filters: &'a [FilterValue]) -> (r: FilterSelection<'a>)
    ensures
        r.spec_options() == scan_filters(filters@),
        r.sort_index >= 0,
{
    let mut o = FilterSelection {
        sort_index: 0,
        ascending: false,
        genres_included: None,
        genres_excluded: None,
        tags_included: None,
        tags_excluded: None,
        types: None,
        statuses: None,
        year_from: None,
        year_to: None,
        chapters_from: None,
        chapters_to: None,
        official_only: false,
    };
    let mut i: usize = 0;
    assert(o.spec_options() =~= default_options());
    while i < filters.len()
        invariant
            i <= filters@.len(),
            o.sort_index >= 0,
            o.spec_options() == scan_filters(filters@.subrange(0, i as int)),
        decreases filters@.len() - i,
    {
        assert(filters@.subrange(0, i + 1).drop_last() =~= filters@.subrange(0, i as int));
        match &filters[i] {
            FilterValue::Sort { index, ascending: a, .. } => {
                o.sort_index = if *index < 0 {
                    0
                } else {
                    *index
                };
                o.ascending = *a;
            },
            FilterValue::MultiSelect { id, included, excluded } => {
                if str_eq(id.as_str(), "genre") {
                    o.genres_included = Some(included);
                    o.genres_excluded = Some(excluded);
                } else if str_eq(id.as_str(), "tag") {
                    o.tags_included = Some(included);
                    o.tags_excluded = Some(excluded);
                } else if str_eq(id.as_str(), "type") {
                    o.types = Some(included);
                } else if str_eq(id.as_str(), "status") {
                    o.statuses = Some(included);
                }
            },
            FilterValue::Range { id, from, to } => {
                let f = match from {
                    Some(b) => Some(b.whole),
                    None => None,
                };
                let t = match to {
                    Some(b) => Some(b.whole),
                    None => None,
                };
                if str_eq(id.as_str(), "year") {
                    o.year_from = f;
                    o.year_to = t;
                } else if str_eq(id.as_str(), "chapters") {
                    o.chapters_from = f;
                    o.chapters_to = t;
                }
            },
            FilterValue::Check { id, value } => {
                if str_eq(id.as_str(), "official") {
                    o.official_only = *value == 1;
                }
            },
            _ => {},
        }
        assert(o.spec_options() =~= scan_filters(filters@.subrange(0, i + 1)));
        i = i + 1;
    }
    assert(filters@.subrange(0, filters@.len() as int) =~= filters@);
    o
}

/// The `filter_by` clauses of a search.
pub fn search_clauses(o: &FilterSelection, adult: bool) -> (r: Vec<Vec<char>>)
    ensures
        r@.map_values(|v: Vec<char>| v@) == clauses_spec(o.spec_options(), adult),
{
    let empty: Vec<String> = Vec::new();
    let mut clauses: Vec<Vec<char>> = Vec::new();
    clauses.push(chars_of("hidden:!=true"));
    assert(clauses@.map_values(|v: Vec<char>| v@) =~= seq!["hidden:!=true"@]);
    push_each_clause(&mut clauses, "genreIds:=", the_list(o.genres_included, &empty).as_slice());
    push_list_clause(&mut clauses, "genreIds:!=[", the_list(o.genres_excluded, &empty).as_slice());
    push_each_clause(&mut clauses, "tagIds:=", the_list(o.tags_included, &empty).as_slice());
    push_list_clause(&mut clauses, "tagIds:!=[", the_list(o.tags_excluded, &empty).as_slice());
    push_list_clause(&mut clauses, "type:=[", the_list(o.types, &empty).as_slice());
    push_list_clause(&mut clauses, "status:=[", the_list(o.statuses, &empty).as_slice());
    push_bound_clause(&mut clauses, "releaseYear:>=", o.year_from);
    push_bound_clause(&mut clauses, "releaseYear:<=", o.year_to);
    push_bound_clause(&mut clauses, "chapterCount:>=", o.chapters_from);
    push_bound_clause(&mut clauses, "chapterCount:<=", o.chapters_to);
    push_clause(&mut clauses, !adult, "isAdult:=false");
    push_clause(&mut clauses, o.official_only, "officialTranslation:=true");
    push_clause(
        &mut clauses,
        true,
        "(mbContentRating:=[`Safe`,`Suggestive`,`Erotica`] || mbContentRating:!=*)",
    );
    push_clause(&mut clauses, true, "views:>0");
    assert(clauses@.map_values(|v: Vec<char>| v@) =~= clauses_spec(o.spec_options(), adult));
    clauses
}

/// The query parameters of a search.
pub fn search_query(query: Option<&str>, page: i32, o: &FilterSelection, adult: bool) -> (r:
    QueryParameters)
    requires
        o.sort_index >= 0,
    ensures
        r@ == search_params(opt_view(query), page as int, o.spec_options(), adult),
{
    let clauses = search_clauses(o, adult);
    let q_opt = match query {
        Some(q) => if !q.is_empty() {
            Some(q)
        } else {
            None
        },
        None => None,
    };
    let mut qs = QueryParameters::new();
    let q_value = match q_opt {
        Some(q) => q,
        None => "*",
    };
    qs.push("q", Some(q_value));
    let filter_by = join_chars(&clauses, " && ");
    qs.push("filter_by", Some(filter_by.as_str()));
    match sort_field_exec(o.sort_index) {
        Some(field) => {
            let mut s: Vec<char> = Vec::new();
            push_str(&mut s, field);
            push_str(&mut s, ":");
            if o.ascending {
                push_str(&mut s, "asc");
            } else {
                push_str(&mut s, "desc");
            }
            let s = string_of(s.as_slice());
            qs.push("sort_by", Some(s.as_str()));
        },
        None => {
            if q_opt.is_none() {
                qs.push("sort_by", Some("views:desc"));
            }
        },
    }
    if q_opt.is_some() {
        qs.push("query_by", Some("title,englishTitle,otherNames,authors"));
        qs.push("query_by_weights", Some("4,3,2,1"));
        qs.push("num_typos", Some("4,3,2,1"));
    }
    let page_text = string_of(dec_i64(page as i64).as_slice());
    qs.push("page", Some(page_text.as_str()));
    let per_page_text = string_of(dec_i64(PER_PAGE as i64).as_slice());
    qs.push("per_page", Some(per_page_text.as_str()));
    assert(qs@ =~= search_params(opt_view(query), page as int, o.spec_options(), adult));
    qs
}

/// The url of the Typesense search collection, with every filter applied.
/// `adult` is the user's adult mode setting.
pub fn search_url(query: Option<&str>, page: i32, filters: &[FilterValue], adult: bool) -> (r:
    String)
    ensures
        r@ == search_url_spec(opt_view(query), page as int, filters@, adult),
{
    let o = select_filters(filters);
    let qs = search_query(query, page, &o, adult);
    let mut out: Vec<char> = Vec::new();
    push_str(&mut out, BASE_URL);
    push_str(&mut out, "/collections/manga/documents/search?");
    let qtext = qs.to_query_string();
    push_str(&mut out, qtext.as_str());
    assert(out@ =~= search_url_spec(opt_view(query), page as int, filters@, adult));
    string_of(out.as_slice())
}

// ---------------------------------------------------------------------------
// Urls
// ---------------------------------------------------------------------------

/// The prefixes that are rewritten to `https://`, in the order tried.
pub open spec fn force_https_spec(url: Seq<char>) -> Seq<char> {
    if strip_prefix(url, "http://"@) is Some {
        "https://"@ + strip_prefix(url, "http://"@)->0
    } else if strip_prefix(url, "https://"@) is Some {
        "https://"@ + strip_prefix(url, "https://"@)->0
    } else if strip_prefix(url, "http//"@) is Some {
        "https://"@ + strip_prefix(url, "http//"@)->0
    } else if strip_prefix(url, "https//"@) is Some {
        "https://"@ + strip_prefix(url, "https//"@)->0
    } else {
        url
    }
}

fn force_https_chars(url: &[char]) -> (r: Vec<char>)
    ensures
        r@ == force_https_spec(url@),
{
    let prefixes: [&str; 4] = ["http://", "https://", "http//", "https//"];
    let mut k: usize = 0;
    while k < 4
        invariant
            k <= 4,
            prefixes@ == seq!["http://", "https://", "http//", "https//"],
            forall|j: int| 0 <= j < k ==> strip_prefix(url@, (#[trigger] prefixes@[j])@) is None,
        decreases 4 - k,
    {
        match strip_prefix_exec(url, prefixes[k]) {
            Some(rest) => {
                let mut out = chars_of("https://");
                push_slice(&mut out, rest.as_slice());
                return out;
            },
            None => {},
        }
        k = k + 1;
    }
    slice_to_vec(url, 0, url.len())
}

/// Upgrades a url to https, also repairing colon-less protocols.
pub fn force_https(url: &str) -> (r: String)
    ensures
        r@ == force_https_spec(url@),
{
    let v = chars_of(url);
    let r = force_https_chars(v.as_slice());
    string_of(r.as_slice())
}

pub open spec fn strip_or_self(s: Seq<char>, p: Seq<char>) -> Seq<char> {
    match strip_prefix(s, p) {
        Some(r) => r,
        None => s,
    }
}

/// Absolute urls (also protocol relative ones) are kept, over https; paths
/// point into the static directory of the file host.
pub open spec fn image_url_spec(path: Seq<char>) -> Seq<char> {
    if starts_with(path, "//"@) {
        force_https_spec("https:"@ + path)
    } else if starts_with(path, "http"@) {
        force_https_spec(path)
    } else {
        CDN_URL@ + "/static/"@ + strip_or_self(strip_or_self(path, "/"@), "static/"@)
    }
}

fn strip_or_self_exec(s: &[char], p: &str) -> (r: Vec<char>)
    ensures
        r@ == strip_or_self(s@, p@),
{
    match strip_prefix_exec(s, p) {
        Some(r) => r,
        None => slice_to_vec(s, 0, s.len()),
    }
}

/// Turns a path returned by the api into an absolute image url.
pub fn image_url(path: &str) -> (r: String)
    ensures
        r@ == image_url_spec(path@),
{
    let p = chars_of(path);
    let slashes = chars_of("//");
    let http = chars_of("http");
    if starts_with_exec(p.as_slice(), slashes.as_slice()) {
        let mut v = chars_of("https:");
        push_slice(&mut v, p.as_slice());
        let r = force_https_chars(v.as_slice());
        return string_of(r.as_slice());
    }
    if starts_with_exec(p.as_slice(), http.as_slice()) {
        let r = force_https_chars(p.as_slice());
        return string_of(r.as_slice());
    }
    let a = strip_or_self_exec(p.as_slice(), "/");
    let b = strip_or_self_exec(a.as_slice(), "static/");
    let mut out = chars_of(CDN_URL);
    push_str(&mut out, "/static/");
    push_slice(&mut out, b.as_slice());
    string_of(out.as_slice())
}

// ---------------------------------------------------------------------------
// Statuses, readers and ratings
// ---------------------------------------------------------------------------

pub open spec fn status_spec(status: Option<Seq<char>>) -> MangaStatus {
    match status {
        Some(s) => {
            let l = lowercase(trim(s));
            if l == "ongoing"@ {
                MangaStatus::Ongoing
            } else if l == "completed"@ {
                MangaStatus::Completed
            } else if l == "hiatus"@ {
                MangaStatus::Hiatus
            } else if l == "canceled"@ || l == "cancelled"@ {
                MangaStatus::Cancelled
            } else {
                MangaStatus::Unknown
            }
        },
        None => MangaStatus::Unknown,
    }
}

/// A status text reads as the status it names, in any case and with white
/// space around it: "completed" as completed, "ongoing" as ongoing,
/// "hiatus" as on hiatus, "canceled" or "cancelled" as cancelled; a missing
/// status is unknown. A completed series is never read as ongoing.
pub proof fn lemma_status_names(s: Seq<char>)
    ensures
        lowercase(trim(s)) == "completed"@ ==> status_spec(Some(s)) == MangaStatus::Completed,
        lowercase(trim(s)) == "ongoing"@ ==> status_spec(Some(s)) == MangaStatus::Ongoing,
        lowercase(trim(s)) == "hiatus"@ ==> status_spec(Some(s)) == MangaStatus::Hiatus,
        lowercase(trim(s)) == "canceled"@ || lowercase(trim(s)) == "cancelled"@ ==> status_spec(Some(s))
            == MangaStatus::Cancelled,
        status_spec(None) == MangaStatus::Unknown,
{
    reveal_strlit("completed");
    reveal_strlit("ongoing");
    reveal_strlit("hiatus");
    reveal_strlit("canceled");
    reveal_strlit("cancelled");
    assert("completed"@.len() == 9 && "ongoing"@.len() == 7 && "hiatus"@.len() == 6);
    assert("completed"@ != "ongoing"@);
    assert("hiatus"@ != "ongoing"@ && "hiatus"@ != "completed"@);
    assert("canceled"@.len() == 8 && "cancelled"@.len() == 9);
    assert("cancelled"@[1] != "completed"@[1]);
    assert("cancelled"@ != "completed"@);
    assert("canceled"@ != "ongoing"@ && "canceled"@ != "completed"@ && "canceled"@ != "hiatus"@);
    assert("cancelled"@ != "ongoing"@ && "cancelled"@ != "hiatus"@);
}

/// The publishing status, compared trimmed and lower cased.
pub fn parse_status(status: Option<&str>) -> (r: MangaStatus)
    ensures
        r == status_spec(opt_view(status)),
{
    match status {
        Some(s) => {
            let t = string_of(trim_exec(chars_of(s).as_slice()).as_slice());
            let l = to_lowercase(t.as_str());
            let l = l.as_str();
            if str_eq(l, "ongoing") {
                MangaStatus::Ongoing
            } else if str_eq(l, "completed") {
                MangaStatus::Completed
            } else if str_eq(l, "hiatus") {
                MangaStatus::Hiatus
            } else if str_eq(l, "canceled") || str_eq(l, "cancelled") {
                MangaStatus::Cancelled
            } else {
                MangaStatus::Unknown
            }
        },
        None => MangaStatus::Unknown,
    }
}

pub open spec fn viewer_spec(kind: Option<Seq<char>>) -> Viewer {
    match kind {
        Some(k) => if k == "Manga"@ {
            Viewer::RightToLeft
        } else if k == "OEL"@ {
            Viewer::LeftToRight
        } else if k == "Manwha"@ || k == "Manhua"@ {
            Viewer::Webtoon
        } else {
            Viewer::Unknown
        },
        None => Viewer::Unknown,
    }
}

/// Manga read right to left, OEL left to right, and the Korean and Chinese
/// types ("Manwha", "Manhua") as webtoons; no type is unknown.
pub proof fn lemma_viewer_types()
    ensures
        viewer_spec(Some("Manga"@)) == Viewer::RightToLeft,
        viewer_spec(Some("OEL"@)) == Viewer::LeftToRight,
        viewer_spec(Some("Manwha"@)) == Viewer::Webtoon,
        viewer_spec(Some("Manhua"@)) == Viewer::Webtoon,
        viewer_spec(None) == Viewer::Unknown,
{
    reveal_strlit("Manga");
    reveal_strlit("OEL");
    reveal_strlit("Manwha");
    reveal_strlit("Manhua");
    assert("Manga"@.len() == 5 && "OEL"@.len() == 3 && "Manwha"@.len() == 6 && "Manhua"@.len() == 6);
    assert("Manhua"@[3] != "Manwha"@[3]);
}

/// The reader that suits the type of an entry.
pub fn parse_viewer(kind: Option<&str>) -> (r: Viewer)
    ensures
        r == viewer_spec(opt_view(kind)),
{
    match kind {
        Some(k) => if str_eq(k, "Manga") {
            Viewer::RightToLeft
        } else if str_eq(k, "OEL") {
            Viewer::LeftToRight
        } else if str_eq(k, "Manwha") || str_eq(k, "Manhua") {
            Viewer::Webtoon
        } else {
            Viewer::Unknown
        },
        None => Viewer::Unknown,
    }
}

pub open spec fn is_explicit_genre(g: Seq<char>) -> bool {
    g == "Hentai"@ || g == "Adult"@ || g == "Smut"@
}

pub open spec fn is_suggestive_genre(g: Seq<char>) -> bool {
    g == "Ecchi"@ || g == "Mature"@ || g == "Erotica"@
}

pub open spec fn content_rating_spec(is_adult: bool, genres: Seq<Seq<char>>) -> ContentRating {
    if is_adult || exists|i: int| 0 <= i < genres.len() && is_explicit_genre(genres[i]) {
        ContentRating::NSFW
    } else if exists|i: int| 0 <= i < genres.len() && is_suggestive_genre(genres[i]) {
        ContentRating::Suggestive
    } else {
        ContentRating::Safe
    }
}

/// An adult entry is NSFW whatever its genres; so is one with a genre
/// "Hentai", "Adult" or "Smut" anywhere among them; "Ecchi", "Mature" or
/// "Erotica" make an entry at least suggestive.
pub proof fn lemma_rating_words(is_adult: bool, before: Seq<Seq<char>>, g: Seq<char>, after: Seq<Seq<char>>, all: Seq<Seq<char>>)
    requires
        all == before + seq![g] + after,
    ensures
        content_rating_spec(true, all) == ContentRating::NSFW,
        g == "Hentai"@ || g == "Adult"@ || g == "Smut"@ ==> content_rating_spec(is_adult, all) == ContentRating::NSFW,
        g == "Ecchi"@ || g == "Mature"@ || g == "Erotica"@ ==> content_rating_spec(is_adult, all) != ContentRating::Safe,
{
    assert(all[before.len() as int] == g);
}

/// The content rating of an entry: the adult flag, then its genres.
pub fn parse_content_rating(is_adult: bool, genres: &[String]) -> (r: ContentRating)
    ensures
        r == content_rating_spec(is_adult, views(genres@)),
{
    if is_adult {
        return ContentRating::NSFW;
    }
    let mut suggestive = false;
    let mut i: usize = 0;
    while i < genres.len()
        invariant
            i <= genres@.len(),
            forall|j: int| 0 <= j < i ==> !is_explicit_genre(#[trigger] genres@[j]@),
            suggestive == exists|j: int| 0 <= j < i && is_suggestive_genre(#[trigger] genres@[j]@),
        decreases genres@.len() - i,
    {
        let g = genres[i].as_str();
        if str_eq(g, "Hentai") || str_eq(g, "Adult") || str_eq(g, "Smut") {
            assert(is_explicit_genre(views(genres@)[i as int]));
            return ContentRating::NSFW;
        }
        if str_eq(g, "Ecchi") || str_eq(g, "Mature") || str_eq(g, "Erotica") {
            suggestive = true;
        }
        i = i + 1;
    }
    proof {
        let gs = views(genres@);
        assert forall|j: int| 0 <= j < gs.len() implies !is_explicit_genre(gs[j]) by {
            assert(gs[j] == genres@[j]@);
        }
        if suggestive {
            let j = choose|j: int| 0 <= j < genres@.len() && is_suggestive_genre(genres@[j]@);
            assert(gs[j] == genres@[j]@);
        } else {
            assert forall|j: int| 0 <= j < gs.len() implies !is_suggestive_genre(gs[j]) by {
                assert(gs[j] == genres@[j]@);
            }
        }
    }
    if suggestive {
        ContentRating::Suggestive
    } else {
        ContentRating::Safe
    }
}

pub open spec fn mb_content_rating_spec(rating: Option<Seq<char>>) -> Option<ContentRating> {
    match rating {
        Some(r) => if r == "Safe"@ {
            Some(ContentRating::Safe)
        } else if r == "Suggestive"@ {
            Some(ContentRating::Suggestive)
        } else if r == "Erotica"@ || r == "Pornographic"@ {
            Some(ContentRating::NSFW)
        } else {
            None
        },
        None => None,
    }
}

/// The search index's ratings: "Safe" is safe, "Suggestive" suggestive,
/// "Erotica" and "Pornographic" NSFW; other values give none.
pub proof fn lemma_mb_ratings(r: Seq<char>)
    ensures
        mb_content_rating_spec(Some("Safe"@)) == Some(ContentRating::Safe),
        mb_content_rating_spec(Some("Suggestive"@)) == Some(ContentRating::Suggestive),
        mb_content_rating_spec(Some("Erotica"@)) == Some(ContentRating::NSFW),
        mb_content_rating_spec(Some("Pornographic"@)) == Some(ContentRating::NSFW),
        r != "Safe"@ && r != "Suggestive"@ && r != "Erotica"@ && r != "Pornographic"@ ==> mb_content_rating_spec(
            Some(r),
        ) is None,
{
    reveal_strlit("Safe");
    reveal_strlit("Suggestive");
    reveal_strlit("Erotica");
    reveal_strlit("Pornographic");
    assert("Safe"@.len() == 4 && "Suggestive"@.len() == 10 && "Erotica"@.len() == 7 && "Pornographic"@.len() == 12);
}

/// The rating of the `mbContentRating` field of search results.
pub fn parse_mb_content_rating(rating: Option<&str>) -> (r: Option<ContentRating>)
    ensures
        r == mb_content_rating_spec(opt_view(rating)),
{
    match rating {
        Some(r) => if str_eq(r, "Safe") {
            Some(ContentRating::Safe)
        } else if str_eq(r, "Suggestive") {
            Some(ContentRating::Suggestive)
        } else if str_eq(r, "Erotica") || str_eq(r, "Pornographic") {
            Some(ContentRating::NSFW)
        } else {
            None
        },
        None => None,
    }
}

// ---------------------------------------------------------------------------
// Dates
// ---------------------------------------------------------------------------

pub open spec fn is_leap(year: int) -> bool {
    year % 4 == 0 && (year % 100 != 0 || year % 400 == 0)
}

pub open spec fn year_len(year: int) -> int {
    if is_leap(year) {
        366
    } else {
        365
    }
}

/// Leap years among 1 through `n`.
pub open spec fn leaps_through(n: int) -> int {
    n / 4 - n / 100 + n / 400
}

/// Days from 1970-01-01 to the first day of `year`.
pub open spec fn days_before_year(year: int) -> int {
    365 * (year - 1970) + leaps_through(year - 1) - leaps_through(1969)
}

pub const MIN_MILLIS: i64 = -62_135_596_800_000;

pub const MAX_MILLIS: i64 = 253_402_300_799_000;

pub open spec fn clamp_millis(millis: int) -> int {
    if millis < MIN_MILLIS {
        MIN_MILLIS as int
    } else if millis > MAX_MILLIS {
        MAX_MILLIS as int
    } else {
        millis
    }
}

/// Going from `y - 1` to `y` adds one to the quotient by `d` exactly when
/// `d` divides `y`.
proof fn lemma_div_step(y: int, d: int)
    requires
        d > 0,
    ensures
        y / d - (y - 1) / d == (if y % d == 0 {
            1int
        } else {
            0int
        }),
{
    let q = y / d;
    let r = y % d;
    vstd::arithmetic::div_mod::lemma_fundamental_div_mod(y, d);
    assert(y == d * q + r);
    assert(0 <= r < d);
    if r > 0 {
        assert(y - 1 == q * d + (r - 1)) by (nonlinear_arith)
            requires
                y == d * q + r,
        ;
        vstd::arithmetic::div_mod::lemma_fundamental_div_mod_converse(y - 1, d, q, r - 1);
    } else {
        assert(y - 1 == (q - 1) * d + (d - 1)) by (nonlinear_arith)
            requires
                y == d * q + r,
                r == 0,
        ;
        vstd::arithmetic::div_mod::lemma_fundamental_div_mod_converse(y - 1, d, q - 1, d - 1);
    }
}

/// A multiple of 100 is one of 4, and a multiple of 400 one of 100.
proof fn lemma_multiples(y: int)
    ensures
        y % 100 == 0 ==> y % 4 == 0,
        y % 400 == 0 ==> y % 100 == 0,
{
    if y % 100 == 0 {
        vstd::arithmetic::div_mod::lemma_fundamental_div_mod(y, 100);
        let q = y / 100;
        assert(y == (25 * q) * 4 + 0) by (nonlinear_arith)
            requires
                y == 100 * q + y % 100,
                y % 100 == 0,
        ;
        vstd::arithmetic::div_mod::lemma_fundamental_div_mod_converse(y, 4, 25 * q, 0);
    }
    if y % 400 == 0 {
        vstd::arithmetic::div_mod::lemma_fundamental_div_mod(y, 400);
        let q = y / 400;
        assert(y == (4 * q) * 100 + 0) by (nonlinear_arith)
            requires
                y == 400 * q + y % 400,
                y % 400 == 0,
        ;
        vstd::arithmetic::div_mod::lemma_fundamental_div_mod_converse(y, 100, 4 * q, 0);
    }
}

proof fn lemma_leap_step(y: int)
    ensures
        y / 4 - (y - 1) / 4 == (if y % 4 == 0 {
            1int
        } else {
            0int
        }),
        y / 100 - (y - 1) / 100 == (if y % 100 == 0 {
            1int
        } else {
            0int
        }),
        y / 400 - (y - 1) / 400 == (if y % 400 == 0 {
            1int
        } else {
            0int
        }),
        y % 100 == 0 ==> y % 4 == 0,
        y % 400 == 0 ==> y % 100 == 0,
{
    lemma_div_step(y, 4);
    lemma_div_step(y, 100);
    lemma_div_step(y, 400);
    lemma_multiples(y);
}

/// Consecutive years start one year's length apart.
#[verifier::spinoff_prover]
pub proof fn lemma_year_step(year: int)
    ensures
        days_before_year(year + 1) == days_before_year(year) + year_len(year),
{
    lemma_leap_step(year);
    assert(leaps_through(year) - leaps_through(year - 1) == if is_leap(year) {
        1int
    } else {
        0int
    });
}

/// Later years start later.
pub proof fn lemma_years_increase(a: int, b: int)
    requires
        a < b,
    ensures
        days_before_year(a) < days_before_year(b),
    decreases b - a,
{
    lemma_year_step(a);
    if a + 1 < b {
        lemma_years_increase(a + 1, b);
    }
}

fn is_leap_exec(year: i32) -> (r: bool)
    requires
        year >= 0,
    ensures
        r == is_leap(year as int),
{
    let y = year as u32;
    y % 4 == 0 && (y % 100 != 0 || y % 400 == 0)
}

/// The year of a unix timestamp in milliseconds, clamped to years 1 through
/// 9999: the year whose days the day of the timestamp falls among.
pub fn year_from_millis(millis: i64) -> (year: i32)
    ensures
        1 <= year <= 9999,
        days_before_year(year as int) <= clamp_millis(millis as int) / 86_400_000 < days_before_year(
            year as int,
        ) + year_len(year as int),
{
    let m = if millis < MIN_MILLIS {
        MIN_MILLIS
    } else if millis > MAX_MILLIS {
        MAX_MILLIS
    } else {
        millis
    };
    let days: i64 = if m >= 0 {
        m / 86_400_000
    } else {
        -((-m + 86_399_999) / 86_400_000)
    };
    assert(days == m as int / 86_400_000) by (nonlinear_arith)
        requires
            m >= 0 ==> days == m / 86_400_000,
            m < 0 ==> days == -((-m + 86_399_999) / 86_400_000),
    ;
    assert(days_before_year(1) == -719162);
    assert(days_before_year(10000) == 2932897);
    assert(-719162 <= days < 2932897) by (nonlinear_arith)
        requires
            days == m as int / 86_400_000,
            MIN_MILLIS <= m <= MAX_MILLIS,
    ;
    let mut d: i64 = days;
    let mut year: i32 = 1970;
    assert(days_before_year(1970) == 0);
    while d < 0
        invariant
            1 <= year <= 1970,
            d == days - days_before_year(year as int),
            -719162 <= days < 2932897,
            days as int == clamp_millis(millis as int) / 86_400_000,
            days_before_year(1) == -719162,
            d < 0 ==> year > 1,
            d >= -719162 - 1,
        decreases year,
    {
        year = year - 1;
        proof {
            lemma_year_step(year as int);
        }
        d = d + if is_leap_exec(year) {
            366
        } else {
            365
        };
        proof {
            if d < 0 && year == 1 {
                assert(false);
            }
        }
    }
    loop
        invariant
            1 <= year <= 9999,
            d >= 0,
            d == days - days_before_year(year as int),
            -719162 <= days < 2932897,
            days as int == clamp_millis(millis as int) / 86_400_000,
            days_before_year(10000) == 2932897,
        decreases 9999 - year,
    {
        let length: i64 = if is_leap_exec(year) {
            366
        } else {
            365
        };
        assert(length == year_len(year as int));
        if d < length {
            return year;
        }
        proof {
            lemma_year_step(year as int);
            if year == 9999 {
                assert(false);
            }
        }
        d = d - length;
        year = year + 1;
    }
}

// ---------------------------------------------------------------------------
// Chapters
// ---------------------------------------------------------------------------

/// A chapter title that only repeats the number `n`.
pub open spec fn repeats_number(lower: Seq<char>, n: Seq<char>) -> bool {
    lower == n || lower == "chapter "@ + n || lower == "ch "@ + n || lower == "ch. "@ + n || lower
        == "episode "@ + n
}

pub open spec fn clean_title_spec(title: Option<Seq<char>>, number: Option<Seq<char>>) -> Option<
    Seq<char>,
> {
    match title {
        None => None,
        Some(t) => {
            let tr = trim(t);
            if tr.len() == 0 {
                None
            } else if number is Some && repeats_number(lowercase(tr), number->0) {
                None
            } else {
                Some(tr)
            }
        },
    }
}

pub open spec fn opt_string_view(s: Option<String>) -> Option<Seq<char>> {
    match s {
        Some(x) => Some(x@),
        None => None,
    }
}

/// A number text without the zeros that end its fraction, and without the
/// dot when no fraction is left: `12.0` as `12`, `12.50` as `12.5`, as the
/// app writes a number. A text without a dot is kept.
pub open spec fn number_form(t: Seq<char>) -> Seq<char> {
    if t.contains('.') {
        let u = strip_trailing_zeros(t);
        let v = if u.len() > 0 && u.last() == '.' {
            u.drop_last()
        } else {
            u
        };
        if v.len() == 0 {
            seq!['0']
        } else {
            v
        }
    } else {
        t
    }
}

/// A text without the zeros it ends in.
pub open spec fn strip_trailing_zeros(t: Seq<char>) -> Seq<char>
    decreases t.len(),
{
    if t.len() > 0 && t.last() == '0' {
        strip_trailing_zeros(t.drop_last())
    } else {
        t
    }
}

/// A number text in the form the app writes numbers in.
pub fn number_form_exec(n: &str) -> (r: String)
    ensures
        r@ == number_form(n@),
{
    let v = chars_of(n);
    let mut has_dot = false;
    let mut i: usize = 0;
    while i < v.len()
        invariant
            i <= v@.len(),
            v@ == n@,
            has_dot == exists|j: int| 0 <= j < i && v@[j] == '.',
        decreases v@.len() - i,
    {
        if v[i] == '.' {
            has_dot = true;
        }
        i = i + 1;
    }
    if !has_dot {
        proof {
            if n@.contains('.') {
                let j = choose|j: int| 0 <= j < n@.len() && n@[j] == '.';
                assert(v@[j] == '.');
            }
        }
        return string_of(v.as_slice());
    }
    let mut end: usize = v.len();
    assert(v@.subrange(0, end as int) =~= v@);
    while end > 0 && v[end - 1] == '0'
        invariant
            end <= v@.len(),
            v@ == n@,
            strip_trailing_zeros(v@) == strip_trailing_zeros(v@.subrange(0, end as int)),
        decreases end,
    {
        assert(v@.subrange(0, end as int).drop_last() =~= v@.subrange(0, end - 1));
        end = end - 1;
    }
    assert(strip_trailing_zeros(v@.subrange(0, end as int)) == v@.subrange(0, end as int));
    if end > 0 && v[end - 1] == '.' {
        end = end - 1;
    }
    if end == 0 {
        return string_of(&['0']);
    }
    string_of(slice_to_vec(v.as_slice(), 0, end).as_slice())
}

/// Drops chapter titles that only repeat the number `number`, as given.
fn clean_title_with(title: Option<String>, number: Option<&str>) -> (r: Option<String>)
    ensures
        opt_string_view(r) == clean_title_spec(opt_string_view(title), opt_view(number)),
{
    let t = match title {
        Some(t) => t,
        None => return None,
    };
    let tv = chars_of(t.as_str());
    let trimmed = trim_exec(tv.as_slice());
    if trimmed.len() == 0 {
        return None;
    }
    let trimmed_string = string_of(trimmed.as_slice());
    match number {
        Some(n) => {
            let lower = to_lowercase(trimmed_string.as_str());
            let l = chars_of(lower.as_str());
            let nv = chars_of(n);
            let mut candidates: Vec<Vec<char>> = Vec::new();
            candidates.push(slice_to_vec(nv.as_slice(), 0, nv.len()));
            let prefixes: [&str; 4] = ["chapter ", "ch ", "ch. ", "episode "];
            let mut k: usize = 0;
            while k < 4
                invariant
                    k <= 4,
                    nv@ == n@,
                    prefixes@ == seq!["chapter ", "ch ", "ch. ", "episode "],
                    candidates@.len() == k + 1,
                    candidates@[0]@ == n@,
                    forall|j: int| 0 <= j < k ==> #[trigger] candidates@[j + 1]@ == prefixes@[j]@ + n@,
                decreases 4 - k,
            {
                let mut c = chars_of(prefixes[k]);
                push_slice(&mut c, nv.as_slice());
                let ghost before = candidates@;
                candidates.push(c);
                assert(candidates@[k as int + 1]@ == prefixes@[k as int]@ + n@);
                assert forall|j: int| 0 <= j < k + 1 implies #[trigger] candidates@[j + 1]@
                    == prefixes@[j]@ + n@ by {
                    if j < k {
                        assert(candidates@[j + 1] == before[j + 1]);
                    }
                }
                k = k + 1;
            }
            let mut j: usize = 0;
            while j < 5
                invariant
                    j <= 5,
                    candidates@.len() == 5,
                    l@ == lower@,
                    lower@ == lowercase(trim(t@)),
                    opt_string_view(title) == Some(t@),
                    trim(t@).len() > 0,
                    number == Some(n),
                    candidates@[0]@ == n@,
                    prefixes@ == seq!["chapter ", "ch ", "ch. ", "episode "],
                    forall|i: int| 0 <= i < 4 ==> #[trigger] candidates@[i + 1]@ == prefixes@[i]@ + n@,
                    forall|i: int| 0 <= i < j ==> candidates@[i]@ != lower@,
                decreases 5 - j,
            {
                if slices_eq(candidates[j].as_slice(), l.as_slice()) {
                    assert(repeats_number(lowercase(trim(t@)), n@)) by {
                        assert(candidates@[j as int]@ == lower@);
                        if j > 0 {
                            assert(candidates@[(j - 1) + 1]@ == prefixes@[j - 1]@ + n@);
                        }
                        if j == 1 {
                            assert(lower@ == "chapter "@ + n@);
                        } else if j == 2 {
                            assert(lower@ == "ch "@ + n@);
                        } else if j == 3 {
                            assert(lower@ == "ch. "@ + n@);
                        } else if j == 4 {
                            assert(lower@ == "episode "@ + n@);
                        }
                    }
                    return None;
                }
                j = j + 1;
            }
            proof {
                assert(candidates@[0int + 1]@ == prefixes@[0int]@ + n@);
                assert(candidates@[1int + 1]@ == prefixes@[1int]@ + n@);
                assert(candidates@[2int + 1]@ == prefixes@[2int]@ + n@);
                assert(candidates@[3int + 1]@ == prefixes@[3int]@ + n@);
            }
            Some(trimmed_string)
        },
        None => Some(trimmed_string),
    }
}

/// Drops chapter titles that only repeat the chapter number. `number` is
/// the chapter's number as decimal text; it is compared in the form the app
/// writes numbers in ([`number_form`]), so `12.0` counts as `12`.
pub fn clean_chapter_title(title: Option<String>, number: Option<&str>) -> (r: Option<String>)
    ensures
        opt_string_view(r) == clean_title_spec(
            opt_string_view(title),
            match number {
                Some(n) => Some(number_form(n@)),
                None => None,
            },
        ),
{
    match number {
        Some(n) => {
            let f = number_form_exec(n);
            clean_title_with(title, Some(f.as_str()))
        },
        None => clean_title_with(title, None),
    }
}

// ---------------------------------------------------------------------------
// Deep links
// ---------------------------------------------------------------------------

pub open spec fn deep_link_spec(url: Seq<char>) -> Option<DeepLink> {
    match strip_prefix(url, BASE_URL@) {
        None => None,
        Some(p) => {
            let segs = pieces(before_any(p, '?', '#'), '/');
            if segs.len() == 2 && segs[0] == "manga"@ {
                Some(DeepLink::Manga(segs[1]))
            } else if segs.len() >= 3 && segs[0] == "read"@ {
                Some(DeepLink::Chapter(segs[1], segs[2]))
            } else {
                None
            }
        },
    }
}

/// A plain path segment: not empty, and free of `/`, `?` and `#`.
pub open spec fn is_segment(w: Seq<char>) -> bool {
    w.len() > 0 && forall|j: int| 0 <= j < w.len() ==> w[j] != '/' && w[j] != '?' && w[j] != '#'
}

proof fn lemma_pieces_slash(rest: Seq<char>)
    ensures
        pieces(seq!['/'] + rest, '/') == pieces(rest, '/'),
{
    assert((seq!['/'] + rest).drop_first() =~= rest);
}

proof fn lemma_pieces_word(w: Seq<char>, rest: Seq<char>)
    requires
        is_segment(w),
        rest.len() == 0 || rest[0] == '/',
    ensures
        pieces(w + rest, '/') == seq![w] + pieces(rest, '/'),
{
    let s = w + rest;
    assert(s[0] == w[0]);
    crate::text::lemma_run_len(s, '/', w.len() as int);
    assert(s.subrange(0, w.len() as int) =~= w);
    assert(s.subrange(w.len() as int, s.len() as int) =~= rest);
}

/// Title pages, `/manga/<id>`, lead to the title, and reader pages,
/// `/read/<manga id>/<chapter id>`, to the chapter; each id a plain path
/// segment.
pub proof fn lemma_deep_links(id: Seq<char>, m: Seq<char>, c: Seq<char>)
    requires
        is_segment(id),
        is_segment(m),
        is_segment(c),
    ensures
        deep_link_spec(BASE_URL@ + "/manga/"@ + id) == Some(DeepLink::Manga(id)),
        deep_link_spec(BASE_URL@ + "/read/"@ + m + "/"@ + c) == Some(DeepLink::Chapter(m, c)),
{
    reveal_strlit("/manga/");
    reveal_strlit("/read/");
    reveal_strlit("/");
    reveal_strlit("manga");
    reveal_strlit("read");
    let manga = seq!['m', 'a', 'n', 'g', 'a'];
    let read = seq!['r', 'e', 'a', 'd'];
    assert("manga"@ =~= manga);
    assert("read"@ =~= read);
    assert(is_segment(manga));
    assert(is_segment(read));
    // the title page
    let p1 = "/manga/"@ + id;
    let u1 = BASE_URL@ + p1;
    assert(u1 =~= BASE_URL@ + "/manga/"@ + id);
    assert(u1.subrange(0, BASE_URL@.len() as int) =~= BASE_URL@);
    assert(u1.subrange(BASE_URL@.len() as int, u1.len() as int) =~= p1);
    crate::text::lemma_before_any_plain(p1);
    assert(p1 =~= seq!['/'] + (manga + (seq!['/'] + id)));
    lemma_pieces_slash(manga + (seq!['/'] + id));
    lemma_pieces_word(manga, seq!['/'] + id);
    lemma_pieces_slash(id);
    assert(id =~= id + Seq::<char>::empty());
    lemma_pieces_word(id, Seq::<char>::empty());
    assert(pieces(p1, '/') =~= seq![manga, id]);
    // the reader page
    let p2 = "/read/"@ + m + "/"@ + c;
    let u2 = BASE_URL@ + p2;
    assert(u2 =~= BASE_URL@ + "/read/"@ + m + "/"@ + c);
    assert(u2.subrange(0, BASE_URL@.len() as int) =~= BASE_URL@);
    assert(u2.subrange(BASE_URL@.len() as int, u2.len() as int) =~= p2);
    crate::text::lemma_before_any_plain(p2);
    assert(p2 =~= seq!['/'] + (read + (seq!['/'] + (m + (seq!['/'] + c)))));
    lemma_pieces_slash(read + (seq!['/'] + (m + (seq!['/'] + c))));
    lemma_pieces_word(read, seq!['/'] + (m + (seq!['/'] + c)));
    lemma_pieces_slash(m + (seq!['/'] + c));
    lemma_pieces_word(m, seq!['/'] + c);
    lemma_pieces_slash(c);
    assert(c =~= c + Seq::<char>::empty());
    lemma_pieces_word(c, Seq::<char>::empty());
    assert(pieces(p2, '/') =~= seq![read, m, c]);
    assert(read != manga) by {
        assert(read.len() != manga.len());
    }
}

/// Resolves `/manga/<id>` and `/read/<manga id>/<chapter id>` links.
pub fn handle_deep_link(url: &str) -> (r: Option<DeepLinkResult>)
    ensures
        link_view(r) == deep_link_spec(url@),
{
    let u = chars_of(url);
    let path = match strip_prefix_exec(u.as_slice(), BASE_URL) {
        Some(p) => p,
        None => return None,
    };
    let path = before_any_exec(path.as_slice(), '?', '#');
    let segs = pieces_exec(path.as_slice(), '/');
    let ghost sv = segs@.map_values(|v: Vec<char>| v@);
    assert(segs@.len() == sv.len());
    if segs.len() >= 1 {
        assert(segs@[0]@ == sv[0]);
    }
    if segs.len() >= 2 {
        assert(segs@[1]@ == sv[1]);
    }
    if segs.len() >= 3 {
        assert(segs@[2]@ == sv[2]);
    }
    if segs.len() == 2 && slices_eq(segs[0].as_slice(), chars_of("manga").as_slice()) {
        Some(DeepLinkResult::Manga { key: string_of(segs[1].as_slice()) })
    } else if segs.len() >= 3 && slices_eq(segs[0].as_slice(), chars_of("read").as_slice()) {
        Some(
            DeepLinkResult::Chapter {
                manga_key: string_of(segs[1].as_slice()),
                key: string_of(segs[2].as_slice()),
            },
        )
    } else {
        None
    }
}

// ---------------------------------------------------------------------------
// Details
// ---------------------------------------------------------------------------

/// `y` is the year a timestamp (in milliseconds, clamped) falls in.
pub open spec fn is_year_of(millis: int, y: int) -> bool {
    1 <= y <= 9999 && days_before_year(y) <= clamp_millis(millis) / 86_400_000 < days_before_year(y)
        + year_len(y)
}

/// The year a timestamp falls in.
pub open spec fn year_of(millis: int) -> int {
    choose|y: int| is_year_of(millis, y)
}

/// A timestamp falls in one year only.
pub proof fn lemma_year_unique(millis: int, a: int, b: int)
    requires
        is_year_of(millis, a),
        is_year_of(millis, b),
    ensures
        a == b,
{
    if a < b {
        lemma_year_step(a);
        if a + 1 < b {
            lemma_years_increase(a + 1, b);
        }
    } else if b < a {
        lemma_year_step(b);
        if b + 1 < a {
            lemma_years_increase(b + 1, a);
        }
    }
}

/// A credited person and what for.
pub struct AtsuAuthor {
    pub name: String,
    pub kind: Option<String>,
}

/// A title's page as the api describes it. Its average rating is the text
/// the app writes it as (two decimals), given only when it is positive.
pub struct MangaPage {
    pub title: String,
    pub poster_image: Option<String>,
    pub authors: Vec<AtsuAuthor>,
    pub synopsis: Option<String>,
    pub genres: Vec<String>,
    pub released: Option<i64>,
    pub status: Option<String>,
    pub kind: Option<String>,
    pub views: Option<String>,
    pub other_names: Vec<String>,
    pub rating_text: Option<String>,
    pub is_adult: Option<bool>,
}

pub open spec fn authors_view(a: Seq<AtsuAuthor>) -> Seq<(Seq<char>, Option<Seq<char>>)> {
    a.map_values(|x: AtsuAuthor| (x.name@, opt_view_string(x.kind)))
}

pub open spec fn opt_view_string(o: Option<String>) -> Option<Seq<char>> {
    match o {
        Some(s) => Some(s@),
        None => None,
    }
}

/// The names credited as writers (or with no role), or as artists.
pub open spec fn credited(a: Seq<(Seq<char>, Option<Seq<char>>)>, artists: bool) -> Seq<Seq<char>>
    decreases a.len(),
{
    if a.len() == 0 {
        Seq::empty()
    } else {
        let rest = credited(a.drop_last(), artists);
        let (name, kind) = a.last();
        let is_artist = kind == Some("Artist"@);
        let is_writer = kind is None || kind == Some("Author"@);
        if (artists && is_artist) || (!artists && is_writer) {
            rest.push(name)
        } else {
            rest
        }
    }
}

/// The stats the site shows beside the synopsis.
pub open spec fn stats_spec(p: MangaPage) -> Seq<Seq<char>> {
    (match p.rating_text {
        Some(r) => seq!["Rating: "@ + r@ + "/10"@],
        None => Seq::empty(),
    }) + (match p.released {
        Some(r) => if r > 0 {
            seq!["Year: "@ + dec_int(year_of(r as int))]
        } else {
            Seq::empty()
        },
        None => Seq::empty(),
    }) + (match p.views {
        Some(v) => seq!["Views: "@ + v@],
        None => Seq::empty(),
    })
}

/// The other names that differ from the title, as list items.
pub open spec fn other_names_spec(names: Seq<Seq<char>>, title: Seq<char>) -> Seq<Seq<char>>
    decreases names.len(),
{
    if names.len() == 0 {
        Seq::empty()
    } else {
        let rest = other_names_spec(names.drop_last(), title);
        if names.last() != title {
            rest.push("- "@ + names.last())
        } else {
            rest
        }
    }
}

/// The description's sections: the stats, the synopsis (trimmed, when it
/// holds more than white space), and the other names.
pub open spec fn sections_spec(p: MangaPage) -> Seq<Seq<char>> {
    let stats = stats_spec(p);
    let others = other_names_spec(views(p.other_names@), p.title@);
    (if stats.len() > 0 {
        seq![join(stats, "\n"@)]
    } else {
        Seq::empty()
    }) + (match p.synopsis {
        Some(s) => if trim(s@).len() > 0 {
            seq![trim(s@)]
        } else {
            Seq::empty()
        },
        None => Seq::empty(),
    }) + (if others.len() > 0 {
        seq!["Alternative Names:\n"@ + join(others, "\n"@)]
    } else {
        Seq::empty()
    })
}

/// The tags: the title's type, then its genres.
pub open spec fn page_tags(p: MangaPage) -> Seq<Seq<char>> {
    (match p.kind {
        Some(k) => seq![k@],
        None => Seq::empty(),
    }) + views(p.genres@)
}

fn credited_exec(authors: &Vec<AtsuAuthor>, artists: bool) -> (r: Vec<String>)
    ensures
        views(r@) == credited(authors_view(authors@), artists),
{
    let ghost av = authors_view(authors@);
    let mut out: Vec<String> = Vec::new();
    let mut i: usize = 0;
    assert(views(out@) =~= credited(av.take(0), artists));
    while i < authors.len()
        invariant
            i <= authors@.len(),
            av == authors_view(authors@),
            views(out@) == credited(av.take(i as int), artists),
        decreases authors@.len() - i,
    {
        assert(av.take(i + 1).drop_last() =~= av.take(i as int));
        assert(av.take(i + 1).last() == (authors@[i as int].name@, opt_view_string(authors@[i as int].kind)));
        let a = &authors[i];
        let (is_artist, is_writer) = match &a.kind {
            Some(k) => (str_eq(k.as_str(), "Artist"), str_eq(k.as_str(), "Author")),
            None => (false, true),
        };
        if (artists && is_artist) || (!artists && is_writer) {
            let ghost before = views(out@);
            out.push(string_of(chars_of(a.name.as_str()).as_slice()));
            assert(views(out@) =~= before.push(a.name@));
        }
        i = i + 1;
    }
    assert(av.take(authors@.len() as int) =~= av);
    out
}

fn other_names_exec(names: &Vec<String>, title: &str) -> (r: Vec<String>)
    ensures
        views(r@) == other_names_spec(views(names@), title@),
{
    let ghost nv = views(names@);
    let mut out: Vec<String> = Vec::new();
    let mut i: usize = 0;
    assert(views(out@) =~= other_names_spec(nv.take(0), title@));
    while i < names.len()
        invariant
            i <= names@.len(),
            nv == views(names@),
            views(out@) == other_names_spec(nv.take(i as int), title@),
        decreases names@.len() - i,
    {
        assert(nv.take(i + 1).drop_last() =~= nv.take(i as int));
        assert(nv.take(i + 1).last() == names@[i as int]@);
        if !str_eq(names[i].as_str(), title) {
            let mut v = chars_of("- ");
            push_str(&mut v, names[i].as_str());
            let ghost before = views(out@);
            out.push(string_of(v.as_slice()));
            assert(views(out@) =~= before.push("- "@ + names@[i as int]@));
        }
        i = i + 1;
    }
    assert(nv.take(names@.len() as int) =~= nv);
    out
}

fn stats_exec(p: &MangaPage) -> (r: Vec<String>)
    ensures
        views(r@) == stats_spec(*p),
{
    let mut stats: Vec<String> = Vec::new();
    match &p.rating_text {
        Some(r) => {
            let mut v = chars_of("Rating: ");
            push_str(&mut v, r.as_str());
            push_str(&mut v, "/10");
            stats.push(string_of(v.as_slice()));
        },
        None => {},
    }
    let ghost s1 = views(stats@);
    match p.released {
        Some(r) => if r > 0 {
            let y = year_from_millis(r);
            proof {
                assert(is_year_of(r as int, y as int));
                let c = year_of(r as int);
                assert(is_year_of(r as int, c));
                lemma_year_unique(r as int, y as int, c);
            }
            let mut v = chars_of("Year: ");
            let yt = crate::text::i32_to_string(y);
            push_str(&mut v, yt.as_str());
            stats.push(string_of(v.as_slice()));
        },
        None => {},
    }
    let ghost s2 = views(stats@);
    match &p.views {
        Some(v) => {
            let mut t = chars_of("Views: ");
            push_str(&mut t, v.as_str());
            stats.push(string_of(t.as_slice()));
        },
        None => {},
    }
    assert(views(stats@) =~= stats_spec(*p));
    stats
}

/// Fills in a manga from its page, leaving its key alone: title, poster
/// (the old cover kept without one), address, status, reader, writers and
/// artists, type and genres as tags with the rating they imply, and a
/// description of stats, synopsis and other names.
pub fn fill_details(page: &MangaPage, manga: &mut Manga)
    ensures
        final(manga).key == old(manga).key,
        final(manga).title@ == page.title@,
        final(manga).cover == (match page.poster_image {
            Some(i) => Some(final(manga).cover->0),
            None => old(manga).cover,
        }),
        page.poster_image matches Some(i) ==> final(manga).cover->0@ == image_url_spec(i@),
        crate::model::opt_string(final(manga).url) == Some(BASE_URL@ + "/manga/"@ + old(manga).key@),
        final(manga).status == status_spec(opt_view_string(page.status)),
        final(manga).viewer == viewer_spec(opt_view_string(page.kind)),
        crate::model::opt_strings(final(manga).authors) == (if credited(authors_view(page.authors@), false).len() > 0 {
            Some(credited(authors_view(page.authors@), false))
        } else {
            None
        }),
        crate::model::opt_strings(final(manga).artists) == (if credited(authors_view(page.authors@), true).len() > 0 {
            Some(credited(authors_view(page.authors@), true))
        } else {
            None
        }),
        final(manga).content_rating == content_rating_spec(
            match page.is_adult {
                Some(a) => a,
                None => false,
            },
            page_tags(*page),
        ),
        crate::model::opt_strings(final(manga).tags) == (if page_tags(*page).len() > 0 {
            Some(page_tags(*page))
        } else {
            None
        }),
        crate::model::opt_string(final(manga).description) == (if sections_spec(*page).len() > 0 {
            Some(join(sections_spec(*page), "\n\n"@))
        } else {
            None
        }),
{
    manga.title = string_of(chars_of(page.title.as_str()).as_slice());
    match &page.poster_image {
        Some(i) => {
            manga.cover = Some(image_url(i.as_str()));
        },
        None => {},
    }
    let mut url = chars_of(BASE_URL);
    push_str(&mut url, "/manga/");
    push_str(&mut url, manga.key.as_str());
    manga.url = Some(string_of(url.as_slice()));
    manga.status = parse_status(match &page.status {
        Some(s) => Some(s.as_str()),
        None => None,
    });
    manga.viewer = parse_viewer(match &page.kind {
        Some(k) => Some(k.as_str()),
        None => None,
    });
    let authors = credited_exec(&page.authors, false);
    let artists = credited_exec(&page.authors, true);
    manga.authors = if authors.len() > 0 {
        Some(authors)
    } else {
        None
    };
    manga.artists = if artists.len() > 0 {
        Some(artists)
    } else {
        None
    };
    let mut tags: Vec<String> = Vec::new();
    match &page.kind {
        Some(k) => tags.push(string_of(chars_of(k.as_str()).as_slice())),
        None => {},
    }
    let ghost head = views(tags@);
    let mut i: usize = 0;
    while i < page.genres.len()
        invariant
            i <= page.genres@.len(),
            views(tags@) == head + views(page.genres@).subrange(0, i as int),
        decreases page.genres@.len() - i,
    {
        let ghost before = views(tags@);
        tags.push(string_of(chars_of(page.genres[i].as_str()).as_slice()));
        assert(views(tags@) =~= before.push(page.genres@[i as int]@));
        assert(views(page.genres@).subrange(0, i + 1) =~= views(page.genres@).subrange(0, i as int).push(page.genres@[i as int]@));
        i = i + 1;
    }
    assert(views(page.genres@).subrange(0, page.genres@.len() as int) =~= views(page.genres@));
    assert(views(tags@) =~= page_tags(*page));
    manga.content_rating = parse_content_rating(match page.is_adult {
        Some(a) => a,
        None => false,
    }, tags.as_slice());
    manga.tags = if tags.len() > 0 {
        Some(tags)
    } else {
        None
    };
    let stats = stats_exec(page);
    let mut sections: Vec<String> = Vec::new();
    if stats.len() > 0 {
        sections.push(crate::text::join_strings(stats.as_slice(), "\n"));
    }
    match &page.synopsis {
        Some(s) => {
            let t = trim_exec(chars_of(s.as_str()).as_slice());
            if t.len() > 0 {
                sections.push(string_of(t.as_slice()));
            }
        },
        None => {},
    }
    let others = other_names_exec(&page.other_names, page.title.as_str());
    if others.len() > 0 {
        let mut v = chars_of("Alternative Names:\n");
        let j = crate::text::join_strings(others.as_slice(), "\n");
        push_str(&mut v, j.as_str());
        sections.push(string_of(v.as_slice()));
    }
    assert(views(sections@) =~= sections_spec(*page));
    manga.description = if sections.len() > 0 {
        Some(crate::text::join_strings(sections.as_slice(), "\n\n"))
    } else {
        None
    };
}


// ---------------------------------------------------------------------------
// Listing and search entries
// ---------------------------------------------------------------------------

/// An entry as the infinite scroll listings return it.
pub struct ListingItem {
    pub id: String,
    pub title: String,
    pub image: Option<String>,
    pub is_adult: Option<bool>,
    pub kind: Option<String>,
}

/// The address of a title's page.
pub open spec fn manga_page_url(id: Seq<char>) -> Seq<char> {
    BASE_URL@ + "/manga/"@ + id
}

/// The pages the source links to lead back where they came from: a
/// manga's page to the manga, a chapter's reader page to that chapter.
pub proof fn lemma_page_links_round_trip(id: Seq<char>, m: Seq<char>, c: Seq<char>)
    requires
        is_segment(id),
        is_segment(m),
        is_segment(c),
    ensures
        deep_link_spec(manga_page_url(id)) == Some(DeepLink::Manga(id)),
        deep_link_spec(chapter_url_spec(m, c)) == Some(DeepLink::Chapter(m, c)),
{
    lemma_deep_links(id, m, c);
}

/// An image path of the api as an absolute url, when there is one.
pub open spec fn opt_image_url(path: Option<String>) -> Option<Seq<char>> {
    match path {
        Some(p) => Some(image_url_spec(p@)),
        None => None,
    }
}

fn opt_image_url_exec(path: &Option<String>) -> (r: Option<String>)
    ensures
        crate::model::opt_string(r) == opt_image_url(*path),
{
    match path {
        Some(p) => Some(image_url(p.as_str())),
        None => None,
    }
}

fn manga_page_url_exec(id: &str) -> (r: String)
    ensures
        r@ == manga_page_url(id@),
{
    let mut v = chars_of(BASE_URL);
    push_str(&mut v, "/manga/");
    push_str(&mut v, id);
    string_of(v.as_slice())
}

fn opt_str<'a>(o: &'a Option<String>) -> (r: Option<&'a str>)
    ensures
        opt_view(r) == opt_view_string(*o),
{
    match o {
        Some(s) => Some(s.as_str()),
        None => None,
    }
}

/// A listing entry as a manga: its page, cover and reader; adult entries
/// are rated NSFW, the others are left unrated.
pub fn listing_manga(item: &ListingItem) -> (m: Manga)
    ensures
        m.key@ == item.id@,
        m.title@ == item.title@,
        crate::model::opt_string(m.url) == Some(manga_page_url(item.id@)),
        crate::model::opt_string(m.cover) == opt_image_url(item.image),
        m.content_rating == (if item.is_adult == Some(true) {
            ContentRating::NSFW
        } else {
            ContentRating::Unknown
        }),
        m.viewer == viewer_spec(opt_view_string(item.kind)),
        m.status == MangaStatus::Unknown,
        m.artists is None,
        m.authors is None,
        m.description is None,
        m.tags is None,
{
    let mut m = Manga::new(
        string_of(chars_of(item.id.as_str()).as_slice()),
        string_of(chars_of(item.title.as_str()).as_slice()),
    );
    m.url = Some(manga_page_url_exec(item.id.as_str()));
    m.cover = opt_image_url_exec(&item.image);
    m.content_rating = match item.is_adult {
        Some(true) => ContentRating::NSFW,
        _ => ContentRating::Unknown,
    };
    m.viewer = parse_viewer(opt_str(&item.kind));
    m
}

/// A document of the search index; it holds most of what a title's page
/// does.
pub struct SearchDocument {
    pub id: String,
    pub title: String,
    pub poster: Option<String>,
    pub synopsis: Option<String>,
    pub authors: Vec<String>,
    pub tags: Vec<String>,
    pub status: Option<String>,
    pub kind: Option<String>,
    pub is_adult: Option<bool>,
    pub mb_content_rating: Option<String>,
}

/// The rating of a search document: the index's own rating unless the
/// entry is for adults, else the one its flag and tags imply.
pub open spec fn document_rating(d: SearchDocument) -> ContentRating {
    let adult = d.is_adult == Some(true);
    match mb_content_rating_spec(opt_view_string(d.mb_content_rating)) {
        Some(r) => if !adult {
            r
        } else {
            content_rating_spec(adult, views(d.tags@))
        },
        None => content_rating_spec(adult, views(d.tags@)),
    }
}

/// The tags of a search document: its type, then its own tags.
pub open spec fn document_tags(d: SearchDocument) -> Seq<Seq<char>> {
    (match d.kind {
        Some(k) => seq![k@],
        None => Seq::empty(),
    }) + views(d.tags@)
}

/// A synopsis that holds more than white space, kept as it is.
pub open spec fn synopsis_spec(s: Option<String>) -> Option<Seq<char>> {
    match s {
        Some(t) => if trim(t@).len() > 0 {
            Some(t@)
        } else {
            None
        },
        None => None,
    }
}

fn copy_vec(v: &Vec<String>) -> (r: Vec<String>)
    ensures
        views(r@) == views(v@),
{
    let mut out: Vec<String> = Vec::new();
    let mut i: usize = 0;
    while i < v.len()
        invariant
            i <= v@.len(),
            views(out@) == views(v@).subrange(0, i as int),
        decreases v@.len() - i,
    {
        let ghost before = views(out@);
        out.push(string_of(chars_of(v[i].as_str()).as_slice()));
        assert(views(out@) =~= before.push(v@[i as int]@));
        assert(views(v@).subrange(0, i + 1) =~= views(v@).subrange(0, i as int).push(v@[i as int]@));
        i = i + 1;
    }
    assert(views(v@).subrange(0, v@.len() as int) =~= views(v@));
    out
}

/// A search result as a manga, filled in as far as the index goes.
pub fn search_manga(d: &SearchDocument) -> (m: Manga)
    ensures
        m.key@ == d.id@,
        m.title@ == d.title@,
        crate::model::opt_string(m.url) == Some(manga_page_url(d.id@)),
        crate::model::opt_string(m.cover) == opt_image_url(d.poster),
        crate::model::opt_string(m.description) == synopsis_spec(d.synopsis),
        crate::model::opt_strings(m.authors) == (if d.authors@.len() > 0 {
            Some(views(d.authors@))
        } else {
            None
        }),
        crate::model::opt_strings(m.tags) == (if document_tags(*d).len() > 0 {
            Some(document_tags(*d))
        } else {
            None
        }),
        m.status == status_spec(opt_view_string(d.status)),
        m.content_rating == document_rating(*d),
        m.viewer == viewer_spec(opt_view_string(d.kind)),
        m.artists is None,
{
    let adult = match d.is_adult {
        Some(true) => true,
        _ => false,
    };
    let rating = match parse_mb_content_rating(opt_str(&d.mb_content_rating)) {
        Some(r) => if !adult {
            r
        } else {
            parse_content_rating(adult, d.tags.as_slice())
        },
        None => parse_content_rating(adult, d.tags.as_slice()),
    };
    let mut tags: Vec<String> = Vec::new();
    match &d.kind {
        Some(k) => tags.push(string_of(chars_of(k.as_str()).as_slice())),
        None => {},
    }
    let rest = copy_vec(&d.tags);
    let ghost head = views(tags@);
    let mut i: usize = 0;
    while i < rest.len()
        invariant
            i <= rest@.len(),
            views(tags@) == head + views(rest@).subrange(0, i as int),
        decreases rest@.len() - i,
    {
        let ghost before = views(tags@);
        tags.push(string_of(chars_of(rest[i].as_str()).as_slice()));
        assert(views(tags@) =~= before.push(rest@[i as int]@));
        assert(views(rest@).subrange(0, i + 1) =~= views(rest@).subrange(0, i as int).push(rest@[i as int]@));
        i = i + 1;
    }
    assert(views(rest@).subrange(0, rest@.len() as int) =~= views(rest@));
    assert(views(tags@) =~= document_tags(*d));
    let mut m = Manga::new(
        string_of(chars_of(d.id.as_str()).as_slice()),
        string_of(chars_of(d.title.as_str()).as_slice()),
    );
    m.url = Some(manga_page_url_exec(d.id.as_str()));
    m.cover = opt_image_url_exec(&d.poster);
    m.description = match &d.synopsis {
        Some(s) => if trim_exec(chars_of(s.as_str()).as_slice()).len() > 0 {
            Some(string_of(chars_of(s.as_str()).as_slice()))
        } else {
            None
        },
        None => None,
    };
    m.authors = if d.authors.len() > 0 {
        Some(copy_vec(&d.authors))
    } else {
        None
    };
    m.tags = if tags.len() > 0 {
        Some(tags)
    } else {
        None
    };
    m.status = parse_status(opt_str(&d.status));
    m.content_rating = rating;
    m.viewer = parse_viewer(opt_str(&d.kind));
    m
}

// ---------------------------------------------------------------------------
// Chapters
// ---------------------------------------------------------------------------

/// An upload date: a Unix timestamp in milliseconds, or, for older entries,
/// an ISO 8601 text in UTC.
pub enum UploadDate {
    Millis(i64),
    Text(String),
}

/// Milliseconds to whole seconds, truncated towards zero.
pub open spec fn millis_to_seconds(m: int) -> int {
    if m >= 0 {
        m / 1000
    } else {
        -((-m) / 1000)
    }
}

/// The seconds of an upload date; a text has to end in `Z`, and what comes
/// before it is read as a date and time.
pub open spec fn upload_seconds(d: UploadDate) -> Option<int> {
    match d {
        UploadDate::Millis(m) => Some(millis_to_seconds(m as int)),
        UploadDate::Text(t) => if t@.len() > 0 && t@.last() == 'Z' {
            crate::dates::iso_local_seconds(t@.drop_last())
        } else {
            None
        },
    }
}

/// The seconds since the Unix epoch of an upload date.
pub fn upload_timestamp(d: &UploadDate) -> (r: Option<i64>)
    ensures
        match r {
            Some(t) => upload_seconds(*d) == Some(t as int),
            None => upload_seconds(*d) is None,
        },
{
    match d {
        UploadDate::Millis(m) => {
            let m = *m;
            if m >= 0 {
                Some(m / 1000)
            } else {
                let q: i64 = (-(m + 1)) / 1000;
                let rem: i64 = (-(m + 1)) % 1000;
                proof {
                    let n = -(m as int);
                    assert(n == (-(m + 1)) + 1);
                    assert(n / 1000 == (if rem == 999 { q + 1 } else { q as int })) by (nonlinear_arith)
                        requires
                            q == (-(m + 1)) / 1000,
                            rem == (-(m + 1)) % 1000,
                            n == (-(m + 1)) + 1,
                            -(m + 1) >= 0,
                    ;
                }
                if rem == 999 {
                    Some(-q - 1)
                } else {
                    Some(-q)
                }
            }
        },
        UploadDate::Text(t) => {
            let v = chars_of(t.as_str());
            if v.len() > 0 && v[v.len() - 1] == 'Z' {
                let head = string_of(slice_to_vec(v.as_slice(), 0, v.len() - 1).as_slice());
                assert(head@ == t@.drop_last());
                crate::dates::parse_iso_local(head.as_str())
            } else {
                None
            }
        },
    }
}

/// A scanlation group, as the title's page lists them.
pub struct Scanlator {
    pub id: String,
    pub name: String,
}

/// The name of the first group with the given id.
pub open spec fn scanlator_named(s: Seq<Scanlator>, id: Seq<char>) -> Option<Seq<char>>
    decreases s.len(),
{
    if s.len() == 0 {
        None
    } else if s[0].id@ == id {
        Some(s[0].name@)
    } else {
        scanlator_named(s.drop_first(), id)
    }
}

fn scanlator_named_exec(s: &[Scanlator], id: &str) -> (r: Option<String>)
    ensures
        crate::model::opt_string(r) == scanlator_named(s@, id@),
{
    let mut i: usize = 0;
    assert(s@.subrange(0, s@.len() as int) =~= s@);
    while i < s.len()
        invariant
            i <= s@.len(),
            scanlator_named(s@, id@) == scanlator_named(s@.subrange(i as int, s@.len() as int), id@),
        decreases s@.len() - i,
    {
        let ghost rest = s@.subrange(i as int, s@.len() as int);
        assert(rest[0] == s@[i as int]);
        if str_eq(s[i].id.as_str(), id) {
            return Some(string_of(chars_of(s[i].name.as_str()).as_slice()));
        }
        assert(rest.drop_first() =~= s@.subrange(i + 1, s@.len() as int));
        i = i + 1;
    }
    None
}

/// A chapter of a title's chapter list. Its number is the decimal text the
/// app reads it from.
pub struct ChapterItem {
    pub id: String,
    pub title: Option<String>,
    pub number: Option<String>,
    pub scanlation_manga_id: Option<String>,
    pub created_at: Option<UploadDate>,
}

/// The reader's address of a chapter.
pub open spec fn chapter_url_spec(manga_key: Seq<char>, id: Seq<char>) -> Seq<char> {
    BASE_URL@ + "/read/"@ + manga_key + "/"@ + id
}

/// A chapter list entry as a chapter: a title that is more than its number,
/// the number, the upload date, and the group that scanlated it when the
/// page lists that group.
pub fn into_chapter(item: &ChapterItem, manga_key: &str, scanlators: &[Scanlator]) -> (c:
    crate::model::Chapter)
    ensures
        c.key@ == item.id@,
        crate::model::opt_string(c.url) == Some(chapter_url_spec(manga_key@, item.id@)),
        crate::model::opt_string(c.title) == clean_title_spec(
            opt_view_string(item.title),
            match item.number {
                Some(n) => Some(number_form(n@)),
                None => None,
            },
        ),
        crate::model::opt_string(c.number) == opt_view_string(item.number),
        c.date_uploaded == (match item.created_at {
            Some(d) => match upload_seconds(d) {
                Some(t) => Some(t as i64),
                None => None,
            },
            None => None,
        }),
        crate::model::opt_strings(c.scanlators) == (match item.scanlation_manga_id {
            Some(id) => match scanlator_named(scanlators@, id@) {
                Some(n) => Some(seq![n]),
                None => None,
            },
            None => None,
        }),
        c.volume is None,
        c.language is None,
{
    let mut c = crate::model::Chapter::new(string_of(chars_of(item.id.as_str()).as_slice()));
    let mut url = chars_of(BASE_URL);
    push_str(&mut url, "/read/");
    push_str(&mut url, manga_key);
    push_str(&mut url, "/");
    push_str(&mut url, item.id.as_str());
    c.url = Some(string_of(url.as_slice()));
    let title = match &item.title {
        Some(t) => Some(string_of(chars_of(t.as_str()).as_slice())),
        None => None,
    };
    c.title = clean_chapter_title(title, opt_str(&item.number));
    c.number = match &item.number {
        Some(n) => Some(string_of(chars_of(n.as_str()).as_slice())),
        None => None,
    };
    c.date_uploaded = match &item.created_at {
        Some(d) => upload_timestamp(d),
        None => None,
    };
    c.scanlators = match &item.scanlation_manga_id {
        Some(id) => match scanlator_named_exec(scanlators, id.as_str()) {
            Some(n) => {
                let mut v: Vec<String> = Vec::new();
                v.push(n);
                assert(views(v@) =~= seq![v@[0]@]);
                Some(v)
            },
            None => None,
        },
        None => None,
    };
    c
}

// ---------------------------------------------------------------------------
// Updates and paging
// ---------------------------------------------------------------------------

/// More search results follow while the pages so far hold fewer than were
/// found.
pub fn has_next_search_page(page: i32, found: i32) -> (r: bool)
    ensures
        r == ((page as int * PER_PAGE as int) < found as int),
{
    (page as i64) * (PER_PAGE as i64) < found as i64
}

/// How an update of a title goes: whether the chapters its page carries are
/// the whole list, whether the full list has to be asked for, and whether
/// the details are handed out before the chapters come.
pub struct UpdatePlan {
    pub use_page_chapters: bool,
    pub fetch_all_chapters: bool,
    pub send_partial: bool,
}

/// The page's chapters are used when chapters are wanted, the page says
/// there are no more, and it carries some; otherwise the full list is asked
/// for, and the details, when wanted, are handed out before it.
pub fn update_plan(
    needs_details: bool,
    needs_chapters: bool,
    has_more_chapters: Option<bool>,
    page_has_chapters: bool,
) -> (p: UpdatePlan)
    ensures
        p.use_page_chapters == (needs_chapters && has_more_chapters == Some(false)
            && page_has_chapters),
        p.fetch_all_chapters == (needs_chapters && !p.use_page_chapters),
        p.send_partial == (needs_details && needs_chapters && !p.use_page_chapters),
{
    let use_page = needs_chapters && has_more_chapters == Some(false) && page_has_chapters;
    UpdatePlan {
        use_page_chapters: use_page,
        fetch_all_chapters: needs_chapters && !use_page,
        send_partial: needs_details && needs_chapters && !use_page,
    }
}

} // verus!
