//! Dynasty Scans (dynasty-scans.com): search urls and results, series
//! records and their chapters, reader pages, covers kept in series records,
//! key migration and deep links.
use vstd::prelude::*;
use crate::model::{Chapter, ContentRating, DeepLink, DeepLinkResult, FilterValue, Manga, MangaStatus, Viewer, link_view, opt_string, opt_strings};
use crate::text::{
    all_digits, before_set, before_set_exec, char_from, char_from_exec, chars_of, contains,
    contains_lit, dec_int, ends_with, is_ascii_alphanumeric, lit_eq, push_slice, push_str, rfind,
    rfind_pattern, slice_to_vec, str_eq, string_of, strip_prefix, strip_prefix_exec, trim,
    trim_end_char, trim_end_char_exec, trim_exec, trim_start_set, trim_start_set_exec,
    trim_start_str, trim_start_str_exec, views,
};
use crate::url::{QueryParameters, encode_component, query_text};

verus! {

pub const BASE_URL: &'static str = "https://dynasty-scans.com";
pub const SERIES_PATH: &'static str = "/series/";
pub const CHAPTERS_PATH: &'static str = "/chapters/";

pub type Params = Seq<(Seq<char>, Option<Seq<char>>)>;

/// One `name=value` parameter, both encoded.
pub open spec fn param(name: Seq<char>, value: Seq<char>) -> (Seq<char>, Option<Seq<char>>) {
    (encode_component(name), Some(encode_component(value)))
}

/// The same parameter once for each value.
pub open spec fn params(name: Seq<char>, values: Seq<Seq<char>>) -> Params {
    values.map_values(|v: Seq<char>| param(name, v))
}

// ---------------------------------------------------------------------------
// Search
// ---------------------------------------------------------------------------

pub open spec fn sort_option(index: int) -> Seq<char> {
    if index == 1 {
        "name"@
    } else if index == 2 {
        "created_at"@
    } else {
        Seq::empty()
    }
}

/// What one filter adds to the parameters, and whether it picks the kinds
/// of entries searched for: a sort its order (unencoded); tag filters the
/// tags to have and not to have; type filters the kinds.
pub open spec fn apply_filter(ps: Params, kinds: bool, f: FilterValue) -> (Params, bool) {
    match f {
        FilterValue::Sort { index, .. } => (
            ps.push((encode_component("sort"@), Some(sort_option(index as int)))),
            kinds,
        ),
        FilterValue::MultiSelect { id, included, excluded } => if id@ == "tags"@ {
            (ps + params("with[]"@, views(included@)) + params("without[]"@, views(excluded@)), kinds)
        } else if id@ == "type"@ {
            (ps + params("classes[]"@, views(included@)), true)
        } else {
            (ps, kinds)
        },
        _ => (ps, kinds),
    }
}

pub open spec fn apply_filters(ps: Params, kinds: bool, fs: Seq<FilterValue>) -> (Params, bool)
    decreases fs.len(),
{
    if fs.len() == 0 {
        (ps, kinds)
    } else {
        let (p, k) = apply_filters(ps, kinds, fs.drop_last());
        apply_filter(p, k, fs.last())
    }
}

/// The search parameters: the query, the page past the first, the
/// filters', and series only unless a type filter picks the kinds.
pub open spec fn search_params(query: Option<Seq<char>>, page: int, fs: Seq<FilterValue>) -> Params {
    let start = (match query {
        Some(q) => seq![param("q"@, q)],
        None => Seq::empty(),
    }) + (if page > 1 {
        seq![param("page"@, dec_int(page))]
    } else {
        Seq::empty()
    });
    let (ps, kinds) = apply_filters(start, false, fs);
    if kinds {
        ps
    } else {
        ps.push(param("classes[]"@, "Series"@))
    }
}

pub open spec fn search_url_spec(query: Option<Seq<char>>, page: int, fs: Seq<FilterValue>) -> Seq<char> {
    BASE_URL@ + "/search?"@ + query_text(search_params(query, page, fs))
}

/// A search sends its term as `q` first, the page past the first as `page`,
/// and, without filters, asks for series only.
pub proof fn lemma_search_terms(query: Option<Seq<char>>, page: int, fs: Seq<FilterValue>)
    ensures
        query matches Some(q) ==> search_params(query, page, fs)[0] == param("q"@, q),
        page > 1 ==> search_params(query, page, fs).contains(param("page"@, dec_int(page))),
        search_params(query, page, Seq::empty()).last() == param("classes[]"@, "Series"@),
{
    let start = (match query {
        Some(q) => seq![param("q"@, q)],
        None => Seq::empty(),
    }) + (if page > 1 {
        seq![param("page"@, dec_int(page))]
    } else {
        Seq::empty()
    });
    lemma_filters_extend(start, false, fs);
    let (ps, kinds) = apply_filters(start, false, fs);
    let r = search_params(query, page, fs);
    if query is Some {
        assert(r[0] == ps[0]);
        assert(ps[0] == start[0]);
    }
    if page > 1 {
        let i = start.len() - 1;
        assert(r[i] == ps[i]);
        assert(ps[i] == start[i]);
    }
}

/// Filters only add parameters after those already there.
proof fn lemma_filters_extend(ps: Params, kinds: bool, fs: Seq<FilterValue>)
    ensures
        apply_filters(ps, kinds, fs).0.len() >= ps.len(),
        forall|i: int| 0 <= i < ps.len() ==> apply_filters(ps, kinds, fs).0[i] == ps[i],
    decreases fs.len(),
{
    if fs.len() > 0 {
        lemma_filters_extend(ps, kinds, fs.drop_last());
    }
}

/// A search whose last filter is a sort sends the site's sort key for the
/// option picked, unencoded: the second option sorts by `name`, the third
/// by `created_at` (newest first), and the first, the site's default, sends
/// an empty key.
pub proof fn lemma_sort_keys(query: Option<Seq<char>>, page: int, fs: Seq<FilterValue>, id: String, index: i32, ascending: bool)
    ensures
        search_params(query, page, fs.push(FilterValue::Sort { id, index, ascending })).contains(
            (
                encode_component("sort"@),
                Some(
                    if index == 1 {
                        "name"@
                    } else if index == 2 {
                        "created_at"@
                    } else {
                        Seq::empty()
                    },
                ),
            ),
        ),
{
    let start = (match query {
        Some(q) => seq![param("q"@, q)],
        None => Seq::empty(),
    }) + (if page > 1 {
        seq![param("page"@, dec_int(page))]
    } else {
        Seq::empty()
    });
    let gs = fs.push(FilterValue::Sort { id, index, ascending });
    assert(gs.drop_last() =~= fs);
    let (p, k) = apply_filters(start, false, fs);
    let e = (encode_component("sort"@), Some(sort_option(index as int)));
    assert(apply_filters(start, false, gs) == (p.push(e), k));
    let (ps, kinds) = apply_filters(start, false, gs);
    let r = search_params(query, page, gs);
    assert(r[p.len() as int] == e);
}

fn sort_option_exec(index: i32) -> (r: &'static str)
    ensures
        r@ == sort_option(index as int),
{
    if index == 1 {
        "name"
    } else if index == 2 {
        "created_at"
    } else {
        proof {
            reveal_strlit("");
        }
        ""
    }
}

fn push_all(qs: &mut QueryParameters, name: &str, values: &Vec<String>)
    ensures
        final(qs)@ == old(qs)@ + params(name@, views(values@)),
{
    let ghost start = qs@;
    let ghost vs = views(values@);
    let mut k: usize = 0;
    assert(start + params(name@, vs.take(0)) =~= start);
    while k < values.len()
        invariant
            k <= values@.len(),
            vs == views(values@),
            qs@ == start + params(name@, vs.take(k as int)),
        decreases values@.len() - k,
    {
        qs.push(name, Some(values[k].as_str()));
        assert(params(name@, vs.take(k + 1)) =~= params(name@, vs.take(k as int)).push(param(name@, vs[k as int])));
        k = k + 1;
    }
    assert(vs.take(values@.len() as int) =~= vs);
}

/// The search page's address for a query, page and filters.
pub fn search_url(query: Option<&str>, page: i32, filters: &[FilterValue]) -> (r: String)
    ensures
        r@ == search_url_spec(crate::atsumaru::opt_view(query), page as int, filters@),
{
    let mut qs = QueryParameters::new();
    match query {
        Some(q) => qs.push("q", Some(q)),
        None => {},
    }
    if page > 1 {
        let p = crate::text::i32_to_string(page);
        qs.push("page", Some(p.as_str()));
    }
    let ghost start = qs@;
    assert(start =~= (match crate::atsumaru::opt_view(query) {
        Some(q) => seq![param("q"@, q)],
        None => Seq::<(Seq<char>, Option<Seq<char>>)>::empty(),
    }) + (if page > 1 {
        seq![param("page"@, dec_int(page as int))]
    } else {
        Seq::<(Seq<char>, Option<Seq<char>>)>::empty()
    }));
    let mut kinds = false;
    let mut i: usize = 0;
    assert(filters@.take(0) =~= Seq::<FilterValue>::empty());
    while i < filters.len()
        invariant
            i <= filters@.len(),
            (qs@, kinds) == apply_filters(start, false, filters@.take(i as int)),
        decreases filters@.len() - i,
    {
        assert(filters@.take(i + 1).drop_last() =~= filters@.take(i as int));
        let ghost before = qs@;
        match &filters[i] {
            FilterValue::Sort { index, .. } => {
                qs.push_encoded("sort", Some(sort_option_exec(*index)));
            },
            FilterValue::MultiSelect { id, included, excluded } => {
                if str_eq(id.as_str(), "tags") {
                    push_all(&mut qs, "with[]", included);
                    push_all(&mut qs, "without[]", excluded);
                } else if str_eq(id.as_str(), "type") {
                    push_all(&mut qs, "classes[]", included);
                    kinds = true;
                }
            },
            _ => {},
        }
        proof {
            let (p, k) = apply_filter(before, apply_filters(start, false, filters@.take(i as int)).1, filters@[i as int]);
            assert(qs@ =~= p);
        }
        i = i + 1;
    }
    assert(filters@.take(filters@.len() as int) =~= filters@);
    if !kinds {
        qs.push("classes[]", Some("Series"));
    }
    let t = qs.to_query_string();
    let mut u = chars_of(BASE_URL);
    push_str(&mut u, "/search?");
    push_str(&mut u, t.as_str());
    string_of(u.as_slice())
}

/// A result link of the search page: its `href` and its text.
pub struct SearchLink {
    pub href: Option<String>,
    pub text: Option<String>,
}

/// The cover a series has in search results: its record, which the cover
/// processor reads the cover's address from.
pub open spec fn record_cover(key: Seq<char>) -> Seq<char> {
    BASE_URL@ + SERIES_PATH@ + key + ".json"@
}

/// The series a result link stands for: keyed by its path under
/// `/series/`, titled by its text, with its record as cover unless images
/// are skipped.
pub open spec fn link_manga(link: SearchLink, skip_images: bool, m: Manga) -> bool {
    &&& link.href matches Some(h) && strip_prefix(h@, SERIES_PATH@) == Some(m.key@)
    &&& link.text matches Some(t) && m.title@ == t@
    &&& opt_string(m.cover) == (if skip_images {
        None
    } else {
        Some(record_cover(m.key@))
    })
    &&& m.artists is None && m.authors is None && m.description is None && m.url is None
    &&& m.tags is None
    &&& m.status == MangaStatus::Unknown
    &&& m.content_rating == ContentRating::Unknown
    &&& m.viewer == Viewer::Unknown
}

pub open spec fn is_series_link(link: SearchLink) -> bool {
    &&& link.href matches Some(h) && strip_prefix(h@, SERIES_PATH@) is Some
    &&& link.text is Some
}

pub fn search_entry(link: SearchLink, skip_images: bool) -> (r: Option<Manga>)
    ensures
        is_series_link(link) ==> (r matches Some(m) && link_manga(link, skip_images, m)),
        !is_series_link(link) ==> r is None,
{
    let SearchLink { href, text } = link;
    let h = match href {
        Some(h) => h,
        None => return None,
    };
    let key = match strip_prefix_exec(chars_of(h.as_str()).as_slice(), SERIES_PATH) {
        Some(k) => k,
        None => return None,
    };
    let title = match text {
        Some(t) => t,
        None => return None,
    };
    let mut m = Manga::new(string_of(key.as_slice()), title);
    if !skip_images {
        let mut c = chars_of(BASE_URL);
        push_str(&mut c, SERIES_PATH);
        push_slice(&mut c, key.as_slice());
        push_str(&mut c, ".json");
        m.cover = Some(string_of(c.as_slice()));
    }
    Some(m)
}

/// The series of a search page, in page order, links elsewhere left out.
pub fn search_entries(links: Vec<SearchLink>, skip_images: bool) -> (r: Vec<Manga>)
    ensures
        r@.len() == links@.filter(|l: SearchLink| is_series_link(l)).len(),
        forall|i: int| 0 <= i < r@.len() ==> link_manga(
            links@.filter(|l: SearchLink| is_series_link(l))[i],
            skip_images,
            #[trigger] r@[i],
        ),
{
    let ghost all = links@;
    let ghost pred = |l: SearchLink| is_series_link(l);
    let mut out: Vec<Manga> = Vec::new();
    let mut rest = links;
    let mut i: usize = 0;
    let n = rest.len();
    while rest.len() > 0
        invariant
            n == all.len(),
            i + rest@.len() == all.len(),
            rest@ == all.subrange(i as int, all.len() as int),
            pred == (|l: SearchLink| is_series_link(l)),
            out@.len() == all.subrange(0, i as int).filter(pred).len(),
            forall|j: int| 0 <= j < out@.len() ==> link_manga(
                all.subrange(0, i as int).filter(pred)[j],
                skip_images,
                #[trigger] out@[j],
            ),
        decreases rest@.len(),
    {
        let link = rest.remove(0);
        proof {
            assert(link == all[i as int]);
            let s = all.subrange(0, i + 1);
            assert(s.drop_last() =~= all.subrange(0, i as int));
            assert(s.filter(pred) == s.drop_last().filter(pred) + (if pred(s.last()) {
                seq![s.last()]
            } else {
                Seq::empty()
            })) by {
                reveal_with_fuel(Seq::<_>::filter, 1);
            }
        }
        match search_entry(link, skip_images) {
            Some(m) => {
                out.push(m);
            },
            None => {},
        }
        assert(rest@ =~= all.subrange(i + 1, all.len() as int));
        i = i + 1;
    }
    assert(all.subrange(0, all.len() as int) =~= all);
    out
}

// ---------------------------------------------------------------------------
// Series records
// ---------------------------------------------------------------------------

/// A tag of a series or chapter record: its type and name.
pub struct DynastyTag {
    pub kind: String,
    pub name: String,
}

pub open spec fn tags_view(tags: Seq<DynastyTag>) -> Seq<(Seq<char>, Seq<char>)> {
    tags.map_values(|t: DynastyTag| (t.kind@, t.name@))
}

/// The names of the tags of a type, in order.
pub open spec fn names_of(tags: Seq<(Seq<char>, Seq<char>)>, kind: Seq<char>) -> Seq<Seq<char>>
    decreases tags.len(),
{
    if tags.len() == 0 {
        Seq::empty()
    } else if tags.last().0 == kind {
        names_of(tags.drop_last(), kind).push(tags.last().1)
    } else {
        names_of(tags.drop_last(), kind)
    }
}

fn names_of_exec(tags: &Vec<DynastyTag>, kind: &str) -> (r: Vec<String>)
    ensures
        views(r@) == names_of(tags_view(tags@), kind@),
{
    let ghost tv = tags_view(tags@);
    let mut out: Vec<String> = Vec::new();
    let mut i: usize = 0;
    assert(tv.take(0) =~= Seq::<(Seq<char>, Seq<char>)>::empty());
    assert(views(out@) =~= Seq::<Seq<char>>::empty());
    while i < tags.len()
        invariant
            i <= tags@.len(),
            tv == tags_view(tags@),
            views(out@) == names_of(tv.take(i as int), kind@),
        decreases tags@.len() - i,
    {
        assert(tv.take(i + 1).drop_last() =~= tv.take(i as int));
        assert(tv.take(i + 1).last() == (tags@[i as int].kind@, tags@[i as int].name@));
        if str_eq(tags[i].kind.as_str(), kind) {
            let ghost before = views(out@);
            out.push(string_of(chars_of(tags[i].name.as_str()).as_slice()));
            assert(views(out@) =~= before.push(tags@[i as int].name@));
        }
        i = i + 1;
    }
    assert(tv.take(tags@.len() as int) =~= tv);
    out
}

pub open spec fn is_general(t: (Seq<char>, Seq<char>)) -> bool {
    t.0 == "General"@
}

pub open spec fn is_explicit(name: Seq<char>) -> bool {
    name == "NSFW"@ || contains(name, "sex"@)
}

/// The rating the general tags imply: explicit with an `NSFW` tag or one
/// that mentions `sex`, suggestive with an `Ecchi` one, else safe.
pub open spec fn rating_spec(tags: Seq<(Seq<char>, Seq<char>)>) -> ContentRating {
    if exists|i: int| 0 <= i < tags.len() && is_general(#[trigger] tags[i]) && is_explicit(tags[i].1) {
        ContentRating::NSFW
    } else if exists|i: int| 0 <= i < tags.len() && is_general(#[trigger] tags[i]) && tags[i].1 == "Ecchi"@ {
        ContentRating::Suggestive
    } else {
        ContentRating::Safe
    }
}

/// The status a status tag names, if it names one.
pub open spec fn status_name(name: Seq<char>) -> Option<MangaStatus> {
    if name == "Ongoing"@ {
        Some(MangaStatus::Ongoing)
    } else if name == "Completed"@ {
        Some(MangaStatus::Completed)
    } else if name == "On Hiatus"@ {
        Some(MangaStatus::Hiatus)
    } else if name == "Licensed"@ || name == "Dropped"@ || name == "Cancelled"@ || name
        == "Not Updated"@ || name == "Abandoned"@ || name == "Removed"@ {
        Some(MangaStatus::Cancelled)
    } else {
        None
    }
}

/// The status of the last status tag that names one; unknown without.
pub open spec fn status_spec(tags: Seq<(Seq<char>, Seq<char>)>) -> MangaStatus
    decreases tags.len(),
{
    if tags.len() == 0 {
        MangaStatus::Unknown
    } else if tags.last().0 == "Status"@ && status_name(tags.last().1) is Some {
        status_name(tags.last().1)->0
    } else {
        status_spec(tags.drop_last())
    }
}

/// The last status tag decides: `Ongoing`, `Completed`, `On Hiatus`, and
/// `Licensed`, `Dropped`, `Cancelled`, `Not Updated`, `Abandoned` or
/// `Removed` as cancelled; a series with no status tag has an unknown
/// status.
pub proof fn lemma_status_tags(tags: Seq<(Seq<char>, Seq<char>)>, name: Seq<char>)
    ensures
        status_spec(tags.push(("Status"@, "Ongoing"@))) == MangaStatus::Ongoing,
        status_spec(tags.push(("Status"@, "Completed"@))) == MangaStatus::Completed,
        status_spec(tags.push(("Status"@, "On Hiatus"@))) == MangaStatus::Hiatus,
        name == "Licensed"@ || name == "Dropped"@ || name == "Cancelled"@ || name == "Not Updated"@
            || name == "Abandoned"@ || name == "Removed"@ ==> status_spec(tags.push(("Status"@, name)))
            == MangaStatus::Cancelled,
        (forall|i: int| 0 <= i < tags.len() ==> (#[trigger] tags[i]).0 != "Status"@) ==> status_spec(
            tags,
        ) == MangaStatus::Unknown,
    decreases tags.len(),
{
    reveal_strlit("Ongoing");
    reveal_strlit("Completed");
    reveal_strlit("On Hiatus");
    reveal_strlit("Licensed");
    reveal_strlit("Dropped");
    reveal_strlit("Cancelled");
    reveal_strlit("Not Updated");
    reveal_strlit("Abandoned");
    reveal_strlit("Removed");
    assert("Ongoing"@.len() == 7 && "Completed"@.len() == 9 && "On Hiatus"@.len() == 9);
    assert("Ongoing"@ != "Completed"@ && "Ongoing"@ != "On Hiatus"@);
    assert("Completed"@[0] != "On Hiatus"@[0]);
    assert("Completed"@ != "On Hiatus"@);
    if name == "Licensed"@ || name == "Dropped"@ || name == "Cancelled"@ || name == "Not Updated"@
        || name == "Abandoned"@ || name == "Removed"@ {
        assert(name != "Ongoing"@ && name != "Completed"@ && name != "On Hiatus"@) by {
            if name == "Cancelled"@ {
                assert(name[1] != "Completed"@[1]);
                assert(name[0] != "On Hiatus"@[0]);
            } else if name == "Dropped"@ || name == "Removed"@ {
                assert(name[0] != "Ongoing"@[0]);
            } else if name == "Abandoned"@ {
                assert(name[0] != "Completed"@[0] && name[0] != "On Hiatus"@[0]);
            }
        }
    }
    if tags.len() > 0 && forall|i: int| 0 <= i < tags.len() ==> (#[trigger] tags[i]).0 != "Status"@ {
        lemma_status_tags(tags.drop_last(), name);
        assert forall|i: int| 0 <= i < tags.drop_last().len() implies (#[trigger] tags.drop_last()[i]).0
            != "Status"@ by {
            assert(tags.drop_last()[i] == tags[i]);
        }
        assert(tags.last() == tags[tags.len() - 1]);
    }
}

/// A general `NSFW` tag, or one that mentions `sex`, rates a series
/// explicit; without one, a general `Ecchi` tag rates it suggestive; a
/// series without general tags is safe.
pub proof fn lemma_rating_tags(tags: Seq<(Seq<char>, Seq<char>)>, i: int)
    requires
        0 <= i < tags.len(),
    ensures
        tags[i] == ("General"@, "NSFW"@) ==> rating_spec(tags) == ContentRating::NSFW,
        tags[i].0 == "General"@ && contains(tags[i].1, "sex"@) ==> rating_spec(tags)
            == ContentRating::NSFW,
        tags[i] == ("General"@, "Ecchi"@) && rating_spec(tags) != ContentRating::NSFW ==> rating_spec(
            tags,
        ) == ContentRating::Suggestive,
        (forall|j: int| 0 <= j < tags.len() ==> (#[trigger] tags[j]).0 != "General"@) ==> rating_spec(
            tags,
        ) == ContentRating::Safe,
{
    assert(is_general(tags[i]) <==> tags[i].0 == "General"@);
}

fn status_name_exec(name: &str) -> (r: Option<MangaStatus>)
    ensures
        r == status_name(name@),
{
    if str_eq(name, "Ongoing") {
        Some(MangaStatus::Ongoing)
    } else if str_eq(name, "Completed") {
        Some(MangaStatus::Completed)
    } else if str_eq(name, "On Hiatus") {
        Some(MangaStatus::Hiatus)
    } else if str_eq(name, "Licensed") || str_eq(name, "Dropped") || str_eq(name, "Cancelled")
        || str_eq(name, "Not Updated") || str_eq(name, "Abandoned") || str_eq(name, "Removed") {
        Some(MangaStatus::Cancelled)
    } else {
        None
    }
}

/// The rating and status a series' tags give.
fn rating_and_status(tags: &Vec<DynastyTag>) -> (r: (ContentRating, MangaStatus))
    ensures
        r.0 == rating_spec(tags_view(tags@)),
        r.1 == status_spec(tags_view(tags@)),
{
    let ghost tv = tags_view(tags@);
    let mut explicit = false;
    let mut ecchi = false;
    let mut status = MangaStatus::Unknown;
    let mut i: usize = 0;
    assert(tv.take(0) =~= Seq::<(Seq<char>, Seq<char>)>::empty());
    while i < tags.len()
        invariant
            i <= tags@.len(),
            tv == tags_view(tags@),
            explicit == exists|j: int| 0 <= j < i && is_general(#[trigger] tv[j]) && is_explicit(tv[j].1),
            ecchi == exists|j: int| 0 <= j < i && is_general(#[trigger] tv[j]) && tv[j].1 == "Ecchi"@,
            status == status_spec(tv.take(i as int)),
        decreases tags@.len() - i,
    {
        assert(tv[i as int] == (tags@[i as int].kind@, tags@[i as int].name@));
        assert(tv.take(i + 1).drop_last() =~= tv.take(i as int));
        assert(tv.take(i + 1).last() == tv[i as int]);
        let kind = tags[i].kind.as_str();
        let name = tags[i].name.as_str();
        if str_eq(kind, "General") {
            if str_eq(name, "NSFW") || crate::text::str_contains(name, "sex") {
                explicit = true;
            }
            if str_eq(name, "Ecchi") {
                ecchi = true;
            }
        }
        if str_eq(kind, "Status") {
            match status_name_exec(name) {
                Some(st) => {
                    status = st;
                },
                None => {},
            }
        }
        i = i + 1;
    }
    assert(tv.take(tags@.len() as int) =~= tv);
    let rating = if explicit {
        ContentRating::NSFW
    } else if ecchi {
        ContentRating::Suggestive
    } else {
        ContentRating::Safe
    };
    (rating, status)
}

/// A series record. Its description is the text of the record's HTML
/// description, which the app reads.
pub struct SeriesEntry {
    pub name: String,
    pub permalink: String,
    pub cover: Option<String>,
    pub tags: Vec<DynastyTag>,
    pub description: Option<String>,
}

/// The series a record describes: keyed by its permalink, its cover on the
/// site, its authors and general tags (unset when there are none), the
/// rating and status its tags give, read right to left.
pub fn series_manga(entry: SeriesEntry) -> (r: Manga)
    ensures
        r.key@ == entry.permalink@,
        r.title@ == entry.name@,
        opt_string(r.cover) == (match entry.cover {
            Some(c) => Some(BASE_URL@ + c@),
            None => None,
        }),
        opt_strings(r.authors) == (if names_of(tags_view(entry.tags@), "Author"@).len() > 0 {
            Some(names_of(tags_view(entry.tags@), "Author"@))
        } else {
            None
        }),
        r.description == entry.description,
        opt_string(r.url) == Some(BASE_URL@ + SERIES_PATH@ + entry.permalink@),
        opt_strings(r.tags) == (if names_of(tags_view(entry.tags@), "General"@).len() > 0 {
            Some(names_of(tags_view(entry.tags@), "General"@))
        } else {
            None
        }),
        r.status == status_spec(tags_view(entry.tags@)),
        r.content_rating == rating_spec(tags_view(entry.tags@)),
        r.viewer == Viewer::RightToLeft,
        r.artists is None,
{
    let SeriesEntry { name, permalink, cover, tags, description } = entry;
    let authors = names_of_exec(&tags, "Author");
    let general = names_of_exec(&tags, "General");
    let (rating, status) = rating_and_status(&tags);
    let mut url = chars_of(BASE_URL);
    push_str(&mut url, SERIES_PATH);
    push_str(&mut url, permalink.as_str());
    let cover = match cover {
        Some(c) => {
            let mut v = chars_of(BASE_URL);
            push_str(&mut v, c.as_str());
            Some(string_of(v.as_slice()))
        },
        None => None,
    };
    let mut m = Manga::new(permalink, name);
    m.cover = cover;
    if authors.len() > 0 {
        m.authors = Some(authors);
    }
    m.description = description;
    m.url = Some(string_of(url.as_slice()));
    if general.len() > 0 {
        m.tags = Some(general);
    }
    m.status = status;
    m.content_rating = rating;
    m.viewer = Viewer::RightToLeft;
    m
}

// ---------------------------------------------------------------------------
// Chapters
// ---------------------------------------------------------------------------

/// A chapter's number from its permalink, after its last `_ch`: digits, or
/// digits, `_` and digits standing for a decimal point (not both parts
/// empty). The app reads it as a number.
pub open spec fn chapter_number_spec(permalink: Seq<char>) -> Option<Seq<char>> {
    match rfind(permalink, "_ch"@) {
        Some(i) => {
            let chapter = permalink.subrange(i + 3, permalink.len() as int);
            match char_from(chapter, '_', 0) {
                Some(u) => {
                    let whole = chapter.subrange(0, u);
                    let fraction = chapter.subrange(u + 1, chapter.len() as int);
                    if all_digits(whole) && all_digits(fraction) && whole.len() + fraction.len() > 0 {
                        Some(whole + "."@ + fraction)
                    } else {
                        None
                    }
                },
                None => if all_digits(chapter) && chapter.len() > 0 {
                    Some(chapter)
                } else {
                    None
                },
            }
        },
        None => None,
    }
}

/// A permalink ending `_ch<digits>` numbers its chapter by the digits, and
/// one ending `_ch<digits>_<digits>` by the two parts joined with a decimal
/// point, whatever comes before the last `_ch`.
pub proof fn lemma_chapter_numbers(prefix: Seq<char>, whole: Seq<char>, fraction: Seq<char>)
    requires
        all_digits(whole),
        all_digits(fraction),
    ensures
        whole.len() > 0 ==> chapter_number_spec(prefix + "_ch"@ + whole) == Some(whole),
        whole.len() + fraction.len() > 0 ==> chapter_number_spec(
            prefix + "_ch"@ + whole + seq!['_'] + fraction,
        ) == Some(whole + seq!['.'] + fraction),
{
    reveal_strlit("_ch");
    reveal_strlit(".");
    let m = "_ch"@;
    let i = prefix.len() as int;
    assert forall|j: int| 0 <= j < whole.len() implies whole[j] != '_' && whole[j] != 'c' by {
        assert(crate::text::is_ascii_digit(whole[j]));
    }
    assert forall|j: int| 0 <= j < fraction.len() implies fraction[j] != '_' && fraction[j] != 'c' by {
        assert(crate::text::is_ascii_digit(fraction[j]));
    }
    // `_ch<whole>`
    let s1 = prefix + m + whole;
    assert(s1.subrange(i, i + 3) =~= m);
    assert forall|j: int| i < j <= s1.len() - 3 implies !crate::text::occurs_at(s1, m, j) by {
        if crate::text::occurs_at(s1, m, j) {
            assert(s1.subrange(j, j + 3)[1] == 'c');
            assert(s1[j + 1] == 'c');
            if j + 1 == i + 2 {
                assert(s1[i + 2] == 'h');
            } else {
                assert(s1[j + 1] == whole[j + 1 - i - 3]);
            }
        }
    }
    if whole.len() > 0 {
        crate::text::lemma_pattern_before_last(s1, m, s1.len() - 3, i);
        assert(s1.subrange(i + 3, s1.len() as int) =~= whole);
        crate::text::lemma_char_from_first(whole, '_', 0, whole.len() as int);
    }
    // `_ch<whole>_<fraction>`
    let rest = whole + seq!['_'] + fraction;
    let s2 = prefix + m + whole + seq!['_'] + fraction;
    assert(s2 =~= prefix + m + rest);
    assert(s2.subrange(i, i + 3) =~= m);
    assert forall|j: int| 0 <= j < rest.len() implies rest[j] != 'c' by {
        if j < whole.len() {
            assert(rest[j] == whole[j]);
        } else if j > whole.len() {
            assert(rest[j] == fraction[j - whole.len() - 1]);
        }
    }
    assert forall|j: int| i < j <= s2.len() - 3 implies !crate::text::occurs_at(s2, m, j) by {
        if crate::text::occurs_at(s2, m, j) {
            assert(s2.subrange(j, j + 3)[1] == 'c');
            assert(s2[j + 1] == 'c');
            if j + 1 == i + 2 {
                assert(s2[i + 2] == 'h');
            } else {
                assert(s2[j + 1] == rest[j + 1 - i - 3]);
            }
        }
    }
    if whole.len() + fraction.len() > 0 {
        crate::text::lemma_pattern_before_last(s2, m, s2.len() - 3, i);
        assert(s2.subrange(i + 3, s2.len() as int) =~= rest);
        crate::text::lemma_char_from_first(rest, '_', 0, whole.len() as int);
        assert(rest.subrange(0, whole.len() as int) =~= whole);
        assert(rest.subrange(whole.len() as int + 1, rest.len() as int) =~= fraction);
        assert("."@ =~= seq!['.']);
    }
}

fn all_digits_exec(s: &[char]) -> (r: bool)
    ensures
        r == all_digits(s@),
{
    let mut i: usize = 0;
    while i < s.len()
        invariant
            i <= s@.len(),
            forall|j: int| 0 <= j < i ==> crate::text::is_ascii_digit(#[trigger] s@[j]),
        decreases s@.len() - i,
    {
        if !('0' <= s[i] && s[i] <= '9') {
            return false;
        }
        i = i + 1;
    }
    true
}

pub fn chapter_number(permalink: &str) -> (r: Option<String>)
    ensures
        opt_string(r) == chapter_number_spec(permalink@),
{
    let p = chars_of(permalink);
    let marker = chars_of("_ch");
    proof {
        reveal_strlit("_ch");
    }
    let i = match rfind_pattern(p.as_slice(), marker.as_slice()) {
        Some(i) => i,
        None => return None,
    };
    proof {
        crate::text::lemma_pattern_before(p@, marker@, p@.len() - marker@.len());
    }
    let pl = p.len();
    let chapter = slice_to_vec(p.as_slice(), i + 3, pl);
    match char_from_exec(chapter.as_slice(), '_', 0) {
        Some(u) => {
            proof {
                crate::text::lemma_char_from(chapter@, '_', 0);
            }
            let cl = chapter.len();
            let whole = slice_to_vec(chapter.as_slice(), 0, u);
            let fraction = slice_to_vec(chapter.as_slice(), u + 1, cl);
            if all_digits_exec(whole.as_slice()) && all_digits_exec(fraction.as_slice()) && (whole.len() > 0
                || fraction.len() > 0) {
                let mut v = whole;
                v.push('.');
                push_slice(&mut v, fraction.as_slice());
                assert(v@ =~= whole@ + "."@ + fraction@) by {
                    reveal_strlit(".");
                }
                Some(string_of(v.as_slice()))
            } else {
                None
            }
        },
        None => {
            if all_digits_exec(chapter.as_slice()) && chapter.len() > 0 {
                Some(string_of(chapter.as_slice()))
            } else {
                None
            }
        },
    }
}

/// A chapter record. Its upload date is what the app read from its release
/// day, and `number_display` how the app writes the chapter's number (see
/// `chapter_number`); empty without one.
pub struct ChapterItem {
    pub title: String,
    pub permalink: String,
    pub date_uploaded: Option<i64>,
    pub tags: Vec<DynastyTag>,
    pub number_display: String,
}

/// A numbered chapter's title loses its `Chapter <number>` prefix and the
/// colons after it; what's left, trimmed, is its title, none when nothing
/// is. An unnumbered chapter keeps its title.
pub open spec fn chapter_title_spec(title: Seq<char>, numbered: bool, display: Seq<char>) -> Option<Seq<char>> {
    if numbered {
        let rest = trim(trim_start_set(trim_start_str(title, "Chapter "@ + display), seq![':']));
        if rest.len() > 0 {
            Some(rest)
        } else {
            None
        }
    } else {
        Some(title)
    }
}

/// The chapter a record describes: keyed by its permalink, numbered and
/// titled as above, credited to its scanlator tags, with its address.
pub fn chapter_from_item(item: ChapterItem) -> (r: Chapter)
    ensures
        r.key@ == item.permalink@,
        opt_string(r.number) == chapter_number_spec(item.permalink@),
        opt_string(r.title) == chapter_title_spec(
            item.title@,
            chapter_number_spec(item.permalink@) is Some,
            item.number_display@,
        ),
        r.date_uploaded == item.date_uploaded,
        opt_strings(r.scanlators) == Some(names_of(tags_view(item.tags@), "Scanlator"@)),
        opt_string(r.url) == Some(BASE_URL@ + CHAPTERS_PATH@ + item.permalink@),
        r.volume is None,
        r.language is None,
{
    let ChapterItem { title, permalink, date_uploaded, tags, number_display } = item;
    let number = chapter_number(permalink.as_str());
    let shown = match &number {
        Some(_) => {
            let mut prefix = chars_of("Chapter ");
            push_str(&mut prefix, number_display.as_str());
            let a = trim_start_str_exec(chars_of(title.as_str()).as_slice(), prefix.as_slice());
            let colon: [char; 1] = [':'];
            assert(colon@ =~= seq![':']);
            let b = trim_start_set_exec(a.as_slice(), &colon);
            let c = trim_exec(b.as_slice());
            if c.len() > 0 {
                Some(string_of(c.as_slice()))
            } else {
                None
            }
        },
        None => Some(title),
    };
    let scanlators = names_of_exec(&tags, "Scanlator");
    let mut url = chars_of(BASE_URL);
    push_str(&mut url, CHAPTERS_PATH);
    push_str(&mut url, permalink.as_str());
    let mut c = Chapter::new(permalink);
    c.title = shown;
    c.number = number;
    c.date_uploaded = date_uploaded;
    c.scanlators = Some(scanlators);
    c.url = Some(string_of(url.as_slice()));
    c
}

/// An entry of a series' chapter list: a chapter or a section header.
pub enum Tagging {
    Chapter(ChapterItem),
    Header(Option<String>),
}

pub open spec fn chapter_items(ts: Seq<Tagging>) -> Seq<ChapterItem>
    decreases ts.len(),
{
    if ts.len() == 0 {
        Seq::empty()
    } else {
        match ts.last() {
            Tagging::Chapter(c) => chapter_items(ts.drop_last()).push(c),
            Tagging::Header(_) => chapter_items(ts.drop_last()),
        }
    }
}

/// The chapters of a series' list, headers left out, newest (last listed)
/// first; none without a list.
pub fn series_chapters(taggings: Option<Vec<Tagging>>) -> (r: Option<Vec<Chapter>>)
    ensures
        taggings is None ==> r is None,
        taggings matches Some(ts) ==> (r matches Some(cs) && cs@.len() == chapter_items(ts@).len()
            && forall|i: int| 0 <= i < cs@.len() ==> {
                let item = chapter_items(ts@).reverse()[i];
                &&& (#[trigger] cs@[i]).key@ == item.permalink@
                &&& opt_string(cs@[i].number) == chapter_number_spec(item.permalink@)
                &&& opt_string(cs@[i].title) == chapter_title_spec(
                    item.title@,
                    chapter_number_spec(item.permalink@) is Some,
                    item.number_display@,
                )
                &&& cs@[i].date_uploaded == item.date_uploaded
                &&& opt_strings(cs@[i].scanlators) == Some(names_of(tags_view(item.tags@), "Scanlator"@))
                &&& opt_string(cs@[i].url) == Some(BASE_URL@ + CHAPTERS_PATH@ + item.permalink@)
                &&& cs@[i].volume is None
                &&& cs@[i].language is None
            }),
{
    let mut rest = match taggings {
        Some(ts) => ts,
        None => return None,
    };
    let ghost all = rest@;
    let mut out: Vec<Chapter> = Vec::new();
    let n = rest.len();
    while rest.len() > 0
        invariant
            rest@.len() <= n,
            n == all.len(),
            rest@ == all.subrange(0, rest@.len() as int),
            out@.len() == chapter_items(all).len() - chapter_items(rest@).len(),
            chapter_items(rest@).len() <= chapter_items(all).len(),
            forall|i: int| 0 <= i < out@.len() ==> {
                let item = chapter_items(all).reverse()[i];
                &&& (#[trigger] out@[i]).key@ == item.permalink@
                &&& opt_string(out@[i].number) == chapter_number_spec(item.permalink@)
                &&& opt_string(out@[i].title) == chapter_title_spec(
                    item.title@,
                    chapter_number_spec(item.permalink@) is Some,
                    item.number_display@,
                )
                &&& out@[i].date_uploaded == item.date_uploaded
                &&& opt_strings(out@[i].scanlators) == Some(names_of(tags_view(item.tags@), "Scanlator"@))
                &&& opt_string(out@[i].url) == Some(BASE_URL@ + CHAPTERS_PATH@ + item.permalink@)
                &&& out@[i].volume is None
                &&& out@[i].language is None
            },
            chapter_items(all) == chapter_items(rest@) + chapter_items(all.subrange(rest@.len() as int, all.len() as int)),
        decreases rest@.len(),
    {
        let ghost before = rest@;
        let t = rest.pop().unwrap();
        proof {
            assert(before.drop_last() =~= rest@);
            assert(rest@ =~= all.subrange(0, rest@.len() as int));
            assert(t == before.last());
            lemma_chapter_items_split(all, rest@.len() as int);
            lemma_chapter_items_split(all, before.len() as int);
        }
        match t {
            Tagging::Chapter(c) => {
                let ghost item = c;
                proof {
                    assert(chapter_items(before) == chapter_items(rest@).push(c));
                    assert(chapter_items(all).reverse()[out@.len() as int] == item) by {
                        let k = chapter_items(rest@).len();
                        assert(chapter_items(all)[k as int] == item);
                    }
                }
                out.push(chapter_from_item(c));
            },
            Tagging::Header(_) => {},
        }
    }
    proof {
        lemma_chapter_items_split(all, 0);
        assert(all.subrange(0, all.len() as int) =~= all);
    }
    Some(out)
}

proof fn lemma_chapter_items_split(ts: Seq<Tagging>, k: int)
    requires
        0 <= k <= ts.len(),
    ensures
        chapter_items(ts) == chapter_items(ts.subrange(0, k)) + chapter_items(ts.subrange(k, ts.len() as int)),
    decreases ts.len() - k,
{
    if k == ts.len() {
        assert(ts.subrange(0, k) =~= ts);
        assert(ts.subrange(k, ts.len() as int) =~= Seq::<Tagging>::empty());
        assert(chapter_items(ts) + Seq::<ChapterItem>::empty() =~= chapter_items(ts));
    } else {
        lemma_chapter_items_split(ts, k + 1);
        let a = ts.subrange(0, k + 1);
        let b = ts.subrange(k + 1, ts.len() as int);
        let c = ts.subrange(k, ts.len() as int);
        assert(a.drop_last() =~= ts.subrange(0, k));
        assert(a.last() == ts[k]);
        assert(c.drop_first() =~= b);
        assert(c[0] == ts[k]);
        lemma_chapter_items_first(c);
        match ts[k] {
            Tagging::Chapter(x) => {
                assert(chapter_items(a) == chapter_items(ts.subrange(0, k)).push(x));
                assert(chapter_items(c) == seq![x] + chapter_items(b));
                assert(chapter_items(ts.subrange(0, k)).push(x) + chapter_items(b) =~= chapter_items(ts.subrange(0, k)) + (seq![x] + chapter_items(b)));
            },
            Tagging::Header(_) => {
                assert(chapter_items(a) == chapter_items(ts.subrange(0, k)));
                assert(chapter_items(c) == chapter_items(b));
            },
        }
    }
}

proof fn lemma_chapter_items_first(ts: Seq<Tagging>)
    requires
        ts.len() > 0,
    ensures
        chapter_items(ts) == match ts[0] {
            Tagging::Chapter(x) => seq![x] + chapter_items(ts.drop_first()),
            Tagging::Header(_) => chapter_items(ts.drop_first()),
        },
    decreases ts.len(),
{
    if ts.len() == 1 {
        assert(ts.drop_last() =~= Seq::<Tagging>::empty());
        assert(ts.drop_first() =~= Seq::<Tagging>::empty());
        assert(ts.last() == ts[0]);
    } else {
        let d = ts.drop_last();
        lemma_chapter_items_first(d);
        assert(d[0] == ts[0]);
        assert(d.drop_first() =~= ts.drop_first().drop_last());
        assert(ts.drop_first().last() == ts.last());
        match ts.last() {
            Tagging::Chapter(y) => {
                match ts[0] {
                    Tagging::Chapter(x) => {
                        assert((seq![x] + chapter_items(d.drop_first())).push(y) =~= seq![x] + chapter_items(d.drop_first()).push(y));
                    },
                    Tagging::Header(_) => {},
                }
            },
            Tagging::Header(_) => {},
        }
    }
}

// ---------------------------------------------------------------------------
// Pages, covers, migration and deep links
// ---------------------------------------------------------------------------

/// A chapter's page images, from the paths its record lists.
pub fn page_urls(paths: &[String]) -> (r: Vec<String>)
    ensures
        views(r@) == views(paths@).map_values(|p: Seq<char>| BASE_URL@ + p),
{
    let ghost pv = views(paths@);
    let mut out: Vec<String> = Vec::new();
    let mut k: usize = 0;
    while k < paths.len()
        invariant
            k <= paths@.len(),
            pv == views(paths@),
            views(out@) == pv.subrange(0, k as int).map_values(|p: Seq<char>| BASE_URL@ + p),
        decreases paths@.len() - k,
    {
        let mut u = chars_of(BASE_URL);
        push_str(&mut u, paths[k].as_str());
        out.push(string_of(u.as_slice()));
        assert(pv.subrange(0, k + 1).map_values(|p: Seq<char>| BASE_URL@ + p) =~= pv.subrange(0, k as int).map_values(|p: Seq<char>| BASE_URL@ + p).push(BASE_URL@ + pv[k as int]));
        assert(views(out@) =~= pv.subrange(0, k + 1).map_values(|p: Seq<char>| BASE_URL@ + p));
        k = k + 1;
    }
    assert(pv.subrange(0, paths@.len() as int) =~= pv);
    out
}

/// Why a cover can't be had.
#[derive(Debug, Clone, PartialEq, Eq)]
pub enum CoverError {
    /// The cover request had no address.
    MissingUrl,
    /// A series record didn't read as JSON.
    JsonParse,
    /// A series record (at this address) names no cover.
    NoCover(String),
}

/// Where a cover comes from: a cover requested as a series record (an
/// address ending in `json`) is the image its `cover` member names, on the
/// site; any other cover is the image received (none here).
pub fn cover_source(url: Option<String>, data: &[u8]) -> (r: Result<Option<String>, CoverError>)
    ensures
        url is None ==> r == Err::<Option<String>, CoverError>(CoverError::MissingUrl),
        url matches Some(u) ==> (!ends_with(u@, "json"@) ==> r == Ok::<Option<String>, CoverError>(None)),
        url matches Some(u) ==> (ends_with(u@, "json"@) ==> match crate::json::json_str_member(data@, "cover"@) {
            None => r == Err::<Option<String>, CoverError>(CoverError::JsonParse),
            Some(None) => r matches Err(CoverError::NoCover(v)) && v@ == u@,
            Some(Some(c)) => r matches Ok(Some(s)) && s@ == BASE_URL@ + c,
        }),
{
    let u = match url {
        Some(u) => u,
        None => return Err(CoverError::MissingUrl),
    };
    if !crate::text::ends_with_exec(chars_of(u.as_str()).as_slice(), chars_of("json").as_slice()) {
        return Ok(None);
    }
    match crate::json::str_member(data, "cover") {
        None => Err(CoverError::JsonParse),
        Some(None) => Err(CoverError::NoCover(u)),
        Some(Some(c)) => {
            let mut v = chars_of(BASE_URL);
            push_str(&mut v, c.as_str());
            Ok(Some(string_of(v.as_slice())))
        },
    }
}

/// Older series keys carried a `series/` prefix, which is dropped.
pub fn handle_manga_migration(key: &str) -> (r: String)
    ensures
        r@ == trim_start_str(key@, "series/"@),
{
    let k = trim_start_str_exec(chars_of(key).as_slice(), chars_of("series/").as_slice());
    string_of(k.as_slice())
}

/// Migrating a key twice gives what migrating it once does.
pub proof fn lemma_migration_idempotent(key: Seq<char>)
    ensures
        trim_start_str(trim_start_str(key, "series/"@), "series/"@) == trim_start_str(key, "series/"@),
    decreases key.len(),
{
    let p = "series/"@;
    if p.len() > 0 && crate::text::starts_with(key, p) {
        lemma_migration_idempotent(key.subrange(p.len() as int, key.len() as int));
    }
}

/// A key the site uses: not empty, of ASCII letters, digits, `_` and `-`.
pub open spec fn valid_key(k: Seq<char>) -> bool {
    k.len() > 0 && forall|i: int| 0 <= i < k.len() ==> is_ascii_alphanumeric(#[trigger] k[i]) || k[i] == '_' || k[i] == '-'
}

fn valid_key_exec(k: &[char]) -> (r: bool)
    ensures
        r == valid_key(k@),
{
    if k.len() == 0 {
        return false;
    }
    let mut i: usize = 0;
    while i < k.len()
        invariant
            i <= k@.len(),
            forall|j: int| 0 <= j < i ==> is_ascii_alphanumeric(#[trigger] k@[j]) || k@[j] == '_' || k@[j] == '-',
        decreases k@.len() - i,
    {
        let c = k[i];
        if !(('a' <= c && c <= 'z') || ('A' <= c && c <= 'Z') || ('0' <= c && c <= '9') || c == '_' || c == '-') {
            return false;
        }
        i = i + 1;
    }
    true
}

/// Series pages lead to their series; chapter pages, whose key is the
/// series' key, `_ch` and the number, to that chapter of that series.
pub open spec fn deep_link_spec(url: Seq<char>) -> Option<DeepLink> {
    match strip_prefix(url, BASE_URL@) {
        None => None,
        Some(p) => {
            let path = trim_end_char(before_set(p, seq!['?', '#']), '/');
            match strip_prefix(path, SERIES_PATH@) {
                Some(k) if valid_key(k) => Some(DeepLink::Manga(k)),
                _ => match strip_prefix(path, CHAPTERS_PATH@) {
                    Some(k) if valid_key(k) => match rfind(k, "_ch"@) {
                        Some(i) => {
                            let manga_key = k.subrange(0, i);
                            let number = k.subrange(i + 3, k.len() as int);
                            if manga_key.len() > 0 && number.len() > 0 && all_digits(number) {
                                Some(DeepLink::Chapter(manga_key, k))
                            } else {
                                None
                            }
                        },
                        None => None,
                    },
                    _ => None,
                },
            }
        },
    }
}

/// A key character: an ASCII letter or digit, `_` or `-`.
pub open spec fn is_key_char(c: char) -> bool {
    ('a' <= c <= 'z') || ('A' <= c <= 'Z') || ('0' <= c <= '9') || c == '_' || c == '-'
}

proof fn lemma_plain_path(p: Seq<char>)
    requires
        p.len() > 0,
        p.last() != '/',
        forall|j: int| 0 <= j < p.len() ==> p[j] != '?' && p[j] != '#',
    ensures
        trim_end_char(before_set(p, seq!['?', '#']), '/') == p,
{
    lemma_before_set_plain(p);
}

proof fn lemma_before_set_plain(s: Seq<char>)
    requires
        forall|j: int| 0 <= j < s.len() ==> s[j] != '?' && s[j] != '#',
    ensures
        before_set(s, seq!['?', '#']) == s,
    decreases s.len(),
{
    if s.len() > 0 {
        assert(!seq!['?', '#'].contains(s[0])) by {
            if seq!['?', '#'].contains(s[0]) {
                let k = choose|k: int| 0 <= k < 2 && seq!['?', '#'][k] == s[0];
            }
        }
        lemma_before_set_plain(s.drop_first());
        assert(seq![s[0]] + s.drop_first() =~= s);
    }
}

proof fn lemma_last_ch(k: Seq<char>, n: int, i: int)
    requires
        0 <= n <= i,
        i + 3 <= k.len(),
        k.subrange(n, n + 3) == "_ch"@,
        forall|j: int| n + 3 <= j < k.len() ==> '0' <= #[trigger] k[j] <= '9',
    ensures
        crate::text::pattern_before(k, "_ch"@, i) == Some(n),
    decreases i,
{
    reveal_strlit("_ch");
    if i > n {
        assert(!crate::text::occurs_at(k, "_ch"@, i)) by {
            if crate::text::occurs_at(k, "_ch"@, i) {
                if i >= n + 3 {
                    assert(k.subrange(i, i + 3)[0] == k[i]);
                } else if i == n + 1 {
                    assert(k.subrange(i, i + 3)[2] == k[n + 3]);
                } else {
                    assert(k.subrange(i, i + 3)[1] == k[n + 3]);
                }
            }
        }
        lemma_last_ch(k, n, i - 1);
    }
}

/// Series pages, `/series/<key>`, lead to the series; the key made of
/// ASCII letters, digits, `_` and `-`.
#[verifier::spinoff_prover]
pub proof fn lemma_series_links(key: Seq<char>)
    requires
        key.len() > 0,
        forall|j: int| 0 <= j < key.len() ==> is_key_char(#[trigger] key[j]),
    ensures
        deep_link_spec(BASE_URL@ + "/series/"@ + key) == Some(DeepLink::Manga(key)),
{
    reveal_strlit("/series/");
    assert(SERIES_PATH@ == "/series/"@);
    // a series page
    let p1 = "/series/"@ + key;
    let u1 = BASE_URL@ + p1;
    assert(u1 =~= BASE_URL@ + "/series/"@ + key);
    assert(u1.subrange(0, BASE_URL@.len() as int) =~= BASE_URL@);
    assert(u1.subrange(BASE_URL@.len() as int, u1.len() as int) =~= p1);
    assert(p1.last() == key.last());
    lemma_plain_path(p1);
    assert(p1.subrange(0, 8) =~= "/series/"@);
    assert(p1.subrange(8, p1.len() as int) =~= key);
    assert(valid_key(key));
}

proof fn lemma_chapter_key(series: Seq<char>, number: Seq<char>)
    requires
        series.len() > 0,
        forall|j: int| 0 <= j < series.len() ==> is_key_char(#[trigger] series[j]),
        number.len() > 0,
        forall|j: int| 0 <= j < number.len() ==> '0' <= #[trigger] number[j] <= '9',
    ensures
        ({
            let k = series + "_ch"@ + number;
            &&& valid_key(k)
            &&& rfind(k, "_ch"@) == Some(series.len() as int)
            &&& k.subrange(0, series.len() as int) == series
            &&& k.subrange(series.len() as int + 3, k.len() as int) == number
            &&& all_digits(number)
            &&& forall|j: int| 0 <= j < k.len() ==> k[j] != '?' && k[j] != '#'
            &&& k.last() != '/'
        }),
{
    reveal_strlit("_ch");
    let k = series + "_ch"@ + number;
    let n = series.len() as int;
    assert forall|j: int| 0 <= j < k.len() implies (is_ascii_alphanumeric(#[trigger] k[j]) || k[j] == '_' || k[j]
        == '-') && k[j] != '?' && k[j] != '#' by {
        if j < n {
            assert(k[j] == series[j]);
        } else if j < n + 3 {
        } else {
            assert(k[j] == number[j - n - 3]);
        }
    }
    assert(k.last() == number.last());
    assert(k.subrange(n, n + 3) =~= "_ch"@);
    assert forall|j: int| n + 3 <= j < k.len() implies '0' <= #[trigger] k[j] <= '9' by {
        assert(k[j] == number[j - n - 3]);
    }
    lemma_last_ch(k, n, k.len() - 3);
    assert(k.subrange(0, n) =~= series);
    assert(k.subrange(n + 3, k.len() as int) =~= number);
}

/// The site's own pages lead back to what they show: a series' page (at
/// the series path) to the series, and a chapter page (at the chapters
/// path) to the chapter whose key numbers it as the page does.
pub proof fn lemma_pages_round_trip(series: Seq<char>, number: Seq<char>)
    requires
        series.len() > 0,
        forall|j: int| 0 <= j < series.len() ==> is_key_char(#[trigger] series[j]),
        number.len() > 0,
        forall|j: int| 0 <= j < number.len() ==> '0' <= #[trigger] number[j] <= '9',
    ensures
        deep_link_spec(BASE_URL@ + SERIES_PATH@ + series) == Some(DeepLink::Manga(series)),
        deep_link_spec(BASE_URL@ + CHAPTERS_PATH@ + series + "_ch"@ + number) == Some(
            DeepLink::Chapter(series, series + "_ch"@ + number),
        ),
        chapter_number_spec(series + "_ch"@ + number) == Some(number),
{
    reveal_strlit("/series/");
    reveal_strlit("/chapters/");
    assert(SERIES_PATH@ == "/series/"@);
    assert(CHAPTERS_PATH@ == "/chapters/"@);
    lemma_series_links(series);
    lemma_chapter_links(series, number);
    assert forall|j: int| 0 <= j < number.len() implies crate::text::is_ascii_digit(#[trigger] number[j]) by {
        assert('0' <= number[j] <= '9');
    }
    assert(all_digits(Seq::<char>::empty()));
    lemma_chapter_numbers(series, number, Seq::empty());
}

/// Chapter pages, `/chapters/<series key>_ch<number>`, lead to the chapter
/// of that series; the key made of ASCII letters, digits, `_` and `-`, the
/// number of digits.
#[verifier::spinoff_prover]
pub proof fn lemma_chapter_links(series: Seq<char>, number: Seq<char>)
    requires
        series.len() > 0,
        forall|j: int| 0 <= j < series.len() ==> is_key_char(#[trigger] series[j]),
        number.len() > 0,
        forall|j: int| 0 <= j < number.len() ==> '0' <= #[trigger] number[j] <= '9',
    ensures
        deep_link_spec(BASE_URL@ + "/chapters/"@ + series + "_ch"@ + number) == Some(
            DeepLink::Chapter(series, series + "_ch"@ + number),
        ),
{
    reveal_strlit("/series/");
    reveal_strlit("/chapters/");
    assert(SERIES_PATH@ == "/series/"@);
    assert(CHAPTERS_PATH@ == "/chapters/"@);
    lemma_chapter_key(series, number);
    let k = series + "_ch"@ + number;
    let p2 = "/chapters/"@ + k;
    let u2 = BASE_URL@ + p2;
    assert(u2 =~= BASE_URL@ + "/chapters/"@ + series + "_ch"@ + number);
    assert(u2.subrange(0, BASE_URL@.len() as int) =~= BASE_URL@);
    assert(u2.subrange(BASE_URL@.len() as int, u2.len() as int) =~= p2);
    assert(p2.last() == k.last());
    assert forall|j: int| 0 <= j < p2.len() implies p2[j] != '?' && p2[j] != '#' by {
        if j >= 10 {
            assert(p2[j] == k[j - 10]);
        }
    }
    lemma_plain_path(p2);
    assert(!crate::text::starts_with(p2, "/series/"@)) by {
        assert(p2.subrange(0, 8)[1] != "/series/"@[1]);
    }
    assert(p2.subrange(0, 10) =~= "/chapters/"@);
    assert(p2.subrange(10, p2.len() as int) =~= k);
}

pub fn handle_deep_link(url: &str) -> (r: Option<DeepLinkResult>)
    ensures
        link_view(r) == deep_link_spec(url@),
{
    let p = match strip_prefix_exec(chars_of(url).as_slice(), BASE_URL) {
        Some(p) => p,
        None => return None,
    };
    let stops: [char; 2] = ['?', '#'];
    assert(stops@ =~= seq!['?', '#']);
    let path = trim_end_char_exec(before_set_exec(p.as_slice(), &stops).as_slice(), '/');
    match strip_prefix_exec(path.as_slice(), SERIES_PATH) {
        Some(k) => {
            if valid_key_exec(k.as_slice()) {
                return Some(DeepLinkResult::Manga { key: string_of(k.as_slice()) });
            }
        },
        None => {},
    }
    let k = match strip_prefix_exec(path.as_slice(), CHAPTERS_PATH) {
        Some(k) => k,
        None => return None,
    };
    if !valid_key_exec(k.as_slice()) {
        return None;
    }
    let marker = chars_of("_ch");
    proof {
        reveal_strlit("_ch");
    }
    let i = match rfind_pattern(k.as_slice(), marker.as_slice()) {
        Some(i) => i,
        None => return None,
    };
    proof {
        crate::text::lemma_pattern_before(k@, marker@, k@.len() - marker@.len());
    }
    let kl = k.len();
    let manga_key = slice_to_vec(k.as_slice(), 0, i);
    let number = slice_to_vec(k.as_slice(), i + 3, kl);
    if manga_key.len() == 0 || number.len() == 0 || !all_digits_exec(number.as_slice()) {
        return None;
    }
    Some(DeepLinkResult::Chapter { manga_key: string_of(manga_key.as_slice()), key: string_of(k.as_slice()) })
}

} // verus!
