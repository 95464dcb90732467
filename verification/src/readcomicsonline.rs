//! ReadComicsOnline (readcomicsonline.ru): the advanced search form, keys
//! of comic and chapter links, the latest releases list and home entries.
use vstd::prelude::*;
use crate::model::{ContentRating, FilterValue, Manga, MangaStatus, Viewer, opt_string};
use crate::text::{chars_of, push_str, str_eq, string_of, strip_prefix, strip_prefix_exec};
use crate::url::encode_component;

verus! {

pub const BASE_URL: &'static str = "https://readcomicsonline.ru";
/// The path comics live under.
pub const ITEM_PATH: &'static str = "comic";

/// A select's value: that of the last select with the id, if any.
pub open spec fn select_value(fs: Seq<FilterValue>, name: Seq<char>) -> Option<Seq<char>>
    decreases fs.len(),
{
    if fs.len() == 0 {
        None
    } else {
        match fs.last() {
            FilterValue::Select { id, value } => if id@ == name {
                Some(value@)
            } else {
                select_value(fs.drop_last(), name)
            },
            _ => select_value(fs.drop_last(), name),
        }
    }
}

pub open spec fn or_empty(v: Option<Seq<char>>) -> Seq<char> {
    match v {
        Some(s) => s,
        None => Seq::empty(),
    }
}

/// The advanced search form: the name searched for (encoded), the status,
/// type and category picked, the page, and the form's token when the page
/// has one.
pub open spec fn search_body_spec(
    query: Option<Seq<char>>,
    page: int,
    fs: Seq<FilterValue>,
    token: Option<Seq<char>>,
) -> Seq<char> {
    "name="@ + or_empty(crate::url::encode_opt(query)) + "&status_id="@ + or_empty(
        select_value(fs, "status_id"@),
    ) + "&type_id="@ + or_empty(select_value(fs, "type_id"@)) + "&category="@ + or_empty(
        select_value(fs, "category"@),
    ) + "&page="@ + crate::text::dec_int(page) + match token {
        Some(t) => "&_token="@ + encode_component(t),
        None => Seq::empty(),
    }
}

pub fn search_body(query: Option<&str>, page: i32, filters: &[FilterValue], token: Option<&str>) -> (r: String)
    ensures
        r@ == search_body_spec(
            crate::atsumaru::opt_view(query),
            page as int,
            filters@,
            crate::atsumaru::opt_view(token),
        ),
{
    let mut status: Option<&String> = None;
    let mut kind: Option<&String> = None;
    let mut category: Option<&String> = None;
    let mut i: usize = 0;
    assert(filters@.take(0) =~= Seq::<FilterValue>::empty());
    while i < filters.len()
        invariant
            i <= filters@.len(),
            opt_string(match status { Some(s) => Some(*s), None => None }) == select_value(filters@.take(i as int), "status_id"@),
            opt_string(match kind { Some(s) => Some(*s), None => None }) == select_value(filters@.take(i as int), "type_id"@),
            opt_string(match category { Some(s) => Some(*s), None => None }) == select_value(filters@.take(i as int), "category"@),
        decreases filters@.len() - i,
    {
        assert(filters@.take(i + 1).drop_last() =~= filters@.take(i as int));
        match &filters[i] {
            FilterValue::Select { id, value } => {
                if str_eq(id.as_str(), "status_id") {
                    status = Some(value);
                }
                if str_eq(id.as_str(), "type_id") {
                    kind = Some(value);
                }
                if str_eq(id.as_str(), "category") {
                    category = Some(value);
                }
            },
            _ => {},
        }
        i = i + 1;
    }
    assert(filters@.take(filters@.len() as int) =~= filters@);
    let mut b = chars_of("name=");
    match query {
        Some(q) => {
            let e = crate::url::encode_uri_component(q);
            push_str(&mut b, e.as_str());
        },
        None => {},
    }
    push_str(&mut b, "&status_id=");
    match status {
        Some(s) => push_str(&mut b, s.as_str()),
        None => {},
    }
    push_str(&mut b, "&type_id=");
    match kind {
        Some(s) => push_str(&mut b, s.as_str()),
        None => {},
    }
    push_str(&mut b, "&category=");
    match category {
        Some(s) => push_str(&mut b, s.as_str()),
        None => {},
    }
    push_str(&mut b, "&page=");
    let p = crate::text::i32_to_string(page);
    push_str(&mut b, p.as_str());
    match token {
        Some(t) => {
            push_str(&mut b, "&_token=");
            let e = crate::url::encode_uri_component(t);
            push_str(&mut b, e.as_str());
        },
        None => {},
    }
    string_of(b.as_slice())
}

/// Where a comic's pages start: the site, the item path and a `/`.
pub open spec fn item_prefix() -> Seq<char> {
    BASE_URL@ + "/"@ + ITEM_PATH@ + "/"@
}

/// Comics live at `https://readcomicsonline.ru/comic/<key>` and their
/// chapters at `<comic page>/<chapter key>`: a link built so gives back its
/// key, and one elsewhere gives none.
pub proof fn lemma_link_keys(key: Seq<char>, chapter: Seq<char>, href: Seq<char>)
    ensures
        item_prefix() == "https://readcomicsonline.ru/comic/"@,
        strip_prefix(item_prefix() + key, item_prefix()) == Some(key),
        strip_prefix(item_prefix() + key + "/"@ + chapter, item_prefix() + key + "/"@) == Some(
            chapter,
        ),
        !crate::text::starts_with(href, item_prefix()) ==> strip_prefix(href, item_prefix()) is None,
{
    reveal_strlit("https://readcomicsonline.ru");
    reveal_strlit("/");
    reveal_strlit("comic");
    reveal_strlit("https://readcomicsonline.ru/comic/");
    assert(item_prefix() =~= "https://readcomicsonline.ru/comic/"@);
    let a = item_prefix() + key;
    assert(a.subrange(0, item_prefix().len() as int) =~= item_prefix());
    assert(a.subrange(item_prefix().len() as int, a.len() as int) =~= key);
    let q = item_prefix() + key + "/"@;
    let b = q + chapter;
    assert(b.subrange(0, q.len() as int) =~= q);
    assert(b.subrange(q.len() as int, b.len() as int) =~= chapter);
}

/// The search form names the last value picked for each select, and
/// leaves a select nobody picked empty.
pub proof fn lemma_select_values(fs: Seq<FilterValue>, id: String, value: String, name: Seq<char>)
    ensures
        id@ == name ==> select_value(fs.push(FilterValue::Select { id, value }), name) == Some(
            value@,
        ),
        (forall|i: int|
            0 <= i < fs.len() ==> !(#[trigger] fs[i] matches FilterValue::Select { id, .. } && id@
                == name)) ==> select_value(fs, name) is None,
    decreases fs.len(),
{
    assert(fs.push(FilterValue::Select { id, value }).drop_last() =~= fs);
    if fs.len() > 0 {
        lemma_select_values(fs.drop_last(), id, value, name);
        if forall|i: int|
            0 <= i < fs.len() ==> !(#[trigger] fs[i] matches FilterValue::Select { id, .. } && id@
                == name) {
            assert forall|i: int|
                0 <= i < fs.drop_last().len() implies !(#[trigger] fs.drop_last()[i] matches FilterValue::Select {
                id,
                ..
            } && id@ == name) by {
                assert(fs.drop_last()[i] == fs[i]);
            }
            assert(fs.last() == fs[fs.len() - 1]);
        }
    }
}

/// A comic link's key: its address after the comics' prefix.
pub fn item_key(href: &str) -> (r: Option<String>)
    ensures
        opt_string(r) == strip_prefix(href@, item_prefix()),
{
    let mut p = chars_of(BASE_URL);
    push_str(&mut p, "/");
    push_str(&mut p, ITEM_PATH);
    push_str(&mut p, "/");
    let ps = string_of(p.as_slice());
    match strip_prefix_exec(chars_of(href).as_slice(), ps.as_str()) {
        Some(k) => Some(string_of(k.as_slice())),
        None => None,
    }
}

/// A chapter link's key: its address after its comic's page and a `/`.
pub fn chapter_key(url: &str, manga_key: &str) -> (r: Option<String>)
    ensures
        opt_string(r) == strip_prefix(url@, item_prefix() + manga_key@ + "/"@),
{
    let mut p = chars_of(BASE_URL);
    push_str(&mut p, "/");
    push_str(&mut p, ITEM_PATH);
    push_str(&mut p, "/");
    push_str(&mut p, manga_key);
    push_str(&mut p, "/");
    let ps = string_of(p.as_slice());
    match strip_prefix_exec(chars_of(url).as_slice(), ps.as_str()) {
        Some(k) => Some(string_of(k.as_slice())),
        None => None,
    }
}

/// The latest releases list's page.
pub fn latest_url(page: i32) -> (r: String)
    ensures
        r@ == BASE_URL@ + "/latest-release?page="@ + crate::text::dec_int(page as int),
{
    let mut u = chars_of(BASE_URL);
    push_str(&mut u, "/latest-release?page=");
    let p = crate::text::i32_to_string(page);
    push_str(&mut u, p.as_str());
    string_of(u.as_slice())
}

/// A comic the home page shows: keyed by its link, with its title and
/// cover; none for a link elsewhere or without a title.
pub fn home_entry(href: Option<String>, title: Option<String>, cover: Option<String>) -> (r: Option<Manga>)
    ensures
        (match (href, title) {
            (Some(h), Some(_)) => strip_prefix(h@, item_prefix()) is Some,
            _ => false,
        }) ==> (r matches Some(m) && m.key@ == strip_prefix(href->0@, item_prefix())->0
            && m.title == title->0 && m.cover == cover && m.url is None && m.artists is None
            && m.authors is None && m.description is None && m.tags is None
            && m.status == MangaStatus::Unknown && m.content_rating == ContentRating::Unknown
            && m.viewer == Viewer::Unknown),
        !(match (href, title) {
            (Some(h), Some(_)) => strip_prefix(h@, item_prefix()) is Some,
            _ => false,
        }) ==> r is None,
{
    let h = match href {
        Some(h) => h,
        None => return None,
    };
    let key = match item_key(h.as_str()) {
        Some(k) => k,
        None => return None,
    };
    let t = match title {
        Some(t) => t,
        None => return None,
    };
    let mut m = Manga::new(key, t);
    m.cover = cover;
    Some(m)
}

} // verus!
