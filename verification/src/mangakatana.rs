//! MangaKatana (mangakatana.com): keys and urls, statuses, ratings and
//! readers from genres, search and browse urls, the details page, chapter
//! rows and their numbers, the reader script's image list, and deep links.
use vstd::prelude::*;
use crate::model::{Chapter, ContentRating, DeepLink, DeepLinkResult, FilterValue, Manga, MangaStatus, Viewer, link_view, opt_string, opt_strings};
use crate::text::{
    ascii_lower, ascii_lower_exec, before_set, before_set_exec, char_from, char_from_exec, chars_of,
    contains, contains_lit, is_ascii_alphanumeric, join, join_strings, lit_eq, pattern_from,
    pattern_from_exec, push_slice, push_str, slice_to_vec, starts_with, str_eq, str_starts_with,
    string_of, strip_prefix, strip_prefix_exec, trim, trim_end_char, trim_end_char_exec, trim_exec,
    trim_start, trim_start_exec, trimmed_nonempty, views,
};
use crate::url::{QueryParameters, encode_component, query_text};

verus! {

pub const BASE_URL: &'static str = "https://mangakatana.com";
pub const WWW_BASE_URL: &'static str = "https://www.mangakatana.com";
/// The referer image requests carry.
pub const REFERER: &'static str = "https://mangakatana.com/";

// ---------------------------------------------------------------------------
// Keys and urls
// ---------------------------------------------------------------------------

/// A page's key: its path, without query or fragment, the site's address
/// (with or without `www.`) or a trailing `/`, always starting with `/`.
pub open spec fn path_key_spec(url: Seq<char>) -> Seq<char> {
    let head = before_set(url, seq!['?', '#']);
    let path = match strip_prefix(head, BASE_URL@) {
        Some(p) => p,
        None => match strip_prefix(head, WWW_BASE_URL@) {
            Some(p) => p,
            None => url,
        },
    };
    let t = trim_end_char(path, '/');
    if t.len() > 0 && t[0] == '/' {
        t
    } else {
        seq!['/'] + t
    }
}

proof fn lemma_trim_end_char(s: Seq<char>, c: char)
    ensures
        trim_end_char(s, c).len() == 0 || trim_end_char(s, c).last() != c,
        trim_end_char(s, c).len() <= s.len(),
        forall|i: int| 0 <= i < trim_end_char(s, c).len() ==> trim_end_char(s, c)[i] == s[i],
    decreases s.len(),
{
    if s.len() > 0 && s.last() == c {
        lemma_trim_end_char(s.drop_last(), c);
        assert forall|i: int| 0 <= i < trim_end_char(s, c).len() implies trim_end_char(s, c)[i] == s[i] by {
            assert(s.drop_last()[i] == s[i]);
        }
    }
}

/// A key is its own key: keys pass through `path_key` unchanged, so a key
/// handed back (by a deep link or a stored chapter) names the same page.
pub proof fn lemma_path_key_idempotent(url: Seq<char>)
    ensures
        path_key_spec(path_key_spec(url)) == path_key_spec(url),
{
    let k = path_key_spec(url);
    let head = before_set(k, seq!['?', '#']);
    let head0 = before_set(url, seq!['?', '#']);
    let path0 = match strip_prefix(head0, BASE_URL@) {
        Some(p) => p,
        None => match strip_prefix(head0, WWW_BASE_URL@) {
            Some(p) => p,
            None => url,
        },
    };
    let t0 = trim_end_char(path0, '/');
    lemma_trim_end_char(path0, '/');
    assert(k.len() > 0 && k[0] == '/');
    assert(!seq!['?', '#'].contains('/'));
    assert(head.len() > 0 && head[0] == '/');
    reveal_strlit("https://mangakatana.com");
    reveal_strlit("https://www.mangakatana.com");
    assert(strip_prefix(head, BASE_URL@) is None) by {
        assert(BASE_URL@[0] == 'h');
        if head.len() >= BASE_URL@.len() {
            assert(head.subrange(0, BASE_URL@.len() as int)[0] == '/');
        }
    }
    assert(strip_prefix(head, WWW_BASE_URL@) is None) by {
        assert(WWW_BASE_URL@[0] == 'h');
        if head.len() >= WWW_BASE_URL@.len() {
            assert(head.subrange(0, WWW_BASE_URL@.len() as int)[0] == '/');
        }
    }
    lemma_trim_end_char(k, '/');
    if t0.len() > 0 && t0[0] == '/' {
        assert(k == t0);
        assert(trim_end_char(k, '/') == k);
    } else {
        assert(k =~= seq!['/'] + t0);
        if t0.len() == 0 {
            assert(k =~= seq!['/']);
            assert(trim_end_char(k.drop_last(), '/') =~= Seq::<char>::empty());
            assert(trim_end_char(k, '/') =~= Seq::<char>::empty());
            assert(seq!['/'] + Seq::<char>::empty() =~= k);
        } else {
            assert(k.last() == t0.last());
            assert(trim_end_char(k, '/') == k);
        }
    }
}

pub fn path_key(url: &str) -> (r: String)
    ensures
        r@ == path_key_spec(url@),
{
    let u = chars_of(url);
    let stops: [char; 2] = ['?', '#'];
    assert(stops@ =~= seq!['?', '#']);
    let head = before_set_exec(u.as_slice(), &stops);
    let path = match strip_prefix_exec(head.as_slice(), BASE_URL) {
        Some(p) => p,
        None => match strip_prefix_exec(head.as_slice(), WWW_BASE_URL) {
            Some(p) => p,
            None => slice_to_vec(u.as_slice(), 0, u.len()),
        },
    };
    assert(u@.subrange(0, u@.len() as int) =~= u@);
    let t = trim_end_char_exec(path.as_slice(), '/');
    if t.len() > 0 && t[0] == '/' {
        string_of(t.as_slice())
    } else {
        let mut k: Vec<char> = Vec::new();
        k.push('/');
        push_slice(&mut k, t.as_slice());
        assert(k@ =~= seq!['/'] + t@);
        string_of(k.as_slice())
    }
}

/// A link made absolute: full urls kept, scheme-relative ones given
/// `https:`, paths put on the site's address.
pub open spec fn absolute_url_spec(s: Seq<char>) -> Seq<char> {
    if starts_with(s, "http://"@) || starts_with(s, "https://"@) {
        s
    } else if starts_with(s, "//"@) {
        "https:"@ + s
    } else if starts_with(s, "/"@) {
        BASE_URL@ + s
    } else {
        BASE_URL@ + "/"@ + s
    }
}

pub fn absolute_url(s: &str) -> (r: String)
    ensures
        r@ == absolute_url_spec(s@),
{
    if str_starts_with(s, "http://") || str_starts_with(s, "https://") {
        string_of(chars_of(s).as_slice())
    } else if str_starts_with(s, "//") {
        let mut v = chars_of("https:");
        push_str(&mut v, s);
        string_of(v.as_slice())
    } else if str_starts_with(s, "/") {
        let mut v = chars_of(BASE_URL);
        push_str(&mut v, s);
        string_of(v.as_slice())
    } else {
        let mut v = chars_of(BASE_URL);
        push_str(&mut v, "/");
        push_str(&mut v, s);
        string_of(v.as_slice())
    }
}

/// An attribute's value when it holds more than white space.
pub open spec fn nonblank(v: Option<Seq<char>>) -> Option<Seq<char>> {
    match v {
        Some(s) => if trim(s).len() > 0 {
            Some(s)
        } else {
            None
        },
        None => None,
    }
}

/// The first of two attribute values (the absolute one, then the raw one)
/// that holds more than white space.
pub open spec fn attr_spec(primary: Option<Seq<char>>, fallback: Option<Seq<char>>) -> Option<Seq<char>> {
    match nonblank(primary) {
        Some(s) => Some(s),
        None => nonblank(fallback),
    }
}

fn nonblank_exec(v: Option<String>) -> (r: Option<String>)
    ensures
        opt_string(r) == nonblank(opt_string(v)),
{
    match v {
        Some(s) => {
            let t = trim_exec(chars_of(s.as_str()).as_slice());
            if t.len() > 0 {
                Some(s)
            } else {
                None
            }
        },
        None => None,
    }
}

pub fn attr_value(primary: Option<String>, fallback: Option<String>) -> (r: Option<String>)
    ensures
        opt_string(r) == attr_spec(opt_string(primary), opt_string(fallback)),
{
    match nonblank_exec(primary) {
        Some(s) => Some(s),
        None => nonblank_exec(fallback),
    }
}

// ---------------------------------------------------------------------------
// Statuses, ratings and readers
// ---------------------------------------------------------------------------

pub open spec fn status_spec(s: Seq<char>) -> MangaStatus {
    let l = ascii_lower(s);
    if contains(l, "ongoing"@) {
        MangaStatus::Ongoing
    } else if contains(l, "completed"@) {
        MangaStatus::Completed
    } else if contains(l, "cancelled"@) || contains(l, "canceled"@) {
        MangaStatus::Cancelled
    } else {
        MangaStatus::Unknown
    }
}

/// A status text mentioning "ongoing" in any ASCII case is ongoing; one
/// mentioning "completed" and not "ongoing" is completed; one mentioning
/// "cancelled" or "canceled" and neither of those is cancelled.
pub proof fn lemma_status_names(s: Seq<char>)
    ensures
        contains(ascii_lower(s), "ongoing"@) ==> status_spec(s) == MangaStatus::Ongoing,
        !contains(ascii_lower(s), "ongoing"@) && contains(ascii_lower(s), "completed"@) ==> status_spec(s)
            == MangaStatus::Completed,
        !contains(ascii_lower(s), "ongoing"@) && !contains(ascii_lower(s), "completed"@) && (contains(
            ascii_lower(s),
            "cancelled"@,
        ) || contains(ascii_lower(s), "canceled"@)) ==> status_spec(s) == MangaStatus::Cancelled,
{
}

/// The status a status text names, in any ASCII case.
pub fn parse_status(s: &str) -> (r: MangaStatus)
    ensures
        r == status_spec(s@),
{
    let l = ascii_lower_exec(chars_of(s).as_slice());
    if contains_lit(l.as_slice(), "ongoing") {
        MangaStatus::Ongoing
    } else if contains_lit(l.as_slice(), "completed") {
        MangaStatus::Completed
    } else if contains_lit(l.as_slice(), "cancelled") || contains_lit(l.as_slice(), "canceled") {
        MangaStatus::Cancelled
    } else {
        MangaStatus::Unknown
    }
}

pub open spec fn is_nsfw_genre(t: Seq<char>) -> bool {
    let l = ascii_lower(t);
    l == "adult"@ || l == "erotica"@ || l == "sexual violence"@
}

pub open spec fn is_suggestive_genre(t: Seq<char>) -> bool {
    let l = ascii_lower(t);
    l == "ecchi"@ || l == "gore"@
}

pub open spec fn is_webtoon_genre(t: Seq<char>) -> bool {
    let l = ascii_lower(t);
    l == "manhwa"@ || l == "manhua"@ || l == "webtoon"@
}

pub open spec fn rating_spec(tags: Seq<Seq<char>>) -> ContentRating {
    if exists|i: int| 0 <= i < tags.len() && is_nsfw_genre(#[trigger] tags[i]) {
        ContentRating::NSFW
    } else if exists|i: int| 0 <= i < tags.len() && is_suggestive_genre(#[trigger] tags[i]) {
        ContentRating::Suggestive
    } else {
        ContentRating::Safe
    }
}

pub open spec fn viewer_spec(tags: Seq<Seq<char>>) -> Viewer {
    if exists|i: int| 0 <= i < tags.len() && is_webtoon_genre(#[trigger] tags[i]) {
        Viewer::Webtoon
    } else {
        Viewer::RightToLeft
    }
}

/// A genre named "adult", "erotica" or "sexual violence" (any ASCII case)
/// makes a title NSFW wherever it stands among the genres; "ecchi" or
/// "gore" makes it at least suggestive. "manhwa", "manhua" or "webtoon"
/// make it read as a webtoon.
pub proof fn lemma_rating_words(before: Seq<Seq<char>>, t: Seq<char>, after: Seq<Seq<char>>, all: Seq<Seq<char>>)
    requires
        all == before + seq![t] + after,
    ensures
        ascii_lower(t) == "adult"@ || ascii_lower(t) == "erotica"@ || ascii_lower(t) == "sexual violence"@ ==> rating_spec(all) == ContentRating::NSFW,
        ascii_lower(t) == "ecchi"@ || ascii_lower(t) == "gore"@ ==> rating_spec(all) != ContentRating::Safe,
        ascii_lower(t) == "manhwa"@ || ascii_lower(t) == "manhua"@ || ascii_lower(t) == "webtoon"@ ==> viewer_spec(all)
            == Viewer::Webtoon,
{
    assert(all[before.len() as int] == t);
}

/// The rating the genres imply: adult ones first, then suggestive ones.
pub fn parse_content_rating(tags: &[String]) -> (r: ContentRating)
    ensures
        r == rating_spec(views(tags@)),
{
    let ghost ts = views(tags@);
    let mut nsfw = false;
    let mut suggestive = false;
    let mut i: usize = 0;
    while i < tags.len()
        invariant
            i <= tags@.len(),
            ts == views(tags@),
            nsfw == exists|j: int| 0 <= j < i && is_nsfw_genre(#[trigger] ts[j]),
            suggestive == exists|j: int| 0 <= j < i && is_suggestive_genre(#[trigger] ts[j]),
        decreases tags@.len() - i,
    {
        assert(ts[i as int] == tags@[i as int]@);
        let l = ascii_lower_exec(chars_of(tags[i].as_str()).as_slice());
        let l = l.as_slice();
        if lit_eq(l, "adult") || lit_eq(l, "erotica") || lit_eq(l, "sexual violence") {
            nsfw = true;
        }
        if lit_eq(l, "ecchi") || lit_eq(l, "gore") {
            suggestive = true;
        }
        i = i + 1;
    }
    if nsfw {
        ContentRating::NSFW
    } else if suggestive {
        ContentRating::Suggestive
    } else {
        ContentRating::Safe
    }
}

/// Korean and Chinese comics scroll; everything else reads right to left.
pub fn parse_viewer(tags: &[String]) -> (r: Viewer)
    ensures
        r == viewer_spec(views(tags@)),
{
    let ghost ts = views(tags@);
    let mut webtoon = false;
    let mut i: usize = 0;
    while i < tags.len()
        invariant
            i <= tags@.len(),
            ts == views(tags@),
            webtoon == exists|j: int| 0 <= j < i && is_webtoon_genre(#[trigger] ts[j]),
        decreases tags@.len() - i,
    {
        assert(ts[i as int] == tags@[i as int]@);
        let l = ascii_lower_exec(chars_of(tags[i].as_str()).as_slice());
        let l = l.as_slice();
        if lit_eq(l, "manhwa") || lit_eq(l, "manhua") || lit_eq(l, "webtoon") {
            webtoon = true;
        }
        i = i + 1;
    }
    if webtoon {
        Viewer::Webtoon
    } else {
        Viewer::RightToLeft
    }
}

// ---------------------------------------------------------------------------
// Search and browse urls
// ---------------------------------------------------------------------------

/// One `name=value` parameter, both encoded.
pub open spec fn param(name: Seq<char>, value: Seq<char>) -> (Seq<char>, Option<Seq<char>>) {
    (encode_component(name), Some(encode_component(value)))
}

pub open spec fn sort_value_spec(index: int) -> Seq<char> {
    if index == 1 {
        "new"@
    } else if index == 2 {
        "az"@
    } else if index == 3 {
        "numc"@
    } else {
        "latest"@
    }
}

/// The sort options, in the order the filter lists them, ask the site for
/// "latest", "new", "az" and "numc"; any other index asks for "latest".
pub proof fn lemma_sort_keys(index: int)
    ensures
        sort_value_spec(0) == "latest"@,
        sort_value_spec(1) == "new"@,
        sort_value_spec(2) == "az"@,
        sort_value_spec(3) == "numc"@,
        (index < 0 || index >= 4) ==> sort_value_spec(index) == "latest"@,
{
    reveal_strlit("az");
    reveal_strlit("latest");
    reveal_strlit("new");
    reveal_strlit("numc");
}

/// The order parameter a sort index stands for.
pub fn sort_value(index: i32) -> (r: &'static str)
    ensures
        r@ == sort_value_spec(index as int),
{
    if index == 1 {
        "new"
    } else if index == 2 {
        "az"
    } else if index == 3 {
        "numc"
    } else {
        "latest"
    }
}

/// A query with something besides white space in it, trimmed.
pub open spec fn query_spec(query: Option<Seq<char>>) -> Option<Seq<char>> {
    match query {
        Some(q) => if trim(q).len() > 0 {
            Some(trim(q))
        } else {
            None
        },
        None => None,
    }
}

/// What a text search searches in: the last non-empty `search_by` select,
/// else book names.
pub open spec fn search_by_spec(fs: Seq<FilterValue>) -> Seq<char>
    decreases fs.len(),
{
    if fs.len() == 0 {
        "book_name"@
    } else {
        match fs.last() {
            FilterValue::Select { id, value } => if id@ == "search_by"@ && value@.len() > 0 {
                value@
            } else {
                search_by_spec(fs.drop_last())
            },
            _ => search_by_spec(fs.drop_last()),
        }
    }
}

/// The genres to include and exclude: those of the last `genre` multi
/// select.
pub open spec fn genres_spec(fs: Seq<FilterValue>) -> (Seq<Seq<char>>, Seq<Seq<char>>)
    decreases fs.len(),
{
    if fs.len() == 0 {
        (Seq::empty(), Seq::empty())
    } else {
        match fs.last() {
            FilterValue::MultiSelect { id, included, excluded } => if id@ == "genre"@ {
                (views(included@), views(excluded@))
            } else {
                genres_spec(fs.drop_last())
            },
            _ => genres_spec(fs.drop_last()),
        }
    }
}

/// A select's value: that of the last non-empty select with the id, else
/// the default.
pub open spec fn select_spec(fs: Seq<FilterValue>, name: Seq<char>, default: Seq<char>) -> Seq<char>
    decreases fs.len(),
{
    if fs.len() == 0 {
        default
    } else {
        match fs.last() {
            FilterValue::Select { id, value } => if id@ == name && value@.len() > 0 {
                value@
            } else {
                select_spec(fs.drop_last(), name, default)
            },
            _ => select_spec(fs.drop_last(), name, default),
        }
    }
}

/// The order: that of the last `order` sort, else the latest first.
pub open spec fn order_spec(fs: Seq<FilterValue>) -> Seq<char>
    decreases fs.len(),
{
    if fs.len() == 0 {
        "latest"@
    } else {
        match fs.last() {
            FilterValue::Sort { id, index, .. } => if id@ == "order"@ {
                sort_value_spec(index as int)
            } else {
                order_spec(fs.drop_last())
            },
            _ => order_spec(fs.drop_last()),
        }
    }
}

/// The chapter count a text gives, trimmed: `-1` stands for `e1`, an empty
/// text for none.
pub open spec fn chapters_value(v: Seq<char>) -> Option<Seq<char>> {
    if v == "-1"@ {
        Some("e1"@)
    } else if v.len() == 0 {
        None
    } else {
        Some(v)
    }
}

/// The chapter count of the last `chapters` text.
pub open spec fn chapters_spec(fs: Seq<FilterValue>) -> Option<Seq<char>>
    decreases fs.len(),
{
    if fs.len() == 0 {
        None
    } else {
        match fs.last() {
            FilterValue::Text { id, value } => if id@ == "chapters"@ {
                chapters_value(trim(value@))
            } else {
                chapters_spec(fs.drop_last())
            },
            _ => chapters_spec(fs.drop_last()),
        }
    }
}

/// The browse parameters: the filter flag, the genres joined by `_` when
/// there are any, the include mode and order, then the status and chapter
/// count when set.
pub open spec fn browse_params(fs: Seq<FilterValue>) -> Seq<(Seq<char>, Option<Seq<char>>)> {
    let (inc, exc) = genres_spec(fs);
    let status = select_spec(fs, "status"@, Seq::empty());
    seq![param("filter"@, "1"@)] + (if inc.len() > 0 {
        seq![param("include"@, join(inc, "_"@))]
    } else {
        Seq::empty()
    }) + (if exc.len() > 0 {
        seq![param("exclude"@, join(exc, "_"@))]
    } else {
        Seq::empty()
    }) + seq![
        param("include_mode"@, select_spec(fs, "include_mode"@, "and"@)),
        param("order"@, order_spec(fs)),
    ] + (if status.len() > 0 {
        seq![param("status"@, status)]
    } else {
        Seq::empty()
    }) + match chapters_spec(fs) {
        Some(c) => seq![param("chapters"@, c)],
        None => Seq::empty(),
    }
}

pub open spec fn search_url_spec(query: Option<Seq<char>>, page: int, fs: Seq<FilterValue>) -> Seq<char> {
    match query_spec(query) {
        Some(q) => BASE_URL@ + "/page/"@ + crate::text::dec_int(page) + "?"@ + query_text(
            seq![param("search"@, q), param("search_by"@, search_by_spec(fs))],
        ),
        None => BASE_URL@ + "/manga/page/"@ + crate::text::dec_int(page) + "?"@ + query_text(
            browse_params(fs),
        ),
    }
}

fn text_search_url(q: &str, page: i32, filters: &[FilterValue]) -> (r: String)
    ensures
        r@ == BASE_URL@ + "/page/"@ + crate::text::dec_int(page as int) + "?"@ + query_text(
            seq![param("search"@, q@), param("search_by"@, search_by_spec(filters@))],
        ),
{
    let mut by = String::from_str("book_name");
    let mut i: usize = 0;
    proof {
        reveal_strlit("book_name");
    }
    assert(filters@.take(0) =~= Seq::<FilterValue>::empty());
    while i < filters.len()
        invariant
            i <= filters@.len(),
            by@ == search_by_spec(filters@.take(i as int)),
        decreases filters@.len() - i,
    {
        assert(filters@.take(i + 1).drop_last() =~= filters@.take(i as int));
        match &filters[i] {
            FilterValue::Select { id, value } => {
                if str_eq(id.as_str(), "search_by") && !value.as_str().is_empty() {
                    by = string_of(chars_of(value.as_str()).as_slice());
                }
            },
            _ => {},
        }
        i = i + 1;
    }
    assert(filters@.take(filters@.len() as int) =~= filters@);
    let mut qs = QueryParameters::new();
    qs.push("search", Some(q));
    qs.push("search_by", Some(by.as_str()));
    assert(qs@ =~= seq![param("search"@, q@), param("search_by"@, search_by_spec(filters@))]);
    let page_text = crate::text::i32_to_string(page);
    let mut u = chars_of(BASE_URL);
    push_str(&mut u, "/page/");
    push_str(&mut u, page_text.as_str());
    push_str(&mut u, "?");
    let t = qs.to_query_string();
    push_str(&mut u, t.as_str());
    string_of(u.as_slice())
}

/// The browse filters a filter list comes to.
struct BrowseFilters {
    included: Vec<String>,
    excluded: Vec<String>,
    include_mode: String,
    order: &'static str,
    status: String,
    chapters: Option<String>,
}

impl BrowseFilters {
    spec fn matches(&self, fs: Seq<FilterValue>) -> bool {
        &&& (views(self.included@), views(self.excluded@)) == genres_spec(fs)
        &&& self.include_mode@ == select_spec(fs, "include_mode"@, "and"@)
        &&& self.order@ == order_spec(fs)
        &&& self.status@ == select_spec(fs, "status"@, Seq::empty())
        &&& opt_string(self.chapters) == chapters_spec(fs)
    }
}

fn browse_filters(filters: &[FilterValue]) -> (r: BrowseFilters)
    ensures
        r.matches(filters@),
{
    let mut b = BrowseFilters {
        included: Vec::new(),
        excluded: Vec::new(),
        include_mode: String::from_str("and"),
        order: "latest",
        status: String::new(),
        chapters: None,
    };
    proof {
        reveal_strlit("and");
        reveal_strlit("latest");
    }
    assert(filters@.take(0) =~= Seq::<FilterValue>::empty());
    assert(views(b.included@) =~= Seq::<Seq<char>>::empty());
    assert(views(b.excluded@) =~= Seq::<Seq<char>>::empty());
    assert(b.status@ =~= Seq::<char>::empty());
    let mut i: usize = 0;
    while i < filters.len()
        invariant
            i <= filters@.len(),
            b.matches(filters@.take(i as int)),
        decreases filters@.len() - i,
    {
        assert(filters@.take(i + 1).drop_last() =~= filters@.take(i as int));
        match &filters[i] {
            FilterValue::MultiSelect { id, included, excluded } => {
                if str_eq(id.as_str(), "genre") {
                    b.included = crate::text::copy_strings(included);
                    b.excluded = crate::text::copy_strings(excluded);
                }
            },
            FilterValue::Select { id, value } => {
                if !value.as_str().is_empty() && str_eq(id.as_str(), "include_mode") {
                    b.include_mode = string_of(chars_of(value.as_str()).as_slice());
                }
                if !value.as_str().is_empty() && str_eq(id.as_str(), "status") {
                    b.status = string_of(chars_of(value.as_str()).as_slice());
                }
            },
            FilterValue::Sort { id, index, .. } => {
                if str_eq(id.as_str(), "order") {
                    b.order = sort_value(*index);
                }
            },
            FilterValue::Text { id, value } => {
                if str_eq(id.as_str(), "chapters") {
                    let v = trim_exec(chars_of(value.as_str()).as_slice());
                    if lit_eq(v.as_slice(), "-1") {
                        b.chapters = Some(String::from_str("e1"));
                        proof {
                            reveal_strlit("e1");
                        }
                    } else if v.len() == 0 {
                        b.chapters = None;
                    } else {
                        b.chapters = Some(string_of(v.as_slice()));
                    }
                }
            },
            _ => {},
        }
        i = i + 1;
    }
    assert(filters@.take(filters@.len() as int) =~= filters@);
    b
}

fn browse_query(b: &BrowseFilters, Ghost(fs): Ghost<Seq<FilterValue>>) -> (r: String)
    requires
        b.matches(fs),
    ensures
        r@ == query_text(browse_params(fs)),
{
    let mut qs = QueryParameters::new();
    qs.push("filter", Some("1"));
    let ghost p0 = qs@;
    if b.included.len() > 0 {
        let j = join_strings(b.included.as_slice(), "_");
        qs.push("include", Some(j.as_str()));
    }
    let ghost p1 = qs@;
    if b.excluded.len() > 0 {
        let j = join_strings(b.excluded.as_slice(), "_");
        qs.push("exclude", Some(j.as_str()));
    }
    let ghost p2 = qs@;
    qs.push("include_mode", Some(b.include_mode.as_str()));
    qs.push("order", Some(b.order));
    let ghost p3 = qs@;
    if !b.status.as_str().is_empty() {
        qs.push("status", Some(b.status.as_str()));
    }
    let ghost p4 = qs@;
    match &b.chapters {
        Some(c) => qs.push("chapters", Some(c.as_str())),
        None => {},
    }
    proof {
        let (gi, ge) = genres_spec(fs);
        assert(p0 =~= seq![param("filter"@, "1"@)]);
        assert(p1 =~= p0 + (if gi.len() > 0 {
            seq![param("include"@, join(gi, "_"@))]
        } else {
            Seq::empty()
        }));
        assert(p2 =~= p1 + (if ge.len() > 0 {
            seq![param("exclude"@, join(ge, "_"@))]
        } else {
            Seq::empty()
        }));
        assert(p3 =~= p2 + seq![
            param("include_mode"@, select_spec(fs, "include_mode"@, "and"@)),
            param("order"@, order_spec(fs)),
        ]);
        assert(qs@ =~= browse_params(fs));
    }
    qs.to_query_string()
}

/// The search url: a text search when the query holds more than white
/// space, else the browse list with the filters' parameters.
pub fn build_search_url(query: Option<&str>, page: i32, filters: &[FilterValue]) -> (r: String)
    ensures
        r@ == search_url_spec(crate::atsumaru::opt_view(query), page as int, filters@),
{
    match query {
        Some(q) => {
            let t = crate::text::trim_str(q);
            if !t.as_str().is_empty() {
                return text_search_url(t.as_str(), page, filters);
            }
        },
        None => {},
    }
    let b = browse_filters(filters);
    let t = browse_query(&b, Ghost(filters@));
    let page_text = crate::text::i32_to_string(page);
    let mut u = chars_of(BASE_URL);
    push_str(&mut u, "/manga/page/");
    push_str(&mut u, page_text.as_str());
    push_str(&mut u, "?");
    push_str(&mut u, t.as_str());
    string_of(u.as_slice())
}

// ---------------------------------------------------------------------------
// Listings and search results
// ---------------------------------------------------------------------------

/// A list entry as the page shows it: its title link's two `href` values
/// (absolute and raw), the link's own text and its whole text, and the
/// cover's two `src` values.
pub struct ListItem {
    pub href_abs: Option<String>,
    pub href: Option<String>,
    pub own_text: Option<String>,
    pub text: Option<String>,
    pub cover_abs: Option<String>,
    pub cover_src: Option<String>,
}

/// The entry's title: the link's own text, else its whole text, trimmed.
pub open spec fn item_title(item: ListItem) -> Seq<char> {
    trim(
        match item.own_text {
            Some(t) => t@,
            None => match item.text {
                Some(t) => t@,
                None => Seq::empty(),
            },
        },
    )
}

/// The manga an entry with a link stands for, keyed by the link's path.
pub open spec fn item_manga(item: ListItem, m: Manga, href: Seq<char>) -> bool {
    &&& m.key@ == path_key_spec(href)
    &&& m.title@ == item_title(item)
    &&& opt_string(m.cover) == attr_spec(opt_string(item.cover_abs), opt_string(item.cover_src))
    &&& opt_string(m.url) == Some(absolute_url_spec(href))
    &&& m.artists is None && m.authors is None && m.description is None && m.tags is None
    &&& m.status == MangaStatus::Unknown
    &&& m.content_rating == ContentRating::Unknown
    &&& m.viewer == Viewer::Unknown
}

pub open spec fn item_href(item: ListItem) -> Option<Seq<char>> {
    attr_spec(opt_string(item.href_abs), opt_string(item.href))
}

/// A list entry's manga; none when its link has no address.
pub fn parse_manga_item(item: ListItem) -> (r: Option<Manga>)
    ensures
        match item_href(item) {
            Some(h) => r matches Some(m) && item_manga(item, m, h),
            None => r is None,
        },
{
    let ghost it = item;
    let ListItem { href_abs, href, own_text, text, cover_abs, cover_src } = item;
    let h = match attr_value(href_abs, href) {
        Some(h) => h,
        None => return None,
    };
    let raw = match own_text {
        Some(t) => t,
        None => match text {
            Some(t) => t,
            None => String::new(),
        },
    };
    let title = trim_exec(chars_of(raw.as_str()).as_slice());
    let mut m = Manga::new(path_key(h.as_str()), string_of(title.as_slice()));
    m.cover = attr_value(cover_abs, cover_src);
    m.url = Some(absolute_url(h.as_str()));
    proof {
        if it.own_text is None && it.text is None {
            assert(raw@ =~= Seq::<char>::empty());
        }
    }
    Some(m)
}

/// The entries whose link has an address.
pub open spec fn linked_items(items: Seq<ListItem>) -> Seq<ListItem> {
    items.filter(|it: ListItem| item_href(it) is Some)
}

/// The manga of a list page, in page order, entries without an address
/// left out.
pub fn parse_manga_list(items: Vec<ListItem>) -> (r: Vec<Manga>)
    ensures
        r@.len() == linked_items(items@).len(),
        forall|i: int| 0 <= i < r@.len() ==> item_manga(
            linked_items(items@)[i],
            #[trigger] r@[i],
            item_href(linked_items(items@)[i])->0,
        ),
{
    let ghost all = items@;
    let ghost pred = |it: ListItem| item_href(it) is Some;
    let mut out: Vec<Manga> = Vec::new();
    let mut rest = items;
    let mut i: usize = 0;
    let n = rest.len();
    while rest.len() > 0
        invariant
            n == all.len(),
            i + rest@.len() == all.len(),
            rest@ == all.subrange(i as int, all.len() as int),
            pred == (|it: ListItem| item_href(it) is Some),
            out@.len() == all.subrange(0, i as int).filter(pred).len(),
            forall|j: int| 0 <= j < out@.len() ==> item_manga(
                all.subrange(0, i as int).filter(pred)[j],
                #[trigger] out@[j],
                item_href(all.subrange(0, i as int).filter(pred)[j])->0,
            ),
        decreases rest@.len(),
    {
        let item = rest.remove(0);
        proof {
            assert(item == all[i as int]);
            let s = all.subrange(0, i + 1);
            assert(s.drop_last() =~= all.subrange(0, i as int));
            assert(s.filter(pred) == s.drop_last().filter(pred) + (if pred(s.last()) {
                seq![s.last()]
            } else {
                Seq::empty()
            })) by {
                reveal_with_fuel(Seq::<_>::filter, 1);
            }
        }
        match parse_manga_item(item) {
            Some(m) => {
                out.push(m);
            },
            None => {},
        }
        assert(rest@ =~= all.subrange(i + 1, all.len() as int));
        i = i + 1;
    }
    assert(all.subrange(0, all.len() as int) =~= all);
    out
}

/// A search that finds no list entries but lands on a title's own page
/// shows that title alone.
pub fn search_result(entries: Vec<Manga>, has_next_page: bool, single: Option<Manga>) -> (r: (Vec<Manga>, bool))
    ensures
        entries@.len() == 0 && single is Some ==> r.0@ == seq![single->0] && !r.1,
        !(entries@.len() == 0 && single is Some) ==> r.0@ == entries@ && r.1 == has_next_page,
{
    if entries.len() == 0 {
        match single {
            Some(m) => {
                let v = vec![m];
                return (v, false);
            },
            None => {},
        }
    }
    (entries, has_next_page)
}

/// The title a search landed on, from its page: the heading (untrimmed),
/// the canonical link's two `href` values, the `og:url` content, and the
/// cover's two `src` values. None without a heading or an address.
pub fn parse_single_result(
    title: Option<String>,
    canonical_abs: Option<String>,
    canonical: Option<String>,
    og_url: Option<String>,
    cover_abs: Option<String>,
    cover_src: Option<String>,
) -> (r: Option<Manga>)
    ensures
        ({
            let href = match attr_spec(opt_string(canonical_abs), opt_string(canonical)) {
                Some(h) => Some(h),
                None => nonblank(opt_string(og_url)),
            };
            match (title, href) {
                (Some(t), Some(h)) => r matches Some(m) && m.title@ == t@ && m.key@ == path_key_spec(h)
                    && opt_string(m.cover) == attr_spec(opt_string(cover_abs), opt_string(cover_src))
                    && opt_string(m.url) == Some(absolute_url_spec(h)) && m.artists is None
                    && m.authors is None && m.description is None && m.tags is None
                    && m.status == MangaStatus::Unknown && m.content_rating == ContentRating::Unknown
                    && m.viewer == Viewer::Unknown,
                _ => r is None,
            }
        }),
{
    let t = match title {
        Some(t) => t,
        None => return None,
    };
    let h = match attr_value(canonical_abs, canonical) {
        Some(h) => h,
        None => match nonblank_exec(og_url) {
            Some(h) => h,
            None => return None,
        },
    };
    let mut m = Manga::new(path_key(h.as_str()), t);
    m.cover = attr_value(cover_abs, cover_src);
    m.url = Some(absolute_url(h.as_str()));
    Some(m)
}

pub open spec fn listing_url_spec(id: Seq<char>, page: int) -> Option<Seq<char>> {
    if id == "latest"@ {
        Some(BASE_URL@ + "/page/"@ + crate::text::dec_int(page))
    } else if id == "popular"@ {
        Some(BASE_URL@ + "/manga/page/"@ + crate::text::dec_int(page))
    } else {
        None
    }
}

/// The page of a listing: latest updates or the popular list; none for
/// another listing.
pub fn listing_url(id: &str, page: i32) -> (r: Option<String>)
    ensures
        opt_string(r) == listing_url_spec(id@, page as int),
{
    let p = crate::text::i32_to_string(page);
    let mut u = chars_of(BASE_URL);
    if str_eq(id, "latest") {
        push_str(&mut u, "/page/");
    } else if str_eq(id, "popular") {
        push_str(&mut u, "/manga/page/");
    } else {
        return None;
    }
    push_str(&mut u, p.as_str());
    Some(string_of(u.as_slice()))
}

// ---------------------------------------------------------------------------
// Details
// ---------------------------------------------------------------------------

/// What a title's page shows, as read off it: the heading, the cover's two
/// `src` values, the author texts, the summary's paragraphs, the
/// alternative names, the genre texts and the status text.
pub struct KatanaDetails {
    pub title: Option<String>,
    pub cover_abs: Option<String>,
    pub cover_src: Option<String>,
    pub authors: Vec<String>,
    pub summary: Vec<String>,
    pub alt_names: Option<String>,
    pub genres: Vec<String>,
    pub status: Option<String>,
}

/// Texts trimmed, empty ones dropped; none when nothing is left.
pub open spec fn collected(texts: Seq<Seq<char>>) -> Option<Seq<Seq<char>>> {
    if trimmed_nonempty(texts).len() > 0 {
        Some(trimmed_nonempty(texts))
    } else {
        None
    }
}

pub fn collect_texts(texts: &[String]) -> (r: Option<Vec<String>>)
    ensures
        opt_strings(r) == collected(views(texts@)),
{
    let v = crate::text::trimmed_texts(texts);
    if v.len() > 0 {
        Some(v)
    } else {
        None
    }
}

/// The description: the summary's paragraphs (trimmed, empty ones dropped)
/// on lines of their own, then the alternative names (trimmed) when there
/// are any; none when both are empty.
pub open spec fn description_spec(summary: Seq<Seq<char>>, alt_names: Option<Seq<char>>) -> Option<Seq<char>> {
    let s = join(trimmed_nonempty(summary), "\n"@);
    let a = match alt_names {
        Some(x) => trim(x),
        None => Seq::empty(),
    };
    if s.len() == 0 && a.len() == 0 {
        None
    } else if a.len() == 0 {
        Some(s)
    } else if s.len() == 0 {
        Some("Alt name(s): "@ + a)
    } else {
        Some(s + "\n\nAlt name(s): "@ + a)
    }
}

pub fn description(summary: &[String], alt_names: &Option<String>) -> (r: Option<String>)
    ensures
        opt_string(r) == description_spec(
            views(summary@),
            match alt_names {
                Some(a) => Some(a@),
                None => None,
            },
        ),
{
    let paras = crate::text::trimmed_texts(summary);
    let s = join_strings(paras.as_slice(), "\n");
    let a = match alt_names {
        Some(x) => trim_exec(chars_of(x.as_str()).as_slice()),
        None => Vec::new(),
    };
    if s.as_str().is_empty() && a.len() == 0 {
        None
    } else if a.len() == 0 {
        Some(s)
    } else if s.as_str().is_empty() {
        let mut v = chars_of("Alt name(s): ");
        push_slice(&mut v, a.as_slice());
        Some(string_of(v.as_slice()))
    } else {
        let mut v = chars_of(s.as_str());
        push_str(&mut v, "\n\nAlt name(s): ");
        push_slice(&mut v, a.as_slice());
        Some(string_of(v.as_slice()))
    }
}

/// Fills in a manga from its page: the heading as title (the old one kept
/// without it), the cover, authors and description, the status (unknown
/// without one), the rating and reader the genres imply, the genres as tags
/// when there are any, and the page's address.
pub fn apply_details(manga: &mut Manga, d: &KatanaDetails)
    ensures
        final(manga).title@ == (match d.title {
            Some(t) => t@,
            None => old(manga).title@,
        }),
        opt_string(final(manga).cover) == attr_spec(opt_string(d.cover_abs), opt_string(d.cover_src)),
        opt_strings(final(manga).authors) == collected(views(d.authors@)),
        opt_string(final(manga).description) == description_spec(
            views(d.summary@),
            opt_string(d.alt_names),
        ),
        final(manga).status == (match d.status {
            Some(s) => status_spec(s@),
            None => MangaStatus::Unknown,
        }),
        final(manga).content_rating == rating_spec(trimmed_nonempty(views(d.genres@))),
        final(manga).viewer == viewer_spec(trimmed_nonempty(views(d.genres@))),
        opt_strings(final(manga).tags) == (if trimmed_nonempty(views(d.genres@)).len() > 0 {
            Some(trimmed_nonempty(views(d.genres@)))
        } else {
            opt_strings(old(manga).tags)
        }),
        opt_string(final(manga).url) == Some(absolute_url_spec(old(manga).key@)),
        final(manga).key == old(manga).key,
        final(manga).artists == old(manga).artists,
{
    let url = absolute_url(manga.key.as_str());
    match &d.title {
        Some(t) => {
            manga.title = string_of(chars_of(t.as_str()).as_slice());
        },
        None => {},
    }
    let cover_abs = match &d.cover_abs {
        Some(c) => Some(string_of(chars_of(c.as_str()).as_slice())),
        None => None,
    };
    let cover_src = match &d.cover_src {
        Some(c) => Some(string_of(chars_of(c.as_str()).as_slice())),
        None => None,
    };
    manga.cover = attr_value(cover_abs, cover_src);
    manga.authors = collect_texts(d.authors.as_slice());
    manga.description = description(d.summary.as_slice(), &d.alt_names);
    let tags = crate::text::trimmed_texts(d.genres.as_slice());
    manga.status = match &d.status {
        Some(s) => parse_status(s.as_str()),
        None => MangaStatus::Unknown,
    };
    manga.content_rating = parse_content_rating(tags.as_slice());
    manga.viewer = parse_viewer(tags.as_slice());
    if tags.len() > 0 {
        manga.tags = Some(tags);
    }
    manga.url = Some(url);
}

// ---------------------------------------------------------------------------
// Chapters
// ---------------------------------------------------------------------------

/// The number after a marker (found in the title in lower case).
pub open spec fn number_after(s: Seq<char>, marker: Seq<char>) -> Option<Seq<char>> {
    match pattern_from(ascii_lower(s), marker, 0) {
        Some(i) => crate::violetscans::first_number_spec(s.subrange(i + marker.len(), s.len() as int)),
        None => None,
    }
}

/// A chapter's number: the first one after `chapter`, `ch. `, `ch.` or
/// `ch ` (tried in that order), else the first number in the title. The
/// app reads it as a number.
pub open spec fn chapter_number_spec(s: Seq<char>) -> Option<Seq<char>> {
    match number_after(s, "chapter"@) {
        Some(n) => Some(n),
        None => match number_after(s, "ch. "@) {
            Some(n) => Some(n),
            None => match number_after(s, "ch."@) {
                Some(n) => Some(n),
                None => match number_after(s, "ch "@) {
                    Some(n) => Some(n),
                    None => crate::violetscans::first_number_spec(s),
                },
            },
        },
    }
}

proof fn lemma_number_after_head(head: Seq<char>, n: Seq<char>, rest: Seq<char>)
    requires
        head.len() == 8,
        forall|j: int| 0 <= j < 7 ==> crate::text::ascii_lower_char(#[trigger] head[j]) == "chapter"@[j],
        head[7] == ' ',
        n.len() > 0,
        forall|j: int| 0 <= j < n.len() ==> crate::text::is_ascii_digit(#[trigger] n[j]),
        rest.len() == 0 || (!crate::text::is_ascii_digit(rest[0]) && rest[0] != '.'),
    ensures
        chapter_number_spec(head + n + rest) == Some(n),
{
    reveal_strlit("chapter");
    let m = "chapter"@;
    let sp = seq![' '];
    assert forall|j: int| 0 <= j < sp.len() implies !crate::text::is_ascii_digit(#[trigger] sp[j]) by {}
    crate::violetscans::lemma_first_number(sp, n, rest);
    let s1 = head + n + rest;
    let l1 = ascii_lower(s1);
    assert forall|j: int| 0 <= j < 7 implies #[trigger] l1.subrange(0, 7)[j] == m[j] by {
        assert(l1[j] == crate::text::ascii_lower_char(s1[j]));
        assert(s1[j] == head[j]);
    }
    assert(l1.subrange(0, 7) =~= m);
    assert(crate::text::occurs_at(l1, m, 0));
    assert(pattern_from(l1, m, 0) == Some(0int));
    assert(s1.subrange(7, s1.len() as int) =~= sp + n + rest);
}

/// A title that opens with `Chapter ` (in any case) is numbered by the
/// number that follows it.
#[verifier::spinoff_prover]
pub proof fn lemma_chapter_titles(n: Seq<char>, rest: Seq<char>)
    requires
        n.len() > 0,
        forall|j: int| 0 <= j < n.len() ==> crate::text::is_ascii_digit(#[trigger] n[j]),
        rest.len() == 0 || (!crate::text::is_ascii_digit(rest[0]) && rest[0] != '.'),
    ensures
        chapter_number_spec("Chapter "@ + n + rest) == Some(n),
        chapter_number_spec("chapter "@ + n + rest) == Some(n),
        chapter_number_spec("CHAPTER "@ + n + rest) == Some(n),
{
    reveal_strlit("Chapter ");
    reveal_strlit("chapter ");
    reveal_strlit("CHAPTER ");
    reveal_strlit("chapter");
    let low = seq!['c', 'h', 'a', 'p', 't', 'e', 'r'];
    assert("chapter"@ =~= low);
    let h1 = seq!['C', 'h', 'a', 'p', 't', 'e', 'r', ' '];
    let h2 = seq!['c', 'h', 'a', 'p', 't', 'e', 'r', ' '];
    let h3 = seq!['C', 'H', 'A', 'P', 'T', 'E', 'R', ' '];
    assert("Chapter "@ =~= h1);
    assert("chapter "@ =~= h2);
    assert("CHAPTER "@ =~= h3);
    assert forall|j: int| 0 <= j < 7 implies crate::text::ascii_lower_char(#[trigger] h1[j]) == low[j]
        && crate::text::ascii_lower_char(h2[j]) == low[j] && crate::text::ascii_lower_char(h3[j])
        == low[j] by {
        if j == 0 {
        } else if j == 1 {
        } else if j == 2 {
        } else if j == 3 {
        } else if j == 4 {
        } else if j == 5 {
        } else {
        }
    }
    assert forall|j: int| 0 <= j < 7 implies crate::text::ascii_lower_char(#[trigger] h2[j]) == low[j] by {
        assert(crate::text::ascii_lower_char(h1[j]) == low[j]);
    }
    assert forall|j: int| 0 <= j < 7 implies crate::text::ascii_lower_char(#[trigger] h3[j]) == low[j] by {
        assert(crate::text::ascii_lower_char(h1[j]) == low[j]);
    }
    lemma_number_after_head(h1, n, rest);
    lemma_number_after_head(h2, n, rest);
    lemma_number_after_head(h3, n, rest);
}

fn number_after_exec(s: &str, lower: &[char], marker: &str) -> (r: Option<String>)
    requires
        lower@ == ascii_lower(s@),
    ensures
        opt_string(r) == number_after(s@, marker@),
{
    let m = chars_of(marker);
    match pattern_from_exec(lower, m.as_slice(), 0) {
        Some(i) => {
            proof {
                crate::text::lemma_pattern_from(lower@, m@, 0);
            }
            let v = chars_of(s);
            assert(lower@.len() == v@.len());
            let vl = v.len();
            let tail = string_of(slice_to_vec(v.as_slice(), i + m.len(), vl).as_slice());
            crate::violetscans::first_number_text(tail.as_str())
        },
        None => None,
    }
}

pub fn parse_chapter_number(s: &str) -> (r: Option<String>)
    ensures
        opt_string(r) == chapter_number_spec(s@),
{
    let lower = ascii_lower_exec(chars_of(s).as_slice());
    match number_after_exec(s, lower.as_slice(), "chapter") {
        Some(n) => return Some(n),
        None => {},
    }
    match number_after_exec(s, lower.as_slice(), "ch. ") {
        Some(n) => return Some(n),
        None => {},
    }
    match number_after_exec(s, lower.as_slice(), "ch.") {
        Some(n) => return Some(n),
        None => {},
    }
    match number_after_exec(s, lower.as_slice(), "ch ") {
        Some(n) => return Some(n),
        None => {},
    }
    crate::violetscans::first_number_text(s)
}

/// A row of the chapter table: its link's two `href` values and text, and
/// the upload date the app read from the row's date text.
pub struct ChapterRow {
    pub href_abs: Option<String>,
    pub href: Option<String>,
    pub title: Option<String>,
    pub date_uploaded: Option<i64>,
}

pub open spec fn row_href(row: ChapterRow) -> Option<Seq<char>> {
    attr_spec(opt_string(row.href_abs), opt_string(row.href))
}

pub open spec fn row_title(row: ChapterRow) -> Seq<char> {
    match row.title {
        Some(t) => t@,
        None => Seq::empty(),
    }
}

/// The chapter a row with a link stands for.
pub open spec fn row_chapter(row: ChapterRow, c: Chapter, href: Seq<char>) -> bool {
    &&& c.key@ == path_key_spec(href)
    &&& opt_string(c.title) == Some(row_title(row))
    &&& opt_string(c.number) == chapter_number_spec(row_title(row))
    &&& c.volume is None
    &&& c.date_uploaded == row.date_uploaded
    &&& c.scanlators is None
    &&& opt_string(c.url) == Some(absolute_url_spec(href))
    &&& c.language is None
}

/// A row's chapter; none when its link has no address.
pub fn parse_chapter_row(row: ChapterRow) -> (r: Option<Chapter>)
    ensures
        match row_href(row) {
            Some(h) => r matches Some(c) && row_chapter(row, c, h),
            None => r is None,
        },
{
    let ghost rw = row;
    let ChapterRow { href_abs, href, title, date_uploaded } = row;
    let h = match attr_value(href_abs, href) {
        Some(h) => h,
        None => return None,
    };
    let t = match title {
        Some(t) => t,
        None => String::new(),
    };
    proof {
        if rw.title is None {
            assert(t@ =~= Seq::<char>::empty());
        }
    }
    let mut c = Chapter::new(path_key(h.as_str()));
    c.number = parse_chapter_number(t.as_str());
    c.title = Some(t);
    c.date_uploaded = date_uploaded;
    c.url = Some(absolute_url(h.as_str()));
    Some(c)
}

pub open spec fn linked_rows(rows: Seq<ChapterRow>) -> Seq<ChapterRow> {
    rows.filter(|r: ChapterRow| row_href(r) is Some)
}

/// The chapters of the table, in table order, rows without an address left
/// out.
pub fn parse_chapter_rows(rows: Vec<ChapterRow>) -> (r: Vec<Chapter>)
    ensures
        r@.len() == linked_rows(rows@).len(),
        forall|i: int| 0 <= i < r@.len() ==> row_chapter(
            linked_rows(rows@)[i],
            #[trigger] r@[i],
            row_href(linked_rows(rows@)[i])->0,
        ),
{
    let ghost all = rows@;
    let ghost pred = |r: ChapterRow| row_href(r) is Some;
    let mut out: Vec<Chapter> = Vec::new();
    let mut rest = rows;
    let mut i: usize = 0;
    let n = rest.len();
    while rest.len() > 0
        invariant
            n == all.len(),
            i + rest@.len() == all.len(),
            rest@ == all.subrange(i as int, all.len() as int),
            pred == (|r: ChapterRow| row_href(r) is Some),
            out@.len() == all.subrange(0, i as int).filter(pred).len(),
            forall|j: int| 0 <= j < out@.len() ==> row_chapter(
                all.subrange(0, i as int).filter(pred)[j],
                #[trigger] out@[j],
                row_href(all.subrange(0, i as int).filter(pred)[j])->0,
            ),
        decreases rest@.len(),
    {
        let row = rest.remove(0);
        proof {
            assert(row == all[i as int]);
            let s = all.subrange(0, i + 1);
            assert(s.drop_last() =~= all.subrange(0, i as int));
            assert(s.filter(pred) == s.drop_last().filter(pred) + (if pred(s.last()) {
                seq![s.last()]
            } else {
                Seq::empty()
            })) by {
                reveal_with_fuel(Seq::<_>::filter, 1);
            }
        }
        match parse_chapter_row(row) {
            Some(c) => {
                out.push(c);
            },
            None => {},
        }
        assert(rest@ =~= all.subrange(i + 1, all.len() as int));
        i = i + 1;
    }
    assert(all.subrange(0, all.len() as int) =~= all);
    out
}

// ---------------------------------------------------------------------------
// Reader pages
// ---------------------------------------------------------------------------

/// Length of the leading run of ASCII letters, digits and `_`.
pub open spec fn ident_len(t: Seq<char>) -> nat
    decreases t.len(),
{
    if t.len() > 0 && (is_ascii_alphanumeric(t[0]) || t[0] == '_') {
        1 + ident_len(t.drop_first())
    } else {
        0
    }
}

proof fn lemma_ident_len(t: Seq<char>, k: int)
    requires
        0 <= k <= t.len(),
        forall|j: int| 0 <= j < k ==> is_ascii_alphanumeric(#[trigger] t[j]) || t[j] == '_',
        k == t.len() || !(is_ascii_alphanumeric(t[k]) || t[k] == '_'),
    ensures
        ident_len(t) == k,
    decreases k,
{
    if k > 0 {
        assert forall|j: int| 0 <= j < k - 1 implies is_ascii_alphanumeric(#[trigger] t.drop_first()[j]) || t.drop_first()[j] == '_' by {
            assert(t.drop_first()[j] == t[j + 1]);
        }
        if k - 1 < t.drop_first().len() {
            assert(t.drop_first()[k - 1] == t[k]);
        }
        lemma_ident_len(t.drop_first(), k - 1);
    }
}

/// The name after a marker: what follows it, white space skipped, up to
/// the first character that can't be part of a name; none when empty.
pub open spec fn name_after(script: Seq<char>, marker: Seq<char>) -> Option<Seq<char>> {
    match pattern_from(script, marker, 0) {
        Some(i) => {
            let rest = trim_start(script.subrange(i + marker.len(), script.len() as int));
            let n = rest.subrange(0, ident_len(rest) as int);
            if n.len() > 0 {
                Some(n)
            } else {
                None
            }
        },
        None => None,
    }
}

/// The name of the array the reader loads its images from: the one after
/// `data-src',` or, failing that, after `data-src",`.
pub open spec fn array_name_spec(script: Seq<char>) -> Option<Seq<char>> {
    match name_after(script, "data-src',"@) {
        Some(n) => Some(n),
        None => name_after(script, "data-src\","@),
    }
}

fn name_after_exec(script: &[char], marker: &str) -> (r: Option<String>)
    ensures
        opt_string(r) == name_after(script@, marker@),
{
    let m = chars_of(marker);
    let i = match pattern_from_exec(script, m.as_slice(), 0) {
        Some(i) => i,
        None => return None,
    };
    proof {
        crate::text::lemma_pattern_from(script@, m@, 0);
    }
    let sl = script.len();
    let rest = trim_start_exec(slice_to_vec(script, i + m.len(), sl).as_slice());
    let mut k: usize = 0;
    while k < rest.len() && (('a' <= rest[k] && rest[k] <= 'z') || ('A' <= rest[k] && rest[k] <= 'Z')
        || ('0' <= rest[k] && rest[k] <= '9') || rest[k] == '_')
        invariant
            k <= rest@.len(),
            forall|j: int| 0 <= j < k ==> is_ascii_alphanumeric(#[trigger] rest@[j]) || rest@[j] == '_',
        decreases rest@.len() - k,
    {
        k = k + 1;
    }
    proof {
        lemma_ident_len(rest@, k as int);
    }
    if k > 0 {
        Some(string_of(slice_to_vec(rest.as_slice(), 0, k).as_slice()))
    } else {
        None
    }
}

pub fn extract_image_array_name(script: &str) -> (r: Option<String>)
    ensures
        opt_string(r) == array_name_spec(script@),
{
    let v = chars_of(script);
    match name_after_exec(v.as_slice(), "data-src',") {
        Some(n) => Some(n),
        None => name_after_exec(v.as_slice(), "data-src\","),
    }
}

/// What an array literal holds: after `var <name>`, the first `=`, white
/// space and a `[`, everything up to the first `]`.
pub open spec fn array_literal_spec(script: Seq<char>, name: Seq<char>) -> Option<Seq<char>> {
    let needle = "var "@ + name;
    match pattern_from(script, needle, 0) {
        Some(st) => {
            let after_var = script.subrange(st + needle.len(), script.len() as int);
            match char_from(after_var, '=', 0) {
                Some(e) => {
                    let after_eq = trim_start(after_var.subrange(e + 1, after_var.len() as int));
                    match strip_prefix(after_eq, "["@) {
                        Some(after_open) => match char_from(after_open, ']', 0) {
                            Some(c) => Some(after_open.subrange(0, c)),
                            None => None,
                        },
                        None => None,
                    }
                },
                None => None,
            }
        },
        None => None,
    }
}

pub fn extract_array_literal(script: &str, name: &str) -> (r: Option<String>)
    ensures
        opt_string(r) == array_literal_spec(script@, name@),
{
    let v = chars_of(script);
    let mut needle = chars_of("var ");
    push_str(&mut needle, name);
    let st = match pattern_from_exec(v.as_slice(), needle.as_slice(), 0) {
        Some(st) => st,
        None => return None,
    };
    proof {
        crate::text::lemma_pattern_from(v@, needle@, 0);
    }
    let vl = v.len();
    let after_var = slice_to_vec(v.as_slice(), st + needle.len(), vl);
    let e = match char_from_exec(after_var.as_slice(), '=', 0) {
        Some(e) => e,
        None => return None,
    };
    proof {
        crate::text::lemma_char_from(after_var@, '=', 0);
    }
    let al = after_var.len();
    let after_eq = trim_start_exec(slice_to_vec(after_var.as_slice(), e + 1, al).as_slice());
    let after_open = match strip_prefix_exec(after_eq.as_slice(), "[") {
        Some(a) => a,
        None => return None,
    };
    let c = match char_from_exec(after_open.as_slice(), ']', 0) {
        Some(c) => c,
        None => return None,
    };
    proof {
        crate::text::lemma_char_from(after_open@, ']', 0);
    }
    Some(string_of(slice_to_vec(after_open.as_slice(), 0, c).as_slice()))
}

/// The non-empty texts between pairs of single quotes, in order.
pub open spec fn quoted_spec(rest: Seq<char>) -> Seq<Seq<char>>
    decreases rest.len(),
{
    match char_from(rest, '\'', 0) {
        Some(s) => {
            proof {
                crate::text::lemma_char_from(rest, '\'', 0);
            }
            let r = rest.subrange(s + 1, rest.len() as int);
            match char_from(r, '\'', 0) {
                Some(e) => {
                    proof {
                        crate::text::lemma_char_from(r, '\'', 0);
                    }
                    let v = r.subrange(0, e);
                    let tail = quoted_spec(r.subrange(e + 1, r.len() as int));
                    if v.len() > 0 {
                        seq![v] + tail
                    } else {
                        tail
                    }
                },
                None => Seq::empty(),
            }
        },
        None => Seq::empty(),
    }
}

pub fn extract_single_quoted_strings(input: &str) -> (r: Vec<String>)
    ensures
        views(r@) == quoted_spec(input@),
{
    let mut rest = chars_of(input);
    let mut out: Vec<String> = Vec::new();
    assert(views(out@) + quoted_spec(rest@) =~= quoted_spec(input@));
    loop
        invariant
            views(out@) + quoted_spec(rest@) == quoted_spec(input@),
        decreases rest@.len(),
    {
        let s = match char_from_exec(rest.as_slice(), '\'', 0) {
            Some(s) => s,
            None => {
                assert(views(out@) =~= views(out@) + Seq::<Seq<char>>::empty());
                return out;
            },
        };
        proof {
            crate::text::lemma_char_from(rest@, '\'', 0);
        }
        let rl = rest.len();
        let r = slice_to_vec(rest.as_slice(), s + 1, rl);
        let e = match char_from_exec(r.as_slice(), '\'', 0) {
            Some(e) => e,
            None => {
                assert(views(out@) =~= views(out@) + Seq::<Seq<char>>::empty());
                return out;
            },
        };
        proof {
            crate::text::lemma_char_from(r@, '\'', 0);
        }
        let ghost before = views(out@);
        if e > 0 {
            out.push(string_of(slice_to_vec(r.as_slice(), 0, e).as_slice()));
            assert(views(out@) =~= before.push(r@.subrange(0, e as int)));
        }
        let rl2 = r.len();
        let next = slice_to_vec(r.as_slice(), e + 1, rl2);
        proof {
            if e > 0 {
                assert(before + quoted_spec(rest@) =~= views(out@) + quoted_spec(next@));
            }
        }
        rest = next;
    }
}

/// The image addresses a reader script lists: the strings of the array the
/// reader loads from; none when the script has no such array.
pub open spec fn page_urls_spec(script: Seq<char>) -> Seq<Seq<char>> {
    match array_name_spec(script) {
        Some(n) => match array_literal_spec(script, n) {
            Some(a) => quoted_spec(a),
            None => Seq::empty(),
        },
        None => Seq::empty(),
    }
}

pub fn extract_page_urls_from_script(script: &str) -> (r: Vec<String>)
    ensures
        views(r@) == page_urls_spec(script@),
{
    match extract_image_array_name(script) {
        Some(n) => match extract_array_literal(script, n.as_str()) {
            Some(a) => extract_single_quoted_strings(a.as_str()),
            None => {
                let e: Vec<String> = Vec::new();
                assert(views(e@) =~= Seq::<Seq<char>>::empty());
                e
            },
        },
        None => {
            let e: Vec<String> = Vec::new();
            assert(views(e@) =~= Seq::<Seq<char>>::empty());
            e
        },
    }
}

/// The images of the first script that mentions `data-src` and lists some.
pub open spec fn first_pages(scripts: Seq<Seq<char>>) -> Seq<Seq<char>>
    decreases scripts.len(),
{
    if scripts.len() == 0 {
        Seq::empty()
    } else if contains(scripts[0], "data-src"@) && page_urls_spec(scripts[0]).len() > 0 {
        page_urls_spec(scripts[0])
    } else {
        first_pages(scripts.drop_first())
    }
}

/// The reader's page addresses, made absolute, from the page's scripts.
pub fn page_list(scripts: &[String]) -> (r: Vec<String>)
    ensures
        views(r@) == first_pages(views(scripts@)).map_values(|u: Seq<char>| absolute_url_spec(u)),
{
    let ghost sv = views(scripts@);
    let mut i: usize = 0;
    let mut found: Vec<String> = Vec::new();
    let mut done = false;
    assert(sv.subrange(0, sv.len() as int) =~= sv);
    while i < scripts.len() && !done
        invariant
            i <= scripts@.len(),
            sv == views(scripts@),
            !done ==> first_pages(sv.subrange(i as int, sv.len() as int)) == first_pages(sv),
            !done ==> found@.len() == 0,
            done ==> views(found@) == first_pages(sv),
        decreases scripts@.len() - i,
    {
        let ghost tail = sv.subrange(i as int, sv.len() as int);
        assert(tail[0] == scripts@[i as int]@);
        assert(tail.drop_first() =~= sv.subrange(i + 1, sv.len() as int));
        if crate::text::str_contains(scripts[i].as_str(), "data-src") {
            let urls = extract_page_urls_from_script(scripts[i].as_str());
            if urls.len() > 0 {
                found = urls;
                done = true;
            }
        }
        i = i + 1;
    }
    proof {
        if !done {
            assert(sv.subrange(i as int, sv.len() as int) =~= Seq::<Seq<char>>::empty());
            assert(views(found@) =~= Seq::<Seq<char>>::empty());
        }
    }
    let ghost fp = views(found@);
    assert(fp == first_pages(sv));
    let mut out: Vec<String> = Vec::new();
    let mut k: usize = 0;
    while k < found.len()
        invariant
            k <= found@.len(),
            fp == views(found@),
            views(out@) == fp.subrange(0, k as int).map_values(|u: Seq<char>| absolute_url_spec(u)),
        decreases found@.len() - k,
    {
        out.push(absolute_url(found[k].as_str()));
        assert(fp.subrange(0, k + 1).map_values(|u: Seq<char>| absolute_url_spec(u)) =~= fp.subrange(0, k as int).map_values(|u: Seq<char>| absolute_url_spec(u)).push(absolute_url_spec(fp[k as int])));
        assert(views(out@) =~= fp.subrange(0, k + 1).map_values(|u: Seq<char>| absolute_url_spec(u)));
        k = k + 1;
    }
    assert(fp.subrange(0, found@.len() as int) =~= fp);
    out
}

pub open spec fn chapter_url_spec(key: Seq<char>, server: Seq<char>) -> Seq<char> {
    if trim(server).len() > 0 {
        absolute_url_spec(key) + "?"@ + query_text(seq![param("sv"@, trim(server))])
    } else {
        absolute_url_spec(key)
    }
}

/// A chapter's reader address, on the server the user prefers when one is
/// set.
pub fn chapter_url(key: &str, server: &str) -> (r: String)
    ensures
        r@ == chapter_url_spec(key@, server@),
{
    let url = absolute_url(key);
    let sv = crate::text::trim_str(server);
    if sv.as_str().is_empty() {
        return url;
    }
    let mut qs = QueryParameters::new();
    qs.push("sv", Some(sv.as_str()));
    assert(qs@ =~= seq![param("sv"@, trim(server@))]);
    let t = qs.to_query_string();
    let mut u = chars_of(url.as_str());
    push_str(&mut u, "?");
    push_str(&mut u, t.as_str());
    string_of(u.as_slice())
}

// ---------------------------------------------------------------------------
// Deep links
// ---------------------------------------------------------------------------

/// Title pages lead to their title; deeper pages under it to a chapter of
/// it.
pub open spec fn deep_link_spec(url: Seq<char>) -> Option<DeepLink> {
    let key = path_key_spec(url);
    if !starts_with(key, "/manga/"@) {
        None
    } else {
        let parts = crate::text::split(crate::text::trim_start_set(key, seq!['/']), '/');
        if parts.len() > 2 {
            Some(DeepLink::Chapter("/"@ + parts[0] + "/"@ + parts[1], key))
        } else {
            Some(DeepLink::Manga(key))
        }
    }
}

/// A title page `/manga/<title>` on the site leads to the title, keyed by
/// its path; a page `/manga/<title>/<chapter>` under it leads to that
/// chapter of the title, keyed by the chapter page's path.
pub proof fn lemma_title_links(title: Seq<char>, chapter: Seq<char>)
    requires
        title.len() > 0,
        chapter.len() > 0,
        forall|j: int| 0 <= j < title.len() ==> title[j] != '/' && title[j] != '?' && title[j] != '#',
        forall|j: int|
            0 <= j < chapter.len() ==> chapter[j] != '/' && chapter[j] != '?' && chapter[j] != '#',
    ensures
        deep_link_spec(BASE_URL@ + "/manga/"@ + title) == Some(DeepLink::Manga("/manga/"@ + title)),
        deep_link_spec(BASE_URL@ + "/manga/"@ + title + seq!['/'] + chapter) == Some(
            DeepLink::Chapter("/manga/"@ + title, "/manga/"@ + title + seq!['/'] + chapter),
        ),
{
    reveal_strlit("/manga/");
    reveal_strlit("manga");
    reveal_strlit("/");
    reveal_strlit("https://mangakatana.com");
    let stops = seq!['?', '#'];
    let b = BASE_URL@;
    assert forall|j: int| 0 <= j < b.len() implies !stops.contains(#[trigger] b[j]) by {
        assert(b[j] != '?' && b[j] != '#');
        if stops.contains(b[j]) {
            let k = choose|k: int| 0 <= k < stops.len() && stops[k] == b[j];
            assert(k == 0 || k == 1);
        }
    }
    // the title page
    let p1 = "/manga/"@ + title;
    let u1 = b + p1;
    assert(u1 =~= BASE_URL@ + "/manga/"@ + title);
    assert forall|j: int| 0 <= j < u1.len() implies !stops.contains(#[trigger] u1[j]) by {
        if j < b.len() {
            assert(u1[j] == b[j]);
        } else if j < b.len() + 7 {
            assert(u1[j] == "/manga/"@[j - b.len()]);
            if stops.contains(u1[j]) {
                let k = choose|k: int| 0 <= k < stops.len() && stops[k] == u1[j];
                assert(k == 0 || k == 1);
            }
        } else {
            assert(u1[j] == title[j - b.len() - 7]);
            if stops.contains(u1[j]) {
                let k = choose|k: int| 0 <= k < stops.len() && stops[k] == u1[j];
                assert(k == 0 || k == 1);
            }
        }
    }
    crate::text::lemma_before_set_free(u1, stops);
    assert(u1.subrange(0, b.len() as int) =~= b);
    assert(u1.subrange(b.len() as int, u1.len() as int) =~= p1);
    assert(p1.last() == title.last());
    assert(crate::text::trim_end_char(p1, '/') == p1);
    assert(path_key_spec(u1) == p1);
    assert(p1.subrange(0, 7) =~= "/manga/"@);
    assert(p1.drop_first() =~= "manga"@ + seq!['/'] + title);
    assert(p1[0] == '/' && seq!['/'][0] == '/');
    assert(seq!['/'].contains(p1[0]));
    assert(p1.drop_first()[0] == 'm');
    assert(!seq!['/'].contains(p1.drop_first()[0])) by {
        if seq!['/'].contains(p1.drop_first()[0]) {
            let k = choose|k: int| 0 <= k < 1 && seq!['/'][k] == p1.drop_first()[0];
            assert(k == 0);
        }
    }
    assert(crate::text::trim_start_set(p1.drop_first(), seq!['/']) == p1.drop_first());
    assert(crate::text::trim_start_set(p1, seq!['/']) == p1.drop_first());
    crate::text::lemma_split_word("manga"@, title, '/');
    crate::text::lemma_split_word(title, Seq::empty(), '/');
    assert(crate::text::split(p1.drop_first(), '/').len() == 2);
    // a chapter page
    let p2 = p1 + seq!['/'] + chapter;
    let u2 = b + p2;
    assert(u2 =~= BASE_URL@ + "/manga/"@ + title + seq!['/'] + chapter);
    assert forall|j: int| 0 <= j < u2.len() implies !stops.contains(#[trigger] u2[j]) by {
        if j < u1.len() {
            assert(u2[j] == u1[j]);
        } else if j == u1.len() {
            assert(u2[j] == '/');
            if stops.contains(u2[j]) {
                let k = choose|k: int| 0 <= k < stops.len() && stops[k] == u2[j];
                assert(k == 0 || k == 1);
            }
        } else {
            assert(u2[j] == chapter[j - u1.len() - 1]);
            if stops.contains(u2[j]) {
                let k = choose|k: int| 0 <= k < stops.len() && stops[k] == u2[j];
                assert(k == 0 || k == 1);
            }
        }
    }
    crate::text::lemma_before_set_free(u2, stops);
    assert(u2.subrange(0, b.len() as int) =~= b);
    assert(u2.subrange(b.len() as int, u2.len() as int) =~= p2);
    assert(p2.last() == chapter.last());
    assert(crate::text::trim_end_char(p2, '/') == p2);
    assert(path_key_spec(u2) == p2);
    assert(p2.subrange(0, 7) =~= "/manga/"@);
    assert(p2.drop_first() =~= "manga"@ + seq!['/'] + (title + seq!['/'] + chapter));
    assert(p2[0] == '/' && seq!['/'][0] == '/');
    assert(seq!['/'].contains(p2[0]));
    assert(p2.drop_first()[0] == 'm');
    assert(!seq!['/'].contains(p2.drop_first()[0])) by {
        if seq!['/'].contains(p2.drop_first()[0]) {
            let k = choose|k: int| 0 <= k < 1 && seq!['/'][k] == p2.drop_first()[0];
            assert(k == 0);
        }
    }
    assert(crate::text::trim_start_set(p2.drop_first(), seq!['/']) == p2.drop_first());
    assert(crate::text::trim_start_set(p2, seq!['/']) == p2.drop_first());
    crate::text::lemma_split_word("manga"@, title + seq!['/'] + chapter, '/');
    crate::text::lemma_split_word(title, chapter, '/');
    crate::text::lemma_split_word(chapter, Seq::empty(), '/');
    let parts = crate::text::split(p2.drop_first(), '/');
    assert(parts =~= seq!["manga"@, title, chapter]);
    assert("/"@ + parts[0] + "/"@ + parts[1] =~= "/manga/"@ + title);
}

pub fn handle_deep_link(url: &str) -> (r: Option<DeepLinkResult>)
    ensures
        link_view(r) == deep_link_spec(url@),
{
    let key = path_key(url);
    if !str_starts_with(key.as_str(), "/manga/") {
        return None;
    }
    let slash: [char; 1] = ['/'];
    assert(slash@ =~= seq!['/']);
    let k = chars_of(key.as_str());
    let trimmed = crate::text::trim_start_set_exec(k.as_slice(), &slash);
    let parts = crate::text::split_exec(trimmed.as_slice(), '/');
    proof {
        assert(parts@.len() == parts@.map_values(|v: Vec<char>| v@).len());
    }
    if parts.len() > 2 {
        let mut mk = chars_of("/");
        push_slice(&mut mk, parts[0].as_slice());
        push_str(&mut mk, "/");
        push_slice(&mut mk, parts[1].as_slice());
        proof {
            assert(parts@.map_values(|v: Vec<char>| v@)[0] == parts@[0]@);
            assert(parts@.map_values(|v: Vec<char>| v@)[1] == parts@[1]@);
        }
        Some(DeepLinkResult::Chapter { manga_key: string_of(mk.as_slice()), key })
    } else {
        Some(DeepLinkResult::Manga { key })
    }
}

} // verus!
