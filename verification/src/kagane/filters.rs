//! The body and sort of Kagane's search requests, and the content ratings
//! searched by default.
use vstd::prelude::*;
use crate::json::{json_array, json_array_exec, json_object, json_object_exec, json_string, members_view};
use crate::model::FilterValue;
use crate::text::{chars_of, copy_strings, push_str, str_eq, string_of, views};

verus! {

/// The fields the site sorts by, by the sort filter's index.
pub open spec fn sort_fields() -> Seq<Seq<char>> {
    seq![
        ""@,
        "total_views"@,
        "avg_views"@,
        "avg_views_today"@,
        "avg_views_week"@,
        "avg_views_month"@,
        "updated_at"@,
        "series_name"@,
        "books_count"@,
        "created_at"@,
    ]
}

/// The field a sort index picks: indices past the end, and negative ones
/// (which wrap around to huge ones), pick the last.
pub open spec fn sort_field(index: int) -> Seq<char> {
    if 0 <= index < 10 {
        sort_fields()[index]
    } else {
        sort_fields()[9]
    }
}

/// The sort options, in the order the filter lists them: relevance (no
/// field), "total_views", "avg_views", "avg_views_today", "avg_views_week",
/// "avg_views_month", "updated_at", "series_name", "books_count",
/// "created_at"; any other index sorts by "created_at".
pub proof fn lemma_sort_keys(index: int)
    ensures
        sort_field(0) == Seq::<char>::empty(),
        sort_field(1) == "total_views"@,
        sort_field(2) == "avg_views"@,
        sort_field(3) == "avg_views_today"@,
        sort_field(4) == "avg_views_week"@,
        sort_field(5) == "avg_views_month"@,
        sort_field(6) == "updated_at"@,
        sort_field(7) == "series_name"@,
        sort_field(8) == "books_count"@,
        sort_field(9) == "created_at"@,
        (index < 0 || index >= 10) ==> sort_field(index) == "created_at"@,
{
    reveal_strlit("");
    reveal_strlit("avg_views");
    reveal_strlit("avg_views_month");
    reveal_strlit("avg_views_today");
    reveal_strlit("avg_views_week");
    reveal_strlit("books_count");
    reveal_strlit("created_at");
    reveal_strlit("series_name");
    reveal_strlit("total_views");
    reveal_strlit("updated_at");
}

fn sort_field_exec(index: i32) -> (r: &'static str)
    ensures
        r@ == sort_field(index as int),
{
    let fields: [&'static str; 10] = [
        "",
        "total_views",
        "avg_views",
        "avg_views_today",
        "avg_views_week",
        "avg_views_month",
        "updated_at",
        "series_name",
        "books_count",
        "created_at",
    ];
    assert(fields@.map_values(|s: &str| s@) =~= sort_fields());
    let i: usize = if index < 0 || index > 9 {
        9
    } else {
        index as usize
    };
    assert(fields@[i as int]@ == sort_fields()[i as int]);
    fields[i]
}

/// What a search is narrowed by: the sort parameter, and the content
/// ratings, formats and upload statuses it asks for.
pub struct SearchState {
    pub sort: Seq<char>,
    pub ratings: Seq<Seq<char>>,
    pub formats: Seq<Seq<char>>,
    pub statuses: Seq<Seq<char>>,
}

pub open spec fn apply_filter(s: SearchState, f: FilterValue) -> SearchState {
    match f {
        FilterValue::Sort { index, ascending, .. } => {
            let field = sort_field(index as int);
            if field.len() > 0 {
                SearchState {
                    sort: if ascending {
                        field
                    } else {
                        field + ",desc"@
                    },
                    ..s
                }
            } else {
                s
            }
        },
        FilterValue::MultiSelect { id, included, .. } => if included@.len() == 0 {
            s
        } else if id@ == "content_rating"@ {
            SearchState { ratings: views(included@), ..s }
        } else if id@ == "format"@ {
            SearchState { formats: views(included@), ..s }
        } else if id@ == "upload_status"@ {
            SearchState { statuses: views(included@), ..s }
        } else {
            s
        },
        _ => s,
    }
}

pub open spec fn apply_filters(s: SearchState, fs: Seq<FilterValue>) -> SearchState
    decreases fs.len(),
{
    if fs.len() == 0 {
        s
    } else {
        apply_filter(apply_filters(s, fs.drop_last()), fs.last())
    }
}

/// The members of the search body, in the order the json object's keys
/// sort in.
pub open spec fn body_members(query: Option<Seq<char>>, s: SearchState) -> Seq<(Seq<char>, Seq<char>)> {
    (if s.ratings.len() > 0 {
        seq![("content_rating"@, json_array(s.ratings))]
    } else {
        Seq::empty()
    }) + (if s.formats.len() > 0 {
        seq![("format"@, json_array(s.formats))]
    } else {
        Seq::empty()
    }) + seq![("source_type"@, json_array(seq!["Official"@, "Unofficial"@, "Mixed"@]))] + (match query {
        Some(q) if q.len() > 0 => seq![("title"@, json_string(q))],
        _ => Seq::empty(),
    }) + (if s.statuses.len() > 0 {
        seq![("upload_status"@, json_array(s.statuses))]
    } else {
        Seq::empty()
    })
}

pub open spec fn search_state(filters: Seq<FilterValue>, default_ratings: Seq<Seq<char>>) -> SearchState {
    apply_filters(
        SearchState { sort: Seq::empty(), ratings: default_ratings, formats: Seq::empty(), statuses: Seq::empty() },
        filters,
    )
}

/// The json body and sort parameter of a search: the default ratings unless
/// the filters pick some, the formats and statuses the filters pick, every
/// source type, and the title searched for when there is one.
pub fn build_search_body(query: Option<&str>, filters: &[FilterValue], default_ratings: &[&str]) -> (r: (String, String))
    ensures
        r.1@ == search_state(filters@, crate::text::strs_view(default_ratings@)).sort,
        r.0@ == json_object(
            body_members(crate::atsumaru::opt_view(query), search_state(filters@, crate::text::strs_view(default_ratings@))),
        ),
{
    let mut sort: Vec<char> = Vec::new();
    let mut ratings: Vec<String> = Vec::new();
    let mut k: usize = 0;
    while k < default_ratings.len()
        invariant
            k <= default_ratings@.len(),
            ratings@.len() == k,
            forall|j: int| 0 <= j < k ==> (#[trigger] ratings@[j])@ == default_ratings@[j]@,
        decreases default_ratings@.len() - k,
    {
        ratings.push(string_of(chars_of(default_ratings[k]).as_slice()));
        k = k + 1;
    }
    assert(views(ratings@) =~= crate::text::strs_view(default_ratings@));
    let mut formats: Vec<String> = Vec::new();
    let mut statuses: Vec<String> = Vec::new();
    let ghost start = SearchState {
        sort: Seq::empty(),
        ratings: crate::text::strs_view(default_ratings@),
        formats: Seq::empty(),
        statuses: Seq::empty(),
    };
    let mut i: usize = 0;
    assert(filters@.take(0) =~= Seq::<FilterValue>::empty());
    assert(views(formats@) =~= Seq::<Seq<char>>::empty());
    assert(views(statuses@) =~= Seq::<Seq<char>>::empty());
    while i < filters.len()
        invariant
            i <= filters@.len(),
            (SearchState { sort: sort@, ratings: views(ratings@), formats: views(formats@), statuses: views(statuses@) })
                == apply_filters(start, filters@.take(i as int)),
        decreases filters@.len() - i,
    {
        assert(filters@.take(i + 1).drop_last() =~= filters@.take(i as int));
        match &filters[i] {
            FilterValue::Sort { index, ascending, .. } => {
                let field = sort_field_exec(*index);
                if !field.is_empty() {
                    let mut s = chars_of(field);
                    if !*ascending {
                        push_str(&mut s, ",desc");
                    }
                    sort = s;
                }
            },
            FilterValue::MultiSelect { id, included, .. } => {
                if included.len() > 0 {
                    if str_eq(id.as_str(), "content_rating") {
                        ratings = copy_strings(included);
                    } else if str_eq(id.as_str(), "format") {
                        formats = copy_strings(included);
                    } else if str_eq(id.as_str(), "upload_status") {
                        statuses = copy_strings(included);
                    }
                }
            },
            _ => {},
        }
        i = i + 1;
    }
    assert(filters@.take(filters@.len() as int) =~= filters@);
    let ghost st = search_state(filters@, crate::text::strs_view(default_ratings@));
    let mut members: Vec<(String, String)> = Vec::new();
    if ratings.len() > 0 {
        members.push((string_of(chars_of("content_rating").as_slice()), json_array_exec(ratings.as_slice())));
    }
    if formats.len() > 0 {
        members.push((string_of(chars_of("format").as_slice()), json_array_exec(formats.as_slice())));
    }
    let sources: Vec<String> = vec![
        string_of(chars_of("Official").as_slice()),
        string_of(chars_of("Unofficial").as_slice()),
        string_of(chars_of("Mixed").as_slice()),
    ];
    assert(views(sources@) =~= seq!["Official"@, "Unofficial"@, "Mixed"@]);
    members.push((string_of(chars_of("source_type").as_slice()), json_array_exec(sources.as_slice())));
    match query {
        Some(q) => {
            if !q.is_empty() {
                members.push((string_of(chars_of("title").as_slice()), crate::json::json_quote(q)));
            }
        },
        None => {},
    }
    if statuses.len() > 0 {
        members.push((string_of(chars_of("upload_status").as_slice()), json_array_exec(statuses.as_slice())));
    }
    assert(members_view(members@) =~= body_members(crate::atsumaru::opt_view(query), st));
    (json_object_exec(members.as_slice()), string_of(sort.as_slice()))
}

/// The ratings a search shows by default: every rating up to the most
/// explicit one the user allows ("pornographic" when none is set or it
/// isn't known).
pub open spec fn default_ratings_spec(max: Seq<char>) -> Seq<Seq<char>> {
    let all = seq!["Safe"@, "Suggestive"@, "Erotica"@, "Pornographic"@];
    if max == "safe"@ {
        all.take(1)
    } else if max == "suggestive"@ {
        all.take(2)
    } else if max == "erotica"@ {
        all.take(3)
    } else {
        all
    }
}

/// A search shows, by default, the ratings from safe up to the most
/// explicit one allowed, in that order: safe alone, then suggestive,
/// erotica and pornographic content as the maximum allows; every rating
/// when the maximum is pornographic or not known.
pub proof fn lemma_default_ratings(max: Seq<char>)
    ensures
        default_ratings_spec("safe"@) == seq!["Safe"@],
        default_ratings_spec("suggestive"@) == seq!["Safe"@, "Suggestive"@],
        default_ratings_spec("erotica"@) == seq!["Safe"@, "Suggestive"@, "Erotica"@],
        max != "safe"@ && max != "suggestive"@ && max != "erotica"@ ==> default_ratings_spec(max)
            == seq!["Safe"@, "Suggestive"@, "Erotica"@, "Pornographic"@],
        default_ratings_spec(max).len() >= 1 && default_ratings_spec(max)[0] == "Safe"@,
{
    reveal_strlit("safe");
    reveal_strlit("suggestive");
    reveal_strlit("erotica");
    assert("safe"@.len() == 4 && "suggestive"@.len() == 10 && "erotica"@.len() == 7);
    let all = seq!["Safe"@, "Suggestive"@, "Erotica"@, "Pornographic"@];
    assert(all.take(1) =~= seq!["Safe"@]);
    assert(all.take(2) =~= seq!["Safe"@, "Suggestive"@]);
    assert(all.take(3) =~= seq!["Safe"@, "Suggestive"@, "Erotica"@]);
}

pub fn get_default_content_ratings(max: Option<&str>) -> (r: Vec<&'static str>)
    ensures
        crate::text::strs_view(r@) == default_ratings_spec(
            match max {
                Some(m) => m@,
                None => "pornographic"@,
            },
        ),
{
    let m = match max {
        Some(m) => m,
        None => "pornographic",
    };
    let n: usize = if str_eq(m, "safe") {
        1
    } else if str_eq(m, "suggestive") {
        2
    } else if str_eq(m, "erotica") {
        3
    } else {
        4
    };
    let display: [&'static str; 4] = ["Safe", "Suggestive", "Erotica", "Pornographic"];
    let mut out: Vec<&'static str> = Vec::new();
    let mut i: usize = 0;
    while i < n
        invariant
            i <= n <= 4,
            out@.len() == i,
            forall|j: int| 0 <= j < i ==> out@[j] == display@[j],
        decreases n - i,
    {
        out.push(display[i]);
        i = i + 1;
    }
    assert(crate::text::strs_view(out@) =~= seq!["Safe"@, "Suggestive"@, "Erotica"@, "Pornographic"@].take(n as int));
    out
}

} // verus!
