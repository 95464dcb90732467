//! MangaRaw.best: relative upload dates, chapter numbers and titles,
//! statuses, ratings from genres, image servers, pagination, grid entries
//! and chapter links. Addresses are built on the site's address as the
//! caller gives it.
use vstd::prelude::*;
use crate::model::{Chapter, ContentRating, Manga, MangaStatus, Viewer, opt_string, opt_strings};
use crate::text::{
    char_from, char_from_exec, chars_of, contains, is_ascii_digit, lowercase, occurs_at, pattern_before, pattern_from,
    pattern_from_exec, push_slice, push_str, rfind, rfind_pattern, slice_to_vec, str_eq, string_of,
    strip_prefix, strip_prefix_exec, strip_suffix, strip_suffix_exec, to_lowercase, trim,
    trim_end_char, trim_end_char_exec, trim_exec, views,
};

verus! {

/// The sort values the `sort` parameter takes, by the sort filter's index.
pub open spec fn sort_values() -> Seq<Seq<char>> {
    seq![
        "-updated_at"@,
        "-created_at"@,
        "created_at"@,
        "-views"@,
        "-views_day"@,
        "-views_week"@,
        "name"@,
        "-name"@,
    ]
}

/// The sort options, in the order the filter lists them: "-updated_at",
/// "-created_at", "created_at", "-views", "-views_day", "-views_week",
/// "name", "-name".
pub proof fn lemma_sort_keys()
    ensures
        sort_values().len() == 8,
        sort_values()[0] == "-updated_at"@,
        sort_values()[1] == "-created_at"@,
        sort_values()[2] == "created_at"@,
        sort_values()[3] == "-views"@,
        sort_values()[4] == "-views_day"@,
        sort_values()[5] == "-views_week"@,
        sort_values()[6] == "name"@,
        sort_values()[7] == "-name"@,
{
}

pub fn sort_value(index: usize) -> (r: Option<&'static str>)
    ensures
        index < 8 ==> (r matches Some(v) && v@ == sort_values()[index as int]),
        index >= 8 ==> r is None,
{
    let values: [&'static str; 8] = [
        "-updated_at",
        "-created_at",
        "created_at",
        "-views",
        "-views_day",
        "-views_week",
        "name",
        "-name",
    ];
    if index < 8 {
        proof {
            assert(values@.map_values(|v: &str| v@) =~= sort_values());
            assert(values@.map_values(|v: &str| v@)[index as int] == values@[index as int]@);
        }
        Some(values[index])
    } else {
        None
    }
}

// ---------------------------------------------------------------------------
// Dates and chapter numbers
// ---------------------------------------------------------------------------

/// Length of the leading run of ASCII digits.
pub open spec fn digit_run(t: Seq<char>) -> nat
    decreases t.len(),
{
    if t.len() > 0 && is_ascii_digit(t[0]) {
        1 + digit_run(t.drop_first())
    } else {
        0
    }
}

proof fn lemma_digit_run(t: Seq<char>, k: int)
    requires
        0 <= k <= t.len(),
        forall|j: int| 0 <= j < k ==> is_ascii_digit(#[trigger] t[j]),
        k == t.len() || !is_ascii_digit(t[k]),
    ensures
        digit_run(t) == k,
    decreases k,
{
    if k > 0 {
        assert forall|j: int| 0 <= j < k - 1 implies is_ascii_digit(#[trigger] t.drop_first()[j]) by {
            assert(t.drop_first()[j] == t[j + 1]);
        }
        if k - 1 < t.drop_first().len() {
            assert(t.drop_first()[k - 1] == t[k]);
        }
        lemma_digit_run(t.drop_first(), k - 1);
    }
}

fn digit_run_exec(t: &[char]) -> (r: usize)
    ensures
        r == digit_run(t@),
        r <= t@.len(),
{
    let mut k: usize = 0;
    while k < t.len() && '0' <= t[k] && t[k] <= '9'
        invariant
            k <= t@.len(),
            forall|j: int| 0 <= j < k ==> is_ascii_digit(#[trigger] t@[j]),
        decreases t@.len() - k,
    {
        k = k + 1;
    }
    proof {
        lemma_digit_run(t@, k as int);
    }
    k
}

/// The seconds a time unit of a relative date stands for.
pub open spec fn unit_seconds(u: Seq<char>) -> Option<i64> {
    if u == "秒"@ {
        Some(1)
    } else if u == "分"@ {
        Some(60)
    } else if u == "時間"@ {
        Some(3600)
    } else if u == "日"@ {
        Some(86400)
    } else if u == "週間"@ {
        Some(604800)
    } else if u == "ヶ月"@ || u == "ヵ月"@ || u == "カ月"@ || u == "か月"@ {
        Some(2_592_000)
    } else if u == "年"@ {
        Some(31_536_000)
    } else {
        None
    }
}

fn unit_seconds_exec(u: &[char]) -> (r: Option<i64>)
    ensures
        r == unit_seconds(u@),
{
    let l = crate::text::lit_eq;
    if l(u, "秒") {
        Some(1)
    } else if l(u, "分") {
        Some(60)
    } else if l(u, "時間") {
        Some(3600)
    } else if l(u, "日") {
        Some(86400)
    } else if l(u, "週間") {
        Some(604800)
    } else if l(u, "ヶ月") || l(u, "ヵ月") || l(u, "カ月") || l(u, "か月") {
        Some(2_592_000)
    } else if l(u, "年") {
        Some(31_536_000)
    } else {
        None
    }
}

/// A date such as `6日前` ("six days ago"), trimmed: an amount, a unit and
/// `前`, counted back from `now`. None when it doesn't read that way or the
/// date falls outside the range of timestamps.
pub open spec fn relative_date_spec(text: Seq<char>, now: i64) -> Option<i64> {
    match strip_suffix(trim(text), "前"@) {
        Some(t) => {
            let k = digit_run(t);
            if k == t.len() {
                None
            } else {
                match crate::text::parse_i64(t.subrange(0, k as int)) {
                    Some(amount) => match unit_seconds(trim(t.subrange(k as int, t.len() as int))) {
                        Some(sec) => {
                            let d = now - amount * sec;
                            if i64::MIN <= d <= i64::MAX {
                                Some(d as i64)
                            } else {
                                None
                            }
                        },
                        None => None,
                    },
                    None => None,
                }
            }
        },
        None => None,
    }
}

pub fn parse_relative_date(text: &str, now: i64) -> (r: Option<i64>)
    ensures
        r == relative_date_spec(text@, now),
{
    let t0 = trim_exec(chars_of(text).as_slice());
    let t = match strip_suffix_exec(t0.as_slice(), "前") {
        Some(t) => t,
        None => return None,
    };
    let k = digit_run_exec(t.as_slice());
    if k == t.len() {
        return None;
    }
    let amount = match crate::text::parse_i64_exec(slice_to_vec(t.as_slice(), 0, k).as_slice()) {
        Some(a) => a,
        None => return None,
    };
    let tl = t.len();
    let unit = trim_exec(slice_to_vec(t.as_slice(), k, tl).as_slice());
    let sec = match unit_seconds_exec(unit.as_slice()) {
        Some(s) => s,
        None => return None,
    };
    let ghost d = now - amount * sec;
    let back = (amount as i128) * (sec as i128);
    let d2 = (now as i128) - back;
    if -9223372036854775808i128 <= d2 && d2 <= 9223372036854775807i128 {
        Some(d2 as i64)
    } else {
        None
    }
}

/// The dots-and-digits run a chapter number is read from.
pub open spec fn number_chars_len(t: Seq<char>) -> nat
    decreases t.len(),
{
    if t.len() > 0 && (is_ascii_digit(t[0]) || t[0] == '.') {
        1 + number_chars_len(t.drop_first())
    } else {
        0
    }
}

proof fn lemma_number_chars_len(t: Seq<char>, k: int)
    requires
        0 <= k <= t.len(),
        forall|j: int| 0 <= j < k ==> is_ascii_digit(#[trigger] t[j]) || t[j] == '.',
        k == t.len() || !(is_ascii_digit(t[k]) || t[k] == '.'),
    ensures
        number_chars_len(t) == k,
    decreases k,
{
    if k > 0 {
        assert forall|j: int| 0 <= j < k - 1 implies is_ascii_digit(#[trigger] t.drop_first()[j]) || t.drop_first()[j] == '.' by {
            assert(t.drop_first()[j] == t[j + 1]);
        }
        if k - 1 < t.drop_first().len() {
            assert(t.drop_first()[k - 1] == t[k]);
        }
        lemma_number_chars_len(t.drop_first(), k - 1);
    }
}

/// Number of dots in a text.
pub open spec fn dots(t: Seq<char>) -> nat
    decreases t.len(),
{
    if t.len() == 0 {
        0
    } else {
        (if t.last() == '.' { 1nat } else { 0nat }) + dots(t.drop_last())
    }
}

/// The first ASCII digit's position.
pub open spec fn first_digit(s: Seq<char>) -> Option<int>
    decreases s.len(),
{
    if s.len() == 0 {
        None
    } else if is_ascii_digit(s[0]) {
        Some(0)
    } else {
        match first_digit(s.drop_first()) {
            Some(i) => Some(i + 1),
            None => None,
        }
    }
}

proof fn lemma_first_digit(s: Seq<char>, k: int)
    requires
        0 <= k <= s.len(),
        forall|j: int| 0 <= j < k ==> !is_ascii_digit(#[trigger] s[j]),
    ensures
        first_digit(s) == (if k < s.len() && is_ascii_digit(s[k]) {
            Some(k)
        } else {
            match first_digit(s.subrange(k, s.len() as int)) {
                Some(i) => Some(i + k),
                None => None::<int>,
            }
        }),
    decreases k,
{
    if k > 0 {
        assert forall|j: int| 0 <= j < k - 1 implies !is_ascii_digit(#[trigger] s.drop_first()[j]) by {
            assert(s.drop_first()[j] == s[j + 1]);
        }
        lemma_first_digit(s.drop_first(), k - 1);
        assert(s.drop_first().subrange(k - 1, s.drop_first().len() as int) =~= s.subrange(k, s.len() as int));
        if k < s.len() {
            assert(s.drop_first()[k - 1] == s[k]);
        }
    } else {
        assert(s.subrange(0, s.len() as int) =~= s);
        if s.len() > 0 && !is_ascii_digit(s[0]) {
        }
    }
}

/// A chapter's number: after its first `第`, or else from its first digit,
/// the run of digits and dots without trailing dots; none unless that reads
/// as a number (not empty, at most one dot). The app reads it as a number.
pub open spec fn chapter_number_spec(title: Seq<char>) -> Option<Seq<char>> {
    let rest = match char_from(title, '第', 0) {
        Some(i) => Some(title.subrange(i + 1, title.len() as int)),
        None => match first_digit(title) {
            Some(d) => Some(title.subrange(d, title.len() as int)),
            None => None,
        },
    };
    match rest {
        Some(r) => {
            let n = trim_end_char(r.subrange(0, number_chars_len(r) as int), '.');
            if n.len() > 0 && dots(n) <= 1 {
                Some(n)
            } else {
                None
            }
        },
        None => None,
    }
}

fn dots_exec(t: &[char]) -> (r: usize)
    ensures
        r == dots(t@),
{
    let mut n: usize = 0;
    let mut i: usize = 0;
    assert(t@.take(0) =~= Seq::<char>::empty());
    while i < t.len()
        invariant
            i <= t@.len(),
            n == dots(t@.take(i as int)),
            n <= i,
        decreases t@.len() - i,
    {
        assert(t@.take(i + 1).drop_last() =~= t@.take(i as int));
        if t[i] == '.' {
            n = n + 1;
        }
        i = i + 1;
    }
    assert(t@.take(t@.len() as int) =~= t@);
    n
}

proof fn lemma_no_dots(n: Seq<char>)
    requires
        forall|j: int| 0 <= j < n.len() ==> is_ascii_digit(#[trigger] n[j]),
    ensures
        dots(n) == 0,
    decreases n.len(),
{
    if n.len() > 0 {
        assert(is_ascii_digit(n[n.len() - 1]));
        assert forall|j: int| 0 <= j < n.drop_last().len() implies is_ascii_digit(#[trigger] n.drop_last()[j]) by {
            assert(n.drop_last()[j] == n[j]);
        }
        lemma_no_dots(n.drop_last());
    }
}

/// A title `…第<digits>…` is numbered by the digits after its first `第`.
pub proof fn lemma_numbered_titles(head: Seq<char>, n: Seq<char>, rest: Seq<char>)
    requires
        forall|j: int| 0 <= j < head.len() ==> head[j] != '第',
        n.len() > 0,
        forall|j: int| 0 <= j < n.len() ==> is_ascii_digit(#[trigger] n[j]),
        rest.len() == 0 || !(is_ascii_digit(rest[0]) || rest[0] == '.'),
    ensures
        chapter_number_spec(head + seq!['第'] + n + rest) == Some(n),
{
    let t = head + seq!['第'] + n + rest;
    let h = head.len() as int;
    assert forall|j: int| 0 <= j < h implies t[j] != '第' by {
        assert(t[j] == head[j]);
    }
    assert(t[h] == '第');
    crate::text::lemma_char_from_first(t, '第', 0, h);
    let r = t.subrange(h + 1, t.len() as int);
    assert(r =~= n + rest);
    assert forall|j: int| 0 <= j < n.len() implies is_ascii_digit(#[trigger] r[j]) || r[j] == '.' by {
        assert(r[j] == n[j]);
    }
    if rest.len() > 0 {
        assert(r[n.len() as int] == rest[0]);
    }
    lemma_number_chars_len(r, n.len() as int);
    assert(r.subrange(0, n.len() as int) =~= n);
    assert(is_ascii_digit(n.last()));
    assert(crate::text::trim_end_char(n, '.') == n);
    lemma_no_dots(n);
}

pub fn parse_chapter_number(title: &str) -> (r: Option<String>)
    ensures
        opt_string(r) == chapter_number_spec(title@),
{
    let v = chars_of(title);
    let vl = v.len();
    let rest = match char_from_exec(v.as_slice(), '第', 0) {
        Some(i) => {
            proof {
                crate::text::lemma_char_from(v@, '第', 0);
            }
            slice_to_vec(v.as_slice(), i + 1, vl)
        },
        None => {
            let mut d: usize = 0;
            while d < v.len() && !('0' <= v[d] && v[d] <= '9')
                invariant
                    d <= v@.len(),
                    forall|j: int| 0 <= j < d ==> !is_ascii_digit(#[trigger] v@[j]),
                decreases v@.len() - d,
            {
                d = d + 1;
            }
            proof {
                lemma_first_digit(v@, d as int);
                if d == v@.len() {
                    assert(v@.subrange(d as int, v@.len() as int) =~= Seq::<char>::empty());
                }
            }
            if d == v.len() {
                return None;
            }
            slice_to_vec(v.as_slice(), d, vl)
        },
    };
    let mut k: usize = 0;
    while k < rest.len() && (('0' <= rest[k] && rest[k] <= '9') || rest[k] == '.')
        invariant
            k <= rest@.len(),
            forall|j: int| 0 <= j < k ==> is_ascii_digit(#[trigger] rest@[j]) || rest@[j] == '.',
        decreases rest@.len() - k,
    {
        k = k + 1;
    }
    proof {
        lemma_number_chars_len(rest@, k as int);
    }
    let n = trim_end_char_exec(slice_to_vec(rest.as_slice(), 0, k).as_slice(), '.');
    if n.len() > 0 && dots_exec(n.as_slice()) <= 1 {
        Some(string_of(n.as_slice()))
    } else {
        None
    }
}

/// A title that holds nothing but its number, `第<digits and dots>話`
/// (trimmed).
pub open spec fn is_plain_title_spec(title: Seq<char>) -> bool {
    match strip_prefix(trim(title), "第"@) {
        Some(r) => match strip_suffix(r, "話"@) {
            Some(n) => n.len() > 0 && number_chars_len(n) == n.len(),
            None => false,
        },
        None => false,
    }
}

pub fn is_plain_chapter_title(title: &str) -> (r: bool)
    ensures
        r == is_plain_title_spec(title@),
{
    let t = trim_exec(chars_of(title).as_slice());
    let r = match strip_prefix_exec(t.as_slice(), "第") {
        Some(r) => r,
        None => return false,
    };
    let n = match strip_suffix_exec(r.as_slice(), "話") {
        Some(n) => n,
        None => return false,
    };
    if n.len() == 0 {
        return false;
    }
    let mut k: usize = 0;
    while k < n.len() && (('0' <= n[k] && n[k] <= '9') || n[k] == '.')
        invariant
            k <= n@.len(),
            forall|j: int| 0 <= j < k ==> is_ascii_digit(#[trigger] n@[j]) || n@[j] == '.',
        decreases n@.len() - k,
    {
        k = k + 1;
    }
    proof {
        lemma_number_chars_len(n@, k as int);
    }
    k == n.len()
}

// ---------------------------------------------------------------------------
// Statuses, ratings and tags
// ---------------------------------------------------------------------------

/// The status a filter link's value names: `1` completed, `2` ongoing.
pub open spec fn status_value_spec(href: Seq<char>) -> Option<MangaStatus> {
    match rfind(href, "="@) {
        Some(i) => {
            let v = trim(href.subrange(i + 1, href.len() as int));
            if v == "1"@ {
                Some(MangaStatus::Completed)
            } else if v == "2"@ {
                Some(MangaStatus::Ongoing)
            } else {
                None
            }
        },
        None => None,
    }
}

proof fn lemma_last_eq_from(s: Seq<char>, n: int, k: int)
    requires
        0 <= n <= k < s.len(),
        s[n] == '=',
        forall|j: int| n < j < s.len() ==> s[j] != '=',
    ensures
        pattern_before(s, "="@, k) == Some(n),
    decreases k,
{
    reveal_strlit("=");
    if k == n {
        assert(s.subrange(n, n + 1) =~= "="@);
    } else {
        assert(s.subrange(k, k + 1)[0] == s[k]);
        assert(!occurs_at(s, "="@, k));
        lemma_last_eq_from(s, n, k - 1);
    }
}

/// The status filter link's value, after its last `=` (trimmed), names the
/// status: "1" completed, "2" ongoing.
pub proof fn lemma_status_values(prefix: Seq<char>, v: Seq<char>)
    requires
        forall|j: int| 0 <= j < v.len() ==> v[j] != '=',
    ensures
        trim(v) == "1"@ ==> status_value_spec(prefix + "="@ + v) == Some(MangaStatus::Completed),
        trim(v) == "2"@ ==> status_value_spec(prefix + "="@ + v) == Some(MangaStatus::Ongoing),
        trim(v) != "1"@ && trim(v) != "2"@ ==> status_value_spec(prefix + "="@ + v) is None,
{
    reveal_strlit("=");
    reveal_strlit("1");
    reveal_strlit("2");
    let s = prefix + "="@ + v;
    let n = prefix.len() as int;
    assert(s[n] == '=');
    assert forall|j: int| n < j < s.len() implies s[j] != '=' by {
        assert(s[j] == v[j - n - 1]);
    }
    lemma_last_eq_from(s, n, s.len() - 1);
    assert(rfind(s, "="@) == Some(n));
    assert(s.subrange(n + 1, s.len() as int) =~= v);
    assert("1"@ != "2"@) by {
        assert("1"@[0] != "2"@[0]);
    }
}

pub fn parse_status_value(href: &str) -> (r: Option<MangaStatus>)
    ensures
        r == status_value_spec(href@),
{
    let h = chars_of(href);
    let eq = chars_of("=");
    proof {
        reveal_strlit("=");
    }
    let i = match rfind_pattern(h.as_slice(), eq.as_slice()) {
        Some(i) => i,
        None => return None,
    };
    proof {
        crate::text::lemma_pattern_before(h@, eq@, h@.len() - eq@.len());
    }
    let hl = h.len();
    let v = trim_exec(slice_to_vec(h.as_slice(), i + 1, hl).as_slice());
    if crate::text::lit_eq(v.as_slice(), "1") {
        Some(MangaStatus::Completed)
    } else if crate::text::lit_eq(v.as_slice(), "2") {
        Some(MangaStatus::Ongoing)
    } else {
        None
    }
}

/// The status a series page shows: its status link's value, else the
/// link's label; unknown without a link.
pub open spec fn status_spec(link: Option<(Option<Seq<char>>, Option<Seq<char>>)>) -> MangaStatus {
    match link {
        None => MangaStatus::Unknown,
        Some((href, text)) => match (match href {
            Some(h) => status_value_spec(h),
            None => None,
        }) {
            Some(s) => s,
            None => {
                let t = trim(match text {
                    Some(t) => t,
                    None => Seq::empty(),
                });
                if t == "進行中"@ {
                    MangaStatus::Ongoing
                } else if t == "完了"@ || t == "完結"@ {
                    MangaStatus::Completed
                } else {
                    MangaStatus::Unknown
                }
            },
        },
    }
}

/// Without a value in its link, the status link's text names the status:
/// "進行中" ongoing, "完了" or "完結" completed; without a link it is
/// unknown.
pub proof fn lemma_status_texts(text: Seq<char>)
    ensures
        trim(text) == "進行中"@ ==> status_spec(Some((None, Some(text)))) == MangaStatus::Ongoing,
        trim(text) == "完了"@ || trim(text) == "完結"@ ==> status_spec(Some((None, Some(text))))
            == MangaStatus::Completed,
        status_spec(None) == MangaStatus::Unknown,
{
    reveal_strlit("進行中");
    reveal_strlit("完了");
    reveal_strlit("完結");
    assert("進行中"@.len() == 3 && "完了"@.len() == 2 && "完結"@.len() == 2);
}

/// The status from the page's status link (its address and its label).
pub fn parse_status(link: Option<(Option<String>, Option<String>)>) -> (r: MangaStatus)
    ensures
        r == status_spec(match link {
            Some((h, t)) => Some((opt_string(h), opt_string(t))),
            None => None,
        }),
{
    let (href, text) = match link {
        Some(l) => l,
        None => return MangaStatus::Unknown,
    };
    match href {
        Some(h) => match parse_status_value(h.as_str()) {
            Some(s) => return s,
            None => {},
        },
        None => {},
    }
    let t = match text {
        Some(t) => trim_exec(chars_of(t.as_str()).as_slice()),
        None => trim_exec(Vec::<char>::new().as_slice()),
    };
    if crate::text::lit_eq(t.as_slice(), "進行中") {
        MangaStatus::Ongoing
    } else if crate::text::lit_eq(t.as_slice(), "完了") || crate::text::lit_eq(t.as_slice(), "完結") {
        MangaStatus::Completed
    } else {
        MangaStatus::Unknown
    }
}

pub open spec fn nsfw_words() -> Seq<Seq<char>> {
    seq!["成人向け"@, "成年"@, "アダルト"@, "hentai"@, "adult"@, "smut"@]
}

pub open spec fn suggestive_words() -> Seq<Seq<char>> {
    seq!["ecchi"@, "mature"@, "巨乳"@, "エッチ"@]
}

/// A tag, in lower case, mentions one of the words.
pub open spec fn mentions(tag: Seq<char>, words: Seq<Seq<char>>) -> bool {
    exists|k: int| 0 <= k < words.len() && contains(lowercase(tag), #[trigger] words[k])
}

pub open spec fn rating_spec(tags: Seq<Seq<char>>) -> ContentRating {
    if exists|i: int| 0 <= i < tags.len() && mentions(#[trigger] tags[i], nsfw_words()) {
        ContentRating::NSFW
    } else if exists|i: int| 0 <= i < tags.len() && mentions(#[trigger] tags[i], suggestive_words()) {
        ContentRating::Suggestive
    } else {
        ContentRating::Safe
    }
}

proof fn lemma_mentions_transfer(a: Seq<Seq<char>>, b: Seq<Seq<char>>, words: Seq<Seq<char>>)
    requires
        forall|t: Seq<char>| a.contains(t) <==> b.contains(t),
    ensures
        (exists|i: int| 0 <= i < a.len() && mentions(#[trigger] a[i], words)) <==> (exists|j: int|
            0 <= j < b.len() && mentions(#[trigger] b[j], words)),
{
    if exists|i: int| 0 <= i < a.len() && mentions(#[trigger] a[i], words) {
        let i = choose|i: int| 0 <= i < a.len() && mentions(#[trigger] a[i], words);
        assert(a.contains(a[i]));
        let j = choose|j: int| 0 <= j < b.len() && b[j] == a[i];
        assert(mentions(b[j], words));
    }
    if exists|j: int| 0 <= j < b.len() && mentions(#[trigger] b[j], words) {
        let j = choose|j: int| 0 <= j < b.len() && mentions(#[trigger] b[j], words);
        assert(b.contains(b[j]));
        let i = choose|i: int| 0 <= i < a.len() && a[i] == b[j];
        assert(mentions(a[i], words));
    }
}

/// The rating of a tag list does not depend on the order of its tags, nor
/// on how often each occurs: lists holding the same tags rate the same, so
/// an explicit tag wins over a suggestive one wherever it stands.
pub proof fn lemma_rating_order_free(a: Seq<Seq<char>>, b: Seq<Seq<char>>)
    requires
        forall|t: Seq<char>| a.contains(t) <==> b.contains(t),
    ensures
        rating_spec(a) == rating_spec(b),
{
    lemma_mentions_transfer(a, b, nsfw_words());
    lemma_mentions_transfer(a, b, suggestive_words());
}

/// A tag naming explicit content makes a list NSFW, whatever tags stand
/// before or after it.
pub proof fn lemma_explicit_wins(before: Seq<Seq<char>>, tag: Seq<char>, after: Seq<Seq<char>>)
    requires
        mentions(tag, nsfw_words()),
    ensures
        rating_spec(before + seq![tag] + after) == ContentRating::NSFW,
{
    let all = before + seq![tag] + after;
    assert(all[before.len() as int] == tag);
}

fn mentions_exec(tag: &str, words: &[&str]) -> (r: bool)
    ensures
        r == mentions(tag@, words@.map_values(|w: &str| w@)),
{
    let l = to_lowercase(tag);
    let lv = chars_of(l.as_str());
    let ghost ws = words@.map_values(|w: &str| w@);
    let mut k: usize = 0;
    while k < words.len()
        invariant
            k <= words@.len(),
            lv@ == lowercase(tag@),
            ws == words@.map_values(|w: &str| w@),
            forall|j: int| 0 <= j < k ==> !contains(lowercase(tag@), #[trigger] ws[j]),
        decreases words@.len() - k,
    {
        assert(ws[k as int] == words@[k as int]@);
        if crate::text::contains_lit(lv.as_slice(), words[k]) {
            return true;
        }
        k = k + 1;
    }
    false
}

/// The rating the genres imply: explicit when one mentions an adult word,
/// suggestive when one mentions a suggestive word, else safe.
pub fn content_rating_from_tags(tags: &[String]) -> (r: ContentRating)
    ensures
        r == rating_spec(views(tags@)),
{
    let nsfw: [&str; 6] = ["成人向け", "成年", "アダルト", "hentai", "adult", "smut"];
    let suggestive: [&str; 4] = ["ecchi", "mature", "巨乳", "エッチ"];
    assert(nsfw@.map_values(|w: &str| w@) =~= nsfw_words());
    assert(suggestive@.map_values(|w: &str| w@) =~= suggestive_words());
    let ghost ts = views(tags@);
    let mut explicit = false;
    let mut mild = false;
    let mut i: usize = 0;
    while i < tags.len()
        invariant
            i <= tags@.len(),
            ts == views(tags@),
            nsfw@.map_values(|w: &str| w@) == nsfw_words(),
            suggestive@.map_values(|w: &str| w@) == suggestive_words(),
            explicit == exists|j: int| 0 <= j < i && mentions(#[trigger] ts[j], nsfw_words()),
            mild == exists|j: int| 0 <= j < i && mentions(#[trigger] ts[j], suggestive_words()),
        decreases tags@.len() - i,
    {
        assert(ts[i as int] == tags@[i as int]@);
        if mentions_exec(tags[i].as_str(), &nsfw) {
            explicit = true;
        }
        if mentions_exec(tags[i].as_str(), &suggestive) {
            mild = true;
        }
        i = i + 1;
    }
    if explicit {
        ContentRating::NSFW
    } else if mild {
        ContentRating::Suggestive
    } else {
        ContentRating::Safe
    }
}

/// A genre trimmed, without the ` raw` the site appends to some, trimmed
/// again; none when nothing is left.
pub open spec fn clean_tag_spec(tag: Seq<char>) -> Option<Seq<char>> {
    let t = trim(tag);
    let u = trim(match strip_suffix(t, " raw"@) {
        Some(x) => x,
        None => t,
    });
    if u.len() > 0 {
        Some(u)
    } else {
        None
    }
}

pub fn clean_tag(tag: &str) -> (r: Option<String>)
    ensures
        opt_string(r) == clean_tag_spec(tag@),
{
    let t = trim_exec(chars_of(tag).as_slice());
    let u = match strip_suffix_exec(t.as_slice(), " raw") {
        Some(x) => trim_exec(x.as_slice()),
        None => trim_exec(t.as_slice()),
    };
    if u.len() > 0 {
        Some(string_of(u.as_slice()))
    } else {
        None
    }
}

/// A list with a value added at its end unless it holds it already.
pub open spec fn push_unique_spec(vs: Seq<Seq<char>>, v: Seq<char>) -> Seq<Seq<char>> {
    if vs.contains(v) {
        vs
    } else {
        vs.push(v)
    }
}

/// No value occurs twice.
pub open spec fn no_repeats(vs: Seq<Seq<char>>) -> bool {
    forall|i: int, j: int| 0 <= i < j < vs.len() ==> vs[i] != vs[j]
}

/// Adds a value to a list unless the list holds it already.
pub fn push_unique(values: &mut Vec<String>, value: String)
    ensures
        views(final(values)@) == push_unique_spec(views(old(values)@), value@),
{
    let ghost vs = views(values@);
    let mut i: usize = 0;
    while i < values.len()
        invariant
            i <= values@.len(),
            vs == views(values@),
            forall|j: int| 0 <= j < i ==> #[trigger] vs[j] != value@,
        decreases values@.len() - i,
    {
        assert(vs[i as int] == values@[i as int]@);
        if str_eq(values[i].as_str(), value.as_str()) {
            assert(vs.contains(value@));
            return;
        }
        i = i + 1;
    }
    values.push(value);
    assert(views(values@) =~= vs.push(value@));
}

/// Adding a value twice leaves the list as adding it once does, and a list
/// without repeats keeps none.
pub proof fn lemma_push_unique(vs: Seq<Seq<char>>, v: Seq<char>)
    ensures
        push_unique_spec(push_unique_spec(vs, v), v) == push_unique_spec(vs, v),
        no_repeats(vs) ==> no_repeats(push_unique_spec(vs, v)),
        push_unique_spec(vs, v).contains(v),
{
    let once = push_unique_spec(vs, v);
    if !vs.contains(v) {
        assert(once[vs.len() as int] == v);
        assert(once.contains(v));
        if no_repeats(vs) {
            assert forall|i: int, j: int| 0 <= i < j < once.len() implies once[i] != once[j] by {
                if j == vs.len() {
                    assert(once[i] == vs[i]);
                    if vs[i] == v {
                        assert(vs.contains(v));
                    }
                } else {
                    assert(once[i] == vs[i] && once[j] == vs[j]);
                }
            }
        }
    }
}

/// The genres of a series page, cleaned, each once, in page order.
pub open spec fn tags_spec(texts: Seq<Seq<char>>) -> Seq<Seq<char>>
    decreases texts.len(),
{
    if texts.len() == 0 {
        Seq::empty()
    } else {
        let rest = tags_spec(texts.drop_last());
        match clean_tag_spec(texts.last()) {
            Some(t) => if rest.contains(t) {
                rest
            } else {
                rest.push(t)
            },
            None => rest,
        }
    }
}

/// A series' tags never hold a genre twice.
pub proof fn lemma_tags_no_repeats(texts: Seq<Seq<char>>)
    ensures
        no_repeats(tags_spec(texts)),
    decreases texts.len(),
{
    if texts.len() > 0 {
        lemma_tags_no_repeats(texts.drop_last());
        match clean_tag_spec(texts.last()) {
            Some(t) => {
                lemma_push_unique(tags_spec(texts.drop_last()), t);
            },
            None => {},
        }
    }
}

pub fn parse_tags(texts: &[String]) -> (r: Vec<String>)
    ensures
        views(r@) == tags_spec(views(texts@)),
{
    let ghost tv = views(texts@);
    let mut out: Vec<String> = Vec::new();
    let mut i: usize = 0;
    assert(views(out@) =~= tags_spec(tv.take(0)));
    while i < texts.len()
        invariant
            i <= texts@.len(),
            tv == views(texts@),
            views(out@) == tags_spec(tv.take(i as int)),
        decreases texts@.len() - i,
    {
        assert(tv.take(i + 1).drop_last() =~= tv.take(i as int));
        assert(tv.take(i + 1).last() == texts@[i as int]@);
        match clean_tag(texts[i].as_str()) {
            Some(t) => push_unique(&mut out, t),
            None => {},
        }
        i = i + 1;
    }
    assert(tv.take(texts@.len() as int) =~= tv);
    out
}

// ---------------------------------------------------------------------------
// Images, pagination and addresses
// ---------------------------------------------------------------------------

/// A page image's address on an image server: `2` goes through a proxy by
/// host and path, `3` through another by the whole address, encoded; with
/// any other server the address stays as it is.
pub open spec fn image_url_spec(server: Seq<char>, image: Seq<char>) -> Seq<char> {
    if server == "2"@ {
        let stripped = match strip_prefix(image, "https://"@) {
            Some(s) => s,
            None => match strip_prefix(image, "http://"@) {
                Some(s) => s,
                None => image,
            },
        };
        "https://i0.wp.com/"@ + stripped
    } else if server == "3"@ {
        "https://external-content.duckduckgo.com/iu/?u="@ + crate::url::encode_component(image)
    } else {
        image
    }
}

pub fn build_image_url(server: &str, image: &str) -> (r: String)
    ensures
        r@ == image_url_spec(server@, image@),
{
    if str_eq(server, "2") {
        let o = chars_of(image);
        let stripped = match strip_prefix_exec(o.as_slice(), "https://") {
            Some(s) => s,
            None => match strip_prefix_exec(o.as_slice(), "http://") {
                Some(s) => s,
                None => o,
            },
        };
        let mut u = chars_of("https://i0.wp.com/");
        push_slice(&mut u, stripped.as_slice());
        string_of(u.as_slice())
    } else if str_eq(server, "3") {
        let mut u = chars_of("https://external-content.duckduckgo.com/iu/?u=");
        let e = crate::url::encode_uri_component(image);
        push_str(&mut u, e.as_str());
        string_of(u.as_slice())
    } else {
        string_of(chars_of(image).as_slice())
    }
}

/// The page a pagination link names: the digits after its first `page=`.
pub open spec fn page_param_spec(href: Seq<char>) -> Option<i32> {
    match pattern_from(href, "page="@, 0) {
        Some(i) => {
            let rest = href.subrange(i + 5, href.len() as int);
            crate::mangarawjp::parse_i32(rest.subrange(0, digit_run(rest) as int))
        },
        None => None,
    }
}

pub fn parse_page_param(href: &str) -> (r: Option<i32>)
    ensures
        r == page_param_spec(href@),
{
    let h = chars_of(href);
    let p = chars_of("page=");
    proof {
        reveal_strlit("page=");
    }
    let i = match pattern_from_exec(h.as_slice(), p.as_slice(), 0) {
        Some(i) => i,
        None => return None,
    };
    proof {
        crate::text::lemma_pattern_from(h@, p@, 0);
    }
    let hl = h.len();
    let rest = slice_to_vec(h.as_slice(), i + 5, hl);
    let k = digit_run_exec(rest.as_slice());
    let digits = slice_to_vec(rest.as_slice(), 0, k);
    match crate::text::parse_i64_exec(digits.as_slice()) {
        Some(v) => if -2147483648 <= v && v <= 2147483647 {
            Some(v as i32)
        } else {
            None
        },
        None => None,
    }
}

/// Whether a grid page has a next one: its last-page link names a later
/// page.
pub fn has_next_page(page: i32, last_link: Option<String>) -> (r: bool)
    ensures
        r == (match last_link {
            Some(h) => match page_param_spec(h@) {
                Some(last) => page < last,
                None => false,
            },
            None => false,
        }),
{
    match last_link {
        Some(h) => match parse_page_param(h.as_str()) {
            Some(last) => page < last,
            None => false,
        },
        None => false,
    }
}

/// A link's path on the site, whatever its scheme and `www.`.
pub open spec fn strip_base_spec(url: Seq<char>) -> Option<Seq<char>> {
    let path = match strip_prefix(url, "https://"@) {
        Some(p) => p,
        None => match strip_prefix(url, "http://"@) {
            Some(p) => p,
            None => url,
        },
    };
    let path = match strip_prefix(path, "www."@) {
        Some(p) => p,
        None => path,
    };
    strip_prefix(path, "mangaraw.best"@)
}

pub fn strip_base_url(url: &str) -> (r: Option<String>)
    ensures
        opt_string(r) == strip_base_spec(url@),
{
    let u = chars_of(url);
    let path = match strip_prefix_exec(u.as_slice(), "https://") {
        Some(p) => p,
        None => match strip_prefix_exec(u.as_slice(), "http://") {
            Some(p) => p,
            None => u,
        },
    };
    let path = match strip_prefix_exec(path.as_slice(), "www.") {
        Some(p) => p,
        None => path,
    };
    match strip_prefix_exec(path.as_slice(), "mangaraw.best") {
        Some(p) => Some(string_of(p.as_slice())),
        None => None,
    }
}

// ---------------------------------------------------------------------------
// Grid entries and chapters
// ---------------------------------------------------------------------------

/// A grid entry as the page shows it: the `href` of its series link (one
/// under `/raw/`), its title link's text, the series link's `title`, and
/// the cover's lazily loaded and plain addresses.
pub struct GridItem {
    pub href: Option<String>,
    pub title_text: Option<String>,
    pub link_title: Option<String>,
    pub cover_data_src: Option<String>,
    pub cover_src: Option<String>,
}

/// The series key a `/raw/<key>/...` link names.
pub open spec fn grid_key(href: Seq<char>) -> Option<Seq<char>> {
    match strip_prefix(href, "/raw/"@) {
        Some(rest) => {
            let k = crate::text::before_char(rest, '/');
            if k.len() > 0 {
                Some(k)
            } else {
                None
            }
        },
        None => None,
    }
}

pub open spec fn grid_title(item: GridItem) -> Option<Seq<char>> {
    match item.title_text {
        Some(t) => Some(t@),
        None => opt_string(item.link_title),
    }
}

/// A grid entry's series: keyed by its link, titled by its title link (else
/// the link's `title`), with its cover and its address on the site; none
/// without a key or title.
pub fn grid_entry(item: GridItem, base: &str) -> (r: Option<Manga>)
    ensures
        (match item.href {
            Some(h) => grid_key(h@) is Some && grid_title(item) is Some,
            None => false,
        }) ==> (r matches Some(m) && m.key@ == grid_key(item.href->0@)->0
            && m.title@ == grid_title(item)->0 && m.cover == (match item.cover_data_src {
                Some(c) => Some(c),
                None => item.cover_src,
            }) && opt_string(m.url) == Some(base@ + "/raw/"@ + m.key@) && m.artists is None
            && m.authors is None && m.description is None && m.tags is None
            && m.status == MangaStatus::Unknown && m.content_rating == ContentRating::Unknown
            && m.viewer == Viewer::Unknown),
        !(match item.href {
            Some(h) => grid_key(h@) is Some && grid_title(item) is Some,
            None => false,
        }) ==> r is None,
{
    let ghost it = item;
    let GridItem { href, title_text, link_title, cover_data_src, cover_src } = item;
    let h = match href {
        Some(h) => h,
        None => return None,
    };
    let rest = match strip_prefix_exec(chars_of(h.as_str()).as_slice(), "/raw/") {
        Some(r) => r,
        None => return None,
    };
    let key = crate::text::before_char_exec(rest.as_slice(), '/');
    if key.len() == 0 {
        return None;
    }
    let title = match title_text {
        Some(t) => t,
        None => match link_title {
            Some(t) => t,
            None => return None,
        },
    };
    let k = string_of(key.as_slice());
    let mut url = chars_of(base);
    push_str(&mut url, "/raw/");
    push_str(&mut url, k.as_str());
    let mut m = Manga::new(k, title);
    m.cover = match cover_data_src {
        Some(c) => Some(c),
        None => cover_src,
    };
    m.url = Some(string_of(url.as_slice()));
    Some(m)
}

/// A chapter link as the page shows it: its `href`, its title text and its
/// upload time text.
pub struct ChapterLink {
    pub href: Option<String>,
    pub title: Option<String>,
    pub date_text: Option<String>,
}

/// A chapter's key: the last segment of its link.
pub open spec fn chapter_key(href: Seq<char>) -> Option<Seq<char>> {
    let k = match crate::text::char_before(href, '/', href.len() as int) {
        Some(i) => href.subrange(i + 1, href.len() as int),
        None => href,
    };
    if k.len() > 0 {
        Some(k)
    } else {
        None
    }
}

/// A chapter link's chapter: keyed by the link's last segment, numbered by
/// its title (trimmed, none when empty), the title kept only when it holds
/// more than the number, dated from its relative date, at its address on
/// the site; none without a key.
pub fn chapter_entry(link: ChapterLink, base: &str, now: i64) -> (r: Option<Chapter>)
    ensures
        (match link.href {
            Some(h) => chapter_key(h@) is Some,
            None => false,
        }) ==> (r matches Some(c) && {
            let title = match link.title {
                Some(t) => if trim(t@).len() > 0 {
                    Some(trim(t@))
                } else {
                    None
                },
                None => None,
            };
            &&& c.key@ == chapter_key(link.href->0@)->0
            &&& opt_string(c.number) == (match title {
                Some(t) => chapter_number_spec(t),
                None => None,
            })
            &&& opt_string(c.title) == (match title {
                Some(t) => if is_plain_title_spec(t) {
                    None
                } else {
                    Some(t)
                },
                None => None,
            })
            &&& c.date_uploaded == (match link.date_text {
                Some(d) => relative_date_spec(d@, now),
                None => None,
            })
            &&& opt_string(c.url) == Some(base@ + link.href->0@)
            &&& c.volume is None && c.scanlators is None && c.language is None
        }),
        !(match link.href {
            Some(h) => chapter_key(h@) is Some,
            None => false,
        }) ==> r is None,
{
    let ChapterLink { href, title, date_text } = link;
    let h = match href {
        Some(h) => h,
        None => return None,
    };
    let hv = chars_of(h.as_str());
    let hl = hv.len();
    let key = match crate::text::char_before_exec(hv.as_slice(), '/', hl) {
        Some(i) => {
            proof {
                crate::text::lemma_char_before(hv@, '/', hl as int);
            }
            slice_to_vec(hv.as_slice(), i + 1, hl)
        },
        None => hv,
    };
    if key.len() == 0 {
        return None;
    }
    let t = match title {
        Some(t) => {
            let tt = trim_exec(chars_of(t.as_str()).as_slice());
            if tt.len() > 0 {
                Some(string_of(tt.as_slice()))
            } else {
                None
            }
        },
        None => None,
    };
    let number = match &t {
        Some(x) => parse_chapter_number(x.as_str()),
        None => None,
    };
    let shown = match t {
        Some(x) => if is_plain_chapter_title(x.as_str()) {
            None
        } else {
            Some(x)
        },
        None => None,
    };
    let date = match date_text {
        Some(d) => parse_relative_date(d.as_str(), now),
        None => None,
    };
    let mut url = chars_of(base);
    push_str(&mut url, h.as_str());
    let mut c = Chapter::new(string_of(key.as_slice()));
    c.title = shown;
    c.number = number;
    c.date_uploaded = date;
    c.url = Some(string_of(url.as_slice()));
    Some(c)
}

} // verus!
