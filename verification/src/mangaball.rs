//! MangaBall: language aliases, status, reader and rating mapping, chapter
//! titles and groups, search keys and deep links.
use vstd::prelude::*;
use crate::model::{Chapter, ContentRating, Manga, MangaStatus, Viewer, opt_strings};
use crate::text::{
    any_one_of, before_any, before_any_exec, chars_of, find, find_exec, has_any, is_ascii_hexdigit,
    lit_eq, pieces, pieces_exec, push_slice, push_str, slice_to_vec, string_of, strip_prefix,
    strip_prefix_exec, strs_view, trim, trim_exec, views, contains, contains_exec,
};

verus! {

pub const BASE_URL: &'static str = "https://mangaball.net";

/// The language codes the api files chapters under for an app language.
pub open spec fn api_languages_spec(language: Seq<char>) -> Seq<Seq<char>> {
    if language == "ca"@ {
        seq!["ca"@, "ca-ad"@, "ca-es"@, "ca-fr"@, "ca-it"@, "ca-pt"@]
    } else if language == "es"@ {
        seq!["es"@, "es-ar"@, "es-mx"@, "es-es"@, "es-la"@, "es-419"@]
    } else if language == "it"@ {
        seq!["it"@, "it-it"@]
    } else if language == "is"@ {
        seq!["ib"@, "ib-is"@, "is"@]
    } else if language == "ja"@ {
        seq!["jp"@]
    } else if language == "ko"@ {
        seq!["kr"@]
    } else if language == "kn"@ {
        seq!["kn"@, "kn-in"@, "kn-my"@, "kn-sg"@, "kn-tw"@]
    } else if language == "ml"@ {
        seq!["ml"@, "ml-in"@, "ml-my"@, "ml-sg"@, "ml-tw"@]
    } else if language == "nl"@ {
        seq!["nl"@, "nl-be"@]
    } else if language == "pt-BR"@ {
        seq!["pt-br"@, "pt-pt"@]
    } else if language == "sr"@ {
        seq!["sr"@, "sr-cyrl"@]
    } else if language == "th"@ {
        seq!["th"@, "th-hk"@, "th-kh"@, "th-la"@, "th-my"@, "th-sg"@]
    } else if language == "zh"@ {
        seq!["zh"@, "zh-cn"@, "zh-hk"@, "zh-mo"@, "zh-sg"@, "zh-tw"@]
    } else if single_code_languages().contains(language) {
        seq![language]
    } else {
        seq!["en"@]
    }
}

/// Languages the api files under their own code alone.
pub open spec fn single_code_languages() -> Seq<Seq<char>> {
    seq![
        "ar"@, "bg"@, "bn"@, "cs"@, "da"@, "de"@, "el"@, "en"@, "fa"@, "fi"@, "fr"@, "he"@,
        "hi"@, "hu"@, "id"@, "ms"@, "ne"@, "no"@, "pl"@, "ro"@, "ru"@, "sk"@, "sl"@, "sq"@,
        "sv"@, "ta"@, "tr"@, "uk"@, "vi"@,
    ]
}

/// Japanese chapters are filed under `jp`, Korean under `kr`, Icelandic
/// under `ib`, `ib-is` and `is`, Brazilian Portuguese under `pt-br` and
/// `pt-pt`, English under `en`; a language the api doesn't know (any code
/// longer than five characters among them) falls back to English.
pub proof fn lemma_api_languages(language: Seq<char>)
    ensures
        api_languages_spec("ja"@) == seq!["jp"@],
        api_languages_spec("ko"@) == seq!["kr"@],
        api_languages_spec("is"@) == seq!["ib"@, "ib-is"@, "is"@],
        api_languages_spec("pt-BR"@) == seq!["pt-br"@, "pt-pt"@],
        api_languages_spec("en"@) == seq!["en"@],
        language.len() > 5 ==> api_languages_spec(language) == seq!["en"@],
{
    reveal_strlit("ca");
    reveal_strlit("es");
    reveal_strlit("it");
    reveal_strlit("is");
    reveal_strlit("ja");
    reveal_strlit("ko");
    reveal_strlit("kn");
    reveal_strlit("ml");
    reveal_strlit("nl");
    reveal_strlit("pt-BR");
    reveal_strlit("sr");
    reveal_strlit("th");
    reveal_strlit("zh");
    reveal_strlit("en");
    assert("ja"@[0] == 'j' && "ko"@[0] == 'k');
    assert("ca"@[0] == 'c' && "es"@[0] == 'e' && "it"@[0] == 'i' && "is"@[0] == 'i');
    assert("ja"@ != "ca"@ && "ja"@ != "es"@ && "ja"@ != "it"@ && "ja"@ != "is"@);
    assert("ko"@ != "ca"@ && "ko"@ != "es"@ && "ko"@ != "it"@ && "ko"@ != "is"@ && "ko"@ != "ja"@);
    assert("is"@[1] != "it"@[1]);
    assert("is"@ != "ca"@ && "is"@ != "es"@ && "is"@ != "it"@);
    assert("pt-BR"@.len() == 5);
    assert("ca"@.len() == 2 && "es"@.len() == 2 && "it"@.len() == 2 && "is"@.len() == 2 && "ja"@.len()
        == 2 && "ko"@.len() == 2 && "kn"@.len() == 2 && "ml"@.len() == 2 && "nl"@.len() == 2
        && "sr"@.len() == 2 && "th"@.len() == 2 && "zh"@.len() == 2 && "en"@.len() == 2);
    assert("en"@[0] == 'e' && "en"@[1] == 'n' && "es"@[1] == 's');
    assert("kn"@[0] == 'k' && "ml"@[0] == 'm' && "nl"@[0] == 'n' && "sr"@[0] == 's' && "th"@[0] == 't'
        && "zh"@[0] == 'z');
    assert("en"@ != "ca"@ && "en"@ != "es"@ && "en"@ != "it"@ && "en"@ != "is"@ && "en"@ != "ja"@
        && "en"@ != "ko"@ && "en"@ != "kn"@ && "en"@ != "ml"@ && "en"@ != "nl"@ && "en"@ != "pt-BR"@
        && "en"@ != "sr"@ && "en"@ != "th"@ && "en"@ != "zh"@);
    let singles = single_code_languages();
    assert(singles[7] == "en"@);
    assert(singles.contains("en"@));
    if language.len() > 5 {
        assert(!singles.contains(language)) by {
            if singles.contains(language) {
                let k = choose|k: int| 0 <= k < singles.len() && singles[k] == language;
                reveal_strlit("ar");
                reveal_strlit("bg");
                reveal_strlit("bn");
                reveal_strlit("cs");
                reveal_strlit("da");
                reveal_strlit("de");
                reveal_strlit("el");
                reveal_strlit("fa");
                reveal_strlit("fi");
                reveal_strlit("fr");
                reveal_strlit("he");
                reveal_strlit("hi");
                reveal_strlit("hu");
                reveal_strlit("id");
                reveal_strlit("ms");
                reveal_strlit("ne");
                reveal_strlit("no");
                reveal_strlit("pl");
                reveal_strlit("ro");
                reveal_strlit("ru");
                reveal_strlit("sk");
                reveal_strlit("sl");
                reveal_strlit("sq");
                reveal_strlit("sv");
                reveal_strlit("ta");
                reveal_strlit("tr");
                reveal_strlit("uk");
                reveal_strlit("vi");
                assert(singles[k].len() == 2);
            }
        }
    }
}

pub fn api_languages(language: &str) -> (r: Vec<&'static str>)
    ensures
        strs_view(r@) == api_languages_spec(language@),
{
    let l = chars_of(language);
    let l = l.as_slice();
    let table: [(&'static str, &'static [&'static str]); 13] = [
        ("ca", &["ca", "ca-ad", "ca-es", "ca-fr", "ca-it", "ca-pt"]),
        ("es", &["es", "es-ar", "es-mx", "es-es", "es-la", "es-419"]),
        ("it", &["it", "it-it"]),
        ("is", &["ib", "ib-is", "is"]),
        ("ja", &["jp"]),
        ("ko", &["kr"]),
        ("kn", &["kn", "kn-in", "kn-my", "kn-sg", "kn-tw"]),
        ("ml", &["ml", "ml-in", "ml-my", "ml-sg", "ml-tw"]),
        ("nl", &["nl", "nl-be"]),
        ("pt-BR", &["pt-br", "pt-pt"]),
        ("sr", &["sr", "sr-cyrl"]),
        ("th", &["th", "th-hk", "th-kh", "th-la", "th-my", "th-sg"]),
        ("zh", &["zh", "zh-cn", "zh-hk", "zh-mo", "zh-sg", "zh-tw"]),
    ];
    let single: [&'static str; 29] = [
        "ar", "bg", "bn", "cs", "da", "de", "el", "en", "fa", "fi", "fr", "he", "hi", "hu", "id",
        "ms", "ne", "no", "pl", "ro", "ru", "sk", "sl", "sq", "sv", "ta", "tr", "uk", "vi",
    ];
    let mut out: Vec<&'static str> = Vec::new();
    if lit_eq(l, "ca") {
        out.push("ca"); out.push("ca-ad"); out.push("ca-es"); out.push("ca-fr"); out.push("ca-it"); out.push("ca-pt");
    } else if lit_eq(l, "es") {
        out.push("es"); out.push("es-ar"); out.push("es-mx"); out.push("es-es"); out.push("es-la"); out.push("es-419");
    } else if lit_eq(l, "it") {
        out.push("it"); out.push("it-it");
    } else if lit_eq(l, "is") {
        out.push("ib"); out.push("ib-is"); out.push("is");
    } else if lit_eq(l, "ja") {
        out.push("jp");
    } else if lit_eq(l, "ko") {
        out.push("kr");
    } else if lit_eq(l, "kn") {
        out.push("kn"); out.push("kn-in"); out.push("kn-my"); out.push("kn-sg"); out.push("kn-tw");
    } else if lit_eq(l, "ml") {
        out.push("ml"); out.push("ml-in"); out.push("ml-my"); out.push("ml-sg"); out.push("ml-tw");
    } else if lit_eq(l, "nl") {
        out.push("nl"); out.push("nl-be");
    } else if lit_eq(l, "pt-BR") {
        out.push("pt-br"); out.push("pt-pt");
    } else if lit_eq(l, "sr") {
        out.push("sr"); out.push("sr-cyrl");
    } else if lit_eq(l, "th") {
        out.push("th"); out.push("th-hk"); out.push("th-kh"); out.push("th-la"); out.push("th-my"); out.push("th-sg");
    } else if lit_eq(l, "zh") {
        out.push("zh"); out.push("zh-cn"); out.push("zh-hk"); out.push("zh-mo"); out.push("zh-sg"); out.push("zh-tw");
    } else {
        assert(strs_view(single@) =~= single_code_languages());
        let found = crate::text::find_lit(l, &single);
        match found {
            Some(code) => {
                out.push(code);
            },
            None => {
                out.push("en");
            },
        }
    }
    assert(strs_view(out@) =~= api_languages_spec(language@));
    out
}

pub open spec fn status_spec(status: Seq<char>) -> MangaStatus {
    let t = trim(status);
    if t == "Ongoing"@ {
        MangaStatus::Ongoing
    } else if t == "Completed"@ {
        MangaStatus::Completed
    } else if t == "Hiatus"@ || t == "On Hold"@ {
        MangaStatus::Hiatus
    } else if t == "Cancelled"@ {
        MangaStatus::Cancelled
    } else {
        MangaStatus::Unknown
    }
}

/// A status badge reads, trimmed, as what it names: "Ongoing" as ongoing,
/// "Completed" as completed, "Hiatus" or "On Hold" as on hiatus,
/// "Cancelled" as cancelled.
pub proof fn lemma_status_names(status: Seq<char>)
    ensures
        trim(status) == "Ongoing"@ ==> status_spec(status) == MangaStatus::Ongoing,
        trim(status) == "Completed"@ ==> status_spec(status) == MangaStatus::Completed,
        trim(status) == "Hiatus"@ || trim(status) == "On Hold"@ ==> status_spec(status) == MangaStatus::Hiatus,
        trim(status) == "Cancelled"@ ==> status_spec(status) == MangaStatus::Cancelled,
{
    reveal_strlit("Ongoing");
    reveal_strlit("Completed");
    reveal_strlit("Hiatus");
    reveal_strlit("On Hold");
    reveal_strlit("Cancelled");
    assert("Ongoing"@.len() == 7 && "Completed"@.len() == 9 && "Hiatus"@.len() == 6);
    assert("On Hold"@.len() == 7 && "Cancelled"@.len() == 9);
    assert("On Hold"@[2] != "Ongoing"@[2]);
    assert("Cancelled"@[1] != "Completed"@[1]);
}

pub fn parse_status(status: &str) -> (r: MangaStatus)
    ensures
        r == status_spec(status@),
{
    let t = trim_exec(chars_of(status).as_slice());
    let t = t.as_slice();
    if lit_eq(t, "Ongoing") {
        MangaStatus::Ongoing
    } else if lit_eq(t, "Completed") {
        MangaStatus::Completed
    } else if lit_eq(t, "Hiatus") || lit_eq(t, "On Hold") {
        MangaStatus::Hiatus
    } else if lit_eq(t, "Cancelled") {
        MangaStatus::Cancelled
    } else {
        MangaStatus::Unknown
    }
}

/// The reader tags imply: a Korean or Chinese title reads as a webtoon.
pub open spec fn viewer_for(tags: Seq<Seq<char>>) -> Viewer {
    if has_any(tags, seq!["Manhwa"@, "Manhua"@]) {
        Viewer::Webtoon
    } else {
        Viewer::RightToLeft
    }
}

/// The rating tags imply: adult tags first, then suggestive ones.
pub open spec fn rating_for(tags: Seq<Seq<char>>) -> ContentRating {
    if has_any(tags, seq!["Adult"@, "Hentai"@, "Smut"@, "Manhwa 18+"@]) {
        ContentRating::NSFW
    } else if has_any(tags, seq!["Ecchi"@, "Mature"@]) {
        ContentRating::Suggestive
    } else {
        ContentRating::Safe
    }
}

/// A "Manhwa" or "Manhua" tag makes a title read as a webtoon wherever it
/// stands, and a title without one reads right to left; "Adult", "Hentai",
/// "Smut" or "Manhwa 18+" make it NSFW; "Ecchi" or "Mature" at least
/// suggestive.
pub proof fn lemma_tag_words(before: Seq<Seq<char>>, t: Seq<char>, after: Seq<Seq<char>>, all: Seq<Seq<char>>)
    requires
        all == before + seq![t] + after,
    ensures
        t == "Manhwa"@ || t == "Manhua"@ ==> viewer_for(all) == Viewer::Webtoon,
        (forall|i: int| 0 <= i < all.len() ==> all[i] != "Manhwa"@ && all[i] != "Manhua"@) ==> viewer_for(all)
            == Viewer::RightToLeft,
        t == "Adult"@ || t == "Hentai"@ || t == "Smut"@ || t == "Manhwa 18+"@ ==> rating_for(all)
            == ContentRating::NSFW,
        t == "Ecchi"@ || t == "Mature"@ ==> rating_for(all) != ContentRating::Safe,
{
    assert(all[before.len() as int] == t);
    assert(seq!["Manhwa"@, "Manhua"@][0] == "Manhwa"@ && seq!["Manhwa"@, "Manhua"@][1] == "Manhua"@);
    let n = seq!["Adult"@, "Hentai"@, "Smut"@, "Manhwa 18+"@];
    assert(n[0] == "Adult"@ && n[1] == "Hentai"@ && n[2] == "Smut"@ && n[3] == "Manhwa 18+"@);
    assert(seq!["Ecchi"@, "Mature"@][0] == "Ecchi"@ && seq!["Ecchi"@, "Mature"@][1] == "Mature"@);
}

pub fn parse_viewer(tags: &[String]) -> (r: Viewer)
    ensures
        r == viewer_for(views(tags@)),
{
    let options: [&str; 2] = ["Manhwa", "Manhua"];
    assert(strs_view(options@) =~= seq!["Manhwa"@, "Manhua"@]);
    if any_one_of(tags, &options) {
        Viewer::Webtoon
    } else {
        Viewer::RightToLeft
    }
}

pub fn parse_content_rating(tags: &[String]) -> (r: ContentRating)
    ensures
        r == rating_for(views(tags@)),
{
    let nsfw: [&str; 4] = ["Adult", "Hentai", "Smut", "Manhwa 18+"];
    let suggestive: [&str; 2] = ["Ecchi", "Mature"];
    assert(strs_view(nsfw@) =~= seq!["Adult"@, "Hentai"@, "Smut"@, "Manhwa 18+"@]);
    assert(strs_view(suggestive@) =~= seq!["Ecchi"@, "Mature"@]);
    if any_one_of(tags, &nsfw) {
        ContentRating::NSFW
    } else if any_one_of(tags, &suggestive) {
        ContentRating::Suggestive
    } else {
        ContentRating::Safe
    }
}

/// A MongoDB object id: 24 hex digits.
pub open spec fn is_object_id_spec(value: Seq<char>) -> bool {
    value.len() == 24 && forall|i: int| 0 <= i < value.len() ==> is_ascii_hexdigit(#[trigger] value[i])
}

pub fn is_object_id(value: &str) -> (r: bool)
    ensures
        r == is_object_id_spec(value@),
{
    let v = chars_of(value);
    if v.len() != 24 {
        return false;
    }
    let mut i: usize = 0;
    while i < v.len()
        invariant
            i <= v@.len(),
            v@ == value@,
            forall|j: int| 0 <= j < i ==> is_ascii_hexdigit(#[trigger] v@[j]),
        decreases v@.len() - i,
    {
        let c = v[i];
        if !(('0' <= c && c <= '9') || ('a' <= c && c <= 'f') || ('A' <= c && c <= 'F')) {
            return false;
        }
        i = i + 1;
    }
    true
}

/// The key in a `/title-detail/<key>/` url: the first non-empty segment after
/// the marker.
pub open spec fn manga_key_spec(url: Seq<char>) -> Option<Seq<char>> {
    match find(url, "/title-detail/"@) {
        Some(i) => {
            let ps = pieces(url.subrange(i + 14, url.len() as int), '/');
            if ps.len() > 0 {
                Some(ps[0])
            } else {
                None
            }
        },
        None => None,
    }
}

pub fn manga_key(url: &str) -> (r: Option<String>)
    ensures
        crate::atsumaru::opt_string_view(r) == manga_key_spec(url@),
{
    let u = chars_of(url);
    let marker = chars_of("/title-detail/");
    assert(marker@.len() == 14) by {
        reveal_strlit("/title-detail/");
    }
    match find_exec(u.as_slice(), marker.as_slice()) {
        Some(i) => {
            assert(i + 14 <= u@.len());
            assert(u@.len() == u.len());
            let rest = slice_to_vec(u.as_slice(), i + 14, u.len());
            let ps = pieces_exec(rest.as_slice(), '/');
            if ps.len() > 0 {
                assert(ps@[0]@ == ps@.map_values(|v: Vec<char>| v@)[0]);
                Some(string_of(ps[0].as_slice()))
            } else {
                None
            }
        },
        None => None,
    }
}

/// A chapter's title: the volume when there is one, then the name, which
/// is prefixed by the chapter number unless it already holds it.
pub open spec fn chapter_title_spec(name: Seq<char>, number: Seq<char>, volume: Option<Seq<char>>) -> Seq<char> {
    let vol = match volume {
        Some(v) => "Vol. "@ + v + " "@,
        None => Seq::empty(),
    };
    let main = if contains(name, number) {
        trim(name)
    } else if trim(name).len() == 0 {
        "Ch. "@ + number
    } else {
        "Ch. "@ + number + " "@ + trim(name)
    };
    vol + main
}

/// The scanlation group label: its name, with the id in brackets when the
/// id is a readable one rather than an object id.
pub open spec fn group_spec(name: Seq<char>, id: Seq<char>) -> Seq<char> {
    if id.len() > 0 && !is_object_id_spec(id) {
        if name.len() > 0 {
            name + " ("@ + id + ")"@
        } else {
            id
        }
    } else {
        name
    }
}

/// One translation of a chapter, as the chapter list gives it. `number` and
/// `volume` are the numbers as the website writes them (`volume` only when
/// it is above zero).
pub struct ChapterTranslation {
    pub id: String,
    pub name: String,
    pub language: String,
    pub group_id: String,
    pub group_name: String,
    pub date: Option<i64>,
}

pub fn chapter_url(key: &str) -> (r: String)
    ensures
        r@ == BASE_URL@ + "/chapter-detail/"@ + key@ + "/"@,
{
    let mut out = chars_of(BASE_URL);
    push_str(&mut out, "/chapter-detail/");
    push_str(&mut out, key);
    push_str(&mut out, "/");
    string_of(out.as_slice())
}

pub fn manga_url(key: &str) -> (r: String)
    ensures
        r@ == BASE_URL@ + "/title-detail/"@ + key@ + "/"@,
{
    let mut out = chars_of(BASE_URL);
    push_str(&mut out, "/title-detail/");
    push_str(&mut out, key);
    push_str(&mut out, "/");
    string_of(out.as_slice())
}

impl ChapterTranslation {
    /// The chapter as the app shows it, given its number and, where it has
    /// a positive one, its volume, each as the text they are displayed with.
    pub fn into_chapter(self, number: &str, volume: Option<&str>) -> (c: Chapter)
        ensures
            c.key@ == self.id@,
            c.title == Some(c.title->0) && c.title->0@ == chapter_title_spec(
                self.name@,
                number@,
                crate::atsumaru::opt_view(volume),
            ),
            c.number matches Some(n) && n@ == number@,
            crate::model::opt_string(c.volume) == crate::atsumaru::opt_view(volume),
            c.date_uploaded == self.date,
            opt_strings(c.scanlators) == if group_spec(self.group_name@, self.group_id@).len() > 0 {
                Some(seq![group_spec(self.group_name@, self.group_id@)])
            } else {
                None
            },
            c.url matches Some(u) && u@ == BASE_URL@ + "/chapter-detail/"@ + self.id@ + "/"@,
            c.language matches Some(l) && l@ == self.language@,
    {
        let name = chars_of(self.name.as_str());
        let num = chars_of(number);
        let mut title: Vec<char> = Vec::new();
        match volume {
            Some(v) => {
                push_str(&mut title, "Vol. ");
                push_str(&mut title, v);
                push_str(&mut title, " ");
            },
            None => {},
        }
        let trimmed = trim_exec(name.as_slice());
        if contains_exec(name.as_slice(), num.as_slice()) {
            push_slice(&mut title, trimmed.as_slice());
        } else if trimmed.len() == 0 {
            push_str(&mut title, "Ch. ");
            push_slice(&mut title, num.as_slice());
        } else {
            push_str(&mut title, "Ch. ");
            push_slice(&mut title, num.as_slice());
            push_str(&mut title, " ");
            push_slice(&mut title, trimmed.as_slice());
        }
        assert(title@ =~= chapter_title_spec(self.name@, number@, crate::atsumaru::opt_view(volume)));

        let gid = chars_of(self.group_id.as_str());
        let gname = chars_of(self.group_name.as_str());
        let mut group: Vec<char> = Vec::new();
        if gid.len() > 0 && !is_object_id(self.group_id.as_str()) {
            if gname.len() > 0 {
                push_slice(&mut group, gname.as_slice());
                push_str(&mut group, " (");
                push_slice(&mut group, gid.as_slice());
                push_str(&mut group, ")");
            } else {
                push_slice(&mut group, gid.as_slice());
            }
        } else {
            push_slice(&mut group, gname.as_slice());
        }
        assert(group@ =~= group_spec(self.group_name@, self.group_id@));
        let scanlators = if group.len() > 0 {
            let mut v: Vec<String> = Vec::new();
            v.push(string_of(group.as_slice()));
            assert(v@.map_values(|s: String| s@) =~= seq![group@]);
            Some(v)
        } else {
            None
        };
        let url = chapter_url(self.id.as_str());
        let vol = match volume {
            Some(v) => Some(string_of(chars_of(v).as_slice())),
            None => None,
        };
        Chapter {
            key: self.id,
            title: Some(string_of(title.as_slice())),
            number: Some(string_of(num.as_slice())),
            volume: vol,
            date_uploaded: self.date,
            scanlators,
            url: Some(url),
            language: Some(self.language),
        }
    }
}

/// Paging of the search results.
pub struct Pagination {
    pub current_page: i32,
    pub last_page: i32,
}

/// More results follow while the current page is before the last one.
pub fn has_next_page(pagination: Option<Pagination>) -> (r: bool)
    ensures
        r == (pagination matches Some(p) && p.current_page < p.last_page),
{
    match pagination {
        Some(p) => p.current_page < p.last_page,
        None => false,
    }
}

/// A search result: the address of its page, its name and its cover.
pub struct SearchManga {
    pub url: String,
    pub name: String,
    pub cover: Option<String>,
}

/// The key of a search result: the one its address names, else the whole
/// address.
pub open spec fn search_key_spec(url: Seq<char>) -> Seq<char> {
    match manga_key_spec(url) {
        Some(k) => k,
        None => url,
    }
}

/// A search result as a manga, keyed by the id in its address.
pub fn search_manga(value: &SearchManga) -> (m: Manga)
    ensures
        m.key@ == search_key_spec(value.url@),
        m.title@ == value.name@,
        crate::model::opt_string(m.url) == Some(BASE_URL@ + "/title-detail/"@ + search_key_spec(
            value.url@,
        ) + "/"@),
        crate::model::opt_string(m.cover) == crate::model::opt_string(value.cover),
        m.artists is None,
        m.authors is None,
        m.description is None,
        m.tags is None,
        m.status == MangaStatus::Unknown,
        m.content_rating == ContentRating::Unknown,
        m.viewer == Viewer::Unknown,
{
    let key = match manga_key(value.url.as_str()) {
        Some(k) => k,
        None => string_of(chars_of(value.url.as_str()).as_slice()),
    };
    let url = manga_url(key.as_str());
    let mut m = Manga::new(key, string_of(chars_of(value.name.as_str()).as_slice()));
    m.url = Some(url);
    m.cover = match &value.cover {
        Some(c) => Some(string_of(chars_of(c.as_str()).as_slice())),
        None => None,
    };
    m
}

/// Where a MangaBall link leads: a manga, or a chapter whose page has to be
/// read to learn the manga it belongs to.
#[derive(Debug, Clone, PartialEq, Eq)]
pub enum LinkTarget {
    Manga(String),
    ChapterPage(String),
}

pub open spec fn link_target_spec(url: Seq<char>) -> Option<(bool, Seq<char>)> {
    match strip_prefix(url, BASE_URL@) {
        None => None,
        Some(p) => {
            let segs = pieces(before_any(p, '?', '#'), '/');
            if segs.len() >= 2 && segs[0] == "title-detail"@ {
                Some((true, segs[1]))
            } else if segs.len() >= 2 && segs[0] == "chapter-detail"@ {
                Some((false, segs[1]))
            } else {
                None
            }
        },
    }
}

/// A title page `/title-detail/<key>` on the site links to that title, and
/// a chapter page `/chapter-detail/<id>` to that chapter, whatever follows
/// a further `/`; links to other sites lead nowhere.
pub proof fn lemma_link_targets(key: Seq<char>, tail: Seq<char>, url: Seq<char>)
    requires
        key.len() > 0,
        forall|j: int| 0 <= j < key.len() ==> key[j] != '/' && key[j] != '?' && key[j] != '#',
        forall|j: int| 0 <= j < tail.len() ==> tail[j] != '?' && tail[j] != '#',
        tail.len() == 0 || tail[0] == '/',
    ensures
        link_target_spec(BASE_URL@ + "/title-detail/"@ + key + tail) == Some((true, key)),
        link_target_spec(BASE_URL@ + "/chapter-detail/"@ + key + tail) == Some((false, key)),
        !crate::text::starts_with(url, BASE_URL@) ==> link_target_spec(url) is None,
{
    reveal_strlit("/title-detail/");
    reveal_strlit("/chapter-detail/");
    reveal_strlit("title-detail");
    reveal_strlit("chapter-detail");
    let b = BASE_URL@;
    let w1 = "title-detail"@;
    let w2 = "chapter-detail"@;
    assert forall|j: int| 0 <= j < w1.len() implies w1[j] != '/' && w1[j] != '?' && w1[j] != '#' by {}
    assert forall|j: int| 0 <= j < w2.len() implies w2[j] != '/' && w2[j] != '?' && w2[j] != '#' by {}
    assert(w1 != w2) by {
        assert(w1.len() != w2.len());
    }
    let rest = key + tail;
    let p1 = seq!['/'] + (w1 + (seq!['/'] + rest));
    let p2 = seq!['/'] + (w2 + (seq!['/'] + rest));
    assert(p1 =~= "/title-detail/"@ + key + tail);
    assert(p2 =~= "/chapter-detail/"@ + key + tail);
    let u1 = b + p1;
    let u2 = b + p2;
    assert(u1 =~= BASE_URL@ + "/title-detail/"@ + key + tail);
    assert(u2 =~= BASE_URL@ + "/chapter-detail/"@ + key + tail);
    assert(u1.subrange(0, b.len() as int) =~= b);
    assert(u1.subrange(b.len() as int, u1.len() as int) =~= p1);
    assert(u2.subrange(0, b.len() as int) =~= b);
    assert(u2.subrange(b.len() as int, u2.len() as int) =~= p2);
    assert forall|j: int| 0 <= j < p1.len() implies p1[j] != '?' && p1[j] != '#' by {
        if j >= 1 + w1.len() + 1 + key.len() {
            assert(p1[j] == tail[j - 1 - w1.len() - 1 - key.len()]);
        } else if j >= 1 + w1.len() + 1 {
            assert(p1[j] == key[j - 1 - w1.len() - 1]);
        } else if j >= 1 && j < 1 + w1.len() {
            assert(p1[j] == w1[j - 1]);
        }
    }
    assert forall|j: int| 0 <= j < p2.len() implies p2[j] != '?' && p2[j] != '#' by {
        if j >= 1 + w2.len() + 1 + key.len() {
            assert(p2[j] == tail[j - 1 - w2.len() - 1 - key.len()]);
        } else if j >= 1 + w2.len() + 1 {
            assert(p2[j] == key[j - 1 - w2.len() - 1]);
        } else if j >= 1 && j < 1 + w2.len() {
            assert(p2[j] == w2[j - 1]);
        }
    }
    crate::text::lemma_before_any_plain(p1);
    crate::text::lemma_before_any_plain(p2);
    crate::text::lemma_pieces_sep(w1 + (seq!['/'] + rest), '/');
    crate::text::lemma_pieces_word(w1, seq!['/'] + rest, '/');
    crate::text::lemma_pieces_sep(w2 + (seq!['/'] + rest), '/');
    crate::text::lemma_pieces_word(w2, seq!['/'] + rest, '/');
    crate::text::lemma_pieces_sep(rest, '/');
    crate::text::lemma_pieces_word(key, tail, '/');
    assert(pieces(p1, '/') =~= seq![w1, key] + pieces(tail, '/'));
    assert(pieces(p2, '/') =~= seq![w2, key] + pieces(tail, '/'));
}

pub open spec fn target_view(t: Option<LinkTarget>) -> Option<(bool, Seq<char>)> {
    match t {
        Some(LinkTarget::Manga(k)) => Some((true, k@)),
        Some(LinkTarget::ChapterPage(k)) => Some((false, k@)),
        None => None,
    }
}

/// Classifies `/title-detail/<key>` and `/chapter-detail/<key>` links.
pub fn link_target(url: &str) -> (r: Option<LinkTarget>)
    ensures
        target_view(r) == link_target_spec(url@),
{
    let u = chars_of(url);
    let path = match strip_prefix_exec(u.as_slice(), BASE_URL) {
        Some(p) => p,
        None => return None,
    };
    let path = before_any_exec(path.as_slice(), '?', '#');
    let segs = pieces_exec(path.as_slice(), '/');
    let ghost sv = segs@.map_values(|v: Vec<char>| v@);
    if segs.len() >= 2 {
        assert(segs@[0]@ == sv[0]);
        assert(segs@[1]@ == sv[1]);
        if lit_eq(segs[0].as_slice(), "title-detail") {
            return Some(LinkTarget::Manga(string_of(segs[1].as_slice())));
        } else if lit_eq(segs[0].as_slice(), "chapter-detail") {
            return Some(LinkTarget::ChapterPage(string_of(segs[1].as_slice())));
        }
    }
    None
}

// ---------------------------------------------------------------------------
// Languages, details and chapter images
// ---------------------------------------------------------------------------

/// The api codes of the languages picked, in order; English when none are.
pub open spec fn selected_spec(picked: Seq<Seq<char>>) -> Seq<Seq<char>>
    decreases picked.len(),
{
    if picked.len() == 0 {
        Seq::empty()
    } else {
        selected_spec(picked.drop_last()) + api_languages_spec(picked.last())
    }
}

pub fn selected_languages(picked: Option<Vec<String>>) -> (r: Vec<String>)
    ensures
        views(r@) == selected_spec(match picked {
            Some(p) => if p@.len() > 0 {
                views(p@)
            } else {
                seq!["en"@]
            },
            None => seq!["en"@],
        }),
{
    let langs: Vec<String> = match picked {
        Some(p) => if p.len() > 0 {
            p
        } else {
            vec![String::from_str("en")]
        },
        None => vec![String::from_str("en")],
    };
    proof {
        reveal_strlit("en");
    }
    let ghost lv = views(langs@);
    assert(lv =~= (match picked {
        Some(p) => if p@.len() > 0 {
            views(p@)
        } else {
            seq!["en"@]
        },
        None => seq!["en"@],
    }));
    let mut out: Vec<String> = Vec::new();
    let mut i: usize = 0;
    assert(views(out@) =~= selected_spec(lv.take(0)));
    while i < langs.len()
        invariant
            i <= langs@.len(),
            lv == views(langs@),
            views(out@) == selected_spec(lv.take(i as int)),
        decreases langs@.len() - i,
    {
        assert(lv.take(i + 1).drop_last() =~= lv.take(i as int));
        assert(lv.take(i + 1).last() == langs@[i as int]@);
        let codes = api_languages(langs[i].as_str());
        let ghost start = views(out@);
        let mut k: usize = 0;
        while k < codes.len()
            invariant
                k <= codes@.len(),
                views(out@) == start + strs_view(codes@).subrange(0, k as int),
            decreases codes@.len() - k,
        {
            let ghost before = views(out@);
            out.push(string_of(chars_of(codes[k]).as_slice()));
            assert(strs_view(codes@)[k as int] == codes@[k as int]@);
            assert(views(out@) =~= before.push(codes@[k as int]@));
            assert(strs_view(codes@).subrange(0, k + 1) =~= strs_view(codes@).subrange(0, k as int).push(strs_view(codes@)[k as int]));
            k = k + 1;
        }
        assert(strs_view(codes@).subrange(0, codes@.len() as int) =~= strs_view(codes@));
        i = i + 1;
    }
    assert(lv.take(langs@.len() as int) =~= lv);
    out
}

/// The kind a country flag's address tells: Japanese manga, Korean
/// manhwa, Chinese manhua.
pub open spec fn flag_kind_spec(flag: Seq<char>) -> Option<Seq<char>> {
    if contains(flag, "jp"@) {
        Some("Manga"@)
    } else if contains(flag, "kr"@) {
        Some("Manhwa"@)
    } else if contains(flag, "cn"@) {
        Some("Manhua"@)
    } else {
        None
    }
}

pub fn flag_kind(flag: &str) -> (r: Option<&'static str>)
    ensures
        match r {
            Some(k) => flag_kind_spec(flag@) == Some(k@),
            None => flag_kind_spec(flag@) is None,
        },
{
    if crate::text::str_contains(flag, "jp") {
        Some("Manga")
    } else if crate::text::str_contains(flag, "kr") {
        Some("Manhwa")
    } else if crate::text::str_contains(flag, "cn") {
        Some("Manhua")
    } else {
        None
    }
}

/// The sections of a description: the synopsis (trimmed, when it holds
/// more than white space), the publication note, and the alternative names
/// as a list when there are any.
pub open spec fn description_sections(
    synopsis: Option<Seq<char>>,
    published: Option<Seq<char>>,
    names: Option<Seq<Seq<char>>>,
) -> Seq<Seq<char>> {
    (match synopsis {
        Some(d) => if trim(d).len() > 0 {
            seq![trim(d)]
        } else {
            Seq::empty()
        },
        None => Seq::empty(),
    }) + (match published {
        Some(p) => seq![p],
        None => Seq::empty(),
    }) + (match names {
        Some(ns) => if ns.len() > 0 {
            seq!["Alternative Names:\n- "@ + crate::text::join(ns, "\n- "@)]
        } else {
            Seq::empty()
        },
        None => Seq::empty(),
    })
}

/// A description from its sections, in paragraphs; none without any.
pub fn build_description(synopsis: Option<String>, published: Option<String>, names: Option<Vec<String>>) -> (r: Option<String>)
    ensures
        ({
            let ss = description_sections(
                crate::model::opt_string(synopsis),
                crate::model::opt_string(published),
                opt_strings(names),
            );
            crate::model::opt_string(r) == (if ss.len() > 0 {
                Some(crate::text::join(ss, "\n\n"@))
            } else {
                None
            })
        }),
{
    let ghost ss = description_sections(
        crate::model::opt_string(synopsis),
        crate::model::opt_string(published),
        opt_strings(names),
    );
    let mut sections: Vec<String> = Vec::new();
    match synopsis {
        Some(d) => {
            let t = trim_exec(chars_of(d.as_str()).as_slice());
            if t.len() > 0 {
                sections.push(string_of(t.as_slice()));
            }
        },
        None => {},
    }
    match published {
        Some(p) => sections.push(p),
        None => {},
    }
    match names {
        Some(ns) => if ns.len() > 0 {
            let mut v = chars_of("Alternative Names:\n- ");
            let j = crate::text::join_strings(ns.as_slice(), "\n- ");
            push_str(&mut v, j.as_str());
            proof {
                assert(views(ns@) == ns@.map_values(|s: String| s@));
            }
            sections.push(string_of(v.as_slice()));
        },
        None => {},
    }
    proof {
        assert(views(sections@) =~= ss);
    }
    if sections.len() > 0 {
        Some(crate::text::join_strings(sections.as_slice(), "\n\n"))
    } else {
        None
    }
}

/// The kind a flag tells, then the tags, as a title's tags; none without
/// any.
pub fn details_tags(flag: Option<String>, tags: Vec<String>) -> (r: Option<Vec<String>>)
    ensures
        opt_strings(r) == ({
            let all = (match flag {
                Some(f) => match flag_kind_spec(f@) {
                    Some(k) => seq![k],
                    None => Seq::empty(),
                },
                None => Seq::empty(),
            }) + views(tags@);
            if all.len() > 0 {
                Some(all)
            } else {
                None
            }
        }),
{
    let mut out: Vec<String> = Vec::new();
    match &flag {
        Some(f) => match flag_kind(f.as_str()) {
            Some(k) => out.push(string_of(chars_of(k).as_slice())),
            None => {},
        },
        None => {},
    }
    let ghost head = views(out@);
    let mut rest = tags;
    let ghost tv = views(rest@);
    let mut i: usize = 0;
    let n = rest.len();
    while i < n
        invariant
            n == rest@.len(),
            tv == views(rest@),
            i <= n,
            views(out@) == head + tv.subrange(0, i as int),
        decreases n - i,
    {
        let ghost before = views(out@);
        out.push(string_of(chars_of(rest[i].as_str()).as_slice()));
        assert(tv[i as int] == rest@[i as int]@);
        assert(views(out@) =~= before.push(tv[i as int]));
        assert(tv.subrange(0, i + 1) =~= tv.subrange(0, i as int).push(tv[i as int]));
        assert(views(out@) =~= head + tv.subrange(0, i + 1));
        i = i + 1;
    }
    assert(tv.subrange(0, n as int) =~= tv);
    if out.len() > 0 {
        Some(out)
    } else {
        None
    }
}

/// The tags a title's page gives: the kind its flag tells, then its tags.
pub open spec fn page_tags(flag: Option<String>, tags: Seq<String>) -> Seq<Seq<char>> {
    (match flag {
        Some(f) => match flag_kind_spec(f@) {
            Some(k) => seq![k],
            None => Seq::empty(),
        },
        None => Seq::empty(),
    }) + views(tags)
}

/// What a title's page shows, as read off it.
pub struct PageDetails {
    /// The heading's own text; a page without one holds no title.
    pub title: Option<String>,
    pub cover: Option<String>,
    /// The address of the flag of the title's country.
    pub flag: Option<String>,
    pub tags: Vec<String>,
    pub authors: Option<Vec<String>>,
    pub synopsis: Option<String>,
    pub published: Option<String>,
    pub alternative_names: Option<Vec<String>>,
    pub status: Option<String>,
}

/// A page that holds no title.
#[derive(Debug, Clone, Copy, PartialEq, Eq, Structural)]
pub enum DetailsError {
    TitleNotFound,
}

/// Fills in a manga from its page, keeping its key: title, cover, address,
/// tags, authors, description, status, and the reader and rating its tags
/// imply. A page without a title changes nothing and is refused.
pub fn fill_details(d: PageDetails, manga: &mut Manga) -> (r: Result<(), DetailsError>)
    ensures
        d.title is None <==> r is Err,
        d.title is None ==> *final(manga) == *old(manga),
        d.title matches Some(t) ==> {
            let tags = page_tags(d.flag, d.tags@);
            let ss = description_sections(
                crate::model::opt_string(d.synopsis),
                crate::model::opt_string(d.published),
                opt_strings(d.alternative_names),
            );
            &&& final(manga).key == old(manga).key
            &&& final(manga).title == t
            &&& final(manga).cover == d.cover
            &&& crate::model::opt_string(final(manga).url) == Some(BASE_URL@ + "/title-detail/"@
                + old(manga).key@ + "/"@)
            &&& opt_strings(final(manga).tags) == (if tags.len() > 0 {
                Some(tags)
            } else {
                None
            })
            &&& final(manga).authors == d.authors
            &&& crate::model::opt_string(final(manga).description) == (if ss.len() > 0 {
                Some(crate::text::join(ss, "\n\n"@))
            } else {
                None
            })
            &&& final(manga).status == (match d.status {
                Some(st) => status_spec(st@),
                None => MangaStatus::Unknown,
            })
            &&& final(manga).viewer == (if has_any(tags, seq!["Manhwa"@, "Manhua"@]) {
                Viewer::Webtoon
            } else {
                Viewer::RightToLeft
            })
            &&& final(manga).content_rating == (if has_any(
                tags,
                seq!["Adult"@, "Hentai"@, "Smut"@, "Manhwa 18+"@],
            ) {
                ContentRating::NSFW
            } else if has_any(tags, seq!["Ecchi"@, "Mature"@]) {
                ContentRating::Suggestive
            } else {
                ContentRating::Safe
            })
            &&& final(manga).artists == old(manga).artists
        },
{
    let PageDetails { title, cover, flag, tags, authors, synopsis, published, alternative_names, status } = d;
    let title = match title {
        Some(t) => t,
        None => return Err(DetailsError::TitleNotFound),
    };
    let ghost all = page_tags(flag, tags@);
    let tags = details_tags(flag, tags);
    let empty: Vec<String> = Vec::new();
    let (viewer, rating) = match &tags {
        Some(t) => (parse_viewer(t.as_slice()), parse_content_rating(t.as_slice())),
        None => {
            assert(all.len() == 0);
            assert(!has_any(all, seq!["Manhwa"@, "Manhua"@]));
            assert(!has_any(all, seq!["Adult"@, "Hentai"@, "Smut"@, "Manhwa 18+"@]));
            assert(!has_any(all, seq!["Ecchi"@, "Mature"@]));
            (parse_viewer(empty.as_slice()), parse_content_rating(empty.as_slice()))
        },
    };
    proof {
        assert(views(empty@) =~= Seq::<Seq<char>>::empty());
    }
    manga.title = title;
    manga.cover = cover;
    manga.url = Some(manga_url(manga.key.as_str()));
    manga.tags = tags;
    manga.authors = authors;
    manga.description = build_description(synopsis, published, alternative_names);
    manga.status = match status {
        Some(st) => parse_status(st.as_str()),
        None => MangaStatus::Unknown,
    };
    manga.viewer = viewer;
    manga.content_rating = rating;
    Ok(())
}

/// The image list a reader page's script holds: the text between
/// ``JSON.parse(` `` and the next `` `) ``, read as json.
pub open spec fn images_spec(script: Seq<char>) -> Option<Seq<Seq<char>>> {
    match crate::text::pattern_from(script, "JSON.parse(`"@, 0) {
        Some(i) => {
            let rest = script.subrange(i + 12, script.len() as int);
            match crate::text::pattern_from(rest, "`)"@, 0) {
                Some(j) => crate::json::json_string_list(rest.subrange(0, j)),
                None => None,
            }
        },
        None => None,
    }
}

/// The chapter's images; an error when the script holds no list that reads.
pub fn parse_chapter_images(script: &str) -> (r: Result<Vec<String>, ()>)
    ensures
        match r {
            Ok(v) => images_spec(script@) == Some(views(v@)),
            Err(_) => images_spec(script@) is None,
        },
{
    let s = chars_of(script);
    let open = chars_of("JSON.parse(`");
    let close = chars_of("`)");
    proof {
        reveal_strlit("JSON.parse(`");
        reveal_strlit("`)");
    }
    let i = match crate::text::pattern_from_exec(s.as_slice(), open.as_slice(), 0) {
        Some(i) => i,
        None => return Err(()),
    };
    proof {
        crate::text::lemma_pattern_from(s@, open@, 0);
    }
    let sl = s.len();
    let rest = slice_to_vec(s.as_slice(), i + 12, sl);
    let j = match crate::text::pattern_from_exec(rest.as_slice(), close.as_slice(), 0) {
        Some(j) => j,
        None => return Err(()),
    };
    proof {
        crate::text::lemma_pattern_from(rest@, close@, 0);
    }
    let json = string_of(slice_to_vec(rest.as_slice(), 0, j).as_slice());
    match crate::json::parse_string_list(json.as_str()) {
        Some(v) => Ok(v),
        None => Err(()),
    }
}

/// The title a chapter page belongs to, from the page address its data
/// names: `/title-detail/<key>/...` on the site.
pub open spec fn page_manga_key_spec(url: Seq<char>) -> Option<Seq<char>> {
    let path = match strip_prefix(url, BASE_URL@) {
        Some(p) => p,
        None => url,
    };
    let segs = pieces(path, '/');
    if segs.len() >= 2 && segs[0] == "title-detail"@ {
        Some(segs[1])
    } else {
        None
    }
}

pub fn page_manga_key(url: &str) -> (r: Option<String>)
    ensures
        crate::model::opt_string(r) == page_manga_key_spec(url@),
{
    let u = chars_of(url);
    let path = match strip_prefix_exec(u.as_slice(), BASE_URL) {
        Some(p) => p,
        None => u,
    };
    let segs = pieces_exec(path.as_slice(), '/');
    let ghost sv = segs@.map_values(|v: Vec<char>| v@);
    proof {
        assert(segs@.len() == sv.len());
        if segs@.len() >= 2 {
            assert(sv[0] == segs@[0]@);
            assert(sv[1] == segs@[1]@);
        }
    }
    if segs.len() >= 2 && lit_eq(segs[0].as_slice(), "title-detail") {
        Some(string_of(segs[1].as_slice()))
    } else {
        None
    }
}

/// The `url` of the first entry typed `WebPage`, as far as it is a string.
pub open spec fn webpage_url(entries: Seq<(Option<Seq<char>>, Option<Seq<char>>)>) -> Option<
    Option<Seq<char>>,
>
    decreases entries.len(),
{
    if entries.len() == 0 {
        None
    } else if entries[0].0 == Some("WebPage"@) {
        Some(entries[0].1)
    } else {
        webpage_url(entries.drop_first())
    }
}

/// The title a chapter page belongs to, read off the page's schema data:
/// the address of its `WebPage` entry.
pub open spec fn chapter_manga_key_spec(json: Seq<char>) -> Option<Seq<char>> {
    match crate::json::json_graph_entries(json) {
        Some(Some(entries)) => match webpage_url(entries) {
            Some(Some(url)) => page_manga_key_spec(url),
            _ => None,
        },
        _ => None,
    }
}

/// The title a chapter page belongs to, from the schema graph (JSON) the
/// page carries.
pub fn chapter_manga_key(json: &str) -> (r: Option<String>)
    ensures
        crate::model::opt_string(r) == chapter_manga_key_spec(json@),
{
    proof {
        reveal_strlit("WebPage");
    }
    let entries = match crate::json::graph_entries(json) {
        Some(Some(v)) => v,
        _ => return None,
    };
    let ghost ev = entries@.map_values(|e: (Option<String>, Option<String>)| (crate::model::opt_string(e.0), crate::model::opt_string(e.1)));
    let mut i: usize = 0;
    assert(ev.subrange(0, ev.len() as int) =~= ev);
    while i < entries.len()
        invariant
            i <= entries@.len(),
            ev == entries@.map_values(|e: (Option<String>, Option<String>)| (crate::model::opt_string(e.0), crate::model::opt_string(e.1))),
            webpage_url(ev) == webpage_url(ev.subrange(i as int, ev.len() as int)),
            crate::json::json_graph_entries(json@) == Some(Some(ev)),
        decreases entries@.len() - i,
    {
        let ghost rest = ev.subrange(i as int, ev.len() as int);
        assert(rest[0] == ev[i as int]);
        assert(ev[i as int] == (crate::model::opt_string(entries@[i as int].0), crate::model::opt_string(entries@[i as int].1)));
        let is_page = match &entries[i].0 {
            Some(t) => crate::text::str_eq(t.as_str(), "WebPage"),
            None => false,
        };
        if is_page {
            assert(webpage_url(rest) == Some(rest[0].1));
            return match &entries[i].1 {
                Some(u) => page_manga_key(u.as_str()),
                None => None,
            };
        }
        assert(rest.drop_first() =~= ev.subrange(i + 1, ev.len() as int));
        i = i + 1;
    }
    None
}

// ---------------------------------------------------------------------------
// Search
// ---------------------------------------------------------------------------

pub open spec fn sort_spec(index: i32) -> Seq<char> {
    if index == 1 {
        "updated_chapters_asc"@
    } else if index == 2 {
        "created_at_desc"@
    } else if index == 3 {
        "created_at_asc"@
    } else if index == 4 {
        "name_asc"@
    } else if index == 5 {
        "name_desc"@
    } else if index == 6 {
        "views_desc"@
    } else if index == 7 {
        "views_asc"@
    } else {
        "updated_chapters_desc"@
    }
}

fn sort_exec(index: i32) -> (r: &'static str)
    ensures
        r@ == sort_spec(index),
{
    if index == 1 {
        "updated_chapters_asc"
    } else if index == 2 {
        "created_at_desc"
    } else if index == 3 {
        "created_at_asc"
    } else if index == 4 {
        "name_asc"
    } else if index == 5 {
        "name_desc"
    } else if index == 6 {
        "views_desc"
    } else if index == 7 {
        "views_asc"
    } else {
        "updated_chapters_desc"
    }
}

/// The order of the last sort filter; the latest updates first without one.
/// The sort options, in the order the filter lists them:
/// "updated_chapters_desc", "updated_chapters_asc", "created_at_desc",
/// "created_at_asc", "name_asc", "name_desc", "views_desc", "views_asc";
/// any other index sorts by "updated_chapters_desc".
pub proof fn lemma_sort_keys(index: i32)
    ensures
        sort_spec(0i32) == "updated_chapters_desc"@,
        sort_spec(1i32) == "updated_chapters_asc"@,
        sort_spec(2i32) == "created_at_desc"@,
        sort_spec(3i32) == "created_at_asc"@,
        sort_spec(4i32) == "name_asc"@,
        sort_spec(5i32) == "name_desc"@,
        sort_spec(6i32) == "views_desc"@,
        sort_spec(7i32) == "views_asc"@,
        (index < 0 || index >= 8) ==> sort_spec(index) == "updated_chapters_desc"@,
{
    reveal_strlit("created_at_asc");
    reveal_strlit("created_at_desc");
    reveal_strlit("name_asc");
    reveal_strlit("name_desc");
    reveal_strlit("updated_chapters_asc");
    reveal_strlit("updated_chapters_desc");
    reveal_strlit("views_asc");
    reveal_strlit("views_desc");
}

pub open spec fn search_sort(fs: Seq<crate::model::FilterValue>) -> Seq<char>
    decreases fs.len(),
{
    if fs.len() == 0 {
        "updated_chapters_desc"@
    } else {
        match fs.last() {
            crate::model::FilterValue::Sort { index, .. } => sort_spec(index),
            _ => search_sort(fs.drop_last()),
        }
    }
}

/// The value of the last select with an id; the default without one.
pub open spec fn select_or(fs: Seq<crate::model::FilterValue>, name: Seq<char>, default: Seq<char>) -> Seq<char>
    decreases fs.len(),
{
    if fs.len() == 0 {
        default
    } else {
        match fs.last() {
            crate::model::FilterValue::Select { id, value } => if id@ == name {
                value@
            } else {
                select_or(fs.drop_last(), name, default)
            },
            _ => select_or(fs.drop_last(), name, default),
        }
    }
}

/// The tags every multi select includes (or excludes), in order.
pub open spec fn tag_ids(fs: Seq<crate::model::FilterValue>, included: bool) -> Seq<Seq<char>>
    decreases fs.len(),
{
    if fs.len() == 0 {
        Seq::empty()
    } else {
        match fs.last() {
            crate::model::FilterValue::MultiSelect { included: inc, excluded: exc, .. } => tag_ids(
                fs.drop_last(),
                included,
            ) + if included {
                views(inc@)
            } else {
                views(exc@)
            },
            _ => tag_ids(fs.drop_last(), included),
        }
    }
}

pub open spec fn form_param(name: Seq<char>, value: Seq<char>) -> (Seq<char>, Option<Seq<char>>) {
    (crate::url::encode_component(name), Some(crate::url::encode_component(value)))
}

pub open spec fn form_params(name: Seq<char>, values: Seq<Seq<char>>) -> Seq<(Seq<char>, Option<Seq<char>>)> {
    values.map_values(|v: Seq<char>| form_param(name, v))
}

/// The advanced search form: the query (trimmed), order and page, the tags
/// to include and exclude with their modes, the demographic and status
/// picked, and the languages read.
pub open spec fn search_form(
    query: Option<Seq<char>>,
    page: int,
    fs: Seq<crate::model::FilterValue>,
    languages: Seq<Seq<char>>,
) -> Seq<(Seq<char>, Option<Seq<char>>)> {
    seq![
        form_param("search_input"@, trim(match query {
            Some(q) => q,
            None => Seq::empty(),
        })),
        form_param("filters[sort]"@, search_sort(fs)),
        form_param("filters[page]"@, crate::text::dec_int(page)),
    ] + form_params("filters[tag_included_ids][]"@, tag_ids(fs, true)) + seq![
        form_param("filters[tag_included_mode]"@, select_or(fs, "include_mode"@, "and"@)),
    ] + form_params("filters[tag_excluded_ids][]"@, tag_ids(fs, false)) + seq![
        form_param("filters[tag_excluded_mode]"@, select_or(fs, "exclude_mode"@, "and"@)),
        form_param("filters[contentRating]"@, "any"@),
        form_param("filters[demographic]"@, select_or(fs, "demographic"@, "any"@)),
        form_param("filters[person]"@, "any"@),
        form_param("filters[publicationYear]"@, Seq::empty()),
        form_param("filters[publicationStatus]"@, select_or(fs, "status"@, "any"@)),
    ] + form_params("filters[translatedLanguage][]"@, languages)
}

fn push_values(qs: &mut crate::url::QueryParameters, name: &str, values: &Vec<String>)
    ensures
        final(qs)@ == old(qs)@ + form_params(name@, views(values@)),
{
    let ghost start = qs@;
    let ghost vs = views(values@);
    let mut k: usize = 0;
    assert(start + form_params(name@, vs.take(0)) =~= start);
    while k < values.len()
        invariant
            k <= values@.len(),
            vs == views(values@),
            qs@ == start + form_params(name@, vs.take(k as int)),
        decreases values@.len() - k,
    {
        qs.push(name, Some(values[k].as_str()));
        assert(form_params(name@, vs.take(k + 1)) =~= form_params(name@, vs.take(k as int)).push(form_param(name@, vs[k as int])));
        k = k + 1;
    }
    assert(vs.take(values@.len() as int) =~= vs);
}

/// The body of an advanced search, for the languages the user reads (see
/// `selected_languages`).
pub fn search_body(query: Option<&str>, page: i32, filters: &[crate::model::FilterValue], languages: &Vec<String>) -> (r: String)
    ensures
        r@ == crate::url::query_text(search_form(crate::atsumaru::opt_view(query), page as int, filters@, views(languages@))),
{
    let mut sort: &'static str = "updated_chapters_desc";
    let mut demographic = String::from_str("any");
    let mut status = String::from_str("any");
    let mut include_mode = String::from_str("and");
    let mut exclude_mode = String::from_str("and");
    let mut included: Vec<String> = Vec::new();
    let mut excluded: Vec<String> = Vec::new();
    proof {
        reveal_strlit("updated_chapters_desc");
        reveal_strlit("any");
        reveal_strlit("and");
    }
    let ghost fs = filters@;
    assert(fs.take(0) =~= Seq::<crate::model::FilterValue>::empty());
    assert(views(included@) =~= Seq::<Seq<char>>::empty());
    assert(views(excluded@) =~= Seq::<Seq<char>>::empty());
    let mut i: usize = 0;
    while i < filters.len()
        invariant
            i <= filters@.len(),
            fs == filters@,
            sort@ == search_sort(fs.take(i as int)),
            demographic@ == select_or(fs.take(i as int), "demographic"@, "any"@),
            status@ == select_or(fs.take(i as int), "status"@, "any"@),
            include_mode@ == select_or(fs.take(i as int), "include_mode"@, "and"@),
            exclude_mode@ == select_or(fs.take(i as int), "exclude_mode"@, "and"@),
            views(included@) == tag_ids(fs.take(i as int), true),
            views(excluded@) == tag_ids(fs.take(i as int), false),
        decreases filters@.len() - i,
    {
        assert(fs.take(i + 1).drop_last() =~= fs.take(i as int));
        match &filters[i] {
            crate::model::FilterValue::Sort { index, .. } => {
                sort = sort_exec(*index);
            },
            crate::model::FilterValue::Select { id, value } => {
                let id = id.as_str();
                if crate::text::str_eq(id, "demographic") {
                    demographic = string_of(chars_of(value.as_str()).as_slice());
                }
                if crate::text::str_eq(id, "status") {
                    status = string_of(chars_of(value.as_str()).as_slice());
                }
                if crate::text::str_eq(id, "include_mode") {
                    include_mode = string_of(chars_of(value.as_str()).as_slice());
                }
                if crate::text::str_eq(id, "exclude_mode") {
                    exclude_mode = string_of(chars_of(value.as_str()).as_slice());
                }
            },
            crate::model::FilterValue::MultiSelect { included: inc, excluded: exc, .. } => {
                let ghost before_in = views(included@);
                let ghost before_ex = views(excluded@);
                let mut k: usize = 0;
                while k < inc.len()
                    invariant
                        k <= inc@.len(),
                        views(included@) == before_in + views(inc@).subrange(0, k as int),
                    decreases inc@.len() - k,
                {
                    let ghost b = views(included@);
                    included.push(string_of(chars_of(inc[k].as_str()).as_slice()));
                    assert(views(included@) =~= b.push(inc@[k as int]@));
                    assert(views(inc@).subrange(0, k + 1) =~= views(inc@).subrange(0, k as int).push(inc@[k as int]@));
                    k = k + 1;
                }
                assert(views(inc@).subrange(0, inc@.len() as int) =~= views(inc@));
                let mut k: usize = 0;
                while k < exc.len()
                    invariant
                        k <= exc@.len(),
                        views(excluded@) == before_ex + views(exc@).subrange(0, k as int),
                    decreases exc@.len() - k,
                {
                    let ghost b = views(excluded@);
                    excluded.push(string_of(chars_of(exc[k].as_str()).as_slice()));
                    assert(views(excluded@) =~= b.push(exc@[k as int]@));
                    assert(views(exc@).subrange(0, k + 1) =~= views(exc@).subrange(0, k as int).push(exc@[k as int]@));
                    k = k + 1;
                }
                assert(views(exc@).subrange(0, exc@.len() as int) =~= views(exc@));
            },
            _ => {},
        }
        i = i + 1;
    }
    assert(fs.take(filters@.len() as int) =~= fs);
    let q = match query {
        Some(q) => crate::text::trim_str(q),
        None => crate::text::trim_str(""),
    };
    let mut body = crate::url::QueryParameters::new();
    body.push("search_input", Some(q.as_str()));
    body.push("filters[sort]", Some(sort));
    let p = crate::text::i32_to_string(page);
    body.push("filters[page]", Some(p.as_str()));
    let ghost b0 = body@;
    push_values(&mut body, "filters[tag_included_ids][]", &included);
    body.push("filters[tag_included_mode]", Some(include_mode.as_str()));
    let ghost b1 = body@;
    push_values(&mut body, "filters[tag_excluded_ids][]", &excluded);
    body.push("filters[tag_excluded_mode]", Some(exclude_mode.as_str()));
    body.push("filters[contentRating]", Some("any"));
    body.push("filters[demographic]", Some(demographic.as_str()));
    body.push("filters[person]", Some("any"));
    body.push("filters[publicationYear]", Some(""));
    body.push("filters[publicationStatus]", Some(status.as_str()));
    let ghost b2 = body@;
    push_values(&mut body, "filters[translatedLanguage][]", languages);
    proof {
        reveal_strlit("");
        let qv = match crate::atsumaru::opt_view(query) {
            Some(x) => x,
            None => Seq::<char>::empty(),
        };
        assert(q@ == trim(qv)) by {
            if query is None {
                assert(""@ =~= Seq::<char>::empty());
            }
        }
        assert(body@ =~= search_form(crate::atsumaru::opt_view(query), page as int, filters@, views(languages@)));
    }
    body.to_query_string()
}

} // verus!
