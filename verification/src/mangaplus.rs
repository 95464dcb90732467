//! MANGA Plus: the records its api answers with (read from protobuf by the
//! app), what a failed answer says, titles as manga with their authors and
//! language, details with their status and description, and chapters.
//! Addresses are built on the site's address as the caller gives it.
use vstd::prelude::*;
use crate::model::{Chapter, ContentRating, Manga, MangaStatus, Viewer, opt_string, opt_strings};
use crate::text::{
    chars_of, contains, join, lowercase, push_slice, push_str, split, string_of, to_lowercase, trim,
    trim_exec, views,
};

verus! {

/// A title as the api describes it.
pub struct Title {
    pub title_id: i32,
    pub name: String,
    pub author: Option<String>,
    pub portrait_image_url: String,
    pub language_code: Option<i32>,
}

/// The languages titles are published in.
#[derive(Debug, Clone, Copy, PartialEq, Eq, Structural)]
pub enum Language {
    English,
    Spanish,
    French,
    Indonesian,
    BrazilianPortuguese,
    Russian,
    Thai,
    German,
    Vietnamese,
}

pub open spec fn language_spec(code: i32) -> Option<Language> {
    if code == 0 {
        Some(Language::English)
    } else if code == 1 {
        Some(Language::Spanish)
    } else if code == 2 {
        Some(Language::French)
    } else if code == 3 {
        Some(Language::Indonesian)
    } else if code == 4 {
        Some(Language::BrazilianPortuguese)
    } else if code == 5 {
        Some(Language::Russian)
    } else if code == 6 {
        Some(Language::Thai)
    } else if code == 7 {
        Some(Language::German)
    } else if code == 9 {
        Some(Language::Vietnamese)
    } else {
        None
    }
}

/// The site's language codes: English 0, Spanish 1, French 2, Indonesian 3,
/// Brazilian Portuguese 4, Russian 5, Thai 6, German 7, Vietnamese 9; every
/// other code names no language.
pub proof fn lemma_language_codes(code: i32)
    ensures
        code == 0 <==> language_spec(code) == Some(Language::English),
        code == 1 <==> language_spec(code) == Some(Language::Spanish),
        code == 2 <==> language_spec(code) == Some(Language::French),
        code == 3 <==> language_spec(code) == Some(Language::Indonesian),
        code == 4 <==> language_spec(code) == Some(Language::BrazilianPortuguese),
        code == 5 <==> language_spec(code) == Some(Language::Russian),
        code == 6 <==> language_spec(code) == Some(Language::Thai),
        code == 7 <==> language_spec(code) == Some(Language::German),
        code == 9 <==> language_spec(code) == Some(Language::Vietnamese),
        (code < 0 || code == 8 || code > 9) <==> language_spec(code) is None,
{
}

impl Title {
    /// The title's language, when its code names one.
    pub fn language(&self) -> (r: Option<Language>)
        ensures
            r == (match self.language_code {
                Some(c) => language_spec(c),
                None => None,
            }),
    {
        let c = match self.language_code {
            Some(c) => c,
            None => return None,
        };
        if c == 0 {
            Some(Language::English)
        } else if c == 1 {
            Some(Language::Spanish)
        } else if c == 2 {
            Some(Language::French)
        } else if c == 3 {
            Some(Language::Indonesian)
        } else if c == 4 {
            Some(Language::BrazilianPortuguese)
        } else if c == 5 {
            Some(Language::Russian)
        } else if c == 6 {
            Some(Language::Thai)
        } else if c == 7 {
            Some(Language::German)
        } else if c == 9 {
            Some(Language::Vietnamese)
        } else {
            None
        }
    }
}

/// The authors an author line names: its parts between `/` and `,`, each
/// trimmed (empty ones kept).
pub open spec fn authors_spec(line: Seq<char>) -> Seq<Seq<char>> {
    split(line.map_values(|c: char| if c == ',' { '/' } else { c }), '/').map_values(
        |p: Seq<char>| trim(p),
    )
}

pub fn split_authors(line: &str) -> (r: Vec<String>)
    ensures
        views(r@) == authors_spec(line@),
{
    let v = chars_of(line);
    let mut w: Vec<char> = Vec::new();
    let mut i: usize = 0;
    while i < v.len()
        invariant
            i <= v@.len(),
            w@ == v@.subrange(0, i as int).map_values(|c: char| if c == ',' { '/' } else { c }),
        decreases v@.len() - i,
    {
        let c = if v[i] == ',' {
            '/'
        } else {
            v[i]
        };
        w.push(c);
        assert(v@.subrange(0, i + 1).map_values(|c: char| if c == ',' { '/' } else { c }) =~= v@.subrange(0, i as int).map_values(|c: char| if c == ',' { '/' } else { c }).push(c));
        i = i + 1;
    }
    assert(v@.subrange(0, v@.len() as int) =~= v@);
    let parts = crate::text::split_exec(w.as_slice(), '/');
    let ghost pv = parts@.map_values(|x: Vec<char>| x@);
    let mut out: Vec<String> = Vec::new();
    let mut k: usize = 0;
    while k < parts.len()
        invariant
            k <= parts@.len(),
            pv == parts@.map_values(|x: Vec<char>| x@),
            views(out@) == pv.subrange(0, k as int).map_values(|p: Seq<char>| trim(p)),
        decreases parts@.len() - k,
    {
        out.push(string_of(trim_exec(parts[k].as_slice()).as_slice()));
        assert(pv[k as int] == parts@[k as int]@);
        assert(pv.subrange(0, k + 1).map_values(|p: Seq<char>| trim(p)) =~= pv.subrange(0, k as int).map_values(|p: Seq<char>| trim(p)).push(trim(pv[k as int])));
        assert(views(out@) =~= pv.subrange(0, k + 1).map_values(|p: Seq<char>| trim(p)));
        k = k + 1;
    }
    assert(pv.subrange(0, parts@.len() as int) =~= pv);
    out
}

/// A title as a manga: keyed by its id, with its name, portrait and
/// authors.
pub fn title_manga(t: Title) -> (r: Manga)
    ensures
        r.key@ == crate::text::dec_int(t.title_id as int),
        r.title == t.name,
        opt_string(r.cover) == Some(t.portrait_image_url@),
        opt_strings(r.authors) == (match t.author {
            Some(a) => Some(authors_spec(a@)),
            None => None,
        }),
        r.artists is None && r.description is None && r.url is None && r.tags is None,
        r.status == MangaStatus::Unknown,
        r.content_rating == ContentRating::Unknown,
        r.viewer == Viewer::Unknown,
{
    let Title { title_id, name, author, portrait_image_url, language_code } = t;
    let mut m = Manga::new(crate::text::i32_to_string(title_id), name);
    m.cover = Some(portrait_image_url);
    m.authors = match author {
        Some(a) => Some(split_authors(a.as_str())),
        None => None,
    };
    m
}

// ---------------------------------------------------------------------------
// Failed answers
// ---------------------------------------------------------------------------

/// What a failed answer says: the English popup's body, else the Spanish
/// one's.
pub fn error_body(english_popup: Option<String>, spanish_popup: Option<String>) -> (r: Option<String>)
    ensures
        r == (match english_popup {
            Some(b) => Some(b),
            None => spanish_popup,
        }),
{
    match english_popup {
        Some(b) => Some(b),
        None => spanish_popup,
    }
}

/// An answer's result, or the error it carries: its popup's body, else the
/// fallback message.
pub fn result_or_error<S>(success: Option<S>, error: Option<String>, fallback: &str) -> (r: Result<S, String>)
    ensures
        success matches Some(s) ==> r == Ok::<S, String>(s),
        success is None ==> (r matches Err(m) && m@ == (match error {
            Some(b) => b@,
            None => fallback@,
        })),
{
    match success {
        Some(s) => Ok(s),
        None => match error {
            Some(b) => Err(b),
            None => Err(string_of(chars_of(fallback).as_slice())),
        },
    }
}

// ---------------------------------------------------------------------------
// Details and chapters
// ---------------------------------------------------------------------------

/// A chapter as the api describes it.
pub struct MangaPlusChapter {
    pub chapter_id: i32,
    pub name: String,
    pub sub_title: Option<String>,
    pub start_time_stamp: i64,
}

/// A group of a title's chapters: the first ones and the last ones.
pub struct ChapterListGroup {
    pub first_chapter_list: Vec<MangaPlusChapter>,
    pub last_chapter_list: Vec<MangaPlusChapter>,
}

/// A title's details.
pub struct TitleDetailView {
    pub title: Title,
    pub overview: Option<String>,
    pub viewing_period_description: String,
    pub non_appearance_info: String,
    pub chapter_list_group: Vec<ChapterListGroup>,
}

/// The names of a title's chapters, group by group, first ones then last
/// ones.
pub open spec fn chapter_names(groups: Seq<ChapterListGroup>) -> Seq<Seq<char>>
    decreases groups.len(),
{
    if groups.len() == 0 {
        Seq::empty()
    } else {
        let g = groups.last();
        chapter_names(groups.drop_last()) + g.first_chapter_list@.map_values(|c: MangaPlusChapter| c.name@)
            + g.last_chapter_list@.map_values(|c: MangaPlusChapter| c.name@)
    }
}

/// A title whose only chapter is a one-shot.
pub open spec fn is_oneshot_spec(groups: Seq<ChapterListGroup>) -> bool {
    chapter_names(groups).len() == 1 && lowercase(chapter_names(groups)[0]) == "one-shot"@
}

pub open spec fn is_completed_spec(d: TitleDetailView) -> bool {
    contains(lowercase(d.non_appearance_info@), "complet"@) || is_oneshot_spec(d.chapter_list_group@)
        || contains(d.viewing_period_description@, "latest 0 chapters"@)
}

pub open spec fn is_on_hiatus_spec(d: TitleDetailView) -> bool {
    contains(lowercase(d.non_appearance_info@), "on a hiatus"@)
}

/// A title is completed when its notice mentions completion (in any case),
/// when it is a single one-shot, or when none of its latest chapters can be
/// read; it is on hiatus when its notice says it is on a hiatus.
pub proof fn lemma_status_notices(d: TitleDetailView)
    ensures
        contains(lowercase(d.non_appearance_info@), "complet"@) ==> is_completed_spec(d),
        contains(d.viewing_period_description@, "latest 0 chapters"@) ==> is_completed_spec(d),
        chapter_names(d.chapter_list_group@).len() == 1 && lowercase(
            chapter_names(d.chapter_list_group@)[0],
        ) == "one-shot"@ ==> is_completed_spec(d),
        !contains(lowercase(d.non_appearance_info@), "complet"@) && !is_oneshot_spec(
            d.chapter_list_group@,
        ) && !contains(d.viewing_period_description@, "latest 0 chapters"@) ==> !is_completed_spec(d),
        contains(lowercase(d.non_appearance_info@), "on a hiatus"@) <==> is_on_hiatus_spec(d),
{
}

fn chapter_names_exec(groups: &Vec<ChapterListGroup>) -> (r: Vec<String>)
    ensures
        views(r@) == chapter_names(groups@),
{
    let mut out: Vec<String> = Vec::new();
    let mut i: usize = 0;
    assert(views(out@) =~= chapter_names(groups@.take(0)));
    while i < groups.len()
        invariant
            i <= groups@.len(),
            views(out@) == chapter_names(groups@.take(i as int)),
        decreases groups@.len() - i,
    {
        assert(groups@.take(i + 1).drop_last() =~= groups@.take(i as int));
        assert(groups@.take(i + 1).last() == groups@[i as int]);
        let g = &groups[i];
        let ghost start = views(out@);
        let mut k: usize = 0;
        while k < g.first_chapter_list.len()
            invariant
                k <= g.first_chapter_list@.len(),
                views(out@) == start + g.first_chapter_list@.subrange(0, k as int).map_values(|c: MangaPlusChapter| c.name@),
            decreases g.first_chapter_list@.len() - k,
        {
            let ghost before = views(out@);
            out.push(string_of(chars_of(g.first_chapter_list[k].name.as_str()).as_slice()));
            assert(views(out@) =~= before.push(g.first_chapter_list@[k as int].name@));
            assert(g.first_chapter_list@.subrange(0, k + 1).map_values(|c: MangaPlusChapter| c.name@) =~= g.first_chapter_list@.subrange(0, k as int).map_values(|c: MangaPlusChapter| c.name@).push(g.first_chapter_list@[k as int].name@));
            assert(views(out@) =~= start + g.first_chapter_list@.subrange(0, k + 1).map_values(|c: MangaPlusChapter| c.name@));
            k = k + 1;
        }
        assert(g.first_chapter_list@.subrange(0, g.first_chapter_list@.len() as int) =~= g.first_chapter_list@);
        let ghost mid = views(out@);
        let mut k: usize = 0;
        while k < g.last_chapter_list.len()
            invariant
                k <= g.last_chapter_list@.len(),
                views(out@) == mid + g.last_chapter_list@.subrange(0, k as int).map_values(|c: MangaPlusChapter| c.name@),
            decreases g.last_chapter_list@.len() - k,
        {
            let ghost before = views(out@);
            out.push(string_of(chars_of(g.last_chapter_list[k].name.as_str()).as_slice()));
            assert(views(out@) =~= before.push(g.last_chapter_list@[k as int].name@));
            assert(g.last_chapter_list@.subrange(0, k + 1).map_values(|c: MangaPlusChapter| c.name@) =~= g.last_chapter_list@.subrange(0, k as int).map_values(|c: MangaPlusChapter| c.name@).push(g.last_chapter_list@[k as int].name@));
            assert(views(out@) =~= mid + g.last_chapter_list@.subrange(0, k + 1).map_values(|c: MangaPlusChapter| c.name@));
            k = k + 1;
        }
        assert(g.last_chapter_list@.subrange(0, g.last_chapter_list@.len() as int) =~= g.last_chapter_list@);
        i = i + 1;
    }
    assert(groups@.take(groups@.len() as int) =~= groups@);
    out
}

/// Whether a title is completed: its notice says so, it is a one-shot, or
/// it offers none of its latest chapters.
pub fn is_completed(d: &TitleDetailView) -> (r: bool)
    ensures
        r == is_completed_spec(*d),
{
    let info = to_lowercase(d.non_appearance_info.as_str());
    if crate::text::str_contains(info.as_str(), "complet") {
        return true;
    }
    let names = chapter_names_exec(&d.chapter_list_group);
    if names.len() == 1 {
        let l = to_lowercase(names[0].as_str());
        if crate::text::str_eq(l.as_str(), "one-shot") {
            return true;
        }
    }
    crate::text::str_contains(d.viewing_period_description.as_str(), "latest 0 chapters")
}

pub open spec fn details_description(d: TitleDetailView) -> Seq<char> {
    trim(
        (match d.overview {
            Some(o) => o@,
            None => Seq::empty(),
        }) + "\n\n"@ + (if is_completed_spec(d) {
            Seq::empty()
        } else {
            d.viewing_period_description@
        }),
    )
}

/// A title's details as a manga: its overview followed, unless it is
/// completed, by when its chapters can be read; completed, on hiatus or
/// ongoing; safe, read right to left, at its page on the site.
pub fn details_manga(d: TitleDetailView, base: &str) -> (r: Manga)
    ensures
        r.key@ == crate::text::dec_int(d.title.title_id as int),
        r.title == d.title.name,
        opt_string(r.cover) == Some(d.title.portrait_image_url@),
        opt_strings(r.authors) == (match d.title.author {
            Some(a) => Some(authors_spec(a@)),
            None => None,
        }),
        opt_string(r.description) == Some(details_description(d)),
        opt_string(r.url) == Some(base@ + "/titles/"@ + crate::text::dec_int(d.title.title_id as int)),
        r.status == (if is_completed_spec(d) {
            MangaStatus::Completed
        } else if is_on_hiatus_spec(d) {
            MangaStatus::Hiatus
        } else {
            MangaStatus::Ongoing
        }),
        r.content_rating == ContentRating::Safe,
        r.viewer == Viewer::RightToLeft,
        r.artists is None && r.tags is None,
{
    let completed = is_completed(&d);
    let info = to_lowercase(d.non_appearance_info.as_str());
    let hiatus = crate::text::str_contains(info.as_str(), "on a hiatus");
    let mut text: Vec<char> = match &d.overview {
        Some(o) => chars_of(o.as_str()),
        None => Vec::new(),
    };
    push_str(&mut text, "\n\n");
    if !completed {
        push_str(&mut text, d.viewing_period_description.as_str());
    }
    let description = string_of(trim_exec(text.as_slice()).as_slice());
    proof {
        let head = match d.overview {
            Some(o) => o@,
            None => Seq::<char>::empty(),
        };
        if completed {
            assert(head + "\n\n"@ + Seq::<char>::empty() =~= head + "\n\n"@);
        }
    }
    let TitleDetailView { title, .. } = d;
    let mut m = title_manga(title);
    let mut url = chars_of(base);
    push_str(&mut url, "/titles/");
    push_str(&mut url, m.key.as_str());
    m.description = Some(description);
    m.url = Some(string_of(url.as_slice()));
    m.status = if completed {
        MangaStatus::Completed
    } else if hiatus {
        MangaStatus::Hiatus
    } else {
        MangaStatus::Ongoing
    };
    m.content_rating = ContentRating::Safe;
    m.viewer = Viewer::RightToLeft;
    m
}

/// What a chapter of the api holds, by value.
pub open spec fn chapter_view(c: MangaPlusChapter) -> (i32, Seq<char>, Option<Seq<char>>, i64) {
    (c.chapter_id, c.name@, opt_string(c.sub_title), c.start_time_stamp)
}

/// Views of a list of chapters.
pub open spec fn chapter_views(cs: Seq<MangaPlusChapter>) -> Seq<(i32, Seq<char>, Option<Seq<char>>, i64)> {
    cs.map_values(|c: MangaPlusChapter| chapter_view(c))
}

/// All chapters of the groups, group by group, first ones then last ones.
pub open spec fn flat_chapters(groups: Seq<ChapterListGroup>) -> Seq<(i32, Seq<char>, Option<Seq<char>>, i64)>
    decreases groups.len(),
{
    if groups.len() == 0 {
        Seq::empty()
    } else {
        let g = groups.last();
        flat_chapters(groups.drop_last()) + chapter_views(g.first_chapter_list@) + chapter_views(
            g.last_chapter_list@,
        )
    }
}

fn copy_chapter(c: &MangaPlusChapter) -> (r: MangaPlusChapter)
    ensures
        chapter_view(r) == chapter_view(*c),
{
    MangaPlusChapter {
        chapter_id: c.chapter_id,
        name: string_of(chars_of(c.name.as_str()).as_slice()),
        sub_title: match &c.sub_title {
            Some(t) => Some(string_of(chars_of(t.as_str()).as_slice())),
            None => None,
        },
        start_time_stamp: c.start_time_stamp,
    }
}

fn push_chapters(out: &mut Vec<MangaPlusChapter>, cs: &Vec<MangaPlusChapter>)
    ensures
        chapter_views(final(out)@) == chapter_views(old(out)@) + chapter_views(cs@),
{
    let ghost start = chapter_views(out@);
    let mut k: usize = 0;
    while k < cs.len()
        invariant
            k <= cs@.len(),
            chapter_views(out@) == start + chapter_views(cs@.subrange(0, k as int)),
        decreases cs@.len() - k,
    {
        let ghost before = out@;
        out.push(copy_chapter(&cs[k]));
        assert(out@ == before.push(out@.last()));
        assert(chapter_views(out@) =~= chapter_views(before).push(chapter_view(cs@[k as int])));
        assert(chapter_views(cs@.subrange(0, k + 1)) =~= chapter_views(cs@.subrange(0, k as int)).push(
            chapter_view(cs@[k as int]),
        ));
        k = k + 1;
    }
    assert(cs@.subrange(0, cs@.len() as int) =~= cs@);
}

impl TitleDetailView {
    /// All of a title's chapters, group by group, first ones then last ones.
    pub fn chapter_list(&self) -> (r: Vec<MangaPlusChapter>)
        ensures
            chapter_views(r@) == flat_chapters(self.chapter_list_group@),
    {
        let groups = &self.chapter_list_group;
        let mut out: Vec<MangaPlusChapter> = Vec::new();
        let mut i: usize = 0;
        assert(chapter_views(out@) =~= flat_chapters(groups@.take(0)));
        while i < groups.len()
            invariant
                i <= groups@.len(),
                chapter_views(out@) == flat_chapters(groups@.take(i as int)),
            decreases groups@.len() - i,
        {
            assert(groups@.take(i + 1).drop_last() =~= groups@.take(i as int));
            assert(groups@.take(i + 1).last() == groups@[i as int]);
            push_chapters(&mut out, &groups[i].first_chapter_list);
            push_chapters(&mut out, &groups[i].last_chapter_list);
            i = i + 1;
        }
        assert(groups@.take(groups@.len() as int) =~= groups@);
        out
    }
}

/// A chapter no longer offered: one without a subtitle.
pub fn is_expired(c: &MangaPlusChapter) -> (r: bool)
    ensures
        r == (c.sub_title is None),
{
    c.sub_title.is_none()
}

/// A chapter's number: what follows the first `#` in its name. The app
/// reads it as a number.
pub open spec fn number_spec(name: Seq<char>) -> Option<Seq<char>> {
    match crate::text::char_from(name, '#', 0) {
        Some(i) => Some(name.subrange(i + 1, name.len() as int)),
        None => None,
    }
}

/// A name `#12` (or `Chapter #12`) numbers its chapter by what follows its
/// first `#`; a name without `#` gives no number.
pub proof fn lemma_chapter_number(head: Seq<char>, rest: Seq<char>)
    ensures
        !head.contains('#') ==> number_spec(head + seq!['#'] + rest) == Some(rest),
        !head.contains('#') ==> number_spec(head) is None,
{
    let s = head + seq!['#'] + rest;
    if !head.contains('#') {
        assert forall|j: int| 0 <= j < head.len() implies s[j] != '#' by {
            assert(s[j] == head[j]);
            if head[j] == '#' {
                assert(head.contains('#'));
            }
        }
        crate::text::lemma_char_from_first(s, '#', 0, head.len() as int);
        assert(s.subrange(head.len() as int + 1, s.len() as int) =~= rest);
        assert forall|j: int| 0 <= j < head.len() implies head[j] != '#' by {
            if head[j] == '#' {
                assert(head.contains('#'));
            }
        }
        crate::text::lemma_char_from_first(head, '#', 0, head.len() as int);
    }
}

/// A chapter as the app lists it: keyed by its id, titled by its subtitle
/// (else its name), numbered, dated by its start, at its viewer page.
pub fn chapter_from(c: MangaPlusChapter, base: &str) -> (r: Chapter)
    ensures
        r.key@ == crate::text::dec_int(c.chapter_id as int),
        r.title == Some(match c.sub_title {
            Some(s) => s,
            None => c.name,
        }),
        opt_string(r.number) == number_spec(c.name@),
        r.date_uploaded == Some(c.start_time_stamp),
        opt_string(r.url) == Some(base@ + "/viewer/"@ + crate::text::dec_int(c.chapter_id as int)),
        r.volume is None && r.scanlators is None && r.language is None,
{
    let MangaPlusChapter { chapter_id, name, sub_title, start_time_stamp } = c;
    let nv = chars_of(name.as_str());
    let number = match crate::text::char_from_exec(nv.as_slice(), '#', 0) {
        Some(i) => {
            proof {
                crate::text::lemma_char_from(nv@, '#', 0);
            }
            let nl = nv.len();
            Some(string_of(crate::text::slice_to_vec(nv.as_slice(), i + 1, nl).as_slice()))
        },
        None => None,
    };
    let id = crate::text::i32_to_string(chapter_id);
    let mut url = chars_of(base);
    push_str(&mut url, "/viewer/");
    push_str(&mut url, id.as_str());
    let mut ch = Chapter::new(id);
    ch.title = Some(match sub_title {
        Some(s) => s,
        None => name,
    });
    ch.number = number;
    ch.date_uploaded = Some(start_time_stamp);
    ch.url = Some(string_of(url.as_slice()));
    ch
}

} // verus!
