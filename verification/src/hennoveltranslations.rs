//! Hennovel Translations: the novel list and its search, the details'
//! custom fields, episode links and numbers, the text of an episode, and
//! deep links.
use vstd::prelude::*;
use crate::model::{ContentRating, DeepLink, DeepLinkResult, MangaStatus, Viewer, link_view, opt_string, opt_strings};
use crate::text::{
    before_set, before_set_exec, chars_of, contains, join, lowercase, push_str, replace, replace_exec,
    split, starts_with, str_eq, string_of, strip_prefix, strip_prefix_exec, to_lowercase, trim,
    trim_end_char, trim_exec, trim_str, views, words,
};

verus! {

pub const BASE_URL: &'static str = "https://hennoveltranslations.com";

/// The number's text in an episode title: its last word, which the app
/// reads as a number.
pub open spec fn number_text_spec(title: Seq<char>) -> Option<Seq<char>> {
    let ws = words(title);
    if ws.len() > 0 {
        Some(ws.last())
    } else {
        None
    }
}

pub fn chapter_number_text(title: &str) -> (r: Option<String>)
    ensures
        opt_string(r) == number_text_spec(title@),
{
    let v = chars_of(title);
    let mut rest = v;
    let mut last: Option<Vec<char>> = None;
    let ghost mut done: Seq<Seq<char>> = Seq::empty();
    assert(Seq::<Seq<char>>::empty() + words(rest@) =~= words(rest@));
    loop
        invariant
            words(title@) == done + words(rest@),
            done.len() == 0 <==> last is None,
            last matches Some(l) ==> l@ == done.last(),
        decreases rest@.len(),
    {
        match crate::text::first_word_bounds(rest.as_slice()) {
            Some((a, b)) => {
                proof {
                    crate::text::lemma_after_first_word_len(rest@);
                }
                let w = crate::text::slice_to_vec(rest.as_slice(), a, b);
                proof {
                    let nd = done.push(w@);
                    assert(done + words(rest@) =~= nd + words(crate::text::after_first_word(rest@)));
                    done = nd;
                }
                last = Some(w);
                rest = crate::text::slice_to_vec(rest.as_slice(), b, rest.len());
            },
            None => {
                assert(done + words(rest@) =~= done);
                return match last {
                    Some(l) => Some(string_of(l.as_slice())),
                    None => None,
                };
            },
        }
    }
}

pub open spec fn is_nsfw_tag(t: Seq<char>) -> bool {
    t == "Adult"@ || t == "Mature"@ || t == "Smut"@
}

pub open spec fn tags_rating(tags: Seq<Seq<char>>) -> ContentRating {
    if exists|i: int| 0 <= i < tags.len() && is_nsfw_tag(#[trigger] tags[i]) {
        ContentRating::NSFW
    } else {
        ContentRating::Safe
    }
}

/// A tag "Adult", "Mature" or "Smut" makes a novel NSFW wherever it
/// stands among the tags.
pub proof fn lemma_rating_words(before: Seq<Seq<char>>, t: Seq<char>, after: Seq<Seq<char>>, all: Seq<Seq<char>>)
    requires
        all == before + seq![t] + after,
    ensures
        t == "Adult"@ || t == "Mature"@ || t == "Smut"@ ==> tags_rating(all) == ContentRating::NSFW,
{
    assert(all[before.len() as int] == t);
}

pub fn content_rating_from_tags(tags: &[String]) -> (r: ContentRating)
    ensures
        r == tags_rating(views(tags@)),
{
    let mut i: usize = 0;
    while i < tags.len()
        invariant
            i <= tags@.len(),
            forall|j: int| 0 <= j < i ==> !is_nsfw_tag(#[trigger] views(tags@)[j]),
        decreases tags@.len() - i,
    {
        let t = tags[i].as_str();
        assert(views(tags@)[i as int] == t@);
        if str_eq(t, "Adult") || str_eq(t, "Mature") || str_eq(t, "Smut") {
            return ContentRating::NSFW;
        }
        i = i + 1;
    }
    ContentRating::Safe
}

pub open spec fn all_stars(s: Seq<char>) -> bool {
    forall|i: int| 0 <= i < s.len() ==> s[i] == '*'
}

/// The paragraph a text adds: nothing when empty, a scene break for a row
/// of asterisks, the text itself otherwise.
pub open spec fn paragraph(text: Seq<char>) -> Seq<Seq<char>> {
    if text.len() == 0 {
        Seq::empty()
    } else if all_stars(trim(text)) {
        seq!["\\ \\ \\"@]
    } else {
        seq![text]
    }
}

pub fn push_paragraph(paragraphs: &mut Vec<String>, text: String)
    ensures
        views(final(paragraphs)@) == views(old(paragraphs)@) + paragraph(text@),
{
    let ghost before = views(paragraphs@);
    if text.as_str().is_empty() {
        assert(before + Seq::<Seq<char>>::empty() =~= before);
        return;
    }
    let t = trim_exec(chars_of(text.as_str()).as_slice());
    let mut i: usize = 0;
    while i < t.len() && t[i] == '*'
        invariant
            i <= t@.len(),
            forall|j: int| 0 <= j < i ==> t@[j] == '*',
        decreases t@.len() - i,
    {
        i = i + 1;
    }
    if i == t.len() {
        paragraphs.push(string_of(chars_of("\\ \\ \\").as_slice()));
    } else {
        paragraphs.push(text);
    }
    assert(views(paragraphs@) =~= before + paragraph(text@));
}

// ---------------------------------------------------------------------------
// The novel list
// ---------------------------------------------------------------------------

pub open spec fn novel_key_spec(href: Seq<char>) -> Seq<char> {
    trim_end_char(replace(href, BASE_URL@ + "/archives/novels/"@, ""@), '/')
}

/// A novel's key: its link without the novel list's address and trailing
/// slashes.
pub fn novel_key(href: &str) -> (r: String)
    ensures
        r@ == novel_key_spec(href@),
{
    let mut p = chars_of(BASE_URL);
    push_str(&mut p, "/archives/novels/");
    let ps = string_of(p.as_slice());
    proof {
        reveal_strlit("https://hennoveltranslations.com");
    }
    let r = replace_exec(chars_of(href).as_slice(), ps.as_str(), "");
    proof {
        reveal_strlit("");
    }
    string_of(crate::text::trim_end_char_exec(r.as_slice(), '/').as_slice())
}

/// Whether a title is kept by a search: always without a term, otherwise
/// when it contains the term, both in lower case.
pub fn title_matches(title: &str, query: Option<&str>) -> (r: bool)
    ensures
        r == (match query {
            Some(q) => contains(lowercase(title@), lowercase(q@)),
            None => true,
        }),
{
    match query {
        Some(q) => {
            let t = to_lowercase(title);
            let l = to_lowercase(q);
            crate::text::str_contains(t.as_str(), l.as_str())
        },
        None => true,
    }
}

pub open spec fn status_spec(text: Seq<char>) -> MangaStatus {
    let t = lowercase(trim(replace(text, "Status:"@, ""@)));
    if contains(t, "completed"@) {
        MangaStatus::Completed
    } else if contains(t, "ongoing"@) {
        MangaStatus::Ongoing
    } else {
        MangaStatus::Unknown
    }
}

/// A status line that mentions "completed" (in any case, after its label)
/// is completed; one that mentions "ongoing" and not "completed" is
/// ongoing; one that mentions neither is unknown.
pub proof fn lemma_status_names(text: Seq<char>)
    ensures
        ({
            let t = lowercase(trim(replace(text, "Status:"@, ""@)));
            &&& contains(t, "completed"@) ==> status_spec(text) == MangaStatus::Completed
            &&& !contains(t, "completed"@) && contains(t, "ongoing"@) ==> status_spec(text)
                == MangaStatus::Ongoing
            &&& !contains(t, "completed"@) && !contains(t, "ongoing"@) ==> status_spec(text)
                == MangaStatus::Unknown
        }),
{
}

/// The status the title block's status line gives.
pub fn parse_status(text: &str) -> (r: MangaStatus)
    ensures
        r == status_spec(text@),
{
    proof {
        reveal_strlit("Status:");
        reveal_strlit("");
    }
    let r = replace_exec(chars_of(text).as_slice(), "Status:", "");
    let t = trim_exec(r.as_slice());
    let l = to_lowercase(string_of(t.as_slice()).as_str());
    let lv = chars_of(l.as_str());
    if crate::text::contains_lit(lv.as_slice(), "completed") {
        MangaStatus::Completed
    } else if crate::text::contains_lit(lv.as_slice(), "ongoing") {
        MangaStatus::Ongoing
    } else {
        MangaStatus::Unknown
    }
}

// ---------------------------------------------------------------------------
// Custom fields
// ---------------------------------------------------------------------------

/// The author an `Author:` field names, when it isn't empty.
pub open spec fn author_of(text: Seq<char>) -> Option<Seq<char>> {
    match strip_prefix(text, "Author:"@) {
        Some(rest) => if trim(rest).len() > 0 {
            Some(trim(rest))
        } else {
            None
        },
        None => None,
    }
}

/// `s` with every leading `p` removed, as `trim_start_matches` with a text
/// does.
pub open spec fn trim_start_text(s: Seq<char>, p: Seq<char>) -> Seq<char>
    decreases s.len(),
{
    if p.len() > 0 && starts_with(s, p) {
        trim_start_text(s.subrange(p.len() as int, s.len() as int), p)
    } else {
        s
    }
}

/// The genre list a `Genre:` field holds.
pub open spec fn genre_text(text: Seq<char>) -> Option<Seq<char>> {
    match strip_prefix(text, "Genre:"@) {
        Some(rest) => Some(trim(trim_start_text(trim(rest), "Genre-"@))),
        None => None,
    }
}

/// The tags of a genre list: the words of each comma separated part.
pub open spec fn genre_tags(g: Seq<char>) -> Seq<Seq<char>> {
    split(g, ',').map_values(|p: Seq<char>| words(p)).flatten()
}

pub open spec fn last_author(texts: Seq<Seq<char>>) -> Option<Seq<char>>
    decreases texts.len(),
{
    if texts.len() == 0 {
        None
    } else {
        match author_of(texts.last()) {
            Some(a) => Some(a),
            None => last_author(texts.drop_last()),
        }
    }
}

/// The genre list of the last `Genre:` field.
pub open spec fn last_genre(texts: Seq<Seq<char>>) -> Option<Seq<char>>
    decreases texts.len(),
{
    if texts.len() == 0 {
        None
    } else {
        match genre_text(texts.last()) {
            Some(g) => Some(g),
            None => last_genre(texts.drop_last()),
        }
    }
}

/// The genre list of the last `Genre:` field that isn't empty.
pub open spec fn last_nonempty_genre(texts: Seq<Seq<char>>) -> Option<Seq<char>>
    decreases texts.len(),
{
    if texts.len() == 0 {
        None
    } else {
        match genre_text(texts.last()) {
            Some(g) if g.len() > 0 => Some(g),
            _ => last_nonempty_genre(texts.drop_last()),
        }
    }
}

pub open spec fn is_manhwa_type(text: Seq<char>) -> bool {
    match strip_prefix(text, "Type:"@) {
        Some(rest) => contains(lowercase(trim(rest)), "manhwa"@),
        None => false,
    }
}

/// What the custom fields of a novel's page say: the author, the tags and
/// the rating they imply, and whether it reads as a webtoon.
pub struct CustomFields {
    pub authors: Option<Vec<String>>,
    pub tags: Option<Vec<String>>,
    pub content_rating: Option<ContentRating>,
    pub webtoon: bool,
}

fn trim_start_text_exec(s: &[char], p: &str) -> (r: Vec<char>)
    requires
        p@.len() > 0,
    ensures
        r@ == trim_start_text(s@, p@),
{
    let mut cur = crate::text::slice_to_vec(s, 0, s.len());
    assert(s@.subrange(0, s@.len() as int) =~= s@);
    loop
        invariant
            p@.len() > 0,
            trim_start_text(cur@, p@) == trim_start_text(s@, p@),
        decreases cur@.len(),
    {
        match strip_prefix_exec(cur.as_slice(), p) {
            Some(rest) => {
                cur = rest;
            },
            None => {
                return cur;
            },
        }
    }
}

fn genre_tags_exec(g: &[char]) -> (r: Vec<String>)
    ensures
        views(r@) == genre_tags(g@),
{
    let parts = crate::text::split_exec(g, ',');
    let ghost pv = parts@.map_values(|x: Vec<char>| x@);
    let mut out: Vec<String> = Vec::new();
    let mut i: usize = 0;
    assert(pv.take(0).map_values(|p: Seq<char>| words(p)).flatten() =~= Seq::<Seq<char>>::empty()) by {
        assert(pv.take(0).map_values(|p: Seq<char>| words(p)) =~= Seq::<Seq<Seq<char>>>::empty());
    }
    while i < parts.len()
        invariant
            i <= parts@.len(),
            pv == parts@.map_values(|x: Vec<char>| x@),
            views(out@) == pv.take(i as int).map_values(|p: Seq<char>| words(p)).flatten(),
        decreases parts@.len() - i,
    {
        let ghost before = views(out@);
        let piece = string_of(parts[i].as_slice());
        assert(piece@ == pv[i as int]);
        let ws = words_exec(piece.as_str());
        let mut k: usize = 0;
        while k < ws.len()
            invariant
                k <= ws@.len(),
                views(out@) == before + views(ws@).take(k as int),
            decreases ws@.len() - k,
        {
            let ghost mid = views(out@);
            out.push(string_of(chars_of(ws[k].as_str()).as_slice()));
            assert(views(out@) =~= mid.push(ws@[k as int]@));
            assert(views(ws@).take(k + 1) =~= views(ws@).take(k as int).push(ws@[k as int]@));
            assert(views(out@) =~= before + views(ws@).take(k + 1));
            k = k + 1;
        }
        assert(views(ws@).take(ws@.len() as int) =~= views(ws@));
        proof {
            let m = pv.take(i + 1).map_values(|p: Seq<char>| words(p));
            assert(m =~= pv.take(i as int).map_values(|p: Seq<char>| words(p)).push(words(pv[i as int])));
            pv.take(i as int).map_values(|p: Seq<char>| words(p)).lemma_flatten_push(words(pv[i as int]));
        }
        i = i + 1;
    }
    assert(pv.take(parts@.len() as int) =~= pv);
    out
}

/// `s.split_whitespace()`, collected.
pub fn words_exec(s: &str) -> (r: Vec<String>)
    ensures
        views(r@) == words(s@),
{
    let mut rest = chars_of(s);
    let mut out: Vec<String> = Vec::new();
    assert(Seq::<Seq<char>>::empty() + words(rest@) =~= words(rest@));
    loop
        invariant
            words(s@) == views(out@) + words(rest@),
        decreases rest@.len(),
    {
        match crate::text::first_word_bounds(rest.as_slice()) {
            Some((a, b)) => {
                proof {
                    crate::text::lemma_after_first_word_len(rest@);
                }
                let w = crate::text::slice_to_vec(rest.as_slice(), a, b);
                let ghost before = views(out@);
                out.push(string_of(w.as_slice()));
                assert(views(out@) + words(crate::text::after_first_word(rest@)) =~= before + words(rest@));
                rest = crate::text::slice_to_vec(rest.as_slice(), b, rest.len());
            },
            None => {
                assert(views(out@) + words(rest@) =~= views(out@));
                return out;
            },
        }
    }
}

/// Reads the custom fields of a novel's page, given their texts in order:
/// the last non-empty author, the tags of the last non-empty genre list
/// and the rating of the last genre list (unknown when it is empty), and
/// whether a type field names a manhwa.
pub fn custom_fields(texts: &[String]) -> (r: CustomFields)
    ensures
        opt_strings(r.authors) == (match last_author(views(texts@)) {
            Some(a) => Some(seq![a]),
            None => None,
        }),
        opt_strings(r.tags) == (match last_nonempty_genre(views(texts@)) {
            Some(g) => Some(genre_tags(g)),
            None => None,
        }),
        r.content_rating == (match last_genre(views(texts@)) {
            Some(g) => Some(if g.len() > 0 { tags_rating(genre_tags(g)) } else { ContentRating::Unknown }),
            None => None,
        }),
        r.webtoon == exists|i: int| 0 <= i < texts@.len() && is_manhwa_type(#[trigger] views(texts@)[i]),
{
    let ghost ts = views(texts@);
    let mut f = CustomFields { authors: None, tags: None, content_rating: None, webtoon: false };
    let mut i: usize = 0;
    assert(ts.take(0) =~= Seq::<Seq<char>>::empty());
    while i < texts.len()
        invariant
            i <= texts@.len(),
            ts == views(texts@),
            opt_strings(f.authors) == (match last_author(ts.take(i as int)) {
                Some(a) => Some(seq![a]),
                None => None,
            }),
            opt_strings(f.tags) == (match last_nonempty_genre(ts.take(i as int)) {
                Some(g) => Some(genre_tags(g)),
                None => None,
            }),
            f.content_rating == (match last_genre(ts.take(i as int)) {
                Some(g) => Some(if g.len() > 0 { tags_rating(genre_tags(g)) } else { ContentRating::Unknown }),
                None => None,
            }),
            f.webtoon == exists|j: int| 0 <= j < i && is_manhwa_type(#[trigger] ts[j]),
        decreases texts@.len() - i,
    {
        assert(ts.take(i + 1).drop_last() =~= ts.take(i as int));
        assert(ts.take(i + 1).last() == texts@[i as int]@);
        assert(ts[i as int] == texts@[i as int]@);
        let text = chars_of(texts[i].as_str());
        match strip_prefix_exec(text.as_slice(), "Author:") {
            Some(rest) => {
                let a = trim_exec(rest.as_slice());
                if a.len() > 0 {
                    let s = string_of(a.as_slice());
                    let ghost sv = s@;
                    let v = vec![s];
                    assert(v@.map_values(|x: String| x@) =~= seq![sv]);
                    f.authors = Some(v);
                }
            },
            None => {},
        }
        match strip_prefix_exec(text.as_slice(), "Genre:") {
            Some(rest) => {
                proof {
                    reveal_strlit("Genre-");
                }
                let g0 = trim_start_text_exec(trim_exec(rest.as_slice()).as_slice(), "Genre-");
                let g = trim_exec(g0.as_slice());
                if g.len() > 0 {
                    let tags = genre_tags_exec(g.as_slice());
                    f.content_rating = Some(content_rating_from_tags(tags.as_slice()));
                    assert(tags@.map_values(|x: String| x@) == views(tags@));
                    f.tags = Some(tags);
                } else {
                    f.content_rating = Some(ContentRating::Unknown);
                }
            },
            None => {},
        }
        match strip_prefix_exec(text.as_slice(), "Type:") {
            Some(rest) => {
                let t = trim_exec(rest.as_slice());
                let l = to_lowercase(string_of(t.as_slice()).as_str());
                if crate::text::contains_lit(chars_of(l.as_str()).as_slice(), "manhwa") {
                    f.webtoon = true;
                }
            },
            None => {},
        }
        i = i + 1;
    }
    assert(ts.take(texts@.len() as int) =~= ts);
    f
}

// ---------------------------------------------------------------------------
// Episodes
// ---------------------------------------------------------------------------

/// Whether a link leads to an episode.
pub fn is_episode_link(href: &str) -> (r: bool)
    ensures
        r == contains(href@, "/episodes/"@),
{
    crate::text::str_contains(href, "/episodes/")
}

/// An episode's key: its link without the site's address.
pub fn episode_key(href: &str) -> (r: String)
    ensures
        r@ == replace(href@, BASE_URL@, ""@),
{
    proof {
        reveal_strlit("https://hennoveltranslations.com");
        reveal_strlit("");
    }
    string_of(replace_exec(chars_of(href).as_slice(), BASE_URL, "").as_slice())
}

/// The chapter an episode link stands for: keyed by its path on the site,
/// titled by its text (empty without one), numbered by its title's last
/// word; none for a link that leads elsewhere.
pub fn episode_chapter(href: String, text: Option<String>) -> (r: Option<crate::model::Chapter>)
    ensures
        !contains(href@, "/episodes/"@) ==> r is None,
        contains(href@, "/episodes/"@) ==> (r matches Some(c) && c.key@ == replace(href@, BASE_URL@, ""@)
            && opt_string(c.title) == Some(match text {
                Some(t) => t@,
                None => Seq::empty(),
            }) && opt_string(c.number) == number_text_spec(match text {
                Some(t) => t@,
                None => Seq::empty(),
            }) && c.url == Some(href) && c.volume is None && c.date_uploaded is None
            && c.scanlators is None && c.language is None),
{
    if !is_episode_link(href.as_str()) {
        return None;
    }
    let title = match text {
        Some(t) => t,
        None => String::new(),
    };
    let mut c = crate::model::Chapter::new(episode_key(href.as_str()));
    c.number = chapter_number_text(title.as_str());
    c.title = Some(title);
    c.url = Some(href);
    Some(c)
}

/// The page an episode is read from: its url, or its key on the site; an
/// error when that is not on the site.
pub fn episode_url(url: Option<String>, key: &str) -> (r: Result<String, ()>)
    ensures
        match r {
            Ok(u) => starts_with(u@, BASE_URL@) && u@ == (match url {
                Some(x) => x@,
                None => BASE_URL@ + key@,
            }),
            Err(_) => !starts_with(
                match url {
                    Some(x) => x@,
                    None => BASE_URL@ + key@,
                },
                BASE_URL@,
            ),
        },
{
    let u = match url {
        Some(x) => x,
        None => {
            let mut v = chars_of(BASE_URL);
            push_str(&mut v, key);
            string_of(v.as_slice())
        },
    };
    if crate::text::str_starts_with(u.as_str(), BASE_URL) {
        Ok(u)
    } else {
        Err(())
    }
}

pub open spec fn paragraphs_of(texts: Seq<Seq<char>>) -> Seq<Seq<char>>
    decreases texts.len(),
{
    if texts.len() == 0 {
        Seq::empty()
    } else {
        paragraphs_of(texts.drop_last()) + paragraph(texts.last())
    }
}

/// The paragraphs of an episode, before they are joined: the subheading
/// as a heading, the episode's paragraphs; when that leaves at most one
/// and there is a subheading, the entry's paragraphs; when that still
/// leaves at most one, the whole content's text; and a notice when the
/// episode is behind a paywall.
pub open spec fn episode_paragraphs(
    subheading: Seq<char>,
    episode: Seq<Seq<char>>,
    entry: Option<Seq<Seq<char>>>,
    fallback: Seq<char>,
    paywalled: bool,
) -> Seq<Seq<char>> {
    let a = (if subheading.len() > 0 {
        seq!["## "@ + subheading]
    } else {
        Seq::empty()
    }) + paragraphs_of(episode);
    let b = if a.len() <= 1 && subheading.len() > 0 {
        match entry {
            Some(e) => a + paragraphs_of(e),
            None => a,
        }
    } else {
        a
    };
    let c = if b.len() <= 1 && fallback.len() > 0 {
        b.push(fallback)
    } else {
        b
    };
    if paywalled {
        c.push("This chapter is locked behind a paywall and will be released for free at a later date."@)
    } else {
        c
    }
}

fn push_paragraphs(ps: &mut Vec<String>, texts: &Vec<String>)
    ensures
        views(final(ps)@) == views(old(ps)@) + paragraphs_of(views(texts@)),
{
    let ghost start = views(ps@);
    let mut i: usize = 0;
    assert(views(texts@).take(0) =~= Seq::<Seq<char>>::empty());
    assert(start + Seq::<Seq<char>>::empty() =~= start);
    while i < texts.len()
        invariant
            i <= texts@.len(),
            views(ps@) == start + paragraphs_of(views(texts@).take(i as int)),
        decreases texts@.len() - i,
    {
        assert(views(texts@).take(i + 1).drop_last() =~= views(texts@).take(i as int));
        assert(views(texts@).take(i + 1).last() == texts@[i as int]@);
        let ghost before = views(ps@);
        push_paragraph(ps, string_of(chars_of(texts[i].as_str()).as_slice()));
        assert(views(ps@) =~= start + paragraphs_of(views(texts@).take(i + 1)));
        i = i + 1;
    }
    assert(views(texts@).take(texts@.len() as int) =~= views(texts@));
}

/// An episode's text: its paragraphs joined by spaced blank lines.
pub fn episode_text(
    subheading: &str,
    episode: &Vec<String>,
    entry: &Option<Vec<String>>,
    fallback: &str,
    paywalled: bool,
) -> (r: String)
    ensures
        r@ == join(
            episode_paragraphs(
                subheading@,
                views(episode@),
                match entry {
                    Some(e) => Some(views(e@)),
                    None => None,
                },
                fallback@,
                paywalled,
            ),
            "\n\n&nbsp;\n\n"@,
        ),
{
    let ghost ev = views(episode@);
    let ghost en = match entry {
        Some(e) => Some(views(e@)),
        None => None,
    };
    let ghost a = (if subheading@.len() > 0 {
        seq!["## "@ + subheading@]
    } else {
        Seq::empty()
    }) + paragraphs_of(ev);
    let ghost b = if a.len() <= 1 && subheading@.len() > 0 {
        match en {
            Some(e) => a + paragraphs_of(e),
            None => a,
        }
    } else {
        a
    };
    let ghost c = if b.len() <= 1 && fallback@.len() > 0 {
        b.push(fallback@)
    } else {
        b
    };
    let mut ps: Vec<String> = Vec::new();
    if !subheading.is_empty() {
        let mut h = chars_of("## ");
        push_str(&mut h, subheading);
        ps.push(string_of(h.as_slice()));
    }
    assert(views(ps@) =~= (if subheading@.len() > 0 {
        seq!["## "@ + subheading@]
    } else {
        Seq::<Seq<char>>::empty()
    }));
    push_paragraphs(&mut ps, episode);
    assert(views(ps@) == a);
    if ps.len() <= 1 && !subheading.is_empty() {
        match entry {
            Some(e) => push_paragraphs(&mut ps, e),
            None => {},
        }
    }
    assert(views(ps@) == b);
    if ps.len() <= 1 && !fallback.is_empty() {
        let ghost before = views(ps@);
        ps.push(string_of(chars_of(fallback).as_slice()));
        assert(views(ps@) =~= before.push(fallback@));
    }
    assert(views(ps@) == c);
    if paywalled {
        let ghost before = views(ps@);
        ps.push(string_of(chars_of("This chapter is locked behind a paywall and will be released for free at a later date.").as_slice()));
        assert(views(ps@) =~= before.push("This chapter is locked behind a paywall and will be released for free at a later date."@));
    }
    crate::text::join_strings(ps.as_slice(), "\n\n&nbsp;\n\n")
}

// ---------------------------------------------------------------------------
// Deep links
// ---------------------------------------------------------------------------

pub open spec fn deep_link_spec(url: Seq<char>) -> Option<DeepLink> {
    let path = match strip_prefix(before_set(url, seq!['?', '#']), BASE_URL@ + "/"@) {
        Some(p) => p,
        None => Seq::empty(),
    };
    match strip_prefix(path, "archives/novels/"@) {
        Some(slug) if slug.len() > 0 => Some(DeepLink::Manga(trim_end_char(slug, '/'))),
        _ => match strip_prefix(path, "episodes/"@) {
            Some(ep) if ep.len() > 0 => Some(DeepLink::Chapter(Seq::empty(), "/episodes/"@ + trim_end_char(ep, '/'))),
            _ => None,
        },
    }
}

/// Novel pages, `/archives/novels/<slug>`, lead to the novel, and episode
/// pages, `/episodes/<slug>`, to the episode (with no novel known); the
/// slug not empty and free of `/`, `?` and `#`.
pub proof fn lemma_deep_links(slug: Seq<char>)
    requires
        slug.len() > 0,
        forall|j: int| 0 <= j < slug.len() ==> slug[j] != '/' && slug[j] != '?' && slug[j] != '#',
    ensures
        deep_link_spec(BASE_URL@ + "/archives/novels/"@ + slug) == Some(DeepLink::Manga(slug)),
        deep_link_spec(BASE_URL@ + "/episodes/"@ + slug) == Some(
            DeepLink::Chapter(Seq::empty(), "/episodes/"@ + slug),
        ),
{
    reveal_strlit("/archives/novels/");
    reveal_strlit("/episodes/");
    reveal_strlit("archives/novels/");
    reveal_strlit("episodes/");
    reveal_strlit("/");
    reveal_strlit("https://hennoveltranslations.com");
    let stops = seq!['?', '#'];
    assert(trim_end_char(slug, '/') == slug);
    let b = BASE_URL@;
    assert(b.len() == 32);
    assert(forall|j: int| 0 <= j < 32 ==> b[j] != '?' && b[j] != '#');
    assert(forall|j: int| 0 <= j < 17 ==> "/archives/novels/"@[j] != '?' && "/archives/novels/"@[j] != '#');
    assert(forall|j: int| 0 <= j < 10 ==> "/episodes/"@[j] != '?' && "/episodes/"@[j] != '#');
    // a novel page
    let u1 = BASE_URL@ + "/archives/novels/"@ + slug;
    assert forall|j: int| 0 <= j < u1.len() implies !stops.contains(#[trigger] u1[j]) by {
        if stops.contains(u1[j]) {
            let k = choose|k: int| 0 <= k < 2 && stops[k] == u1[j];
            if j >= BASE_URL@.len() + 17 {
                assert(u1[j] == slug[j - BASE_URL@.len() - 17]);
            } else if j >= 32 {
                assert(u1[j] == "/archives/novels/"@[j - 32]);
            } else {
                assert(u1[j] == b[j]);
            }
        }
    }
    crate::text::lemma_before_set_free(u1, stops);
    let pre = BASE_URL@ + "/"@;
    assert(u1.subrange(0, pre.len() as int) =~= pre);
    let p1 = u1.subrange(pre.len() as int, u1.len() as int);
    assert(p1 =~= "archives/novels/"@ + slug);
    assert(p1.subrange(0, 16) =~= "archives/novels/"@);
    assert(p1.subrange(16, p1.len() as int) =~= slug);
    // an episode page
    let u2 = BASE_URL@ + "/episodes/"@ + slug;
    assert forall|j: int| 0 <= j < u2.len() implies !stops.contains(#[trigger] u2[j]) by {
        if stops.contains(u2[j]) {
            let k = choose|k: int| 0 <= k < 2 && stops[k] == u2[j];
            if j >= BASE_URL@.len() + 10 {
                assert(u2[j] == slug[j - BASE_URL@.len() - 10]);
            } else if j >= 32 {
                assert(u2[j] == "/episodes/"@[j - 32]);
            } else {
                assert(u2[j] == b[j]);
            }
        }
    }
    crate::text::lemma_before_set_free(u2, stops);
    assert(u2.subrange(0, pre.len() as int) =~= pre);
    let p2 = u2.subrange(pre.len() as int, u2.len() as int);
    assert(p2 =~= "episodes/"@ + slug);
    assert(!crate::text::starts_with(p2, "archives/novels/"@)) by {
        if p2.len() >= 16 {
            assert(p2.subrange(0, 16)[0] != "archives/novels/"@[0]);
        }
    }
    assert(p2.subrange(0, 9) =~= "episodes/"@);
    assert(p2.subrange(9, p2.len() as int) =~= slug);
}

/// Novel pages lead to their novel; episode pages to the episode, with no
/// novel known.
pub fn handle_deep_link(url: &str) -> (r: Option<DeepLinkResult>)
    ensures
        link_view(r) == deep_link_spec(url@),
{
    let stops: [char; 2] = ['?', '#'];
    assert(stops@ =~= seq!['?', '#']);
    let before = before_set_exec(chars_of(url).as_slice(), &stops);
    let mut prefix = chars_of(BASE_URL);
    prefix.push('/');
    let p = string_of(prefix.as_slice());
    assert(p@ =~= BASE_URL@ + "/"@) by {
        reveal_strlit("/");
    }
    let path = match strip_prefix_exec(before.as_slice(), p.as_str()) {
        Some(x) => x,
        None => Vec::new(),
    };
    match strip_prefix_exec(path.as_slice(), "archives/novels/") {
        Some(slug) => {
            if slug.len() > 0 {
                let k = crate::text::trim_end_char_exec(slug.as_slice(), '/');
                return Some(DeepLinkResult::Manga { key: string_of(k.as_slice()) });
            }
        },
        None => {},
    }
    match strip_prefix_exec(path.as_slice(), "episodes/") {
        Some(ep) => {
            if ep.len() > 0 {
                let k = crate::text::trim_end_char_exec(ep.as_slice(), '/');
                let mut key = chars_of("/episodes/");
                let ghost head = key@;
                key.extend_from_slice(k.as_slice());
                assert(key@ =~= head + k@);
                let mk = String::new();
                assert(mk@ =~= Seq::<char>::empty());
                assert(path@ =~= match strip_prefix(before_set(url@, seq!['?', '#']), BASE_URL@ + "/"@) {
                    Some(x) => x,
                    None => Seq::<char>::empty(),
                });
                return Some(DeepLinkResult::Chapter { manga_key: mk, key: string_of(key.as_slice()) });
            }
        },
        None => {},
    }
    None
}

} // verus!
