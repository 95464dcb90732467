//! SoraRaw: page data wrappers, urls, the mapping of listing fields to the
//! app's values, catalogue search, image headers and the two payload
//! decoders the reader goes through.
use aes::Aes256;
use aes::cipher::{BlockEncrypt, KeyInit};
use aes::cipher::generic_array::GenericArray;
use vstd::prelude::*;
use crate::model::{ContentRating, MangaStatus, Viewer, opt_string, opt_strings};
use crate::text::{
    chars_of, contains, dec, dec_i64, dec_int, eq_ignore_ascii_case, eq_ignore_ascii_case_exec,
    pieces, push_str, slice_to_vec, split_trimmed, str_contains, str_eq, string_of, strip_prefix,
    strip_prefix_exec, trim, trim_str, trimmed_nonempty, views,
};

verus! {

// ---------------------------------------------------------------------------
// Page data
// ---------------------------------------------------------------------------

/// Wrapper of the "__NEXT_DATA__" blob every page embeds.
pub struct NextData<T> {
    pub props: Props<T>,
}

pub struct Props<T> {
    pub page_props: T,
}

/// Page props of every page but the home page, which carries an extra list.
pub struct DataProps<T> {
    pub data: T,
}

pub struct Pagination {
    pub current_page: i32,
    pub total_page: i32,
}

impl Pagination {
    pub fn has_next_page(&self) -> (r: bool)
        ensures
            r == (self.current_page < self.total_page),
    {
        self.current_page < self.total_page
    }
}

// ---------------------------------------------------------------------------
// Urls
// ---------------------------------------------------------------------------

pub open spec fn manga_url_spec(base: Seq<char>, slug: Seq<char>) -> Seq<char> {
    base + "/manga/"@ + slug
}

/// The page of a manga on the site whose address is `base`.
pub fn manga_url(base: &str, slug: &str) -> (r: String)
    ensures
        r@ == manga_url_spec(base@, slug@),
{
    let mut v = chars_of(base);
    push_str(&mut v, "/manga/");
    push_str(&mut v, slug);
    string_of(v.as_slice())
}

pub open spec fn chapter_url_spec(base: Seq<char>, manga_slug: Seq<char>, path: Seq<char>) -> Seq<char> {
    let suffix = match strip_prefix(path, manga_slug + "-"@) {
        Some(rest) => rest,
        None => path,
    };
    base + "/manga/"@ + manga_slug + "/"@ + suffix
}

/// The page of a chapter. Chapter paths repeat the slug of their manga,
/// which the url doesn't.
pub fn chapter_url(base: &str, manga_slug: &str, path: &str) -> (r: String)
    ensures
        r@ == chapter_url_spec(base@, manga_slug@, path@),
{
    let mut prefix = chars_of(manga_slug);
    prefix.push('-');
    let p = string_of(prefix.as_slice());
    let pv = chars_of(path);
    let suffix = match strip_prefix_exec(pv.as_slice(), p.as_str()) {
        Some(rest) => rest,
        None => pv,
    };
    let mut v = chars_of(base);
    push_str(&mut v, "/manga/");
    push_str(&mut v, manga_slug);
    v.push('/');
    v.extend_from_slice(suffix.as_slice());
    proof {
        assert(prefix@ =~= manga_slug@ + "-"@) by {
            reveal_strlit("-");
        }
        reveal_strlit("/");
    }
    assert(v@ =~= chapter_url_spec(base@, manga_slug@, path@));
    string_of(v.as_slice())
}

/// A chapter's page sits under its manga's page: a chapter path that
/// repeats the manga's slug and a `-` drops them, any other path is kept
/// whole.
pub proof fn lemma_chapter_pages(base: Seq<char>, slug: Seq<char>, chapter: Seq<char>, path: Seq<char>)
    ensures
        chapter_url_spec(base, slug, slug + seq!['-'] + chapter) == manga_url_spec(base, slug) + seq![
            '/',
        ] + chapter,
        !crate::text::starts_with(path, slug + seq!['-']) ==> chapter_url_spec(base, slug, path)
            == manga_url_spec(base, slug) + seq!['/'] + path,
{
    reveal_strlit("-");
    reveal_strlit("/");
    assert("-"@ =~= seq!['-']);
    assert("/"@ =~= seq!['/']);
    let pre = slug + seq!['-'];
    let p = pre + chapter;
    assert(p =~= slug + seq!['-'] + chapter);
    assert(p.subrange(0, pre.len() as int) =~= pre);
    assert(p.subrange(pre.len() as int, p.len() as int) =~= chapter);
    assert(base + "/manga/"@ + slug + "/"@ + chapter =~= manga_url_spec(base, slug) + seq!['/']
        + chapter);
    assert(base + "/manga/"@ + slug + "/"@ + path =~= manga_url_spec(base, slug) + seq!['/'] + path);
}

pub open spec fn chapter_key_spec(manga_id: int, chapter_id: int) -> Seq<char> {
    dec_int(manga_id) + "/"@ + dec_int(chapter_id)
}

/// Both ids the image endpoint takes, so pages never rely on a slug
/// carrying its id.
pub fn chapter_key(manga_id: i64, chapter_id: i64) -> (r: String)
    ensures
        r@ == chapter_key_spec(manga_id as int, chapter_id as int),
{
    let mut v = dec_i64(manga_id);
    v.push('/');
    let w = dec_i64(chapter_id);
    v.extend_from_slice(w.as_slice());
    proof {
        reveal_strlit("/");
    }
    assert(v@ =~= chapter_key_spec(manga_id as int, chapter_id as int));
    string_of(v.as_slice())
}

pub open spec fn paginated_spec(url: Seq<char>, page: int) -> Seq<char> {
    if page > 1 {
        url + "/page/"@ + dec(page as nat)
    } else {
        url
    }
}

/// A listing url with the page number added past the first page.
pub fn paginated(url: &str, page: i32) -> (r: String)
    ensures
        r@ == paginated_spec(url@, page as int),
{
    if page > 1 {
        let mut v = chars_of(url);
        push_str(&mut v, "/page/");
        let d = crate::text::dec_u64(page as u64);
        v.extend_from_slice(d.as_slice());
        string_of(v.as_slice())
    } else {
        string_of(chars_of(url).as_slice())
    }
}

// ---------------------------------------------------------------------------
// Listing fields
// ---------------------------------------------------------------------------

pub open spec fn cover_spec(host: Seq<char>, thumbnail: Option<Seq<char>>, image: Option<Seq<char>>) -> Option<Seq<char>> {
    match thumbnail {
        Some(t) if t.len() > 0 => Some(t),
        _ => match image {
            Some(i) if i.len() > 0 => Some(host + "/"@ + i),
            _ => None,
        },
    }
}

/// A cover url: listings hand out either a full url or just the file name
/// on the thumbnail host, whose address is `host`.
pub fn cover(host: &str, thumbnail: Option<String>, image: Option<&str>) -> (r: Option<String>)
    ensures
        opt_string(r) == cover_spec(host@, opt_string(thumbnail), crate::atsumaru::opt_view(image)),
{
    match thumbnail {
        Some(t) => {
            if !t.as_str().is_empty() {
                return Some(t);
            }
        },
        None => {},
    }
    match image {
        Some(i) => {
            if i.is_empty() {
                None
            } else {
                let mut v = chars_of(host);
                v.push('/');
                push_str(&mut v, i);
                proof {
                    reveal_strlit("/");
                }
                assert(v@ =~= host@ + "/"@ + i@);
                Some(string_of(v.as_slice()))
            }
        },
        None => None,
    }
}

pub open spec fn authors_spec(author: Option<Seq<char>>) -> Option<Seq<Seq<char>>> {
    match author {
        Some(a) => {
            let names = trimmed_nonempty(pieces(a, ','));
            if names.len() > 0 {
                Some(names)
            } else {
                None
            }
        },
        None => None,
    }
}

/// The comma separated author names, trimmed, leaving out empty ones;
/// nothing when none is left.
pub fn authors(author: Option<&str>) -> (r: Option<Vec<String>>)
    ensures
        opt_strings(r) == authors_spec(crate::atsumaru::opt_view(author)),
{
    match author {
        Some(a) => {
            let names = split_trimmed(a, ',');
            if names.len() > 0 {
                assert(names@.map_values(|s: String| s@) == views(names@));
                Some(names)
            } else {
                None
            }
        },
        None => None,
    }
}

pub open spec fn status_spec(kind: Option<Seq<char>>) -> MangaStatus {
    if kind == Some("complete"@) {
        MangaStatus::Completed
    } else if kind == Some("incomplete"@) {
        MangaStatus::Ongoing
    } else {
        MangaStatus::Unknown
    }
}

/// The api's publication kind: "complete" is completed, "incomplete"
/// ongoing, anything else unknown.
pub proof fn lemma_status_names(kind: Seq<char>)
    ensures
        kind == "complete"@ ==> status_spec(Some(kind)) == MangaStatus::Completed,
        kind == "incomplete"@ ==> status_spec(Some(kind)) == MangaStatus::Ongoing,
        kind != "complete"@ && kind != "incomplete"@ ==> status_spec(Some(kind)) == MangaStatus::Unknown,
        status_spec(None) == MangaStatus::Unknown,
{
    reveal_strlit("complete");
    reveal_strlit("incomplete");
    assert("complete"@.len() != "incomplete"@.len());
}

pub fn status(kind: Option<&str>) -> (r: MangaStatus)
    ensures
        r == status_spec(crate::atsumaru::opt_view(kind)),
{
    match kind {
        Some(k) => if str_eq(k, "complete") {
            MangaStatus::Completed
        } else if str_eq(k, "incomplete") {
            MangaStatus::Ongoing
        } else {
            MangaStatus::Unknown
        },
        None => MangaStatus::Unknown,
    }
}

/// A genre that marks a series as read like a webtoon: the overseas genre,
/// or one with "webtoon" in its slug.
pub open spec fn is_webtoon_genre(slug: Seq<char>) -> bool {
    slug == "kaigai-manga"@ || contains(slug, "webtoon"@)
}

pub open spec fn viewer_spec(slugs: Seq<Seq<char>>) -> Viewer {
    if exists|i: int| 0 <= i < slugs.len() && is_webtoon_genre(#[trigger] slugs[i]) {
        Viewer::Webtoon
    } else {
        Viewer::RightToLeft
    }
}

/// A genre slug "kaigai-manga" or one mentioning "webtoon" makes a series
/// read as a webtoon wherever it stands; the adult flag "yes" is NSFW,
/// "no" safe.
pub proof fn lemma_viewer_and_rating(before: Seq<Seq<char>>, g: Seq<char>, after: Seq<Seq<char>>, all: Seq<Seq<char>>)
    requires
        all == before + seq![g] + after,
    ensures
        g == "kaigai-manga"@ || contains(g, "webtoon"@) ==> viewer_spec(all) == Viewer::Webtoon,
        content_rating_spec(Some("yes"@)) == ContentRating::NSFW,
        content_rating_spec(Some("no"@)) == ContentRating::Safe,
        content_rating_spec(None) == ContentRating::Unknown,
{
    assert(all[before.len() as int] == g);
    reveal_strlit("yes");
    reveal_strlit("no");
    assert("yes"@.len() != "no"@.len());
}

/// The reader for a series, picked from its genre slugs: everything that
/// isn't a webtoon reads as manga on a japanese raw site.
pub fn viewer(genre_slugs: &[String]) -> (r: Viewer)
    ensures
        r == viewer_spec(views(genre_slugs@)),
{
    let mut i: usize = 0;
    while i < genre_slugs.len()
        invariant
            i <= genre_slugs@.len(),
            forall|j: int| 0 <= j < i ==> !is_webtoon_genre(#[trigger] views(genre_slugs@)[j]),
        decreases genre_slugs@.len() - i,
    {
        let slug = genre_slugs[i].as_str();
        assert(views(genre_slugs@)[i as int] == slug@);
        if str_eq(slug, "kaigai-manga") || str_contains(slug, "webtoon") {
            return Viewer::Webtoon;
        }
        i = i + 1;
    }
    Viewer::RightToLeft
}

pub open spec fn content_rating_spec(is_adult: Option<Seq<char>>) -> ContentRating {
    if is_adult == Some("yes"@) {
        ContentRating::NSFW
    } else if is_adult == Some("no"@) {
        ContentRating::Safe
    } else {
        ContentRating::Unknown
    }
}

pub fn content_rating(is_adult: Option<&str>) -> (r: ContentRating)
    ensures
        r == content_rating_spec(crate::atsumaru::opt_view(is_adult)),
{
    match is_adult {
        Some(a) => if str_eq(a, "yes") {
            ContentRating::NSFW
        } else if str_eq(a, "no") {
            ContentRating::Safe
        } else {
            ContentRating::Unknown
        },
        None => ContentRating::Unknown,
    }
}

/// A synopsis with its inline markup taken out: the text the markup parser
/// read off it (`parsed`), or the synopsis itself where it read none,
/// trimmed.
pub fn strip_html(parsed: Option<String>, text: &str) -> (r: String)
    ensures
        r@ == trim(
            match parsed {
                Some(t) => t@,
                None => text@,
            },
        ),
{
    crate::text::text_or_source(parsed, text)
}

/// A genre's name as a tag: trimmed, and nothing when that leaves it empty.
pub fn genre_tag(name: &str) -> (r: Option<String>)
    ensures
        opt_string(r) == (if trim(name@).len() > 0 {
            Some(trim(name@))
        } else {
            None::<Seq<char>>
        }),
{
    let t = trim_str(name);
    if t.as_str().is_empty() {
        None
    } else {
        Some(t)
    }
}

/// A genre of a title: its name, and the stable identifier its reader is
/// picked by.
pub struct Genre {
    pub name: String,
    pub slug: String,
}

impl Genre {
    /// The genre as a tag: its name trimmed, nothing when that is empty.
    pub fn into_tag(self) -> (r: Option<String>)
        ensures
            opt_string(r) == (if trim(self.name@).len() > 0 {
                Some(trim(self.name@))
            } else {
                None::<Seq<char>>
            }),
    {
        genre_tag(self.name.as_str())
    }
}

// ---------------------------------------------------------------------------
// Catalogue search
// ---------------------------------------------------------------------------

/// `needle` occurs in `haystack`, ASCII letters compared without regard to
/// case; an empty needle occurs everywhere.
pub open spec fn contains_ignore_ascii_case_spec(haystack: Seq<char>, needle: Seq<char>) -> bool {
    needle.len() == 0 || exists|i: int|
        0 <= i && i + needle.len() <= haystack.len() && eq_ignore_ascii_case(
            #[trigger] haystack.subrange(i, i + needle.len()),
            needle,
        )
}

pub fn contains_ignore_ascii_case(haystack: &str, needle: &str) -> (r: bool)
    ensures
        r == contains_ignore_ascii_case_spec(haystack@, needle@),
{
    let n = chars_of(needle);
    if n.len() == 0 {
        return true;
    }
    let h = chars_of(haystack);
    if n.len() > h.len() {
        return false;
    }
    let mut i: usize = 0;
    while i <= h.len() - n.len()
        invariant
            h.len() == h@.len(),
            n.len() == n@.len(),
            h@ == haystack@,
            n@ == needle@,
            n@.len() > 0,
            n@.len() <= h@.len(),
            i <= h@.len(),
            forall|j: int|
                0 <= j < i && j + n@.len() <= h@.len() ==> !eq_ignore_ascii_case(
                    #[trigger] h@.subrange(j, j + n@.len()),
                    n@,
                ),
        decreases h@.len() - i,
    {
        let w = slice_to_vec(h.as_slice(), i, i + n.len());
        if eq_ignore_ascii_case_exec(w.as_slice(), n.as_slice()) {
            return true;
        }
        i = i + 1;
    }
    proof {
        assert forall|j: int| 0 <= j && j + n@.len() <= h@.len() implies !eq_ignore_ascii_case(
            #[trigger] h@.subrange(j, j + n@.len()),
            n@,
        ) by {
            assert(j < i);
        }
    }
    false
}

/// A catalogue entry, which names some of its fields differently from the
/// listing entries.
pub struct CatalogueEntry {
    pub name: String,
    pub slug: String,
    /// Alternative titles, given as one comma separated field.
    pub alt_names: Option<String>,
    pub author: Option<String>,
    /// Cover file name on the thumbnail host.
    pub img: Option<String>,
    pub kind: Option<String>,
    pub is_adult: Option<String>,
}

impl CatalogueEntry {
    /// Whether the needle occurs in the name, the alternative titles or the
    /// author, the three fields the site's own search runs over.
    pub fn matches(&self, needle: &str) -> (r: bool)
        ensures
            r == (contains_ignore_ascii_case_spec(self.name@, needle@) || (match self.alt_names {
                Some(a) => contains_ignore_ascii_case_spec(a@, needle@),
                None => false,
            }) || (match self.author {
                Some(a) => contains_ignore_ascii_case_spec(a@, needle@),
                None => false,
            })),
    {
        if contains_ignore_ascii_case(self.name.as_str(), needle) {
            return true;
        }
        match &self.alt_names {
            Some(a) => {
                if contains_ignore_ascii_case(a.as_str(), needle) {
                    return true;
                }
            },
            None => {},
        }
        self.matches_author(needle)
    }

    /// Whether the needle occurs in the author.
    pub fn matches_author(&self, needle: &str) -> (r: bool)
        ensures
            r == (match self.author {
                Some(a) => contains_ignore_ascii_case_spec(a@, needle@),
                None => false,
            }),
    {
        match &self.author {
            Some(a) => contains_ignore_ascii_case(a.as_str(), needle),
            None => false,
        }
    }
}


// ---------------------------------------------------------------------------
// Image headers
// ---------------------------------------------------------------------------

/// The big-endian 16-bit value at `at`, when both its bytes are there.
pub open spec fn be16_at(head: Seq<u8>, at: int) -> Option<nat> {
    if 0 <= at && at + 1 < head.len() {
        Some((head[at] as nat) * 256 + head[at + 1] as nat)
    } else {
        None
    }
}

/// Markers standing on their own, without a segment behind them.
pub open spec fn is_standalone_marker(m: u8) -> bool {
    m == 0x01 || (0xD0 <= m <= 0xD9)
}

/// Start-of-frame markers, whose segment opens with the precision and then
/// the size of the image.
pub open spec fn is_frame_marker(m: u8) -> bool {
    (0xC0 <= m <= 0xC3) || (0xC5 <= m <= 0xC7) || (0xC9 <= m <= 0xCB) || (0xCD <= m <= 0xCF)
}

/// The size the first frame header from `index` on gives, walking the
/// markers: fill bytes are skipped one at a time, standalone markers take
/// two bytes and every other segment its length past the marker.
pub open spec fn jpeg_scan(head: Seq<u8>, index: int) -> Option<(u32, u32)>
    decreases head.len() - index,
{
    if index < 0 || index + 1 >= head.len() || head[index] != 0xFF {
        None
    } else {
        let m = head[index + 1];
        if m == 0xFF {
            jpeg_scan(head, index + 1)
        } else if is_standalone_marker(m) {
            jpeg_scan(head, index + 2)
        } else if is_frame_marker(m) {
            match (be16_at(head, index + 5), be16_at(head, index + 7)) {
                (Some(height), Some(width)) => Some((width as u32, height as u32)),
                _ => None,
            }
        } else {
            match be16_at(head, index + 2) {
                Some(length) => if index + 2 + length < head.len() {
                    jpeg_scan(head, index + 2 + length)
                } else {
                    None
                },
                None => None,
            }
        }
    }
}

/// The size of a JPEG image, (width, height), read off its first bytes.
pub open spec fn jpeg_size_spec(head: Seq<u8>) -> Option<(u32, u32)> {
    if head.len() >= 2 && head[0] == 0xFF && head[1] == 0xD8 {
        jpeg_scan(head, 2)
    } else {
        None
    }
}

fn be16(head: &[u8], at: usize) -> (r: u32)
    requires
        at + 1 < head@.len(),
    ensures
        be16_at(head@, at as int) == Some(r as nat),
        r < 0x10000,
{
    (head[at] as u32) * 256 + head[at + 1] as u32
}

/// The size of a JPEG image from its first bytes; nothing when they are not
/// a JPEG or stop before the frame header.
pub fn jpeg_size(head: &[u8]) -> (r: Option<(u32, u32)>)
    ensures
        r == jpeg_size_spec(head@),
{
    if head.len() < 2 || head[0] != 0xFF || head[1] != 0xD8 {
        return None;
    }
    let mut index: usize = 2;
    loop
        invariant
            2 <= index,
            head.len() == head@.len(),
            head@.len() >= 2 && head@[0] == 0xFF && head@[1] == 0xD8,
            jpeg_scan(head@, index as int) == jpeg_size_spec(head@),
        decreases head@.len() - index,
    {
        if index >= head.len() || head.len() - index < 2 || head[index] != 0xFF {
            return None;
        }
        let m = head[index + 1];
        if m == 0xFF {
            index = index + 1;
        } else if m == 0x01 || (0xD0 <= m && m <= 0xD9) {
            index = index + 2;
        } else if (0xC0 <= m && m <= 0xC3) || (0xC5 <= m && m <= 0xC7) || (0xC9 <= m && m <= 0xCB)
            || (0xCD <= m && m <= 0xCF) {
            if head.len() - index < 9 {
                if head.len() - index < 7 {
                    assert(be16_at(head@, index + 5) is None);
                } else {
                    assert(be16_at(head@, index + 7) is None);
                }
                return None;
            }
            let height = be16(head, index + 5);
            let width = be16(head, index + 7);
            return Some((width, height));
        } else {
            if head.len() - index < 4 {
                return None;
            }
            let length = be16(head, index + 2) as usize;
            if length >= head.len() - index - 2 {
                return None;
            }
            index = index + 2 + length;
        }
    }
}

/// The 14-bit little-endian size at `at` of a VP8 frame header; the two bits
/// above it say how the frame is upscaled, not how large it is.
pub open spec fn vp8_size_at(head: Seq<u8>, at: int) -> u32 {
    (head[at] as nat + (head[at + 1] as nat % 64) * 256) as u32
}

/// The size of a simple lossy WebP image, (width, height): a RIFF container
/// of kind WEBP holding a `VP8 ` chunk whose key frame start code is in place.
pub open spec fn webp_size_spec(head: Seq<u8>) -> Option<(u32, u32)> {
    if head.len() >= 30 && head.subrange(0, 4) == "RIFF"@.map_values(|c: char| c as u8)
        && head.subrange(8, 12) == "WEBP"@.map_values(|c: char| c as u8) && head.subrange(12, 16)
        == "VP8 "@.map_values(|c: char| c as u8) && head[23] == 0x9D && head[24] == 0x01
        && head[25] == 0x2A {
        Some((vp8_size_at(head, 26), vp8_size_at(head, 28)))
    } else {
        None
    }
}

fn vp8_size(head: &[u8], at: usize) -> (r: u32)
    requires
        at + 1 < head@.len(),
    ensures
        r == vp8_size_at(head@, at as int),
{
    head[at] as u32 + ((head[at + 1] % 64) as u32) * 256
}

/// The size of a WebP image from its first bytes; nothing for anything but
/// the simple lossy form.
pub fn webp_size(head: &[u8]) -> (r: Option<(u32, u32)>)
    ensures
        r == webp_size_spec(head@),
{
    proof {
        reveal_strlit("RIFF");
        reveal_strlit("WEBP");
        reveal_strlit("VP8 ");
    }
    if head.len() < 30 {
        return None;
    }
    let ok = head[0] == 0x52 && head[1] == 0x49 && head[2] == 0x46 && head[3] == 0x46
        && head[8] == 0x57 && head[9] == 0x45 && head[10] == 0x42 && head[11] == 0x50
        && head[12] == 0x56 && head[13] == 0x50 && head[14] == 0x38 && head[15] == 0x20
        && head[23] == 0x9D && head[24] == 0x01 && head[25] == 0x2A;
    let ghost riff = "RIFF"@.map_values(|c: char| c as u8);
    let ghost webp = "WEBP"@.map_values(|c: char| c as u8);
    let ghost vp8 = "VP8 "@.map_values(|c: char| c as u8);
    assert(riff =~= seq![0x52u8, 0x49, 0x46, 0x46]);
    assert(webp =~= seq![0x57u8, 0x45, 0x42, 0x50]);
    assert(vp8 =~= seq![0x56u8, 0x50, 0x38, 0x20]);
    if !ok {
        proof {
            if head@.subrange(0, 4) == riff && head@.subrange(8, 12) == webp && head@.subrange(12, 16)
                == vp8 {
                assert(head@[0] == head@.subrange(0, 4)[0]);
                assert(head@[1] == head@.subrange(0, 4)[1]);
                assert(head@[2] == head@.subrange(0, 4)[2]);
                assert(head@[3] == head@.subrange(0, 4)[3]);
                assert(head@[8] == head@.subrange(8, 12)[0]);
                assert(head@[9] == head@.subrange(8, 12)[1]);
                assert(head@[10] == head@.subrange(8, 12)[2]);
                assert(head@[11] == head@.subrange(8, 12)[3]);
                assert(head@[12] == head@.subrange(12, 16)[0]);
                assert(head@[13] == head@.subrange(12, 16)[1]);
                assert(head@[14] == head@.subrange(12, 16)[2]);
                assert(head@[15] == head@.subrange(12, 16)[3]);
            }
        }
        return None;
    }
    assert(head@.subrange(0, 4) =~= riff);
    assert(head@.subrange(8, 12) =~= webp);
    assert(head@.subrange(12, 16) =~= vp8);
    Some((vp8_size(head, 26), vp8_size(head, 28)))
}

/// The size of an image from the first bytes of its file: read as a JPEG,
/// else as a WebP.
pub fn header_size(head: &[u8]) -> (r: Option<(u32, u32)>)
    ensures
        r == (match jpeg_size_spec(head@) {
            Some(d) => Some(d),
            None => webp_size_spec(head@),
        }),
{
    match jpeg_size(head) {
        Some(d) => Some(d),
        None => webp_size(head),
    }
}


// ---------------------------------------------------------------------------
// Base64, hex and the keyed payloads
// ---------------------------------------------------------------------------

/// The value of a base64 digit, in either alphabet.
pub open spec fn b64_value(c: char) -> Option<u8> {
    if 'A' <= c <= 'Z' {
        Some(((c as u32) - 65) as u8)
    } else if 'a' <= c <= 'z' {
        Some(((c as u32) - 97 + 26) as u8)
    } else if '0' <= c <= '9' {
        Some(((c as u32) - 48 + 52) as u8)
    } else if c == '+' || c == '-' {
        Some(62u8)
    } else if c == '/' || c == '_' {
        Some(63u8)
    } else {
        None
    }
}

pub open spec fn is_b64_space(c: char) -> bool {
    c == ' ' || c == '\t' || c == '\r' || c == '\n'
}

/// The digit values of a base64 text up to its first `=`, white space
/// skipped; nothing when any other character comes first.
pub open spec fn sextets(s: Seq<char>) -> Option<Seq<u8>>
    decreases s.len(),
{
    if s.len() == 0 || s[0] == '=' {
        Some(Seq::empty())
    } else if is_b64_space(s[0]) {
        sextets(s.drop_first())
    } else {
        match (b64_value(s[0]), sextets(s.drop_first())) {
            (Some(v), Some(rest)) => Some(seq![v] + rest),
            _ => None,
        }
    }
}

/// The bytes a run of base64 digits stands for: every four digits give
/// three bytes, a trailing three give two, a trailing two give one and a
/// lone trailing digit gives nothing.
pub open spec fn sextet_bytes(x: Seq<u8>) -> Seq<u8>
    decreases x.len(),
{
    if x.len() < 2 {
        Seq::empty()
    } else {
        let b0 = (x[0] as nat * 4 + x[1] as nat / 16) as u8;
        if x.len() == 2 {
            seq![b0]
        } else {
            let b1 = ((x[1] as nat % 16) * 16 + x[2] as nat / 4) as u8;
            if x.len() == 3 {
                seq![b0, b1]
            } else {
                let b2 = ((x[2] as nat % 4) * 64 + x[3] as nat) as u8;
                seq![b0, b1, b2] + sextet_bytes(x.subrange(4, x.len() as int))
            }
        }
    }
}

pub open spec fn decode_base64_spec(s: Seq<char>) -> Option<Seq<u8>> {
    match sextets(s) {
        Some(x) => Some(sextet_bytes(x)),
        None => None,
    }
}

pub open spec fn prefixed(a: Seq<u8>, rest: Option<Seq<u8>>) -> Option<Seq<u8>> {
    match rest {
        Some(r) => Some(a + r),
        None => None,
    }
}

proof fn lemma_sextets_small(s: Seq<char>)
    ensures
        sextets(s) matches Some(x) ==> forall|j: int| 0 <= j < x.len() ==> #[trigger] x[j] < 64,
    decreases s.len(),
{
    if s.len() > 0 && s[0] != '=' {
        lemma_sextets_small(s.drop_first());
    }
}

/// The base64 digit of a value below 64: in the standard alphabet, or with
/// `url_safe` in the one that has `-` and `_` for the last two.
pub open spec fn b64_char(v: u8, url_safe: bool) -> char {
    if v < 26 {
        (v + 65) as char
    } else if v < 52 {
        (v - 26 + 97) as char
    } else if v < 62 {
        (v - 52 + 48) as char
    } else if v == 62 {
        if url_safe {
            '-'
        } else {
            '+'
        }
    } else {
        if url_safe {
            '_'
        } else {
            '/'
        }
    }
}

proof fn lemma_b64_char(v: u8, url_safe: bool)
    requires
        v < 64,
    ensures
        b64_value(b64_char(v, url_safe)) == Some(v),
        !is_b64_space(b64_char(v, url_safe)),
        b64_char(v, url_safe) != '=',
{
}

/// The digit values base64 writes for bytes: four for every three bytes,
/// and three or two for a trailing two or one.
pub open spec fn b64_digits(b: Seq<u8>) -> Seq<u8>
    decreases b.len(),
{
    if b.len() == 0 {
        Seq::empty()
    } else if b.len() == 1 {
        seq![(b[0] as nat / 4) as u8, ((b[0] as nat % 4) * 16) as u8]
    } else if b.len() == 2 {
        seq![
            (b[0] as nat / 4) as u8,
            ((b[0] as nat % 4) * 16 + b[1] as nat / 16) as u8,
            ((b[1] as nat % 16) * 4) as u8,
        ]
    } else {
        seq![
            (b[0] as nat / 4) as u8,
            ((b[0] as nat % 4) * 16 + b[1] as nat / 16) as u8,
            ((b[1] as nat % 16) * 4 + b[2] as nat / 64) as u8,
            (b[2] as nat % 64) as u8,
        ] + b64_digits(b.subrange(3, b.len() as int))
    }
}

/// The `=` that pad base64 of `n` bytes to a multiple of four digits.
pub open spec fn b64_padding(n: nat) -> Seq<char> {
    if n % 3 == 1 {
        seq!['=', '=']
    } else if n % 3 == 2 {
        seq!['=']
    } else {
        Seq::empty()
    }
}

/// Base64 of bytes, in the standard alphabet or the URL-safe one, with or
/// without padding.
pub open spec fn encode_base64(b: Seq<u8>, url_safe: bool, padded: bool) -> Seq<char> {
    b64_digits(b).map_values(|v: u8| b64_char(v, url_safe)) + (if padded {
        b64_padding(b.len())
    } else {
        Seq::empty()
    })
}

/// A text without its spaces, tabs and line breaks.
pub open spec fn strip_b64_space(s: Seq<char>) -> Seq<char>
    decreases s.len(),
{
    if s.len() == 0 {
        s
    } else if is_b64_space(s[0]) {
        strip_b64_space(s.drop_first())
    } else {
        seq![s[0]] + strip_b64_space(s.drop_first())
    }
}

/// A character that is no digit of either alphabet, no white space and no
/// padding.
pub open spec fn is_b64_bad(c: char) -> bool {
    b64_value(c) is None && !is_b64_space(c) && c != '='
}

proof fn lemma_div_mod_parts(x: int, d: int, q: int, r: int)
    requires
        d > 0,
        0 <= r < d,
        x == q * d + r,
    ensures
        x / d == q,
        x % d == r,
{
    vstd::arithmetic::div_mod::lemma_fundamental_div_mod_converse(x, d, q, r);
}

/// Three bytes written as four digits and read back.
proof fn lemma_b64_chunk(b0: int, b1: int, b2: int)
    requires
        0 <= b0 < 256,
        0 <= b1 < 256,
        0 <= b2 < 256,
    ensures
        ({
            let d0 = b0 / 4;
            let d1 = (b0 % 4) * 16 + b1 / 16;
            let d2 = (b1 % 16) * 4 + b2 / 64;
            let d3 = b2 % 64;
            &&& 0 <= d0 < 64 && 0 <= d1 < 64 && 0 <= d2 < 64 && 0 <= d3 < 64
            &&& d0 * 4 + d1 / 16 == b0
            &&& (d1 % 16) * 16 + d2 / 4 == b1
            &&& (d2 % 4) * 64 + d3 == b2
        }),
{
    vstd::arithmetic::div_mod::lemma_fundamental_div_mod(b0, 4);
    vstd::arithmetic::div_mod::lemma_fundamental_div_mod(b1, 16);
    vstd::arithmetic::div_mod::lemma_fundamental_div_mod(b2, 64);
    let d0 = b0 / 4;
    let d1 = (b0 % 4) * 16 + b1 / 16;
    let d2 = (b1 % 16) * 4 + b2 / 64;
    assert(0 <= b1 / 16 < 16) by {
        vstd::arithmetic::div_mod::lemma_div_pos_is_pos(b1, 16);
        vstd::arithmetic::div_mod::lemma_div_is_ordered(b1, 255, 16);
    }
    assert(0 <= b2 / 64 < 4) by {
        vstd::arithmetic::div_mod::lemma_div_pos_is_pos(b2, 64);
        vstd::arithmetic::div_mod::lemma_div_is_ordered(b2, 255, 64);
    }
    assert(0 <= d0 < 64) by {
        vstd::arithmetic::div_mod::lemma_div_pos_is_pos(b0, 4);
        vstd::arithmetic::div_mod::lemma_div_is_ordered(b0, 255, 4);
    }
    lemma_div_mod_parts(d1, 16, b0 % 4, b1 / 16);
    lemma_div_mod_parts(d2, 4, b1 % 16, b2 / 64);
}

/// The digits of bytes are all below 64.
proof fn lemma_b64_digits_small(b: Seq<u8>)
    ensures
        forall|j: int| 0 <= j < b64_digits(b).len() ==> #[trigger] b64_digits(b)[j] < 64,
    decreases b.len(),
{
    if b.len() >= 3 {
        lemma_b64_chunk(b[0] as int, b[1] as int, b[2] as int);
        lemma_b64_digits_small(b.subrange(3, b.len() as int));
        let rest = b64_digits(b.subrange(3, b.len() as int));
        assert forall|j: int| 0 <= j < b64_digits(b).len() implies #[trigger] b64_digits(b)[j] < 64 by {
            if j >= 4 {
                assert(b64_digits(b)[j] == rest[j - 4]);
            }
        }
    } else if b.len() == 2 {
        lemma_b64_chunk(b[0] as int, b[1] as int, 0);
    } else if b.len() == 1 {
        lemma_b64_chunk(b[0] as int, 0, 0);
    }
}

/// Reading the digits of bytes back gives the bytes.
proof fn lemma_b64_digits_bytes(b: Seq<u8>)
    ensures
        sextet_bytes(b64_digits(b)) == b,
    decreases b.len(),
{
    let x = b64_digits(b);
    if b.len() == 0 {
    } else if b.len() == 1 {
        lemma_b64_chunk(b[0] as int, 0, 0);
        assert(sextet_bytes(x) =~= b);
    } else if b.len() == 2 {
        lemma_b64_chunk(b[0] as int, b[1] as int, 0);
        assert(sextet_bytes(x) =~= b);
    } else {
        lemma_b64_chunk(b[0] as int, b[1] as int, b[2] as int);
        let rest = b.subrange(3, b.len() as int);
        lemma_b64_digits_bytes(rest);
        assert(x.subrange(4, x.len() as int) =~= b64_digits(rest));
        assert(sextet_bytes(x) =~= b);
    }
}

/// Digits followed by anything read as the digits followed by what that
/// reads as.
proof fn lemma_sextets_digits(t: Seq<u8>, url_safe: bool, tail: Seq<char>)
    requires
        forall|j: int| 0 <= j < t.len() ==> #[trigger] t[j] < 64,
    ensures
        sextets(t.map_values(|v: u8| b64_char(v, url_safe)) + tail) == prefixed(t, sextets(tail)),
    decreases t.len(),
{
    let s = t.map_values(|v: u8| b64_char(v, url_safe)) + tail;
    if t.len() == 0 {
        assert(s =~= tail);
        match sextets(tail) {
            Some(r) => assert(t + r =~= r),
            None => {},
        }
    } else {
        lemma_b64_char(t[0], url_safe);
        assert(s[0] == b64_char(t[0], url_safe));
        let t1 = t.drop_first();
        assert(s.drop_first() =~= t1.map_values(|v: u8| b64_char(v, url_safe)) + tail);
        lemma_sextets_digits(t1, url_safe, tail);
        match sextets(tail) {
            Some(r) => assert(seq![t[0]] + (t1 + r) =~= t + r),
            None => {},
        }
    }
}

/// White space does not change what a text reads as.
proof fn lemma_sextets_strip(s: Seq<char>)
    ensures
        sextets(s) == sextets(strip_b64_space(s)),
    decreases s.len(),
{
    if s.len() > 0 {
        lemma_sextets_strip(s.drop_first());
        if !is_b64_space(s[0]) {
            let t = seq![s[0]] + strip_b64_space(s.drop_first());
            assert(t[0] == s[0]);
            assert(t.drop_first() =~= strip_b64_space(s.drop_first()));
        }
    }
}

/// Base64 of any bytes, in the standard or the URL-safe alphabet, padded
/// or not, and with spaces, tabs and line breaks put anywhere, decodes to
/// the bytes.
pub proof fn lemma_decode_base64_roundtrip(b: Seq<u8>, url_safe: bool, padded: bool, s: Seq<char>)
    requires
        strip_b64_space(s) == encode_base64(b, url_safe, padded),
    ensures
        decode_base64_spec(s) == Some(b),
{
    lemma_sextets_strip(s);
    lemma_b64_digits_small(b);
    let pad = if padded {
        b64_padding(b.len())
    } else {
        Seq::empty()
    };
    lemma_sextets_digits(b64_digits(b), url_safe, pad);
    assert(sextets(pad) == Some(Seq::<u8>::empty()));
    assert(b64_digits(b) + Seq::<u8>::empty() =~= b64_digits(b));
    lemma_b64_digits_bytes(b);
}

/// A text fails to decode exactly when a character before its first `=` is
/// neither a digit of either alphabet nor white space.
pub proof fn lemma_decode_base64_fails(s: Seq<char>)
    ensures
        decode_base64_spec(s) is None <==> exists|i: int|
            0 <= i < s.len() && is_b64_bad(#[trigger] s[i]) && forall|j: int| 0 <= j < i ==> s[j] != '=',
    decreases s.len(),
{
    if s.len() > 0 {
        let t = s.drop_first();
        lemma_decode_base64_fails(t);
        if exists|i: int| 0 <= i < s.len() && is_b64_bad(#[trigger] s[i]) && forall|j: int| 0 <= j < i ==> s[j] != '=' {
            let i = choose|i: int| 0 <= i < s.len() && is_b64_bad(#[trigger] s[i]) && forall|j: int| 0 <= j < i ==> s[j] != '=';
            if i > 0 {
                assert(is_b64_bad(t[i - 1]));
                assert forall|j: int| 0 <= j < i - 1 implies t[j] != '=' by {
                    assert(t[j] == s[j + 1]);
                }
            }
        }
        if s[0] != '=' && !is_b64_space(s[0]) && b64_value(s[0]) is Some {
            if exists|i: int| 0 <= i < t.len() && is_b64_bad(#[trigger] t[i]) && forall|j: int| 0 <= j < i ==> t[j] != '=' {
                let i = choose|i: int| 0 <= i < t.len() && is_b64_bad(#[trigger] t[i]) && forall|j: int| 0 <= j < i ==> t[j] != '=';
                assert(is_b64_bad(s[i + 1]));
                assert forall|j: int| 0 <= j < i + 1 implies s[j] != '=' by {
                    if j > 0 {
                        assert(s[j] == t[j - 1]);
                    }
                }
            }
        }
        if is_b64_space(s[0]) {
            if exists|i: int| 0 <= i < t.len() && is_b64_bad(#[trigger] t[i]) && forall|j: int| 0 <= j < i ==> t[j] != '=' {
                let i = choose|i: int| 0 <= i < t.len() && is_b64_bad(#[trigger] t[i]) && forall|j: int| 0 <= j < i ==> t[j] != '=';
                assert(is_b64_bad(s[i + 1]));
                assert forall|j: int| 0 <= j < i + 1 implies s[j] != '=' by {
                    if j > 0 {
                        assert(s[j] == t[j - 1]);
                    }
                }
            }
        }
        if is_b64_bad(s[0]) {
            assert(forall|j: int| 0 <= j < 0 ==> s[j] != '=');
        }
    }
}

fn b64_digit(c: char) -> (r: Option<u8>)
    ensures
        r == b64_value(c),
{
    if 'A' <= c && c <= 'Z' {
        Some(((c as u32) - 65) as u8)
    } else if 'a' <= c && c <= 'z' {
        Some(((c as u32) - 97 + 26) as u8)
    } else if '0' <= c && c <= '9' {
        Some(((c as u32) - 48 + 52) as u8)
    } else if c == '+' || c == '-' {
        Some(62u8)
    } else if c == '/' || c == '_' {
        Some(63u8)
    } else {
        None
    }
}

fn sextets_exec(s: &[char]) -> (r: Option<Vec<u8>>)
    ensures
        match r {
            Some(v) => sextets(s@) == Some(v@),
            None => sextets(s@) is None,
        },
{
    let mut acc: Vec<u8> = Vec::new();
    let mut i: usize = 0;
    assert(s@.subrange(0, s@.len() as int) =~= s@);
    assert(acc@ + Seq::<u8>::empty() =~= Seq::<u8>::empty());
    while i < s.len()
        invariant
            i <= s@.len(),
            sextets(s@) == prefixed(acc@, sextets(s@.subrange(i as int, s@.len() as int))),
        decreases s@.len() - i,
    {
        let ghost rest = s@.subrange(i as int, s@.len() as int);
        assert(rest.drop_first() =~= s@.subrange(i + 1, s@.len() as int));
        let c = s[i];
        if c == '=' {
            assert(acc@ + Seq::<u8>::empty() =~= acc@);
            return Some(acc);
        }
        if !(c == ' ' || c == '\t' || c == '\r' || c == '\n') {
            match b64_digit(c) {
                Some(v) => {
                    let ghost before = acc@;
                    acc.push(v);
                    proof {
                        match sextets(s@.subrange(i + 1, s@.len() as int)) {
                            Some(r) => {
                                assert(before + (seq![v] + r) =~= acc@ + r);
                            },
                            None => {},
                        }
                    }
                },
                None => {
                    return None;
                },
            }
        }
        i = i + 1;
    }
    assert(s@.subrange(s@.len() as int, s@.len() as int) =~= Seq::<char>::empty());
    assert(acc@ + Seq::<u8>::empty() =~= acc@);
    Some(acc)
}

fn sextet_bytes_exec(x: &[u8]) -> (r: Vec<u8>)
    requires
        forall|j: int| 0 <= j < x@.len() ==> #[trigger] x@[j] < 64,
    ensures
        r@ == sextet_bytes(x@),
{
    let mut out: Vec<u8> = Vec::new();
    let mut i: usize = 0;
    let n = x.len();
    assert(x@.subrange(0, n as int) =~= x@);
    while n - i >= 4
        invariant
            i <= n,
            n == x@.len(),
            forall|j: int| 0 <= j < x@.len() ==> #[trigger] x@[j] < 64,
            out@ + sextet_bytes(x@.subrange(i as int, n as int)) == sextet_bytes(x@),
        decreases n - i,
    {
        let ghost rest = x@.subrange(i as int, n as int);
        let a = x[i];
        let b = x[i + 1];
        let c = x[i + 2];
        let d = x[i + 3];
        let b0 = a * 4 + b / 16;
        let b1 = (b % 16) * 16 + c / 4;
        let b2 = (c % 4) * 64 + d;
        let ghost before = out@;
        out.push(b0);
        out.push(b1);
        out.push(b2);
        assert(rest.subrange(4, rest.len() as int) =~= x@.subrange(i + 4, n as int));
        assert(rest[0] == a && rest[1] == b && rest[2] == c && rest[3] == d);
        assert(out@ =~= before + seq![b0, b1, b2]);
        assert(before + sextet_bytes(rest) =~= out@ + sextet_bytes(x@.subrange(i + 4, n as int)));
        i = i + 4;
    }
    let ghost rest = x@.subrange(i as int, n as int);
    let ghost before = out@;
    if n - i >= 2 {
        let a = x[i];
        let b = x[i + 1];
        out.push(a * 4 + b / 16);
        if n - i == 3 {
            let c = x[i + 2];
            out.push((b % 16) * 16 + c / 4);
        }
    }
    assert(before + sextet_bytes(rest) =~= out@);
    out
}

/// Base64 decoding as the site's own decoder does it: both alphabets,
/// optional padding, white space skipped, everything past the first `=`
/// ignored; nothing when another character turns up first.
pub fn decode_base64(input: &str) -> (r: Option<Vec<u8>>)
    ensures
        match r {
            Some(v) => decode_base64_spec(input@) == Some(v@),
            None => decode_base64_spec(input@) is None,
        },
{
    let v = chars_of(input);
    match sextets_exec(v.as_slice()) {
        Some(x) => {
            proof {
                lemma_sextets_small(input@);
            }
            Some(sextet_bytes_exec(x.as_slice()))
        },
        None => None,
    }
}

pub open spec fn hex_value(c: char) -> Option<u8> {
    if '0' <= c <= '9' {
        Some(((c as u32) - 48) as u8)
    } else if 'a' <= c <= 'f' {
        Some(((c as u32) - 97 + 10) as u8)
    } else if 'A' <= c <= 'F' {
        Some(((c as u32) - 65 + 10) as u8)
    } else {
        None
    }
}

/// The bytes a hex text stands for, two digits each, high digit first;
/// nothing when its length is odd or a character is not a hex digit.
pub open spec fn decode_hex_spec(s: Seq<char>) -> Option<Seq<u8>> {
    if s.len() % 2 == 1 || exists|i: int| 0 <= i < s.len() && #[trigger] hex_value(s[i]) is None {
        None
    } else {
        Some(
            Seq::new(
                s.len() / 2,
                |k: int| (hex_value(s[2 * k])->0 as nat * 16 + hex_value(s[2 * k + 1])->0 as nat) as u8,
            ),
        )
    }
}

fn hex_digit(c: char) -> (r: Option<u8>)
    ensures
        r == hex_value(c),
        r matches Some(v) ==> v < 16,
{
    if '0' <= c && c <= '9' {
        Some(((c as u32) - 48) as u8)
    } else if 'a' <= c && c <= 'f' {
        Some(((c as u32) - 97 + 10) as u8)
    } else if 'A' <= c && c <= 'F' {
        Some(((c as u32) - 65 + 10) as u8)
    } else {
        None
    }
}

pub fn decode_hex(input: &str) -> (r: Option<Vec<u8>>)
    ensures
        match r {
            Some(v) => decode_hex_spec(input@) == Some(v@),
            None => decode_hex_spec(input@) is None,
        },
{
    let s = chars_of(input);
    let n = s.len();
    if n % 2 == 1 {
        return None;
    }
    let mut out: Vec<u8> = Vec::new();
    let mut k: usize = 0;
    while k < n / 2
        invariant
            n == s@.len(),
            s@ == input@,
            n % 2 == 0,
            k <= n / 2,
            out@.len() == k,
            forall|j: int| 0 <= j < 2 * k ==> #[trigger] hex_value(s@[j]) is Some,
            forall|j: int|
                0 <= j < k ==> #[trigger] out@[j] == (hex_value(s@[2 * j])->0 as nat * 16
                    + hex_value(s@[2 * j + 1])->0 as nat) as u8,
        decreases n / 2 - k,
    {
        let hi = hex_digit(s[2 * k]);
        let lo = hex_digit(s[2 * k + 1]);
        match (hi, lo) {
            (Some(h), Some(l)) => {
                out.push(h * 16 + l);
            },
            _ => {
                proof {
                    if hi is None {
                        assert(hex_value(input@[2 * k as int]) is None);
                    } else {
                        assert(hex_value(input@[2 * k + 1]) is None);
                    }
                }
                return None;
            },
        }
        k = k + 1;
    }
    assert(out@ =~= Seq::new(
        n as nat / 2,
        |j: int| (hex_value(s@[2 * j])->0 as nat * 16 + hex_value(s@[2 * j + 1])->0 as nat) as u8,
    ));
    Some(out)
}

/// Each byte of `data` xored with the key byte at its position, the key
/// repeated as often as needed.
pub open spec fn xor_cycle(data: Seq<u8>, key: Seq<u8>) -> Seq<u8> {
    Seq::new(data.len(), |i: int| data[i] ^ key[i % key.len() as int])
}

/// Xoring with a repeated key is its own inverse.
pub proof fn lemma_xor_cycle_involution(data: Seq<u8>, key: Seq<u8>)
    ensures
        xor_cycle(xor_cycle(data, key), key) == data,
{
    let twice = xor_cycle(xor_cycle(data, key), key);
    assert forall|i: int| 0 <= i < data.len() implies twice[i] == data[i] by {
        let k = key[i % key.len() as int];
        let x = data[i];
        assert((x ^ k) ^ k == x) by (bit_vector);
    }
    assert(twice =~= data);
}

fn xor_with(bytes: &mut Vec<u8>, key: &[u8])
    requires
        key@.len() > 0,
    ensures
        final(bytes)@ == xor_cycle(old(bytes)@, key@),
{
    let ghost orig = bytes@;
    let mut i: usize = 0;
    while i < bytes.len()
        invariant
            key@.len() > 0,
            bytes@.len() == orig.len(),
            i <= bytes@.len(),
            forall|j: int| 0 <= j < i ==> #[trigger] bytes@[j] == orig[j] ^ key@[j % key@.len() as int],
            forall|j: int| i <= j < bytes@.len() ==> #[trigger] bytes@[j] == orig[j],
        decreases bytes@.len() - i,
    {
        let b = bytes[i] ^ key[i % key.len()];
        bytes.set(i, b);
        i = i + 1;
    }
    assert(bytes@ =~= xor_cycle(orig, key@));
}

/// Padding the payloads carry that json won't accept.
pub open spec fn is_blank(c: char) -> bool {
    c == '\0' || crate::text::is_whitespace(c)
}

pub open spec fn leading_boms(s: Seq<char>) -> nat
    decreases s.len(),
{
    if s.len() > 0 && s[0] == '\u{feff}' {
        1 + leading_boms(s.drop_first())
    } else {
        0
    }
}

pub open spec fn leading_blank(s: Seq<char>) -> nat
    decreases s.len(),
{
    if s.len() > 0 && is_blank(s[0]) {
        1 + leading_blank(s.drop_first())
    } else {
        0
    }
}

pub open spec fn trailing_blank(s: Seq<char>) -> nat
    decreases s.len(),
{
    if s.len() > 0 && is_blank(s.last()) {
        1 + trailing_blank(s.drop_last())
    } else {
        0
    }
}

/// The payload text with its leading byte order marks removed, then
/// padding removed from both ends.
pub open spec fn clean_payload(s: Seq<char>) -> Seq<char> {
    let a = s.subrange(leading_boms(s) as int, s.len() as int);
    let b = a.subrange(leading_blank(a) as int, a.len() as int);
    b.subrange(0, b.len() - trailing_blank(b))
}

proof fn lemma_leading_boms(s: Seq<char>, k: int)
    requires
        0 <= k <= s.len(),
        forall|j: int| 0 <= j < k ==> s[j] == '\u{feff}',
        k == s.len() || s[k] != '\u{feff}',
    ensures
        leading_boms(s) == k,
    decreases k,
{
    if k > 0 {
        lemma_leading_boms(s.drop_first(), k - 1);
    }
}

proof fn lemma_leading_blank(s: Seq<char>, k: int)
    requires
        0 <= k <= s.len(),
        forall|j: int| 0 <= j < k ==> is_blank(s[j]),
        k == s.len() || !is_blank(s[k]),
    ensures
        leading_blank(s) == k,
    decreases k,
{
    if k > 0 {
        lemma_leading_blank(s.drop_first(), k - 1);
    }
}

proof fn lemma_trailing_blank(s: Seq<char>, k: int)
    requires
        0 <= k <= s.len(),
        forall|j: int| s.len() - k <= j < s.len() ==> is_blank(s[j]),
        k == s.len() || !is_blank(s[s.len() - k - 1]),
    ensures
        trailing_blank(s) == k,
    decreases k,
{
    if k > 0 {
        lemma_trailing_blank(s.drop_last(), k - 1);
    }
}

fn is_blank_exec(c: char) -> (r: bool)
    ensures
        r == is_blank(c),
{
    c == '\0' || crate::text::is_whitespace_exec(c)
}

fn clean_payload_exec(s: &[char]) -> (r: Vec<char>)
    ensures
        r@ == clean_payload(s@),
{
    let n = s.len();
    let mut a: usize = 0;
    while a < n && s[a] == '\u{feff}'
        invariant
            a <= n,
            n == s@.len(),
            forall|j: int| 0 <= j < a ==> s@[j] == '\u{feff}',
        decreases n - a,
    {
        a = a + 1;
    }
    proof {
        lemma_leading_boms(s@, a as int);
    }
    let ghost sa = s@.subrange(a as int, n as int);
    let mut b: usize = a;
    while b < n && is_blank_exec(s[b])
        invariant
            a <= b <= n,
            n == s@.len(),
            sa == s@.subrange(a as int, n as int),
            forall|j: int| a <= j < b ==> is_blank(s@[j]),
        decreases n - b,
    {
        b = b + 1;
    }
    proof {
        lemma_leading_blank(sa, (b - a) as int);
    }
    let ghost sb = sa.subrange((b - a) as int, sa.len() as int);
    assert(sb =~= s@.subrange(b as int, n as int));
    let mut e: usize = n;
    while e > b && is_blank_exec(s[e - 1])
        invariant
            b <= e <= n,
            n == s@.len(),
            sb == s@.subrange(b as int, n as int),
            forall|j: int| e <= j < n ==> is_blank(s@[j]),
        decreases e - b,
    {
        e = e - 1;
    }
    proof {
        assert forall|j: int| sb.len() - (n - e) <= j < sb.len() implies is_blank(sb[j]) by {
            assert(sb[j] == s@[b + j]);
        }
        if e > b {
            assert(sb[sb.len() - (n - e) - 1] == s@[e - 1]);
        }
        lemma_trailing_blank(sb, (n - e) as int);
    }
    assert(sb.subrange(0, sb.len() - (n - e)) =~= s@.subrange(b as int, e as int));
    slice_to_vec(s, b, e)
}

pub open spec fn deobfuscate_spec(payload: Seq<char>, key: Seq<u8>) -> Option<Seq<char>> {
    if key.len() == 0 {
        None
    } else {
        match decode_base64_spec(payload) {
            Some(bytes) => {
                let x = xor_cycle(bytes, key);
                if vstd::utf8::valid_utf8(x) && clean_payload(vstd::utf8::decode_utf8(x)).len() > 0 {
                    Some(clean_payload(vstd::utf8::decode_utf8(x)))
                } else {
                    None
                }
            },
            None => None,
        }
    }
}

/// The page list of the image endpoint: base64 that, once xored with a
/// fixed key, is UTF-8 json behind byte order marks and padding.
pub fn deobfuscate(payload: &str, key: &[u8]) -> (r: Option<String>)
    ensures
        opt_string(r) == deobfuscate_spec(payload@, key@),
{
    if key.len() == 0 {
        return None;
    }
    let mut bytes = match decode_base64(payload) {
        Some(b) => b,
        None => return None,
    };
    xor_with(&mut bytes, key);
    let text = match crate::text::utf8_string(bytes) {
        Some(t) => t,
        None => return None,
    };
    let v = chars_of(text.as_str());
    let json = clean_payload_exec(v.as_slice());
    if json.len() == 0 {
        None
    } else {
        Some(string_of(json.as_slice()))
    }
}


// ---------------------------------------------------------------------------
// Encrypted page paths
// ---------------------------------------------------------------------------

/// What AES-256 makes of one 16-byte block under a 32-byte key: the cipher,
/// which takes its round tables and key schedule to state.
pub uninterp spec fn aes256_encrypted(key: Seq<u8>, block: Seq<u8>) -> Seq<u8>;

/// `Aes256::new` with the key, then `BlockEncrypt::encrypt_block` on a copy
/// of the block: the block encrypted under the key, which is all the claim.
/// `GenericArray::from_slice` panics unless the key has 32 bytes, which the
/// caller rules out.
#[verifier::external_body]
fn aes256_encrypt(key: &[u8], block: [u8; 16]) -> (r: [u8; 16])
    requires
        key@.len() == 32,
    ensures
        r@ == aes256_encrypted(key@, block@),
{
    let cipher = Aes256::new(GenericArray::from_slice(key));
    let mut b = GenericArray::from(block);
    cipher.encrypt_block(&mut b);
    b.into()
}

/// A counter block plus one, as a big-endian number that wraps around.
pub open spec fn increment_spec(c: Seq<u8>) -> Seq<u8>
    decreases c.len(),
{
    if c.len() == 0 {
        c
    } else if c.last() == 255 {
        increment_spec(c.drop_last()).push(0)
    } else {
        c.drop_last().push((c.last() + 1) as u8)
    }
}

/// The counter block used for the `k`-th block of the stream.
pub open spec fn counter_at(c0: Seq<u8>, k: nat) -> Seq<u8>
    decreases k,
{
    if k == 0 {
        c0
    } else {
        increment_spec(counter_at(c0, (k - 1) as nat))
    }
}

/// AES-256 in counter mode: byte `i` xored with byte `i % 16` of the
/// encrypted counter block `i / 16` counts from `c0`.
pub open spec fn ctr_apply(key: Seq<u8>, c0: Seq<u8>, data: Seq<u8>) -> Seq<u8> {
    Seq::new(
        data.len(),
        |i: int| data[i] ^ aes256_encrypted(key, counter_at(c0, (i / 16) as nat))[i % 16],
    )
}

/// Counter mode is its own inverse: applying it twice with the same key and
/// starting counter gives the bytes back.
pub proof fn lemma_ctr_apply_involution(key: Seq<u8>, c0: Seq<u8>, data: Seq<u8>)
    ensures
        ctr_apply(key, c0, ctr_apply(key, c0, data)) == data,
{
    let once = ctr_apply(key, c0, data);
    let twice = ctr_apply(key, c0, once);
    assert forall|i: int| 0 <= i < data.len() implies twice[i] == data[i] by {
        let k = aes256_encrypted(key, counter_at(c0, (i / 16) as nat))[i % 16];
        let x = data[i];
        assert((x ^ k) ^ k == x) by (bit_vector);
    }
    assert(twice =~= data);
}

/// The big-endian value of a byte string.
pub open spec fn be_value(c: Seq<u8>) -> nat
    decreases c.len(),
{
    if c.len() == 0 {
        0
    } else {
        be_value(c.drop_last()) * 256 + c.last() as nat
    }
}

pub open spec fn pow256(n: nat) -> nat
    decreases n,
{
    if n == 0 {
        1
    } else {
        256 * pow256((n - 1) as nat)
    }
}

proof fn lemma_be_value_bound(c: Seq<u8>)
    ensures
        be_value(c) < pow256(c.len()),
    decreases c.len(),
{
    if c.len() > 0 {
        lemma_be_value_bound(c.drop_last());
        let v = be_value(c.drop_last());
        let p = pow256((c.len() - 1) as nat);
        assert(v * 256 + (c.last() as nat) < p * 256) by (nonlinear_arith)
            requires
                v < p,
                c.last() < 256,
        ;
    }
}

/// Incrementing a counter block adds one to its big-endian value, wrapping
/// around past the largest value its length holds.
pub proof fn lemma_increment_adds_one(c: Seq<u8>)
    ensures
        increment_spec(c).len() == c.len(),
        be_value(increment_spec(c)) == (be_value(c) + 1) % pow256(c.len()),
    decreases c.len(),
{
    if c.len() > 0 {
        let d = c.drop_last();
        lemma_be_value_bound(d);
        let v: int = be_value(d) as int;
        let p: int = pow256(d.len()) as int;
        let l: int = c.last() as int;
        assert(pow256(c.len()) == 256 * pow256(d.len()));
        if c.last() == 255 {
            lemma_increment_adds_one(d);
            assert(increment_spec(c).drop_last() =~= increment_spec(d));
            if v + 1 == p {
                assert((v + 1) % p == 0) by (nonlinear_arith)
                    requires
                        v + 1 == p,
                        p > 0,
                ;
                assert((v * 256 + 255 + 1) % (256 * p) == 0) by (nonlinear_arith)
                    requires
                        v + 1 == p,
                        p > 0,
                ;
            } else {
                assert((v + 1) % p == v + 1) by (nonlinear_arith)
                    requires
                        0 <= v,
                        v + 1 < p,
                ;
                assert((v * 256 + 255 + 1) % (256 * p) == (v + 1) * 256) by (nonlinear_arith)
                    requires
                        0 <= v,
                        v + 1 < p,
                ;
            }
        } else {
            assert(increment_spec(c).drop_last() =~= d);
            assert((v * 256 + l + 1) % (256 * p) == v * 256 + l + 1) by (nonlinear_arith)
                requires
                    0 <= v < p,
                    0 <= l < 255,
            ;
        }
    }
}

/// Adds one to a counter block, as a big-endian number that wraps around.
fn increment(counter: &mut [u8; 16])
    ensures
        final(counter)@ == increment_spec(old(counter)@),
{
    let ghost c0 = counter@;
    let mut j: usize = 16;
    assert(c0.take(16) =~= c0);
    assert(increment_spec(c0) =~= increment_spec(c0.take(16)) + Seq::new(0, |k: int| 0u8));
    loop
        invariant
            1 <= j <= 16,
            c0 == old(counter)@,
            c0.len() == 16,
            counter@.len() == 16,
            forall|k: int| 0 <= k < j ==> #[trigger] counter@[k] == c0[k],
            forall|k: int| j <= k < 16 ==> #[trigger] counter@[k] == 0,
            forall|k: int| j <= k < 16 ==> #[trigger] c0[k] == 255,
            increment_spec(c0) == increment_spec(c0.take(j as int)) + Seq::new(
                (16 - j) as nat,
                |k: int| 0u8,
            ),
        decreases j,
    {
        let ghost t = c0.take(j as int);
        let ghost rest = Seq::new((16 - j) as nat, |k: int| 0u8);
        assert(t.drop_last() =~= c0.take(j - 1));
        j = j - 1;
        let b = counter[j];
        assert(t.last() == b);
        if b == 255 {
            counter[j] = 0;
            assert(increment_spec(t) == increment_spec(c0.take(j as int)).push(0));
            assert(increment_spec(c0.take(j as int)).push(0) + rest =~= increment_spec(
                c0.take(j as int),
            ) + Seq::new((16 - j) as nat, |k: int| 0u8));
            if j == 0 {
                assert(c0.take(0) =~= Seq::<u8>::empty());
                assert(increment_spec(c0.take(0)) =~= Seq::<u8>::empty());
                assert(increment_spec(c0) =~= Seq::new(16, |k: int| 0u8));
                assert(counter@ =~= increment_spec(c0));
                return;
            }
        } else {
            let ghost before = counter@;
            counter[j] = b + 1;
            assert(counter@ == before.update(j as int, (b + 1) as u8));
            assert(counter@[j as int] == (b + 1) as u8);
            assert(forall|k: int| 0 <= k < j ==> counter@[k] == c0[k]);
            assert(forall|k: int| j < k < 16 ==> counter@[k] == 0);
            assert(increment_spec(t) == c0.take(j as int).push((b + 1) as u8));
            assert(increment_spec(c0) == c0.take(j as int).push((b + 1) as u8) + rest);
            assert(counter@ =~= c0.take(j as int).push((b + 1) as u8) + rest);
            return;
        }
    }
}

pub open spec fn decrypt_path_spec(payload: Seq<char>, uuid: Seq<char>, secret: Seq<u8>) -> Option<Seq<char>> {
    if secret.len() == 0 {
        None
    } else {
        match decode_hex_spec(uuid) {
            Some(key) => if key.len() != 32 {
                None
            } else {
                match decode_base64_spec(payload) {
                    Some(bytes) => if bytes.len() <= 16 {
                        None
                    } else {
                        let x = xor_cycle(bytes, secret);
                        let path = ctr_apply(key, x.take(16), x.skip(16));
                        if vstd::utf8::valid_utf8(path) && path.len() > 0 {
                            Some(vstd::utf8::decode_utf8(path))
                        } else {
                            None
                        }
                    },
                    None => None,
                }
            },
            None => None,
        }
    }
}

/// A page's path: base64 that, once xored with a fixed secret, is the
/// counter block the stream starts at followed by the path encrypted with
/// AES-256 in counter mode, keyed on the chapter's uuid read as hex.
pub fn decrypt_path(payload: &str, uuid: &str, secret: &[u8]) -> (r: Option<String>)
    ensures
        opt_string(r) == decrypt_path_spec(payload@, uuid@, secret@),
{
    if secret.len() == 0 {
        return None;
    }
    let key = match decode_hex(uuid) {
        Some(k) => k,
        None => return None,
    };
    if key.len() != 32 {
        return None;
    }
    let mut bytes = match decode_base64(payload) {
        Some(b) => b,
        None => return None,
    };
    if bytes.len() <= 16 {
        return None;
    }
    xor_with(&mut bytes, secret);
    let ghost x = bytes@;
    let mut counter: [u8; 16] = [0u8; 16];
    let mut j: usize = 0;
    while j < 16
        invariant
            j <= 16,
            bytes@ == x,
            x.len() > 16,
            counter@.len() == 16,
            forall|k: int| 0 <= k < j ==> counter@[k] == x[k],
        decreases 16 - j,
    {
        counter[j] = bytes[j];
        j = j + 1;
    }
    assert(counter@ =~= x.take(16));
    let ghost data = x.skip(16);
    let ghost expected = ctr_apply(key@, x.take(16), data);
    let n = bytes.len();
    let mut path: Vec<u8> = Vec::new();
    let mut i: usize = 16;
    let ghost mut k: nat = 0;
    while i < n
        invariant
            n == bytes@.len(),
            bytes@ == x,
            key@.len() == 32,
            16 <= i <= n,
            i < n ==> i - 16 == 16 * k,
            data == x.skip(16),
            expected == ctr_apply(key@, x.take(16), data),
            counter@ == counter_at(x.take(16), k),
            path@.len() == i - 16,
            i - 16 <= data.len(),
            forall|t: int| 0 <= t < path@.len() ==> #[trigger] path@[t] == expected[t],
        decreases n - i,
    {
        let block = aes256_encrypt(key.as_slice(), counter);
        let mut m: usize = 0;
        while m < 16 && i + m < n
            invariant
                n == bytes@.len(),
                bytes@ == x,
                16 <= i < n,
                i - 16 == 16 * k,
                m <= 16,
                data == x.skip(16),
                expected == ctr_apply(key@, x.take(16), data),
                block@ == aes256_encrypted(key@, counter_at(x.take(16), k)),
                path@.len() == i - 16 + m,
                i + m <= n,
                forall|t: int| 0 <= t < path@.len() ==> #[trigger] path@[t] == expected[t],
            decreases 16 - m,
        {
            let t: usize = i - 16 + m;
            assert((16 * k + m) / 16 == k && (16 * k + m) % 16 == m as int) by (nonlinear_arith)
                requires
                    m < 16,
            ;
            assert(data[t as int] == x[i + m]);
            path.push(bytes[i + m] ^ block[m]);
            m = m + 1;
        }
        increment(&mut counter);
        proof {
            k = k + 1;
        }
        if n - i <= 16 {
            i = n;
        } else {
            i = i + 16;
        }
    }
    assert(path@ =~= expected);
    let text = crate::text::utf8_string(path);
    match text {
        Some(t) => if t.as_str().is_empty() {
            None
        } else {
            Some(t)
        },
        None => None,
    }
}


// ---------------------------------------------------------------------------
// Entries
// ---------------------------------------------------------------------------

/// A manga as it appears in a listing or in the search results.
pub struct MangaEntry {
    pub name: String,
    pub slug: String,
    pub author: Option<String>,
    /// Cover file name on the thumbnail host.
    pub image: Option<String>,
    /// Full cover url, which only the home and genre listings provide.
    pub thumbnail: Option<String>,
    /// Publishing status, either "incomplete" or "complete".
    pub kind: Option<String>,
    pub is_adult: Option<String>,
}

pub open spec fn opt_str_view(o: Option<String>) -> Option<Seq<char>> {
    opt_string(o)
}

fn as_opt_str(o: &Option<String>) -> (r: Option<&str>)
    ensures
        crate::atsumaru::opt_view(r) == opt_string(*o),
{
    match o {
        Some(s) => Some(s.as_str()),
        None => None,
    }
}

/// A listing entry as the app shows it, on the site at `base` with covers on
/// `host`. The reader is left unset: listings carry no genres.
pub fn entry_manga(
    name: &str,
    slug: String,
    author: Option<&str>,
    thumbnail: Option<String>,
    image: Option<&str>,
    kind: Option<&str>,
    is_adult: Option<&str>,
    base: &str,
    host: &str,
) -> (m: crate::model::Manga)
    ensures
        m.key == slug,
        m.title@ == trim(name@),
        opt_string(m.cover) == cover_spec(host@, opt_string(thumbnail), crate::atsumaru::opt_view(image)),
        opt_strings(m.authors) == authors_spec(crate::atsumaru::opt_view(author)),
        m.url matches Some(u) && u@ == manga_url_spec(base@, slug@),
        m.status == status_spec(crate::atsumaru::opt_view(kind)),
        m.content_rating == content_rating_spec(crate::atsumaru::opt_view(is_adult)),
        m.viewer == Viewer::Unknown,
        m.artists is None,
        m.description is None,
        m.tags is None,
{
    let url = manga_url(base, slug.as_str());
    let mut m = crate::model::Manga::new(slug, trim_str(name));
    m.cover = cover(host, thumbnail, image);
    m.authors = authors(author);
    m.url = Some(url);
    m.status = status(kind);
    m.content_rating = content_rating(is_adult);
    m
}

impl MangaEntry {
    pub fn into_manga(self, base: &str, host: &str) -> (m: crate::model::Manga)
        ensures
            m.key == self.slug,
            m.title@ == trim(self.name@),
            opt_string(m.cover) == cover_spec(host@, opt_string(self.thumbnail), opt_string(self.image)),
            opt_strings(m.authors) == authors_spec(opt_string(self.author)),
            m.url matches Some(u) && u@ == manga_url_spec(base@, self.slug@),
            m.status == status_spec(opt_string(self.kind)),
            m.content_rating == content_rating_spec(opt_string(self.is_adult)),
            m.viewer == Viewer::Unknown,
    {
        entry_manga(
            self.name.as_str(),
            self.slug,
            as_opt_str(&self.author),
            self.thumbnail,
            as_opt_str(&self.image),
            as_opt_str(&self.kind),
            as_opt_str(&self.is_adult),
            base,
            host,
        )
    }
}

impl CatalogueEntry {
    /// The entry as the app shows it; the dump gives genres as bare ids, so
    /// the reader is left to the details request.
    pub fn into_manga(self, base: &str, host: &str) -> (m: crate::model::Manga)
        ensures
            m.key == self.slug,
            m.title@ == trim(self.name@),
            opt_string(m.cover) == cover_spec(host@, None, opt_string(self.img)),
            opt_strings(m.authors) == authors_spec(opt_string(self.author)),
            m.url matches Some(u) && u@ == manga_url_spec(base@, self.slug@),
            m.status == status_spec(opt_string(self.kind)),
            m.content_rating == content_rating_spec(opt_string(self.is_adult)),
            m.viewer == Viewer::Unknown,
    {
        entry_manga(
            self.name.as_str(),
            self.slug,
            as_opt_str(&self.author),
            None,
            as_opt_str(&self.img),
            as_opt_str(&self.kind),
            as_opt_str(&self.is_adult),
            base,
            host,
        )
    }
}

/// A chapter of a manga's details.
pub struct ChapterEntry {
    pub id: i64,
    pub title: Option<String>,
    /// Slug of the chapter, prefixed with the slug of the manga it belongs to.
    pub path: String,
}

pub open spec fn trimmed_title(t: Option<Seq<char>>) -> Option<Seq<char>> {
    match t {
        Some(x) => if trim(x).len() > 0 {
            Some(trim(x))
        } else {
            None
        },
        None => None,
    }
}

impl ChapterEntry {
    /// The chapter as the app shows it. Its number (`number`, the decimal
    /// text the entry gives) and upload date are read by the caller.
    pub fn into_chapter(
        self,
        manga_id: i64,
        manga_slug: &str,
        base: &str,
        number: Option<String>,
        date_uploaded: Option<i64>,
    ) -> (c: crate::model::Chapter)
        ensures
            c.key@ == chapter_key_spec(manga_id as int, self.id as int),
            opt_string(c.title) == trimmed_title(opt_string(self.title)),
            c.number == number,
            c.date_uploaded == date_uploaded,
            c.url matches Some(u) && u@ == chapter_url_spec(base@, manga_slug@, self.path@),
            c.scanlators is None,
            c.language is None,
    {
        let mut c = crate::model::Chapter::new(chapter_key(manga_id, self.id));
        c.title = match self.title {
            Some(t) => genre_tag(t.as_str()),
            None => None,
        };
        c.number = number;
        c.date_uploaded = date_uploaded;
        c.url = Some(chapter_url(base, manga_slug, self.path.as_str()));
        c
    }
}

/// The non-empty texts among the blocks, in order.
pub open spec fn present_texts(ts: Seq<Option<Seq<char>>>) -> Seq<Seq<char>>
    decreases ts.len(),
{
    if ts.len() == 0 {
        Seq::empty()
    } else {
        let rest = present_texts(ts.drop_last());
        match ts.last() {
            Some(t) if t.len() > 0 => rest.push(t),
            _ => rest,
        }
    }
}

pub open spec fn opt_texts(v: Seq<Option<String>>) -> Seq<Option<Seq<char>>> {
    v.map_values(|o: Option<String>| opt_string(o))
}

pub open spec fn description_spec(plain: Option<Seq<char>>, blocks: Option<Seq<Option<Seq<char>>>>) -> Option<Seq<char>> {
    match plain {
        Some(p) if p.len() > 0 => Some(p),
        _ => match blocks {
            Some(bs) => {
                let ts = present_texts(bs);
                if ts.len() > 0 {
                    Some(crate::text::join(ts, "\n\n"@))
                } else {
                    None
                }
            },
            None => None,
        },
    }
}

proof fn lemma_join_nonempty(ps: Seq<Seq<char>>, sep: Seq<char>)
    requires
        forall|i: int| 0 <= i < ps.len() ==> (#[trigger] ps[i]).len() > 0,
    ensures
        (crate::text::join(ps, sep).len() == 0) == (ps.len() == 0),
    decreases ps.len(),
{
    if ps.len() > 1 {
        lemma_join_nonempty(ps.drop_last(), sep);
    }
}

proof fn lemma_present_nonempty(ts: Seq<Option<Seq<char>>>)
    ensures
        forall|i: int| 0 <= i < present_texts(ts).len() ==> (#[trigger] present_texts(ts)[i]).len() > 0,
    decreases ts.len(),
{
    if ts.len() > 0 {
        lemma_present_nonempty(ts.drop_last());
        let rest = present_texts(ts.drop_last());
        assert forall|i: int| 0 <= i < present_texts(ts).len() implies (
        #[trigger] present_texts(ts)[i]).len() > 0 by {
            if i < rest.len() {
                assert(present_texts(ts)[i] == rest[i]);
            }
        }
    }
}

/// A manga's synopsis: the plain description once its markup is gone
/// (`plain`), when that leaves anything; otherwise the paragraphs of the
/// Editor.js document the site stores it in (`blocks`, the text of each
/// block with its markup gone, nothing when the document is missing or
/// malformed), the non-empty ones joined by a blank line.
pub fn description(plain: Option<String>, blocks: Option<Vec<Option<String>>>) -> (r: Option<String>)
    ensures
        opt_string(r) == description_spec(
            opt_string(plain),
            match blocks {
                Some(b) => Some(opt_texts(b@)),
                None => None,
            },
        ),
{
    match plain {
        Some(p) => {
            if !p.as_str().is_empty() {
                return Some(p);
            }
        },
        None => {},
    }
    let bs = match blocks {
        Some(b) => b,
        None => return None,
    };
    let ghost tv = opt_texts(bs@);
    let mut out: Vec<char> = Vec::new();
    let mut i: usize = 0;
    assert(tv.take(0) =~= Seq::<Option<Seq<char>>>::empty());
    while i < bs.len()
        invariant
            i <= bs@.len(),
            tv == opt_texts(bs@),
            out@ == crate::text::join(present_texts(tv.take(i as int)), "\n\n"@),
            (out@.len() == 0) == (present_texts(tv.take(i as int)).len() == 0),
        decreases bs@.len() - i,
    {
        let ghost before = present_texts(tv.take(i as int));
        assert(tv.take(i + 1).drop_last() =~= tv.take(i as int));
        assert(tv.take(i + 1).last() == opt_string(bs@[i as int]));
        match &bs[i] {
            Some(t) => {
                if !t.as_str().is_empty() {
                    if out.len() > 0 {
                        push_str(&mut out, "\n\n");
                    }
                    push_str(&mut out, t.as_str());
                    proof {
                        reveal_strlit("\n\n");
                        let now = before.push(t@);
                        assert(now.drop_last() =~= before);
                        assert(now.last() == t@);
                        if before.len() == 0 {
                            assert(now =~= seq![t@]);
                        }
                    }
                }
            },
            None => {},
        }
        i = i + 1;
    }
    assert(tv.take(bs@.len() as int) =~= tv);
    proof {
        lemma_present_nonempty(tv);
        lemma_join_nonempty(present_texts(tv), "\n\n"@);
    }
    if out.len() == 0 {
        None
    } else {
        Some(string_of(out.as_slice()))
    }
}

} // verus!
