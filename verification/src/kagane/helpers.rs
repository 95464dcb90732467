//! Kagane's date reading, status names and chapter titles.
use vstd::prelude::*;
use crate::model::MangaStatus;
use crate::text::{ascii_upper, ascii_upper_exec, chars_of, push_slice, push_str, starts_with, str_eq, string_of, trim, trim_end, trim_exec};

verus! {

/// The seconds a date text names: as an RFC 3339 date and time, or else as
/// a date and time without offset read as UTC, or else zero.
pub open spec fn timestamp_spec(s: Seq<char>) -> int {
    match crate::dates::rfc3339_seconds(s) {
        Some(t) => t,
        None => match crate::dates::iso_local_seconds(s) {
            Some(t) => t,
            None => 0,
        },
    }
}

/// The upload time of a date text, in seconds; zero when it reads as
/// neither form.
pub fn parse_date(s: &str) -> (r: i64)
    ensures
        r as int == timestamp_spec(s@),
{
    match crate::dates::parse_rfc3339(s) {
        Some(t) => t,
        None => match crate::dates::parse_iso_local(s) {
            Some(t) => t,
            None => 0,
        },
    }
}

pub open spec fn status_spec(s: Seq<char>) -> MangaStatus {
    let u = ascii_upper(s);
    if u == "ONGOING"@ {
        MangaStatus::Ongoing
    } else if u == "COMPLETED"@ {
        MangaStatus::Completed
    } else if u == "HIATUS"@ {
        MangaStatus::Hiatus
    } else if u == "ABANDONED"@ {
        MangaStatus::Cancelled
    } else {
        MangaStatus::Unknown
    }
}

/// An upload status names, in any ASCII case, its status: "ONGOING",
/// "COMPLETED", "HIATUS", and "ABANDONED" for cancelled.
pub proof fn lemma_status_names(s: Seq<char>)
    ensures
        ascii_upper(s) == "ONGOING"@ ==> status_spec(s) == MangaStatus::Ongoing,
        ascii_upper(s) == "COMPLETED"@ ==> status_spec(s) == MangaStatus::Completed,
        ascii_upper(s) == "HIATUS"@ ==> status_spec(s) == MangaStatus::Hiatus,
        ascii_upper(s) == "ABANDONED"@ ==> status_spec(s) == MangaStatus::Cancelled,
{
    reveal_strlit("ONGOING");
    reveal_strlit("COMPLETED");
    reveal_strlit("HIATUS");
    reveal_strlit("ABANDONED");
    assert("ONGOING"@.len() == 7 && "COMPLETED"@.len() == 9 && "HIATUS"@.len() == 6);
    assert("ABANDONED"@.len() == 9 && "ABANDONED"@[0] != "COMPLETED"@[0]);
}

/// The publishing status an upload status names, in any ASCII case.
pub fn status_from_str(s: &str) -> (r: MangaStatus)
    ensures
        r == status_spec(s@),
{
    let u = string_of(ascii_upper_exec(chars_of(s).as_slice()).as_slice());
    let u = u.as_str();
    if str_eq(u, "ONGOING") {
        MangaStatus::Ongoing
    } else if str_eq(u, "COMPLETED") {
        MangaStatus::Completed
    } else if str_eq(u, "HIATUS") {
        MangaStatus::Hiatus
    } else if str_eq(u, "ABANDONED") {
        MangaStatus::Cancelled
    } else {
        MangaStatus::Unknown
    }
}

/// A number text, when it is there and not empty.
pub open spec fn present(o: Option<Seq<char>>) -> Option<Seq<char>> {
    match o {
        Some(s) if s.len() > 0 => Some(s),
        _ => None,
    }
}

/// A chapter's name in a title mode: "optional" names untitled chapters by
/// their number, "always" puts the number in front of every title, and any
/// other mode puts the volume and chapter numbers in front.
pub open spec fn chapter_name_spec(
    title: Seq<char>,
    chapter_no: Option<Seq<char>>,
    volume_no: Option<Seq<char>>,
    mode: Seq<char>,
) -> Seq<char> {
    let t = trim(title);
    if mode == "optional"@ {
        match present(chapter_no) {
            Some(ch) if t.len() == 0 => "Ch."@ + ch,
            _ => t,
        }
    } else if mode == "always"@ {
        match present(chapter_no) {
            None => t,
            Some(ch) => if t.len() == 0 {
                "Ch."@ + ch
            } else {
                "Ch."@ + ch + " "@ + t
            },
        }
    } else {
        let num = trim_end(
            (match present(volume_no) {
                Some(v) => "Vol."@ + v + " "@,
                None => Seq::empty(),
            }) + (match present(chapter_no) {
                Some(ch) => "Ch."@ + ch,
                None => Seq::empty(),
            }),
        );
        if num.len() == 0 {
            t
        } else if t.len() == 0 {
            num
        } else {
            num + " "@ + t
        }
    }
}

fn present_exec(o: Option<&str>) -> (r: Option<&str>)
    ensures
        crate::atsumaru::opt_view(r) == present(crate::atsumaru::opt_view(o)),
{
    match o {
        Some(s) => if s.is_empty() {
            None
        } else {
            Some(s)
        },
        None => None,
    }
}

fn trim_end_vec(s: &[char]) -> (r: Vec<char>)
    ensures
        r@ == trim_end(s@),
{
    let mut e: usize = s.len();
    while e > 0 && crate::text::is_whitespace_exec(s[e - 1])
        invariant
            e <= s@.len(),
            forall|j: int| e <= j < s@.len() ==> crate::text::is_whitespace(s@[j]),
        decreases e,
    {
        e = e - 1;
    }
    proof {
        lemma_trailing(s@, (s@.len() - e) as int);
    }
    crate::text::slice_to_vec(s, 0, e)
}

proof fn lemma_trailing(s: Seq<char>, k: int)
    requires
        0 <= k <= s.len(),
        forall|j: int| s.len() - k <= j < s.len() ==> crate::text::is_whitespace(s[j]),
        k == s.len() || !crate::text::is_whitespace(s[s.len() - k - 1]),
    ensures
        crate::text::trailing_ws(s) == k,
    decreases k,
{
    if k > 0 {
        lemma_trailing(s.drop_last(), k - 1);
    }
}

/// With a chapter number, the "always" mode puts "Ch." and the number in
/// front of every name: a chapter without a title is named "Ch.<number>",
/// one with a title "Ch.<number> <title>" (the title trimmed); so the name
/// is never empty. The "optional" mode names a chapter without a title
/// "Ch.<number>" too, and keeps a title as it is (trimmed).
pub proof fn lemma_numbered_names(title: Seq<char>, ch: Seq<char>, volume_no: Option<Seq<char>>)
    requires
        ch.len() > 0,
    ensures
        trim(title).len() == 0 ==> chapter_name_spec(title, Some(ch), volume_no, "always"@) == "Ch."@ + ch,
        trim(title).len() > 0 ==> chapter_name_spec(title, Some(ch), volume_no, "always"@) == "Ch."@ + ch + " "@
            + trim(title),
        chapter_name_spec(title, Some(ch), volume_no, "always"@).len() > 0,
        starts_with(chapter_name_spec(title, Some(ch), volume_no, "always"@), "Ch."@ + ch),
        trim(title).len() == 0 ==> chapter_name_spec(title, Some(ch), volume_no, "optional"@) == "Ch."@ + ch,
        trim(title).len() > 0 ==> chapter_name_spec(title, Some(ch), volume_no, "optional"@) == trim(title),
{
    reveal_strlit("always");
    reveal_strlit("optional");
    assert("always"@ != "optional"@) by {
        assert("always"@.len() != "optional"@.len());
    }
    let name = chapter_name_spec(title, Some(ch), volume_no, "always"@);
    let p = "Ch."@ + ch;
    if trim(title).len() == 0 {
        assert(name.subrange(0, p.len() as int) =~= p);
    } else {
        assert(name.subrange(0, p.len() as int) =~= p);
    }
}

pub fn build_chapter_name(title: &str, chapter_no: Option<&str>, volume_no: Option<&str>, mode: &str) -> (r: String)
    ensures
        r@ == chapter_name_spec(
            title@,
            crate::atsumaru::opt_view(chapter_no),
            crate::atsumaru::opt_view(volume_no),
            mode@,
        ),
{
    let t = trim_exec(chars_of(title).as_slice());
    let ch = present_exec(chapter_no);
    let vol = present_exec(volume_no);
    let ghost spec_r = chapter_name_spec(
        title@,
        crate::atsumaru::opt_view(chapter_no),
        crate::atsumaru::opt_view(volume_no),
        mode@,
    );
    let mut out: Vec<char> = Vec::new();
    if str_eq(mode, "optional") {
        match ch {
            Some(c) => if t.len() == 0 {
                push_str(&mut out, "Ch.");
                push_str(&mut out, c);
                assert(out@ =~= "Ch."@ + c@);
            } else {
                push_slice(&mut out, t.as_slice());
                assert(out@ =~= t@);
            },
            None => {
                push_slice(&mut out, t.as_slice());
                assert(out@ =~= t@);
            },
        }
    } else if str_eq(mode, "always") {
        match ch {
            None => {
                push_slice(&mut out, t.as_slice());
                assert(out@ =~= t@);
            },
            Some(c) => {
                push_str(&mut out, "Ch.");
                push_str(&mut out, c);
                if t.len() > 0 {
                    push_str(&mut out, " ");
                    push_slice(&mut out, t.as_slice());
                    assert(out@ =~= "Ch."@ + c@ + " "@ + t@);
                } else {
                    assert(out@ =~= "Ch."@ + c@);
                }
            },
        }
    } else {
        let mut num: Vec<char> = Vec::new();
        let ghost vp = match crate::atsumaru::opt_view(vol) {
            Some(v) => "Vol."@ + v + " "@,
            None => Seq::empty(),
        };
        let ghost cp = match crate::atsumaru::opt_view(ch) {
            Some(c) => "Ch."@ + c,
            None => Seq::empty(),
        };
        match vol {
            Some(v) => {
                push_str(&mut num, "Vol.");
                push_str(&mut num, v);
                push_str(&mut num, " ");
            },
            None => {},
        }
        assert(num@ =~= vp);
        match ch {
            Some(c) => {
                push_str(&mut num, "Ch.");
                push_str(&mut num, c);
            },
            None => {},
        }
        assert(num@ =~= vp + cp);
        let n = trim_end_vec(num.as_slice());
        if n.len() == 0 {
            push_slice(&mut out, t.as_slice());
            assert(out@ =~= t@);
        } else if t.len() == 0 {
            push_slice(&mut out, n.as_slice());
            assert(out@ =~= n@);
        } else {
            push_slice(&mut out, n.as_slice());
            push_str(&mut out, " ");
            push_slice(&mut out, t.as_slice());
            assert(out@ =~= n@ + " "@ + t@);
        }
    }
    assert(out@ == spec_r);
    string_of(out.as_slice())
}

} // verus!
