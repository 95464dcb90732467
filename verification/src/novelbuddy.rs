//! NovelBuddy: chapter HTML rendered as the Markdown the app shows novels
//! in. The markup is read into a tree of its own by the caller; this module
//! renders the tree.
use vstd::prelude::*;
use crate::text::{
    chars_of, dec, ends_with, ends_with_exec, push_slice, push_str, split, starts_with, str_eq,
    string_of, trim, trim_end, trim_exec,
};

verus! {

/// A node of parsed chapter markup: a text node (its text), or an element
/// with its tag name, its whole descendant text, the attributes the
/// rendering reads, and its child nodes in document order.
pub enum HtmlNode {
    Text(String),
    Element {
        tag: String,
        text: Option<String>,
        src: Option<String>,
        alt: Option<String>,
        href: Option<String>,
        children: Vec<HtmlNode>,
    },
}

// ---------------------------------------------------------------------------
// Backtick runs
// ---------------------------------------------------------------------------

/// A run of `k` backticks starts at `i`.
pub open spec fn is_run_at(s: Seq<char>, i: int, k: int) -> bool {
    0 <= i && 0 <= k && i + k <= s.len() && forall|j: int| i <= j < i + k ==> s[j] == '`'
}

pub open spec fn has_run(s: Seq<char>, k: int) -> bool {
    exists|i: int| is_run_at(s, i, k)
}

/// Length of the longest consecutive backtick run in `text`.
pub fn longest_backtick_run(text: &str) -> (r: usize)
    ensures
        has_run(text@, r as int),
        forall|k: int| k > r ==> !has_run(text@, k),
{
    let s = chars_of(text);
    let mut longest: usize = 0;
    let mut current: usize = 0;
    let mut i: usize = 0;
    assert(is_run_at(s@, 0, 0));
    while i < s.len()
        invariant
            s@ == text@,
            i <= s@.len(),
            current <= longest <= i,
            is_run_at(s@, i - current, current as int),
            i - current == 0 || s@[i - current - 1] != '`',
            exists|j: int| is_run_at(s@, j, longest as int) && j + longest <= i,
            forall|j: int, k: int| is_run_at(s@, j, k) && j + k <= i ==> k <= longest,
        decreases s@.len() - i,
    {
        if s[i] == '`' {
            proof {
                assert forall|j: int, k: int| is_run_at(s@, j, k) && j + k <= i + 1 implies k <= (if current
                    + 1 > longest {
                    current + 1
                } else {
                    longest as int
                }) by {
                    if j + k == i + 1 && k > current + 1 {
                        assert(s@[i - current - 1] == '`');
                    }
                }
            }
            current = current + 1;
            if current > longest {
                longest = current;
                assert(is_run_at(s@, i + 1 - current, current as int));
            }
        } else {
            proof {
                assert forall|j: int, k: int| is_run_at(s@, j, k) && j + k <= i + 1 implies k <= longest by {
                    if j + k == i + 1 && k > 0 {
                        assert(s@[i as int] == '`');
                    }
                }
            }
            current = 0;
        }
        i = i + 1;
    }
    let ghost w = choose|j: int| is_run_at(s@, j, longest as int) && j + longest <= i;
    assert(is_run_at(text@, w, longest as int));
    longest
}

/// The length of the longest backtick run.
pub open spec fn backtick_run(s: Seq<char>) -> int {
    choose|k: int| has_run(s, k) && forall|m: int| m > k ==> !has_run(s, m)
}

proof fn lemma_backtick_run(s: Seq<char>, r: int)
    requires
        has_run(s, r),
        forall|k: int| k > r ==> !has_run(s, k),
    ensures
        backtick_run(s) == r,
{
    let c = choose|k: int| has_run(s, k) && forall|m: int| m > k ==> !has_run(s, m);
    assert(has_run(s, c) && forall|m: int| m > c ==> !has_run(s, m));
    if c < r {
        assert(!has_run(s, r));
    }
    if c > r {
        assert(!has_run(s, c));
    }
}

// ---------------------------------------------------------------------------
// Rendering
// ---------------------------------------------------------------------------

pub open spec fn is_ascii_punctuation(c: char) -> bool {
    ('!' <= c <= '/') || (':' <= c <= '@') || ('[' <= c <= '`') || ('{' <= c <= '~')
}

/// Text with every ASCII punctuation character escaped by a backslash, so
/// that it reads literally in Markdown.
pub open spec fn escape_markdown(s: Seq<char>) -> Seq<char>
    decreases s.len(),
{
    if s.len() == 0 {
        s
    } else {
        escape_markdown(s.drop_last()) + (if is_ascii_punctuation(s.last()) {
            seq!['\\', s.last()]
        } else {
            seq![s.last()]
        })
    }
}

pub open spec fn repeat(c: char, n: nat) -> Seq<char> {
    Seq::new(n, |i: int| c)
}

pub open spec fn opt_text(o: Option<String>) -> Seq<char> {
    match o {
        Some(t) => t@,
        None => Seq::empty(),
    }
}

pub open spec fn is_heading(tag: Seq<char>) -> bool {
    tag == "h1"@ || tag == "h2"@ || tag == "h3"@ || tag == "h4"@ || tag == "h5"@ || tag == "h6"@
}

pub open spec fn heading_level(tag: Seq<char>) -> nat {
    ((tag[1] as u32) - 48) as nat
}

/// The marker an inline style is written with, when the tag is one.
pub open spec fn inline_marker(tag: Seq<char>) -> Option<Seq<char>> {
    if tag == "strong"@ || tag == "b"@ {
        Some("**"@)
    } else if tag == "em"@ || tag == "i"@ {
        Some("*"@)
    } else if tag == "u"@ {
        Some("__"@)
    } else if tag == "s"@ || tag == "strike"@ || tag == "del"@ {
        Some("~~"@)
    } else {
        None
    }
}

pub open spec fn is_block_container(tag: Seq<char>) -> bool {
    tag == "div"@ || tag == "section"@ || tag == "article"@ || tag == "header"@ || tag == "footer"@
        || tag == "main"@ || tag == "aside"@
}

/// An inline code span: delimited by one backtick more than the longest
/// run inside, and space padded when the code touches a delimiter.
pub open spec fn code_span(raw: Seq<char>) -> Seq<char> {
    let ticks = repeat('`', (backtick_run(raw) + 1) as nat);
    ticks + (if starts_with(raw, "`"@) || ends_with(raw, "`"@) {
        " "@ + raw + " "@
    } else {
        raw
    }) + ticks
}

/// A fenced block: a fence of at least three backticks, longer than any
/// run inside.
pub open spec fn fenced_block(raw: Seq<char>) -> Seq<char> {
    let n = if backtick_run(raw) + 1 > 3 {
        backtick_run(raw) + 1
    } else {
        3
    };
    let fence = repeat('`', n as nat);
    fence + "\n"@ + raw + (if ends_with(raw, "\n"@) {
        Seq::empty()
    } else {
        "\n"@
    }) + fence + "\n\n"@
}

/// `str::lines`: the text split at line feeds, without a last empty line,
/// each line without a trailing carriage return.
pub open spec fn lines(s: Seq<char>) -> Seq<Seq<char>> {
    let ps = split(s, '\n');
    let ps2 = if ps.last().len() == 0 {
        ps.drop_last()
    } else {
        ps
    };
    ps2.map_values(
        |l: Seq<char>|
            if l.len() > 0 && l.last() == '\r' {
                l.drop_last()
            } else {
                l
            },
    )
}

/// Lines each prefixed by `> `, joined by line feeds.
pub open spec fn quote_lines(ls: Seq<Seq<char>>) -> Seq<char>
    decreases ls.len(),
{
    if ls.len() == 0 {
        Seq::empty()
    } else if ls.len() == 1 {
        "> "@ + ls[0]
    } else {
        quote_lines(ls.drop_last()) + "\n"@ + "> "@ + ls.last()
    }
}

/// The number of `li` elements among the nodes.
pub open spec fn li_count(ns: Seq<HtmlNode>) -> nat
    decreases ns.len(),
{
    if ns.len() == 0 {
        0
    } else {
        li_count(ns.drop_last()) + (match ns.last() {
            HtmlNode::Element { tag, .. } => if tag@ == "li"@ {
                1nat
            } else {
                0nat
            },
            _ => 0nat,
        })
    }
}

/// `out` followed by the Markdown of a node.
pub open spec fn md_node(out: Seq<char>, n: HtmlNode) -> Seq<char>
    decreases n,
{
    match n {
        HtmlNode::Text(t) => out + escape_markdown(t@),
        HtmlNode::Element { tag, text, src, alt, href, children } => {
            let t = tag@;
            if t == "p"@ {
                md_nodes(out, children@) + "\n\n"@
            } else if t == "br"@ {
                out + "  \n"@
            } else if is_heading(t) {
                md_nodes(out + repeat('#', heading_level(t)) + " "@, children@) + "\n\n"@
            } else if inline_marker(t) is Some {
                let inner = trim(md_nodes(Seq::empty(), children@));
                if inner.len() > 0 {
                    out + inline_marker(t)->0 + inner + inline_marker(t)->0
                } else {
                    out
                }
            } else if t == "code"@ {
                out + code_span(opt_text(text))
            } else if t == "pre"@ {
                out + fenced_block(opt_text(text))
            } else if t == "img"@ {
                match src {
                    Some(s) => out + "!["@ + opt_text(alt) + "]("@ + s@ + ")\n\n"@,
                    None => out,
                }
            } else if t == "a"@ {
                match href {
                    Some(h) => md_nodes(out + "["@, children@) + "]("@ + h@ + ")"@,
                    None => md_nodes(out, children@),
                }
            } else if t == "hr"@ {
                out + "---\n\n"@
            } else if t == "ul"@ || t == "ol"@ {
                md_list(out, children@, t == "ol"@) + "\n"@
            } else if t == "blockquote"@ {
                out + quote_lines(lines(trim_end(md_nodes(Seq::empty(), children@)))) + "\n\n"@
            } else if is_block_container(t) {
                let o = md_nodes(out, children@);
                if ends_with(o, "\n\n"@) || ends_with(o, "\n"@) {
                    o
                } else {
                    o + "\n"@
                }
            } else {
                md_nodes(out, children@)
            }
        },
    }
}

/// `out` followed by the Markdown of the nodes, in order.
pub open spec fn md_nodes(out: Seq<char>, ns: Seq<HtmlNode>) -> Seq<char>
    decreases ns,
{
    if ns.len() == 0 {
        out
    } else {
        md_node(md_nodes(out, ns.drop_last()), ns.last())
    }
}

/// `out` followed by a list's items, each a line opening with its bullet,
/// or with its number among the `li` elements when the list is ordered.
pub open spec fn md_list(out: Seq<char>, ns: Seq<HtmlNode>, ordered: bool) -> Seq<char>
    decreases ns,
{
    if ns.len() == 0 {
        out
    } else {
        let o = md_list(out, ns.drop_last(), ordered);
        match ns.last() {
            HtmlNode::Element { tag, children, .. } => if tag@ == "li"@ {
                let marker = if ordered {
                    dec(li_count(ns.drop_last()) + 1) + ". "@
                } else {
                    "- "@
                };
                md_nodes(o + marker, children@) + "\n"@
            } else {
                o
            },
            _ => o,
        }
    }
}


// ---------------------------------------------------------------------------
// Rendering, executable
// ---------------------------------------------------------------------------

fn push_escaped(out: &mut Vec<char>, t: &str)
    ensures
        final(out)@ == old(out)@ + escape_markdown(t@),
{
    let s = chars_of(t);
    let ghost start = out@;
    let mut i: usize = 0;
    assert(s@.take(0) =~= Seq::<char>::empty());
    assert(start + escape_markdown(Seq::<char>::empty()) =~= start);
    while i < s.len()
        invariant
            i <= s@.len(),
            s@ == t@,
            out@ == start + escape_markdown(s@.take(i as int)),
        decreases s@.len() - i,
    {
        let c = s[i];
        assert(s@.take(i + 1).drop_last() =~= s@.take(i as int));
        assert(s@.take(i + 1).last() == c);
        if ('!' <= c && c <= '/') || (':' <= c && c <= '@') || ('[' <= c && c <= '`') || ('{' <= c
            && c <= '~') {
            out.push('\\');
        }
        out.push(c);
        i = i + 1;
    }
    assert(s@.take(s@.len() as int) =~= s@);
}

fn push_repeat(out: &mut Vec<char>, c: char, n: usize)
    ensures
        final(out)@ == old(out)@ + repeat(c, n as nat),
{
    let ghost start = out@;
    let mut i: usize = 0;
    while i < n
        invariant
            i <= n,
            out@ == start + repeat(c, i as nat),
        decreases n - i,
    {
        out.push(c);
        assert(start + repeat(c, (i + 1) as nat) =~= (start + repeat(c, i as nat)).push(c));
        i = i + 1;
    }
}

fn raw_text(text: &Option<String>) -> (r: Vec<char>)
    ensures
        r@ == opt_text(*text),
{
    match text {
        Some(t) => chars_of(t.as_str()),
        None => Vec::new(),
    }
}

proof fn lemma_tick_ends(raw: Seq<char>)
    ensures
        starts_with(raw, "`"@) == (raw.len() > 0 && raw[0] == '`'),
        ends_with(raw, "`"@) == (raw.len() > 0 && raw[raw.len() - 1] == '`'),
        ends_with(raw, "\n"@) == (raw.len() > 0 && raw[raw.len() - 1] == '\n'),
{
    reveal_strlit("`");
    reveal_strlit("\n");
    assert("`"@ =~= seq!['`']);
    assert("\n"@ =~= seq!['\n']);
    if raw.len() > 0 {
        assert(raw.subrange(0, 1) =~= seq![raw[0]]);
        assert(raw.subrange(raw.len() - 1, raw.len() as int) =~= seq![raw[raw.len() - 1]]);
        if raw.subrange(0, 1) == "`"@ {
            assert(raw.subrange(0, 1)[0] == "`"@[0]);
        }
        if raw.subrange(raw.len() - 1, raw.len() as int) == "`"@ {
            assert(raw.subrange(raw.len() - 1, raw.len() as int)[0] == "`"@[0]);
        }
        if raw.subrange(raw.len() - 1, raw.len() as int) == "\n"@ {
            assert(raw.subrange(raw.len() - 1, raw.len() as int)[0] == "\n"@[0]);
        }
    }
}

fn push_code_span(out: &mut Vec<char>, raw: &[char])
    ensures
        final(out)@ == old(out)@ + code_span(raw@),
{
    let r = string_of(raw);
    let run = longest_backtick_run(r.as_str());
    proof {
        lemma_backtick_run(raw@, run as int);
        lemma_tick_ends(raw@);
        reveal_strlit(" ");
    }
    let ghost start = out@;
    let ghost ticks = repeat('`', (run + 1) as nat);
    let mut t: Vec<char> = Vec::new();
    push_repeat(&mut t, '`', run);
    t.push('`');
    assert(t@ =~= ticks);
    let pad = starts_with_char(raw, '`') || (raw.len() > 0 && raw[raw.len() - 1] == '`');
    let ghost mid = if starts_with(raw@, "`"@) || ends_with(raw@, "`"@) {
        " "@ + raw@ + " "@
    } else {
        raw@
    };
    let mut m: Vec<char> = Vec::new();
    if pad {
        m.push(' ');
        push_slice(&mut m, raw);
        m.push(' ');
    } else {
        push_slice(&mut m, raw);
    }
    assert(m@ =~= mid);
    push_slice(out, t.as_slice());
    push_slice(out, m.as_slice());
    push_slice(out, t.as_slice());
    assert(out@ =~= start + code_span(raw@));
}

fn starts_with_char(s: &[char], c: char) -> (r: bool)
    ensures
        r == (s@.len() > 0 && s@[0] == c),
{
    s.len() > 0 && s[0] == c
}

fn push_fenced_block(out: &mut Vec<char>, raw: &[char])
    ensures
        final(out)@ == old(out)@ + fenced_block(raw@),
{
    let r = string_of(raw);
    let run = longest_backtick_run(r.as_str());
    proof {
        lemma_backtick_run(raw@, run as int);
        lemma_tick_ends(raw@);
        reveal_strlit("\n");
        reveal_strlit("\n\n");
    }
    let ghost start = out@;
    let ghost n = if backtick_run(raw@) + 1 > 3 {
        backtick_run(raw@) + 1
    } else {
        3
    };
    let mut fence: Vec<char> = Vec::new();
    if run >= 3 {
        push_repeat(&mut fence, '`', run);
        fence.push('`');
    } else {
        push_repeat(&mut fence, '`', 3);
    }
    assert(fence@ =~= repeat('`', n as nat));
    let ghost tail = if ends_with(raw@, "\n"@) {
        Seq::<char>::empty()
    } else {
        "\n"@
    };
    let mut body: Vec<char> = Vec::new();
    body.push('\n');
    push_slice(&mut body, raw);
    if !(raw.len() > 0 && raw[raw.len() - 1] == '\n') {
        body.push('\n');
    }
    assert(body@ =~= "\n"@ + raw@ + tail);
    push_slice(out, fence.as_slice());
    push_slice(out, body.as_slice());
    push_slice(out, fence.as_slice());
    out.push('\n');
    out.push('\n');
    assert(out@ =~= start + fenced_block(raw@));
}

fn trim_end_exec(s: &[char]) -> (r: Vec<char>)
    ensures
        r@ == trim_end(s@),
{
    let mut e: usize = s.len();
    while e > 0 && crate::text::is_whitespace_exec(s[e - 1])
        invariant
            e <= s@.len(),
            forall|j: int| e <= j < s@.len() ==> crate::text::is_whitespace(s@[j]),
        decreases e,
    {
        e = e - 1;
    }
    proof {
        lemma_trailing(s@, (s@.len() - e) as int);
    }
    slice_to_vec_local(s, e)
}

proof fn lemma_trailing(s: Seq<char>, k: int)
    requires
        0 <= k <= s.len(),
        forall|j: int| s.len() - k <= j < s.len() ==> crate::text::is_whitespace(s[j]),
        k == s.len() || !crate::text::is_whitespace(s[s.len() - k - 1]),
    ensures
        crate::text::trailing_ws(s) == k,
    decreases k,
{
    if k > 0 {
        lemma_trailing(s.drop_last(), k - 1);
    }
}

fn slice_to_vec_local(s: &[char], e: usize) -> (r: Vec<char>)
    requires
        e <= s@.len(),
    ensures
        r@ == s@.subrange(0, e as int),
{
    crate::text::slice_to_vec(s, 0, e)
}

pub open spec fn strip_cr(l: Seq<char>) -> Seq<char> {
    if l.len() > 0 && l.last() == '\r' {
        l.drop_last()
    } else {
        l
    }
}

/// Appends the lines of `text`, each prefixed by `> `, joined by line
/// feeds.
fn push_quoted(out: &mut Vec<char>, text: &[char])
    ensures
        final(out)@ == old(out)@ + quote_lines(lines(text@)),
{
    let ghost start = out@;
    let parts = crate::text::split_exec(text, '\n');
    let ghost ps = split(text@, '\n');
    proof {
        crate::text::lemma_split_len(text@, '\n');
    }
    let n = parts.len();
    assert(parts@[n - 1]@ == ps.last());
    let m = if parts[n - 1].len() == 0 {
        n - 1
    } else {
        n
    };
    let ghost ps2 = if ps.last().len() == 0 {
        ps.drop_last()
    } else {
        ps
    };
    assert(ps2.len() == m);
    let ghost ls = lines(text@);
    assert(ls == ps2.map_values(|l: Seq<char>| strip_cr(l)));
    let mut k: usize = 0;
    assert(ls.take(0) =~= Seq::<Seq<char>>::empty());
    assert(start + quote_lines(Seq::<Seq<char>>::empty()) =~= start);
    while k < m
        invariant
            k <= m,
            m == ls.len(),
            m <= n,
            n == parts@.len(),
            ls == ps2.map_values(|l: Seq<char>| strip_cr(l)),
            forall|j: int| 0 <= j < m ==> (#[trigger] ps2[j]) == parts@[j]@,
            out@ == start + quote_lines(ls.take(k as int)),
        decreases m - k,
    {
        let line = &parts[k];
        assert(line@ == ps2[k as int]);
        let e = if line.len() > 0 && line[line.len() - 1] == '\r' {
            line.len() - 1
        } else {
            line.len()
        };
        assert(ls[k as int] == strip_cr(line@));
        assert(line@.subrange(0, e as int) == strip_cr(line@)) by {
            if e < line@.len() {
                assert(line@.subrange(0, e as int) =~= line@.drop_last());
            } else {
                assert(line@.subrange(0, e as int) =~= line@);
            }
        }
        let ghost before = out@;
        if k > 0 {
            out.push('\n');
        }
        out.push('>');
        out.push(' ');
        let piece = crate::text::slice_to_vec(line.as_slice(), 0, e);
        push_slice(out, piece.as_slice());
        proof {
            reveal_strlit("> ");
            reveal_strlit("\n");
            assert(ls.take(k + 1).drop_last() =~= ls.take(k as int));
            assert(ls.take(k + 1).last() == ls[k as int]);
            if k == 0 {
                assert(ls.take(1)[0] == ls[0]);
                assert(out@ =~= start + ("> "@ + ls[0]));
            } else {
                assert(out@ =~= before + "\n"@ + "> "@ + ls[k as int]);
            }
        }
        k = k + 1;
    }
    assert(ls.take(m as int) =~= ls);
}

// ---------------------------------------------------------------------------
// The tree walk
// ---------------------------------------------------------------------------

fn is_heading_exec(t: &str) -> (r: bool)
    ensures
        r == is_heading(t@),
{
    str_eq(t, "h1") || str_eq(t, "h2") || str_eq(t, "h3") || str_eq(t, "h4") || str_eq(t, "h5")
        || str_eq(t, "h6")
}

fn inline_marker_exec(t: &str) -> (r: Option<&'static str>)
    ensures
        crate::atsumaru::opt_view(r) == inline_marker(t@),
{
    if str_eq(t, "strong") || str_eq(t, "b") {
        Some("**")
    } else if str_eq(t, "em") || str_eq(t, "i") {
        Some("*")
    } else if str_eq(t, "u") {
        Some("__")
    } else if str_eq(t, "s") || str_eq(t, "strike") || str_eq(t, "del") {
        Some("~~")
    } else {
        None
    }
}

fn is_block_container_exec(t: &str) -> (r: bool)
    ensures
        r == is_block_container(t@),
{
    str_eq(t, "div") || str_eq(t, "section") || str_eq(t, "article") || str_eq(t, "header")
        || str_eq(t, "footer") || str_eq(t, "main") || str_eq(t, "aside")
}

fn heading_level_exec(t: &str) -> (r: usize)
    requires
        is_heading(t@),
    ensures
        r as nat == heading_level(t@),
        1 <= r <= 6,
{
    proof {
        reveal_strlit("h1");
        reveal_strlit("h2");
        reveal_strlit("h3");
        reveal_strlit("h4");
        reveal_strlit("h5");
        reveal_strlit("h6");
    }
    let v = chars_of(t);
    let c = v[1];
    ((c as u32) - 48) as usize
}

/// Appends the Markdown of one node.
pub fn md_node_exec(n: &HtmlNode, out: &mut Vec<char>)
    ensures
        final(out)@ == md_node(old(out)@, *n),
    decreases n,
{
    match n {
        HtmlNode::Text(t) => {
            push_escaped(out, t.as_str());
        },
        HtmlNode::Element { tag, text, src, alt, href, children } => {
            let t = tag.as_str();
            if str_eq(t, "p") {
                md_nodes_exec(children, out);
                push_str(out, "\n\n");
            } else if str_eq(t, "br") {
                push_str(out, "  \n");
            } else if is_heading_exec(t) {
                let level = heading_level_exec(t);
                push_repeat(out, '#', level);
                push_str(out, " ");
                md_nodes_exec(children, out);
                push_str(out, "\n\n");
            } else if let Some(marker) = inline_marker_exec(t) {
                let mut inner: Vec<char> = Vec::new();
                md_nodes_exec(children, &mut inner);
                let trimmed = trim_exec(inner.as_slice());
                if trimmed.len() > 0 {
                    push_str(out, marker);
                    push_slice(out, trimmed.as_slice());
                    push_str(out, marker);
                }
            } else if str_eq(t, "code") {
                let raw = raw_text(text);
                push_code_span(out, raw.as_slice());
            } else if str_eq(t, "pre") {
                let raw = raw_text(text);
                push_fenced_block(out, raw.as_slice());
            } else if str_eq(t, "img") {
                match src {
                    Some(s) => {
                        push_str(out, "![");
                        let a = raw_text(alt);
                        push_slice(out, a.as_slice());
                        push_str(out, "](");
                        push_str(out, s.as_str());
                        push_str(out, ")\n\n");
                    },
                    None => {},
                }
            } else if str_eq(t, "a") {
                match href {
                    Some(h) => {
                        push_str(out, "[");
                        md_nodes_exec(children, out);
                        push_str(out, "](");
                        push_str(out, h.as_str());
                        push_str(out, ")");
                    },
                    None => {
                        md_nodes_exec(children, out);
                    },
                }
            } else if str_eq(t, "hr") {
                push_str(out, "---\n\n");
            } else if str_eq(t, "ul") || str_eq(t, "ol") {
                md_list_exec(children, str_eq(t, "ol"), out);
                push_str(out, "\n");
            } else if str_eq(t, "blockquote") {
                let mut quoted: Vec<char> = Vec::new();
                md_nodes_exec(children, &mut quoted);
                let te = trim_end_exec(quoted.as_slice());
                push_quoted(out, te.as_slice());
                push_str(out, "\n\n");
            } else if is_block_container_exec(t) {
                md_nodes_exec(children, out);
                let nn = chars_of("\n\n");
                let n1 = chars_of("\n");
                if !(ends_with_exec(out.as_slice(), nn.as_slice()) || ends_with_exec(out.as_slice(), n1.as_slice())) {
                    out.push('\n');
                    proof {
                        reveal_strlit("\n");
                    }
                }
            } else {
                md_nodes_exec(children, out);
            }
        },
    }
}

/// Appends the Markdown of the nodes, in order.
pub fn md_nodes_exec(ns: &Vec<HtmlNode>, out: &mut Vec<char>)
    ensures
        final(out)@ == md_nodes(old(out)@, ns@),
    decreases ns@,
{
    let ghost start = out@;
    let mut i: usize = 0;
    assert(ns@.take(0) =~= Seq::<HtmlNode>::empty());
    while i < ns.len()
        invariant
            i <= ns@.len(),
            out@ == md_nodes(start, ns@.take(i as int)),
        decreases ns@.len() - i,
    {
        assert(ns@.take(i + 1).drop_last() =~= ns@.take(i as int));
        assert(ns@.take(i + 1).last() == ns@[i as int]);
        md_node_exec(&ns[i], out);
        i = i + 1;
    }
    assert(ns@.take(ns@.len() as int) =~= ns@);
}

/// Appends a list's items.
pub fn md_list_exec(ns: &Vec<HtmlNode>, ordered: bool, out: &mut Vec<char>)
    ensures
        final(out)@ == md_list(old(out)@, ns@, ordered),
    decreases ns@,
{
    let ghost start = out@;
    let mut count: usize = 0;
    let mut i: usize = 0;
    assert(ns@.take(0) =~= Seq::<HtmlNode>::empty());
    while i < ns.len()
        invariant
            i <= ns@.len(),
            count <= i,
            count as nat == li_count(ns@.take(i as int)),
            out@ == md_list(start, ns@.take(i as int), ordered),
        decreases ns@.len() - i,
    {
        assert(ns@.take(i + 1).drop_last() =~= ns@.take(i as int));
        assert(ns@.take(i + 1).last() == ns@[i as int]);
        match &ns[i] {
            HtmlNode::Element { tag, children, .. } => {
                if str_eq(tag.as_str(), "li") {
                    let ghost o = out@;
                    assert(li_count(ns@.take(i + 1)) == count + 1);
                    let ghost marker = if ordered {
                        dec(li_count(ns@.take(i as int)) + 1) + ". "@
                    } else {
                        "- "@
                    };
                    if ordered {
                        let c1: u64 = (count + 1) as u64;
                        assert(c1 as nat == count + 1);
                        let d = crate::text::dec_u64(c1);
                        push_slice(out, d.as_slice());
                        push_str(out, ". ");
                    } else {
                        push_str(out, "- ");
                    }
                    assert(out@ =~= o + marker);
                    md_nodes_exec(children, out);
                    push_str(out, "\n");
                    count = count + 1;
                }
            },
            _ => {},
        }
        i = i + 1;
    }
    assert(ns@.take(ns@.len() as int) =~= ns@);
}

/// A heading `h1` to `h6` is written as many `#` as its level, a space,
/// its content and a blank line.
pub proof fn lemma_heading_markdown(
    out: Seq<char>,
    level: nat,
    tag: String,
    text: Option<String>,
    src: Option<String>,
    alt: Option<String>,
    href: Option<String>,
    children: Vec<HtmlNode>,
)
    requires
        1 <= level <= 6,
        tag@ == seq!['h', (level + 48) as char],
    ensures
        md_node(out, (HtmlNode::Element { tag, text, src, alt, href, children })) == md_nodes(
            out + repeat('#', level) + seq![' '],
            children@,
        ) + seq!['\n', '\n'],
{
    reveal_strlit("p");
    reveal_strlit("br");
    reveal_strlit("h1");
    reveal_strlit("h2");
    reveal_strlit("h3");
    reveal_strlit("h4");
    reveal_strlit("h5");
    reveal_strlit("h6");
    reveal_strlit(" ");
    reveal_strlit("\n\n");
    let t = tag@;
    assert(t.len() == 2);
    assert(t != "p"@);
    assert(t[0] != "br"@[0]);
    assert(t != "br"@);
    if level == 1 {
        assert(t =~= "h1"@);
    } else if level == 2 {
        assert(t =~= "h2"@);
    } else if level == 3 {
        assert(t =~= "h3"@);
    } else if level == 4 {
        assert(t =~= "h4"@);
    } else if level == 5 {
        assert(t =~= "h5"@);
    } else {
        assert(t =~= "h6"@);
    }
    assert(is_heading(t));
    assert(heading_level(t) == level);
    assert(" "@ =~= seq![' ']);
    assert("\n\n"@ =~= seq!['\n', '\n']);
}

/// Inline styles and their markers: bold (`strong`, `b`) `**`, emphasis
/// (`em`, `i`) `*`, underline (`u`) `__`, struck text (`s`, `strike`,
/// `del`) `~~`. Styled content is written trimmed between two markers, and
/// styled content that is blank is dropped.
pub proof fn lemma_inline_markdown(
    out: Seq<char>,
    tag: String,
    text: Option<String>,
    src: Option<String>,
    alt: Option<String>,
    href: Option<String>,
    children: Vec<HtmlNode>,
)
    ensures
        (tag@ == "strong"@ || tag@ == "b"@) ==> inline_marker(tag@) == Some(seq!['*', '*']),
        (tag@ == "em"@ || tag@ == "i"@) ==> inline_marker(tag@) == Some(seq!['*']),
        tag@ == "u"@ ==> inline_marker(tag@) == Some(seq!['_', '_']),
        (tag@ == "s"@ || tag@ == "strike"@ || tag@ == "del"@) ==> inline_marker(tag@) == Some(
            seq!['~', '~'],
        ),
        inline_marker(tag@) matches Some(m) ==> {
            let inner = trim(md_nodes(Seq::empty(), children@));
            md_node(out, (HtmlNode::Element { tag, text, src, alt, href, children })) == if inner.len()
                > 0 {
                out + m + inner + m
            } else {
                out
            }
        },
{
    reveal_strlit("p");
    reveal_strlit("br");
    reveal_strlit("h1");
    reveal_strlit("h2");
    reveal_strlit("h3");
    reveal_strlit("h4");
    reveal_strlit("h5");
    reveal_strlit("h6");
    reveal_strlit("strong");
    reveal_strlit("b");
    reveal_strlit("em");
    reveal_strlit("i");
    reveal_strlit("u");
    reveal_strlit("s");
    reveal_strlit("strike");
    reveal_strlit("del");
    reveal_strlit("**");
    reveal_strlit("*");
    reveal_strlit("__");
    reveal_strlit("~~");
    let t = tag@;
    assert("**"@ =~= seq!['*', '*']);
    assert("*"@ =~= seq!['*']);
    assert("__"@ =~= seq!['_', '_']);
    assert("~~"@ =~= seq!['~', '~']);
    if t == "s"@ {
        assert(t.len() == 1 && t[0] == 's');
        assert(t != "b"@ && t != "i"@ && t != "u"@);
    } else if t == "strike"@ {
        assert(t.len() == 6 && t[3] == 'i');
        assert(t != "strong"@);
    } else if t == "del"@ {
        assert(t.len() == 3 && t[0] == 'd');
    }
    if inline_marker(t) is Some {
        assert(t.len() > 0 && t[0] != 'p' && t[0] != 'h' && (t.len() != 2 || t[1] != 'r')) by {
            if t == "strong"@ || t == "s"@ || t == "strike"@ {
                assert(t[0] == 's');
            } else if t == "b"@ {
                assert(t.len() == 1);
            } else if t == "em"@ {
                assert(t[0] == 'e');
            } else if t == "i"@ {
                assert(t[0] == 'i');
            } else if t == "u"@ {
                assert(t[0] == 'u');
            } else {
                assert(t == "del"@);
                assert(t[0] == 'd');
            }
        }
        assert(t != "p"@ && t != "br"@);
        assert(!is_heading(t));
    }
}

/// A chapter's Markdown: the Markdown of the content's root nodes, trimmed.
pub fn html_to_markdown(root: &Vec<HtmlNode>) -> (r: String)
    ensures
        r@ == trim(md_nodes(Seq::empty(), root@)),
{
    let mut out: Vec<char> = Vec::new();
    md_nodes_exec(root, &mut out);
    let t = trim_exec(out.as_slice());
    string_of(t.as_slice())
}

} // verus!
