use aidoku_sources::novelbuddy::{html_to_markdown, longest_backtick_run, HtmlNode};

fn t(s: &str) -> HtmlNode {
    HtmlNode::Text(s.into())
}

fn el(tag: &str, children: Vec<HtmlNode>) -> HtmlNode {
    let text: String = children
        .iter()
        .map(|c| match c {
            HtmlNode::Text(s) => s.clone(),
            HtmlNode::Element { text, .. } => text.clone().unwrap_or_default(),
        })
        .collect();
    HtmlNode::Element {
        tag: tag.into(),
        text: if text.is_empty() { None } else { Some(text) },
        src: None,
        alt: None,
        href: None,
        children,
    }
}

fn with_attr(node: HtmlNode, name: &str, value: &str) -> HtmlNode {
    match node {
        HtmlNode::Element { tag, text, mut src, mut alt, mut href, children } => {
            match name {
                "src" => src = Some(value.into()),
                "alt" => alt = Some(value.into()),
                _ => href = Some(value.into()),
            }
            HtmlNode::Element { tag, text, src, alt, href, children }
        }
        other => other,
    }
}

#[test]
fn backtick_runs() {
    assert_eq!(longest_backtick_run(""), 0);
    assert_eq!(longest_backtick_run("a`b"), 1);
    assert_eq!(longest_backtick_run("``a```b`"), 3);
}

#[test]
fn preserves_inline_markdown_without_tags() {
    let root = vec![el(
        "p",
        vec![
            t("A "),
            el("strong", vec![t("bold")]),
            t(", "),
            el("em", vec![t("italic")]),
            t(", "),
            el("u", vec![t("underlined")]),
            t(", and "),
            el("del", vec![t("gone")]),
            t("."),
        ],
    )];
    assert_eq!(html_to_markdown(&root), "A **bold**\\, *italic*\\, __underlined__\\, and ~~gone~~\\.");
}

#[test]
fn preserves_breaks_and_headings() {
    let root = vec![
        el("h2", vec![t("Chapter 1")]),
        el("p", vec![t("First"), el("br", vec![]), t("second")]),
        el("div", vec![]),
        el("p", vec![t("Third")]),
    ];
    assert_eq!(html_to_markdown(&root), "## Chapter 1\n\nFirst  \nsecond\n\nThird");
}

#[test]
fn escapes_literal_markdown_and_decodes_entities() {
    let root = vec![el("p", vec![t("Tom & Jerry — use *literal*, _text_, and ~~this~~")])];
    assert_eq!(
        html_to_markdown(&root),
        "Tom \\& Jerry — use \\*literal\\*\\, \\_text\\_\\, and \\~\\~this\\~\\~"
    );
}

#[test]
fn ignores_empty_placement_divs() {
    let root = vec![el("div", vec![]), el("div", vec![t(" ")]), el("p", vec![t("Real content")])];
    assert_eq!(html_to_markdown(&root), "Real content");
}

#[test]
fn renders_text_in_div() {
    assert_eq!(html_to_markdown(&vec![el("div", vec![t("text in div")])]), "text in div");
}

#[test]
fn keeps_root_level_text_and_inline_elements() {
    let root = vec![t("Line one "), el("b", vec![t("bold")]), t(" line two")];
    assert_eq!(html_to_markdown(&root), "Line one **bold** line two");
}

#[test]
fn keeps_inline_span_in_paragraph() {
    let root = vec![el("p", vec![t("Hello "), el("span", vec![t("world")]), t(" end")])];
    assert_eq!(html_to_markdown(&root), "Hello world end");
}

#[test]
fn renders_unordered_list() {
    let root = vec![el("ul", vec![el("li", vec![t("a")]), el("li", vec![t("b")])])];
    assert_eq!(html_to_markdown(&root), "- a\n- b");
}

#[test]
fn renders_blockquote() {
    assert_eq!(html_to_markdown(&vec![el("blockquote", vec![t("cite")])]), "> cite");
}

#[test]
fn numbers_ordered_list_items_by_li_position() {
    let root = vec![el(
        "ol",
        vec![el("li", vec![t("a")]), el("p", vec![t("note")]), el("li", vec![t("b")])],
    )];
    assert_eq!(html_to_markdown(&root), "1. a\n2. b");
}

#[test]
fn prefixes_every_blockquote_line() {
    let root = vec![el("blockquote", vec![el("p", vec![t("one")]), el("p", vec![t("two")])])];
    assert_eq!(html_to_markdown(&root), "> one\n> \n> two");
}

#[test]
fn trims_inline_whitespace() {
    let root = vec![el(
        "p",
        vec![el("strong", vec![t(" bold ")]), t(" and "), el("em", vec![t(" italic ")])],
    )];
    assert_eq!(html_to_markdown(&root), "**bold** and *italic*");
}

#[test]
fn keeps_code_content_unescaped() {
    let root = vec![
        el("p", vec![t("use "), el("code", vec![t("a_b-c *x*")])]),
        el("pre", vec![t("let s = \"a_b\";")]),
    ];
    let out = html_to_markdown(&root);
    assert!(out.contains("`a_b-c *x*`"), "code span: {out}");
    assert!(out.contains("let s = \"a_b\";"), "fenced block: {out}");
}

#[test]
fn widens_code_delimiters_past_embedded_backticks() {
    let root = vec![el(
        "p",
        vec![el("code", vec![t("a`b")]), t(" and "), el("code", vec![t("`padded`")])],
    )];
    let out = html_to_markdown(&root);
    assert!(out.contains("``a`b``"), "inline code: {out}");
    assert!(out.contains("`` `padded` ``"), "padded span: {out}");
}

#[test]
fn pads_code_spans_touching_delimiter_boundaries() {
    let root = vec![el(
        "p",
        vec![el("code", vec![t("`left")]), t(" and "), el("code", vec![t("right`")])],
    )];
    let out = html_to_markdown(&root);
    assert!(out.contains("`` `left ``"), "leading backtick: {out}");
    assert!(out.contains("`` right` ``"), "trailing backtick: {out}");
}

#[test]
fn widens_fences_past_embedded_backtick_runs() {
    let root = vec![el("pre", vec![t("```rust\nfn main() {}\n```")])];
    let out = html_to_markdown(&root);
    assert!(out.contains("````\n```rust\nfn main() {}\n```\n````"), "fenced block: {out}");
}

#[test]
fn renders_code_pre_links_images_and_rules() {
    let root = vec![
        el("p", vec![t("Use "), el("code", vec![t("aidoku")])]),
        el("hr", vec![]),
        el("pre", vec![t("let x = 1;")]),
        el("p", vec![with_attr(el("a", vec![t("site")]), "href", "https://example.com")]),
        with_attr(with_attr(el("img", vec![]), "src", "https://example.com/i.png"), "alt", "pic"),
    ];
    let out = html_to_markdown(&root);
    assert!(out.contains("`aidoku`"), "inline code: {out}");
    assert!(out.contains("---"), "horizontal rule: {out}");
    assert!(out.contains("```\nlet x = 1;\n```"), "pre block: {out}");
    assert!(out.contains("[site](https://example.com)"), "link: {out}");
    assert!(out.contains("![pic](https://example.com/i.png)"), "image: {out}");
}
