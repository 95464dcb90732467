use aidoku_sources::onisaga::{chapter, merge_chapters};
use aidoku_sources::onisaga::{listing_entry, row_meta};
use aidoku_sources::model::ContentRating;
use aidoku_sources::onisaga::{resolve_step, ResolveAction};
use aidoku_sources::onisaga::{
    chapter_number_text, find_snapshot, has_next_page, is_page_url, manga_slug, page_count,
    page_url, parse_relative_date, split_details, to_path, token,
};

#[test]
fn picks_the_named_component() {
    let body = [
        r#"<div wire:snapshot="{&quot;memo&quot;:{&quot;name&quot;:&quot;navbar&quot;}}"></div>"#,
        r#"<div wire:snapshot="{&quot;memo&quot;:{&quot;name&quot;:&quot;post-filter&quot;}}"></div>"#,
    ]
    .concat();
    let body = body.as_str();
    assert_eq!(
        find_snapshot(body, "post-filter").as_deref(),
        Some(r#"{"memo":{"name":"post-filter"}}"#)
    );
    assert_eq!(find_snapshot(body, "manga.chapter-list"), None);
}

#[test]
fn reads_the_paginator() {
    assert!(has_next_page(r#"<button wire:click="nextPage">Next</button>"#));
    assert!(!has_next_page(r#"<button wire:click="nextPage" disabled>Next</button>"#));
    assert!(has_next_page(
        &[
            r#"<button wire:click="previousPage" disabled></button>"#,
            r#"<button wire:click="nextPage"></button>"#,
        ]
        .concat()
    ));
    assert!(!has_next_page("<div>no paginator</div>"));
}

#[test]
fn finds_the_reader_token() {
    assert_eq!(
        token(r#"<script>window.reader = { readerToken: "abc.def", order: 0 }</script>"#).as_deref(),
        Some("abc.def")
    );
    assert_eq!(token(r#"{"readerToken":'xyz'}"#).as_deref(), Some("xyz"));
    assert_eq!(token("<script>var x = 1</script>"), None);
}

#[test]
fn counts_pages() {
    assert_eq!(page_count(r#"[{"order":0},{"order":1},{"order":2}]"#), 3);
    assert_eq!(page_count("[{ order: 0 }, { order: 1 }]"), 2);
    assert_eq!(page_count(r#"<div style="border: 1px solid"></div>"#), 0);
    assert_eq!(page_count(r#"{"order":"asc"}"#), 0);
}

#[test]
fn builds_page_urls() {
    assert_eq!(page_url("/read/one-piece/abc123", 4), "https://onisaga.com/api/chapter/abc123/page/4");
    assert!(is_page_url("https://onisaga.com/api/chapter/abc123/page/4"));
    assert!(!is_page_url("https://onisaga.com/storage/cover.jpg"));
}

#[test]
fn slugs_and_paths() {
    assert_eq!(manga_slug("https://onisaga.com/manga/one-piece?x=1").as_deref(), Some("one-piece"));
    assert_eq!(manga_slug("/manga/one-piece/"), Some(String::from("one-piece")));
    assert_eq!(manga_slug("https://onisaga.com/read/one-piece/1"), None);
    assert_eq!(to_path("https://onisaga.com/read/a/b"), "/read/a/b");
    assert_eq!(to_path("no-scheme"), "no-scheme");
}

#[test]
fn relative_dates() {
    let now = 1_700_000_000;
    assert_eq!(parse_relative_date("Today", now), Some(now));
    assert_eq!(parse_relative_date(" yesterday ", now), Some(now - 86_400));
    assert_eq!(parse_relative_date("3 days ago", now), Some(now - 3 * 86_400));
    assert_eq!(parse_relative_date("1 hour ago", now), Some(now - 3_600));
    assert_eq!(parse_relative_date("2 fortnights ago", now), None);
    assert_eq!(parse_relative_date("", now), None);
    assert_eq!(parse_relative_date("3 days", now), None);
}

#[test]
fn chapter_numbers_and_details() {
    assert_eq!(chapter_number_text(" Chapter 12.5 "), "12.5");
    assert_eq!(chapter_number_text("chapter 7. end"), "7");
    assert_eq!(split_details("Alpha - Beta · Gamma ·  "), vec!["Alpha", "Beta", "Gamma"]);
}

#[test]
fn page_answers_decide_the_next_step() {
    assert_eq!(
        resolve_step(0, 200, Some(String::from("https://img/1.jpg")), None),
        ResolveAction::Image(String::from("https://img/1.jpg"))
    );
    assert_eq!(resolve_step(0, 403, None, None), ResolveAction::RefreshToken);
    assert_eq!(
        resolve_step(1, 403, None, None),
        ResolveAction::Fail(String::from("Page request failed (HTTP 403)"))
    );
    assert_eq!(
        resolve_step(1, 403, None, Some(String::from("expired"))),
        ResolveAction::Fail(String::from("expired"))
    );
    assert_eq!(
        resolve_step(0, 429, Some(String::from("x")), None),
        ResolveAction::Fail(String::from("The site is rate limiting us; try again in a few minutes"))
    );
}

#[test]
fn listing_entries_need_a_manga_link_and_a_title() {
    let images = vec![
        (Some(String::from("https://onisaga.com/a.jpg")), None),
        (Some(String::from("https://onisaga.com/b.jpg")), Some(String::from("Cover"))),
    ];
    let overlay = vec![String::from("18+")];
    let m = listing_entry(
        "https://onisaga.com/manga/some-title/",
        None,
        Some(String::from("Some Title")),
        Some(String::from("ignored")),
        &images,
        &overlay,
    )
    .unwrap();
    assert_eq!(m.key, "some-title");
    assert_eq!(m.title, "Some Title");
    assert_eq!(m.url.as_deref(), Some("https://onisaga.com/manga/some-title"));
    assert_eq!(m.cover.as_deref(), Some("https://onisaga.com/b.jpg"));
    assert_eq!(m.content_rating, ContentRating::NSFW);
    assert!(listing_entry("https://onisaga.com/about", Some(String::from("T")), None, None, &[], &[]).is_none());
    assert!(listing_entry("/manga/x", Some(String::new()), Some(String::from("T")), None, &[], &[]).is_none());
}

#[test]
fn chapter_rows_read_their_number_and_date() {
    let now = 1_700_000_000;
    let (number, date) = row_meta(
        Some(String::from("  ")),
        Some(String::from("Chapter 4")),
        Some(String::from("Group - 2 days ago · 10 views")),
        now,
    );
    assert_eq!(number.as_deref(), Some("4"));
    assert_eq!(date, Some(now - 2 * 86_400));
    let (number, date) = row_meta(Some(String::from("Chapter 9")), None, Some(String::from("no date")), now);
    assert_eq!(number.as_deref(), Some("9"));
    assert_eq!(date, None);
    assert_eq!(row_meta(None, None, None, now), (None, None));
}

#[test]
fn merged_chapter_lists_keep_each_key_once() {
    let english = vec![
        chapter(String::from("/read/a/1"), Some(String::from("1")), None, None, "en"),
        chapter(String::from("/read/a/2"), Some(String::from("2")), None, None, "en"),
    ];
    let spanish = vec![
        chapter(String::from("/read/a/2"), Some(String::from("2")), None, None, "es"),
        chapter(String::from("/read/a/3"), Some(String::from("3")), None, None, "es"),
    ];
    let all: Vec<_> = english.into_iter().chain(spanish).collect();
    let merged = merge_chapters(all);
    let keys: Vec<&str> = merged.iter().map(|c| c.key.as_str()).collect();
    assert_eq!(keys, vec!["/read/a/1", "/read/a/2", "/read/a/3"]);
    assert_eq!(merged[1].language.as_deref(), Some("en"));
}
