use aidoku_sources::mangakatana::{
    absolute_url, apply_details, attr_value, build_search_url, chapter_url, extract_page_urls_from_script,
    handle_deep_link, listing_url, page_list, parse_chapter_number, parse_chapter_rows, parse_content_rating,
    parse_manga_item, parse_manga_list, parse_single_result, parse_status, parse_viewer, path_key, search_result,
    ChapterRow, KatanaDetails, ListItem,
};
use aidoku_sources::model::{ContentRating, DeepLinkResult, FilterValue, Manga, MangaStatus, Viewer};

fn s(v: &str) -> String {
    String::from(v)
}

#[test]
fn search_url_uses_text_search_type_when_query_is_present() {
    let url = build_search_url(
        Some("one piece"),
        2,
        &[FilterValue::Select { id: s("search_by"), value: s("author") }],
    );
    assert_eq!(url, "https://mangakatana.com/page/2?search=one%20piece&search_by=author");
}

#[test]
fn browse_url_translates_filters_to_mangakatana_query_parameters() {
    let url = build_search_url(
        None,
        3,
        &[
            FilterValue::MultiSelect {
                id: s("genre"),
                included: vec![s("action"), s("comedy")],
                excluded: vec![s("adult")],
            },
            FilterValue::Select { id: s("include_mode"), value: s("or") },
            FilterValue::Sort { id: s("order"), index: 3, ascending: false },
            FilterValue::Select { id: s("status"), value: s("2") },
            FilterValue::Text { id: s("chapters"), value: s("-1") },
        ],
    );
    assert_eq!(
        url,
        "https://mangakatana.com/manga/page/3?filter=1&include=action_comedy&exclude=adult&include_mode=or&order=numc&status=2&chapters=e1"
    );
}

#[test]
fn browse_url_omits_chapters_when_chapter_filter_is_blank() {
    let url = build_search_url(None, 1, &[FilterValue::Text { id: s("chapters"), value: s("") }]);
    assert_eq!(url, "https://mangakatana.com/manga/page/1?filter=1&include_mode=and&order=latest");
}

#[test]
fn blank_query_browses() {
    assert_eq!(
        build_search_url(Some("   "), 1, &[]),
        "https://mangakatana.com/manga/page/1?filter=1&include_mode=and&order=latest"
    );
    assert_eq!(
        build_search_url(Some("  naruto "), 1, &[]),
        "https://mangakatana.com/page/1?search=naruto&search_by=book_name"
    );
}

#[test]
fn chapter_number_prefers_chapter_marker_over_volume_number() {
    assert_eq!(parse_chapter_number("Vol.5 Ch.12: The Turn").as_deref(), Some("12"));
    assert_eq!(parse_chapter_number("Volume 2 Chapter 7.5").as_deref(), Some("7.5"));
    assert_eq!(parse_chapter_number("Special 3").as_deref(), Some("3"));
    assert_eq!(parse_chapter_number("Oneshot"), None);
}

#[test]
fn page_script_extraction_finds_urls_from_named_data_src_array() {
    let script = r#"
			var ignored=['https://example.invalid/a.jpg'];
			initReader("data-src", pages);
			var pages=['https://cdn.example/001.jpg','https://cdn.example/002.png'];
		"#;
    assert_eq!(
        extract_page_urls_from_script(script),
        vec![s("https://cdn.example/001.jpg"), s("https://cdn.example/002.png")]
    );
    assert!(extract_page_urls_from_script("var x = 1;").is_empty());
}

#[test]
fn path_key_strips_known_mangakatana_hosts() {
    assert_eq!(path_key("https://mangakatana.com/manga/title.123/c1"), "/manga/title.123/c1");
    assert_eq!(path_key("/manga/title.123"), "/manga/title.123");
    assert_eq!(path_key("https://www.mangakatana.com/manga/x/?a=1"), "/manga/x");
    assert_eq!(path_key("manga/y/"), "/manga/y");
}

#[test]
fn makes_links_absolute() {
    assert_eq!(absolute_url("https://a.b/c"), "https://a.b/c");
    assert_eq!(absolute_url("//cdn.x/y.jpg"), "https://cdn.x/y.jpg");
    assert_eq!(absolute_url("/manga/x"), "https://mangakatana.com/manga/x");
    assert_eq!(absolute_url("manga/x"), "https://mangakatana.com/manga/x");
}

#[test]
fn reads_statuses_ratings_and_readers() {
    assert_eq!(parse_status("Ongoing"), MangaStatus::Ongoing);
    assert_eq!(parse_status("COMPLETED"), MangaStatus::Completed);
    assert_eq!(parse_status("Canceled"), MangaStatus::Cancelled);
    assert_eq!(parse_status("?"), MangaStatus::Unknown);
    assert_eq!(parse_content_rating(&[s("Action"), s("Adult")]), ContentRating::NSFW);
    assert_eq!(parse_content_rating(&[s("Gore")]), ContentRating::Suggestive);
    assert_eq!(parse_content_rating(&[s("Action")]), ContentRating::Safe);
    assert_eq!(parse_viewer(&[s("Manhwa")]), Viewer::Webtoon);
    assert_eq!(parse_viewer(&[s("Shounen")]), Viewer::RightToLeft);
}

#[test]
fn attribute_values_skip_blank_ones() {
    assert_eq!(attr_value(Some(s("  ")), Some(s("b"))).as_deref(), Some("b"));
    assert_eq!(attr_value(Some(s("a")), Some(s("b"))).as_deref(), Some("a"));
    assert_eq!(attr_value(None, Some(s(" "))), None);
}

#[test]
fn list_items_become_manga() {
    let items = vec![
        ListItem {
            href_abs: Some(s("https://mangakatana.com/manga/one.1")),
            href: None,
            own_text: Some(s("  One  ")),
            text: None,
            cover_abs: None,
            cover_src: Some(s("https://i/1.jpg")),
        },
        ListItem { href_abs: None, href: Some(s(" ")), own_text: None, text: None, cover_abs: None, cover_src: None },
    ];
    let list = parse_manga_list(items);
    assert_eq!(list.len(), 1);
    assert_eq!(list[0].key, "/manga/one.1");
    assert_eq!(list[0].title, "One");
    assert_eq!(list[0].cover.as_deref(), Some("https://i/1.jpg"));
    assert_eq!(list[0].url.as_deref(), Some("https://mangakatana.com/manga/one.1"));
    let single = parse_manga_item(ListItem {
        href_abs: None,
        href: Some(s("/manga/two")),
        own_text: None,
        text: Some(s("Two")),
        cover_abs: None,
        cover_src: None,
    })
    .unwrap();
    assert_eq!(single.title, "Two");
}

#[test]
fn a_lone_title_page_stands_for_the_search() {
    let single = parse_single_result(
        Some(s("Solo")),
        None,
        Some(s("https://mangakatana.com/manga/solo.9")),
        None,
        None,
        None,
    )
    .unwrap();
    assert_eq!(single.key, "/manga/solo.9");
    let (entries, next) = search_result(Vec::new(), true, Some(single));
    assert_eq!(entries.len(), 1);
    assert!(!next);
    let (entries, next) = search_result(vec![Manga::new(s("a"), s("A"))], true, None);
    assert_eq!(entries.len(), 1);
    assert!(next);
    assert!(parse_single_result(None, None, Some(s("/x")), None, None, None).is_none());
}

#[test]
fn details_fill_in_the_manga() {
    let mut m = Manga::new(s("/manga/x.1"), s("Old"));
    apply_details(
        &mut m,
        &KatanaDetails {
            title: Some(s("New")),
            cover_abs: Some(s("https://c/x.jpg")),
            cover_src: None,
            authors: vec![s(" A "), s("")],
            summary: vec![s(" first "), s(" "), s("second")],
            alt_names: Some(s(" Alt ")),
            genres: vec![s("Action"), s("Webtoon")],
            status: Some(s("Ongoing")),
        },
    );
    assert_eq!(m.title, "New");
    assert_eq!(m.authors, Some(vec![s("A")]));
    assert_eq!(m.description.as_deref(), Some("first\nsecond\n\nAlt name(s): Alt"));
    assert_eq!(m.status, MangaStatus::Ongoing);
    assert_eq!(m.viewer, Viewer::Webtoon);
    assert_eq!(m.content_rating, ContentRating::Safe);
    assert_eq!(m.tags, Some(vec![s("Action"), s("Webtoon")]));
    assert_eq!(m.url.as_deref(), Some("https://mangakatana.com/manga/x.1"));
}

#[test]
fn chapter_rows_become_chapters() {
    let rows = vec![
        ChapterRow {
            href_abs: Some(s("https://mangakatana.com/manga/x.1/c12")),
            href: None,
            title: Some(s("Chapter 12: Start")),
            date_uploaded: Some(7),
        },
        ChapterRow { href_abs: None, href: None, title: Some(s("Chapter 13")), date_uploaded: None },
    ];
    let cs = parse_chapter_rows(rows);
    assert_eq!(cs.len(), 1);
    assert_eq!(cs[0].key, "/manga/x.1/c12");
    assert_eq!(cs[0].number.as_deref(), Some("12"));
    assert_eq!(cs[0].title.as_deref(), Some("Chapter 12: Start"));
    assert_eq!(cs[0].date_uploaded, Some(7));
}

#[test]
fn reader_pages_and_servers() {
    let scripts = vec![
        s("console.log('x')"),
        s("load('data-src', imgs); var imgs = ['/p/1.jpg', 'https://x/2.jpg'];"),
    ];
    assert_eq!(page_list(&scripts), vec![s("https://mangakatana.com/p/1.jpg"), s("https://x/2.jpg")]);
    assert_eq!(chapter_url("/manga/x/c1", " "), "https://mangakatana.com/manga/x/c1");
    assert_eq!(chapter_url("/manga/x/c1", " mx "), "https://mangakatana.com/manga/x/c1?sv=mx");
}

#[test]
fn listings_and_deep_links() {
    assert_eq!(listing_url("latest", 2).as_deref(), Some("https://mangakatana.com/page/2"));
    assert_eq!(listing_url("popular", 1).as_deref(), Some("https://mangakatana.com/manga/page/1"));
    assert_eq!(listing_url("other", 1), None);
    assert_eq!(
        handle_deep_link("https://mangakatana.com/manga/title.1/c5"),
        Some(DeepLinkResult::Chapter { manga_key: s("/manga/title.1"), key: s("/manga/title.1/c5") })
    );
    assert_eq!(
        handle_deep_link("https://mangakatana.com/manga/title.1/"),
        Some(DeepLinkResult::Manga { key: s("/manga/title.1") })
    );
    assert_eq!(handle_deep_link("https://mangakatana.com/latest"), None);
}

#[test]
fn keys_are_their_own_keys() {
    for url in [
        "https://mangakatana.com/manga/title.123/c1/",
        "https://www.mangakatana.com/manga/x?y=1",
        "/",
        "",
        "plain",
        "/a?b",
    ] {
        let k = path_key(url);
        assert_eq!(path_key(&k), k, "{url}");
    }
}
