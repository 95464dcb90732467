use aidoku_sources::stonescape::{home_components, HomeComponent};
use aidoku_sources::model::{ContentRating, DeepLinkResult, FilterValue, Manga, MangaStatus, Viewer};
use aidoku_sources::stonescape::{
    chapter_list, format_genre, genre_content_rating, handle_deep_link, has_next_page, listing_url,
    page_urls, search_url, ChapterData, Pagination, Series,
};

#[test]
fn genre_names() {
    assert_eq!(format_genre("martial-arts"), "Martial Arts");
    assert_eq!(format_genre("sci-fi"), "Sci-Fi");
    assert_eq!(format_genre("cooking"), "Cooking");
    assert_eq!(format_genre(""), "");
    assert_eq!(format_genre("élan"), "élan");
}

#[test]
fn genre_ratings() {
    assert_eq!(genre_content_rating(&["Action".into(), "GORE".into()]), ContentRating::NSFW);
    assert_eq!(genre_content_rating(&["ecchi".into()]), ContentRating::Suggestive);
    assert_eq!(genre_content_rating(&["action".into()]), ContentRating::Safe);
}

#[test]
fn paging() {
    assert!(has_next_page(&Some(Pagination { page: Some(1), total_pages: Some(2) })));
    assert!(!has_next_page(&Some(Pagination { page: None, total_pages: None })));
    assert!(!has_next_page(&None));
}

#[test]
fn search_urls() {
    let filters = vec![
        FilterValue::Select { id: "status".into(), value: "ongoing".into() },
        FilterValue::MultiSelect { id: "genres".into(), included: vec!["a".into(), "b".into()], excluded: vec![] },
        FilterValue::Select { id: "status".into(), value: String::new() },
    ];
    assert_eq!(
        search_url(Some("one piece"), 2, &filters),
        "https://stonescape.xyz/api/series?page=2&limit=24&contentType=manhwa&search=one%20piece&status=ongoing&genres=a,b"
    );
    assert_eq!(
        listing_url("latest", 1).as_deref(),
        Some("https://stonescape.xyz/api/series?page=1&limit=24&contentType=manhwa")
    );
    assert_eq!(listing_url("other", 1), None);
}

#[test]
fn series_details() {
    let series = Series {
        title: "Title".into(),
        slug: "slug".into(),
        cover_url: Some("/c.jpg".into()),
        banner_url: None,
        description: Some("desc".into()),
        publication_status: Some("dropped".into()),
        author: Some(String::new()),
        artist: Some("Artist".into()),
        genres: Some(vec!["webtoon".into(), "smut".into()]),
        latest_chapter: None,
    };
    let mut manga = Manga::new("slug".into(), String::new());
    series.apply_details(&mut manga);
    assert_eq!(manga.title, "Title");
    assert_eq!(manga.cover.as_deref(), Some("https://stonescape.xyz/c.jpg"));
    assert_eq!(manga.url.as_deref(), Some("https://stonescape.xyz/series/slug"));
    assert_eq!(manga.authors, None);
    assert_eq!(manga.artists, Some(vec!["Artist".to_string()]));
    assert_eq!(manga.status, MangaStatus::Cancelled);
    assert_eq!(manga.content_rating, ContentRating::NSFW);
    assert_eq!(manga.tags, Some(vec!["Webtoons".to_string(), "Smut".to_string()]));
    assert_eq!(manga.viewer, Viewer::Webtoon);
}

#[test]
fn chapters_come_newest_first() {
    let data = |id: &str, n: &str| ChapterData {
        chapter_id: id.into(),
        chapter_number: n.into(),
        title: Some(String::new()),
        created_at: Some("2024-01-15T10:30:00Z".into()),
    };
    let chapters = chapter_list(vec![data("a", "1"), data("b", "2")], "slug");
    assert_eq!(chapters[0].key, "b");
    assert_eq!(chapters[0].number.as_deref(), Some("2"));
    assert_eq!(chapters[0].title, None);
    assert_eq!(chapters[0].date_uploaded, Some(1_705_314_600));
    assert_eq!(chapters[0].url.as_deref(), Some("https://stonescape.xyz/series/slug/ch-2#b"));
    assert_eq!(chapters[1].key, "a");
}

#[test]
fn pages_and_links() {
    assert_eq!(
        page_urls(None, Some(vec!["/p/1.webp".into()])),
        vec!["https://stonescape.xyz/p/1.webp".to_string()]
    );
    assert!(page_urls(None, None).is_empty());
    assert_eq!(
        handle_deep_link("https://stonescape.xyz/series/slug/ch-1"),
        Some(DeepLinkResult::Manga { key: "slug".into() })
    );
    assert_eq!(handle_deep_link("https://stonescape.xyz/other"), None);
}

fn plain_series(slug: &str, latest: bool) -> Series {
    Series {
        title: String::from(slug),
        slug: String::from(slug),
        cover_url: Some(String::from("/c.webp")),
        banner_url: None,
        description: None,
        publication_status: None,
        author: None,
        artist: None,
        genres: None,
        latest_chapter: if latest {
            Some(ChapterData {
                chapter_id: String::from("id1"),
                chapter_number: String::from("3"),
                title: None,
                created_at: None,
            })
        } else {
            None
        },
    }
}

#[test]
fn home_screen_sends_only_components_with_entries() {
    let r = home_components(
        Some(vec![]),
        Some(vec![plain_series("a", false)]),
        Some(vec![plain_series("b", false), plain_series("c", true)]),
    );
    assert_eq!(r.len(), 2);
    match &r[0] {
        HomeComponent::Popular(ms) => assert_eq!(ms[0].key, "a"),
        _ => panic!("popular first"),
    }
    match &r[1] {
        HomeComponent::Latest(ms) => {
            assert_eq!(ms.len(), 1);
            assert_eq!(ms[0].manga.key, "c");
            assert_eq!(ms[0].chapter.key, "id1");
        }
        _ => panic!("latest last"),
    }
    let r = home_components(Some(vec![plain_series("f", false)]), None, Some(vec![plain_series("x", false)]));
    assert_eq!(r.len(), 1);
    assert!(matches!(&r[0], HomeComponent::Featured(ms) if ms[0].key == "f"));
}
