use aidoku_sources::mangapill::{handle_deep_link, parse_content_rating, parse_status, parse_viewer, search_url};
use aidoku_sources::model::{ContentRating, DeepLinkResult, MangaStatus, Viewer};

#[test]
fn test_parse_status() {
    assert!(matches!(parse_status("Publishing"), MangaStatus::Ongoing));
    assert!(matches!(parse_status("Finished"), MangaStatus::Completed));
    assert!(matches!(parse_status("On Hiatus"), MangaStatus::Hiatus));
    assert!(matches!(parse_status("Discontinued"), MangaStatus::Cancelled));
    assert!(matches!(parse_status("Unknown Status"), MangaStatus::Unknown));
    assert!(matches!(parse_status(""), MangaStatus::Unknown));
}

#[test]
fn test_parse_viewer() {
    let manhwa: Vec<String> = vec!["Manhwa".into()];
    let manhua: Vec<String> = vec!["Manhua".into()];
    let manga: Vec<String> = vec!["Action".into(), "Fantasy".into()];
    let empty: Vec<String> = vec![];

    assert!(matches!(parse_viewer(&manhwa), Viewer::Webtoon));
    assert!(matches!(parse_viewer(&manhua), Viewer::Webtoon));
    assert!(matches!(parse_viewer(&manga), Viewer::RightToLeft));
    assert!(matches!(parse_viewer(&empty), Viewer::RightToLeft));
}

#[test]
fn test_parse_content_rating() {
    let hentai: Vec<String> = vec!["Hentai".into()];
    let ecchi: Vec<String> = vec!["Ecchi".into()];
    let safe: Vec<String> = vec!["Action".into()];
    let empty: Vec<String> = vec![];

    assert!(matches!(parse_content_rating(&hentai), ContentRating::NSFW));
    assert!(matches!(parse_content_rating(&ecchi), ContentRating::Suggestive));
    assert!(matches!(parse_content_rating(&safe), ContentRating::Safe));
    assert!(matches!(parse_content_rating(&empty), ContentRating::Safe));
}

#[test]
fn test_deep_link_manga() {
    assert_eq!(
        handle_deep_link("https://mangapill.com/manga/123-title"),
        Some(DeepLinkResult::Manga { key: "/manga/123-title".into() })
    );
}

#[test]
fn test_deep_link_chapters_page() {
    assert_eq!(handle_deep_link("https://mangapill.com/chapters"), None);
}

#[test]
fn test_deep_link_wrong_domain() {
    assert_eq!(handle_deep_link("https://example.com/manga/123"), None);
}

#[test]
fn search_urls_start_at_the_search_page() {
    assert!(search_url(Some("one piece"), 1, &[]).starts_with("https://mangapill.com/search?"));
}
