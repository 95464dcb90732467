use aidoku_sources::kagane::filters::{build_search_body, get_default_content_ratings};
use aidoku_sources::kagane::helpers::{build_chapter_name, parse_date, status_from_str};
use aidoku_sources::kagane::series::{
    cached_token, challenge_body, challenge_url, chapter_id, pages_from_challenge, search_url,
    ChallengeDto, ChallengeError, PageDto,
};
use aidoku_sources::model::{FilterValue, MangaStatus};

#[test]
fn test_parse_date_valid() {
    let ts = parse_date("2024-01-15T10:30:00");
    assert!(ts > 0, "expected positive timestamp");
}

#[test]
fn test_parse_date_rfc3339_with_fractional_seconds() {
    let ts = parse_date("2024-01-15T10:30:00.123456Z");
    assert_eq!(ts, 1_705_314_600);
}

#[test]
fn test_parse_date_invalid() {
    assert_eq!(parse_date("not-a-date"), 0);
}

#[test]
fn test_status_ongoing() {
    assert_eq!(status_from_str("ONGOING"), MangaStatus::Ongoing);
    assert_eq!(status_from_str("ongoing"), MangaStatus::Ongoing);
}

#[test]
fn test_status_unknown() {
    assert_eq!(status_from_str("WHATEVER"), MangaStatus::Unknown);
    assert_eq!(status_from_str("abandoned"), MangaStatus::Cancelled);
}

#[test]
fn test_chapter_name_optional_no_number() {
    assert_eq!(build_chapter_name("The Beginning", Some("1"), None, "optional"), "The Beginning");
}

#[test]
fn test_chapter_name_optional_no_title() {
    assert_eq!(build_chapter_name("", Some("5"), None, "optional"), "Ch.5");
}

#[test]
fn test_chapter_name_always() {
    assert_eq!(build_chapter_name("Storm", Some("3"), None, "always"), "Ch.3 Storm");
}

#[test]
fn test_chapter_name_vol_chapter() {
    assert_eq!(build_chapter_name("Storm", Some("3"), Some("1"), "vol_chapter"), "Vol.1 Ch.3 Storm");
}

#[test]
fn test_chapter_name_vol_chapter_no_vol() {
    assert_eq!(build_chapter_name("Storm", Some("3"), None, "vol_chapter"), "Ch.3 Storm");
}

#[test]
fn chapter_name_volume_only_is_trimmed() {
    assert_eq!(build_chapter_name("  ", None, Some("2"), "vol_chapter"), "Vol.2");
}

#[test]
fn test_build_body_empty_query() {
    let (body, sort) = build_search_body(None, &[], &["Safe", "Suggestive"]);
    assert!(body.contains("source_type"));
    assert!(body.contains("Safe"));
    assert!(sort.is_empty());
    assert_eq!(
        body,
        r#"{"content_rating":["Safe","Suggestive"],"source_type":["Official","Unofficial","Mixed"]}"#
    );
}

#[test]
fn test_build_body_with_query() {
    let (body, _) = build_search_body(Some("attack"), &[], &["Safe"]);
    assert!(body.contains("\"title\""));
    assert!(body.contains("attack"));
}

#[test]
fn test_build_body_sort_filter() {
    let filters = vec![FilterValue::Sort { id: "sort".into(), index: 1, ascending: false }];
    let (_, sort) = build_search_body(None, &filters, &["Safe"]);
    assert_eq!(sort, "total_views,desc");
}

#[test]
fn test_build_body_sort_ascending() {
    let filters = vec![FilterValue::Sort { id: "sort".into(), index: 6, ascending: true }];
    let (_, sort) = build_search_body(None, &filters, &["Safe"]);
    assert_eq!(sort, "updated_at");
}

#[test]
fn test_build_body_format_filter() {
    let filters = vec![FilterValue::MultiSelect {
        id: "format".into(),
        included: vec!["Manga".into(), "Manhwa".into()],
        excluded: vec![],
    }];
    let (body, _) = build_search_body(None, &filters, &["Safe"]);
    assert!(body.contains("\"format\""));
    assert!(body.contains("Manga"));
}

#[test]
fn test_build_body_content_rating_from_filter() {
    let filters = vec![FilterValue::MultiSelect {
        id: "content_rating".into(),
        included: vec!["Safe".into()],
        excluded: vec![],
    }];
    let (body, _) = build_search_body(None, &filters, &["Safe", "Suggestive"]);
    assert!(body.contains("content_rating"));
    assert!(body.contains("Safe"));
    assert!(!body.contains("Suggestive"));
}

#[test]
fn build_body_escapes_the_title() {
    let (body, _) = build_search_body(Some("a \"b\"\n"), &[], &[]);
    assert_eq!(
        body,
        "{\"source_type\":[\"Official\",\"Unofficial\",\"Mixed\"],\"title\":\"a \\\"b\\\"\\n\"}"
    );
}

#[test]
fn default_ratings_follow_the_setting() {
    assert_eq!(get_default_content_ratings(None), vec!["Safe", "Suggestive", "Erotica", "Pornographic"]);
    assert_eq!(get_default_content_ratings(Some("suggestive")), vec!["Safe", "Suggestive"]);
    assert_eq!(get_default_content_ratings(Some("weird")).len(), 4);
}

fn challenge(pages: Vec<PageDto>) -> ChallengeDto {
    ChallengeDto { access_token: "tok123".into(), cache_url: "https://akari.kagane.org".into(), pages }
}

#[test]
fn test_empty_challenge_pages_is_error() {
    let result = pages_from_challenge("chapter-id", challenge(Vec::new()), false);
    assert_eq!(result, Err(ChallengeError::NoPages));
}

#[test]
fn test_challenge_pages_are_sorted_and_mapped() {
    let pages = pages_from_challenge(
        "chapter-id",
        challenge(vec![
            PageDto { page_number: 2, page_uuid: "uuid-2".into() },
            PageDto { page_number: 1, page_uuid: "uuid-1".into() },
        ]),
        true,
    )
    .unwrap();
    assert_eq!(pages.len(), 2);
    assert_eq!(
        pages[0],
        "https://akari.kagane.org/api/v2/books/file/chapter-id/uuid-1?token=tok123&is_datasaver=true"
    );
    assert_eq!(
        pages[1],
        "https://akari.kagane.org/api/v2/books/file/chapter-id/uuid-2?token=tok123&is_datasaver=true"
    );
}

#[test]
fn test_challenge_page_with_empty_uuid_is_error() {
    let result = pages_from_challenge(
        "chapter-id",
        challenge(vec![PageDto { page_number: 1, page_uuid: String::new() }]),
        false,
    );
    assert_eq!(result, Err(ChallengeError::InvalidPage));
}

#[test]
fn challenge_without_access_is_error() {
    let dto = ChallengeDto { access_token: String::new(), cache_url: "x".into(), pages: Vec::new() };
    assert_eq!(pages_from_challenge("c", dto, false), Err(ChallengeError::InvalidAccess));
}

#[test]
fn equal_page_numbers_keep_their_order() {
    let pages = pages_from_challenge(
        "c",
        challenge(vec![
            PageDto { page_number: 3, page_uuid: "a".into() },
            PageDto { page_number: 1, page_uuid: "b".into() },
            PageDto { page_number: 3, page_uuid: "c".into() },
        ]),
        false,
    )
    .unwrap();
    let ids: Vec<&str> = pages.iter().map(|u| u.split('/').last().unwrap().split('?').next().unwrap()).collect();
    assert_eq!(ids, vec!["b", "a", "c"]);
}

#[test]
fn chapter_ids_and_urls() {
    assert_eq!(chapter_id("/series/series-id/reader/chapter-id").as_deref(), Some("chapter-id"));
    assert_eq!(chapter_id("/series/x/reader/"), None);
    assert_eq!(challenge_url("abc", true), "https://yuzuki.kagane.org/api/v2/books/abc?is_datasaver=true");
    assert_eq!(challenge_body("XYZ"), r#"{"challenge":"XYZ"}"#);
    assert_eq!(search_url(1, ""), "https://yuzuki.kagane.org/api/v2/search/series?page=0&size=35");
    assert_eq!(
        search_url(3, "total_views,desc"),
        "https://yuzuki.kagane.org/api/v2/search/series?page=2&size=35&sort=total_views,desc"
    );
}

#[test]
fn cached_tokens_expire() {
    assert_eq!(cached_token(10, Some("20"), Some("t".into())).as_deref(), Some("t"));
    assert_eq!(cached_token(30, Some("20"), Some("t".into())), None);
    assert_eq!(cached_token(10, Some("junk"), Some("t".into())), None);
    assert_eq!(cached_token(10, Some("20"), Some(String::new())), None);
}
