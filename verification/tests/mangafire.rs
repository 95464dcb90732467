use aidoku_sources::mangafire::{ApiChapter, ApiManga, ApiMeta, ApiPoster, ApiResponse};

#[test]
fn listing_entries_take_the_largest_poster() {
    let manga = ApiManga {
        hid: "hid".into(),
        slug: None,
        title: "Title".into(),
        poster: Some(ApiPoster { small: Some("s".into()), medium: Some("m".into()), large: None }),
    };
    let m = manga.into_manga();
    assert_eq!(m.key, "hid");
    assert_eq!(m.cover.as_deref(), Some("m"));
}

#[test]
fn chapters_and_paging() {
    let c = ApiChapter { id: 42, number: "3.5".into(), name: Some(String::new()), created_at: Some(7) }
        .into_chapter("manga", "en");
    assert_eq!(c.key, "42");
    assert_eq!(c.title, None);
    assert_eq!(c.url.as_deref(), Some("manga/42"));
    assert_eq!(c.language.as_deref(), Some("en"));
    assert_eq!(c.number.as_deref(), Some("3.5"));
    let r: ApiResponse<u8> = ApiResponse { items: vec![], meta: Some(ApiMeta { has_next: true }) };
    assert!(r.has_next());
    let r: ApiResponse<u8> = ApiResponse { items: vec![], meta: None };
    assert!(!r.has_next());
}
