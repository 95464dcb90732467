use aidoku_sources::rawdevart::{entry_manga, into_chapter, ChapterEntry, MangaEntry};
use aidoku_sources::model::ContentRating;
use aidoku_sources::rawdevart::{content_rating, manga_key, strip_html, Pagination, PaginationButton};

#[test]
fn manga_keys_from_page_ids() {
    assert_eq!(manga_key("c12345").as_deref(), Some("12345"));
    assert_eq!(manga_key("abc42").as_deref(), Some("42"));
    assert_eq!(manga_key("42").as_deref(), Some("42"));
    assert_eq!(manga_key("abc"), None);
    assert_eq!(manga_key("c12x"), None);
    assert_eq!(manga_key(""), None);
}

#[test]
fn ratings_from_tags() {
    assert_eq!(content_rating(&["Action".into(), "ECCHI".into()]), ContentRating::Suggestive);
    assert_eq!(content_rating(&["Ecchi".into(), "Hentai".into()]), ContentRating::NSFW);
    assert_eq!(content_rating(&["Drama".into()]), ContentRating::Safe);
}

#[test]
fn descriptions_and_paging() {
    assert_eq!(strip_html(Some(" text ".into()), "<b>text</b>"), "text");
    assert_eq!(strip_html(None, " raw "), "raw");
    let p = Pagination { button: Some(PaginationButton { next: 0 }) };
    assert_eq!(p.button.map(|b| b.next), Some(0));
}

#[test]
fn listing_entries_prefer_the_full_cover() {
    let m = entry_manga(
        &MangaEntry {
            manga_id: 4021,
            manga_name: String::from("  Name "),
            manga_cover_img: Some(String::from("small.jpg")),
            manga_cover_img_full: Some(String::from("full.jpg")),
        },
        String::from("https://site/manga/4021"),
    );
    assert_eq!(m.key, "4021");
    assert_eq!(m.title, "Name");
    assert_eq!(m.cover.as_deref(), Some("full.jpg"));
    assert_eq!(m.url.as_deref(), Some("https://site/manga/4021"));
    let m = entry_manga(
        &MangaEntry {
            manga_id: 7,
            manga_name: String::from("N"),
            manga_cover_img: Some(String::from("small.jpg")),
            manga_cover_img_full: None,
        },
        String::new(),
    );
    assert_eq!(m.cover.as_deref(), Some("small.jpg"));
}

#[test]
fn chapters_without_a_number_are_dropped() {
    assert!(into_chapter(&ChapterEntry { number: None, chapter_title: None, date: None }, String::new()).is_none());
    let c = into_chapter(
        &ChapterEntry { number: Some(String::from("12.5")), chapter_title: Some(String::from("  ")), date: Some(5) },
        String::from("u"),
    )
    .unwrap();
    assert_eq!(c.key, "12.5");
    assert_eq!(c.number.as_deref(), Some("12.5"));
    assert_eq!(c.title, None);
    assert_eq!(c.date_uploaded, Some(5));
    assert_eq!(c.url.as_deref(), Some("u"));
    let c = into_chapter(
        &ChapterEntry { number: Some(String::from("3")), chapter_title: Some(String::from(" Start ")), date: None },
        String::from("u"),
    )
    .unwrap();
    assert_eq!(c.title.as_deref(), Some("Start"));
}
