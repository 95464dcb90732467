use aidoku_sources::mangarawjp::{
    apply_details, chapter_entry, clean_title, extract_ch_number, grid_cols, handle_deep_link, image_request_body,
    listing_entry, page_urls, search_url, sort_index, sorted_unique, tags_rating, tile_order, RawJpDetails,
    ReaderError, TileError,
};
use aidoku_sources::model::{ContentRating, DeepLinkResult, FilterValue, Manga, Viewer};

fn s(v: &str) -> String {
    String::from(v)
}

fn sort(index: i32) -> Vec<FilterValue> {
    vec![FilterValue::Sort { id: s("sort"), index, ascending: false }]
}

#[test]
fn test_sort_index_falls_back_to_the_first_option() {
    assert_eq!(sort_index(&[]), 0);
    assert_eq!(sort_index(&sort(1)), 1);
}

#[test]
fn urls_for_search_and_orderings() {
    assert_eq!(search_url(Some("ワンピース"), 1, &sort(1)), "https://mangarawjp.tv?s=%E3%83%AF%E3%83%B3%E3%83%94%E3%83%BC%E3%82%B9&page=1");
    assert_eq!(search_url(Some(""), 1, &sort(1)), "https://mangarawjp.tv/ranking/1/");
    assert_eq!(search_url(None, 2, &[]), "https://mangarawjp.tv/page/2/");
}

#[test]
fn titles_and_numbers() {
    assert_eq!(clean_title(s("One Piece Raw Free")), "One Piece");
    assert_eq!(clean_title(s("Naruto raw free")), "Naruto");
    assert_eq!(clean_title(s("Bleach")), "Bleach");
    assert_eq!(extract_ch_number("【第12話】").as_deref(), Some("12"));
    assert_eq!(extract_ch_number("第3.5話 x").as_deref(), Some("3.5"));
    assert_eq!(extract_ch_number("no number"), None);
}

#[test]
fn entries_and_chapters() {
    let m = listing_entry(Some(s("https://mangarawjp.tv/manga-raw/x/")), Some(s("X Raw Free")), Some(s("https://mangarawjp.tv/c.jpg"))).unwrap();
    assert_eq!(m.key, "/manga-raw/x/");
    assert_eq!(m.title, "X");
    assert!(listing_entry(Some(s("https://other/x")), Some(s("X")), None).is_none());
    let c = chapter_entry(Some(s("https://mangarawjp.tv/manga-raw/x/第2話/")), Some(s("【第2話】"))).unwrap();
    assert_eq!(c.key, "/manga-raw/x/第2話/");
    assert_eq!(c.number.as_deref(), Some("2"));
    assert_eq!(c.title, None);
}

#[test]
fn tags_are_sorted_once() {
    assert_eq!(sorted_unique(&[s("b"), s("a"), s("b"), s("C")]), vec![s("C"), s("a"), s("b")]);
    assert_eq!(tags_rating(&[s("エロい")]), ContentRating::NSFW);
    assert_eq!(tags_rating(&[s("Ecchi")]), ContentRating::Suggestive);
    assert_eq!(tags_rating(&[s("Action")]), ContentRating::Safe);
}

#[test]
fn rawjp_details_fill_in_the_manga() {
    let mut m = Manga::new(s("/manga-raw/x/"), s("Old Raw Free"));
    apply_details(
        &mut m,
        RawJpDetails { heading: None, cover: None, paragraphs: vec![s("a"), s("b")], tags: Some(vec![s("オトナ"), s("Action"), s("Action")]) },
    );
    assert_eq!(m.title, "Old");
    assert_eq!(m.description.as_deref(), Some("a\n b"));
    assert_eq!(m.url.as_deref(), Some("https://mangarawjp.tv/manga-raw/x/"));
    assert_eq!(m.tags, Some(vec![s("Action"), s("オトナ")]));
    assert_eq!(m.content_rating, ContentRating::NSFW);
    assert_eq!(m.viewer, Viewer::RightToLeft);
}

#[test]
fn reader_scripts_give_the_request_body() {
    let scripts = vec![s("var a = 1;"), s("window.MangaId =  133 ;window.CNumber =  10.5 ")];
    assert_eq!(image_request_body(&scripts), Ok(s("{\"m\":133,\"n\":10.5}")));
    assert_eq!(image_request_body(&[s("window.CNumber = 2")]), Err(ReaderError::MangaIdNotFound));
    assert_eq!(image_request_body(&[s("window.MangaId = 2")]), Err(ReaderError::ChapterNumberNotFound));
    assert_eq!(page_urls(&[s("/public/key/?id=1")]), vec![s("https://img-cdn.stackpathcdn.app/public/key/?id=1")]);
}

fn scramble(plain: &str) -> String {
    let k = "mangarawjp.tv".bytes().fold(0u8, |a, b| a ^ b);
    plain.bytes().map(|b| format!("{:02x}", b ^ k)).collect()
}

#[test]
fn tile_orders_unscramble() {
    assert_eq!(tile_order(&scramble("3,1,x,0,2")), Ok(vec![3, 1, 0, 2]));
    assert_eq!(tile_order("zz"), Err(TileError::InvalidKey));
    assert_eq!(tile_order(""), Ok(vec![]));
    assert_eq!(grid_cols(4), 2);
    assert_eq!(grid_cols(10), 3);
    assert_eq!(grid_cols(0), 0);
}

#[test]
fn rawjp_deep_links() {
    assert_eq!(
        handle_deep_link("https://mangarawjp.tv/manga-raw/title-raw-free/"),
        Some(DeepLinkResult::Manga { key: s("/manga-raw/title-raw-free/") })
    );
    assert_eq!(
        handle_deep_link("https://mangarawjp.tv/manga-raw/title-raw-free/第1話/"),
        Some(DeepLinkResult::Chapter { manga_key: s("/manga-raw/title-raw-free/"), key: s("/manga-raw/title-raw-free/第1話/") })
    );
    assert_eq!(handle_deep_link("https://mangarawjp.tv/ranking/1/"), None);
}
