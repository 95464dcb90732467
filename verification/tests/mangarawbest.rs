use aidoku_sources::mangarawbest::{
    build_image_url, chapter_entry, clean_tag, content_rating_from_tags, has_next_page, grid_entry,
    is_plain_chapter_title, parse_chapter_number, parse_page_param, parse_relative_date, parse_status,
    parse_status_value, parse_tags, push_unique, sort_value, strip_base_url, ChapterLink, GridItem,
};
use aidoku_sources::model::{ContentRating, MangaStatus};

fn s(v: &str) -> String {
    String::from(v)
}

const NOW: i64 = 1_700_000_000;

#[test]
fn test_parse_relative_date() {
    let now = NOW;
    assert_eq!(parse_relative_date("6日前", now), Some(now - 6 * 86400));
    assert_eq!(parse_relative_date("2週間前", now), Some(now - 2 * 604800));
    assert_eq!(parse_relative_date("1ヶ月前", now), Some(now - 2_592_000));
    assert_eq!(parse_relative_date(" 1時間前 ", now), Some(now - 3600));
    assert_eq!(parse_relative_date("30分前", now), Some(now - 1800));
    assert_eq!(parse_relative_date("1年前", now), Some(now - 31_536_000));

    assert_eq!(parse_relative_date("昨日", now), None);
    assert_eq!(parse_relative_date("", now), None);
    assert_eq!(parse_relative_date("前", now), None);
}

#[test]
fn relative_dates_out_of_range_are_none() {
    assert_eq!(parse_relative_date("9223372036854775807年前", 0), None);
    assert_eq!(parse_relative_date("5日前", i64::MIN), None);
}

#[test]
fn test_parse_chapter_number() {
    assert_eq!(parse_chapter_number("第990話").as_deref(), Some("990"));
    assert_eq!(parse_chapter_number("第37.5話").as_deref(), Some("37.5"));
    assert_eq!(parse_chapter_number("第8.1話").as_deref(), Some("8.1"));
    assert_eq!(parse_chapter_number("12").as_deref(), Some("12"));

    assert_eq!(parse_chapter_number("番外編"), None);
    assert_eq!(parse_chapter_number(""), None);
    assert_eq!(parse_chapter_number("第3.話").as_deref(), Some("3"));
    assert_eq!(parse_chapter_number("第1.2.3話"), None);
}

#[test]
fn test_is_plain_chapter_title() {
    assert!(is_plain_chapter_title("第41話"));
    assert!(is_plain_chapter_title("第37.5話"));
    assert!(is_plain_chapter_title(" 第990話 "));

    assert!(!is_plain_chapter_title("第41話 サブタイトル"));
    assert!(!is_plain_chapter_title("番外編"));
    assert!(!is_plain_chapter_title("第話"));
}

#[test]
fn test_parse_status_value() {
    assert_eq!(
        parse_status_value("/manga-list?sort=-updated_at&page=1&filter%5Bstatus%5D=1"),
        Some(MangaStatus::Completed)
    );
    assert_eq!(
        parse_status_value("/manga-list?sort=-updated_at&page=1&filter%5Bstatus%5D=2"),
        Some(MangaStatus::Ongoing)
    );
    assert_eq!(parse_status_value("/manga-list"), None);
}

#[test]
fn status_falls_back_to_the_label() {
    assert_eq!(parse_status(None), MangaStatus::Unknown);
    assert_eq!(parse_status(Some((Some(s("/x?filter=2")), Some(s("完了"))))), MangaStatus::Ongoing);
    assert_eq!(parse_status(Some((Some(s("/x")), Some(s(" 完結 "))))), MangaStatus::Completed);
    assert_eq!(parse_status(Some((None, Some(s("進行中"))))), MangaStatus::Ongoing);
    assert_eq!(parse_status(Some((None, None))), MangaStatus::Unknown);
}

#[test]
fn test_content_rating_from_tags() {
    let rating = |tags: &[&str]| {
        let tags = tags.iter().map(|t| String::from(*t)).collect::<Vec<_>>();
        content_rating_from_tags(&tags)
    };

    assert_eq!(rating(&["Action", "Comedy"]), ContentRating::Safe);
    assert_eq!(rating(&[]), ContentRating::Safe);
    assert_eq!(rating(&["Action", "Ecchi"]), ContentRating::Suggestive);
    assert_eq!(rating(&["Mature"]), ContentRating::Suggestive);
    assert_eq!(rating(&["成人向け"]), ContentRating::NSFW);
    // explicit wins over suggestive regardless of ordering
    assert_eq!(rating(&["Ecchi", "成人向け"]), ContentRating::NSFW);
}

#[test]
fn test_clean_tag() {
    assert_eq!(clean_tag("アクション raw").as_deref(), Some("アクション"));
    assert_eq!(clean_tag(" Action ").as_deref(), Some("Action"));
    assert_eq!(clean_tag("   "), None);
}

#[test]
fn test_build_image_url() {
    let original = "https://rbest.mgcdnxyz.cfd/a/b/1.jpg";

    assert_eq!(build_image_url("1", original), original);
    assert_eq!(build_image_url("2", original), "https://i0.wp.com/rbest.mgcdnxyz.cfd/a/b/1.jpg");
    assert_eq!(
        build_image_url("3", original),
        "https://external-content.duckduckgo.com/iu/?u=https%3A%2F%2Frbest.mgcdnxyz.cfd%2Fa%2Fb%2F1.jpg"
    );
}

#[test]
fn test_parse_page_param() {
    assert_eq!(parse_page_param("https://mangaraw.best/manga-list?page=484"), Some(484));
    assert_eq!(parse_page_param("https://mangaraw.best/manga-list?page=2&sort=-views"), Some(2));
    assert_eq!(parse_page_param("https://mangaraw.best/manga-list"), None);
    assert!(has_next_page(2, Some(s("/manga-list?page=3"))));
    assert!(!has_next_page(3, Some(s("/manga-list?page=3"))));
    assert!(!has_next_page(1, None));
}

#[test]
fn test_strip_base_url() {
    assert_eq!(strip_base_url("https://mangaraw.best/raw/tu-long-nobai").as_deref(), Some("/raw/tu-long-nobai"));
    assert_eq!(strip_base_url("http://www.mangaraw.best/raw/tu-long-nobai").as_deref(), Some("/raw/tu-long-nobai"));
    assert_eq!(strip_base_url("https://example.com/raw/x"), None);
}

#[test]
fn test_push_unique() {
    let mut values = Vec::new();
    push_unique(&mut values, String::from("a"));
    push_unique(&mut values, String::from("b"));
    push_unique(&mut values, String::from("a"));

    assert_eq!(values.len(), 2);
    assert_eq!(values[0], "a");
    assert_eq!(values[1], "b");
}

#[test]
fn tags_are_cleaned_and_kept_once() {
    assert_eq!(parse_tags(&[s("Action raw"), s(" "), s("Action"), s("Drama")]), vec![s("Action"), s("Drama")]);
}

#[test]
fn sort_values_follow_the_filter() {
    assert_eq!(sort_value(0), Some("-updated_at"));
    assert_eq!(sort_value(7), Some("-name"));
    assert_eq!(sort_value(8), None);
}

#[test]
fn grid_entries_and_chapter_links() {
    let m = grid_entry(
        GridItem {
            href: Some(s("/raw/slug-a/chapter-1")),
            title_text: None,
            link_title: Some(s("Title A")),
            cover_data_src: None,
            cover_src: Some(s("https://c/a.jpg")),
        },
        "https://mangaraw.best",
    )
    .unwrap();
    assert_eq!(m.key, "slug-a");
    assert_eq!(m.title, "Title A");
    assert_eq!(m.url.as_deref(), Some("https://mangaraw.best/raw/slug-a"));
    assert!(grid_entry(
        GridItem { href: Some(s("/raw//x")), title_text: Some(s("t")), link_title: None, cover_data_src: None, cover_src: None },
        "https://mangaraw.best"
    )
    .is_none());

    let c = chapter_entry(
        ChapterLink { href: Some(s("/raw/slug-a/ch-41")), title: Some(s(" 第41話 ")), date_text: Some(s("2日前")) },
        "https://mangaraw.best",
        NOW,
    )
    .unwrap();
    assert_eq!(c.key, "ch-41");
    assert_eq!(c.title, None);
    assert_eq!(c.number.as_deref(), Some("41"));
    assert_eq!(c.date_uploaded, Some(NOW - 2 * 86400));
    assert_eq!(c.url.as_deref(), Some("https://mangaraw.best/raw/slug-a/ch-41"));
    assert!(chapter_entry(ChapterLink { href: Some(s("/raw/a/")), title: None, date_text: None }, "b", 0).is_none());
}

#[test]
fn tags_never_repeat() {
    let tags = parse_tags(&[s("A raw"), s("A"), s("B"), s(" A "), s("B raw")]);
    assert_eq!(tags, vec![s("A"), s("B")]);
}

#[test]
fn explicit_tags_win_in_any_order() {
    let tags = |v: &[&str]| v.iter().map(|t| String::from(*t)).collect::<Vec<_>>();
    assert_eq!(content_rating_from_tags(&tags(&["Ecchi", "成人向け"])), ContentRating::NSFW);
    assert_eq!(content_rating_from_tags(&tags(&["成人向け", "Ecchi"])), ContentRating::NSFW);
    assert_eq!(content_rating_from_tags(&tags(&["Action", "Ecchi", "Action"])), ContentRating::Suggestive);
    assert_eq!(content_rating_from_tags(&tags(&["Ecchi", "Action"])), ContentRating::Suggestive);
}
