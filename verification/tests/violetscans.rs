use aidoku_sources::violetscans::chapter_from_row;
use aidoku_sources::violetscans::{apply_details, DetailsBlock};
use aidoku_sources::model::Manga;
use aidoku_sources::model::{ContentRating, DeepLinkResult, MangaStatus, Viewer};
use aidoku_sources::violetscans::{
    description, display_title, extract_images, first_number_text, handle_deep_link, imptdt_value, is_chapter_link,
    key_from_url, parse_status, parse_viewer, search_url, split_names, tag_rating, tags_with_type,
};

fn s(v: &str) -> String {
    String::from(v)
}

#[test]
fn keys_statuses_and_readers() {
    assert_eq!(key_from_url("https://violetscans.org/comics/x/"), "/comics/x/");
    assert_eq!(key_from_url("/comics/y"), "/comics/y");
    assert_eq!(parse_status(" Publishing "), MangaStatus::Ongoing);
    assert_eq!(parse_status("On Hold"), MangaStatus::Hiatus);
    assert_eq!(parse_status("Dropped"), MangaStatus::Cancelled);
    assert_eq!(parse_status("?"), MangaStatus::Unknown);
    assert_eq!(parse_viewer("Manhwa"), Viewer::Webtoon);
    assert_eq!(parse_viewer("Comic"), Viewer::LeftToRight);
    assert_eq!(parse_viewer("Manga"), Viewer::RightToLeft);
}

#[test]
fn details_table_and_description() {
    let rows = vec![
        (Some(s("Status Ongoing")), Some(s("-"))),
        (Some(s("status ongoing")), Some(s(" Ongoing "))),
    ];
    assert_eq!(imptdt_value(&rows, "Status").as_deref(), Some("Ongoing"));
    assert_eq!(imptdt_value(&rows, "Type"), None);
    assert_eq!(split_names("A, B ,C"), vec![s("A"), s("B"), s("C")]);
    assert_eq!(description(Some(s("Plot")), Some(s(" X "))).as_deref(), Some("Plot\n\nAlternative Names: X"));
    assert_eq!(description(None, Some(s(" "))), None);
    assert_eq!(tags_with_type(vec![s("Action"), s("manhwa")], &Some(s("Manhwa"))), vec![s("Action"), s("manhwa")]);
    assert_eq!(tags_with_type(vec![s("Action")], &Some(s("Manhwa"))), vec![s("Action"), s("Manhwa")]);
    assert_eq!(tag_rating(&[s("Mature")]), ContentRating::NSFW);
    assert_eq!(tag_rating(&[s("Ecchi")]), ContentRating::Suggestive);
}

#[test]
fn chapters_and_images() {
    assert_eq!(first_number_text("Chapter 12.5 end").as_deref(), Some("12.5"));
    assert_eq!(first_number_text("none"), None);
    assert_eq!(display_title(s("Chapter 3"), &[s("Chapter 3")]), None);
    assert_eq!(display_title(s("The Start"), &[s("Chapter 3")]).as_deref(), Some("The Start"));
    assert!(is_chapter_link("https://violetscans.org/x-chapter-1/"));
    assert!(!is_chapter_link("#"));
    assert_eq!(
        extract_images(r#"ts_reader.run({"images":["https://a/1.jpg","https://a/2.jpg"]})"#),
        vec![s("https://a/1.jpg"), s("https://a/2.jpg")]
    );
    assert!(extract_images("nothing").is_empty());
}

#[test]
fn violet_search_and_links() {
    assert!(search_url(Some("solo"), 2, &[]).starts_with("https://violetscans.org/comics/?page=2&title=solo"));
    assert_eq!(
        handle_deep_link("https://violetscans.org/comics/solo/"),
        Some(DeepLinkResult::Manga { key: s("/comics/solo/") })
    );
    assert_eq!(handle_deep_link("https://violetscans.org/other"), None);
}

fn row(text: &str, value: &str) -> (Option<String>, Option<String>) {
    (Some(String::from(text)), Some(String::from(value)))
}

#[test]
fn details_blocks_fill_in_a_manga() {
    let block = DetailsBlock {
        title: Some(String::from("  Tower  ")),
        cover: None,
        rows: vec![
            row("Status Ongoing", " Ongoing "),
            row("Type Manhwa", "Manhwa"),
            row("Author", "Ann, Bo "),
            row("Artist", "-"),
        ],
        description: Some(String::from(" Story. ")),
        alternative: Some(String::from(" 塔 ")),
        genres: vec![String::from(" Action "), String::from("Mature")],
    };
    let mut m = Manga::new(String::from("/comics/tower/"), String::from("old"));
    m.cover = Some(String::from("kept.jpg"));
    m.artists = Some(vec![String::from("Old Artist")]);
    apply_details(&block, &mut m);
    assert_eq!(m.title, "Tower");
    assert_eq!(m.cover.as_deref(), Some("kept.jpg"));
    assert_eq!(m.authors, Some(vec![String::from("Ann"), String::from("Bo")]));
    assert_eq!(m.artists, Some(vec![String::from("Old Artist")]));
    assert_eq!(m.description.as_deref(), Some("Story.\n\nAlternative Names: 塔"));
    assert_eq!(m.url.as_deref(), Some("https://violetscans.org/comics/tower/"));
    assert_eq!(m.tags, Some(vec![String::from("Action"), String::from("Mature"), String::from("Manhwa")]));
    assert_eq!(m.status, MangaStatus::Ongoing);
    assert_eq!(m.content_rating, ContentRating::NSFW);
    assert_eq!(m.viewer, Viewer::Webtoon);
}

#[test]
fn violet_chapter_rows_become_chapters() {
    let spellings = vec![String::from("Chapter 12"), String::from("Chapter 12")];
    let c = chapter_from_row(
        Some(String::from("https://violetscans.org/tower-chapter-12/")),
        Some(String::from("  Chapter\n 12 ")),
        Some(String::from("ignored")),
        &spellings,
        Some(5),
    )
    .unwrap();
    assert_eq!(c.key, "/tower-chapter-12/");
    assert_eq!(c.url.as_deref(), Some("https://violetscans.org/tower-chapter-12/"));
    assert_eq!(c.number.as_deref(), Some("12"));
    assert_eq!(c.title, None);
    assert_eq!(c.date_uploaded, Some(5));
    let c = chapter_from_row(Some(String::from("/x/")), None, Some(String::from("Chapter 3 - The End")), &[], None).unwrap();
    assert_eq!(c.title.as_deref(), Some("Chapter 3 - The End"));
    assert_eq!(c.number.as_deref(), Some("3"));
    let c = chapter_from_row(Some(String::from("/y/")), None, None, &[], None).unwrap();
    assert_eq!(c.title.as_deref(), Some(""));
    assert_eq!(c.number, None);
    assert!(chapter_from_row(Some(String::from("#top")), None, None, &[], None).is_none());
    assert!(chapter_from_row(Some(String::new()), None, None, &[], None).is_none());
    assert!(chapter_from_row(None, None, None, &[], None).is_none());
}
