use aidoku_sources::hennoveltranslations::{
    chapter_number_text, content_rating_from_tags, custom_fields, episode_chapter, episode_key, episode_text,
    episode_url, handle_deep_link, is_episode_link, novel_key, parse_status, push_paragraph, title_matches,
};
use aidoku_sources::model::{ContentRating, DeepLinkResult, MangaStatus};

fn s(v: &str) -> String {
    String::from(v)
}

#[test]
fn novel_list() {
    assert_eq!(novel_key("https://hennoveltranslations.com/archives/novels/some-novel/"), "some-novel");
    assert!(title_matches("My Novel", Some("NOVEL")));
    assert!(!title_matches("My Novel", Some("other")));
    assert!(title_matches("My Novel", None));
}

#[test]
fn statuses_and_fields() {
    assert_eq!(parse_status("Status: Completed"), MangaStatus::Completed);
    assert_eq!(parse_status("Status: ongoing"), MangaStatus::Ongoing);
    assert_eq!(parse_status("Status: ?"), MangaStatus::Unknown);
    assert_eq!(content_rating_from_tags(&[s("Romance"), s("Mature")]), ContentRating::NSFW);
    assert_eq!(content_rating_from_tags(&[s("Romance")]), ContentRating::Safe);
    let f = custom_fields(&[
        s("Author: Someone"),
        s("Genre: Genre-Romance, Drama Comedy"),
        s("Type: Manhwa"),
    ]);
    assert_eq!(f.authors, Some(vec![s("Someone")]));
    assert_eq!(f.tags, Some(vec![s("Romance"), s("Drama"), s("Comedy")]));
    assert_eq!(f.content_rating, Some(ContentRating::Safe));
    assert!(f.webtoon);
    let f = custom_fields(&[s("Genre: ")]);
    assert_eq!(f.tags, None);
    assert_eq!(f.content_rating, Some(ContentRating::Unknown));
}

#[test]
fn episodes() {
    assert!(is_episode_link("https://hennoveltranslations.com/episodes/ep-1/"));
    assert_eq!(episode_key("https://hennoveltranslations.com/episodes/ep-1/"), "/episodes/ep-1/");
    assert_eq!(chapter_number_text("Episode 12").as_deref(), Some("12"));
    assert_eq!(chapter_number_text("   "), None);
    let c = episode_chapter(s("https://hennoveltranslations.com/episodes/ep-3/"), Some(s("Episode 3"))).unwrap();
    assert_eq!(c.key, "/episodes/ep-3/");
    assert_eq!(c.number.as_deref(), Some("3"));
    assert!(episode_chapter(s("https://hennoveltranslations.com/about/"), None).is_none());
    assert_eq!(episode_url(None, "/episodes/x/"), Ok(s("https://hennoveltranslations.com/episodes/x/")));
    assert_eq!(episode_url(Some(s("https://evil.example/x")), "k"), Err(()));
}

#[test]
fn episode_texts() {
    let mut ps = Vec::new();
    push_paragraph(&mut ps, s(""));
    push_paragraph(&mut ps, s(" *** "));
    push_paragraph(&mut ps, s("Hello"));
    assert_eq!(ps, vec![s("\\ \\ \\"), s("Hello")]);
    let t = episode_text("Part 1", &vec![s("A"), s("B")], &None, "", false);
    assert_eq!(t, "## Part 1\n\n&nbsp;\n\nA\n\n&nbsp;\n\nB");
    let t = episode_text("", &vec![], &None, "Fallback", true);
    assert_eq!(
        t,
        "Fallback\n\n&nbsp;\n\nThis chapter is locked behind a paywall and will be released for free at a later date."
    );
}

#[test]
fn hennovel_deep_links() {
    assert_eq!(
        handle_deep_link("https://hennoveltranslations.com/archives/novels/a-novel/"),
        Some(DeepLinkResult::Manga { key: s("a-novel") })
    );
    assert_eq!(
        handle_deep_link("https://hennoveltranslations.com/episodes/ep-2/?x=1"),
        Some(DeepLinkResult::Chapter { manga_key: s(""), key: s("/episodes/ep-2") })
    );
    assert_eq!(handle_deep_link("https://hennoveltranslations.com/"), None);
}
