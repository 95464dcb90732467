use aidoku_sources::dynastyscans::{
    chapter_from_item, chapter_number, cover_source, handle_deep_link, handle_manga_migration, page_urls,
    search_entries, search_url, series_chapters, series_manga, ChapterItem, CoverError, DynastyTag, SearchLink,
    SeriesEntry, Tagging,
};
use aidoku_sources::model::{ContentRating, DeepLinkResult, FilterValue, MangaStatus, Viewer};

fn s(v: &str) -> String {
    String::from(v)
}

fn tag(kind: &str, name: &str) -> DynastyTag {
    DynastyTag { kind: s(kind), name: s(name) }
}

#[test]
fn dynasty_search_urls() {
    assert_eq!(search_url(None, 1, &[]), "https://dynasty-scans.com/search?classes%5B%5D=Series");
    assert_eq!(
        search_url(
            Some("yuri day"),
            2,
            &[
                FilterValue::Sort { id: s("sort"), index: 1, ascending: true },
                FilterValue::MultiSelect { id: s("tags"), included: vec![s("1")], excluded: vec![s("2")] },
                FilterValue::MultiSelect { id: s("type"), included: vec![s("Anthology")], excluded: vec![] },
            ]
        ),
        "https://dynasty-scans.com/search?q=yuri%20day&page=2&sort=name&with%5B%5D=1&without%5B%5D=2&classes%5B%5D=Anthology"
    );
}

#[test]
fn search_results_keep_series_links() {
    let r = search_entries(
        vec![
            SearchLink { href: Some(s("/series/gabriel_dropout")), text: Some(s("Gabriel Dropout")) },
            SearchLink { href: Some(s("/chapters/x")), text: Some(s("X")) },
        ],
        false,
    );
    assert_eq!(r.len(), 1);
    assert_eq!(r[0].key, "gabriel_dropout");
    assert_eq!(r[0].cover.as_deref(), Some("https://dynasty-scans.com/series/gabriel_dropout.json"));
    let r = search_entries(vec![SearchLink { href: Some(s("/series/a")), text: Some(s("A")) }], true);
    assert_eq!(r[0].cover, None);
}

#[test]
fn series_records() {
    let m = series_manga(SeriesEntry {
        name: s("Name"),
        permalink: s("name"),
        cover: Some(s("/covers/1.jpg")),
        tags: vec![
            tag("Author", "A"),
            tag("General", "Ecchi"),
            tag("Status", "Ongoing"),
            tag("Status", "Weird"),
            tag("General", "Comedy"),
        ],
        description: Some(s("About")),
    });
    assert_eq!(m.cover.as_deref(), Some("https://dynasty-scans.com/covers/1.jpg"));
    assert_eq!(m.authors, Some(vec![s("A")]));
    assert_eq!(m.tags, Some(vec![s("Ecchi"), s("Comedy")]));
    assert_eq!(m.status, MangaStatus::Ongoing);
    assert_eq!(m.content_rating, ContentRating::Suggestive);
    assert_eq!(m.viewer, Viewer::RightToLeft);
    assert_eq!(m.url.as_deref(), Some("https://dynasty-scans.com/series/name"));
    let m = series_manga(SeriesEntry {
        name: s("N"),
        permalink: s("n"),
        cover: None,
        tags: vec![tag("General", "Ecchi"), tag("General", "sexual"), tag("Status", "Licensed")],
        description: None,
    });
    assert_eq!(m.content_rating, ContentRating::NSFW);
    assert_eq!(m.status, MangaStatus::Cancelled);
    assert_eq!(m.authors, None);
}

#[test]
fn chapter_numbers_from_permalinks() {
    assert_eq!(chapter_number("gabriel_dropout_ch138").as_deref(), Some("138"));
    assert_eq!(chapter_number("a_ch12_5").as_deref(), Some("12.5"));
    assert_eq!(chapter_number("a_ch_5").as_deref(), Some(".5"));
    assert_eq!(chapter_number("a_ch_"), None);
    assert_eq!(chapter_number("a_chx"), None);
    assert_eq!(chapter_number("oneshot"), None);
}

#[test]
fn chapters_from_records() {
    let c = chapter_from_item(ChapterItem {
        title: s("Chapter 12: The End"),
        permalink: s("x_ch12"),
        date_uploaded: Some(5),
        tags: vec![tag("Scanlator", "Team"), tag("General", "Y")],
        number_display: s("12"),
    });
    assert_eq!(c.title.as_deref(), Some("The End"));
    assert_eq!(c.number.as_deref(), Some("12"));
    assert_eq!(c.scanlators, Some(vec![s("Team")]));
    assert_eq!(c.url.as_deref(), Some("https://dynasty-scans.com/chapters/x_ch12"));
    let c = chapter_from_item(ChapterItem {
        title: s("Chapter 3"),
        permalink: s("x_ch3"),
        date_uploaded: None,
        tags: vec![],
        number_display: s("3"),
    });
    assert_eq!(c.title, None);
    let c = chapter_from_item(ChapterItem {
        title: s("Extra"),
        permalink: s("x_extra"),
        date_uploaded: None,
        tags: vec![],
        number_display: s(""),
    });
    assert_eq!(c.title.as_deref(), Some("Extra"));
}

#[test]
fn chapter_lists_are_newest_first() {
    let item = |p: &str| ChapterItem { title: s(p), permalink: s(p), date_uploaded: None, tags: vec![], number_display: s("") };
    let cs = series_chapters(Some(vec![
        Tagging::Header(Some(s("Volume 1"))),
        Tagging::Chapter(item("a_ch1")),
        Tagging::Chapter(item("a_ch2")),
    ]))
    .unwrap();
    assert_eq!(cs.len(), 2);
    assert_eq!(cs[0].key, "a_ch2");
    assert_eq!(cs[1].key, "a_ch1");
    assert!(series_chapters(None).is_none());
}

#[test]
fn covers_pages_migration_and_links() {
    assert_eq!(
        cover_source(Some(s("https://dynasty-scans.com/series/a.json")), br#"{"cover":"/c.jpg"}"#),
        Ok(Some(s("https://dynasty-scans.com/c.jpg")))
    );
    assert_eq!(
        cover_source(Some(s("https://dynasty-scans.com/series/a.json")), br#"{"name":"a"}"#),
        Err(CoverError::NoCover(s("https://dynasty-scans.com/series/a.json")))
    );
    assert_eq!(cover_source(Some(s("x.json")), b"not json"), Err(CoverError::JsonParse));
    assert_eq!(cover_source(Some(s("https://x/c.jpg")), b""), Ok(None));
    assert_eq!(cover_source(None, b""), Err(CoverError::MissingUrl));
    assert_eq!(page_urls(&[s("/p/1.jpg")]), vec![s("https://dynasty-scans.com/p/1.jpg")]);
    assert_eq!(handle_manga_migration("series/series/abc"), "abc");
    assert_eq!(
        handle_deep_link("https://dynasty-scans.com/series/gabriel_dropout"),
        Some(DeepLinkResult::Manga { key: s("gabriel_dropout") })
    );
    assert_eq!(
        handle_deep_link("https://dynasty-scans.com/chapters/gabriel_dropout_ch138?x=1"),
        Some(DeepLinkResult::Chapter { manga_key: s("gabriel_dropout"), key: s("gabriel_dropout_ch138") })
    );
    assert_eq!(handle_deep_link("https://dynasty-scans.com/chapters/gabriel_dropout_extra"), None);
    assert_eq!(handle_deep_link("https://example.com/series/a"), None);
}

#[test]
fn migrating_twice_is_migrating_once() {
    for key in ["series/series/abc", "abc", "series/", ""] {
        let once = handle_manga_migration(key);
        assert_eq!(handle_manga_migration(&once), once);
    }
}
