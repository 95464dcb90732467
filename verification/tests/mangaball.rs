use aidoku_sources::mangaball::{fill_details, DetailsError, PageDetails};
use aidoku_sources::model::{ContentRating, Manga, MangaStatus, Viewer};
use aidoku_sources::mangaball::chapter_manga_key;
use aidoku_sources::mangaball::{search_manga, SearchManga};
use aidoku_sources::mangaball::search_body;
use aidoku_sources::model::FilterValue;
use aidoku_sources::mangaball::{
    api_languages, build_description, details_tags, flag_kind, is_object_id, manga_key, page_manga_key,
    parse_chapter_images, selected_languages,
};

fn s(v: &str) -> String {
    String::from(v)
}

#[test]
fn parses_chapter_images() {
    let pages =
        parse_chapter_images(r#"const chapterImages = JSON.parse(`["https://img/1.jpg","https://img/2.jpg"]`);"#).unwrap();
    assert_eq!(pages.len(), 2);
    assert_eq!(pages[0], "https://img/1.jpg");
    assert!(parse_chapter_images("no images").is_err());
    assert!(parse_chapter_images("JSON.parse(`not json`)").is_err());
}

#[test]
fn maps_language_aliases() {
    assert_eq!(api_languages("ja"), vec!["jp"]);
    assert!(api_languages("es").contains(&"es-419"));
    assert_eq!(api_languages("unknown"), vec!["en"]);
    assert_eq!(selected_languages(None), vec![s("en")]);
    assert_eq!(selected_languages(Some(vec![])), vec![s("en")]);
    assert_eq!(selected_languages(Some(vec![s("ja"), s("it")])), vec![s("jp"), s("it"), s("it-it")]);
}

#[test]
fn extracts_search_key() {
    assert_eq!(manga_key("https://mangaball.net/title-detail/one-piece-abc123/"), Some("one-piece-abc123".into()));
    assert_eq!(manga_key("http://mangaball.net/title-detail/one-piece-abc123/"), Some("one-piece-abc123".into()));
    assert_eq!(manga_key("/title-detail/one-piece-abc123/"), Some("one-piece-abc123".into()));
}

#[test]
fn details_parts() {
    assert_eq!(flag_kind("/flags/jp.png"), Some("Manga"));
    assert_eq!(flag_kind("/flags/fr.png"), None);
    assert_eq!(details_tags(Some(s("/flags/kr.svg")), vec![s("Action")]), Some(vec![s("Manhwa"), s("Action")]));
    assert_eq!(details_tags(None, vec![]), None);
    assert_eq!(
        build_description(Some(s("  Plot  ")), Some(s("Published: 2020")), Some(vec![s("A"), s("B")])).as_deref(),
        Some("Plot\n\nPublished: 2020\n\nAlternative Names:\n- A\n- B")
    );
    assert_eq!(build_description(Some(s(" ")), None, Some(vec![])), None);
    assert_eq!(page_manga_key("https://mangaball.net/title-detail/x-1/ch/").as_deref(), Some("x-1"));
    assert_eq!(page_manga_key("https://mangaball.net/chapter-detail/x"), None);
    assert!(is_object_id("5f1d7a2b3c4d5e6f7a8b9c0d"));
}

#[test]
fn advanced_search_form() {
    let body = search_body(
        Some(" one "),
        2,
        &[
            FilterValue::Sort { id: s("sort"), index: 4, ascending: true },
            FilterValue::Select { id: s("status"), value: s("ongoing") },
            FilterValue::MultiSelect { id: s("tags"), included: vec![s("a")], excluded: vec![s("b")] },
        ],
        &vec![s("en")],
    );
    assert_eq!(
        body,
        "search_input=one&filters%5Bsort%5D=name_asc&filters%5Bpage%5D=2\
&filters%5Btag_included_ids%5D%5B%5D=a&filters%5Btag_included_mode%5D=and\
&filters%5Btag_excluded_ids%5D%5B%5D=b&filters%5Btag_excluded_mode%5D=and\
&filters%5BcontentRating%5D=any&filters%5Bdemographic%5D=any&filters%5Bperson%5D=any\
&filters%5BpublicationYear%5D=&filters%5BpublicationStatus%5D=ongoing\
&filters%5BtranslatedLanguage%5D%5B%5D=en"
    );
    let browse = search_body(None, 1, &[], &vec![]);
    assert!(browse.starts_with("search_input=&filters%5Bsort%5D=updated_chapters_desc&"));
}

#[test]
fn search_results_are_keyed_by_their_address() {
    let m = search_manga(&SearchManga {
        url: s("https://mangaball.net/title-detail/one-piece-abc123/"),
        name: s("One Piece"),
        cover: Some(s("https://img/c.jpg")),
    });
    assert_eq!(m.key, "one-piece-abc123");
    assert_eq!(m.title, "One Piece");
    assert_eq!(m.url.as_deref(), Some("https://mangaball.net/title-detail/one-piece-abc123/"));
    assert_eq!(m.cover.as_deref(), Some("https://img/c.jpg"));
    let m = search_manga(&SearchManga { url: s("odd"), name: s("Odd"), cover: None });
    assert_eq!(m.key, "odd");
    assert_eq!(m.url.as_deref(), Some("https://mangaball.net/title-detail/odd/"));
    assert_eq!(m.cover, None);
}

#[test]
fn chapter_pages_name_their_title_in_the_schema_graph() {
    let json = r#"{"@context":"https://schema.org","@graph":[
        {"@type":"BreadcrumbList","url":"https://mangaball.net/"},
        {"@type":"WebPage","url":"https://mangaball.net/title-detail/one-piece-abc123/chapter-1/"}
    ]}"#;
    assert_eq!(chapter_manga_key(json).as_deref(), Some("one-piece-abc123"));
    assert_eq!(chapter_manga_key(r#"{"@graph":[{"@type":"WebPage","url":"/chapter-detail/x/"}]}"#), None);
    assert_eq!(chapter_manga_key(r#"{"@graph":[{"@type":"WebPage"}]}"#), None);
    assert_eq!(chapter_manga_key(r#"{"graph":[]}"#), None);
    assert_eq!(chapter_manga_key("not json"), None);
}

fn page() -> PageDetails {
    PageDetails {
        title: Some(s("Solo Leveling")),
        cover: Some(s("https://mangaball.net/c.jpg")),
        flag: Some(s("/flags/kr.png")),
        tags: vec![s("Action"), s("Mature")],
        authors: Some(vec![s("Chugong")]),
        synopsis: Some(s("Hunters.")),
        published: None,
        alternative_names: None,
        status: Some(s("Completed")),
    }
}

#[test]
fn title_pages_fill_in_the_details() {
    let mut m = Manga::new(s("solo-leveling-1"), s("old"));
    assert_eq!(fill_details(page(), &mut m), Ok(()));
    assert_eq!(m.key, "solo-leveling-1");
    assert_eq!(m.title, "Solo Leveling");
    assert_eq!(m.url.as_deref(), Some("https://mangaball.net/title-detail/solo-leveling-1/"));
    assert_eq!(m.tags, Some(vec![s("Manhwa"), s("Action"), s("Mature")]));
    assert_eq!(m.authors, Some(vec![s("Chugong")]));
    assert_eq!(m.status, MangaStatus::Completed);
    assert_eq!(m.viewer, Viewer::Webtoon);
    assert_eq!(m.content_rating, ContentRating::Suggestive);
    assert!(m.description.is_some());
}

#[test]
fn title_pages_without_a_title_are_refused() {
    let mut m = Manga::new(s("k"), s("old"));
    let mut p = page();
    p.title = None;
    assert_eq!(fill_details(p, &mut m), Err(DetailsError::TitleNotFound));
    assert_eq!(m, Manga::new(s("k"), s("old")));
    let mut p = page();
    p.flag = None;
    p.tags = vec![];
    assert_eq!(fill_details(p, &mut m), Ok(()));
    assert_eq!(m.tags, None);
    assert_eq!(m.viewer, Viewer::RightToLeft);
    assert_eq!(m.content_rating, ContentRating::Safe);
}
