use aidoku_sources::fandogamia::{
    content_rating_for, handle_deep_link, listed_chapter, number_chapters, parse_page_image_url, series_entry,
    series_list, slug_from_url, thumb_chapter, title_matches, SeriesLink,
};
use aidoku_sources::latazamediollena;
use aidoku_sources::model::{ContentRating, DeepLinkResult, MangaStatus, Viewer};

fn s(v: &str) -> String {
    String::from(v)
}

#[test]
fn slugs() {
    assert_eq!(slug_from_url("https://fandogamia.com/fanternet/archive/cursodecocinapa/"), "cursodecocinapa");
    assert_eq!(slug_from_url("https://www.latazamediollena.es/comic/no-es-grave/?sid=27"), "no-es-grave");
    assert_eq!(slug_from_url("///"), "");
}

#[test]
fn archive_series() {
    let list = series_list(
        vec![
            SeriesLink { href: Some(s("https://fandogamia.com/fanternet/archive/")), text: Some(s("Todos")) },
            SeriesLink { href: Some(s("https://fandogamia.com/fanternet/archive/oglaf/")), text: Some(s("Oglaf")) },
            SeriesLink { href: None, text: Some(s("Nothing")) },
            SeriesLink { href: Some(s("https://fandogamia.com/fanternet/archive/extra/")), text: Some(s("Extra")) },
        ],
        vec![Some(s("https://fandogamia.com/img/o g.png")), None],
    );
    assert_eq!(list.len(), 1);
    assert_eq!(list[0].key, "oglaf");
    assert_eq!(list[0].title, "Oglaf");
    assert_eq!(list[0].cover.as_deref(), Some("https://fandogamia.com/img/o%20g.png"));
    assert_eq!(list[0].content_rating, ContentRating::NSFW);
    assert_eq!(list[0].viewer, Viewer::LeftToRight);
    let m = series_entry(s("https://fandogamia.com/fanternet/archive/x/"), None, None);
    assert_eq!(m.title, "");
    assert_eq!(m.content_rating, ContentRating::Unknown);
    assert_eq!(content_rating_for("oglaf"), ContentRating::NSFW);
    assert!(title_matches("Curso de Cocina", "COCINA"));
    assert!(!title_matches("Curso", "oglaf"));
}

#[test]
fn strips() {
    let mut cs = vec![
        thumb_chapter(s("https://fandogamia.com/fanternet/comic/x/10/title/"), Some(s("Ten"))),
        listed_chapter(
            s("https://fandogamia.com/fanternet/comic/x/9/nine/"),
            Some(s("2020-01-01 00:00:00")),
            Some(3),
            s("2020-01-01 00:00:00 - Nine"),
        ),
        listed_chapter(s("https://fandogamia.com/fanternet/comic/x/8/eight/"), None, None, s("Eight")),
    ];
    assert_eq!(cs[0].key, "title");
    assert_eq!(cs[1].title.as_deref(), Some("Nine"));
    assert_eq!(cs[1].date_uploaded, Some(3));
    assert_eq!(cs[2].title.as_deref(), Some("Eight"));
    number_chapters(&mut cs);
    assert_eq!(cs[0].number.as_deref(), Some("3"));
    assert_eq!(cs[2].number.as_deref(), Some("1"));
    assert_eq!(parse_page_image_url("https://f/a b.jpg"), "https://f/a%20b.jpg");
}

#[test]
fn fandogamia_deep_links() {
    assert_eq!(
        handle_deep_link("https://fandogamia.com/fanternet/archive/oglaf/"),
        Some(DeepLinkResult::Manga { key: s("oglaf") })
    );
    assert_eq!(
        handle_deep_link("https://fandogamia.com/fanternet/comic/oglaf/123/some-title/"),
        Some(DeepLinkResult::Chapter { manga_key: s("oglaf"), key: s("some-title") })
    );
    assert_eq!(
        handle_deep_link("https://fandogamia.com/fanternet/comic/oglaf/"),
        Some(DeepLinkResult::Manga { key: s("oglaf") })
    );
    assert_eq!(handle_deep_link("https://fandogamia.com/fanternet/comic/123/title/"), None);
    assert_eq!(handle_deep_link("https://example.com/"), None);
}

#[test]
fn the_one_comic() {
    let m = latazamediollena::comic_info();
    assert_eq!(m.key, "es.latazamediollena");
    assert_eq!(m.status, MangaStatus::Ongoing);
    assert_eq!(m.authors, Some(vec![s("Laurielle")]));
    assert_eq!(latazamediollena::title_from_slug("no-es-grave"), "No es grave");
    assert_eq!(latazamediollena::title_from_slug("élan-x"), "élan x");
    assert_eq!(latazamediollena::title_from_slug(""), "");
    let c = latazamediollena::archive_chapter(s("https://www.latazamediollena.es/comic/no-es-grave/?sid=27"), Some(4));
    assert_eq!(c.key, "no-es-grave");
    assert_eq!(c.title.as_deref(), Some("No es grave"));
    assert_eq!(latazamediollena::chapter_page_url(None, "x"), "https://www.latazamediollena.es/comic/x/");
    assert_eq!(
        latazamediollena::parse_page_description(Some(s("T")), Some(s("1 de mayo")), Some(s(""))).as_deref(),
        Some("**T**\n\n1 de mayo")
    );
    assert_eq!(latazamediollena::parse_page_description(None, None, None), None);
    assert_eq!(
        latazamediollena::handle_deep_link("https://www.latazamediollena.es/comic/no-es-grave/"),
        Some(DeepLinkResult::Chapter { manga_key: s("es.latazamediollena"), key: s("no-es-grave") })
    );
    assert_eq!(
        latazamediollena::handle_deep_link("https://www.latazamediollena.es/about/"),
        Some(DeepLinkResult::Manga { key: s("es.latazamediollena") })
    );
}

#[test]
fn an_empty_series_list_gives_nothing() {
    assert!(series_list(vec![], vec![Some(String::from("c.jpg"))]).is_empty());
}
