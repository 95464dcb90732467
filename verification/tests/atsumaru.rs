use aidoku_sources::atsumaru::number_form_exec;
use aidoku_sources::atsumaru::{has_next_search_page, update_plan};
use aidoku_sources::atsumaru::{
    into_chapter, listing_manga, search_manga, upload_timestamp, ChapterItem, ListingItem, Scanlator,
    SearchDocument, UploadDate,
};
use aidoku_sources::atsumaru::{fill_details, AtsuAuthor, MangaPage};
use aidoku_sources::model::Manga;
use aidoku_sources::atsumaru::{
    clean_chapter_title, force_https, handle_deep_link, image_url, listing_url, parse_content_rating,
    parse_mb_content_rating, parse_status, parse_viewer, quoted_list, search_url, year_from_millis,
};
use aidoku_sources::model::{ContentRating, DeepLinkResult, FilterValue, MangaStatus, RangeBound, Viewer};

fn s(v: &str) -> String {
    String::from(v)
}

fn decode(url: &str) -> String {
    let b = url.as_bytes();
    let mut out = Vec::new();
    let mut i = 0;
    while i < b.len() {
        if b[i] == b'%' && i + 2 < b.len() {
            let h = std::str::from_utf8(&b[i + 1..i + 3]).unwrap();
            out.push(u8::from_str_radix(h, 16).unwrap());
            i += 3;
        } else {
            out.push(b[i]);
            i += 1;
        }
    }
    String::from_utf8(out).unwrap()
}

fn bound(v: i32) -> Option<RangeBound> {
    Some(RangeBound { whole: v, text: v.to_string() })
}

#[test]
fn search_url_includes_every_filter() {
    let url = search_url(
        Some("sakamoto"),
        2,
        &[
            FilterValue::Sort { id: s("sort"), index: 1, ascending: false },
            FilterValue::MultiSelect { id: s("genre"), included: vec![s("39"), s("6")], excluded: vec![s("10")] },
            FilterValue::MultiSelect { id: s("tag"), included: vec![s("8")], excluded: vec![s("16")] },
            FilterValue::MultiSelect { id: s("type"), included: vec![s("Manga")], excluded: vec![] },
            FilterValue::MultiSelect { id: s("status"), included: vec![s("Ongoing")], excluded: vec![] },
            FilterValue::Range { id: s("year"), from: bound(2010), to: bound(2024) },
            FilterValue::Range { id: s("chapters"), from: bound(50), to: None },
            FilterValue::Check { id: s("official"), value: 1 },
        ],
        false,
    );
    let decoded = decode(&url);
    assert!(decoded.contains("q=sakamoto"), "{decoded}");
    assert!(decoded.contains("genreIds:=`39` && genreIds:=`6`"), "{decoded}");
    assert!(decoded.contains("genreIds:!=[`10`]"), "{decoded}");
    assert!(decoded.contains("tagIds:=`8`"), "{decoded}");
    assert!(decoded.contains("tagIds:!=[`16`]"), "{decoded}");
    assert!(decoded.contains("type:=[`Manga`]"), "{decoded}");
    assert!(decoded.contains("status:=[`Ongoing`]"), "{decoded}");
    assert!(decoded.contains("releaseYear:>=2010"), "{decoded}");
    assert!(decoded.contains("releaseYear:<=2024"), "{decoded}");
    assert!(decoded.contains("chapterCount:>=50"), "{decoded}");
    assert!(!decoded.contains("chapterCount:<="), "{decoded}");
    assert!(decoded.contains("isAdult:=false"), "{decoded}");
    assert!(decoded.contains("officialTranslation:=true"), "{decoded}");
    assert!(decoded.contains("sort_by=views:desc"), "{decoded}");
    assert!(decoded.contains("page=2"), "{decoded}");
}

#[test]
fn search_url_sorts_by_views_when_browsing_by_relevance() {
    let browse = decode(&search_url(None, 1, &[], false));
    assert!(browse.contains("q=*"), "{browse}");
    assert!(browse.contains("sort_by=views:desc"), "{browse}");
    assert!(!browse.contains("query_by"), "{browse}");

    let query = decode(&search_url(Some("blue lock"), 1, &[], false));
    assert!(!query.contains("sort_by"), "{query}");
    assert!(query.contains("query_by=title,englishTitle,otherNames,authors"), "{query}");
}

#[test]
fn adult_mode_lifts_the_adult_filter() {
    let adult = decode(&search_url(None, 1, &[], true));
    assert!(!adult.contains("isAdult"), "{adult}");
}

#[test]
fn image_urls_point_at_the_cdn_over_https() {
    assert_eq!(image_url("posters/abc.jpg"), "https://cdn.atsu.moe/static/posters/abc.jpg");
    assert_eq!(image_url("/static/pages/a/b/0.webp"), "https://cdn.atsu.moe/static/pages/a/b/0.webp");
    assert_eq!(image_url("//cdn.example/a.jpg"), "https://cdn.example/a.jpg");
    assert_eq!(image_url("http://cdn.example/a.jpg"), "https://cdn.example/a.jpg");
    assert_eq!(image_url("https//cdn.example/a.jpg"), "https://cdn.example/a.jpg");
    assert_eq!(force_https("http://a/b"), "https://a/b");
}

#[test]
fn chapter_titles_that_only_repeat_the_number_are_dropped() {
    assert_eq!(clean_chapter_title(Some(s("Chapter 12")), Some("12")), None);
    assert_eq!(clean_chapter_title(Some(s("12")), Some("12")), None);
    assert_eq!(clean_chapter_title(Some(s("  ")), Some("12")), None);
    assert_eq!(clean_chapter_title(Some(s("Days 270")), Some("270")), Some(s("Days 270")));
    assert_eq!(clean_chapter_title(Some(s("Chapter 12.5")), Some("12.5")), None);
}

#[test]
fn years_are_read_from_millisecond_timestamps() {
    assert_eq!(year_from_millis(1577836800000), 2020);
    assert_eq!(year_from_millis(0), 1970);
    assert_eq!(year_from_millis(-86_400_000), 1969);
}

#[test]
fn deep_links_resolve_to_manga_and_chapters() {
    assert_eq!(handle_deep_link("https://atsu.moe/manga/v8Kbg"), Some(DeepLinkResult::Manga { key: s("v8Kbg") }));
    assert_eq!(
        handle_deep_link("https://atsu.moe/read/v8Kbg/P7297ifE"),
        Some(DeepLinkResult::Chapter { manga_key: s("v8Kbg"), key: s("P7297ifE") })
    );
    assert_eq!(handle_deep_link("https://atsu.moe/"), None);
    assert_eq!(handle_deep_link("https://example.com/manga/v8Kbg"), None);
}

#[test]
fn statuses_readers_and_ratings() {
    assert_eq!(parse_status(None), MangaStatus::Unknown);
    assert_ne!(parse_status(Some("Ongoing")), MangaStatus::Unknown);
    assert_eq!(parse_viewer(Some("Manwha")), Viewer::Webtoon);
    assert_eq!(parse_content_rating(true, &[]), ContentRating::NSFW);
    assert_eq!(parse_mb_content_rating(None), None);
    assert_eq!(quoted_list(&[s("a"), s("b")]), "`a`,`b`");
    assert!(listing_url("trending", 1, false).starts_with("https://atsu.moe/"));
}

#[test]
fn details_fill_in_everything_but_the_key() {
    let page = MangaPage {
        title: s("T"),
        poster_image: Some(s("posters/a.jpg")),
        authors: vec![
            AtsuAuthor { name: s("W"), kind: None },
            AtsuAuthor { name: s("A"), kind: Some(s("Artist")) },
            AtsuAuthor { name: s("X"), kind: Some(s("Other")) },
        ],
        synopsis: Some(s("  Plot  ")),
        genres: vec![s("Action")],
        released: Some(1577836800000),
        status: Some(s("Ongoing")),
        kind: Some(s("Manga")),
        views: Some(s("100")),
        other_names: vec![s("T"), s("Alt")],
        rating_text: Some(s("8.50")),
        is_adult: None,
    };
    let mut m = Manga::new(s("k"), s("old"));
    fill_details(&page, &mut m);
    assert_eq!(m.key, "k");
    assert_eq!(m.title, "T");
    assert_eq!(m.cover.as_deref(), Some("https://cdn.atsu.moe/static/posters/a.jpg"));
    assert_eq!(m.url.as_deref(), Some("https://atsu.moe/manga/k"));
    assert_eq!(m.authors, Some(vec![s("W")]));
    assert_eq!(m.artists, Some(vec![s("A")]));
    assert_eq!(m.tags, Some(vec![s("Manga"), s("Action")]));
    assert_eq!(m.status, MangaStatus::Ongoing);
    assert_eq!(m.viewer, Viewer::RightToLeft);
    assert_eq!(
        m.description.as_deref(),
        Some("Rating: 8.50/10\nYear: 2020\nViews: 100\n\nPlot\n\nAlternative Names:\n- Alt")
    );
    let bare = MangaPage {
        title: s("B"),
        poster_image: None,
        authors: vec![],
        synopsis: Some(s(" ")),
        genres: vec![],
        released: Some(0),
        status: None,
        kind: None,
        views: None,
        other_names: vec![s("B")],
        rating_text: None,
        is_adult: Some(true),
    };
    let mut m = Manga::new(s("k"), s("old"));
    m.cover = Some(s("kept"));
    fill_details(&bare, &mut m);
    assert_eq!(m.cover.as_deref(), Some("kept"));
    assert_eq!(m.description, None);
    assert_eq!(m.tags, None);
    assert_eq!(m.authors, None);
    assert_eq!(m.content_rating, ContentRating::NSFW);
}

#[test]
fn listing_items_become_entries() {
    let m = listing_manga(&ListingItem {
        id: s("abc"),
        title: s("A Title"),
        image: Some(s("posters/abc.jpg")),
        is_adult: Some(true),
        kind: Some(s("Manhua")),
    });
    assert_eq!(m.key, "abc");
    assert_eq!(m.title, "A Title");
    assert_eq!(m.url.as_deref(), Some("https://atsu.moe/manga/abc"));
    assert_eq!(m.cover.as_deref(), Some("https://cdn.atsu.moe/static/posters/abc.jpg"));
    assert_eq!(m.content_rating, ContentRating::NSFW);
    assert_eq!(m.viewer, Viewer::Webtoon);
    let m = listing_manga(&ListingItem { id: s("x"), title: s("X"), image: None, is_adult: None, kind: None });
    assert_eq!(m.content_rating, ContentRating::Unknown);
    assert_eq!(m.cover, None);
    assert_eq!(m.viewer, Viewer::Unknown);
}

fn document() -> SearchDocument {
    SearchDocument {
        id: s("d1"),
        title: s("Doc"),
        poster: Some(s("//img.example/p.png")),
        synopsis: Some(s("  A story. ")),
        authors: vec![s("Ann")],
        tags: vec![s("Action"), s("Ecchi")],
        status: Some(s(" Ongoing ")),
        kind: Some(s("Manga")),
        is_adult: Some(false),
        mb_content_rating: Some(s("Safe")),
    }
}

#[test]
fn search_documents_fill_in_what_they_hold() {
    let m = search_manga(&document());
    assert_eq!(m.key, "d1");
    assert_eq!(m.url.as_deref(), Some("https://atsu.moe/manga/d1"));
    assert_eq!(m.cover.as_deref(), Some("https://img.example/p.png"));
    assert_eq!(m.description.as_deref(), Some("  A story. "));
    assert_eq!(m.authors, Some(vec![s("Ann")]));
    assert_eq!(m.tags, Some(vec![s("Manga"), s("Action"), s("Ecchi")]));
    assert_eq!(m.status, MangaStatus::Ongoing);
    assert_eq!(m.content_rating, ContentRating::Safe);
    assert_eq!(m.viewer, Viewer::RightToLeft);
}

#[test]
fn search_documents_rate_by_tags_without_an_index_rating_or_when_adult() {
    let mut d = document();
    d.mb_content_rating = None;
    assert_eq!(search_manga(&d).content_rating, ContentRating::Suggestive);
    let mut d = document();
    d.is_adult = Some(true);
    assert_eq!(search_manga(&d).content_rating, ContentRating::NSFW);
    let mut d = document();
    d.synopsis = Some(s("   "));
    d.authors = vec![];
    d.tags = vec![];
    d.kind = None;
    let m = search_manga(&d);
    assert_eq!(m.description, None);
    assert_eq!(m.authors, None);
    assert_eq!(m.tags, None);
}

#[test]
fn upload_dates_in_millis_or_text() {
    assert_eq!(upload_timestamp(&UploadDate::Millis(1700000000123)), Some(1700000000));
    assert_eq!(upload_timestamp(&UploadDate::Millis(-1500)), Some(-1));
    assert_eq!(upload_timestamp(&UploadDate::Millis(-2000)), Some(-2));
    assert_eq!(upload_timestamp(&UploadDate::Text(s("2024-01-02T03:04:05.000Z"))), Some(1704164645));
    assert_eq!(upload_timestamp(&UploadDate::Text(s("2024-01-02T03:04:05.000"))), None);
    assert_eq!(upload_timestamp(&UploadDate::Text(s("yesterday"))), None);
}

#[test]
fn chapter_items_become_chapters() {
    let groups = vec![
        Scanlator { id: s("g1"), name: s("First") },
        Scanlator { id: s("g2"), name: s("Second") },
    ];
    let c = into_chapter(
        &ChapterItem {
            id: s("c9"),
            title: Some(s("Chapter 12")),
            number: Some(s("12")),
            scanlation_manga_id: Some(s("g2")),
            created_at: Some(UploadDate::Millis(1000)),
        },
        "m1",
        &groups,
    );
    assert_eq!(c.key, "c9");
    assert_eq!(c.url.as_deref(), Some("https://atsu.moe/read/m1/c9"));
    assert_eq!(c.title, None);
    assert_eq!(c.number.as_deref(), Some("12"));
    assert_eq!(c.date_uploaded, Some(1));
    assert_eq!(c.scanlators, Some(vec![s("Second")]));
    let c = into_chapter(
        &ChapterItem {
            id: s("c1"),
            title: Some(s(" The Start ")),
            number: None,
            scanlation_manga_id: Some(s("nobody")),
            created_at: None,
        },
        "m1",
        &groups,
    );
    assert_eq!(c.title.as_deref(), Some("The Start"));
    assert_eq!(c.scanlators, None);
    assert_eq!(c.date_uploaded, None);
}

#[test]
fn search_pages_follow_while_results_remain() {
    assert!(has_next_search_page(1, 41));
    assert!(!has_next_search_page(1, 40));
    assert!(!has_next_search_page(3, 100));
    assert!(!has_next_search_page(i32::MAX, i32::MAX));
}

#[test]
fn updates_use_the_page_chapters_only_when_complete() {
    let p = update_plan(true, true, Some(false), true);
    assert!(p.use_page_chapters && !p.fetch_all_chapters && !p.send_partial);
    let p = update_plan(true, true, Some(true), true);
    assert!(!p.use_page_chapters && p.fetch_all_chapters && p.send_partial);
    let p = update_plan(true, true, Some(false), false);
    assert!(!p.use_page_chapters && p.fetch_all_chapters && p.send_partial);
    let p = update_plan(false, true, None, true);
    assert!(!p.use_page_chapters && p.fetch_all_chapters && !p.send_partial);
    let p = update_plan(true, false, Some(false), true);
    assert!(!p.use_page_chapters && !p.fetch_all_chapters && !p.send_partial);
}

#[test]
fn numbers_compare_in_the_form_the_app_writes() {
    assert_eq!(number_form_exec("12.0"), "12");
    assert_eq!(number_form_exec("12.50"), "12.5");
    assert_eq!(number_form_exec("12"), "12");
    assert_eq!(number_form_exec("100"), "100");
    assert_eq!(number_form_exec("0.0"), "0");
    assert_eq!(clean_chapter_title(Some(s("Chapter 12")), Some("12.0")), None);
    assert_eq!(clean_chapter_title(Some(s("Ch. 12.5")), Some("12.50")), None);
    assert_eq!(clean_chapter_title(Some(s("Chapter 120")), Some("12.0")).as_deref(), Some("Chapter 120"));
    let c = into_chapter(
        &ChapterItem {
            id: s("c1"),
            title: Some(s("Episode 3")),
            number: Some(s("3.0")),
            scanlation_manga_id: None,
            created_at: None,
        },
        "m",
        &[],
    );
    assert_eq!(c.title, None);
}
