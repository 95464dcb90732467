use aidoku_sources::mangakakalot::base_url;
use aidoku_sources::mangamura::{get_sort_id, page_url_path, set_default_filters};
use aidoku_sources::model::FilterValue;
use aidoku_sources::readcomicsonline::{chapter_key, home_entry, item_key, latest_url, search_body};
use aidoku_sources::url::QueryParameters;

fn s(v: &str) -> String {
    String::from(v)
}

#[test]
fn search_form() {
    assert_eq!(
        search_body(
            Some("spider man"),
            2,
            &[
                FilterValue::Select { id: s("status_id"), value: s("1") },
                FilterValue::Select { id: s("category"), value: s("5") },
            ],
            Some("a/b"),
        ),
        "name=spider%20man&status_id=1&type_id=&category=5&page=2&_token=a%2Fb"
    );
    assert_eq!(search_body(None, 1, &[], None), "name=&status_id=&type_id=&category=&page=1");
}

#[test]
fn keys_and_entries() {
    assert_eq!(item_key("https://readcomicsonline.ru/comic/batman-2016").as_deref(), Some("batman-2016"));
    assert_eq!(item_key("https://other/comic/x"), None);
    assert_eq!(
        chapter_key("https://readcomicsonline.ru/comic/batman-2016/12", "batman-2016").as_deref(),
        Some("12")
    );
    assert_eq!(latest_url(3), "https://readcomicsonline.ru/latest-release?page=3");
    let m = home_entry(Some(s("https://readcomicsonline.ru/comic/x")), Some(s("X")), None).unwrap();
    assert_eq!(m.key, "x");
    assert!(home_entry(Some(s("https://readcomicsonline.ru/comic/x")), None, None).is_none());
}

#[test]
fn template_settings() {
    assert_eq!(get_sort_id(1), "latest-update");
    assert_eq!(get_sort_id(4), "title-za");
    assert_eq!(get_sort_id(9), "default");
    assert_eq!(page_url_path("42"), "/json/chapter?id=42&mode=vertical");
    let mut qs = QueryParameters::new();
    qs.push("sort", Some("x"));
    set_default_filters(&mut qs);
    assert_eq!(qs.to_query_string(), "type=all&status=all&language=all&sort=default");
    assert_eq!(base_url(None), "https://www.mangakakalot.gg");
    assert_eq!(base_url(Some(s("https://www.mangakakalove.com"))), "https://www.mangakakalove.com");
}
