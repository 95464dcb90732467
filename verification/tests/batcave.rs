use aidoku_sources::batcave::{home_components, HomeItem, HomeKind, HomeSection};
use aidoku_sources::batcave::{
    data_json, entry, handle_web_login, has_next_page, labelled_name, needs_verification, page_url, parse_status,
    search_url, trust_cookie,
};
use aidoku_sources::model::MangaStatus;

fn s(v: &str) -> String {
    String::from(v)
}

#[test]
fn entries_and_pages() {
    let m = entry(s("https://batcave.biz/123-batman.html"), s("Batman"), None).unwrap();
    assert_eq!(m.key, "/123-batman.html");
    assert!(entry(s("https://other/x"), s("X"), None).is_none());
    assert!(has_next_page(Some("a")));
    assert!(!has_next_page(Some("span")));
    assert!(!has_next_page(None));
    assert!(search_url(Some("bat"), 1, &[]).starts_with("https://batcave.biz/"));
}

#[test]
fn details_lines() {
    assert_eq!(labelled_name(Some(s("Publisher: DC")), "Publisher: "), Some(vec![s("DC")]));
    assert_eq!(labelled_name(Some(s("Writer: X")), "Publisher: "), None);
    assert_eq!(parse_status("Release type: Complete"), MangaStatus::Completed);
    assert_eq!(parse_status("Release type: Ongoing"), MangaStatus::Ongoing);
    assert_eq!(parse_status("Ongoing"), MangaStatus::Unknown);
    assert_eq!(data_json("window.__DATA__ = {\"a\":1};").as_deref(), Some("{\"a\":1}"));
    assert_eq!(data_json("var x = 1;"), None);
}

#[test]
fn verification_and_images() {
    assert_eq!(page_url(s("/img/1.jpg")), "https://batcave.biz/img/1.jpg");
    assert_eq!(page_url(s("https://cdn/1.jpg")), "https://cdn/1.jpg");
    assert_eq!(trust_cookie("abc"), "__guard_trust=abc");
    assert!(needs_verification(None));
    assert!(needs_verification(Some("")));
    assert!(!needs_verification(Some("Batman")));
    assert!(handle_web_login("verify", &[s("x"), s("__guard_trust")]));
    assert!(!handle_web_login("other", &[s("__guard_trust")]));
    assert!(!handle_web_login("verify", &[s("x")]));
}

fn item(url: Option<&str>, title: &str) -> HomeItem {
    HomeItem { url: url.map(String::from), title: String::from(title), cover: Some(String::from("c.jpg")) }
}

#[test]
fn home_sections_become_components_in_order() {
    let hot = HomeSection {
        title: Some(String::from("Hot")),
        items: vec![item(Some("https://batcave.biz/1-a.html"), "A"), item(Some("https://elsewhere/2"), "B"), item(None, "C")],
    };
    let worth = Some(HomeSection { title: Some(String::from("Worth")), items: vec![item(Some("https://elsewhere/3"), "D")] });
    let side = Some(HomeSection { title: Some(String::from("Popular")), items: vec![] });
    let r = home_components(&hot, &worth, &None, &side);
    assert_eq!(r.len(), 2);
    assert_eq!(r[0].title.as_deref(), Some("Hot"));
    assert_eq!(r[0].kind, HomeKind::Scroller);
    assert_eq!(r[0].entries.len(), 1);
    assert_eq!(r[0].entries[0].key, "/1-a.html");
    assert_eq!(r[0].entries[0].url.as_deref(), Some("https://batcave.biz/1-a.html"));
    assert_eq!(r[1].title.as_deref(), Some("Popular"));
    assert_eq!(r[1].kind, HomeKind::List);
    assert!(r[1].entries.is_empty());
}
