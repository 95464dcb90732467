use aidoku_sources::mangaplus::{
    chapter_from, details_manga, error_body, is_completed, is_expired, result_or_error, split_authors, title_manga,
    ChapterListGroup, Language, MangaPlusChapter, Title, TitleDetailView,
};
use aidoku_sources::model::{ContentRating, MangaStatus, Viewer};

fn s(v: &str) -> String {
    String::from(v)
}

fn title(author: Option<&str>, code: Option<i32>) -> Title {
    Title { title_id: 100, name: s("Name"), author: author.map(s), portrait_image_url: s("https://p/1.jpg"), language_code: code }
}

fn chapter(name: &str, sub: Option<&str>) -> MangaPlusChapter {
    MangaPlusChapter { chapter_id: 7, name: s(name), sub_title: sub.map(s), start_time_stamp: 99 }
}

#[test]
fn titles_become_manga() {
    let m = title_manga(title(Some("A / B, C"), Some(9)));
    assert_eq!(m.key, "100");
    assert_eq!(m.authors, Some(vec![s("A"), s("B"), s("C")]));
    assert_eq!(m.cover.as_deref(), Some("https://p/1.jpg"));
    assert_eq!(title(None, Some(9)).language(), Some(Language::Vietnamese));
    assert_eq!(title(None, Some(8)).language(), None);
    assert_eq!(split_authors("x,,y"), vec![s("x"), s(""), s("y")]);
}

#[test]
fn failed_answers_say_why() {
    assert_eq!(error_body(None, Some(s("es"))), Some(s("es")));
    assert_eq!(error_body(Some(s("en")), Some(s("es"))), Some(s("en")));
    assert_eq!(result_or_error(Some(1), None, "fallback"), Ok(1));
    assert_eq!(result_or_error::<i32>(None, None, "fallback"), Err(s("fallback")));
    assert_eq!(result_or_error::<i32>(None, Some(s("busy")), "fallback"), Err(s("busy")));
}

fn view(info: &str, period: &str, chapters: Vec<MangaPlusChapter>) -> TitleDetailView {
    TitleDetailView {
        title: title(None, None),
        overview: Some(s("Story")),
        viewing_period_description: s(period),
        non_appearance_info: s(info),
        chapter_list_group: vec![ChapterListGroup { first_chapter_list: chapters, last_chapter_list: vec![] }],
    }
}

#[test]
fn details_status_and_description() {
    let d = view("", "The latest 3 chapters", vec![chapter("#1", Some("a")), chapter("#2", Some("b"))]);
    assert!(!is_completed(&d));
    let m = details_manga(d, "https://mangaplus.shueisha.co.jp");
    assert_eq!(m.status, MangaStatus::Ongoing);
    assert_eq!(m.description.as_deref(), Some("Story\n\nThe latest 3 chapters"));
    assert_eq!(m.url.as_deref(), Some("https://mangaplus.shueisha.co.jp/titles/100"));
    assert_eq!(m.content_rating, ContentRating::Safe);
    assert_eq!(m.viewer, Viewer::RightToLeft);
    let m = details_manga(view("This title is Completed", "x", vec![]), "b");
    assert_eq!(m.status, MangaStatus::Completed);
    assert_eq!(m.description.as_deref(), Some("Story"));
    let m = details_manga(view("", "x", vec![chapter("One-Shot", Some("s"))]), "b");
    assert_eq!(m.status, MangaStatus::Completed);
    let m = details_manga(view("Currently on a hiatus", "x", vec![]), "b");
    assert_eq!(m.status, MangaStatus::Hiatus);
}

#[test]
fn chapters() {
    let c = chapter_from(chapter("#012", Some("Sub")), "https://m");
    assert_eq!(c.key, "7");
    assert_eq!(c.title.as_deref(), Some("Sub"));
    assert_eq!(c.number.as_deref(), Some("012"));
    assert_eq!(c.date_uploaded, Some(99));
    assert_eq!(c.url.as_deref(), Some("https://m/viewer/7"));
    let c = chapter_from(chapter("ex", None), "https://m");
    assert_eq!(c.title.as_deref(), Some("ex"));
    assert_eq!(c.number, None);
    assert!(is_expired(&chapter("#1", None)));
}

#[test]
fn chapter_lists_run_group_by_group() {
    let mut v = view("", "", vec![chapter("#001", None), chapter("#002", None)]);
    v.chapter_list_group[0].last_chapter_list = vec![chapter("#050", Some("Late"))];
    v.chapter_list_group.push(ChapterListGroup {
        first_chapter_list: vec![chapter("#051", None)],
        last_chapter_list: vec![chapter("#099", None)],
    });
    let names: Vec<String> = v.chapter_list().into_iter().map(|c| c.name).collect();
    assert_eq!(names, vec![s("#001"), s("#002"), s("#050"), s("#051"), s("#099")]);
    let list = v.chapter_list();
    assert_eq!(list[2].sub_title.as_deref(), Some("Late"));
    assert_eq!(list[2].start_time_stamp, 99);
    let empty = TitleDetailView { chapter_list_group: vec![], ..view("", "", vec![]) };
    assert!(empty.chapter_list().is_empty());
}
