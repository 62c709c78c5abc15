use taz_reader::lingq::{
    auth_header, collection_from_row, collection_lesson_urls, collections_url,
    extract_lesson_rows, lesson_payload, lesson_url, lessons_url, login_response,
    normalize_text, parse_remote_lesson, uploaded_lesson, CollectionRow, JsonField, LessonPage,
    LessonRow, PageCursor, UploadRequest, EMPTY_LESSON, NO_TOKEN,
};

#[test]
fn normalize_text_collapses_whitespace_within_paragraphs() {
    assert_eq!(normalize_text("hello   world"), "hello world");
}

#[test]
fn normalize_text_preserves_paragraph_breaks() {
    assert_eq!(normalize_text("para one\n\npara two"), "para one\n\npara two");
}

#[test]
fn normalize_text_strips_empty_paragraphs() {
    assert_eq!(normalize_text("hello\n\n\n\nworld"), "hello\n\nworld");
}

#[test]
fn normalize_text_empty_input() {
    assert_eq!(normalize_text(""), "");
}

#[test]
fn normalize_text_only_whitespace() {
    assert_eq!(normalize_text("   \n\n   \n\n   "), "");
}

#[test]
fn normalize_text_twice_changes_nothing() {
    for input in ["a  b\n\n\n c\td", "x\n\n\n\n\n\ny", " \n\n lead", "one\ntwo"] {
        let once = normalize_text(input);
        assert_eq!(normalize_text(&once), once);
    }
}

fn row() -> LessonRow {
    LessonRow {
        id: JsonField::Absent,
        pk: JsonField::Absent,
        title: JsonField::Absent,
        original_url: JsonField::Absent,
        original_url_camel: JsonField::Absent,
        source_url: JsonField::Absent,
        source_url_camel: JsonField::Absent,
        url: JsonField::Absent,
        lesson_url: JsonField::Absent,
        lesson_url_camel: JsonField::Absent,
    }
}

#[test]
fn remote_lesson_from_full_row() {
    let mut r = row();
    r.id = JsonField::Int(7);
    r.title = JsonField::Text("  Ein Titel ".to_owned());
    r.source_url = JsonField::Text(" https://taz.de/!1/ ".to_owned());
    r.lesson_url_camel = JsonField::Text("https://www.lingq.com/x/7/".to_owned());
    let lesson = parse_remote_lesson(&r, "de").unwrap();
    assert_eq!(lesson.id, 7);
    assert_eq!(lesson.title, "Ein Titel");
    assert_eq!(lesson.original_url.as_deref(), Some("https://taz.de/!1/"));
    assert_eq!(lesson.lesson_url, "https://www.lingq.com/x/7/");
}

#[test]
fn remote_lesson_falls_back_to_pk_and_default_url() {
    let mut r = row();
    r.pk = JsonField::Int(12);
    r.title = JsonField::Text("T".to_owned());
    r.url = JsonField::Text("/relative/".to_owned());
    r.original_url = JsonField::Text("   ".to_owned());
    let lesson = parse_remote_lesson(&r, "fr").unwrap();
    assert_eq!(lesson.id, 12);
    assert_eq!(lesson.original_url, None);
    assert_eq!(lesson.lesson_url, "https://www.lingq.com/fr/learn/lesson/12/");
}

#[test]
fn remote_lesson_needs_integer_id_and_title() {
    let mut r = row();
    r.title = JsonField::Text("T".to_owned());
    assert!(parse_remote_lesson(&r, "de").is_none());
    r.id = JsonField::Text("5".to_owned());
    r.pk = JsonField::Int(5);
    assert!(parse_remote_lesson(&r, "de").is_none());
    r.id = JsonField::Int(5);
    r.title = JsonField::Text("   ".to_owned());
    assert!(parse_remote_lesson(&r, "de").is_none());
    r.title = JsonField::Other;
    assert!(parse_remote_lesson(&r, "de").is_none());
}

#[test]
fn null_original_url_hides_later_names() {
    let mut r = row();
    r.id = JsonField::Int(1);
    r.title = JsonField::Text("T".to_owned());
    r.original_url = JsonField::Other;
    r.source_url = JsonField::Text("https://taz.de/!2/".to_owned());
    assert_eq!(parse_remote_lesson(&r, "de").unwrap().original_url, None);
}

#[test]
fn lesson_rows_from_pages() {
    let (rows, next) = extract_lesson_rows(LessonPage::Rows(vec![row(), row()]));
    assert_eq!(rows.len(), 2);
    assert_eq!(next, None);
    let (rows, next) = extract_lesson_rows(LessonPage::Paged {
        results: None,
        lessons: Some(vec![row()]),
        items: Some(vec![row(), row(), row()]),
        next: Some("https://next/".to_owned()),
    });
    assert_eq!(rows.len(), 1);
    assert_eq!(next.as_deref(), Some("https://next/"));
    let (rows, _) = extract_lesson_rows(LessonPage::Paged {
        results: Some(vec![]),
        lessons: Some(vec![row()]),
        items: None,
        next: None,
    });
    assert_eq!(rows.len(), 0);
    let (rows, _) = extract_lesson_rows(LessonPage::Paged {
        results: None,
        lessons: None,
        items: None,
        next: None,
    });
    assert!(rows.is_empty());
}

#[test]
fn collection_lesson_count_prefers_camel_case() {
    let c = collection_from_row(CollectionRow {
        id: 3,
        title: "Kurs".to_owned(),
        lessons_count: Some(4),
        lessons_count_alt: Some(9),
    });
    assert_eq!((c.id, c.title.as_str(), c.lessons_count), (3, "Kurs", 4));
    let c = collection_from_row(CollectionRow {
        id: 3,
        title: "Kurs".to_owned(),
        lessons_count: None,
        lessons_count_alt: Some(9),
    });
    assert_eq!(c.lessons_count, 9);
    let c = collection_from_row(CollectionRow {
        id: 3,
        title: "Kurs".to_owned(),
        lessons_count: None,
        lessons_count_alt: None,
    });
    assert_eq!(c.lessons_count, 0);
}

#[test]
fn login_needs_a_real_token() {
    assert_eq!(login_response(Some("abc".to_owned())).unwrap().token, "abc");
    assert_eq!(login_response(Some("  ".to_owned())).err().as_deref(), Some(NO_TOKEN));
    assert_eq!(login_response(None).err().as_deref(), Some(NO_TOKEN));
}

#[test]
fn page_cursor_stops_at_limit() {
    let mut cursor = PageCursor::new("p1".to_owned(), 2);
    assert_eq!(cursor.take_next().as_deref(), Some("p1"));
    cursor.follow(Some("p2".to_owned()));
    assert_eq!(cursor.take_next().as_deref(), Some("p2"));
    cursor.follow(Some("p3".to_owned()));
    assert_eq!(cursor.take_next(), None);
}

#[test]
fn page_cursor_stops_without_next() {
    let mut cursor = PageCursor::new("p1".to_owned(), 20);
    assert_eq!(cursor.take_next().as_deref(), Some("p1"));
    cursor.follow(None);
    assert_eq!(cursor.take_next(), None);
}

#[test]
fn lingq_addresses() {
    assert_eq!(collections_url("de"), "https://www.lingq.com/api/v3/de/collections/my/");
    let (a, b) = collection_lesson_urls("de", 77);
    assert_eq!(a, "https://www.lingq.com/api/v3/de/collections/77/lessons/");
    assert_eq!(b, "https://www.lingq.com/api/v3/de/lessons/?collection=77");
    assert_eq!(lessons_url("fr"), "https://www.lingq.com/api/v3/fr/lessons/");
    assert_eq!(lesson_url("fr", 5), "https://www.lingq.com/api/v3/fr/lessons/5/");
    assert_eq!(auth_header("k3y"), "Token k3y");
    let up = uploaded_lesson("de", 99);
    assert_eq!(up.lesson_id, 99);
    assert_eq!(up.lesson_url, "https://www.lingq.com/de/learn/lesson/99/");
}

fn request(text: &str) -> UploadRequest {
    UploadRequest {
        api_key: "key".to_owned(),
        language_code: "de".to_owned(),
        collection_id: Some(5),
        title: "Titel".to_owned(),
        text: text.to_owned(),
        original_url: Some("https://taz.de/!1/".to_owned()),
    }
}

#[test]
fn upload_payload_normalizes_text() {
    let p = lesson_payload(&request("a   b\n\n\n\nc"), true).unwrap();
    assert_eq!(p.title, "Titel");
    assert_eq!(p.text, "a b\n\nc");
    assert_eq!(p.status.as_deref(), Some("private"));
    assert_eq!(p.collection, Some(5));
    assert_eq!(p.original_url.as_deref(), Some("https://taz.de/!1/"));
}

#[test]
fn update_payload_keeps_status_and_course() {
    let p = lesson_payload(&request("text"), false).unwrap();
    assert_eq!(p.status, None);
    assert_eq!(p.collection, None);
}

#[test]
fn blank_lesson_is_refused() {
    assert_eq!(lesson_payload(&request(" \n\n \t "), true).err().as_deref(), Some(EMPTY_LESSON));
}

#[test]
fn normalized_text_shape() {
    for input in ["  a \n\n\n\n b  c \n\n", "\n\n\nx\ty\n\n\n", "one\ntwo\n\n\n\nthree", ""] {
        let out = normalize_text(input);
        assert_eq!(out, out.trim());
        assert!(!out.contains("\n\n\n"), "{out:?}");
        if !out.is_empty() {
            for p in out.split("\n\n") {
                assert!(!p.is_empty());
                assert_eq!(p, p.split_whitespace().collect::<Vec<_>>().join(" "));
            }
        }
    }
}
