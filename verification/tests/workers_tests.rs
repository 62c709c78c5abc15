use taz_reader::database::StoredArticle;
use taz_reader::gui::jobs::RetryAction;
use taz_reader::gui::workers::{
    save_attempt_label, upload_job_error, upload_kind, uploading_label, SaveTally, UploadKind,
    UploadTally,
};

#[test]
fn save_tally_counts_and_fails() {
    let mut t = SaveTally::new();
    t.stored();
    t.fetch_failed("https://taz.de/Politik/!123/", "timeout".to_owned());
    t.store_failed("https://taz.de/x/!9/", "Ein Titel".to_owned(), "disk full".to_owned());
    assert_eq!(t.saved, 1);
    assert_eq!(t.failed.len(), 2);
    assert_eq!(t.failed[0].label, "taz.de/Politik/!123/");
    assert!(matches!(&t.failed[0].retry, Some(RetryAction::SaveUrl(u)) if u == "https://taz.de/Politik/!123/"));
    assert_eq!(t.failed[1].label, "Ein Titel");
    assert_eq!(t.failed[1].detail, "disk full");
    assert_eq!(t.message(false), "Saved 1 article(s) to the library.");
    assert_eq!(t.message(true), "Cancelled. Saved 1 article(s) before stopping.");
    t.timed_out();
    assert_eq!(t.failed[2].detail, "Operation timed out (10 min limit).");
    assert!(t.failed[2].retry.is_none());
}

#[test]
fn save_attempt_labels() {
    assert_eq!(save_attempt_label("http://taz.de/a/", 1), "Saving taz.de/a/");
    assert_eq!(save_attempt_label("https://taz.de/a/", 2), "Retry 2/2: taz.de/a/");
    let long = format!("https://taz.de/{}", "x".repeat(80));
    assert_eq!(save_attempt_label(&long, 1), format!("Saving taz.de/{}...", "x".repeat(47)));
}

fn article(uploaded: bool, lesson: Option<i64>) -> StoredArticle {
    StoredArticle {
        id: 5,
        url: "https://taz.de/!5/".to_owned(),
        title: "Titel".to_owned(),
        subtitle: String::new(),
        author: String::new(),
        date: String::new(),
        section: String::new(),
        body_text: String::new(),
        clean_text: "Text".to_owned(),
        word_count: 1,
        difficulty: 3,
        fetched_at: String::new(),
        uploaded_to_lingq: uploaded,
        lingq_lesson_id: lesson,
        lingq_lesson_url: String::new(),
        paywalled: false,
    }
}

#[test]
fn upload_tally_counts_and_fails() {
    let mut t = UploadTally::new();
    t.accepted(&article(false, None), true, String::new());
    t.accepted(&article(true, Some(9)), true, String::new());
    t.accepted(&article(false, None), false, "locked".to_owned());
    t.refused(&article(false, None), "403".to_owned());
    t.missing(77);
    assert_eq!((t.uploaded, t.skipped_already), (2, 1));
    assert_eq!(t.failed.len(), 3);
    assert_eq!(t.failed[0].detail, "uploaded but DB update failed: locked");
    assert!(matches!(t.failed[0].retry, Some(RetryAction::UploadArticle(5))));
    assert_eq!(t.failed[1].detail, "403");
    assert_eq!(t.failed[2].label, "article #77");
    assert!(t.failed[2].retry.is_none());
    t.timed_out();
    assert_eq!(t.failed[3].label, "Upload batch");
}

#[test]
fn upload_kind_follows_existing_lesson() {
    assert!(matches!(upload_kind(&article(true, Some(9))), UploadKind::Update(9)));
    assert!(matches!(upload_kind(&article(false, None)), UploadKind::Create));
    let e = upload_job_error("db gone".to_owned());
    assert_eq!((e.uploaded, e.skipped_already, e.failed.len()), (0, 0, 1));
    assert_eq!(e.failed[0].label, "Upload");
    assert_eq!(uploading_label("Titel"), "Uploading Titel");
}

#[test]
fn upload_request_from_article() {
    let r = taz_reader::gui::workers::upload_request(&article(false, None), "key", "de", Some(4));
    assert_eq!(r.api_key, "key");
    assert_eq!(r.language_code, "de");
    assert_eq!(r.collection_id, Some(4));
    assert_eq!(r.title, "Titel");
    assert_eq!(r.text, "Text");
    assert_eq!(r.original_url.as_deref(), Some("https://taz.de/!5/"));
}
