use taz_reader::database::{StoredArticle, StoredArticleMeta};
use taz_reader::dates::CalendarDate;
use taz_reader::gui::bulk::search_date_in_range;
use taz_reader::gui::jobs::JobFailure;
use taz_reader::gui::library::{
    delete_status, plan_delete, step_selection, toggle_selection, uploadable_listed, UploadFilters,
    NOTHING_SELECTED_FOR_DELETE, NO_VISIBLE_SELECTION,
};
use taz_reader::gui::messages::{
    browse_loaded_status, browse_summary, collection_index, collection_labels,
    collections_request_problem, default_collection, job_finished_status, library_summary,
    loading_status, login_failed, login_input_problem, preview_meta, progress_label, queue_label,
    search_report, search_status, searching_status, sources_report, upload_finished_detail,
    upload_finished_status, IMPLAUSIBLE_TOKEN, LOGIN_INPUT_MISSING, NO_TOKEN_FOR_COURSES,
};
use taz_reader::lingq::Collection;
use taz_reader::taz::models::DiscoveryReport;

#[test]
fn queue_and_library_summaries() {
    assert_eq!(queue_label(0), "");
    assert_eq!(queue_label(3), "3 queued job(s)");
    assert_eq!(library_summary(12, 2, true), "Showing 12 saved article(s) after filters. 2 selected for upload.");
    assert_eq!(
        library_summary(12, 0, true),
        "Showing 12 saved article(s) after filters. Selection hidden by upload filters."
    );
    assert_eq!(library_summary(0, 0, false), "Showing 0 saved article(s) after filters.");
}

fn stored(uploaded: bool, paywalled: bool) -> StoredArticle {
    StoredArticle {
        id: 1,
        url: "https://taz.de/!1/".to_owned(),
        title: "T".to_owned(),
        subtitle: String::new(),
        author: String::new(),
        date: "2025-01-02".to_owned(),
        section: "Kultur".to_owned(),
        body_text: String::new(),
        clean_text: String::new(),
        word_count: 812,
        difficulty: 3,
        fetched_at: String::new(),
        uploaded_to_lingq: uploaded,
        lingq_lesson_id: None,
        lingq_lesson_url: String::new(),
        paywalled,
    }
}

#[test]
fn preview_meta_line() {
    assert_eq!(preview_meta(&stored(false, false)), "Kultur | 812 words | 2025-01-02 | Not on LingQ");
    assert_eq!(preview_meta(&stored(true, true)), "Kultur | 812 words | 2025-01-02 | On LingQ | Paywalled");
}

fn course(id: i64, title: &str, n: i64) -> Collection {
    Collection { id, title: title.to_owned(), lessons_count: n }
}

#[test]
fn course_pick_list() {
    let courses = vec![course(7, "Nachrichten", 12), course(9, "Kultur", 0)];
    assert_eq!(collection_labels(&courses), vec!["No course selected", "Nachrichten (12)", "Kultur (0)"]);
    assert_eq!(collection_index(&courses, Some(9)), 2);
    assert_eq!(collection_index(&courses, Some(5)), 0);
    assert_eq!(collection_index(&courses, None), 0);
    assert_eq!(default_collection(&courses, None), Some(7));
    assert_eq!(default_collection(&courses, Some(9)), Some(9));
    assert_eq!(default_collection(&[], None), None);
}

#[test]
fn progress_and_reports() {
    assert_eq!(progress_label("Saving", 3, 10, 42), "Saving (3 / 10, 42s)");
    let report = DiscoveryReport {
        source_pages_visited: 4,
        section_pages_visited: 1,
        subsection_pages_visited: 2,
        topic_pages_visited: 1,
        section_articles: 10,
        subsection_articles: 5,
        topic_articles: 2,
        deduped_articles: 3,
    };
    let text = sources_report(&report);
    assert_eq!(text, "Sources: 10 section / 5 subsection / 2 topic, 3 deduped.");
    assert_eq!(
        browse_summary(8, "Politik", 2, 40, &Some(text)),
        "Showing 8 article(s) from Politik. 2 selected. Limit 40. Sources: 10 section / 5 subsection / 2 topic, 3 deduped."
    );
    assert_eq!(browse_summary(0, "Kultur", 0, 5, &None), "Showing 0 article(s) from Kultur. 0 selected. Limit 5.");
    assert_eq!(browse_loaded_status(17), "Loaded 17 article candidates from taz.");
    assert_eq!(search_report("Klima", " from 2025-01-01"), "Search results for \"Klima\" from 2025-01-01.");
    assert_eq!(search_status(4, "Klima", ""), "Found 4 articles for \"Klima\".");
    assert_eq!(searching_status("Klima", ""), "Searching taz.de for \"Klima\"...");
    assert_eq!(loading_status("Kultur"), "Loading Kultur from taz...");
}

fn fail(label: &str) -> JobFailure {
    JobFailure { label: label.to_owned(), detail: String::new(), retry: None }
}

#[test]
fn finished_job_statuses() {
    assert_eq!(job_finished_status("Saved 2 article(s).", &[]), "Saved 2 article(s).");
    assert_eq!(job_finished_status("Done.", &[fail("a")]), "Done. 1 failed: a");
    assert_eq!(upload_finished_status(3, 0, &[], false), "Uploaded 3 article(s) to LingQ.");
    assert_eq!(
        upload_finished_status(1, 2, &[fail("x")], true),
        "Cancelled. Uploaded 1 article(s) to LingQ. Skipped 2 already uploaded. 1 failed: x"
    );
    assert_eq!(upload_finished_detail(3, 1), "3 uploaded, 1 failed.");
}

#[test]
fn login_checks_and_cooldown() {
    assert_eq!(login_input_problem("  ", "pw").as_deref(), Some(LOGIN_INPUT_MISSING));
    assert_eq!(login_input_problem("me", "").as_deref(), Some(LOGIN_INPUT_MISSING));
    assert_eq!(login_input_problem("me", " ").as_deref(), None);
    let first = login_failed(0, "bad password");
    assert_eq!((first.failures, first.cooldown_secs, first.status.as_str()), (1, None, "bad password"));
    let third = login_failed(2, "bad password");
    assert_eq!(third.failures, 3);
    assert_eq!(third.cooldown_secs, Some(30));
    assert_eq!(third.status, "bad password (Cooldown: 30s before next attempt)");
    let fifth = login_failed(4, "e");
    assert_eq!(fifth.cooldown_secs, Some(90));
    assert_eq!(format!("{:.0?}", std::time::Duration::from_secs(90)), "90s");
}

#[test]
fn course_listing_needs_plausible_token() {
    assert_eq!(collections_request_problem("  ").as_deref(), Some(NO_TOKEN_FOR_COURSES));
    assert_eq!(collections_request_problem("short").as_deref(), Some(IMPLAUSIBLE_TOKEN));
    assert_eq!(collections_request_problem("abc-defgh12").as_deref(), Some(IMPLAUSIBLE_TOKEN));
    assert_eq!(collections_request_problem(" abcdefgh12 "), None);
}

#[test]
fn search_dates_filter_results() {
    let d = |y, m, day| CalendarDate { year: y, month: m, day };
    let from = Some(d(2025, 1, 1));
    let to = Some(d(2025, 1, 31));
    assert!(search_date_in_range(Some(d(2025, 1, 1)), from, to));
    assert!(search_date_in_range(Some(d(2025, 1, 31)), from, to));
    assert!(!search_date_in_range(Some(d(2024, 12, 31)), from, to));
    assert!(!search_date_in_range(Some(d(2025, 2, 1)), from, to));
    assert!(!search_date_in_range(None, from, to));
    assert!(search_date_in_range(Some(d(1990, 1, 1)), None, to));
}

#[test]
fn toggling_twice_restores_selection() {
    let mut selected: std::collections::HashSet<i64> = [3, 5].into_iter().collect();
    let start = selected.clone();
    assert!(toggle_selection(&mut selected, 7));
    assert!(selected.contains(&7));
    assert_eq!(selected.len(), 3);
    assert!(!toggle_selection(&mut selected, 5));
    assert!(!selected.contains(&5));
    assert_eq!(selected.len(), 2);
    assert!(toggle_selection(&mut selected, 5));
    assert!(!toggle_selection(&mut selected, 7));
    assert_eq!(selected, start);
}

fn meta(id: i64, section: &str) -> StoredArticleMeta {
    StoredArticleMeta {
        id,
        url: String::new(),
        title: String::new(),
        subtitle: String::new(),
        author: String::new(),
        date: String::new(),
        section: section.to_owned(),
        word_count: 0,
        difficulty: 3,
        fetched_at: String::new(),
        uploaded_to_lingq: false,
        lingq_lesson_id: None,
        lingq_lesson_url: String::new(),
        paywalled: false,
    }
}

#[test]
fn delete_plan_only_touches_listed_articles() {
    let articles = vec![meta(1, "Kultur"), meta(2, "Sport"), meta(3, "Kultur - Film")];
    assert_eq!(plan_delete(&vec![], &articles, "").err().as_deref(), Some(NOTHING_SELECTED_FOR_DELETE));
    assert_eq!(plan_delete(&vec![2], &articles, "Kultur").err().as_deref(), Some(NO_VISIBLE_SELECTION));
    let plan = plan_delete(&vec![3, 2, 1], &articles, "Kultur").unwrap();
    assert_eq!(plan.ids, vec![1, 3]);
    assert_eq!(plan.hidden, 1);
    assert_eq!(
        delete_status(2, 2, 1),
        "Deleted 2 of 2 visible selected article(s). Left 1 hidden selection(s) untouched."
    );
    assert_eq!(delete_status(1, 1, 0), "Deleted 1 of 1 visible selected article(s).");
}

#[test]
fn arrow_keys_move_through_the_list() {
    let listed = [10, 20, 30];
    assert_eq!(step_selection(&listed, Some(20), true), Some(10));
    assert_eq!(step_selection(&listed, Some(10), true), Some(10));
    assert_eq!(step_selection(&listed, Some(20), false), Some(30));
    assert_eq!(step_selection(&listed, Some(30), false), Some(30));
    assert_eq!(step_selection(&listed, Some(99), false), Some(10));
    assert_eq!(step_selection(&listed, None, true), Some(10));
    assert_eq!(step_selection(&[], Some(1), false), None);
}

#[test]
fn select_visible_for_upload_uses_filters() {
    let mut articles = vec![meta(1, "Kultur"), meta(2, "Kultur"), meta(3, "Sport")];
    articles[0].word_count = 500;
    articles[1].word_count = 50;
    articles[2].word_count = 900;
    let up = UploadFilters { only_not_uploaded: false, min_words: "100".to_owned(), max_words: String::new() };
    assert_eq!(uploadable_listed(&articles, "Kultur", &up), vec![1]);
    assert_eq!(uploadable_listed(&articles, "", &up), vec![1, 3]);
}

#[test]
fn course_index_round_trip() {
    use_course_round_trip();
}

fn use_course_round_trip() {
    let courses = vec![course(7, "A", 1), course(9, "B", 2)];
    for id in [7, 9] {
        let index = collection_index(&courses, Some(id));
        assert_eq!(taz_reader::gui::messages::collection_at_index(&courses, index as i32), Some(id));
    }
    assert_eq!(taz_reader::gui::messages::collection_at_index(&courses, 0), None);
    assert_eq!(taz_reader::gui::messages::collection_at_index(&courses, -3), None);
    assert_eq!(taz_reader::gui::messages::collection_at_index(&courses, 3), None);
}
