use taz_reader::database::StoredArticleMeta;
use taz_reader::dates::CalendarDate;
use taz_reader::gui::activity::{sorted_unique_ids, JobBoard, ACTIVITY_LIMIT, FAILURE_LIMIT};
use taz_reader::gui::bulk::{
    bulk_fetch_message, check_bulk_fetch_request, check_search_request, BulkFetchLimits,
    BulkFetchRun, CandidateStep, FetchedStep, DATES_REVERSED, NO_SECTION_SELECTED,
};
use taz_reader::gui::jobs::{JobFailure, QueuedJob, RetryAction};
use taz_reader::gui::labels::{heading_labels, section_labels};
use taz_reader::gui::library::{build_library_query, plan_upload, LibraryFilters, UploadFilters};
use taz_reader::gui::modes::LibrarySortMode;
use taz_reader::settings::{AppSettings, SettingsStore};
use taz_reader::taz::models::{DiscoveryReport, DiscoverySourceKind};
use taz_reader::taz::sections::{section_at, sections, SECTION_COUNT};
use taz_reader::text::sorted_unique;

fn save_job(n: usize) -> QueuedJob {
    QueuedJob::SaveUrls {
        urls: (0..n).map(|i| format!("https://taz.de/!{i}/")).collect(),
        label: "Saving".to_owned(),
    }
}

#[test]
fn activity_keeps_newest_thirty() {
    let mut board = JobBoard::new();
    for i in 0..45 {
        board.add_activity("k".to_owned(), format!("m{i}"), String::new());
    }
    assert_eq!(board.activity().len(), ACTIVITY_LIMIT);
    assert_eq!(board.activity()[0].message, "m44");
    assert_eq!(board.activity()[29].message, "m15");
}

#[test]
fn enqueue_starts_when_idle_and_waits_when_busy() {
    let mut board = JobBoard::new();
    let d = board.enqueue(save_job(2), false);
    assert!(matches!(d.start, Some(QueuedJob::SaveUrls { .. })));
    assert!(d.status.is_none());
    assert_eq!(board.queue().len(), 0);
    assert_eq!(board.activity()[0].kind, "started");
    assert_eq!(board.activity()[0].message, "Saving (2)");
    assert_eq!(board.activity()[1].kind, "queued");
    assert_eq!(board.activity()[1].detail, "1 job(s) waiting.");

    let d = board.enqueue(save_job(3), true);
    assert!(d.start.is_none());
    assert_eq!(d.status.as_deref(), Some("Queued: Saving (3)"));
    assert_eq!(board.queue().len(), 1);
    let next = board.next_job(false);
    assert!(matches!(next, Some(QueuedJob::SaveUrls { ref urls, .. }) if urls.len() == 3));
    assert!(board.next_job(false).is_none());
}

#[test]
fn clearing_the_queue_notes_dropped_jobs() {
    let mut board = JobBoard::new();
    board.enqueue(save_job(1), true);
    board.enqueue(save_job(1), true);
    assert_eq!(board.clear_queue(), 2);
    assert_eq!(board.activity()[0].detail, "2 queued job(s) removed.");
    let before = board.activity().len();
    assert_eq!(board.clear_queue(), 0);
    assert_eq!(board.activity().len(), before);
}

fn failure(label: &str, retry: Option<RetryAction>) -> JobFailure {
    JobFailure { label: label.to_owned(), detail: "x".to_owned(), retry }
}

#[test]
fn failures_keep_newest_hundred() {
    let mut board = JobBoard::new();
    board.record_failures(Vec::new());
    assert!(board.activity().is_empty());
    let many: Vec<JobFailure> = (0..130).map(|i| failure(&format!("f{i}"), None)).collect();
    board.record_failures(many);
    assert_eq!(board.failed().len(), FAILURE_LIMIT);
    assert_eq!(board.failed()[0].label, "f30");
    assert_eq!(board.activity()[0].message, "130 failed item(s)");
    assert_eq!(board.activity()[0].detail, "f0");
    assert_eq!(board.clear_failed(), 100);
    assert_eq!(board.activity()[0].detail, "100 item(s) removed.");
}

#[test]
fn retry_queues_sorted_unique_work() {
    let mut board = JobBoard::new();
    board.record_failures(vec![
        failure("b", Some(RetryAction::SaveUrl("https://b/".to_owned()))),
        failure("keep", None),
        failure("a", Some(RetryAction::SaveUrl("https://a/".to_owned()))),
        failure("u9", Some(RetryAction::UploadArticle(9))),
        failure("b2", Some(RetryAction::SaveUrl("https://b/".to_owned()))),
        failure("u3", Some(RetryAction::UploadArticle(3))),
        failure("u9b", Some(RetryAction::UploadArticle(9))),
    ]);
    let out = board.retry_failed("token123", "de".to_owned(), Some(4), false);
    assert_eq!(out.status, "Queued 4 failed item(s) for retry.");
    match out.start {
        Some(QueuedJob::SaveUrls { urls, label }) => {
            assert_eq!(urls, vec!["https://a/".to_owned(), "https://b/".to_owned()]);
            assert_eq!(label, "Retry failed saves");
        }
        _ => panic!("expected the save job to start"),
    }
    assert_eq!(board.queue().len(), 1);
    match &board.queue()[0] {
        QueuedJob::UploadArticles { ids, api_key, language, collection_id } => {
            assert_eq!(ids, &vec![3, 9]);
            assert_eq!(api_key, "token123");
            assert_eq!(language, "de");
            assert_eq!(*collection_id, Some(4));
        }
        _ => panic!("expected the upload job to wait"),
    }
    assert_eq!(board.failed().len(), 1);
    assert_eq!(board.failed()[0].label, "keep");
    assert_eq!(board.activity()[0].message, "Retry requested");
    assert_eq!(board.activity()[0].detail, "4 item(s) queued.");
}

#[test]
fn retry_without_token_keeps_uploads_failed() {
    let mut board = JobBoard::new();
    board.record_failures(vec![
        failure("u5", Some(RetryAction::UploadArticle(5))),
        failure("keep", None),
        failure("u5 again", Some(RetryAction::UploadArticle(5))),
    ]);
    let out = board.retry_failed("   ", "de".to_owned(), None, false);
    assert_eq!(out.status, "Open LingQ settings and save a token before retrying uploads.");
    assert!(out.start.is_none());
    let labels: Vec<&str> = board.failed().iter().map(|f| f.label.as_str()).collect();
    assert_eq!(labels, vec!["keep", "article #5", "article #5"]);
    assert_eq!(board.failed()[1].detail, "LingQ token missing during retry.");
    assert!(matches!(board.failed()[1].retry, Some(RetryAction::UploadArticle(5))));
}

#[test]
fn retry_with_nothing_failed() {
    let mut board = JobBoard::new();
    let out = board.retry_failed("k", "de".to_owned(), None, false);
    assert_eq!(out.status, "There are no failed items to retry.");
    assert!(out.start.is_none());
}

#[test]
fn sorted_unique_sorts_and_dedups() {
    let v = sorted_unique(vec!["b".to_owned(), "a".to_owned(), "b".to_owned(), "Ä".to_owned(), "Z".to_owned()]);
    let mut expected = vec!["b".to_owned(), "a".to_owned(), "Ä".to_owned(), "Z".to_owned()];
    expected.sort();
    assert_eq!(v, expected);
    assert_eq!(sorted_unique_ids(vec![5, -1, 5, 3, -1]), vec![-1, 3, 5]);
}

fn meta(id: i64, section: &str) -> StoredArticleMeta {
    StoredArticleMeta {
        id,
        url: format!("https://taz.de/!{id}/"),
        title: format!("T{id}"),
        subtitle: String::new(),
        author: String::new(),
        date: String::new(),
        section: section.to_owned(),
        word_count: 100 * id,
        difficulty: 3,
        fetched_at: String::new(),
        uploaded_to_lingq: id % 2 == 0,
        lingq_lesson_id: None,
        lingq_lesson_url: String::new(),
        paywalled: false,
    }
}

#[test]
fn heading_and_section_pick_lists() {
    let articles = vec![
        meta(1, "Politik - Inland"),
        meta(2, "Kultur"),
        meta(3, "Politik - Europa"),
        meta(4, "  "),
        meta(5, " Kultur "),
    ];
    assert_eq!(heading_labels(&articles), vec!["All headings", "", "Kultur", "Politik"]);
    assert_eq!(
        section_labels(&articles),
        vec!["All sections", "Kultur", "Politik - Europa", "Politik - Inland"]
    );
}

#[test]
fn all_entry_twice_when_also_a_candidate() {
    let articles = vec![meta(1, "All sections"), meta(2, "Sport")];
    assert_eq!(section_labels(&articles), vec!["All sections", "All sections", "Sport"]);
}

fn limits() -> BulkFetchLimits {
    BulkFetchLimits {
        max_articles: 2,
        per_section_cap: 2,
        stop_after_old: 2,
        date_from: CalendarDate { year: 2025, month: 1, day: 1 },
        date_to: CalendarDate { year: 2025, month: 1, day: 31 },
    }
}

#[test]
fn bulk_run_decides_candidates() {
    let mut run = BulkFetchRun::new(vec!["https://old/".to_owned()], limits());
    assert_eq!(run.consider(&"https://old/".to_owned()), CandidateStep::SkipExisting);
    assert_eq!(run.consider(&"https://new/".to_owned()), CandidateStep::Fetch);
    assert_eq!(run.consider(&"https://new/".to_owned()), CandidateStep::SkipSeen);
    let jan = CalendarDate { year: 2025, month: 1, day: 15 };
    assert_eq!(run.fetched(Some(jan)), FetchedStep::Save);
    run.record_saved();
    let dec = CalendarDate { year: 2024, month: 12, day: 15 };
    assert_eq!(run.fetched(Some(dec)), FetchedStep::Skip);
    assert_eq!(run.fetched(None), FetchedStep::StopSection);
    run.start_section();
    assert_eq!(run.consider(&"https://x/".to_owned()), CandidateStep::Fetch);
    run.record_saved();
    assert!(run.is_full());
    assert_eq!(run.consider(&"https://y/".to_owned()), CandidateStep::StopSection);
    assert_eq!(
        bulk_fetch_message(&run, false),
        "Saved 2 article(s). Skipped 1 existing and 1 out-of-range article(s)."
    );
}

#[test]
fn bulk_request_checks_inputs_in_order() {
    assert_eq!(
        check_bulk_fetch_request(false, "1", "1", "1", "2025-01-01", "2025-01-02").err().as_deref(),
        Some(NO_SECTION_SELECTED)
    );
    assert!(check_bulk_fetch_request(true, "0", "1", "1", "2025-01-01", "2025-01-02").is_err());
    assert_eq!(
        check_bulk_fetch_request(true, "5", "2", "3", "2025-02-01", "2025-01-02").err().as_deref(),
        Some(DATES_REVERSED)
    );
    let l = check_bulk_fetch_request(true, "5", "2", "3", "2025-01-01", "2025-01-02").unwrap();
    assert_eq!((l.max_articles, l.per_section_cap, l.stop_after_old), (5, 2, 3));
}

#[test]
fn search_request_trims_and_orders() {
    let (q, f, t) = check_search_request("  Klima ", "", "2025-03-01").unwrap();
    assert_eq!(q, "Klima");
    assert!(f.is_none());
    assert_eq!(t.unwrap().to_iso_string(), "2025-03-01");
    assert!(check_search_request("   ", "", "").is_err());
    assert!(check_search_request("x", "2025-03-02", "2025-03-01").is_err());
}

fn filters() -> LibraryFilters {
    LibraryFilters {
        search: "  Klima ".to_owned(),
        heading: "All headings".to_owned(),
        section: "All sections".to_owned(),
        sort_mode: LibrarySortMode::Longest,
        only_not_uploaded: true,
        min_words: "200".to_owned(),
        max_words: "abc".to_owned(),
        duplicate_only: false,
        filter_preset_index: 0,
    }
}

#[test]
fn library_query_from_filters() {
    let q = build_library_query(&filters());
    assert_eq!(q.search.as_deref(), Some("Klima"));
    assert_eq!(q.section, None);
    assert!(q.only_not_uploaded);
    assert_eq!(q.min_words, Some(200));
    assert_eq!(q.max_words, None);
    assert_eq!(q.sort.as_deref(), Some("longest"));
    assert_eq!(q.limit, 4000);
}

#[test]
fn upload_plan_filters_selection() {
    let articles = vec![meta(1, "Kultur"), meta(2, "Kultur"), meta(3, "Sport"), meta(5, "Kultur")];
    let up = UploadFilters { only_not_uploaded: true, min_words: "150".to_owned(), max_words: String::new() };
    assert!(plan_upload("", &vec![1], &articles, "", &up).is_err());
    assert!(plan_upload("key", &vec![], &articles, "", &up).is_err());
    assert_eq!(plan_upload("key", &vec![1, 2, 3, 5], &articles, "Kultur", &up).unwrap(), vec![5]);
    assert!(plan_upload("key", &vec![1], &articles, "", &up).is_err());
}

#[test]
fn settings_defaults_and_updates() {
    let d = AppSettings::default();
    assert_eq!(d.browse_section, "politik");
    assert_eq!(d.lingq_language, "de");
    assert_eq!(d.bulk_max_articles, "60");
    assert_eq!(d.article_density, "compact");
    assert!(d.browse_only_new && d.lingq_only_not_uploaded && !d.auto_fetch_on_startup);

    let path = std::path::PathBuf::from("settings.json");
    let mut store = SettingsStore::from_loaded(path.clone(), None);
    assert_eq!(store.data().browse_section, "politik");
    store.update(|s| {
        s.browse_section = "kultur".to_owned();
        s.library_duplicate_only = true;
    });
    assert_eq!(store.data().browse_section, "kultur");
    assert!(store.data().library_duplicate_only);
    store.data_mut().lingq_language = "fr".to_owned();
    assert_eq!(store.data().lingq_language, "fr");
    assert_eq!(store.path(), &path);

    let mut loaded = AppSettings::default();
    loaded.browse_section = "sport".to_owned();
    let store = SettingsStore::from_loaded(path, Some(loaded));
    assert_eq!(store.data().browse_section, "sport");
}

#[test]
fn section_list_and_lookup() {
    let all = sections();
    assert_eq!(all.len(), SECTION_COUNT);
    assert_eq!(all[0].id, "start");
    assert_eq!(section_at(&all, 1).id, all[1].id);
    assert_eq!(section_at(&all, 999).id, "start");
    let mut ids: Vec<&str> = all.iter().map(|s| s.id).collect();
    ids.sort();
    ids.dedup();
    assert_eq!(ids.len(), SECTION_COUNT);
}

#[test]
fn discovery_report_counts_visits() {
    let mut report = DiscoveryReport {
        source_pages_visited: 0,
        section_pages_visited: 0,
        subsection_pages_visited: 0,
        topic_pages_visited: 0,
        section_articles: 0,
        subsection_articles: 0,
        topic_articles: 0,
        deduped_articles: 0,
    };
    report.record_source_visit(DiscoverySourceKind::Section);
    report.record_source_visit(DiscoverySourceKind::Topic);
    report.record_article(DiscoverySourceKind::Subsection);
    assert_eq!(report.source_pages_visited, 2);
    assert_eq!(report.section_pages_visited, 1);
    assert_eq!(report.topic_pages_visited, 1);
    assert_eq!(report.subsection_articles, 1);
    assert_eq!(DiscoverySourceKind::Topic.as_str(), "topic");
}

#[test]
fn api_key_prefers_token_file() {
    use_api_key_choice();
}

fn use_api_key_choice() {
    let mut s = AppSettings::default();
    s.lingq_api_key = "legacy".to_owned();
    let (key, migrate) = taz_reader::settings::choose_api_key(Some("  tok123 \n".to_owned()), &mut s);
    assert_eq!((key.as_str(), migrate), ("tok123", false));
    assert_eq!(s.lingq_api_key, "legacy");
    let (key, migrate) = taz_reader::settings::choose_api_key(Some("   ".to_owned()), &mut s);
    assert_eq!((key.as_str(), migrate), ("legacy", true));
    assert_eq!(s.lingq_api_key, "");
    let (key, migrate) = taz_reader::settings::choose_api_key(None, &mut s);
    assert_eq!((key.as_str(), migrate), ("", false));
}

#[test]
fn store_without_file_has_defaults() {
    let store = SettingsStore::from_loaded(std::path::PathBuf::from("missing.json"), None);
    assert_eq!(store.data().browse_section, "politik");
    assert_eq!(store.data().lingq_language, "de");
}

#[test]
fn auto_fetch_limits_cover_two_days() {
    let today = CalendarDate { year: 2025, month: 3, day: 1 };
    let l = taz_reader::gui::bulk::auto_fetch_limits(today).unwrap();
    assert_eq!((l.max_articles, l.per_section_cap, l.stop_after_old), (30, 5, 8));
    assert_eq!(l.date_from.to_iso_string(), "2025-02-27");
    assert_eq!(l.date_to.to_iso_string(), "2025-03-01");
    assert_eq!(taz_reader::gui::bulk::auto_fetch_discovery_limit(), 40);
    assert!(taz_reader::gui::bulk::auto_fetch_limits(CalendarDate { year: 2025, month: 2, day: 30 }).is_none());
}
