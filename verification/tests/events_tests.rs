use std::collections::HashSet;
use taz_reader::gui::activity::JobBoard;
use taz_reader::gui::events::{apply_event, AppEvent, FetchProgress, FollowUp, WindowState};
use taz_reader::gui::jobs::{JobFailure, QueuedJob};
use taz_reader::lingq::Collection;

fn window() -> WindowState {
    WindowState {
        browse_articles: Vec::new(),
        browse_report: None,
        browse_saved_urls: Vec::new(),
        browse_selected: vec!["https://taz.de/!1/".to_owned()],
        search_query: "Klima".to_owned(),
        date_from: "2024-01-02".to_owned(),
        date_to: "not a date".to_owned(),
        library_articles: Vec::new(),
        selected_article_id: None,
        delete_confirm_id: Some(4),
        stats: None,
        progress: None,
        save_progress: None,
        job_running: true,
        collections: Vec::new(),
        selected_collection: None,
        api_key: String::new(),
        password: "secret".to_owned(),
        login_failures: 0,
        selected_articles: [1, 2].into_iter().collect::<HashSet<i64>>(),
        status: String::new(),
        board: JobBoard::new(),
    }
}

fn save_job() -> QueuedJob {
    QueuedJob::SaveUrls { urls: vec!["https://taz.de/!9/".to_owned()], label: "Saving".to_owned() }
}

#[test]
fn search_results_name_the_query_and_the_valid_dates() {
    let mut w = window();
    let follow = apply_event(&mut w, AppEvent::SearchLoaded(Ok(Vec::new())));
    assert!(follow.is_empty());
    assert_eq!(w.status, "Found 0 articles for \"Klima\" from 2024-01-02.");
    assert_eq!(w.browse_report.as_deref(), Some("Search results for \"Klima\" from 2024-01-02."));
}

#[test]
fn failed_search_and_load_errors_become_the_status() {
    let mut w = window();
    apply_event(&mut w, AppEvent::SearchLoaded(Err("timeout".to_owned())));
    assert_eq!(w.status, "Search failed: timeout");
    apply_event(&mut w, AppEvent::StatsLoaded(Err("db locked".to_owned())));
    assert_eq!(w.status, "db locked");
}

#[test]
fn third_failed_login_starts_a_cooldown() {
    let mut w = window();
    assert!(apply_event(&mut w, AppEvent::LingqLoggedIn(Err("bad".to_owned()))).is_empty());
    assert!(w.password.is_empty());
    apply_event(&mut w, AppEvent::LingqLoggedIn(Err("bad".to_owned())));
    let follow = apply_event(&mut w, AppEvent::LingqLoggedIn(Err("bad".to_owned())));
    assert_eq!(w.login_failures, 3);
    assert_eq!(w.status, "bad (Cooldown: 30s before next attempt)");
    assert!(matches!(follow.as_slice(), [FollowUp::StartCooldown(30)]));
    let follow = apply_event(&mut w, AppEvent::LingqLoggedIn(Ok("tok12345".to_owned())));
    assert_eq!(w.login_failures, 0);
    assert_eq!(w.api_key, "tok12345");
    assert_eq!(w.status, "LingQ login succeeded.");
    assert!(matches!(
        follow.as_slice(),
        [FollowUp::ClearCooldown, FollowUp::SaveSettings, FollowUp::LoadCollections]
    ));
}

#[test]
fn loaded_courses_choose_the_first_when_none_was_chosen() {
    let mut w = window();
    let courses = vec![
        Collection { id: 11, title: "A".to_owned(), lessons_count: 1 },
        Collection { id: 12, title: "B".to_owned(), lessons_count: 2 },
    ];
    apply_event(&mut w, AppEvent::CollectionsLoaded(Ok(courses)));
    assert_eq!(w.selected_collection, Some(11));
    assert_eq!(w.status, "LingQ courses refreshed.");
}

#[test]
fn finished_fetch_notes_failures_and_starts_the_next_job() {
    let mut w = window();
    w.progress = Some(FetchProgress { label: "Fetch".to_owned(), completed: 1, total: 2 });
    w.board.enqueue(save_job(), true);
    let failed = vec![JobFailure { label: "x".to_owned(), detail: "y".to_owned(), retry: None }];
    let follow = apply_event(
        &mut w,
        AppEvent::FetchFinished { message: "Fetched 3 article(s).".to_owned(), failed },
    );
    assert!(!w.job_running);
    assert!(w.progress.is_none());
    assert_eq!(w.status, "Fetched 3 article(s). 1 failed: x: y");
    assert_eq!(follow.len(), 6);
    assert!(matches!(follow[0], FollowUp::ResetCancel));
    assert!(matches!(follow[4], FollowUp::LoadBrowse));
    assert!(matches!(follow[5], FollowUp::StartJob(QueuedJob::SaveUrls { .. })));
    let activity = w.board.activity();
    assert_eq!(activity[0].kind, "started");
    assert_eq!(activity[1].kind, "finished");
    assert_eq!(activity[1].message, "Fetch job finished");
    assert_eq!(activity[2].kind, "failed");
    assert_eq!(w.board.failed().len(), 1);
    assert!(w.board.queue().is_empty());
}

#[test]
fn finished_upload_clears_the_selection_and_waits_for_a_running_save() {
    let mut w = window();
    w.save_progress = Some(FetchProgress { label: "Save".to_owned(), completed: 0, total: 1 });
    w.board.enqueue(save_job(), true);
    let follow = apply_event(
        &mut w,
        AppEvent::UploadFinished { uploaded: 2, skipped_already: 1, failed: Vec::new(), cancelled: false },
    );
    assert!(w.selected_articles.is_empty());
    assert_eq!(w.status, "Uploaded 2 article(s) to LingQ. Skipped 1 already uploaded.");
    assert_eq!(follow.len(), 3);
    assert_eq!(w.board.queue().len(), 1);
    assert_eq!(w.board.activity()[0].detail, "2 uploaded, 0 failed.");
}

#[test]
fn first_library_load_shows_the_first_article() {
    let mut w = window();
    let follow = apply_event(&mut w, AppEvent::LibraryLoaded(Ok(Vec::new())));
    assert!(matches!(follow.as_slice(), [FollowUp::ShowArticle(None)]));
    assert_eq!(w.delete_confirm_id, None);
    w.selected_article_id = Some(3);
    assert!(apply_event(&mut w, AppEvent::LibraryLoaded(Ok(Vec::new()))).is_empty());
}

#[test]
fn finished_save_clears_the_browse_selection() {
    let mut w = window();
    let follow = apply_event(
        &mut w,
        AppEvent::SaveFinished { message: "Saved 1 article(s).".to_owned(), failed: Vec::new() },
    );
    assert!(w.browse_selected.is_empty());
    assert_eq!(follow.len(), 4);
    assert_eq!(w.status, "Saved 1 article(s).");
}
