//! What the window makes of the reports that its background tasks send back:
//! one step from the window's state and a report to the next state, with the
//! follow-up work that the window then starts.

use vstd::prelude::*;
use std::collections::HashSet;
use crate::database::{LibraryStats, StoredArticleMeta};
use crate::dates::{as_date, parse_date_input, parsed_date, CalendarDate, ISO_FORMAT};
use crate::gui::activity::{
    entry_is, lemma_pushed_compose, lemma_pushed_none, pushed_front, with_failures, JobBoard,
};
use crate::gui::jobs::{date_range_text, failure_suffix, job_label, search_date_label, JobFailure, QueuedJob};
use crate::gui::messages::{
    browse_loaded_status, browse_loaded_text, default_collection, job_finished_status, login_cooldown,
    login_failed, login_failed_text, search_report, search_report_text, search_status,
    search_status_text, sources_report, sources_text, upload_detail_text, upload_finished_detail,
    upload_finished_status, upload_finished_text,
};
use crate::lingq::Collection;
use crate::numbers::decimal;
use crate::taz::models::{ArticleSummary, BrowseSectionResult};
use crate::text::{concat, trim};

verus! {

/// How far a running job has come.
#[derive(Clone, Debug)]
pub struct FetchProgress {
    pub label: String,
    pub completed: usize,
    pub total: usize,
}

/// A report that a background task sends back to the window.
pub enum AppEvent {
    BrowseLoaded(Result<BrowseSectionResult, String>),
    SearchLoaded(Result<Vec<ArticleSummary>, String>),
    SavedUrlsLoaded(Result<Vec<String>, String>),
    LibraryLoaded(Result<Vec<StoredArticleMeta>, String>),
    StatsLoaded(Result<LibraryStats, String>),
    FetchProgress(FetchProgress),
    FetchFinished { message: String, failed: Vec<JobFailure> },
    SaveProgress(FetchProgress),
    SaveFinished { message: String, failed: Vec<JobFailure> },
    CollectionsLoaded(Result<Vec<Collection>, String>),
    LingqLoggedIn(Result<String, String>),
    UploadFinished { uploaded: usize, skipped_already: usize, failed: Vec<JobFailure>, cancelled: bool },
}

/// Work that the window starts after a report, in the order given.
pub enum FollowUp {
    /// Lower the flag that asks running work to stop.
    ResetCancel,
    RefreshSavedUrls,
    RefreshStats,
    LoadLibrary,
    LoadBrowse,
    LoadCollections,
    /// Store the settings, the new token among them.
    SaveSettings,
    /// Show this saved article (or none) in the preview.
    ShowArticle(Option<i64>),
    /// Refuse logins for this many seconds from now.
    StartCooldown(u64),
    /// Allow logins again at once.
    ClearCooldown,
    /// Start this job, taken from the queue.
    StartJob(QueuedJob),
}

/// The part of the window's state that the reports change or read.
pub struct WindowState {
    pub browse_articles: Vec<ArticleSummary>,
    pub browse_report: Option<String>,
    pub browse_saved_urls: Vec<String>,
    pub browse_selected: Vec<String>,
    pub search_query: String,
    pub date_from: String,
    pub date_to: String,
    pub library_articles: Vec<StoredArticleMeta>,
    pub selected_article_id: Option<i64>,
    pub delete_confirm_id: Option<i64>,
    pub stats: Option<LibraryStats>,
    pub progress: Option<FetchProgress>,
    pub save_progress: Option<FetchProgress>,
    /// A job runs now.
    pub job_running: bool,
    pub collections: Vec<Collection>,
    pub selected_collection: Option<i64>,
    pub api_key: String,
    pub password: String,
    pub login_failures: u32,
    /// The saved articles chosen for upload.
    pub selected_articles: HashSet<i64>,
    pub status: String,
    pub board: JobBoard,
}

/// The date that a date field gives, as the search reads it: none when the
/// field is blank or not a `YYYY-MM-DD` date.
pub open spec fn input_date(field: Seq<char>) -> Option<CalendarDate> {
    if trim(field).len() == 0 {
        None
    } else {
        as_date(parsed_date(trim(field), ISO_FORMAT@))
    }
}

/// The job taken from `queue` when a job has finished and `busy` tells
/// whether other work still shows progress.
pub open spec fn next_started(queue: Seq<QueuedJob>, busy: bool) -> Option<QueuedJob> {
    if !busy && queue.len() > 0 {
        Some(queue[0])
    } else {
        None
    }
}

/// The follow-up that starts the job, if any.
pub open spec fn start_follow_up(started: Option<QueuedJob>) -> Seq<FollowUp> {
    match started {
        Some(job) => seq![FollowUp::StartJob(job)],
        None => Seq::empty(),
    }
}

/// The board after a job finished: its failures kept and noted (when there
/// are any), then the entry `finished` / `message` / `detail`, then the next
/// job in the queue started when `busy` is false.
pub open spec fn job_finished_board(
    before: JobBoard,
    after: JobBoard,
    failed: Seq<JobFailure>,
    message: Seq<char>,
    detail: Seq<char>,
    busy: bool,
) -> bool {
    let started = next_started(before.spec_queue(), busy);
    let s: int = if started is Some {
        1
    } else {
        0
    };
    let f: int = if failed.len() > 0 {
        1
    } else {
        0
    };
    &&& after.wf()
    &&& after.spec_failed() == (if failed.len() > 0 {
        with_failures(before.spec_failed(), failed)
    } else {
        before.spec_failed()
    })
    &&& after.spec_queue() == (if started is Some {
        before.spec_queue().drop_first()
    } else {
        before.spec_queue()
    })
    &&& pushed_front(before.spec_activity(), after.spec_activity(), s + 1 + f)
    &&& (started matches Some(job) ==> entry_is(
        after.spec_activity()[0],
        "started"@,
        job_label(job),
        "Background job started."@,
    ))
    &&& entry_is(after.spec_activity()[s], "finished"@, message, detail)
    &&& (failed.len() > 0 ==> entry_is(
        after.spec_activity()[s + 1],
        "failed"@,
        decimal(failed.len()) + " failed item(s)"@,
        failed[0].label@,
    ))
}

/// Notes a finished job on the board and starts the next one when `busy` is
/// false. Returns the job started.
fn finish_job(
    board: &mut JobBoard,
    failed: Vec<JobFailure>,
    message: String,
    detail: String,
    busy: bool,
) -> (started: Option<QueuedJob>)
    requires
        old(board).wf(),
    ensures
        started == next_started(old(board).spec_queue(), busy),
        job_finished_board(*old(board), *final(board), failed@, message@, detail@, busy),
{
    let ghost a0 = board.spec_activity();
    let ghost q0 = board.spec_queue();
    let ghost nf = failed@.len();
    let ghost fs = failed@;
    board.record_failures(failed);
    let ghost a1 = board.spec_activity();
    let ghost f: int = if nf > 0 {
        1
    } else {
        0
    };
    proof {
        if nf == 0 {
            lemma_pushed_none(a0);
        }
    }
    board.add_activity("finished".to_owned(), message, detail);
    let ghost a2 = board.spec_activity();
    let started = board.next_job(busy);
    let ghost a3 = board.spec_activity();
    proof {
        reveal_strlit("finished");
        lemma_pushed_compose(a0, a1, a2, f, 1);
        if started is Some {
            lemma_pushed_compose(a0, a2, a3, f + 1, 1);
            assert(a3[1] == a2[0]);
            if nf > 0 {
                assert(a3[2] == a2[1]);
                assert(a2[1] == a1[0]);
            }
        } else {
            assert(a3 == a2);
            lemma_pushed_none(a2);
            lemma_pushed_compose(a0, a2, a3, f + 1, 0);
            if nf > 0 {
                assert(a2[1] == a1[0]);
            }
        }
    }
    started
}

/// Applies one report of a background task to the window's state, and
/// returns the work that the window starts next, in order.
pub fn apply_event(state: &mut WindowState, event: AppEvent) -> (follow: Vec<FollowUp>)
    requires
        old(state).board.wf(),
        event matches AppEvent::LingqLoggedIn(Err(_)) ==> old(state).login_failures < u32::MAX,
    ensures
        final(state).board.wf(),
        match event {
            AppEvent::BrowseLoaded(Ok(result)) => {
                &&& final(state).browse_report matches Some(t) && t@ == sources_text(result.report)
                &&& final(state).status@ == browse_loaded_text(result.articles@.len())
                &&& *final(state) == (WindowState {
                    browse_articles: result.articles,
                    browse_report: final(state).browse_report,
                    status: final(state).status,
                    ..*old(state)
                })
                &&& follow@.len() == 0
            },
            AppEvent::SearchLoaded(Ok(articles)) => {
                let label = date_range_text(
                    input_date(old(state).date_from@),
                    input_date(old(state).date_to@),
                );
                &&& final(state).browse_report matches Some(t) && t@ == search_report_text(
                    old(state).search_query@,
                    label,
                )
                &&& final(state).status@ == search_status_text(
                    articles@.len(),
                    old(state).search_query@,
                    label,
                )
                &&& *final(state) == (WindowState {
                    browse_articles: articles,
                    browse_report: final(state).browse_report,
                    status: final(state).status,
                    ..*old(state)
                })
                &&& follow@.len() == 0
            },
            AppEvent::SearchLoaded(Err(err)) => {
                &&& final(state).status@ == "Search failed: "@ + err@
                &&& *final(state) == (WindowState { status: final(state).status, ..*old(state) })
                &&& follow@.len() == 0
            },
            AppEvent::SavedUrlsLoaded(Ok(urls)) => {
                &&& *final(state) == (WindowState { browse_saved_urls: urls, ..*old(state) })
                &&& follow@.len() == 0
            },
            AppEvent::LibraryLoaded(Ok(articles)) => {
                let first = if articles@.len() > 0 {
                    Some(articles@[0].id)
                } else {
                    None
                };
                &&& old(state).selected_article_id is None ==> {
                    &&& *final(state) == (WindowState {
                        library_articles: articles,
                        selected_article_id: first,
                        delete_confirm_id: None,
                        ..*old(state)
                    })
                    &&& follow@ == seq![FollowUp::ShowArticle(first)]
                }
                &&& old(state).selected_article_id is Some ==> {
                    &&& *final(state) == (WindowState { library_articles: articles, ..*old(state) })
                    &&& follow@.len() == 0
                }
            },
            AppEvent::StatsLoaded(Ok(stats)) => {
                &&& *final(state) == (WindowState { stats: Some(stats), ..*old(state) })
                &&& follow@.len() == 0
            },
            AppEvent::FetchProgress(p) => {
                &&& *final(state) == (WindowState { progress: Some(p), ..*old(state) })
                &&& follow@.len() == 0
            },
            AppEvent::SaveProgress(p) => {
                &&& *final(state) == (WindowState { save_progress: Some(p), ..*old(state) })
                &&& follow@.len() == 0
            },
            AppEvent::FetchFinished { message, failed } => {
                let busy = old(state).save_progress is Some;
                &&& final(state).status@ == message@ + failure_suffix(failed@)
                &&& job_finished_board(
                    old(state).board,
                    final(state).board,
                    failed@,
                    "Fetch job finished"@,
                    message@,
                    busy,
                )
                &&& *final(state) == (WindowState {
                    job_running: false,
                    progress: None,
                    status: final(state).status,
                    board: final(state).board,
                    ..*old(state)
                })
                &&& follow@ == seq![
                    FollowUp::ResetCancel,
                    FollowUp::RefreshSavedUrls,
                    FollowUp::RefreshStats,
                    FollowUp::LoadLibrary,
                    FollowUp::LoadBrowse,
                ] + start_follow_up(next_started(old(state).board.spec_queue(), busy))
            },
            AppEvent::SaveFinished { message, failed } => {
                let busy = old(state).progress is Some;
                &&& final(state).status@ == message@ + failure_suffix(failed@)
                &&& job_finished_board(
                    old(state).board,
                    final(state).board,
                    failed@,
                    "Save job finished"@,
                    message@,
                    busy,
                )
                &&& final(state).browse_selected@.len() == 0
                &&& *final(state) == (WindowState {
                    job_running: false,
                    save_progress: None,
                    browse_selected: final(state).browse_selected,
                    status: final(state).status,
                    board: final(state).board,
                    ..*old(state)
                })
                &&& follow@ == seq![
                    FollowUp::ResetCancel,
                    FollowUp::RefreshSavedUrls,
                    FollowUp::RefreshStats,
                    FollowUp::LoadLibrary,
                ] + start_follow_up(next_started(old(state).board.spec_queue(), busy))
            },
            AppEvent::CollectionsLoaded(Ok(collections)) => {
                let chosen = match old(state).selected_collection {
                    Some(id) => Some(id),
                    None => if collections@.len() > 0 {
                        Some(collections@[0].id)
                    } else {
                        None
                    },
                };
                &&& final(state).status@ == "LingQ courses refreshed."@
                &&& *final(state) == (WindowState {
                    collections: collections,
                    selected_collection: chosen,
                    status: final(state).status,
                    ..*old(state)
                })
                &&& follow@.len() == 0
            },
            AppEvent::LingqLoggedIn(Ok(token)) => {
                &&& final(state).status@ == "LingQ login succeeded."@
                &&& final(state).password@.len() == 0
                &&& *final(state) == (WindowState {
                    api_key: token,
                    login_failures: 0,
                    password: final(state).password,
                    status: final(state).status,
                    ..*old(state)
                })
                &&& follow@ == seq![
                    FollowUp::ClearCooldown,
                    FollowUp::SaveSettings,
                    FollowUp::LoadCollections,
                ]
            },
            AppEvent::LingqLoggedIn(Err(err)) => {
                let failures = old(state).login_failures + 1;
                &&& final(state).status@ == login_failed_text(failures as nat, err@)
                &&& final(state).password@.len() == 0
                &&& *final(state) == (WindowState {
                    login_failures: failures as u32,
                    password: final(state).password,
                    status: final(state).status,
                    ..*old(state)
                })
                &&& follow@ == match login_cooldown(failures as nat) {
                    Some(secs) => seq![FollowUp::StartCooldown(secs)],
                    None => Seq::empty(),
                }
            },
            AppEvent::UploadFinished { uploaded, skipped_already, failed, cancelled } => {
                let busy = old(state).save_progress is Some;
                &&& final(state).status@ == upload_finished_text(
                    uploaded as nat,
                    skipped_already as nat,
                    failed@,
                    cancelled,
                )
                &&& job_finished_board(
                    old(state).board,
                    final(state).board,
                    failed@,
                    "LingQ upload finished"@,
                    upload_detail_text(uploaded as nat, failed@.len()),
                    busy,
                )
                &&& *final(state) == (WindowState {
                    job_running: false,
                    progress: None,
                    selected_articles: final(state).selected_articles,
                    status: final(state).status,
                    board: final(state).board,
                    ..*old(state)
                })
                &&& final(state).selected_articles@ == Set::<i64>::empty()
                &&& follow@ == seq![
                    FollowUp::ResetCancel,
                    FollowUp::RefreshStats,
                    FollowUp::LoadLibrary,
                ] + start_follow_up(next_started(old(state).board.spec_queue(), busy))
            },
            AppEvent::BrowseLoaded(Err(err)) | AppEvent::SavedUrlsLoaded(Err(err))
            | AppEvent::LibraryLoaded(Err(err)) | AppEvent::StatsLoaded(Err(err))
            | AppEvent::CollectionsLoaded(Err(err)) => {
                &&& final(state).status@ == err@
                &&& *final(state) == (WindowState { status: final(state).status, ..*old(state) })
                &&& follow@.len() == 0
            },
        },
{
    let mut follow: Vec<FollowUp> = Vec::new();
    match event {
        AppEvent::BrowseLoaded(Ok(result)) => {
            let count = result.articles.len();
            state.browse_report = Some(sources_report(&result.report));
            state.browse_articles = result.articles;
            state.status = browse_loaded_status(count);
        },
        AppEvent::SearchLoaded(Ok(articles)) => {
            let count = articles.len();
            let from = match parse_date_input(state.date_from.as_str()) {
                Ok(d) => d,
                Err(_) => None,
            };
            let to = match parse_date_input(state.date_to.as_str()) {
                Ok(d) => d,
                Err(_) => None,
            };
            let label = search_date_label(from, to);
            state.browse_articles = articles;
            state.browse_report = Some(search_report(state.search_query.as_str(), label.as_str()));
            state.status = search_status(count, state.search_query.as_str(), label.as_str());
        },
        AppEvent::SearchLoaded(Err(err)) => {
            state.status = concat("Search failed: ", err.as_str());
        },
        AppEvent::SavedUrlsLoaded(Ok(urls)) => {
            state.browse_saved_urls = urls;
        },
        AppEvent::LibraryLoaded(Ok(articles)) => {
            if state.selected_article_id.is_none() {
                let first = if articles.len() > 0 {
                    Some(articles[0].id)
                } else {
                    None
                };
                state.library_articles = articles;
                state.selected_article_id = first;
                state.delete_confirm_id = None;
                follow.push(FollowUp::ShowArticle(first));
            } else {
                state.library_articles = articles;
            }
        },
        AppEvent::StatsLoaded(Ok(stats)) => {
            state.stats = Some(stats);
        },
        AppEvent::FetchProgress(p) => {
            state.progress = Some(p);
        },
        AppEvent::SaveProgress(p) => {
            state.save_progress = Some(p);
        },
        AppEvent::FetchFinished { message, failed } => {
            state.job_running = false;
            state.progress = None;
            state.status = job_finished_status(message.as_str(), failed.as_slice());
            let busy = state.save_progress.is_some();
            let started = finish_job(
                &mut state.board,
                failed,
                "Fetch job finished".to_owned(),
                message,
                busy,
            );
            follow.push(FollowUp::ResetCancel);
            follow.push(FollowUp::RefreshSavedUrls);
            follow.push(FollowUp::RefreshStats);
            follow.push(FollowUp::LoadLibrary);
            follow.push(FollowUp::LoadBrowse);
            if let Some(job) = started {
                follow.push(FollowUp::StartJob(job));
            }
        },
        AppEvent::SaveFinished { message, failed } => {
            state.job_running = false;
            state.save_progress = None;
            state.status = job_finished_status(message.as_str(), failed.as_slice());
            let busy = state.progress.is_some();
            let started = finish_job(
                &mut state.board,
                failed,
                "Save job finished".to_owned(),
                message,
                busy,
            );
            state.browse_selected = Vec::new();
            follow.push(FollowUp::ResetCancel);
            follow.push(FollowUp::RefreshSavedUrls);
            follow.push(FollowUp::RefreshStats);
            follow.push(FollowUp::LoadLibrary);
            if let Some(job) = started {
                follow.push(FollowUp::StartJob(job));
            }
        },
        AppEvent::CollectionsLoaded(Ok(collections)) => {
            state.selected_collection = default_collection(
                collections.as_slice(),
                state.selected_collection,
            );
            state.collections = collections;
            state.status = "LingQ courses refreshed.".to_owned();
        },
        AppEvent::LingqLoggedIn(Ok(token)) => {
            state.api_key = token;
            state.login_failures = 0;
            state.password = String::new();
            state.status = "LingQ login succeeded.".to_owned();
            follow.push(FollowUp::ClearCooldown);
            follow.push(FollowUp::SaveSettings);
            follow.push(FollowUp::LoadCollections);
        },
        AppEvent::LingqLoggedIn(Err(err)) => {
            state.password = String::new();
            let outcome = login_failed(state.login_failures, err.as_str());
            state.login_failures = outcome.failures;
            state.status = outcome.status;
            if let Some(secs) = outcome.cooldown_secs {
                follow.push(FollowUp::StartCooldown(secs));
            }
        },
        AppEvent::UploadFinished { uploaded, skipped_already, failed, cancelled } => {
            state.job_running = false;
            state.progress = None;
            state.status = upload_finished_status(
                uploaded,
                skipped_already,
                failed.as_slice(),
                cancelled,
            );
            let detail = upload_finished_detail(uploaded, failed.len());
            let busy = state.save_progress.is_some();
            let started = finish_job(
                &mut state.board,
                failed,
                "LingQ upload finished".to_owned(),
                detail,
                busy,
            );
            state.selected_articles.clear();
            follow.push(FollowUp::ResetCancel);
            follow.push(FollowUp::RefreshStats);
            follow.push(FollowUp::LoadLibrary);
            if let Some(job) = started {
                follow.push(FollowUp::StartJob(job));
            }
        },
        AppEvent::BrowseLoaded(Err(err)) | AppEvent::SavedUrlsLoaded(Err(err))
        | AppEvent::LibraryLoaded(Err(err)) | AppEvent::StatsLoaded(Err(err))
        | AppEvent::CollectionsLoaded(Err(err)) => {
            state.status = err;
        },
    }
    proof {
        reveal_strlit("Search failed: ");
        reveal_strlit("LingQ courses refreshed.");
        reveal_strlit("LingQ login succeeded.");
    }
    follow
}

} // verus!
