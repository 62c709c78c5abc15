//! The texts that the window shows: summaries, progress, and the status
//! messages that finished jobs and LingQ answers leave behind.

use vstd::prelude::*;
use crate::database::StoredArticle;
use crate::gui::jobs::{
    failure_suffix, format_failure_suffix, is_plausible_api_key, plausible_token, JobFailure,
};
use crate::lingq::Collection;
use crate::numbers::{decimal, i64_to_text, signed_decimal, u64_to_text, usize_to_text};
use crate::taz::models::DiscoveryReport;
use crate::text::{concat, concat3, trim, trim_str};

verus! {

/// The label of the job queue: empty when no job waits.
pub fn queue_label(waiting: usize) -> (r: String)
    ensures
        r@ == if waiting == 0 {
            Seq::empty()
        } else {
            decimal(waiting as nat) + " queued job(s)"@
        },
{
    if waiting == 0 {
        String::new()
    } else {
        concat(usize_to_text(waiting).as_str(), " queued job(s)")
    }
}

/// The summary line of the library list.
pub open spec fn library_summary_text(shown: nat, uploadable: nat, any_selected: bool) -> Seq<char> {
    "Showing "@ + decimal(shown) + " saved article(s) after filters."@ + if uploadable > 0 {
        " "@ + decimal(uploadable) + " selected for upload."@
    } else if any_selected {
        " Selection hidden by upload filters."@
    } else {
        Seq::empty()
    }
}

/// Summarises the library list: how many articles it shows, and how many of
/// the selected ones would be uploaded.
pub fn library_summary(shown: usize, uploadable: usize, any_selected: bool) -> (r: String)
    ensures
        r@ == library_summary_text(shown as nat, uploadable as nat, any_selected),
{
    let head = concat3("Showing ", usize_to_text(shown).as_str(), " saved article(s) after filters.");
    let tail = if uploadable > 0 {
        concat3(" ", usize_to_text(uploadable).as_str(), " selected for upload.")
    } else if any_selected {
        " Selection hidden by upload filters.".to_owned()
    } else {
        String::new()
    };
    concat(head.as_str(), tail.as_str())
}

/// The line under the preview title.
pub open spec fn preview_meta_text(a: StoredArticle) -> Seq<char> {
    a.section@ + " | "@ + signed_decimal(a.word_count as int) + " words | "@ + a.date@ + " | "@ + (
    if a.uploaded_to_lingq {
        "On LingQ"@
    } else {
        "Not on LingQ"@
    }) + if a.paywalled {
        " | Paywalled"@
    } else {
        Seq::empty()
    }
}

/// Describes the previewed article: section, words, date, LingQ status and
/// whether it is paywalled.
pub fn preview_meta(a: &StoredArticle) -> (r: String)
    ensures
        r@ == preview_meta_text(*a),
{
    let part1 = concat3(a.section.as_str(), " | ", i64_to_text(a.word_count).as_str());
    let part2 = concat3(part1.as_str(), " words | ", a.date.as_str());
    let status = if a.uploaded_to_lingq {
        "On LingQ"
    } else {
        "Not on LingQ"
    };
    let part3 = concat3(part2.as_str(), " | ", status);
    let pay = if a.paywalled {
        " | Paywalled"
    } else {
        ""
    };
    proof {
        reveal_strlit("");
    }
    concat(part3.as_str(), pay)
}

/// The course pick list: "No course selected", then each course with its
/// lesson count.
pub fn collection_labels(collections: &[Collection]) -> (r: Vec<String>)
    ensures
        r@.len() == collections@.len() + 1,
        r@[0]@ == "No course selected"@,
        forall|i: int|
            0 <= i < collections@.len() ==> #[trigger] r@[i + 1]@ == collections@[i].title@ + " ("@
                + signed_decimal(collections@[i].lessons_count as int) + ")"@,
{
    let mut r: Vec<String> = Vec::new();
    r.push("No course selected".to_owned());
    let mut i: usize = 0;
    while i < collections.len()
        invariant
            i <= collections@.len(),
            r@.len() == i + 1,
            r@[0]@ == "No course selected"@,
            forall|k: int|
                0 <= k < i ==> #[trigger] r@[k + 1]@ == collections@[k].title@ + " ("@
                    + signed_decimal(collections@[k].lessons_count as int) + ")"@,
        decreases collections.len() - i,
    {
        let c = &collections[i];
        let label = concat3(
            concat(c.title.as_str(), " (").as_str(),
            i64_to_text(c.lessons_count).as_str(),
            ")",
        );
        r.push(label);
        i = i + 1;
    }
    r
}

/// The position of the chosen course in the course pick list: one past its
/// place among the courses, or 0 ("No course selected") when none is chosen
/// or it is not among them.
pub fn collection_index(collections: &[Collection], selected: Option<i64>) -> (r: usize)
    ensures
        match selected {
            None => r == 0,
            Some(id) => {
                &&& r <= collections@.len()
                &&& r == 0 <==> forall|k: int| 0 <= k < collections@.len() ==> #[trigger] collections@[k].id != id
                &&& r > 0 ==> collections@[r - 1].id == id && forall|k: int|
                    0 <= k < r - 1 ==> #[trigger] collections@[k].id != id
            },
        },
{
    match selected {
        None => 0,
        Some(id) => {
            let mut i: usize = 0;
            while i < collections.len()
                invariant
                    i <= collections@.len(),
                    selected == Some(id),
                    forall|k: int| 0 <= k < i ==> #[trigger] collections@[k].id != id,
                decreases collections.len() - i,
            {
                if collections[i].id == id {
                    return i + 1;
                }
                i = i + 1;
            }
            0
        },
    }
}

/// The course chosen at `index` in the course pick list: none at index 0 (or
/// below), else the course one before it, if there is one.
pub fn collection_at_index(collections: &[Collection], index: i32) -> (r: Option<i64>)
    ensures
        r == if index <= 0 || index > collections@.len() {
            None
        } else {
            Some(collections@[index - 1].id)
        },
{
    if index <= 0 {
        return None;
    }
    let i = index as usize;
    if i > collections.len() {
        None
    } else {
        Some(collections[i - 1].id)
    }
}

/// The course chosen after the courses were loaded: the one chosen before,
/// else the first course, if any.
pub fn default_collection(collections: &[Collection], selected: Option<i64>) -> (r: Option<i64>)
    ensures
        r == match selected {
            Some(id) => Some(id),
            None => if collections@.len() > 0 {
                Some(collections@[0].id)
            } else {
                None
            },
        },
{
    match selected {
        Some(id) => Some(id),
        None => if collections.len() > 0 {
            Some(collections[0].id)
        } else {
            None
        },
    }
}

/// The progress label of a running job.
pub fn progress_label(label: &str, completed: usize, total: usize, elapsed_secs: u64) -> (r: String)
    ensures
        r@ == label@ + " ("@ + decimal(completed as nat) + " / "@ + decimal(total as nat) + ", "@
            + decimal(elapsed_secs as nat) + "s)"@,
{
    let a = concat3(label, " (", usize_to_text(completed).as_str());
    let b = concat3(a.as_str(), " / ", usize_to_text(total).as_str());
    concat3(concat(b.as_str(), ", ").as_str(), u64_to_text(elapsed_secs).as_str(), "s)")
}

/// The report of where the browse candidates came from.
pub open spec fn sources_text(report: DiscoveryReport) -> Seq<char> {
    "Sources: "@ + decimal(report.section_articles as nat) + " section / "@ + decimal(
        report.subsection_articles as nat,
    ) + " subsection / "@ + decimal(report.topic_articles as nat) + " topic, "@ + decimal(
        report.deduped_articles as nat,
    ) + " deduped."@
}

/// Where the browse candidates came from.
pub fn sources_report(report: &DiscoveryReport) -> (r: String)
    ensures
        r@ == sources_text(*report),
{
    let a = concat3("Sources: ", usize_to_text(report.section_articles).as_str(), " section / ");
    let b = concat3(a.as_str(), usize_to_text(report.subsection_articles).as_str(), " subsection / ");
    let c = concat3(b.as_str(), usize_to_text(report.topic_articles).as_str(), " topic, ");
    concat3(c.as_str(), usize_to_text(report.deduped_articles).as_str(), " deduped.")
}

/// The summary line of the browse list.
pub fn browse_summary(
    shown: usize,
    section_label: &str,
    selected: usize,
    limit: usize,
    report: &Option<String>,
) -> (r: String)
    ensures
        r@ == "Showing "@ + decimal(shown as nat) + " article(s) from "@ + section_label@ + ". "@
            + decimal(selected as nat) + " selected. Limit "@ + decimal(limit as nat) + "."@
            + match report {
            Some(t) => " "@ + t@,
            None => Seq::empty(),
        },
{
    let a = concat3("Showing ", usize_to_text(shown).as_str(), " article(s) from ");
    let b = concat3(a.as_str(), section_label, ". ");
    let c = concat3(b.as_str(), usize_to_text(selected).as_str(), " selected. Limit ");
    let d = concat3(c.as_str(), usize_to_text(limit).as_str(), ".");
    match report {
        Some(t) => concat3(d.as_str(), " ", t.as_str()),
        None => d,
    }
}

/// The status text after `count` browse candidates arrived.
pub open spec fn browse_loaded_text(count: nat) -> Seq<char> {
    "Loaded "@ + decimal(count) + " article candidates from taz."@
}

/// The status after the browse candidates arrived.
pub fn browse_loaded_status(count: usize) -> (r: String)
    ensures
        r@ == browse_loaded_text(count as nat),
{
    concat3("Loaded ", usize_to_text(count).as_str(), " article candidates from taz.")
}

/// The browse report text after a search.
pub open spec fn search_report_text(query: Seq<char>, date_label: Seq<char>) -> Seq<char> {
    "Search results for \""@ + query + "\""@ + date_label + "."@
}

/// The browse report after a search.
pub fn search_report(query: &str, date_label: &str) -> (r: String)
    ensures
        r@ == search_report_text(query@, date_label@),
{
    concat3(concat3("Search results for \"", query, "\"").as_str(), date_label, ".")
}

/// The status text after a search found `count` articles.
pub open spec fn search_status_text(count: nat, query: Seq<char>, date_label: Seq<char>) -> Seq<
    char,
> {
    "Found "@ + decimal(count) + " articles for \""@ + query + "\""@ + date_label + "."@
}

/// The status after a search.
pub fn search_status(count: usize, query: &str, date_label: &str) -> (r: String)
    ensures
        r@ == search_status_text(count as nat, query@, date_label@),
{
    let a = concat3("Found ", usize_to_text(count).as_str(), " articles for \"");
    concat3(concat3(a.as_str(), query, "\"").as_str(), date_label, ".")
}

/// The status after a fetch or save job: its message and its failures.
pub fn job_finished_status(message: &str, failed: &[JobFailure]) -> (r: String)
    ensures
        r@ == message@ + failure_suffix(failed@),
{
    concat(message, format_failure_suffix(failed).as_str())
}

/// The status after an upload job.
pub open spec fn upload_finished_text(
    uploaded: nat,
    skipped_already: nat,
    failed: Seq<JobFailure>,
    cancelled: bool,
) -> Seq<char> {
    (if cancelled {
        "Cancelled. "@
    } else {
        Seq::empty()
    }) + "Uploaded "@ + decimal(uploaded) + " article(s) to LingQ."@ + (if skipped_already > 0 {
        " Skipped "@ + decimal(skipped_already) + " already uploaded."@
    } else {
        Seq::empty()
    }) + failure_suffix(failed)
}

/// Reports a finished upload: how many were uploaded and skipped, and the
/// failures.
pub fn upload_finished_status(
    uploaded: usize,
    skipped_already: usize,
    failed: &[JobFailure],
    cancelled: bool,
) -> (r: String)
    ensures
        r@ == upload_finished_text(uploaded as nat, skipped_already as nat, failed@, cancelled),
{
    let prefix = if cancelled {
        "Cancelled. ".to_owned()
    } else {
        String::new()
    };
    let a = concat3(prefix.as_str(), "Uploaded ", usize_to_text(uploaded).as_str());
    let b = concat(a.as_str(), " article(s) to LingQ.");
    let skip = if skipped_already > 0 {
        concat3(" Skipped ", usize_to_text(skipped_already).as_str(), " already uploaded.")
    } else {
        String::new()
    };
    concat3(b.as_str(), skip.as_str(), format_failure_suffix(failed).as_str())
}

/// The activity detail text of a finished upload.
pub open spec fn upload_detail_text(uploaded: nat, failed: nat) -> Seq<char> {
    decimal(uploaded) + " uploaded, "@ + decimal(failed) + " failed."@
}

/// The activity detail of a finished upload.
pub fn upload_finished_detail(uploaded: usize, failed: usize) -> (r: String)
    ensures
        r@ == upload_detail_text(uploaded as nat, failed as nat),
{
    concat3(concat(usize_to_text(uploaded).as_str(), " uploaded, ").as_str(), usize_to_text(failed).as_str(), " failed.")
}

// ---------------------------------------------------------------------------
// LingQ login
// ---------------------------------------------------------------------------

/// A login needs a username and a password.
pub const LOGIN_INPUT_MISSING: &'static str = "Enter your LingQ username/email and password.";

/// Why a login cannot start: a blank username or an empty password.
pub fn login_input_problem(username: &str, password: &str) -> (r: Option<String>)
    ensures
        (trim(username@).len() == 0 || password@.len() == 0) ==> (r matches Some(m) && m@
            == LOGIN_INPUT_MISSING@),
        !(trim(username@).len() == 0 || password@.len() == 0) ==> r is None,
{
    if trim_str(username).as_str().is_empty() || password.is_empty() {
        Some(LOGIN_INPUT_MISSING.to_owned())
    } else {
        None
    }
}

/// The failed logins in a row after which a pause is imposed.
pub const LOGIN_FAILURES_BEFORE_COOLDOWN: u32 = 3;

/// What a failed login leaves behind: the count of failures in a row, the
/// pause before the next attempt (from the third failure on, 30 seconds more
/// for each further failure), and the status message.
pub struct LoginFailure {
    pub failures: u32,
    pub cooldown_secs: Option<u64>,
    pub status: String,
}

/// The status after the `failures`-th failed login in a row with `error`.
pub open spec fn login_failed_text(failures: nat, error: Seq<char>) -> Seq<char> {
    if failures >= LOGIN_FAILURES_BEFORE_COOLDOWN {
        error + " (Cooldown: "@ + decimal((30 * (failures - 2)) as nat) + "s before next attempt)"@
    } else {
        error
    }
}

/// The pause in seconds after the `failures`-th failed login in a row.
pub open spec fn login_cooldown(failures: nat) -> Option<u64> {
    if failures >= LOGIN_FAILURES_BEFORE_COOLDOWN {
        Some((30 * (failures - 2)) as u64)
    } else {
        None
    }
}

/// Notes a failed login after `failures` earlier failures in a row.
pub fn login_failed(failures: u32, error: &str) -> (r: LoginFailure)
    requires
        failures < u32::MAX,
    ensures
        r.failures == failures + 1,
        r.failures >= LOGIN_FAILURES_BEFORE_COOLDOWN ==> {
            &&& r.cooldown_secs == Some((30 * (r.failures - 2)) as u64)
            &&& r.status@ == error@ + " (Cooldown: "@ + decimal((30 * (r.failures - 2)) as nat)
                + "s before next attempt)"@
        },
        r.failures < LOGIN_FAILURES_BEFORE_COOLDOWN ==> r.cooldown_secs is None && r.status@
            == error@,
        r.status@ == login_failed_text(r.failures as nat, error@),
        r.cooldown_secs == login_cooldown(r.failures as nat),
{
    let n = failures + 1;
    if n >= LOGIN_FAILURES_BEFORE_COOLDOWN {
        let secs: u64 = 30 * (n as u64 - 2);
        let status = concat3(
            concat(error, " (Cooldown: ").as_str(),
            u64_to_text(secs).as_str(),
            "s before next attempt)",
        );
        LoginFailure { failures: n, cooldown_secs: Some(secs), status }
    } else {
        LoginFailure { failures: n, cooldown_secs: None, status: error.to_owned() }
    }
}


/// Listing courses needs a token.
pub const NO_TOKEN_FOR_COURSES: &'static str = "Save a LingQ token first.";

/// A token that cannot be right.
pub const IMPLAUSIBLE_TOKEN: &'static str = "LingQ token looks invalid — expected 8+ alphanumeric characters.";

/// Why the courses cannot be listed: no token, or one that is not plausible.
pub fn collections_request_problem(api_key: &str) -> (r: Option<String>)
    ensures
        trim(api_key@).len() == 0 ==> (r matches Some(m) && m@ == NO_TOKEN_FOR_COURSES@),
        trim(api_key@).len() > 0 && !plausible_token(api_key@) ==> (r matches Some(m) && m@
            == IMPLAUSIBLE_TOKEN@),
        trim(api_key@).len() > 0 && plausible_token(api_key@) ==> r is None,
{
    if trim_str(api_key).as_str().is_empty() {
        return Some(NO_TOKEN_FOR_COURSES.to_owned());
    }
    if !is_plausible_api_key(api_key) {
        return Some(IMPLAUSIBLE_TOKEN.to_owned());
    }
    None
}

/// Saving browse candidates needs a selection.
pub const NOTHING_SELECTED_FOR_SAVE: &'static str = "Select at least one article first.";

/// The status while a section loads.
pub fn loading_status(section_label: &str) -> (r: String)
    ensures
        r@ == "Loading "@ + section_label@ + " from taz..."@,
{
    concat3("Loading ", section_label, " from taz...")
}

/// The status while a search runs.
pub fn searching_status(query: &str, date_label: &str) -> (r: String)
    ensures
        r@ == "Searching taz.de for \""@ + query@ + "\""@ + date_label@ + "..."@,
{
    concat3(concat3("Searching taz.de for \"", query, "\"").as_str(), date_label, "...")
}

} // verus!
