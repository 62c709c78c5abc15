//! Background jobs: what they are called, what failed, and the short labels
//! that the window shows for them.

use vstd::prelude::*;
use crate::dates::{iso_text, CalendarDate};
use crate::numbers::{decimal, i64_to_text, signed_decimal, usize_to_text};
use crate::text::{
    byte_prefix, chars_of, concat, concat3, is_ascii_alnum, join, string_of, take_bytes, trim,
    trim_ws, utf8_len,
};

verus! {

/// What retrying a failed item does.
#[derive(Clone, Debug)]
pub enum RetryAction {
    SaveUrl(String),
    UploadArticle(i64),
}

/// An item that a background job could not handle.
#[derive(Clone, Debug)]
pub struct JobFailure {
    pub label: String,
    pub detail: String,
    pub retry: Option<RetryAction>,
}

/// How a failure is described: its label, and its detail after a colon when
/// there is one.
pub open spec fn failure_text(f: JobFailure) -> Seq<char> {
    if f.detail@.len() == 0 {
        f.label@
    } else {
        f.label@ + ": "@ + f.detail@
    }
}

/// The status suffix for a job's failures: empty when nothing failed, else
/// the count, the first three failures and how many more there were.
pub open spec fn failure_suffix(fs: Seq<JobFailure>) -> Seq<char> {
    if fs.len() == 0 {
        Seq::empty()
    } else {
        let shown = fs.take(if fs.len() < 3 { fs.len() as int } else { 3 });
        let more = if fs.len() > 3 {
            " (+"@ + decimal((fs.len() - 3) as nat) + " more)"@
        } else {
            Seq::empty()
        };
        " "@ + decimal(fs.len()) + " failed: "@ + join(
            shown.map_values(|f: JobFailure| failure_text(f)),
            "; "@,
        ) + more
    }
}

/// Describes one failure.
fn describe_failure(f: &JobFailure) -> (r: String)
    ensures
        r@ == failure_text(*f),
{
    if f.detail.as_str().is_empty() {
        f.label.clone()
    } else {
        concat3(f.label.as_str(), ": ", f.detail.as_str())
    }
}

/// The status suffix that reports a job's failures (empty when none failed).
pub fn format_failure_suffix(failed: &[JobFailure]) -> (r: String)
    ensures
        r@ == failure_suffix(failed@),
        (r@.len() == 0) == (failed@.len() == 0),
{
    if failed.len() == 0 {
        return String::new();
    }
    let n = if failed.len() < 3 {
        failed.len()
    } else {
        3
    };
    let ghost shown = failed@.take(n as int).map_values(|f: JobFailure| failure_text(f));
    let mut parts: Vec<String> = Vec::new();
    let mut i: usize = 0;
    while i < n
        invariant
            i <= n <= failed@.len(),
            shown == failed@.take(n as int).map_values(|f: JobFailure| failure_text(f)),
            parts@.map_values(|s: String| s@) == shown.take(i as int),
        decreases n - i,
    {
        let d = describe_failure(&failed[i]);
        let ghost prev = parts@.map_values(|s: String| s@);
        parts.push(d);
        assert(parts@.map_values(|s: String| s@) =~= prev.push(d@));
        assert(shown.take(i + 1) =~= shown.take(i as int).push(shown[i as int]));
        i = i + 1;
    }
    assert(shown.take(n as int) =~= shown);
    let sep = chars_of("; ");
    let details = crate::text::join_strings(&parts, sep.as_slice());
    let more = if failed.len() > 3 {
        concat3(" (+", usize_to_text(failed.len() - 3).as_str(), " more)")
    } else {
        String::new()
    };
    let head = concat3(" ", usize_to_text(failed.len()).as_str(), " failed: ");
    let r = concat3(head.as_str(), details.as_str(), more.as_str());
    proof {
        reveal_strlit(" ");
    }
    r
}

/// A background job waiting in the queue.
#[derive(Clone, Debug)]
pub enum QueuedJob {
    SaveUrls { urls: Vec<String>, label: String },
    BulkFetch {
        section_ids: Vec<String>,
        imported_urls: Vec<String>,
        max_articles: usize,
        per_section_cap: usize,
        stop_after_old: usize,
        date_from: CalendarDate,
        date_to: CalendarDate,
    },
    UploadArticles { ids: Vec<i64>, api_key: String, language: String, collection_id: Option<i64> },
    SyncLingqCourse { api_key: String, language: String, collection_id: i64 },
}

/// The label of a queued job.
pub open spec fn job_label(job: QueuedJob) -> Seq<char> {
    match job {
        QueuedJob::SaveUrls { urls, label } => label@ + " ("@ + decimal(urls@.len()) + ")"@,
        QueuedJob::BulkFetch { section_ids, max_articles, .. } => "Bulk fetch from "@ + decimal(
            section_ids@.len(),
        ) + " section(s), max "@ + decimal(max_articles as nat),
        QueuedJob::UploadArticles { ids, .. } => "Upload "@ + decimal(ids@.len())
            + " article(s)"@,
        QueuedJob::SyncLingqCourse { collection_id, .. } => "Sync LingQ status for course #"@
            + signed_decimal(collection_id as int),
    }
}

impl QueuedJob {
    /// The label shown for the job in the activity list and the status line.
    pub fn label(&self) -> (r: String)
        ensures
            r@ == job_label(*self),
    {
        match self {
            QueuedJob::SaveUrls { urls, label } => concat3(
                label.as_str(),
                concat(" (", usize_to_text(urls.len()).as_str()).as_str(),
                ")",
            ),
            QueuedJob::BulkFetch { section_ids, max_articles, .. } => concat3(
                concat("Bulk fetch from ", usize_to_text(section_ids.len()).as_str()).as_str(),
                " section(s), max ",
                usize_to_text(*max_articles).as_str(),
            ),
            QueuedJob::UploadArticles { ids, .. } => concat3(
                "Upload ",
                usize_to_text(ids.len()).as_str(),
                " article(s)",
            ),
            QueuedJob::SyncLingqCourse { collection_id, .. } => concat(
                "Sync LingQ status for course #",
                i64_to_text(*collection_id).as_str(),
            ),
        }
    }
}

/// The date range of a search, as appended to status messages.
pub open spec fn date_range_text(from: Option<CalendarDate>, to: Option<CalendarDate>) -> Seq<char> {
    match (from, to) {
        (Some(f), Some(t)) => " from "@ + iso_text(f) + " to "@ + iso_text(t),
        (Some(f), None) => " from "@ + iso_text(f),
        (None, Some(t)) => " through "@ + iso_text(t),
        (None, None) => Seq::empty(),
    }
}

/// Describes the date range of a search for status messages.
pub fn search_date_label(date_from: Option<CalendarDate>, date_to: Option<CalendarDate>) -> (r:
    String)
    ensures
        r@ == date_range_text(date_from, date_to),
{
    match (date_from, date_to) {
        (Some(from), Some(to)) => concat(
            concat(" from ", from.to_iso_string().as_str()).as_str(),
            concat(" to ", to.to_iso_string().as_str()).as_str(),
        ),
        (Some(from), None) => concat(" from ", from.to_iso_string().as_str()),
        (None, Some(to)) => concat(" through ", to.to_iso_string().as_str()),
        (None, None) => String::new(),
    }
}

/// A URL without a leading `https://` or else `http://`.
pub open spec fn without_scheme(url: Seq<char>) -> Seq<char> {
    if url.len() >= 8 && url.take(8) == "https://"@ {
        url.skip(8)
    } else if url.len() >= 7 && url.take(7) == "http://"@ {
        url.skip(7)
    } else {
        url
    }
}

/// A short label for a URL: without its scheme, cut to 54 bytes and marked
/// with `...` when it is longer.
pub open spec fn url_label(url: Seq<char>) -> Seq<char> {
    let s = without_scheme(url);
    if utf8_len(s) > 54 {
        s.take(byte_prefix(s, 54)->0) + "..."@
    } else {
        s
    }
}

/// A short label for a URL in progress messages. A URL longer than 54 bytes
/// after its scheme must have a character boundary at byte 54.
pub fn compact_url_label(url: &str) -> (r: String)
    requires
        utf8_len(without_scheme(url@)) > 54 ==> byte_prefix(without_scheme(url@), 54) is Some,
    ensures
        r@ == url_label(url@),
{
    let chars = chars_of(url);
    let https = chars_of("https://");
    let http = chars_of("http://");
    proof {
        reveal_strlit("https://");
        reveal_strlit("http://");
    }
    let rest = if crate::text::matches_at_exec(chars.as_slice(), https.as_slice(), 0) {
        assert(chars@.subrange(0, 8) =~= chars@.take(8));
        crate::text::slice_range(chars.as_slice(), 8, chars.len())
    } else if crate::text::matches_at_exec(chars.as_slice(), http.as_slice(), 0) {
        assert(chars@.subrange(0, 7) =~= chars@.take(7));
        assert(!(chars@.len() >= 8 && chars@.take(8) == "https://"@)) by {
            if chars@.len() >= 8 && chars@.take(8) == "https://"@ {
                assert(chars@.subrange(0, 8) =~= chars@.take(8));
            }
        }
        crate::text::slice_range(chars.as_slice(), 7, chars.len())
    } else {
        proof {
            if chars@.len() >= 8 && chars@.take(8) == "https://"@ {
                assert(chars@.subrange(0, 8) =~= chars@.take(8));
            }
            if chars@.len() >= 7 && chars@.take(7) == "http://"@ {
                assert(chars@.subrange(0, 7) =~= chars@.take(7));
            }
        }
        chars
    };
    assert(rest@ =~= without_scheme(url@));
    let prefix = take_bytes(rest.as_slice(), 54);
    proof {
        crate::text::lemma_byte_prefix(rest@, 54);
    }
    match prefix {
        Some(p) => {
            if p.len() < rest.len() {
                let mut out = p;
                out.push('.');
                out.push('.');
                out.push('.');
                proof {
                    reveal_strlit("...");
                }
                assert(out@ =~= url_label(url@));
                string_of(out.as_slice())
            } else {
                string_of(rest.as_slice())
            }
        },
        None => string_of(rest.as_slice()),
    }
}

/// An API token is plausible when, trimmed, it has at least 8 bytes and
/// consists of ASCII letters and digits.
pub open spec fn plausible_token(key: Seq<char>) -> bool {
    let t = trim(key);
    utf8_len(t) >= 8 && forall|i: int| 0 <= i < t.len() ==> is_ascii_alnum(#[trigger] t[i])
}

/// Quick plausibility check of a LingQ API token.
pub fn is_plausible_api_key(key: &str) -> (b: bool)
    ensures
        b == plausible_token(key@),
{
    let t = trim_ws(chars_of(key).as_slice());
    let mut i: usize = 0;
    while i < t.len()
        invariant
            i <= t@.len(),
            t@ == trim(key@),
            forall|k: int| 0 <= k < i ==> is_ascii_alnum(#[trigger] t@[k]),
        decreases t.len() - i,
    {
        let c = t[i];
        if !(('a' <= c && c <= 'z') || ('A' <= c && c <= 'Z') || ('0' <= c && c <= '9')) {
            return false;
        }
        i = i + 1;
    }
    proof {
        assert forall|k: int| 0 <= k < t@.len() implies (#[trigger] t@[k] as u32) <= 0x7F by {
            assert(is_ascii_alnum(t@[k]));
        }
        crate::text::lemma_ascii_utf8_len(t@);
    }
    t.len() >= 8
}

} // verus!
