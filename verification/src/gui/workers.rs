//! The bookkeeping of the background save and upload jobs: what each item's
//! outcome adds to the counts and to the failures, and the final message.

use vstd::prelude::*;
use crate::gui::jobs::{url_label, compact_url_label, without_scheme, JobFailure, RetryAction};
use crate::numbers::{decimal, signed_decimal, i64_to_text, usize_to_text};
use crate::text::{byte_prefix, concat, concat3, utf8_len};
use crate::database::StoredArticle;
use crate::lingq::UploadRequest;

verus! {

/// The failure that a save job records for a URL: labelled with the
/// fetched title when the article was fetched but not stored, else with the
/// short form of the URL; retried by saving the URL again.
pub open spec fn is_save_failure(f: JobFailure, url: Seq<char>, label: Seq<char>, detail: Seq<char>) -> bool {
    &&& f.label@ == label
    &&& f.detail@ == detail
    &&& f.retry matches Some(RetryAction::SaveUrl(u)) && u@ == url
}

/// The short form of URLs must be cut on a character boundary.
pub open spec fn labelable(url: Seq<char>) -> bool {
    utf8_len(without_scheme(url)) > 54 ==> byte_prefix(without_scheme(url), 54) is Some
}

/// What a save job has done so far.
pub struct SaveTally {
    pub saved: usize,
    pub failed: Vec<JobFailure>,
}

impl SaveTally {
    pub fn new() -> (t: Self)
        ensures
            t.saved == 0,
            t.failed@.len() == 0,
    {
        SaveTally { saved: 0, failed: Vec::new() }
    }

    /// The article at `url` was fetched and stored.
    pub fn stored(&mut self)
        requires
            old(self).saved < usize::MAX,
        ensures
            final(self).saved == old(self).saved + 1,
            final(self).failed == old(self).failed,
    {
        self.saved = self.saved + 1;
    }

    /// The article at `url` was fetched (its title is `title`) but could not
    /// be stored.
    pub fn store_failed(&mut self, url: &str, title: String, error: String)
        ensures
            final(self).saved == old(self).saved,
            final(self).failed@.len() == old(self).failed@.len() + 1,
            final(self).failed@.take(old(self).failed@.len() as int) == old(self).failed@,
            is_save_failure(final(self).failed@.last(), url@, title@, error@),
    {
        self.failed.push(
            JobFailure { label: title, detail: error, retry: Some(RetryAction::SaveUrl(url.to_owned())) },
        );
        assert(self.failed@.take(self.failed@.len() - 1) =~= old(self).failed@);
    }

    /// The article at `url` could not be fetched.
    pub fn fetch_failed(&mut self, url: &str, error: String)
        requires
            labelable(url@),
        ensures
            final(self).saved == old(self).saved,
            final(self).failed@.len() == old(self).failed@.len() + 1,
            final(self).failed@.take(old(self).failed@.len() as int) == old(self).failed@,
            is_save_failure(final(self).failed@.last(), url@, url_label(url@), error@),
    {
        let label = compact_url_label(url);
        self.failed.push(
            JobFailure { label, detail: error, retry: Some(RetryAction::SaveUrl(url.to_owned())) },
        );
        assert(self.failed@.take(self.failed@.len() - 1) =~= old(self).failed@);
    }

    /// The job ran out of time; it stops here.
    pub fn timed_out(&mut self)
        ensures
            final(self).saved == old(self).saved,
            final(self).failed@.len() == old(self).failed@.len() + 1,
            final(self).failed@.take(old(self).failed@.len() as int) == old(self).failed@,
            final(self).failed@.last().label@ == "Save batch"@,
            final(self).failed@.last().detail@ == "Operation timed out (10 min limit)."@,
            final(self).failed@.last().retry is None,
    {
        self.failed.push(
            JobFailure {
                label: "Save batch".to_owned(),
                detail: "Operation timed out (10 min limit).".to_owned(),
                retry: None,
            },
        );
        assert(self.failed@.take(self.failed@.len() - 1) =~= old(self).failed@);
    }

    /// The final message of the job.
    pub fn message(&self, cancelled: bool) -> (r: String)
        ensures
            r@ == if cancelled {
                "Cancelled. Saved "@ + decimal(self.saved as nat) + " article(s) before stopping."@
            } else {
                "Saved "@ + decimal(self.saved as nat) + " article(s) to the library."@
            },
    {
        if cancelled {
            concat3("Cancelled. Saved ", usize_to_text(self.saved).as_str(), " article(s) before stopping.")
        } else {
            concat3("Saved ", usize_to_text(self.saved).as_str(), " article(s) to the library.")
        }
    }
}

/// The progress label of a save attempt: the first attempt saves, the second
/// retries.
pub fn save_attempt_label(url: &str, attempt: usize) -> (r: String)
    requires
        labelable(url@),
    ensures
        r@ == if attempt == 1 {
            "Saving "@ + url_label(url@)
        } else {
            "Retry "@ + decimal(attempt as nat) + "/2: "@ + url_label(url@)
        },
{
    let short = compact_url_label(url);
    if attempt == 1 {
        concat("Saving ", short.as_str())
    } else {
        concat3("Retry ", usize_to_text(attempt).as_str(), concat("/2: ", short.as_str()).as_str())
    }
}

/// How an article goes to LingQ: as an update of the lesson it already has,
/// or as a new lesson.
pub enum UploadKind {
    Update(i64),
    Create,
}

/// Whether an article updates its lesson or creates one.
pub fn upload_kind(article: &StoredArticle) -> (k: UploadKind)
    ensures
        match article.lingq_lesson_id {
            Some(id) => k == UploadKind::Update(id),
            None => k == UploadKind::Create,
        },
{
    match article.lingq_lesson_id {
        Some(id) => UploadKind::Update(id),
        None => UploadKind::Create,
    }
}

/// What an upload job has done so far.
pub struct UploadTally {
    pub uploaded: usize,
    pub skipped_already: usize,
    pub failed: Vec<JobFailure>,
}

/// The failure that an upload job records for an article: retried by
/// uploading it again.
pub open spec fn is_upload_failure(f: JobFailure, id: i64, label: Seq<char>, detail: Seq<char>) -> bool {
    &&& f.label@ == label
    &&& f.detail@ == detail
    &&& f.retry == Some(RetryAction::UploadArticle(id))
}

impl UploadTally {
    pub fn new() -> (t: Self)
        ensures
            t.uploaded == 0,
            t.skipped_already == 0,
            t.failed@.len() == 0,
    {
        UploadTally { uploaded: 0, skipped_already: 0, failed: Vec::new() }
    }

    /// The article with `id` is not in the library.
    pub fn missing(&mut self, id: i64)
        ensures
            final(self).uploaded == old(self).uploaded,
            final(self).skipped_already == old(self).skipped_already,
            final(self).failed@.len() == old(self).failed@.len() + 1,
            final(self).failed@.take(old(self).failed@.len() as int) == old(self).failed@,
            final(self).failed@.last().label@ == "article #"@ + signed_decimal(id as int),
            final(self).failed@.last().detail@ == "not found"@,
            final(self).failed@.last().retry is None,
    {
        let label = concat("article #", i64_to_text(id).as_str());
        self.failed.push(JobFailure { label, detail: "not found".to_owned(), retry: None });
        assert(self.failed@.take(self.failed@.len() - 1) =~= old(self).failed@);
    }

    /// LingQ took the article; `marked` tells whether the library recorded
    /// it (else `error` says why not). An article that was on LingQ before
    /// counts as skipped as well.
    pub fn accepted(&mut self, article: &StoredArticle, marked: bool, error: String)
        requires
            old(self).uploaded < usize::MAX,
            old(self).skipped_already < usize::MAX,
        ensures
            final(self).skipped_already == old(self).skipped_already + if article.uploaded_to_lingq {
                1int
            } else {
                0
            },
            marked ==> final(self).uploaded == old(self).uploaded + 1 && final(self).failed
                == old(self).failed,
            !marked ==> {
                &&& final(self).uploaded == old(self).uploaded
                &&& final(self).failed@.len() == old(self).failed@.len() + 1
                &&& final(self).failed@.take(old(self).failed@.len() as int) == old(self).failed@
                &&& is_upload_failure(
                    final(self).failed@.last(),
                    article.id,
                    article.title@,
                    "uploaded but DB update failed: "@ + error@,
                )
            },
    {
        if article.uploaded_to_lingq {
            self.skipped_already = self.skipped_already + 1;
        }
        if marked {
            self.uploaded = self.uploaded + 1;
        } else {
            let detail = concat("uploaded but DB update failed: ", error.as_str());
            self.failed.push(
                JobFailure {
                    label: article.title.clone(),
                    detail,
                    retry: Some(RetryAction::UploadArticle(article.id)),
                },
            );
            assert(self.failed@.take(self.failed@.len() - 1) =~= old(self).failed@);
        }
    }

    /// LingQ refused the article.
    pub fn refused(&mut self, article: &StoredArticle, error: String)
        ensures
            final(self).uploaded == old(self).uploaded,
            final(self).skipped_already == old(self).skipped_already,
            final(self).failed@.len() == old(self).failed@.len() + 1,
            final(self).failed@.take(old(self).failed@.len() as int) == old(self).failed@,
            is_upload_failure(final(self).failed@.last(), article.id, article.title@, error@),
    {
        self.failed.push(
            JobFailure {
                label: article.title.clone(),
                detail: error,
                retry: Some(RetryAction::UploadArticle(article.id)),
            },
        );
        assert(self.failed@.take(self.failed@.len() - 1) =~= old(self).failed@);
    }

    /// The job ran out of time; it stops here.
    pub fn timed_out(&mut self)
        ensures
            final(self).uploaded == old(self).uploaded,
            final(self).skipped_already == old(self).skipped_already,
            final(self).failed@.len() == old(self).failed@.len() + 1,
            final(self).failed@.take(old(self).failed@.len() as int) == old(self).failed@,
            final(self).failed@.last().label@ == "Upload batch"@,
            final(self).failed@.last().detail@ == "Upload timed out (15 min limit)."@,
            final(self).failed@.last().retry is None,
    {
        self.failed.push(
            JobFailure {
                label: "Upload batch".to_owned(),
                detail: "Upload timed out (15 min limit).".to_owned(),
                retry: None,
            },
        );
        assert(self.failed@.take(self.failed@.len() - 1) =~= old(self).failed@);
    }
}

/// The outcome of an upload job that the library could not read: nothing
/// uploaded, one failure that cannot be retried.
pub fn upload_job_error(error: String) -> (r: UploadTally)
    ensures
        r.uploaded == 0,
        r.skipped_already == 0,
        r.failed@.len() == 1,
        r.failed@[0].label@ == "Upload"@,
        r.failed@[0].detail@ == error@,
        r.failed@[0].retry is None,
{
    let mut failed: Vec<JobFailure> = Vec::new();
    failed.push(JobFailure { label: "Upload".to_owned(), detail: error, retry: None });
    UploadTally { uploaded: 0, skipped_already: 0, failed }
}

/// The progress label while an article uploads.
pub fn uploading_label(title: &str) -> (r: String)
    ensures
        r@ == "Uploading "@ + title@,
{
    concat("Uploading ", title)
}


/// The upload request for a saved article: its title, its clean text and its
/// address as the source, with the token, language and course given.
pub fn upload_request(
    article: &StoredArticle,
    api_key: &str,
    language: &str,
    collection: Option<i64>,
) -> (r: UploadRequest)
    ensures
        r.api_key@ == api_key@,
        r.language_code@ == language@,
        r.collection_id == collection,
        r.title@ == article.title@,
        r.text@ == article.clean_text@,
        r.original_url matches Some(u) && u@ == article.url@,
{
    UploadRequest {
        api_key: api_key.to_owned(),
        language_code: language.to_owned(),
        collection_id: collection,
        title: article.title.clone(),
        text: article.clean_text.clone(),
        original_url: Some(article.url.clone()),
    }
}

} // verus!
