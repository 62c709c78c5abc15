//! The bookkeeping behind the window's activity list: recent events, the
//! queue of background jobs, and the items that failed and may be retried.

use vstd::prelude::*;
use std::collections::VecDeque;
use crate::gui::jobs::{job_label, JobFailure, QueuedJob, RetryAction};
use crate::numbers::{decimal, i64_to_text, signed_decimal, usize_to_text};
use crate::text::{concat, concat3, sorted_unique, strictly_sorted, texts, trim};

verus! {

/// One line of the activity list.
pub struct ActivityEntry {
    pub kind: String,
    pub message: String,
    pub detail: String,
}

/// How many activity entries are kept.
pub const ACTIVITY_LIMIT: usize = 30;

/// How many failed items are kept for retrying.
pub const FAILURE_LIMIT: usize = 100;

/// The activity list after `e` is added in front, cut to the newest
/// `ACTIVITY_LIMIT` entries.
pub open spec fn with_entry(log: Seq<ActivityEntry>, e: ActivityEntry) -> Seq<ActivityEntry> {
    let s = seq![e] + log;
    if s.len() > ACTIVITY_LIMIT {
        s.take(ACTIVITY_LIMIT as int)
    } else {
        s
    }
}

/// The entry has these texts.
pub open spec fn entry_is(e: ActivityEntry, kind: Seq<char>, message: Seq<char>, detail: Seq<char>) -> bool {
    e.kind@ == kind && e.message@ == message && e.detail@ == detail
}

/// The failed items after `added` are appended, keeping the newest
/// `FAILURE_LIMIT`.
pub open spec fn with_failures(kept: Seq<JobFailure>, added: Seq<JobFailure>) -> Seq<JobFailure> {
    let all = kept + added;
    if all.len() > FAILURE_LIMIT {
        all.skip(all.len() - FAILURE_LIMIT)
    } else {
        all
    }
}

/// What the window does after a job was queued: start the returned job now
/// (when nothing else ran), and show the status message if there is one.
pub struct Dispatch {
    pub start: Option<QueuedJob>,
    pub status: Option<String>,
}

/// Each id comes strictly before the next: sorted, with no repeats.
pub open spec fn ids_strictly_sorted(s: Seq<i64>) -> bool {
    forall|i: int, j: int| 0 <= i < j < s.len() ==> #[trigger] s[i] < #[trigger] s[j]
}

/// Sorts ids and drops repeats (`sort_unstable` then `dedup`).
pub fn sorted_unique_ids(items: Vec<i64>) -> (r: Vec<i64>)
    ensures
        ids_strictly_sorted(r@),
        forall|x: i64| r@.contains(x) <==> items@.contains(x),
        r@.len() <= items@.len(),
{
    let mut out: Vec<i64> = Vec::new();
    let mut i: usize = 0;
    while i < items.len()
        invariant
            i <= items.len(),
            out@.len() <= i,
            ids_strictly_sorted(out@),
            forall|x: i64| out@.contains(x) <==> items@.take(i as int).contains(x),
        decreases items.len() - i,
    {
        let v = items[i];
        let ghost ov = out@;
        let ghost t0 = items@.take(i as int);
        let ghost t1 = items@.take(i + 1);
        assert(t1 =~= t0.push(v));
        let mut p: usize = 0;
        while p < out.len() && out[p] < v
            invariant
                p <= out.len(),
                ov == out@,
                forall|k: int| 0 <= k < p ==> #[trigger] ov[k] < v,
            decreases out.len() - p,
        {
            p = p + 1;
        }
        if p < out.len() && out[p] == v {
            assert forall|x: i64| out@.contains(x) <==> t1.contains(x) by {
                if x == v {
                    assert(out@[p as int] == x);
                }
                if t0.contains(x) {
                    let k = choose|k: int| 0 <= k < t0.len() && t0[k] == x;
                    assert(t1[k] == x);
                }
                if t1.contains(x) && x != v {
                    let k = choose|k: int| 0 <= k < t1.len() && t1[k] == x;
                    assert(t0[k] == x);
                }
            }
        } else {
            assert(forall|x: i64| ov.contains(x) <==> t0.contains(x));
            out.insert(p, v);
            let ghost nv = out@;
            assert(nv =~= ov.insert(p as int, v));
            assert forall|x: i64| nv.contains(x) implies t1.contains(x) by {
                let k = choose|k: int| 0 <= k < nv.len() && nv[k] == x;
                if k == p {
                    assert(t1[i as int] == x);
                } else {
                    if k < p {
                        assert(ov[k] == x);
                    } else {
                        assert(ov[k - 1] == x);
                    }
                    assert(ov.contains(x));
                    let k2 = choose|k2: int| 0 <= k2 < t0.len() && t0[k2] == x;
                    assert(t1[k2] == x);
                }
            }
            assert forall|x: i64| t1.contains(x) implies nv.contains(x) by {
                let k = choose|k: int| 0 <= k < t1.len() && t1[k] == x;
                if k == i {
                    assert(nv[p as int] == x);
                } else {
                    assert(t0[k] == x);
                    assert(ov.contains(x));
                    let k2 = choose|k2: int| 0 <= k2 < ov.len() && ov[k2] == x;
                    if k2 < p {
                        assert(nv[k2] == x);
                    } else {
                        assert(nv[k2 + 1] == x);
                    }
                }
            }
        }
        i = i + 1;
    }
    assert(items@.take(items.len() as int) =~= items@);
    out
}

/// Sorting ids with repeats dropped has one answer: two strictly sorted
/// sequences that hold the same ids are equal.
pub proof fn lemma_ids_strictly_sorted_unique(a: Seq<i64>, b: Seq<i64>)
    requires
        ids_strictly_sorted(a),
        ids_strictly_sorted(b),
        forall|x: i64| a.contains(x) <==> b.contains(x),
    ensures
        a == b,
    decreases a.len(),
{
    if a.len() == 0 {
        if b.len() > 0 {
            assert(b.contains(b[0]));
        }
        assert(a =~= b);
    } else if b.len() == 0 {
        assert(a.contains(a[0]));
    } else {
        assert(a.contains(a[0]));
        assert(b.contains(b[0]));
        let j = choose|j: int| 0 <= j < b.len() && b[j] == a[0];
        let i = choose|i: int| 0 <= i < a.len() && a[i] == b[0];
        if j > 0 {
            assert(b[0] < b[j]);
            if i > 0 {
                assert(a[0] < a[i]);
            }
        }
        assert(a[0] == b[0]);
        let ra = a.drop_first();
        let rb = b.drop_first();
        assert forall|x: i64| ra.contains(x) <==> rb.contains(x) by {
            if ra.contains(x) {
                let k = choose|k: int| 0 <= k < ra.len() && ra[k] == x;
                assert(a[k + 1] == x);
                assert(a[0] < a[k + 1]);
                assert(b.contains(x));
                let m = choose|m: int| 0 <= m < b.len() && b[m] == x;
                assert(rb[m - 1] == x);
            }
            if rb.contains(x) {
                let k = choose|k: int| 0 <= k < rb.len() && rb[k] == x;
                assert(b[k + 1] == x);
                assert(b[0] < b[k + 1]);
                assert(a.contains(x));
                let m = choose|m: int| 0 <= m < a.len() && a[m] == x;
                assert(ra[m - 1] == x);
            }
        }
        assert forall|p: int, q: int| 0 <= p < q < ra.len() implies #[trigger] ra[p] < #[trigger] ra[q] by {
            assert(ra[p] == a[p + 1] && ra[q] == a[q + 1]);
        }
        assert forall|p: int, q: int| 0 <= p < q < rb.len() implies #[trigger] rb[p] < #[trigger] rb[q] by {
            assert(rb[p] == b[p + 1] && rb[q] == b[q + 1]);
        }
        lemma_ids_strictly_sorted_unique(ra, rb);
        assert(a =~= seq![a[0]] + ra);
        assert(b =~= seq![b[0]] + rb);
    }
}

/// The URLs of the failures that a save retries, in order.
pub open spec fn retry_urls(fs: Seq<JobFailure>) -> Seq<Seq<char>>
    decreases fs.len(),
{
    if fs.len() == 0 {
        Seq::empty()
    } else {
        let r = retry_urls(fs.drop_last());
        match fs.last().retry {
            Some(RetryAction::SaveUrl(u)) => r.push(u@),
            _ => r,
        }
    }
}

/// The article ids of the failures that an upload retries, in order.
pub open spec fn retry_ids(fs: Seq<JobFailure>) -> Seq<i64>
    decreases fs.len(),
{
    if fs.len() == 0 {
        Seq::empty()
    } else {
        let r = retry_ids(fs.drop_last());
        match fs.last().retry {
            Some(RetryAction::UploadArticle(id)) => r.push(id),
            _ => r,
        }
    }
}

/// The failures that cannot be retried, in order.
pub open spec fn not_retryable(fs: Seq<JobFailure>) -> Seq<JobFailure>
    decreases fs.len(),
{
    if fs.len() == 0 {
        Seq::empty()
    } else {
        let r = not_retryable(fs.drop_last());
        if fs.last().retry is None {
            r.push(fs.last())
        } else {
            r
        }
    }
}

/// Every failure is retried as a save, retried as an upload, or kept.
proof fn lemma_retry_split(fs: Seq<JobFailure>)
    ensures
        retry_urls(fs).len() + retry_ids(fs).len() + not_retryable(fs).len() == fs.len(),
    decreases fs.len(),
{
    if fs.len() > 0 {
        lemma_retry_split(fs.drop_last());
    }
}

/// The job that retries failed saves of `urls`: each URL once, in order.
pub open spec fn is_retry_save(job: QueuedJob, urls: Seq<Seq<char>>) -> bool {
    match job {
        QueuedJob::SaveUrls { urls: u, label } => {
            &&& label@ == "Retry failed saves"@
            &&& strictly_sorted(texts(u@))
            &&& forall|x: Seq<char>| texts(u@).contains(x) <==> urls.contains(x)
        },
        _ => false,
    }
}

/// The job that retries failed uploads of `ids`: each id once, in order.
pub open spec fn is_retry_upload(
    job: QueuedJob,
    ids: Seq<i64>,
    key: Seq<char>,
    language: Seq<char>,
    collection: Option<i64>,
) -> bool {
    match job {
        QueuedJob::UploadArticles { ids: v, api_key, language: l, collection_id } => {
            &&& ids_strictly_sorted(v@)
            &&& forall|x: i64| v@.contains(x) <==> ids.contains(x)
            &&& api_key@ == key
            &&& l@ == language
            &&& collection_id == collection
        },
        _ => false,
    }
}

/// The failure that stands for an upload retry that found no token.
pub open spec fn is_token_missing(f: JobFailure, id: i64) -> bool {
    &&& f.label@ == "article #"@ + signed_decimal(id as int)
    &&& f.detail@ == "LingQ token missing during retry."@
    &&& f.retry == Some(RetryAction::UploadArticle(id))
}

/// The job started now, if any, followed by the queue.
pub open spec fn started_then_queued(start: Option<QueuedJob>, queue: Seq<QueuedJob>) -> Seq<
    QueuedJob,
> {
    match start {
        Some(j) => seq![j] + queue,
        None => queue,
    }
}

/// How many items a queued job handles.
pub open spec fn job_size(job: QueuedJob) -> nat {
    match job {
        QueuedJob::SaveUrls { urls, .. } => urls@.len(),
        QueuedJob::UploadArticles { ids, .. } => ids@.len(),
        _ => 0,
    }
}

/// How many items the retry jobs at `at` (`n_save` then `n_upload` of them)
/// handle.
pub open spec fn retried_count(jobs: Seq<QueuedJob>, at: int, n_save: int, n_upload: int) -> nat {
    (if n_save == 1 { job_size(jobs[at]) } else { 0 }) + (if n_upload == 1 {
        job_size(jobs[at + n_save])
    } else {
        0
    })
}

/// `after` is `before` with `k` new entries in front, cut to the newest
/// `ACTIVITY_LIMIT`: the older entries keep their order behind the new ones.
pub open spec fn pushed_front(before: Seq<ActivityEntry>, after: Seq<ActivityEntry>, k: int) -> bool {
    &&& 0 <= k <= ACTIVITY_LIMIT
    &&& after.len() == if before.len() + k > ACTIVITY_LIMIT {
        ACTIVITY_LIMIT as int
    } else {
        before.len() + k
    }
    &&& after.skip(k) == before.take(after.len() - k)
}

/// Adding one entry pushes it in front.
proof fn lemma_with_entry_pushed(before: Seq<ActivityEntry>, e: ActivityEntry)
    requires
        before.len() <= ACTIVITY_LIMIT,
    ensures
        pushed_front(before, with_entry(before, e), 1),
        with_entry(before, e)[0] == e,
{
    let after = with_entry(before, e);
    assert(after.skip(1) =~= before.take(after.len() - 1));
}

/// Nothing added.
pub(crate) proof fn lemma_pushed_none(a: Seq<ActivityEntry>)
    requires
        a.len() <= ACTIVITY_LIMIT,
    ensures
        pushed_front(a, a, 0),
{
    assert(a.skip(0) =~= a.take(a.len() as int));
}

/// Entries pushed in two steps are pushed in one.
pub(crate) proof fn lemma_pushed_compose(
    a: Seq<ActivityEntry>,
    b: Seq<ActivityEntry>,
    c: Seq<ActivityEntry>,
    k1: int,
    k2: int,
)
    requires
        a.len() <= ACTIVITY_LIMIT,
        pushed_front(a, b, k1),
        pushed_front(b, c, k2),
        k1 + k2 <= ACTIVITY_LIMIT,
    ensures
        pushed_front(a, c, k1 + k2),
        forall|i: int| 0 <= i < k1 && k2 + i < c.len() ==> c[k2 + i] == b[i],
{
    assert forall|i: int| 0 <= i < c.len() - (k1 + k2) implies #[trigger] c.skip(k1 + k2)[i] == a.take(
        c.len() - (k1 + k2),
    )[i] by {
        assert(c.skip(k1 + k2)[i] == c.skip(k2)[k1 + i]);
        assert(c.skip(k2)[k1 + i] == b.take(c.len() - k2)[k1 + i]);
        assert(b[k1 + i] == b.skip(k1)[i]);
        assert(b.skip(k1)[i] == a.take(b.len() - k1)[i]);
    }
    assert(c.skip(k1 + k2) =~= a.take(c.len() - (k1 + k2)));
    assert forall|i: int| 0 <= i < k1 && k2 + i < c.len() implies c[k2 + i] == b[i] by {
        assert(c[k2 + i] == c.skip(k2)[i]);
    }
}

/// What a retry request did: the status to show, and the job to start now.
pub struct RetryOutcome {
    pub status: String,
    pub start: Option<QueuedJob>,
}

/// The recent activity, the queue of jobs and the failed items.
pub struct JobBoard {
    activity: VecDeque<ActivityEntry>,
    queue: VecDeque<QueuedJob>,
    failed: Vec<JobFailure>,
}

impl JobBoard {
    pub closed spec fn spec_activity(&self) -> Seq<ActivityEntry> {
        self.activity@
    }

    pub closed spec fn spec_queue(&self) -> Seq<QueuedJob> {
        self.queue@
    }

    pub closed spec fn spec_failed(&self) -> Seq<JobFailure> {
        self.failed@
    }

    /// The activity list and the failed items stay within their limits.
    pub open spec fn wf(&self) -> bool {
        &&& self.spec_activity().len() <= ACTIVITY_LIMIT
        &&& self.spec_failed().len() <= FAILURE_LIMIT
    }

    /// An empty board.
    pub fn new() -> (b: Self)
        ensures
            b.wf(),
            b.spec_activity().len() == 0,
            b.spec_queue().len() == 0,
            b.spec_failed().len() == 0,
    {
        JobBoard { activity: VecDeque::new(), queue: VecDeque::new(), failed: Vec::new() }
    }

    /// The activity entries, newest first.
    pub fn activity(&self) -> (r: &VecDeque<ActivityEntry>)
        ensures
            r@ == self.spec_activity(),
    {
        &self.activity
    }

    /// The jobs waiting, next first.
    pub fn queue(&self) -> (r: &VecDeque<QueuedJob>)
        ensures
            r@ == self.spec_queue(),
    {
        &self.queue
    }

    /// The failed items, oldest first.
    pub fn failed(&self) -> (r: &Vec<JobFailure>)
        ensures
            r@ == self.spec_failed(),
    {
        &self.failed
    }

    /// Adds an activity entry in front and drops the oldest beyond the limit.
    pub fn add_activity(&mut self, kind: String, message: String, detail: String)
        requires
            old(self).wf(),
        ensures
            final(self).wf(),
            final(self).spec_activity() == with_entry(
                old(self).spec_activity(),
                ActivityEntry { kind, message, detail },
            ),
            pushed_front(old(self).spec_activity(), final(self).spec_activity(), 1),
            final(self).spec_queue() == old(self).spec_queue(),
            final(self).spec_failed() == old(self).spec_failed(),
    {
        let ghost before = self.activity@;
        proof {
            lemma_with_entry_pushed(before, ActivityEntry { kind, message, detail });
        }
        self.activity.push_front(ActivityEntry { kind, message, detail });
        if self.activity.len() > ACTIVITY_LIMIT {
            self.activity.pop_back();
        }
        assert(self.activity@ =~= with_entry(before, ActivityEntry { kind, message, detail }));
    }

    /// Keeps a job's failures for retrying, the newest `FAILURE_LIMIT`, and
    /// notes them in the activity list. Nothing happens when none failed.
    pub fn record_failures(&mut self, failures: Vec<JobFailure>)
        requires
            old(self).wf(),
        ensures
            final(self).wf(),
            final(self).spec_queue() == old(self).spec_queue(),
            failures@.len() == 0 ==> final(self).spec_activity() == old(self).spec_activity()
                && final(self).spec_failed() == old(self).spec_failed(),
            failures@.len() > 0 ==> {
                &&& final(self).spec_failed() == with_failures(old(self).spec_failed(), failures@)
                &&& final(self).spec_activity().len() > 0
                &&& pushed_front(old(self).spec_activity(), final(self).spec_activity(), 1)
                &&& entry_is(
                    final(self).spec_activity()[0],
                    "failed"@,
                    decimal(failures@.len()) + " failed item(s)"@,
                    failures@[0].label@,
                )
            },
    {
        if failures.len() == 0 {
            return;
        }
        let count = failures.len();
        let first = failures[0].label.clone();
        let ghost before = self.failed@;
        let mut added = failures;
        self.failed.append(&mut added);
        if self.failed.len() > FAILURE_LIMIT {
            let excess = self.failed.len() - FAILURE_LIMIT;
            let rest = self.failed.split_off(excess);
            self.failed = rest;
        }
        let ghost mid = self.failed@;
        let message = concat(usize_to_text(count).as_str(), " failed item(s)");
        self.add_activity("failed".to_owned(), message, first);
        proof {
            reveal_strlit("failed");
        }
    }

    /// Queues a job and notes it. When no job runs (`busy` is false) the next
    /// job in the queue is taken out and handed back to be started; else the
    /// status says the job waits.
    pub fn enqueue(&mut self, job: QueuedJob, busy: bool) -> (d: Dispatch)
        requires
            old(self).wf(),
        ensures
            final(self).wf(),
            final(self).spec_failed() == old(self).spec_failed(),
            busy ==> {
                &&& final(self).spec_queue() == old(self).spec_queue().push(job)
                &&& d.start is None
                &&& d.status matches Some(s) && s@ == "Queued: "@ + job_label(job)
                &&& pushed_front(old(self).spec_activity(), final(self).spec_activity(), 1)
                &&& entry_is(
                    final(self).spec_activity()[0],
                    "queued"@,
                    job_label(job),
                    decimal(old(self).spec_queue().len() + 1) + " job(s) waiting."@,
                )
            },
            !busy ==> {
                let all = old(self).spec_queue().push(job);
                &&& d.start == Some(all[0])
                &&& final(self).spec_queue() == all.drop_first()
                &&& d.status is None
                &&& pushed_front(old(self).spec_activity(), final(self).spec_activity(), 2)
                &&& entry_is(
                    final(self).spec_activity()[0],
                    "started"@,
                    job_label(all[0]),
                    "Background job started."@,
                )
                &&& entry_is(
                    final(self).spec_activity()[1],
                    "queued"@,
                    job_label(job),
                    decimal(old(self).spec_queue().len() + 1) + " job(s) waiting."@,
                )
            },
    {
        let label = job.label();
        self.queue.push_back(job);
        let waiting = concat(usize_to_text(self.queue.len()).as_str(), " job(s) waiting.");
        let activity_label = label.clone();
        self.add_activity("queued".to_owned(), activity_label, waiting);
        proof {
            reveal_strlit("queued");
        }
        if busy {
            return Dispatch { start: None, status: Some(concat("Queued: ", label.as_str())) };
        }
        let ghost before = old(self).activity@;
        let ghost mid = self.activity@;
        let start = self.next_job(false);
        proof {
            lemma_pushed_compose(before, mid, self.activity@, 1, 1);
            assert(self.activity@[1int + 0int] == mid[0]);
        }
        Dispatch { start, status: None }
    }

    /// Takes the next job out of the queue to be started, when nothing runs.
    pub fn next_job(&mut self, busy: bool) -> (job: Option<QueuedJob>)
        requires
            old(self).wf(),
        ensures
            final(self).wf(),
            final(self).spec_failed() == old(self).spec_failed(),
            busy || old(self).spec_queue().len() == 0 ==> job is None && final(self).spec_queue()
                == old(self).spec_queue() && final(self).spec_activity()
                == old(self).spec_activity(),
            !busy && old(self).spec_queue().len() > 0 ==> {
                &&& job == Some(old(self).spec_queue()[0])
                &&& final(self).spec_queue() == old(self).spec_queue().drop_first()
                &&& pushed_front(old(self).spec_activity(), final(self).spec_activity(), 1)
                &&& entry_is(
                    final(self).spec_activity()[0],
                    "started"@,
                    job_label(old(self).spec_queue()[0]),
                    "Background job started."@,
                )
            },
    {
        if busy {
            return None;
        }
        match self.queue.pop_front() {
            None => None,
            Some(job) => {
                let label = job.label();
                self.add_activity(
                    "started".to_owned(),
                    label,
                    "Background job started.".to_owned(),
                );
                proof {
                    reveal_strlit("started");
                }
                Some(job)
            },
        }
    }

    /// Empties the queue when the running job is cancelled, and notes how
    /// many waiting jobs were dropped. Returns that number.
    pub fn clear_queue(&mut self) -> (cleared: usize)
        requires
            old(self).wf(),
        ensures
            final(self).wf(),
            cleared == old(self).spec_queue().len(),
            final(self).spec_queue().len() == 0,
            final(self).spec_failed() == old(self).spec_failed(),
            cleared == 0 ==> final(self).spec_activity() == old(self).spec_activity(),
            cleared > 0 ==> pushed_front(old(self).spec_activity(), final(self).spec_activity(), 1)
                && entry_is(
                final(self).spec_activity()[0],
                "cancelled"@,
                "Cleared queued work"@,
                decimal(cleared as nat) + " queued job(s) removed."@,
            ),
    {
        let cleared = self.queue.len();
        self.queue.clear();
        if cleared > 0 {
            let detail = concat(usize_to_text(cleared).as_str(), " queued job(s) removed.");
            self.add_activity("cancelled".to_owned(), "Cleared queued work".to_owned(), detail);
        }
        cleared
    }

    /// Forgets the failed items and notes how many there were.
    pub fn clear_failed(&mut self) -> (cleared: usize)
        requires
            old(self).wf(),
        ensures
            final(self).wf(),
            cleared == old(self).spec_failed().len(),
            final(self).spec_failed().len() == 0,
            final(self).spec_queue() == old(self).spec_queue(),
            pushed_front(old(self).spec_activity(), final(self).spec_activity(), 1),
            entry_is(
                final(self).spec_activity()[0],
                "cleared"@,
                "Cleared retry list"@,
                decimal(cleared as nat) + " item(s) removed."@,
            ),
    {
        let cleared = self.failed.len();
        self.failed.clear();
        let detail = concat(usize_to_text(cleared).as_str(), " item(s) removed.");
        self.add_activity("cleared".to_owned(), "Cleared retry list".to_owned(), detail);
        cleared
    }

    /// Takes the failed items apart: failed saves are queued again as one
    /// job, failed uploads as another (when a token is set; else they stay
    /// failed), and failures that cannot be retried stay in the list.
    pub fn retry_failed(
        &mut self,
        api_key: &str,
        language: String,
        collection_id: Option<i64>,
        busy: bool,
    ) -> (r: RetryOutcome)
        requires
            old(self).wf(),
        ensures
            final(self).wf(),
            old(self).spec_failed().len() == 0 ==> {
                &&& r.status@ == "There are no failed items to retry."@
                &&& r.start is None
                &&& final(self).spec_queue() == old(self).spec_queue()
                &&& final(self).spec_failed() == old(self).spec_failed()
                &&& final(self).spec_activity() == old(self).spec_activity()
            },
            old(self).spec_failed().len() > 0 ==> {
                let fs = old(self).spec_failed();
                let urls = retry_urls(fs);
                let ids = retry_ids(fs);
                let no_token = ids.len() > 0 && trim(api_key@).len() == 0;
                let n_save: int = if urls.len() > 0 { 1 } else { 0 };
                let n_upload: int = if ids.len() > 0 && !no_token { 1 } else { 0 };
                let out = started_then_queued(r.start, final(self).spec_queue());
                let q = old(self).spec_queue();
                &&& out.len() == q.len() + n_save + n_upload
                &&& out.take(q.len() as int) == q
                &&& urls.len() > 0 ==> is_retry_save(out[q.len() as int], urls)
                &&& n_upload == 1 ==> is_retry_upload(
                    out[q.len() + n_save],
                    ids,
                    api_key@,
                    language@,
                    collection_id,
                )
                &&& (r.start is Some <==> !busy && n_save + n_upload > 0)
                &&& no_token ==> {
                    &&& pushed_front(
                        old(self).spec_activity(),
                        final(self).spec_activity(),
                        n_save + if r.start is Some { 1int } else { 0 },
                    )
                    &&& r.status@ == "Open LingQ settings and save a token before retrying uploads."@
                    &&& final(self).spec_failed().len() == not_retryable(fs).len() + ids.len()
                    &&& final(self).spec_failed().take(not_retryable(fs).len() as int)
                        == not_retryable(fs)
                    &&& forall|k: int|
                        0 <= k < ids.len() ==> is_token_missing(
                            #[trigger] final(self).spec_failed()[not_retryable(fs).len() + k],
                            ids[k],
                        )
                }
                &&& !no_token ==> {
                    &&& pushed_front(
                        old(self).spec_activity(),
                        final(self).spec_activity(),
                        n_save + n_upload + (if r.start is Some { 1int } else { 0 }) + 1,
                    )
                    &&& final(self).spec_failed() == not_retryable(fs)
                    &&& r.status@ == "Queued "@ + decimal(
                        retried_count(out, q.len() as int, n_save, n_upload),
                    ) + " failed item(s) for retry."@
                    &&& final(self).spec_activity().len() > 0
                    &&& entry_is(
                        final(self).spec_activity()[0],
                        "queued"@,
                        "Retry requested"@,
                        decimal(retried_count(out, q.len() as int, n_save, n_upload))
                            + " item(s) queued."@,
                    )
                }
            },
    {
        if self.failed.len() == 0 {
            return RetryOutcome {
                status: "There are no failed items to retry.".to_owned(),
                start: None,
            };
        }
        let mut rest: Vec<JobFailure> = Vec::new();
        std::mem::swap(&mut rest, &mut self.failed);
        let ghost fs = rest@;
        let ghost q0 = self.queue@;
        let ghost a0 = self.activity@;
        let mut urls: Vec<String> = Vec::new();
        let mut ids: Vec<i64> = Vec::new();
        let mut i: usize = 0;
        while rest.len() > 0
            invariant
                i + rest@.len() == fs.len(),
                rest@ == fs.skip(i as int),
                texts(urls@) == retry_urls(fs.take(i as int)),
                ids@ == retry_ids(fs.take(i as int)),
                self.failed@ == not_retryable(fs.take(i as int)),
                not_retryable(fs.take(i as int)).len() <= i,
                self.activity@ == a0,
                a0.len() <= ACTIVITY_LIMIT,
                self.queue@ == q0,
                fs.len() <= FAILURE_LIMIT,
            decreases rest.len(),
        {
            let f = rest.remove(0);
            proof {
                assert(fs.take(i + 1).drop_last() =~= fs.take(i as int));
                assert(fs.take(i + 1).last() == f);
                assert(rest@ =~= fs.skip(i + 1));
            }
            let ghost prev = urls@;
            match f.retry {
                Some(RetryAction::SaveUrl(url)) => {
                    urls.push(url);
                    assert(texts(urls@) =~= texts(prev).push(url@));
                },
                Some(RetryAction::UploadArticle(id)) => {
                    ids.push(id);
                },
                None => {
                    self.failed.push(f);
                },
            }
            i = i + 1;
        }
        proof {
            assert(fs.take(i as int) =~= fs);
            lemma_retry_split(fs);
            assert(texts(urls@).len() == urls@.len());
        }
        let mut queued: usize = 0;
        let mut start: Option<QueuedJob> = None;
        let mut running = busy;
        let ghost q = self.queue@;
        let ghost urls_view = texts(urls@);
        let ghost mut added: int = 0;
        proof {
            lemma_pushed_none(a0);
        }
        if urls.len() > 0 {
            let unique = sorted_unique(urls);
            queued = unique.len();
            let job = QueuedJob::SaveUrls { urls: unique, label: "Retry failed saves".to_owned() };
            let ghost gj = job;
            proof {
                reveal_strlit("Retry failed saves");
            }
            let ghost before = self.activity@;
            let d = self.enqueue(job, running);
            proof {
                let k: int = if running { 1 } else { 2 };
                lemma_pushed_compose(a0, before, self.activity@, added, k);
                added = added + k;
            }
            if d.start.is_some() {
                running = true;
            }
            start = d.start;
            assert(started_then_queued(start, self.queue@) =~= q.push(gj));
            assert(is_retry_save(gj, urls_view));
        }
        let ghost mid = started_then_queued(start, self.queue@);
        assert(running == (start is Some || busy));
        if ids.len() > 0 {
            let key = crate::text::trim_str(api_key);
            if key.as_str().is_empty() {
                proof {
                    lemma_retry_split(fs);
                }
                let ghost act = self.activity@;
                let ghost qu = self.queue@;
                let mut k: usize = 0;
                while k < ids.len()
                    invariant
                        k <= ids.len(),
                        self.activity@ == act,
                        self.queue@ == qu,
                        ids@ == retry_ids(fs),
                        self.failed@.len() == not_retryable(fs).len() + k,
                        self.failed@.take(not_retryable(fs).len() as int) == not_retryable(fs),
                        forall|j: int|
                            0 <= j < k ==> is_token_missing(
                                #[trigger] self.failed@[not_retryable(fs).len() + j],
                                ids@[j],
                            ),
                    decreases ids.len() - k,
                {
                    let id = ids[k];
                    let label = concat("article #", i64_to_text(id).as_str());
                    self.failed.push(
                        JobFailure {
                            label,
                            detail: "LingQ token missing during retry.".to_owned(),
                            retry: Some(RetryAction::UploadArticle(id)),
                        },
                    );
                    k = k + 1;
                }
                return RetryOutcome {
                    status: "Open LingQ settings and save a token before retrying uploads.".to_owned(),
                    start,
                };
            }
            let unique = sorted_unique_ids(ids);
            queued = queued + unique.len();
            let job = QueuedJob::UploadArticles {
                ids: unique,
                api_key: api_key.to_owned(),
                language,
                collection_id,
            };
            let ghost gj = job;
            let ghost before = self.activity@;
            let d = self.enqueue(job, running);
            proof {
                let k: int = if running { 1 } else { 2 };
                lemma_pushed_compose(a0, before, self.activity@, added, k);
                added = added + k;
            }
            if start.is_none() {
                start = d.start;
            }
            assert(started_then_queued(start, self.queue@) =~= mid.push(gj));
        }
        let detail = concat(usize_to_text(queued).as_str(), " item(s) queued.");
        let ghost before = self.activity@;
        self.add_activity("queued".to_owned(), "Retry requested".to_owned(), detail);
        proof {
            lemma_pushed_compose(a0, before, self.activity@, added, 1);
        }
        let status = concat3("Queued ", usize_to_text(queued).as_str(), " failed item(s) for retry.");
        RetryOutcome { status, start }
    }
}

} // verus!
