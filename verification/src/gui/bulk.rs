//! Bulk fetching: checking the request, and deciding candidate by candidate
//! which articles to fetch and save, when to skip and when to stop.

use vstd::prelude::*;
use crate::dates::{date_minus_days, days_before_result, parse_date_input, CalendarDate, ISO_FORMAT, DATE_FORMAT_HINT, as_date, parsed_date};
use crate::gui::inputs::{parse_positive_usize_input, positive_count};
use crate::numbers::{decimal, usize_to_text};
use crate::text::{concat, concat3, trim, trim_str};

verus! {

/// The limits of a bulk fetch.
#[derive(Clone, Copy, Debug)]
pub struct BulkFetchLimits {
    pub max_articles: usize,
    pub per_section_cap: usize,
    pub stop_after_old: usize,
    pub date_from: CalendarDate,
    pub date_to: CalendarDate,
}

pub const NO_SECTION_SELECTED: &'static str = "Select at least one section for bulk fetch.";
pub const NO_FROM_DATE: &'static str = "Enter a From date for bulk fetch.";
pub const NO_TO_DATE: &'static str = "Enter a To date for bulk fetch.";
pub const DATES_REVERSED: &'static str = "From date must be on or before To date.";
pub const MAX_RUN: &'static str = "Max run";
pub const PER_SECTION: &'static str = "Per section";
pub const STOP_AFTER_OLD: &'static str = "Stop after old";

/// A typed date that must be given.
pub open spec fn required_date(input: Seq<char>, missing: Seq<char>) -> Result<CalendarDate, Seq<char>> {
    let t = trim(input);
    if t.len() == 0 {
        Err(missing)
    } else {
        match as_date(parsed_date(t, ISO_FORMAT@)) {
            Some(d) => Ok(d),
            None => Err(DATE_FORMAT_HINT@),
        }
    }
}

/// The outcome of checking a bulk-fetch request: the first problem in the
/// order sections, max run, per section, stop after old, from date, to date,
/// date order; or the limits.
pub open spec fn bulk_request(
    has_sections: bool,
    max_articles: Seq<char>,
    per_section_cap: Seq<char>,
    stop_after_old: Seq<char>,
    date_from: Seq<char>,
    date_to: Seq<char>,
) -> Result<(nat, nat, nat, CalendarDate, CalendarDate), Seq<char>> {
    if !has_sections {
        Err(NO_SECTION_SELECTED@)
    } else {
        match positive_count(max_articles, MAX_RUN@) {
            Err(e) => Err(e),
            Ok(m) => match positive_count(per_section_cap, PER_SECTION@) {
                Err(e) => Err(e),
                Ok(p) => match positive_count(stop_after_old, STOP_AFTER_OLD@) {
                    Err(e) => Err(e),
                    Ok(s) => match required_date(date_from, NO_FROM_DATE@) {
                        Err(e) => Err(e),
                        Ok(f) => match required_date(date_to, NO_TO_DATE@) {
                            Err(e) => Err(e),
                            Ok(t) => if t.earlier(f) {
                                Err(DATES_REVERSED@)
                            } else {
                                Ok((m, p, s, f, t))
                            },
                        },
                    },
                },
            },
        }
    }
}

/// Reads a date that must be given.
fn read_required_date(input: &str, missing: &str) -> (r: Result<CalendarDate, String>)
    ensures
        match r {
            Ok(d) => required_date(input@, missing@) == Ok::<CalendarDate, Seq<char>>(d),
            Err(e) => required_date(input@, missing@) == Err::<CalendarDate, Seq<char>>(e@),
        },
{
    match parse_date_input(input) {
        Ok(Some(d)) => Ok(d),
        Ok(None) => Err(missing.to_owned()),
        Err(e) => Err(e),
    }
}

/// Checks the inputs of a bulk fetch and returns its limits, or the message
/// for the first problem.
pub fn check_bulk_fetch_request(
    has_sections: bool,
    max_articles: &str,
    per_section_cap: &str,
    stop_after_old: &str,
    date_from: &str,
    date_to: &str,
) -> (r: Result<BulkFetchLimits, String>)
    ensures
        match r {
            Ok(l) => bulk_request(has_sections, max_articles@, per_section_cap@, stop_after_old@, date_from@, date_to@)
                == Ok::<(nat, nat, nat, CalendarDate, CalendarDate), Seq<char>>((
                l.max_articles as nat,
                l.per_section_cap as nat,
                l.stop_after_old as nat,
                l.date_from,
                l.date_to,
            )),
            Err(e) => bulk_request(has_sections, max_articles@, per_section_cap@, stop_after_old@, date_from@, date_to@)
                == Err::<(nat, nat, nat, CalendarDate, CalendarDate), Seq<char>>(e@),
        },
{
    if !has_sections {
        return Err(NO_SECTION_SELECTED.to_owned());
    }
    let m = match parse_positive_usize_input(max_articles, MAX_RUN) {
        Ok(v) => v,
        Err(e) => return Err(e),
    };
    let p = match parse_positive_usize_input(per_section_cap, PER_SECTION) {
        Ok(v) => v,
        Err(e) => return Err(e),
    };
    let s = match parse_positive_usize_input(stop_after_old, STOP_AFTER_OLD) {
        Ok(v) => v,
        Err(e) => return Err(e),
    };
    let f = match read_required_date(date_from, NO_FROM_DATE) {
        Ok(d) => d,
        Err(e) => return Err(e),
    };
    let t = match read_required_date(date_to, NO_TO_DATE) {
        Ok(d) => d,
        Err(e) => return Err(e),
    };
    if t.is_before(&f) {
        return Err(DATES_REVERSED.to_owned());
    }
    Ok(BulkFetchLimits {
        max_articles: m,
        per_section_cap: p,
        stop_after_old: s,
        date_from: f,
        date_to: t,
    })
}

/// How many candidates to discover per section: four per accepted article,
/// at least `floor`.
pub fn discovery_limit(per_section_cap: usize, floor: usize) -> (r: usize)
    ensures
        r as int == if per_section_cap as int * 4 > usize::MAX as int {
            usize::MAX as int
        } else if per_section_cap as int * 4 > floor as int {
            per_section_cap as int * 4
        } else {
            floor as int
        },
{
    let scaled = if per_section_cap > usize::MAX / 4 {
        usize::MAX
    } else {
        per_section_cap * 4
    };
    if scaled > floor {
        scaled
    } else {
        floor
    }
}

/// What to do with a discovered candidate.
#[derive(Clone, Copy, Debug, PartialEq, Eq, Structural)]
pub enum CandidateStep {
    /// The run or the section has enough articles.
    StopSection,
    /// The article is in the library already.
    SkipExisting,
    /// The candidate was seen before in this run.
    SkipSeen,
    /// Fetch the article.
    Fetch,
}

/// What to do with a fetched article.
#[derive(Clone, Copy, Debug, PartialEq, Eq, Structural)]
pub enum FetchedStep {
    /// Save the article.
    Save,
    /// Skip it and go on with the section.
    Skip,
    /// Skip it and stop the section: too many old or undated articles in a row.
    StopSection,
}

/// The progress of one bulk fetch.
#[derive(Clone, Debug)]
pub struct BulkFetchRun {
    pub limits: BulkFetchLimits,
    pub imported_urls: Vec<String>,
    pub seen: Vec<String>,
    pub saved: usize,
    pub skipped_existing: usize,
    pub skipped_out_of_range: usize,
    pub accepted_for_section: usize,
    pub consecutive_old: usize,
}

impl BulkFetchRun {
    /// The URLs held, as text.
    pub open spec fn seen_urls(&self) -> Seq<Seq<char>> {
        self.seen@.map_values(|s: String| s@)
    }

    pub open spec fn imported(&self) -> Seq<Seq<char>> {
        self.imported_urls@.map_values(|s: String| s@)
    }

    /// The counters stay within the limits they are checked against.
    pub open spec fn wf(&self) -> bool {
        &&& self.saved <= self.limits.max_articles
        &&& self.accepted_for_section <= self.limits.per_section_cap
        &&& self.accepted_for_section <= self.saved
        &&& self.consecutive_old < self.limits.stop_after_old
    }

    /// A run that has not looked at any candidate yet.
    pub fn new(imported_urls: Vec<String>, limits: BulkFetchLimits) -> (r: Self)
        requires
            limits.stop_after_old > 0,
        ensures
            r.wf(),
            r.limits == limits,
            r.imported_urls@ == imported_urls@,
            r.seen@.len() == 0,
            r.saved == 0 && r.skipped_existing == 0 && r.skipped_out_of_range == 0,
    {
        BulkFetchRun {
            limits,
            imported_urls,
            seen: Vec::new(),
            saved: 0,
            skipped_existing: 0,
            skipped_out_of_range: 0,
            accepted_for_section: 0,
            consecutive_old: 0,
        }
    }

    /// Starts the next section: its own counts begin again.
    pub fn start_section(&mut self)
        requires
            old(self).wf(),
        ensures
            final(self).wf(),
            final(self).accepted_for_section == 0,
            final(self).consecutive_old == 0,
            final(self).saved == old(self).saved,
            final(self).skipped_existing == old(self).skipped_existing,
            final(self).skipped_out_of_range == old(self).skipped_out_of_range,
            final(self).seen == old(self).seen,
            final(self).imported_urls == old(self).imported_urls,
            final(self).limits == old(self).limits,
    {
        self.accepted_for_section = 0;
        self.consecutive_old = 0;
    }

    /// The run has saved as many articles as it may.
    pub fn is_full(&self) -> (b: bool)
        ensures
            b == (self.saved >= self.limits.max_articles),
    {
        self.saved >= self.limits.max_articles
    }

    /// Decides about a discovered candidate: stop the section when the run or
    /// the section is full, skip it when it is in the library or was seen in
    /// this run, else remember it and fetch it.
    pub fn consider(&mut self, url: &String) -> (step: CandidateStep)
        requires
            old(self).wf(),
            old(self).skipped_existing < usize::MAX,
        ensures
            final(self).wf(),
            final(self).limits == old(self).limits,
            final(self).imported_urls == old(self).imported_urls,
            final(self).saved == old(self).saved,
            final(self).accepted_for_section == old(self).accepted_for_section,
            final(self).consecutive_old == old(self).consecutive_old,
            final(self).skipped_out_of_range == old(self).skipped_out_of_range,
            step == (if old(self).saved >= old(self).limits.max_articles || old(self).accepted_for_section
                >= old(self).limits.per_section_cap {
                CandidateStep::StopSection
            } else if old(self).imported().contains(url@) {
                CandidateStep::SkipExisting
            } else if old(self).seen_urls().contains(url@) {
                CandidateStep::SkipSeen
            } else {
                CandidateStep::Fetch
            }),
            final(self).skipped_existing == old(self).skipped_existing + if step
                == CandidateStep::SkipExisting {
                1int
            } else {
                0
            },
            final(self).seen_urls() == if step == CandidateStep::Fetch {
                old(self).seen_urls().push(url@)
            } else {
                old(self).seen_urls()
            },
    {
        if self.saved >= self.limits.max_articles || self.accepted_for_section
            >= self.limits.per_section_cap {
            return CandidateStep::StopSection;
        }
        if contains_url(&self.imported_urls, url) {
            self.skipped_existing = self.skipped_existing + 1;
            return CandidateStep::SkipExisting;
        }
        if contains_url(&self.seen, url) {
            return CandidateStep::SkipSeen;
        }
        let ghost before = self.seen_urls();
        self.seen.push(url.clone());
        assert(self.seen_urls() =~= before.push(url@));
        CandidateStep::Fetch
    }

    /// Decides about a fetched article by its date: an undated article or
    /// one outside the date range counts as old (out of range is also
    /// counted), and enough old ones in a row stop the section; a dated
    /// article in range is to be saved and ends the run of old ones.
    pub fn fetched(&mut self, date: Option<CalendarDate>) -> (step: FetchedStep)
        requires
            old(self).wf(),
            old(self).skipped_out_of_range < usize::MAX,
        ensures
            final(self).wf(),
            final(self).limits == old(self).limits,
            final(self).imported_urls == old(self).imported_urls,
            final(self).seen == old(self).seen,
            final(self).saved == old(self).saved,
            final(self).accepted_for_section == old(self).accepted_for_section,
            final(self).skipped_existing == old(self).skipped_existing,
            ({
                let out_of_range = match date {
                    Some(d) => d.earlier(old(self).limits.date_from) || old(self).limits.date_to.earlier(d),
                    None => false,
                };
                let old_one = date is None || out_of_range;
                &&& final(self).skipped_out_of_range == old(self).skipped_out_of_range + if out_of_range {
                    1int
                } else {
                    0
                }
                &&& step == if !old_one {
                    FetchedStep::Save
                } else if old(self).consecutive_old + 1 >= old(self).limits.stop_after_old {
                    FetchedStep::StopSection
                } else {
                    FetchedStep::Skip
                }
                &&& final(self).consecutive_old == if !old_one || step == FetchedStep::StopSection {
                    0int
                } else {
                    old(self).consecutive_old + 1
                }
            }),
    {
        let old_one = match date {
            Some(d) => {
                if d.is_before(&self.limits.date_from) || self.limits.date_to.is_before(&d) {
                    self.skipped_out_of_range = self.skipped_out_of_range + 1;
                    true
                } else {
                    false
                }
            },
            None => true,
        };
        if !old_one {
            self.consecutive_old = 0;
            return FetchedStep::Save;
        }
        if self.consecutive_old + 1 >= self.limits.stop_after_old {
            self.consecutive_old = 0;
            return FetchedStep::StopSection;
        }
        self.consecutive_old = self.consecutive_old + 1;
        FetchedStep::Skip
    }

    /// Counts a saved article for the run and the section.
    pub fn record_saved(&mut self)
        requires
            old(self).wf(),
            old(self).saved < old(self).limits.max_articles,
            old(self).accepted_for_section < old(self).limits.per_section_cap,
        ensures
            final(self).wf(),
            final(self).saved == old(self).saved + 1,
            final(self).accepted_for_section == old(self).accepted_for_section + 1,
            final(self).limits == old(self).limits,
            final(self).imported_urls == old(self).imported_urls,
            final(self).seen == old(self).seen,
            final(self).skipped_existing == old(self).skipped_existing,
            final(self).skipped_out_of_range == old(self).skipped_out_of_range,
            final(self).consecutive_old == old(self).consecutive_old,
    {
        self.saved = self.saved + 1;
        self.accepted_for_section = self.accepted_for_section + 1;
    }
}

/// Whether `url` is one of `urls`.
pub fn contains_url(urls: &Vec<String>, url: &String) -> (b: bool)
    ensures
        b == urls@.map_values(|s: String| s@).contains(url@),
{
    let ghost uv = urls@.map_values(|s: String| s@);
    let mut i: usize = 0;
    while i < urls.len()
        invariant
            i <= urls@.len(),
            uv == urls@.map_values(|s: String| s@),
            forall|j: int| 0 <= j < i ==> #[trigger] uv[j] != url@,
        decreases urls.len() - i,
    {
        if urls[i] == *url {
            assert(uv[i as int] == url@);
            return true;
        }
        i = i + 1;
    }
    false
}

/// The final message of a bulk fetch.
pub open spec fn bulk_fetch_text(saved: nat, skipped_existing: nat, skipped_out_of_range: nat, cancelled: bool) -> Seq<char> {
    (if cancelled { "Cancelled. "@ } else { Seq::empty() }) + "Saved "@ + decimal(saved)
        + " article(s). Skipped "@ + decimal(skipped_existing) + " existing and "@ + decimal(
        skipped_out_of_range,
    ) + " out-of-range article(s)."@
}

/// The message that reports a finished bulk fetch.
pub fn bulk_fetch_message(run: &BulkFetchRun, cancelled: bool) -> (r: String)
    ensures
        r@ == bulk_fetch_text(
            run.saved as nat,
            run.skipped_existing as nat,
            run.skipped_out_of_range as nat,
            cancelled,
        ),
{
    let prefix = if cancelled {
        "Cancelled. ".to_owned()
    } else {
        String::new()
    };
    let a = concat3(prefix.as_str(), "Saved ", usize_to_text(run.saved).as_str());
    let b = concat3(a.as_str(), " article(s). Skipped ", usize_to_text(run.skipped_existing).as_str());
    let c = concat3(b.as_str(), " existing and ", usize_to_text(run.skipped_out_of_range).as_str());
    concat(c.as_str(), " out-of-range article(s).")
}

/// The final message of an automatic fetch at startup.
pub open spec fn auto_fetch_text(saved: nat, skipped_existing: nat, cancelled: bool) -> Seq<char> {
    (if cancelled { "Cancelled. "@ } else { Seq::empty() }) + "Auto-fetch: saved "@ + decimal(saved)
        + " new article(s), skipped "@ + decimal(skipped_existing) + " existing."@
}

/// The message that reports a finished automatic fetch.
pub fn auto_fetch_message(run: &BulkFetchRun, cancelled: bool) -> (r: String)
    ensures
        r@ == auto_fetch_text(run.saved as nat, run.skipped_existing as nat, cancelled),
{
    let prefix = if cancelled {
        "Cancelled. ".to_owned()
    } else {
        String::new()
    };
    let a = concat3(prefix.as_str(), "Auto-fetch: saved ", usize_to_text(run.saved).as_str());
    let b = concat3(a.as_str(), " new article(s), skipped ", usize_to_text(run.skipped_existing).as_str());
    concat(b.as_str(), " existing.")
}

pub const NO_SEARCH_TERM: &'static str = "Enter a search term first.";

/// The outcome of checking a taz.de search request.
pub open spec fn search_request(query: Seq<char>, date_from: Seq<char>, date_to: Seq<char>) -> Result<
    (Seq<char>, Option<CalendarDate>, Option<CalendarDate>),
    Seq<char>,
> {
    let q = trim(query);
    let f = trim(date_from);
    let t = trim(date_to);
    if q.len() == 0 {
        Err(NO_SEARCH_TERM@)
    } else if f.len() > 0 && parsed_date(f, ISO_FORMAT@) is None {
        Err(DATE_FORMAT_HINT@)
    } else if t.len() > 0 && parsed_date(t, ISO_FORMAT@) is None {
        Err(DATE_FORMAT_HINT@)
    } else {
        let from = if f.len() > 0 { as_date(parsed_date(f, ISO_FORMAT@)) } else { None };
        let to = if t.len() > 0 { as_date(parsed_date(t, ISO_FORMAT@)) } else { None };
        match (from, to) {
            (Some(a), Some(b)) => if b.earlier(a) {
                Err(DATES_REVERSED@)
            } else {
                Ok((q, from, to))
            },
            _ => Ok((q, from, to)),
        }
    }
}

/// Checks a taz.de search: a non-empty term and, when given, well-formed
/// dates in order. Returns the trimmed term and the dates.
pub fn check_search_request(query: &str, date_from: &str, date_to: &str) -> (r: Result<
    (String, Option<CalendarDate>, Option<CalendarDate>),
    String,
>)
    ensures
        match r {
            Ok((q, f, t)) => search_request(query@, date_from@, date_to@) == Ok::<
                (Seq<char>, Option<CalendarDate>, Option<CalendarDate>),
                Seq<char>,
            >((q@, f, t)),
            Err(e) => search_request(query@, date_from@, date_to@) == Err::<
                (Seq<char>, Option<CalendarDate>, Option<CalendarDate>),
                Seq<char>,
            >(e@),
        },
{
    let q = trim_str(query);
    if q.as_str().is_empty() {
        return Err(NO_SEARCH_TERM.to_owned());
    }
    let from = match parse_date_input(date_from) {
        Ok(d) => d,
        Err(e) => return Err(e),
    };
    let to = match parse_date_input(date_to) {
        Ok(d) => d,
        Err(e) => return Err(e),
    };
    match (from, to) {
        (Some(a), Some(b)) => {
            if b.is_before(&a) {
                return Err(DATES_REVERSED.to_owned());
            }
        },
        _ => {},
    }
    Ok((q, from, to))
}


/// Whether a search result dated `date` is kept for the chosen date range: an
/// undated result is dropped, and so is one before `from` or after `to`.
pub fn search_date_in_range(
    date: Option<CalendarDate>,
    from: Option<CalendarDate>,
    to: Option<CalendarDate>,
) -> (keep: bool)
    ensures
        keep == match date {
            None => false,
            Some(d) => !(from matches Some(f) && d.earlier(f)) && !(to matches Some(t) && t.earlier(d)),
        },
{
    match date {
        None => false,
        Some(d) => {
            let too_early = match from {
                Some(f) => d.is_before(&f),
                None => false,
            };
            let too_late = match to {
                Some(t) => t.is_before(&d),
                None => false,
            };
            !too_early && !too_late
        },
    }
}


// ---------------------------------------------------------------------------
// Fetching at startup
// ---------------------------------------------------------------------------

/// How many days back the fetch at startup looks.
pub const AUTO_FETCH_DAYS: u64 = 2;
/// How many articles the fetch at startup saves at most.
pub const AUTO_FETCH_MAX_ARTICLES: usize = 30;
/// How many articles per section the fetch at startup saves at most.
pub const AUTO_FETCH_PER_SECTION: usize = 5;
/// After how many old articles in a row the fetch at startup leaves a section.
pub const AUTO_FETCH_STOP_AFTER_OLD: usize = 8;
/// The least number of candidates the fetch at startup discovers per section.
pub const AUTO_FETCH_DISCOVERY_FLOOR: usize = 40;
/// The progress label of the fetch at startup.
pub const AUTO_FETCH_LABEL: &'static str = "Auto-fetching recent articles";

/// The limits of the fetch at startup for dates from `since` to `today`.
pub fn auto_fetch_limits_since(today: CalendarDate, since: CalendarDate) -> (l: BulkFetchLimits)
    ensures
        l.max_articles == AUTO_FETCH_MAX_ARTICLES,
        l.per_section_cap == AUTO_FETCH_PER_SECTION,
        l.stop_after_old == AUTO_FETCH_STOP_AFTER_OLD,
        l.date_from == since,
        l.date_to == today,
{
    BulkFetchLimits {
        max_articles: AUTO_FETCH_MAX_ARTICLES,
        per_section_cap: AUTO_FETCH_PER_SECTION,
        stop_after_old: AUTO_FETCH_STOP_AFTER_OLD,
        date_from: since,
        date_to: today,
    }
}

/// The limits of the fetch at startup: up to 30 articles, 5 per section,
/// leaving a section after 8 old ones, dated from two days before `today`
/// to `today`. `None` only when `today` is no calendar day or the day two
/// days before it is out of chrono's range.
pub fn auto_fetch_limits(today: CalendarDate) -> (r: Option<BulkFetchLimits>)
    ensures
        match days_before_result(today.year, today.month, today.day, AUTO_FETCH_DAYS) {
            Some((y, m, d)) => r matches Some(l) && l.max_articles == AUTO_FETCH_MAX_ARTICLES
                && l.per_section_cap == AUTO_FETCH_PER_SECTION && l.stop_after_old
                == AUTO_FETCH_STOP_AFTER_OLD && l.date_from == (CalendarDate {
                year: y,
                month: m,
                day: d,
            }) && l.date_to == today,
            None => r is None,
        },
{
    match date_minus_days(today, AUTO_FETCH_DAYS) {
        Some(since) => Some(auto_fetch_limits_since(today, since)),
        None => None,
    }
}

/// How many candidates the fetch at startup discovers per section.
pub fn auto_fetch_discovery_limit() -> (r: usize)
    ensures
        r == AUTO_FETCH_DISCOVERY_FLOOR,
{
    discovery_limit(AUTO_FETCH_PER_SECTION, AUTO_FETCH_DISCOVERY_FLOOR)
}

} // verus!
