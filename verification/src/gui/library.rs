//! The library page's filters: which saved articles are listed, which of the
//! selected ones may be uploaded, the query sent to the database and the
//! filter presets.

use vstd::prelude::*;
use std::collections::HashSet;
use crate::database::{ArticleQuery, StoredArticleMeta};
use crate::gui::inputs::{optional_count, parse_optional_i64};
use crate::gui::labels::{heading_of, section_heading};
use crate::gui::modes::LibrarySortMode;
use crate::taz::models::ArticleSummary;
use crate::numbers::{decimal, usize_to_text};
use crate::text::{concat, concat3, trim, trim_str};

verus! {

pub const ALL_HEADINGS: &'static str = "All headings";
pub const ALL_SECTIONS: &'static str = "All sections";

/// The library page's filters as the user set them.
#[derive(Clone, Debug)]
pub struct LibraryFilters {
    pub search: String,
    pub heading: String,
    pub section: String,
    pub sort_mode: LibrarySortMode,
    pub only_not_uploaded: bool,
    pub min_words: String,
    pub max_words: String,
    pub duplicate_only: bool,
    pub filter_preset_index: usize,
}

/// The filters that limit which selected articles are uploaded to LingQ.
#[derive(Clone, Debug)]
pub struct UploadFilters {
    pub only_not_uploaded: bool,
    pub min_words: String,
    pub max_words: String,
}

/// An optional word bound: a typed whole number, else no bound.
pub open spec fn word_bound(input: Seq<char>) -> Option<int> {
    match optional_count(input) {
        Ok(b) => b,
        Err(_) => None,
    }
}

/// Reads an optional word bound, ignoring input that is not a whole number.
fn read_word_bound(input: &str) -> (r: Option<i64>)
    ensures
        match r {
            Some(n) => word_bound(input@) == Some(n as int),
            None => word_bound(input@) is None,
        },
{
    match parse_optional_i64(input) {
        Ok(b) => b,
        Err(_) => None,
    }
}

/// A trimmed text, or `None` when it is empty or stands for "all".
pub open spec fn chosen(text: Seq<char>, all: Seq<char>) -> Option<Seq<char>> {
    let t = trim(text);
    if t.len() == 0 || t == all {
        None
    } else {
        Some(t)
    }
}

/// The database query for the library page: the trimmed search and section
/// (none when empty or "All sections"), the upload and word-count filters,
/// the sort order and a limit of 4000.
pub fn build_library_query(f: &LibraryFilters) -> (q: ArticleQuery)
    ensures
        match q.search {
            Some(s) => chosen(f.search@, Seq::empty()) == Some(s@),
            None => chosen(f.search@, Seq::empty()) is None,
        },
        match q.section {
            Some(s) => chosen(f.section@, ALL_SECTIONS@) == Some(s@),
            None => chosen(f.section@, ALL_SECTIONS@) is None,
        },
        q.only_not_uploaded == f.only_not_uploaded,
        match q.min_words {
            Some(n) => word_bound(f.min_words@) == Some(n as int),
            None => word_bound(f.min_words@) is None,
        },
        match q.max_words {
            Some(n) => word_bound(f.max_words@) == Some(n as int),
            None => word_bound(f.max_words@) is None,
        },
        q.sort is Some && q.sort->0@ == f.sort_mode.setting_name(),
        q.limit == 4000,
{
    let search = trim_str(f.search.as_str());
    let section = trim_str(f.section.as_str());
    let all = ALL_SECTIONS.to_owned();
    ArticleQuery {
        search: if search.as_str().is_empty() {
            None
        } else {
            Some(search)
        },
        section: if section.as_str().is_empty() || section == all {
            None
        } else {
            Some(section)
        },
        only_not_uploaded: f.only_not_uploaded,
        min_words: read_word_bound(f.min_words.as_str()),
        max_words: read_word_bound(f.max_words.as_str()),
        sort: Some(f.sort_mode.setting().to_owned()),
        limit: 4000,
    }
}

/// An article passes the upload filters: not uploaded yet when that is
/// asked for, and within the word bounds that are typed as whole numbers.
pub open spec fn upload_allowed(up: UploadFilters, a: StoredArticleMeta) -> bool {
    &&& !(up.only_not_uploaded && a.uploaded_to_lingq)
    &&& match word_bound(up.min_words@) {
        Some(m) => a.word_count >= m,
        None => true,
    }
    &&& match word_bound(up.max_words@) {
        Some(m) => a.word_count <= m,
        None => true,
    }
}

/// Whether an article passes the LingQ upload filters.
pub fn matches_lingq_upload_filters(up: &UploadFilters, article: &StoredArticleMeta) -> (b: bool)
    ensures
        b == upload_allowed(*up, *article),
{
    if up.only_not_uploaded && article.uploaded_to_lingq {
        return false;
    }
    if let Some(min) = read_word_bound(up.min_words.as_str()) {
        if article.word_count < min {
            return false;
        }
    }
    if let Some(max) = read_word_bound(up.max_words.as_str()) {
        if article.word_count > max {
            return false;
        }
    }
    true
}

/// An article is listed under the chosen heading: every article when the
/// heading is empty or "All headings", else those whose section has it.
pub open spec fn under_heading(heading: Seq<char>, a: StoredArticleMeta) -> bool {
    let h = trim(heading);
    h.len() == 0 || h == ALL_HEADINGS@ || heading_of(a.section@) == h
}

/// The positions of the articles listed under `heading`, in order.
pub open spec fn positions_under_heading(articles: Seq<StoredArticleMeta>, heading: Seq<char>) -> Seq<
    int,
>
    decreases articles.len(),
{
    if articles.len() == 0 {
        Seq::empty()
    } else if under_heading(heading, articles.last()) {
        positions_under_heading(articles.drop_last(), heading).push(articles.len() - 1)
    } else {
        positions_under_heading(articles.drop_last(), heading)
    }
}

/// The positions of the library articles listed under the chosen heading
/// (the database applies the other filters).
pub fn filtered_library_articles(articles: &[StoredArticleMeta], heading: &str) -> (r: Vec<usize>)
    ensures
        r@.map_values(|i: usize| i as int) == positions_under_heading(articles@, heading@),
{
    let h = trim_str(heading);
    let all = ALL_HEADINGS.to_owned();
    let mut r: Vec<usize> = Vec::new();
    let mut i: usize = 0;
    while i < articles.len()
        invariant
            i <= articles@.len(),
            h@ == trim(heading@),
            all@ == ALL_HEADINGS@,
            r@.map_values(|k: usize| k as int) == positions_under_heading(articles@.take(i as int), heading@),
        decreases articles.len() - i,
    {
        let a = &articles[i];
        assert(articles@.take(i + 1).drop_last() =~= articles@.take(i as int));
        assert(articles@.take(i + 1).last() == articles@[i as int]);
        let shown = h.as_str().is_empty() || h == all || section_heading(a.section.as_str()) == h;
        if shown {
            let ghost prev = r@.map_values(|k: usize| k as int);
            r.push(i);
            assert(r@.map_values(|k: usize| k as int) =~= prev.push(i as int));
        }
        i = i + 1;
    }
    assert(articles@.take(articles.len() as int) =~= articles@);
    r
}

/// The positions of the browse candidates shown: all of them, or only those
/// not saved yet when `only_new` is set.
pub open spec fn positions_shown(articles: Seq<ArticleSummary>, only_new: bool, saved: Seq<Seq<char>>) -> Seq<
    int,
>
    decreases articles.len(),
{
    if articles.len() == 0 {
        Seq::empty()
    } else if !only_new || !saved.contains(articles.last().url@) {
        positions_shown(articles.drop_last(), only_new, saved).push(articles.len() - 1)
    } else {
        positions_shown(articles.drop_last(), only_new, saved)
    }
}

/// The positions of the browse candidates that the browse page shows.
pub fn filtered_browse_articles(articles: &[ArticleSummary], only_new: bool, saved_urls: &Vec<String>) -> (r:
    Vec<usize>)
    ensures
        r@.map_values(|i: usize| i as int) == positions_shown(
            articles@,
            only_new,
            saved_urls@.map_values(|s: String| s@),
        ),
{
    let ghost saved = saved_urls@.map_values(|s: String| s@);
    let mut r: Vec<usize> = Vec::new();
    let mut i: usize = 0;
    while i < articles.len()
        invariant
            i <= articles@.len(),
            saved == saved_urls@.map_values(|s: String| s@),
            r@.map_values(|k: usize| k as int) == positions_shown(articles@.take(i as int), only_new, saved),
        decreases articles.len() - i,
    {
        assert(articles@.take(i + 1).drop_last() =~= articles@.take(i as int));
        assert(articles@.take(i + 1).last() == articles@[i as int]);
        if !only_new || !crate::gui::bulk::contains_url(saved_urls, &articles[i].url) {
            let ghost prev = r@.map_values(|k: usize| k as int);
            r.push(i);
            assert(r@.map_values(|k: usize| k as int) =~= prev.push(i as int));
        }
        i = i + 1;
    }
    assert(articles@.take(articles.len() as int) =~= articles@);
    r
}

/// Sets the library and upload filters for a preset: 1 short LingQ lessons
/// (600-999 words), 2 standard ones (1000-1800), 3 long reads (1800+),
/// 4 not uploaded, 5 duplicates; any other index clears the duplicate filter.
pub fn apply_filter_preset(lib: &mut LibraryFilters, up: &mut UploadFilters, index: usize)
    ensures
        final(lib).filter_preset_index == index,
        final(lib).search == old(lib).search,
        final(lib).heading == old(lib).heading,
        final(lib).section == old(lib).section,
        final(lib).sort_mode == old(lib).sort_mode,
        index == 1 ==> final(lib).min_words@ == "600"@ && final(lib).max_words@ == "999"@
            && final(up).min_words@ == "600"@ && final(up).max_words@ == "999"@,
        index == 2 ==> final(lib).min_words@ == "1000"@ && final(lib).max_words@ == "1800"@
            && final(up).min_words@ == "1000"@ && final(up).max_words@ == "1800"@,
        index == 3 ==> final(lib).min_words@ == "1800"@ && final(lib).max_words@.len() == 0
            && final(up).min_words@ == "1800"@ && final(up).max_words@.len() == 0,
        1 <= index <= 4 ==> final(lib).only_not_uploaded && !final(lib).duplicate_only
            && final(up).only_not_uploaded,
        index == 4 ==> final(lib).min_words == old(lib).min_words && final(lib).max_words
            == old(lib).max_words && final(up).min_words == old(up).min_words && final(up).max_words
            == old(up).max_words,
        index == 5 ==> final(lib).duplicate_only && !final(lib).only_not_uploaded
            && !final(up).only_not_uploaded && final(lib).min_words == old(lib).min_words
            && final(lib).max_words == old(lib).max_words && final(up).min_words == old(up).min_words
            && final(up).max_words == old(up).max_words,
        (index == 0 || index > 5) ==> !final(lib).duplicate_only && final(lib).only_not_uploaded
            == old(lib).only_not_uploaded && final(lib).min_words == old(lib).min_words
            && final(lib).max_words == old(lib).max_words && *final(up) == *old(up),
{
    lib.filter_preset_index = index;
    if index == 1 {
        lib.min_words = "600".to_owned();
        lib.max_words = "999".to_owned();
        lib.only_not_uploaded = true;
        lib.duplicate_only = false;
        up.min_words = "600".to_owned();
        up.max_words = "999".to_owned();
        up.only_not_uploaded = true;
    } else if index == 2 {
        lib.min_words = "1000".to_owned();
        lib.max_words = "1800".to_owned();
        lib.only_not_uploaded = true;
        lib.duplicate_only = false;
        up.min_words = "1000".to_owned();
        up.max_words = "1800".to_owned();
        up.only_not_uploaded = true;
    } else if index == 3 {
        lib.min_words = "1800".to_owned();
        lib.max_words = String::new();
        lib.only_not_uploaded = true;
        lib.duplicate_only = false;
        up.min_words = "1800".to_owned();
        up.max_words = String::new();
        up.only_not_uploaded = true;
    } else if index == 4 {
        lib.only_not_uploaded = true;
        lib.duplicate_only = false;
        up.only_not_uploaded = true;
    } else if index == 5 {
        lib.duplicate_only = true;
        lib.only_not_uploaded = false;
        up.only_not_uploaded = false;
    } else {
        lib.duplicate_only = false;
    }
}

pub const NO_TOKEN_FOR_UPLOAD: &'static str = "Open LingQ settings and save a token first.";
pub const NOTHING_SELECTED_FOR_UPLOAD: &'static str = "Select at least one saved article to upload.";
pub const NO_SELECTION_MATCHES: &'static str = "No selected articles match the current LingQ upload filters.";

/// The ids, in list order, of the listed articles that are selected and pass
/// the upload filters.
pub open spec fn upload_ids(
    articles: Seq<StoredArticleMeta>,
    listed: Seq<int>,
    selected: Seq<i64>,
    up: UploadFilters,
) -> Seq<i64>
    decreases listed.len(),
{
    if listed.len() == 0 {
        Seq::empty()
    } else {
        let prior = upload_ids(articles, listed.drop_last(), selected, up);
        let a = articles[listed.last()];
        if selected.contains(a.id) && upload_allowed(up, a) {
            prior.push(a.id)
        } else {
            prior
        }
    }
}

/// The upload filters hold what they say: an article that passes is not
/// uploaded yet when only new ones are asked for, and has at least the typed
/// minimum and at most the typed maximum of words.
pub proof fn lemma_upload_filters_bound(up: UploadFilters, a: StoredArticleMeta)
    ensures
        upload_allowed(up, a) ==> !(up.only_not_uploaded && a.uploaded_to_lingq),
        forall|m: int| word_bound(up.min_words@) == Some(m) && a.word_count < m ==> !upload_allowed(
            up,
            a,
        ),
        forall|m: int| word_bound(up.max_words@) == Some(m) && a.word_count > m ==> !upload_allowed(
            up,
            a,
        ),
        word_bound(up.min_words@) is None && word_bound(up.max_words@) is None
            && !up.only_not_uploaded ==> upload_allowed(up, a),
{
}

/// `id` is the id of a listed, selected article that is not uploaded yet
/// when only new ones are asked for, and whose word count lies within the
/// typed bounds.
pub open spec fn listed_and_within_filters(
    articles: Seq<StoredArticleMeta>,
    listed: Seq<int>,
    selected: Seq<i64>,
    up: UploadFilters,
    id: i64,
) -> bool {
    exists|j: int|
        0 <= j < listed.len() && #[trigger] articles[listed[j]].id == id && selected.contains(id)
            && !(up.only_not_uploaded && articles[listed[j]].uploaded_to_lingq) && (word_bound(
            up.min_words@,
        ) matches Some(m) ==> articles[listed[j]].word_count >= m) && (word_bound(
            up.max_words@,
        ) matches Some(m) ==> articles[listed[j]].word_count <= m)
}

/// Every id planned for upload is that of a listed, selected article that
/// meets the upload filters: not uploaded yet when only new ones are asked
/// for, and within the typed word bounds.
pub proof fn lemma_upload_ids_pass_filters(
    articles: Seq<StoredArticleMeta>,
    listed: Seq<int>,
    selected: Seq<i64>,
    up: UploadFilters,
)
    ensures
        forall|k: int|
            0 <= k < upload_ids(articles, listed, selected, up).len()
                ==> listed_and_within_filters(
                articles,
                listed,
                selected,
                up,
                #[trigger] upload_ids(articles, listed, selected, up)[k],
            ),
    decreases listed.len(),
{
    if listed.len() > 0 {
        let short = listed.drop_last();
        lemma_upload_ids_pass_filters(articles, short, selected, up);
        let prior = upload_ids(articles, short, selected, up);
        let ids = upload_ids(articles, listed, selected, up);
        let last = listed.len() - 1;
        assert forall|k: int| 0 <= k < ids.len() implies listed_and_within_filters(
            articles,
            listed,
            selected,
            up,
            #[trigger] ids[k],
        ) by {
            if k < prior.len() {
                assert(ids[k] == prior[k]);
                assert(listed_and_within_filters(articles, short, selected, up, prior[k]));
                let j = choose|j: int|
                    0 <= j < short.len() && #[trigger] articles[short[j]].id == prior[k]
                        && selected.contains(prior[k]) && !(up.only_not_uploaded
                        && articles[short[j]].uploaded_to_lingq) && (word_bound(up.min_words@) matches Some(
                        m,
                    ) ==> articles[short[j]].word_count >= m) && (word_bound(up.max_words@) matches Some(
                        m,
                    ) ==> articles[short[j]].word_count <= m);
                assert(short[j] == listed[j]);
                assert(articles[listed[j]].id == ids[k]);
            } else {
                assert(articles[listed[last]].id == ids[k]);
            }
        }
    }
}

/// The ids, in list order, of the articles listed under `heading` that are
/// selected and pass the upload filters.
pub fn upload_candidates(
    articles: &[StoredArticleMeta],
    heading: &str,
    selected: &Vec<i64>,
    up: &UploadFilters,
) -> (ids: Vec<i64>)
    ensures
        ids@ == upload_ids(articles@, positions_under_heading(articles@, heading@), selected@, *up),
{
    let listed = filtered_library_articles(articles, heading);
    let ghost lv = listed@.map_values(|i: usize| i as int);
    let mut ids: Vec<i64> = Vec::new();
    let mut k: usize = 0;
    proof {
        lemma_positions_in_range(articles@, heading@);
    }
    while k < listed.len()
        invariant
            k <= listed@.len(),
            lv == listed@.map_values(|i: usize| i as int),
            lv == positions_under_heading(articles@, heading@),
            forall|j: int| 0 <= j < lv.len() ==> 0 <= #[trigger] lv[j] < articles@.len(),
            ids@ == upload_ids(articles@, lv.take(k as int), selected@, *up),
        decreases listed.len() - k,
    {
        assert(lv.take(k + 1).drop_last() =~= lv.take(k as int));
        assert(lv.take(k + 1).last() == lv[k as int]);
        assert(0 <= lv[k as int] < articles@.len());
        let a = &articles[listed[k]];
        if crate::gui::lesson_match::contains_id(selected, a.id) && matches_lingq_upload_filters(up, a) {
            ids.push(a.id);
        }
        k = k + 1;
    }
    assert(lv.take(listed.len() as int) =~= lv);
    ids
}

/// Decides what an upload request uploads: it needs a token and a selection,
/// and returns the ids of the listed, selected articles that pass the upload
/// filters, or the message that explains why nothing is uploaded.
pub fn plan_upload(
    api_key: &str,
    selected: &Vec<i64>,
    articles: &[StoredArticleMeta],
    heading: &str,
    up: &UploadFilters,
) -> (r: Result<Vec<i64>, String>)
    ensures
        trim(api_key@).len() == 0 ==> (r matches Err(m) && m@ == NO_TOKEN_FOR_UPLOAD@),
        trim(api_key@).len() > 0 && selected@.len() == 0 ==> (r matches Err(m) && m@
            == NOTHING_SELECTED_FOR_UPLOAD@),
        trim(api_key@).len() > 0 && selected@.len() > 0 ==> ({
            let ids = upload_ids(
                articles@,
                positions_under_heading(articles@, heading@),
                selected@,
                *up,
            );
            &&& ids.len() == 0 ==> (r matches Err(m) && m@ == NO_SELECTION_MATCHES@)
            &&& ids.len() > 0 ==> (r matches Ok(v) && v@ == ids)
        }),
{
    if trim_str(api_key).as_str().is_empty() {
        return Err(NO_TOKEN_FOR_UPLOAD.to_owned());
    }
    if selected.len() == 0 {
        return Err(NOTHING_SELECTED_FOR_UPLOAD.to_owned());
    }
    let ids = upload_candidates(articles, heading, selected, up);
    if ids.len() == 0 {
        return Err(NO_SELECTION_MATCHES.to_owned());
    }
    Ok(ids)
}

/// Listed positions are positions of the list.
pub proof fn lemma_positions_in_range(articles: Seq<StoredArticleMeta>, heading: Seq<char>)
    ensures
        forall|j: int|
            0 <= j < positions_under_heading(articles, heading).len() ==> 0 <= #[trigger] positions_under_heading(
                articles,
                heading,
            )[j] < articles.len(),
    decreases articles.len(),
{
    if articles.len() > 0 {
        lemma_positions_in_range(articles.drop_last(), heading);
        let prior = positions_under_heading(articles.drop_last(), heading);
        let all = positions_under_heading(articles, heading);
        assert forall|j: int| 0 <= j < all.len() implies 0 <= #[trigger] all[j] < articles.len() by {
            if j < prior.len() {
                assert(all[j] == prior[j]);
            }
        }
    }
}


// ---------------------------------------------------------------------------
// Selection
// ---------------------------------------------------------------------------

/// Selects `id` for upload when it was not selected, else unselects it.
/// Returns whether it is selected now.
pub fn toggle_selection(selected: &mut HashSet<i64>, id: i64) -> (now: bool)
    ensures
        now == !old(selected)@.contains(id),
        final(selected)@ == (if now {
            old(selected)@.insert(id)
        } else {
            old(selected)@.remove(id)
        }),
{
    broadcast use vstd::std_specs::hash::group_hash_axioms;
    if !selected.insert(id) {
        selected.remove(&id);
        false
    } else {
        true
    }
}

/// A delete request needs a selection.
pub const NOTHING_SELECTED_FOR_DELETE: &'static str = "Select at least one article to delete.";

/// A delete request only deletes articles that are listed.
pub const NO_VISIBLE_SELECTION: &'static str = "No currently visible selected articles to delete.";

/// What a delete request deletes: the listed, selected articles, and how
/// many selected articles stay because they are not listed.
pub struct DeletePlan {
    pub ids: Vec<i64>,
    pub hidden: usize,
}

/// The ids, in list order, of the articles listed under `heading` that are
/// selected.
pub open spec fn visible_selected(
    articles: Seq<StoredArticleMeta>,
    listed: Seq<int>,
    selected: Seq<i64>,
) -> Seq<i64>
    decreases listed.len(),
{
    if listed.len() == 0 {
        Seq::empty()
    } else {
        let prior = visible_selected(articles, listed.drop_last(), selected);
        let a = articles[listed.last()];
        if selected.contains(a.id) {
            prior.push(a.id)
        } else {
            prior
        }
    }
}

/// Decides what a delete request deletes: nothing without a selection or
/// when no selected article is listed; else the listed, selected articles.
pub fn plan_delete(selected: &Vec<i64>, articles: &[StoredArticleMeta], heading: &str) -> (r: Result<
    DeletePlan,
    String,
>)
    ensures
        selected@.len() == 0 ==> (r matches Err(m) && m@ == NOTHING_SELECTED_FOR_DELETE@),
        selected@.len() > 0 ==> ({
            let ids = visible_selected(
                articles@,
                positions_under_heading(articles@, heading@),
                selected@,
            );
            &&& ids.len() == 0 ==> (r matches Err(m) && m@ == NO_VISIBLE_SELECTION@)
            &&& ids.len() > 0 ==> (r matches Ok(p) && p.ids@ == ids && p.hidden == if selected@.len()
                > ids.len() {
                selected@.len() - ids.len()
            } else {
                0
            })
        }),
{
    if selected.len() == 0 {
        return Err(NOTHING_SELECTED_FOR_DELETE.to_owned());
    }
    let listed = filtered_library_articles(articles, heading);
    let ghost lv = listed@.map_values(|i: usize| i as int);
    let mut ids: Vec<i64> = Vec::new();
    let mut k: usize = 0;
    proof {
        lemma_positions_in_range(articles@, heading@);
    }
    while k < listed.len()
        invariant
            k <= listed@.len(),
            lv == listed@.map_values(|i: usize| i as int),
            lv == positions_under_heading(articles@, heading@),
            forall|j: int| 0 <= j < lv.len() ==> 0 <= #[trigger] lv[j] < articles@.len(),
            ids@ == visible_selected(articles@, lv.take(k as int), selected@),
        decreases listed.len() - k,
    {
        assert(lv.take(k + 1).drop_last() =~= lv.take(k as int));
        assert(lv.take(k + 1).last() == lv[k as int]);
        let a = &articles[listed[k]];
        if crate::gui::lesson_match::contains_id(selected, a.id) {
            ids.push(a.id);
        }
        k = k + 1;
    }
    assert(lv.take(listed.len() as int) =~= lv);
    if ids.len() == 0 {
        return Err(NO_VISIBLE_SELECTION.to_owned());
    }
    let hidden = selected.len().saturating_sub(ids.len());
    Ok(DeletePlan { ids, hidden })
}

/// The status after deleting `deleted` of `count` listed, selected articles.
pub fn delete_status(deleted: usize, count: usize, hidden: usize) -> (r: String)
    ensures
        r@ == "Deleted "@ + decimal(deleted as nat) + " of "@ + decimal(count as nat)
            + " visible selected article(s)."@ + if hidden > 0 {
            " Left "@ + decimal(hidden as nat) + " hidden selection(s) untouched."@
        } else {
            Seq::empty()
        },
{
    let a = concat3("Deleted ", usize_to_text(deleted).as_str(), " of ");
    let b = concat3(a.as_str(), usize_to_text(count).as_str(), " visible selected article(s).");
    if hidden > 0 {
        concat3(
            b.as_str(),
            concat(" Left ", usize_to_text(hidden).as_str()).as_str(),
            " hidden selection(s) untouched.",
        )
    } else {
        b
    }
}


// ---------------------------------------------------------------------------
// Keyboard navigation
// ---------------------------------------------------------------------------

/// The first position of `id` in `ids`, if it is there.
pub open spec fn position_of(ids: Seq<i64>, id: i64) -> Option<int> {
    if exists|k: int| 0 <= k < ids.len() && ids[k] == id {
        Some(choose|k: int| 0 <= k < ids.len() && ids[k] == id && forall|j: int| 0 <= j < k ==> ids[j] != id)
    } else {
        None
    }
}

/// The article to view after an arrow key in the library list of `listed`
/// ids: the one above (`up`) or below the viewed one, staying at the ends;
/// the first one when none is viewed or the viewed one is not listed;
/// nothing when the list is empty.
pub fn step_selection(listed: &[i64], current: Option<i64>, up: bool) -> (r: Option<i64>)
    ensures
        listed@.len() == 0 ==> r is None,
        listed@.len() > 0 ==> r == Some(
            listed@[match current {
                Some(id) => match position_of(listed@, id) {
                    Some(p) => if up {
                        if p == 0 { 0 } else { p - 1 }
                    } else if p < listed@.len() - 1 {
                        p + 1
                    } else {
                        p
                    },
                    None => 0,
                },
                None => 0,
            }],
        ),
{
    if listed.len() == 0 {
        return None;
    }
    let pos: Option<usize> = match current {
        None => None,
        Some(id) => {
            let mut i: usize = 0;
            let mut found: Option<usize> = None;
            while i < listed.len()
                invariant
                    i <= listed@.len(),
                    found is None ==> forall|j: int| 0 <= j < i ==> listed@[j] != id,
                    found matches Some(f) ==> f < listed@.len() && listed@[f as int] == id && forall|j: int|
                        0 <= j < f ==> listed@[j] != id,
                decreases listed.len() - i,
            {
                if found.is_none() && listed[i] == id {
                    found = Some(i);
                }
                i = i + 1;
            }
            proof {
                match found {
                    Some(f) => {
                        assert(exists|k: int| 0 <= k < listed@.len() && listed@[k] == id);
                        let c = choose|k: int|
                            0 <= k < listed@.len() && listed@[k] == id && forall|j: int|
                                0 <= j < k ==> listed@[j] != id;
                        assert(forall|j: int| 0 <= j < f ==> listed@[j] != id);
                        if c < f {
                            assert(listed@[c] != id);
                        }
                        if f < c {
                            assert(listed@[f as int] != id);
                        }
                        assert(c == f);
                    },
                    None => {},
                }
            }
            found
        },
    };
    let new_pos = match pos {
        None => 0,
        Some(p) => if up {
            if p == 0 {
                0
            } else {
                p - 1
            }
        } else if p < listed.len() - 1 {
            p + 1
        } else {
            p
        },
    };
    Some(listed[new_pos])
}

/// The ids, in list order, of the articles listed under `heading` that pass
/// the upload filters; "select visible for upload" adds them to the
/// selection.
pub fn uploadable_listed(articles: &[StoredArticleMeta], heading: &str, up: &UploadFilters) -> (ids: Vec<
    i64,
>)
    ensures
        ids@ == upload_ids(
            articles@,
            positions_under_heading(articles@, heading@),
            articles@.map_values(|a: StoredArticleMeta| a.id),
            *up,
        ),
{
    let listed = filtered_library_articles(articles, heading);
    let ghost lv = listed@.map_values(|i: usize| i as int);
    let ghost all = articles@.map_values(|a: StoredArticleMeta| a.id);
    let mut ids: Vec<i64> = Vec::new();
    let mut k: usize = 0;
    proof {
        lemma_positions_in_range(articles@, heading@);
    }
    while k < listed.len()
        invariant
            k <= listed@.len(),
            lv == listed@.map_values(|i: usize| i as int),
            lv == positions_under_heading(articles@, heading@),
            all == articles@.map_values(|a: StoredArticleMeta| a.id),
            forall|j: int| 0 <= j < lv.len() ==> 0 <= #[trigger] lv[j] < articles@.len(),
            ids@ == upload_ids(articles@, lv.take(k as int), all, *up),
        decreases listed.len() - k,
    {
        assert(lv.take(k + 1).drop_last() =~= lv.take(k as int));
        assert(lv.take(k + 1).last() == lv[k as int]);
        let a = &articles[listed[k]];
        assert(all[lv[k as int]] == a.id);
        if matches_lingq_upload_filters(up, a) {
            ids.push(a.id);
        }
        k = k + 1;
    }
    assert(lv.take(listed.len() as int) =~= lv);
    ids
}

} // verus!
