//! The article library's records, statistics and queries, and the rules that
//! turn a user's search into a safe full-text query.

use vstd::prelude::*;
use crate::text::{
    all_words, chars_of, eq_pred, join, join_with, keep_chars, lemma_non_empty, lemma_trim,
    lemma_words_are_words, lemma_words_of_join, no_ws, non_empty, split_words, string_of,
    trim_by, trim_char, trim_matches, words,
};

verus! {

/// A saved article with its full text.
#[derive(Debug, Clone)]
pub struct StoredArticle {
    pub id: i64,
    pub url: String,
    pub title: String,
    pub subtitle: String,
    pub author: String,
    pub date: String,
    pub section: String,
    pub body_text: String,
    pub clean_text: String,
    pub word_count: i64,
    pub difficulty: i64,
    pub fetched_at: String,
    pub uploaded_to_lingq: bool,
    pub lingq_lesson_id: Option<i64>,
    pub lingq_lesson_url: String,
    pub paywalled: bool,
}

/// A saved article's metadata, without its body and clean text.
#[derive(Debug, Clone)]
pub struct StoredArticleMeta {
    pub id: i64,
    pub url: String,
    pub title: String,
    pub subtitle: String,
    pub author: String,
    pub date: String,
    pub section: String,
    pub word_count: i64,
    pub difficulty: i64,
    pub fetched_at: String,
    pub uploaded_to_lingq: bool,
    pub lingq_lesson_id: Option<i64>,
    pub lingq_lesson_url: String,
    pub paywalled: bool,
}

/// How many saved articles a section holds.
#[derive(Debug, Clone)]
pub struct SectionCount {
    pub section: String,
    pub count: i64,
}

/// Totals over the whole library.
#[derive(Debug, Clone)]
pub struct LibraryStats {
    pub total_articles: i64,
    pub uploaded_articles: i64,
    pub average_word_count: i64,
    pub sections: Vec<SectionCount>,
}

/// Filters, order and limit for listing saved articles.
#[derive(Debug, Clone)]
pub struct ArticleQuery {
    pub search: Option<String>,
    pub section: Option<String>,
    pub only_not_uploaded: bool,
    pub min_words: Option<i64>,
    pub max_words: Option<i64>,
    pub sort: Option<String>,
    pub limit: usize,
}

impl Default for ArticleQuery {
    fn default() -> (q: Self)
        ensures
            q.search is None,
            q.section is None,
            !q.only_not_uploaded,
            q.min_words is None,
            q.max_words is None,
            q.sort is None,
            q.limit == 0,
    {
        ArticleQuery {
            search: None,
            section: None,
            only_not_uploaded: false,
            min_words: None,
            max_words: None,
            sort: None,
            limit: 0,
        }
    }
}

// ---------------------------------------------------------------------------
// Full-text search terms
// ---------------------------------------------------------------------------

/// Characters with a meaning in FTS5 query syntax.
pub open spec fn is_fts_special(c: char) -> bool {
    c == '"' || c == '*' || c == '^' || c == '(' || c == ')' || c == '{' || c == '}' || c == ':'
        || c == '+'
}

/// The test for a character that FTS5 reads literally.
pub open spec fn fts_plain() -> spec_fn(char) -> bool {
    |c: char| !is_fts_special(c)
}

/// A word of the user's input without FTS5 special characters and without
/// leading or trailing dashes.
pub open spec fn fts_term(w: Seq<char>) -> Seq<char> {
    trim_matches(keep_chars(w, fts_plain()), '-')
}

/// A term in double quotes.
pub open spec fn quoted(w: Seq<char>) -> Seq<char> {
    seq!['"'] + w + seq!['"']
}

/// The FTS5 query for a search: every usable word in double quotes, the
/// quoted words separated by single spaces (an implicit AND).
pub open spec fn fts_query(input: Seq<char>) -> Seq<char> {
    join(
        non_empty(words(input).map_values(|w: Seq<char>| fts_term(w))).map_values(
            |t: Seq<char>| quoted(t),
        ),
        seq![' '],
    )
}

/// The characters of `w` that FTS5 reads literally.
fn drop_fts_specials(w: &[char]) -> (r: Vec<char>)
    ensures
        r@ == keep_chars(w@, fts_plain()),
{
    let mut r: Vec<char> = Vec::new();
    let mut i: usize = 0;
    while i < w.len()
        invariant
            i <= w.len(),
            r@ == keep_chars(w@.take(i as int), fts_plain()),
        decreases w.len() - i,
    {
        let c = w[i];
        assert(w@.take(i + 1).drop_last() =~= w@.take(i as int));
        if !(c == '"' || c == '*' || c == '^' || c == '(' || c == ')' || c == '{' || c == '}' || c
            == ':' || c == '+') {
            r.push(c);
        }
        i = i + 1;
    }
    assert(w@.take(w.len() as int) =~= w@);
    r
}

/// Sanitises user input for an FTS5 `MATCH` query: FTS5 operator characters
/// are stripped, each remaining word is wrapped in double quotes so that it is
/// read literally, and the words are joined with spaces. Returns an empty
/// string when nothing usable remains. Sanitising a sanitised query changes
/// nothing.
pub fn sanitize_fts_query(input: &str) -> (r: String)
    ensures
        r@ == fts_query(input@),
        fts_query(r@) == r@,
{
    let chars = chars_of(input);
    let ws = split_words(&chars);
    let ghost terms = words(input@).map_values(|w: Seq<char>| fts_term(w));
    let mut quoted_terms: Vec<Vec<char>> = Vec::new();
    let mut i: usize = 0;
    while i < ws.len()
        invariant
            i <= ws.len(),
            ws@.map_values(|w: Vec<char>| w@) == words(input@),
            terms == words(input@).map_values(|w: Seq<char>| fts_term(w)),
            quoted_terms@.map_values(|w: Vec<char>| w@) == non_empty(terms.take(i as int)).map_values(
                |t: Seq<char>| quoted(t),
            ),
        decreases ws.len() - i,
    {
        let plain = drop_fts_specials(ws[i].as_slice());
        let term = trim_char(plain.as_slice(), '-');
        assert(term@ == terms[i as int]);
        assert(terms.take(i + 1).drop_last() =~= terms.take(i as int));
        if term.len() > 0 {
            let mut q: Vec<char> = Vec::new();
            q.push('"');
            let mut k: usize = 0;
            while k < term.len()
                invariant
                    k <= term.len(),
                    q@ == seq!['"'] + term@.take(k as int),
                decreases term.len() - k,
            {
                q.push(term[k]);
                assert(term@.take(k + 1) =~= term@.take(k as int).push(term@[k as int]));
                k = k + 1;
            }
            q.push('"');
            assert(term@.take(term.len() as int) =~= term@);
            assert(q@ =~= quoted(term@));
            quoted_terms.push(q);
            assert(quoted_terms@.map_values(|w: Vec<char>| w@) =~= non_empty(
                terms.take(i as int),
            ).map_values(|t: Seq<char>| quoted(t)).push(quoted(term@)));
        }
        i = i + 1;
    }
    assert(terms.take(ws.len() as int) =~= terms);
    let space: Vec<char> = vec![' '];
    assert(space@ =~= seq![' ']);
    let out = join_with(&quoted_terms, space.as_slice());
    let r = string_of(out.as_slice());
    proof {
        lemma_fts_query_idempotent(input@);
    }
    r
}

/// Filtering keeps exactly the characters that pass.
pub proof fn lemma_keep_chars(s: Seq<char>, p: spec_fn(char) -> bool)
    ensures
        forall|i: int| 0 <= i < keep_chars(s, p).len() ==> p(#[trigger] keep_chars(s, p)[i])
            && s.contains(keep_chars(s, p)[i]),
        (forall|i: int| 0 <= i < s.len() ==> p(#[trigger] s[i])) ==> keep_chars(s, p) == s,
    decreases s.len(),
{
    if s.len() > 0 {
        let init = s.drop_last();
        lemma_keep_chars(init, p);
        let k = keep_chars(s, p);
        assert forall|i: int| 0 <= i < k.len() implies p(#[trigger] k[i]) && s.contains(k[i]) by {
            if i < keep_chars(init, p).len() {
                assert(k[i] == keep_chars(init, p)[i]);
                let j = choose|j: int| 0 <= j < init.len() && init[j] == k[i];
                assert(s[j] == init[j]);
            } else {
                assert(k[i] == s.last());
                assert(s[s.len() - 1] == k[i]);
            }
        }
        if forall|i: int| 0 <= i < s.len() ==> p(#[trigger] s[i]) {
            assert forall|i: int| 0 <= i < init.len() implies p(#[trigger] init[i]) by {
                assert(init[i] == s[i]);
            }
            assert(p(s[s.len() - 1]));
            assert(init.push(s.last()) =~= s);
        }
    }
}

/// Filtering distributes over concatenation.
pub proof fn lemma_keep_chars_concat(a: Seq<char>, b: Seq<char>, p: spec_fn(char) -> bool)
    ensures
        keep_chars(a + b, p) == keep_chars(a, p) + keep_chars(b, p),
    decreases b.len(),
{
    if b.len() == 0 {
        assert(a + b =~= a);
        assert(keep_chars(b, p) =~= Seq::<char>::empty());
        assert(keep_chars(a, p) + keep_chars(b, p) =~= keep_chars(a, p));
    } else {
        lemma_keep_chars_concat(a, b.drop_last(), p);
        assert((a + b).drop_last() =~= a + b.drop_last());
        assert((a + b).last() == b.last());
        if p(b.last()) {
            assert(keep_chars(a, p) + keep_chars(b.drop_last(), p).push(b.last()) =~= (keep_chars(
                a,
                p,
            ) + keep_chars(b.drop_last(), p)).push(b.last()));
        }
    }
}

/// A usable term is non-empty, free of whitespace and special characters,
/// and neither starts nor ends with a dash.
pub open spec fn clean_term(t: Seq<char>) -> bool {
    &&& t.len() > 0
    &&& no_ws(t)
    &&& forall|i: int| 0 <= i < t.len() ==> !is_fts_special(#[trigger] t[i])
    &&& t[0] != '-'
    &&& t.last() != '-'
}

/// Every non-empty term of a word is a usable term.
pub proof fn lemma_fts_term_clean(w: Seq<char>)
    requires
        no_ws(w),
        fts_term(w).len() > 0,
    ensures
        clean_term(fts_term(w)),
{
    let k = keep_chars(w, fts_plain());
    lemma_keep_chars(w, fts_plain());
    lemma_trim(k, eq_pred('-'));
    let t = fts_term(w);
    let (a, b) = choose|a: int, b: int| 0 <= a <= b <= k.len() && trim_by(k, eq_pred('-'))
        == k.subrange(a, b);
    assert forall|i: int| 0 <= i < t.len() implies !crate::text::is_ws(#[trigger] t[i])
        && !is_fts_special(t[i]) by {
        assert(t[i] == k[a + i]);
        assert(fts_plain()(k[a + i]));
        let j = choose|j: int| 0 <= j < w.len() && w[j] == k[a + i];
        assert(!crate::text::is_ws(w[j]));
    }
}

/// A usable term is its own term, and quoting it keeps it a single word.
pub proof fn lemma_quoted_term(t: Seq<char>)
    requires
        clean_term(t),
    ensures
        fts_term(quoted(t)) == t,
        quoted(t).len() > 0,
        no_ws(quoted(t)),
{
    let q = quoted(t);
    lemma_keep_chars_concat(seq!['"'] + t, seq!['"'], fts_plain());
    lemma_keep_chars_concat(seq!['"'], t, fts_plain());
    lemma_keep_chars(t, fts_plain());
    let one: Seq<char> = seq!['"'];
    assert(keep_chars(one, fts_plain()) =~= Seq::<char>::empty()) by {
        assert(one.drop_last() =~= Seq::<char>::empty());
        assert(one.last() == '"');
        assert(!fts_plain()(one.last()));
        assert(keep_chars(Seq::<char>::empty(), fts_plain()) =~= Seq::<char>::empty());
    }
    assert(Seq::<char>::empty() + t =~= t);
    assert(t + Seq::<char>::empty() =~= t);
    assert(keep_chars(q, fts_plain()) == t);
    assert(crate::text::trim_start_by(t, eq_pred('-')) == t);
    assert(crate::text::trim_end_by(t, eq_pred('-')) == t);
    assert forall|i: int| 0 <= i < q.len() implies !crate::text::is_ws(#[trigger] q[i]) by {
        if 1 <= i < q.len() - 1 {
            assert(q[i] == t[i - 1]);
        }
    }
}

/// Sanitising is idempotent.
pub proof fn lemma_fts_query_idempotent(input: Seq<char>)
    ensures
        fts_query(fts_query(input)) == fts_query(input),
{
    let ws = words(input);
    lemma_words_are_words(input);
    let terms = ws.map_values(|w: Seq<char>| fts_term(w));
    let ts = non_empty(terms);
    lemma_non_empty(terms);
    assert forall|i: int| 0 <= i < ts.len() implies clean_term(#[trigger] ts[i]) by {
        let j = choose|j: int| 0 <= j < terms.len() && terms[j] == ts[i];
        assert(no_ws(ws[j]));
        lemma_fts_term_clean(ws[j]);
    }
    let qs = ts.map_values(|t: Seq<char>| quoted(t));
    assert forall|i: int| 0 <= i < qs.len() implies (#[trigger] qs[i]).len() > 0 && no_ws(qs[i]) by {
        lemma_quoted_term(ts[i]);
    }
    assert(all_words(qs));
    lemma_words_of_join(qs);
    let r = fts_query(input);
    assert(r == join(qs, seq![' ']));
    assert(words(r) == qs);
    let terms2 = qs.map_values(|w: Seq<char>| fts_term(w));
    assert forall|i: int| 0 <= i < terms2.len() implies #[trigger] terms2[i] == ts[i] by {
        lemma_quoted_term(ts[i]);
    }
    assert(terms2 =~= ts);
    assert forall|i: int| 0 <= i < ts.len() implies (#[trigger] ts[i]).len() > 0 by {
        assert(clean_term(ts[i]));
    }
    lemma_non_empty(ts);
}


// ---------------------------------------------------------------------------
// Listing queries
// ---------------------------------------------------------------------------

/// How listed articles are ordered.
#[derive(Debug, Clone, Copy, PartialEq, Eq, Structural)]
pub enum ListOrder {
    /// Newest date first, then highest id (the default).
    Newest,
    Oldest,
    Longest,
    Shortest,
    Title,
}

/// The order that a sort setting asks for: `oldest`, `longest`, `shortest`
/// and `title` name theirs; anything else, or none, lists newest first.
pub open spec fn order_of(sort: Option<Seq<char>>) -> ListOrder {
    match sort {
        Some(s) => if s == "oldest"@ {
            ListOrder::Oldest
        } else if s == "longest"@ {
            ListOrder::Longest
        } else if s == "shortest"@ {
            ListOrder::Shortest
        } else if s == "title"@ {
            ListOrder::Title
        } else {
            ListOrder::Newest
        },
        None => ListOrder::Newest,
    }
}

impl ListOrder {
    /// The `ORDER BY` clause of the order.
    pub fn clause(&self) -> (r: &'static str)
        ensures
            r@ == match *self {
                ListOrder::Newest => "date DESC, id DESC"@,
                ListOrder::Oldest => "date ASC, id ASC"@,
                ListOrder::Longest => "word_count DESC"@,
                ListOrder::Shortest => "word_count ASC"@,
                ListOrder::Title => "title ASC"@,
            },
    {
        match self {
            ListOrder::Newest => "date DESC, id DESC",
            ListOrder::Oldest => "date ASC, id ASC",
            ListOrder::Longest => "word_count DESC",
            ListOrder::Shortest => "word_count ASC",
            ListOrder::Title => "title ASC",
        }
    }
}

/// Whether two texts are equal, character by character.
fn text_is(s: &str, lit: &str) -> (b: bool)
    ensures
        b == (s@ == lit@),
{
    let a = chars_of(s);
    let b = chars_of(lit);
    if a.len() != b.len() {
        return false;
    }
    let mut i: usize = 0;
    while i < a.len()
        invariant
            i <= a.len(),
            a.len() == b.len(),
            a@ == s@,
            b@ == lit@,
            forall|k: int| 0 <= k < i ==> a@[k] == b@[k],
        decreases a.len() - i,
    {
        if a[i] != b[i] {
            return false;
        }
        i = i + 1;
    }
    assert(a@ =~= b@);
    true
}

/// The order that a sort setting asks for.
pub fn list_order(sort: &Option<String>) -> (o: ListOrder)
    ensures
        o == order_of(
            match sort {
                Some(s) => Some(s@),
                None => None,
            },
        ),
{
    match sort {
        Some(s) => {
            let s = s.as_str();
            if text_is(s, "oldest") {
                ListOrder::Oldest
            } else if text_is(s, "longest") {
                ListOrder::Longest
            } else if text_is(s, "shortest") {
                ListOrder::Shortest
            } else if text_is(s, "title") {
                ListOrder::Title
            } else {
                ListOrder::Newest
            }
        },
        None => ListOrder::Newest,
    }
}

/// The parameters of a listing query. A search whose full-text form is not
/// empty uses the full-text index; any other search matches title and body
/// text with `LIKE`.
pub struct QueryPlan {
    pub use_fts: bool,
    pub order: ListOrder,
    /// `?1`: the full-text query, or the raw search for `LIKE`.
    pub search: Option<String>,
    /// `?2`
    pub section: Option<String>,
    /// `?3`: 1 to list only articles not uploaded yet, else 0.
    pub only_not_uploaded: i64,
    /// `?4`
    pub min_words: Option<i64>,
    /// `?5`
    pub max_words: Option<i64>,
    /// `?6`
    pub limit: i64,
}

/// Plans a listing query from the library's filters.
pub fn plan_query(query: &ArticleQuery) -> (p: QueryPlan)
    ensures
        p.use_fts == (query.search matches Some(s) && fts_query(s@).len() > 0),
        p.order == order_of(
            match query.sort {
                Some(s) => Some(s@),
                None => None,
            },
        ),
        p.use_fts ==> (p.search matches Some(t) && t@ == fts_query(query.search->0@)),
        !p.use_fts ==> match query.search {
            Some(s) => p.search matches Some(t) && t@ == s@,
            None => p.search is None,
        },
        match query.section {
            Some(s) => p.section matches Some(t) && t@ == s@,
            None => p.section is None,
        },
        p.only_not_uploaded == if query.only_not_uploaded { 1i64 } else { 0 },
        p.min_words == query.min_words,
        p.max_words == query.max_words,
        p.limit == query.limit as i64,
{
    let fts = match &query.search {
        Some(s) => Some(sanitize_fts_query(s.as_str())),
        None => None,
    };
    let use_fts = match &fts {
        Some(t) => !t.as_str().is_empty(),
        None => false,
    };
    let search = if use_fts {
        fts
    } else {
        match &query.search {
            Some(s) => Some(s.clone()),
            None => None,
        }
    };
    let section = match &query.section {
        Some(s) => Some(s.clone()),
        None => None,
    };
    QueryPlan {
        use_fts,
        order: list_order(&query.sort),
        search,
        section,
        only_not_uploaded: if query.only_not_uploaded { 1 } else { 0 },
        min_words: query.min_words,
        max_words: query.max_words,
        limit: query.limit as i64,
    }
}

// ---------------------------------------------------------------------------
// Schema versions
// ---------------------------------------------------------------------------

/// The schema version that the migrations lead to.
pub const SCHEMA_VERSION: i64 = 4;

/// The first migration step that a database at schema version `current`
/// still needs.
pub open spec fn first_pending(current: i64) -> int {
    if current < 0 {
        1
    } else {
        current + 1
    }
}

/// The migration steps still to run on a database at schema version
/// `current`, in order: every step above it, up to `SCHEMA_VERSION`.
pub fn pending_migrations(current: i64) -> (steps: Vec<i64>)
    ensures
        steps@.len() == if first_pending(current) > SCHEMA_VERSION {
            0
        } else {
            SCHEMA_VERSION - first_pending(current) + 1
        },
        forall|k: int| 0 <= k < steps@.len() ==> #[trigger] steps@[k] == first_pending(current) + k,
{
    let mut steps: Vec<i64> = Vec::new();
    let mut v: i64 = 1;
    while v <= SCHEMA_VERSION
        invariant
            1 <= v <= SCHEMA_VERSION + 1,
            steps@.len() == if first_pending(current) >= v {
                0
            } else {
                v - first_pending(current)
            },
            forall|k: int| 0 <= k < steps@.len() ==> #[trigger] steps@[k] == first_pending(current) + k,
        decreases SCHEMA_VERSION + 1 - v,
    {
        if current < v {
            steps.push(v);
        }
        v = v + 1;
    }
    steps
}

} // verus!
