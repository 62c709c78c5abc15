//! LingQ lessons and courses: the values exchanged with LingQ and the rules
//! that shape lesson text, lesson rows and upload payloads.

use vstd::prelude::*;
use crate::numbers::{i64_to_text, signed_decimal};
use crate::text::{
    chars_of, concat, concat3, first_match, is_ws, join, join_with, lemma_first_match,
    lemma_join_front,
    lemma_join_chars, lemma_non_empty, lemma_split_join, lemma_words_are_words,
    lemma_words_of_join, matches_at_exec, no_ws, non_empty, split_on, split_on_exec, split_words,
    string_of, trim, trim_end_by, trim_start_by, trim_str, words, ws_pred,
};

verus! {

/// A LingQ course (collection) of the user.
#[derive(Debug, Clone)]
pub struct Collection {
    pub id: i64,
    pub title: String,
    pub lessons_count: i64,
}

/// A lesson that already exists on LingQ.
#[derive(Debug, Clone)]
pub struct RemoteLesson {
    pub id: i64,
    pub title: String,
    pub original_url: Option<String>,
    pub lesson_url: String,
}

/// What to upload as a lesson.
#[derive(Debug, Clone)]
pub struct UploadRequest {
    pub api_key: String,
    pub language_code: String,
    pub collection_id: Option<i64>,
    pub title: String,
    pub text: String,
    pub original_url: Option<String>,
}

/// The lesson that an upload created or updated.
#[derive(Debug, Clone)]
pub struct UploadResponse {
    pub lesson_id: i64,
    pub lesson_url: String,
}

/// The token that a username/password login returned.
#[derive(Debug, Clone)]
pub struct LoginResponse {
    pub token: String,
}

// ---------------------------------------------------------------------------
// Lesson text
// ---------------------------------------------------------------------------

/// Paragraph separator of lesson text.
pub open spec fn para_sep() -> Seq<char> {
    seq!['\n', '\n']
}

/// A paragraph with its whitespace collapsed to single spaces.
pub open spec fn collapse_ws(p: Seq<char>) -> Seq<char> {
    join(words(p), seq![' '])
}

/// Lesson text: the blank-line separated paragraphs of `t`, each with its
/// whitespace collapsed to single spaces, empty ones dropped, joined again
/// with one blank line.
pub open spec fn lesson_text(t: Seq<char>) -> Seq<char> {
    join(non_empty(split_on(t, para_sep()).map_values(|p: Seq<char>| collapse_ws(p))), para_sep())
}

/// Normalises lesson text before it is sent to LingQ: paragraphs stay
/// separated by a blank line, whitespace inside a paragraph collapses to
/// single spaces and empty paragraphs disappear. Normalising twice changes
/// nothing more.
pub fn normalize_text(text: &str) -> (r: String)
    ensures
        r@ == lesson_text(text@),
        lesson_text(r@) == r@,
        trim(r@) == r@,
        forall|k: int| 0 <= k && k + 2 < r@.len() ==> !(#[trigger] r@[k] == '\n' && r@[k + 1] == '\n'
            && r@[k + 2] == '\n'),
        r@.len() > 0 ==> forall|i: int|
            0 <= i < split_on(r@, para_sep()).len() ==> {
                let p = #[trigger] split_on(r@, para_sep())[i];
                p.len() > 0 && collapse_ws(p) == p
            },
{
    let chars = chars_of(text);
    let sep: Vec<char> = vec!['\n', '\n'];
    let space: Vec<char> = vec![' '];
    assert(sep@ =~= para_sep());
    let paras = split_on_exec(chars.as_slice(), sep.as_slice());
    let ghost collapsed = paras@.map_values(|w: Vec<char>| w@).map_values(
        |p: Seq<char>| collapse_ws(p),
    );
    let mut kept: Vec<Vec<char>> = Vec::new();
    let mut i: usize = 0;
    while i < paras.len()
        invariant
            i <= paras.len(),
            sep@ == para_sep(),
            space@ == seq![' '],
            collapsed == paras@.map_values(|w: Vec<char>| w@).map_values(
                |p: Seq<char>| collapse_ws(p),
            ),
            kept@.map_values(|w: Vec<char>| w@) == non_empty(collapsed.take(i as int)),
        decreases paras.len() - i,
    {
        let ws = split_words(&paras[i]);
        let p = join_with(&ws, space.as_slice());
        assert(collapsed.take(i + 1).drop_last() =~= collapsed.take(i as int));
        assert(collapsed.take(i + 1).last() == p@);
        if p.len() > 0 {
            kept.push(p);
            assert(kept@.map_values(|w: Vec<char>| w@) =~= non_empty(collapsed.take(i as int)).push(
                p@,
            ));
        }
        i = i + 1;
    }
    assert(collapsed.take(paras.len() as int) =~= collapsed);
    let out = join_with(&kept, sep.as_slice());
    let r = string_of(out.as_slice());
    proof {
        lemma_lesson_text_idempotent(text@);
        lemma_lesson_text_shape(text@);
    }
    r
}

/// A collapsed paragraph is its own collapse and holds no newline.
pub proof fn lemma_collapse_fixed(p: Seq<char>)
    ensures
        collapse_ws(collapse_ws(p)) == collapse_ws(p),
        forall|j: int| 0 <= j < collapse_ws(p).len() ==> #[trigger] collapse_ws(p)[j] != '\n',
{
    let ws = words(p);
    lemma_words_are_words(p);
    lemma_words_of_join(ws);
    assert forall|a: int, b: int| 0 <= a < ws.len() && 0 <= b < ws[a].len() implies #[trigger] ws[a][b]
        != '\n' by {
        assert(no_ws(ws[a]));
        assert(!is_ws(ws[a][b]));
    }
    lemma_join_chars(ws, seq![' '], '\n');
}

/// Empty text is already normal.
pub proof fn lemma_lesson_text_empty()
    ensures
        lesson_text(Seq::empty()) == Seq::<char>::empty(),
{
    let e = Seq::<char>::empty();
    lemma_first_match(e, para_sep());
    assert(first_match(e, para_sep()) is None);
    assert(split_on(e, para_sep()) == seq![e]);
    let m = split_on(e, para_sep()).map_values(|p: Seq<char>| collapse_ws(p));
    assert(m =~= seq![collapse_ws(e)]);
    assert(words(e) =~= Seq::<Seq<char>>::empty());
    assert(collapse_ws(e) =~= e);
    assert(non_empty(m.drop_last()) =~= Seq::<Seq<char>>::empty());
    assert(non_empty(m) =~= Seq::<Seq<char>>::empty());
}

/// Normalising lesson text is idempotent.
pub proof fn lemma_lesson_text_idempotent(t: Seq<char>)
    ensures
        lesson_text(lesson_text(t)) == lesson_text(t),
{
    let pieces = split_on(t, para_sep());
    let collapsed = pieces.map_values(|p: Seq<char>| collapse_ws(p));
    let qs = non_empty(collapsed);
    let r = lesson_text(t);
    assert(r == join(qs, para_sep()));
    lemma_non_empty(collapsed);
    assert forall|i: int| 0 <= i < qs.len() implies #[trigger] collapse_ws(qs[i]) == qs[i] && forall|
        j: int,
    | 0 <= j < qs[i].len() ==> qs[i][j] != '\n' by {
        let k = choose|k: int| 0 <= k < collapsed.len() && collapsed[k] == qs[i];
        lemma_collapse_fixed(pieces[k]);
    }
    if qs.len() == 0 {
        lemma_lesson_text_empty();
        assert(r =~= Seq::<char>::empty());
    } else {
        assert forall|i: int, j: int| 0 <= i < qs.len() && 0 <= j < qs[i].len() implies #[trigger] qs[i][j]
            != para_sep()[0] by {
            assert(collapse_ws(qs[i]) == qs[i]);
            assert(qs[i][j] != '\n');
        }
        lemma_split_join(qs, para_sep());
        let m = split_on(r, para_sep()).map_values(|p: Seq<char>| collapse_ws(p));
        assert(m =~= qs);
        lemma_non_empty(qs);
    }
}


/// The first character of a join is the first piece's first character.
proof fn lemma_join_first(ws: Seq<Seq<char>>, sep: Seq<char>)
    requires
        ws.len() > 0,
        ws[0].len() > 0,
    ensures
        join(ws, sep).len() > 0,
        join(ws, sep)[0] == ws[0][0],
{
    if ws.len() >= 2 {
        lemma_join_front(ws, sep);
    }
}

/// The last character of a join is the last piece's last character.
proof fn lemma_join_last(ws: Seq<Seq<char>>, sep: Seq<char>)
    requires
        ws.len() > 0,
        ws.last().len() > 0,
    ensures
        join(ws, sep).len() > 0,
        join(ws, sep).last() == ws.last().last(),
{
}

/// Non-empty pieces without a newline, joined by blank lines, never hold
/// three newlines in a row.
proof fn lemma_join_no_triple_newline(ws: Seq<Seq<char>>)
    requires
        forall|i: int| 0 <= i < ws.len() ==> (#[trigger] ws[i]).len() > 0,
        forall|i: int, j: int| 0 <= i < ws.len() && 0 <= j < ws[i].len() ==> #[trigger] ws[i][j] != '\n',
    ensures
        forall|k: int|
            0 <= k && k + 2 < join(ws, para_sep()).len() ==> !(#[trigger] join(ws, para_sep())[k]
                == '\n' && join(ws, para_sep())[k + 1] == '\n' && join(ws, para_sep())[k + 2]
                == '\n'),
    decreases ws.len(),
{
    let j = join(ws, para_sep());
    if ws.len() == 1 {
        assert(j == ws[0]);
        assert forall|k: int| 0 <= k && k + 2 < j.len() implies !(#[trigger] j[k] == '\n' && j[k + 1]
            == '\n' && j[k + 2] == '\n') by {
            assert(ws[0][k] != '\n');
        }
    } else if ws.len() > 1 {
        let front = ws.drop_last();
        lemma_join_no_triple_newline(front);
        let p = join(front, para_sep());
        let l = ws.last();
        assert(j == p + para_sep() + l);
        assert(front.last() == ws[ws.len() - 2]);
        lemma_join_last(front, para_sep());
        assert(l[0] != '\n') by {
            assert(ws[ws.len() - 1][0] != '\n');
        }
        assert(p.last() != '\n') by {
            assert(ws[ws.len() - 2][ws[ws.len() - 2].len() - 1] != '\n');
        }
        assert forall|k: int| 0 <= k && k + 2 < j.len() implies !(#[trigger] j[k] == '\n' && j[k + 1]
            == '\n' && j[k + 2] == '\n') by {
            if k + 2 < p.len() {
                assert(j[k] == p[k] && j[k + 1] == p[k + 1] && j[k + 2] == p[k + 2]);
            } else if k + 2 == p.len() {
                assert(j[k + 1] == p.last());
            } else if k + 2 == p.len() + 1 {
                assert(j[k] == p.last());
            } else {
                let m = k + 2 - p.len() - 2;
                assert(j[k + 2] == l[m]);
                assert(ws[ws.len() - 1][m] != '\n');
            }
        }
    }
}

/// A non-empty collapsed paragraph neither starts nor ends with whitespace.
proof fn lemma_collapse_ends(p: Seq<char>)
    requires
        collapse_ws(p).len() > 0,
    ensures
        !is_ws(collapse_ws(p)[0]),
        !is_ws(collapse_ws(p).last()),
{
    let ws = words(p);
    lemma_words_are_words(p);
    assert(ws.len() > 0);
    assert(ws[0].len() > 0 && no_ws(ws[0]));
    assert(ws.last().len() > 0 && no_ws(ws.last()));
    lemma_join_first(ws, seq![' ']);
    lemma_join_last(ws, seq![' ']);
    assert(!is_ws(ws.last()[ws.last().len() - 1]));
}

/// Normalised lesson text is trimmed, never holds three newlines in a row,
/// and, unless empty, splits at its blank lines into non-empty paragraphs
/// whose words are separated by single spaces.
#[verifier::spinoff_prover]
pub proof fn lemma_lesson_text_shape(t: Seq<char>)
    ensures
        forall|k: int|
            0 <= k && k + 2 < lesson_text(t).len() ==> !(#[trigger] lesson_text(t)[k] == '\n'
                && lesson_text(t)[k + 1] == '\n' && lesson_text(t)[k + 2] == '\n'),
        trim(lesson_text(t)) == lesson_text(t),
        lesson_text(t).len() > 0 ==> forall|i: int|
            0 <= i < split_on(lesson_text(t), para_sep()).len() ==> {
                let p = #[trigger] split_on(lesson_text(t), para_sep())[i];
                p.len() > 0 && collapse_ws(p) == p
            },
{
    let pieces = split_on(t, para_sep());
    let collapsed = pieces.map_values(|p: Seq<char>| collapse_ws(p));
    let qs = non_empty(collapsed);
    let r = lesson_text(t);
    assert(r == join(qs, para_sep()));
    lemma_non_empty(collapsed);
    assert forall|i: int| 0 <= i < qs.len() implies #[trigger] collapse_ws(qs[i]) == qs[i] && qs[i].len()
        > 0 && !is_ws(qs[i][0]) && !is_ws(qs[i].last()) && forall|j: int|
        0 <= j < qs[i].len() ==> qs[i][j] != '\n' by {
        let k = choose|k: int| 0 <= k < collapsed.len() && collapsed[k] == qs[i];
        lemma_collapse_fixed(pieces[k]);
        lemma_collapse_ends(pieces[k]);
    }
    assert forall|i: int, j: int| 0 <= i < qs.len() && 0 <= j < qs[i].len() implies #[trigger] qs[i][j]
        != '\n' by {
        assert(collapse_ws(qs[i]) == qs[i]);
    }
    assert forall|i: int| 0 <= i < qs.len() implies (#[trigger] qs[i]).len() > 0 by {
        assert(collapse_ws(qs[i]) == qs[i]);
    }
    lemma_join_no_triple_newline(qs);
    if qs.len() == 0 {
        assert(r =~= Seq::<char>::empty());
        assert(trim(r) =~= r);
    } else {
        assert(collapse_ws(qs[0]) == qs[0]);
        assert(collapse_ws(qs.last()) == qs.last());
        lemma_join_first(qs, para_sep());
        lemma_join_last(qs, para_sep());
        assert(!ws_pred()(r[0]));
        assert(trim_start_by(r, ws_pred()) == r);
        assert(!ws_pred()(r.last()));
        assert(trim_end_by(r, ws_pred()) == r);
        assert forall|i: int, j: int| 0 <= i < qs.len() && 0 <= j < qs[i].len() implies #[trigger] qs[i][j]
            != para_sep()[0] by {
            assert(collapse_ws(qs[i]) == qs[i]);
        }
        lemma_split_join(qs, para_sep());
    }
}


// ---------------------------------------------------------------------------
// Addresses
// ---------------------------------------------------------------------------

/// The LingQ API root.
pub const LINGQ_BASE: &'static str = "https://www.lingq.com/api/v3";

/// The username/password login endpoint.
pub const LINGQ_AUTH: &'static str = "https://www.lingq.com/api/v2/api-token-auth/";

/// The page of a lesson on the LingQ site.
pub open spec fn lesson_page_url(language: Seq<char>, id: i64) -> Seq<char> {
    "https://www.lingq.com/"@ + language + "/learn/lesson/"@ + signed_decimal(id as int) + "/"@
}

/// The address of a lesson's page on LingQ.
pub fn lesson_page(language: &str, id: i64) -> (r: String)
    ensures
        r@ == lesson_page_url(language@, id),
{
    let head = concat3("https://www.lingq.com/", language, "/learn/lesson/");
    concat3(head.as_str(), i64_to_text(id).as_str(), "/")
}

/// The address that lists the user's courses in a language.
pub fn collections_url(language: &str) -> (r: String)
    ensures
        r@ == LINGQ_BASE@ + "/"@ + language@ + "/collections/my/"@,
{
    concat3(concat(LINGQ_BASE, "/").as_str(), language, "/collections/my/")
}

/// The two addresses tried, in order, to list a course's lessons.
pub fn collection_lesson_urls(language: &str, collection_id: i64) -> (r: (String, String))
    ensures
        r.0@ == LINGQ_BASE@ + "/"@ + language@ + "/collections/"@ + signed_decimal(
            collection_id as int,
        ) + "/lessons/"@,
        r.1@ == LINGQ_BASE@ + "/"@ + language@ + "/lessons/?collection="@ + signed_decimal(
            collection_id as int,
        ),
{
    let id = i64_to_text(collection_id);
    let head = concat3(LINGQ_BASE, "/", language);
    let first = concat3(concat(head.as_str(), "/collections/").as_str(), id.as_str(), "/lessons/");
    let second = concat3(head.as_str(), "/lessons/?collection=", id.as_str());
    (first, second)
}

/// The address that lessons are uploaded to.
pub fn lessons_url(language: &str) -> (r: String)
    ensures
        r@ == LINGQ_BASE@ + "/"@ + language@ + "/lessons/"@,
{
    concat3(concat(LINGQ_BASE, "/").as_str(), language, "/lessons/")
}

/// The address of one lesson, for updates.
pub fn lesson_url(language: &str, lesson_id: i64) -> (r: String)
    ensures
        r@ == LINGQ_BASE@ + "/"@ + language@ + "/lessons/"@ + signed_decimal(lesson_id as int)
            + "/"@,
{
    concat3(lessons_url(language).as_str(), i64_to_text(lesson_id).as_str(), "/")
}

/// The value of the `Authorization` header for an API token.
pub fn auth_header(api_key: &str) -> (r: String)
    ensures
        r@ == "Token "@ + api_key@,
{
    concat("Token ", api_key)
}

// ---------------------------------------------------------------------------
// Paging
// ---------------------------------------------------------------------------

/// How many pages of courses are read at most.
pub const MAX_COLLECTION_PAGES: usize = 20;

/// How many pages of lessons are read at most.
pub const MAX_LESSON_PAGES: usize = 50;

/// Walks the pages of a listing: each page names the next one, and no more
/// than `max_pages` are read.
pub struct PageCursor {
    pub next: Option<String>,
    pub pages: usize,
    pub max_pages: usize,
}

impl PageCursor {
    /// A cursor at the first page.
    pub fn new(first: String, max_pages: usize) -> (c: Self)
        ensures
            c.next == Some(first),
            c.pages == 0,
            c.max_pages == max_pages,
    {
        PageCursor { next: Some(first), pages: 0, max_pages }
    }

    /// The address of the next page to read, or `None` when the listing has
    /// ended or the page limit is reached.
    pub fn take_next(&mut self) -> (url: Option<String>)
        requires
            old(self).pages <= old(self).max_pages,
        ensures
            final(self).max_pages == old(self).max_pages,
            final(self).next is None,
            final(self).pages <= final(self).max_pages,
            match old(self).next {
                None => url is None && final(self).pages == old(self).pages,
                Some(u) => if old(self).pages < old(self).max_pages {
                    url == Some(u) && final(self).pages == old(self).pages + 1
                } else {
                    url is None && final(self).pages == old(self).pages
                },
            },
    {
        let next = self.next.take();
        match next {
            None => None,
            Some(u) => {
                if self.pages < self.max_pages {
                    self.pages = self.pages + 1;
                    Some(u)
                } else {
                    None
                }
            },
        }
    }

    /// Notes where the page just read says the listing goes on.
    pub fn follow(&mut self, next: Option<String>)
        ensures
            final(self).next == next,
            final(self).pages == old(self).pages,
            final(self).max_pages == old(self).max_pages,
    {
        self.next = next;
    }
}

// ---------------------------------------------------------------------------
// Login and courses
// ---------------------------------------------------------------------------

/// A login that LingQ answered without a usable token.
pub const NO_TOKEN: &'static str = "LingQ login succeeded but no token was returned";

/// The login result for the token that LingQ returned: a token that is not
/// blank, or the error `NO_TOKEN`.
pub fn login_response(token: Option<String>) -> (r: Result<LoginResponse, String>)
    ensures
        match token {
            Some(t) => if trim(t@).len() > 0 {
                r matches Ok(lr) && lr.token@ == t@
            } else {
                r matches Err(e) && e@ == NO_TOKEN@
            },
            None => r matches Err(e) && e@ == NO_TOKEN@,
        },
{
    match token {
        Some(t) => {
            if trim_str(t.as_str()).as_str().is_empty() {
                Err(NO_TOKEN.to_owned())
            } else {
                Ok(LoginResponse { token: t })
            }
        },
        None => Err(NO_TOKEN.to_owned()),
    }
}

/// A course as the courses listing describes it; its lesson count may come
/// under either of two names.
pub struct CollectionRow {
    pub id: i64,
    pub title: String,
    pub lessons_count: Option<i64>,
    pub lessons_count_alt: Option<i64>,
}

/// The course for a row: its lesson count is the first count given, or 0.
pub fn collection_from_row(row: CollectionRow) -> (c: Collection)
    ensures
        c.id == row.id,
        c.title == row.title,
        c.lessons_count == match row.lessons_count {
            Some(n) => n,
            None => match row.lessons_count_alt {
                Some(n) => n,
                None => 0,
            },
        },
{
    let lessons_count = match row.lessons_count {
        Some(n) => n,
        None => match row.lessons_count_alt {
            Some(n) => n,
            None => 0,
        },
    };
    Collection { id: row.id, title: row.title, lessons_count }
}

// ---------------------------------------------------------------------------
// Lesson rows
// ---------------------------------------------------------------------------

/// A field of a JSON object, as far as lesson rows read it.
pub enum JsonField {
    /// The object has no such key (or is no object).
    Absent,
    /// An integer that fits in `i64`.
    Int(i64),
    /// A string.
    Text(String),
    /// Any other value, `null` included.
    Other,
}

/// The fields of a lesson row in a lessons listing.
pub struct LessonRow {
    pub id: JsonField,
    pub pk: JsonField,
    pub title: JsonField,
    pub original_url: JsonField,
    pub original_url_camel: JsonField,
    pub source_url: JsonField,
    pub source_url_camel: JsonField,
    pub url: JsonField,
    pub lesson_url: JsonField,
    pub lesson_url_camel: JsonField,
}

/// The first field present among `fields` (`get(..).or_else(..)`).
pub open spec fn first_present(fields: Seq<JsonField>) -> JsonField
    decreases fields.len(),
{
    if fields.len() == 0 {
        JsonField::Absent
    } else if fields[0] is Absent {
        first_present(fields.drop_first())
    } else {
        fields[0]
    }
}

/// The text of a field that holds a string.
pub open spec fn field_text(f: JsonField) -> Option<Seq<char>> {
    match f {
        JsonField::Text(s) => Some(s@),
        _ => None,
    }
}

/// The lesson id of a row: its `id`, or its `pk` when it has no `id`; `None`
/// unless that field is an integer.
pub open spec fn row_id(row: LessonRow) -> Option<i64> {
    match first_present(seq![row.id, row.pk]) {
        JsonField::Int(n) => Some(n),
        _ => None,
    }
}

/// The trimmed title of a row (empty when it has none).
pub open spec fn row_title(row: LessonRow) -> Seq<char> {
    match field_text(row.title) {
        Some(t) => trim(t),
        None => Seq::empty(),
    }
}

/// The source address of a row: the first present of its four names, when
/// it is a string that is not blank, trimmed.
pub open spec fn row_original_url(row: LessonRow) -> Option<Seq<char>> {
    match field_text(
        first_present(
            seq![row.original_url, row.original_url_camel, row.source_url, row.source_url_camel],
        ),
    ) {
        Some(u) => if trim(u).len() > 0 {
            Some(trim(u))
        } else {
            None
        },
        None => None,
    }
}

/// The lesson address of a row: the first present of its three names when it
/// is a string starting with `http`, else the lesson's page on LingQ.
pub open spec fn row_lesson_url(row: LessonRow, language: Seq<char>, id: i64) -> Seq<char> {
    match field_text(first_present(seq![row.url, row.lesson_url, row.lesson_url_camel])) {
        Some(u) => if u.len() >= 4 && u.take(4) == "http"@ {
            u
        } else {
            lesson_page_url(language, id)
        },
        None => lesson_page_url(language, id),
    }
}

/// The first present field, found at run time.
fn pick_field<'a>(fields: &[&'a JsonField]) -> (r: &'a JsonField)
    ensures
        *r == first_present(fields@.map_values(|f: &JsonField| *f)),
{
    let ghost fv = fields@.map_values(|f: &JsonField| *f);
    assert(fv.skip(0) =~= fv);
    let mut i: usize = 0;
    while i < fields.len()
        invariant
            i <= fields.len(),
            fv == fields@.map_values(|f: &JsonField| *f),
            first_present(fv) == first_present(fv.skip(i as int)),
        decreases fields.len() - i,
    {
        assert(fv.skip(i as int).drop_first() =~= fv.skip(i + 1));
        match fields[i] {
            JsonField::Absent => {},
            _ => {
                return fields[i];
            },
        }
        i = i + 1;
    }
    &JsonField::Absent
}

/// A text field's string, if it holds one.
fn text_of(f: &JsonField) -> (r: Option<&String>)
    ensures
        match field_text(*f) {
            Some(t) => r matches Some(s) && s@ == t,
            None => r is None,
        },
{
    match f {
        JsonField::Text(s) => Some(s),
        _ => None,
    }
}

/// Reads a lesson row: `None` for a row without an integer id or without a
/// title; else the lesson with its trimmed title, its source address, and its
/// page address (the row's own when it is a web address).
pub fn parse_remote_lesson(row: &LessonRow, language_code: &str) -> (r: Option<RemoteLesson>)
    ensures
        match r {
            None => row_id(*row) is None || row_title(*row).len() == 0,
            Some(lesson) => {
                &&& row_id(*row) == Some(lesson.id)
                &&& row_title(*row).len() > 0
                &&& lesson.title@ == row_title(*row)
                &&& match row_original_url(*row) {
                    Some(u) => lesson.original_url matches Some(o) && o@ == u,
                    None => lesson.original_url is None,
                }
                &&& lesson.lesson_url@ == row_lesson_url(*row, language_code@, lesson.id)
            },
        },
{
    let ids: [&JsonField; 2] = [&row.id, &row.pk];
    let idf = pick_field(&ids);
    assert(ids@.map_values(|f: &JsonField| *f) =~= seq![row.id, row.pk]);
    let id = match idf {
        JsonField::Int(n) => *n,
        _ => {
            return None;
        },
    };
    let title = match text_of(&row.title) {
        Some(t) => trim_str(t.as_str()),
        None => String::new(),
    };
    if title.as_str().is_empty() {
        return None;
    }
    let sources: [&JsonField; 4] = [
        &row.original_url,
        &row.original_url_camel,
        &row.source_url,
        &row.source_url_camel,
    ];
    assert(sources@.map_values(|f: &JsonField| *f) =~= seq![
        row.original_url,
        row.original_url_camel,
        row.source_url,
        row.source_url_camel,
    ]);
    let original_url = match text_of(pick_field(&sources)) {
        Some(u) => {
            let t = trim_str(u.as_str());
            if t.as_str().is_empty() {
                None
            } else {
                Some(t)
            }
        },
        None => None,
    };
    let pages: [&JsonField; 3] = [&row.url, &row.lesson_url, &row.lesson_url_camel];
    assert(pages@.map_values(|f: &JsonField| *f) =~= seq![
        row.url,
        row.lesson_url,
        row.lesson_url_camel,
    ]);
    let own = text_of(pick_field(&pages));
    let lesson_url = match own {
        Some(u) => {
            let chars = chars_of(u.as_str());
            let http = chars_of("http");
            proof {
                reveal_strlit("http");
            }
            if matches_at_exec(chars.as_slice(), http.as_slice(), 0) {
                assert(chars@.subrange(0, 4) =~= chars@.take(4));
                u.clone()
            } else {
                proof {
                    if chars@.len() >= 4 && chars@.take(4) == "http"@ {
                        assert(chars@.subrange(0, 4) =~= chars@.take(4));
                    }
                }
                lesson_page(language_code, id)
            }
        },
        None => lesson_page(language_code, id),
    };
    Some(RemoteLesson { id, title, original_url, lesson_url })
}

/// A page of a lessons listing: a bare array of rows, or an object that holds
/// its rows under one of three names and may name the next page.
pub enum LessonPage {
    Rows(Vec<LessonRow>),
    Paged {
        results: Option<Vec<LessonRow>>,
        lessons: Option<Vec<LessonRow>>,
        items: Option<Vec<LessonRow>>,
        next: Option<String>,
    },
}

/// The rows of a page and the address of the next one. An object's rows are
/// the first of `results`, `lessons` and `items` that it has, or none.
pub fn extract_lesson_rows(page: LessonPage) -> (r: (Vec<LessonRow>, Option<String>))
    ensures
        match page {
            LessonPage::Rows(rows) => r.0 == rows && r.1 is None,
            LessonPage::Paged { results, lessons, items, next } => {
                &&& r.1 == next
                &&& results matches Some(v) ==> r.0 == v
                &&& results is None ==> (lessons matches Some(v) ==> r.0 == v)
                &&& results is None && lessons is None ==> (items matches Some(v) ==> r.0 == v)
                &&& results is None && lessons is None && items is None ==> r.0@.len() == 0
            },
        },
{
    match page {
        LessonPage::Rows(rows) => (rows, None),
        LessonPage::Paged { results, lessons, items, next } => {
            let rows = match results {
                Some(v) => v,
                None => match lessons {
                    Some(v) => v,
                    None => match items {
                        Some(v) => v,
                        None => Vec::new(),
                    },
                },
            };
            (rows, next)
        },
    }
}

// ---------------------------------------------------------------------------
// Uploads
// ---------------------------------------------------------------------------

/// An upload whose text is empty once normalised.
pub const EMPTY_LESSON: &'static str = "lesson text is empty";

/// The body of an upload or update request.
pub struct LessonPayload {
    pub title: String,
    pub text: String,
    /// `private` for new lessons; updates leave the status alone.
    pub status: Option<String>,
    /// The course of a new lesson.
    pub collection: Option<i64>,
    pub original_url: Option<String>,
}

/// The payload for a request, or the error `EMPTY_LESSON` when its text is
/// blank after normalising. A new lesson is private and goes to the chosen
/// course; an update changes title, text and source address only.
pub fn lesson_payload(request: &UploadRequest, new_lesson: bool) -> (r: Result<
    LessonPayload,
    String,
>)
    ensures
        trim(lesson_text(request.text@)).len() == 0 <==> r is Err,
        r matches Err(e) ==> e@ == EMPTY_LESSON@,
        r matches Ok(p) ==> {
            &&& p.title@ == request.title@
            &&& p.text@ == lesson_text(request.text@)
            &&& (if new_lesson {
                p.status matches Some(st) && st@ == "private"@
            } else {
                p.status is None
            })
            &&& p.collection == if new_lesson {
                request.collection_id
            } else {
                None
            }
            &&& match request.original_url {
                Some(u) => p.original_url matches Some(o) && o@ == u@,
                None => p.original_url is None,
            }
        },
{
    let text = normalize_text(request.text.as_str());
    if trim_str(text.as_str()).as_str().is_empty() {
        return Err(EMPTY_LESSON.to_owned());
    }
    let original_url = match &request.original_url {
        Some(u) => Some(u.clone()),
        None => None,
    };
    let status = if new_lesson {
        Some("private".to_owned())
    } else {
        None
    };
    let collection = if new_lesson {
        request.collection_id
    } else {
        None
    };
    Ok(LessonPayload { title: request.title.clone(), text, status, collection, original_url })
}

/// The lesson that an upload or update created, from the id LingQ returned.
pub fn uploaded_lesson(language_code: &str, lesson_id: i64) -> (r: UploadResponse)
    ensures
        r.lesson_id == lesson_id,
        r.lesson_url@ == lesson_page_url(language_code@, lesson_id),
{
    UploadResponse { lesson_id, lesson_url: lesson_page(language_code, lesson_id) }
}

} // verus!
