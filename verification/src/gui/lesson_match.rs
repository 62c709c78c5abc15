//! Linking LingQ lessons that already exist to saved articles.

use vstd::prelude::*;
use crate::database::StoredArticleMeta;
use crate::identity::{normalized_url_key, url_key};
use crate::lingq::RemoteLesson;
use crate::text::{chars_of, join, join_with, lowercase_of, split_words, str_to_lowercase, string_of, words};

verus! {

/// A title compared for duplicates: words separated by single spaces, lower case.
pub open spec fn title_key(title: Seq<char>) -> Seq<char> {
    lowercase_of(join(words(title), seq![' ']))
}

/// The title key used to spot duplicate titles.
pub fn normalized_duplicate_title(title: &str) -> (r: String)
    ensures
        r@ == title_key(title@),
{
    let ws = split_words(&chars_of(title));
    let space: Vec<char> = vec![' '];
    assert(space@ =~= seq![' ']);
    let joined = string_of(join_with(&ws, space.as_slice()).as_slice());
    str_to_lowercase(joined.as_str())
}

/// The URL key used to compare a lesson's original URL with saved articles.
pub fn normalized_lingq_url(url: &str) -> (r: String)
    ensures
        r@ == url_key(url@),
{
    normalized_url_key(url)
}

/// What matching reads of a saved article: id, URL and title.
pub open spec fn article_view(a: StoredArticleMeta) -> (i64, Seq<char>, Seq<char>) {
    (a.id, a.url@, a.title@)
}

/// What matching reads of a lesson: id, title, original URL and lesson URL.
pub open spec fn lesson_view(l: RemoteLesson) -> (i64, Seq<char>, Option<Seq<char>>, Seq<char>) {
    (
        l.id,
        l.title@,
        match l.original_url {
            Some(u) => Some(u@),
            None => None,
        },
        l.lesson_url@,
    )
}

/// The last article whose URL key is `key`.
pub open spec fn url_owner(arts: Seq<(i64, Seq<char>, Seq<char>)>, key: Seq<char>) -> Option<i64>
    decreases arts.len(),
{
    if arts.len() == 0 {
        None
    } else if url_key(arts.last().1) == key {
        Some(arts.last().0)
    } else {
        url_owner(arts.drop_last(), key)
    }
}

/// The ids of the articles whose title key is `key`, in order.
pub open spec fn title_owners(arts: Seq<(i64, Seq<char>, Seq<char>)>, key: Seq<char>) -> Seq<i64>
    decreases arts.len(),
{
    if arts.len() == 0 {
        Seq::empty()
    } else if title_key(arts.last().2) == key {
        title_owners(arts.drop_last(), key).push(arts.last().0)
    } else {
        title_owners(arts.drop_last(), key)
    }
}

/// The article a lesson belongs to, and whether its title was ambiguous: the
/// article with the lesson's original URL if there is one, else the only
/// article with the lesson's title.
pub open spec fn lesson_owner(
    arts: Seq<(i64, Seq<char>, Seq<char>)>,
    lesson: (i64, Seq<char>, Option<Seq<char>>, Seq<char>),
) -> (Option<i64>, bool) {
    let by_url = match lesson.2 {
        Some(u) => url_owner(arts, url_key(u)),
        None => None,
    };
    if by_url is Some {
        (by_url, false)
    } else {
        let ids = title_owners(arts, title_key(lesson.1));
        if ids.len() == 1 {
            (Some(ids[0]), false)
        } else {
            (None, ids.len() > 1)
        }
    }
}

/// Matches found, ambiguous titles counted and article ids used, reading the
/// lessons in order; each article is matched at most once.
pub open spec fn match_state(
    arts: Seq<(i64, Seq<char>, Seq<char>)>,
    lessons: Seq<(i64, Seq<char>, Option<Seq<char>>, Seq<char>)>,
) -> (Seq<(i64, i64, Seq<char>)>, nat, Seq<i64>)
    decreases lessons.len(),
{
    if lessons.len() == 0 {
        (Seq::empty(), 0, Seq::empty())
    } else {
        let (matches, ambiguous, used) = match_state(arts, lessons.drop_last());
        let l = lessons.last();
        let (owner, amb) = lesson_owner(arts, l);
        let ambiguous2 = if amb {
            ambiguous + 1
        } else {
            ambiguous
        };
        match owner {
            Some(id) => if used.contains(id) {
                (matches, ambiguous2, used)
            } else {
                (matches.push((id, l.0, l.3)), ambiguous2, used.push(id))
            },
            None => (matches, ambiguous2, used),
        }
    }
}

/// The used ids are the matched articles, which are distinct articles of the library.
pub proof fn lemma_match_state(
    arts: Seq<(i64, Seq<char>, Seq<char>)>,
    lessons: Seq<(i64, Seq<char>, Option<Seq<char>>, Seq<char>)>,
)
    ensures
        match_state(arts, lessons).2 == match_state(arts, lessons).0.map_values(
            |m: (i64, i64, Seq<char>)| m.0,
        ),
        match_state(arts, lessons).1 <= lessons.len(),
    decreases lessons.len(),
{
    if lessons.len() > 0 {
        lemma_match_state(arts, lessons.drop_last());
        let (matches, ambiguous, used) = match_state(arts, lessons.drop_last());
        let l = lessons.last();
        let (owner, amb) = lesson_owner(arts, l);
        if let Some(id) = owner {
            if !used.contains(id) {
                assert(used.push(id) =~= matches.push((id, l.0, l.3)).map_values(
                    |m: (i64, i64, Seq<char>)| m.0,
                ));
            }
        }
    }
}

/// No article id is used twice.
pub proof fn lemma_match_ids_distinct(
    arts: Seq<(i64, Seq<char>, Seq<char>)>,
    lessons: Seq<(i64, Seq<char>, Option<Seq<char>>, Seq<char>)>,
)
    ensures
        forall|i: int, j: int|
            0 <= i < j < match_state(arts, lessons).2.len() ==> match_state(arts, lessons).2[i]
                != match_state(arts, lessons).2[j],
    decreases lessons.len(),
{
    if lessons.len() > 0 {
        lemma_match_ids_distinct(arts, lessons.drop_last());
        let (matches, ambiguous, used) = match_state(arts, lessons.drop_last());
        let (owner, amb) = lesson_owner(arts, lessons.last());
        if let Some(id) = owner {
            if !used.contains(id) {
                let u2 = used.push(id);
                assert forall|i: int, j: int| 0 <= i < j < u2.len() implies u2[i] != u2[j] by {
                    if j == used.len() {
                        assert(u2[i] == used[i]);
                    } else {
                        assert(u2[i] == used[i] && u2[j] == used[j]);
                    }
                }
            }
        }
    }
}

/// A lesson whose original URL matches no saved article is placed by its
/// title, exactly as a lesson without an original URL.
pub proof fn lemma_url_miss_falls_back_to_title(
    arts: Seq<(i64, Seq<char>, Seq<char>)>,
    id: i64,
    title: Seq<char>,
    url: Seq<char>,
    lesson_url: Seq<char>,
)
    requires
        url_owner(arts, url_key(url)) is None,
    ensures
        lesson_owner(arts, (id, title, Some(url), lesson_url)) == lesson_owner(
            arts,
            (id, title, None, lesson_url),
        ),
{
}

/// A lesson that no original URL places, whose title key belongs to exactly
/// one saved article not matched yet, is linked to that article: the match
/// `(article id, lesson id, lesson URL)` is added and nothing counts as
/// ambiguous.
pub proof fn lemma_unique_title_links(
    arts: Seq<(i64, Seq<char>, Seq<char>)>,
    lessons: Seq<(i64, Seq<char>, Option<Seq<char>>, Seq<char>)>,
    l: (i64, Seq<char>, Option<Seq<char>>, Seq<char>),
)
    requires
        l.2 matches Some(u) ==> url_owner(arts, url_key(u)) is None,
        title_owners(arts, title_key(l.1)).len() == 1,
        !match_state(arts, lessons).2.contains(title_owners(arts, title_key(l.1))[0]),
    ensures
        match_state(arts, lessons.push(l)).0 == match_state(arts, lessons).0.push(
            (title_owners(arts, title_key(l.1))[0], l.0, l.3),
        ),
        match_state(arts, lessons.push(l)).1 == match_state(arts, lessons).1,
{
    assert(lessons.push(l).drop_last() =~= lessons);
}

/// The id of the last article whose URL key is `key`.
fn find_url_owner(articles: &[StoredArticleMeta], url_keys: &Vec<String>, key: &String) -> (r: Option<i64>)
    requires
        url_keys@.len() == articles@.len(),
        forall|i: int| 0 <= i < articles@.len() ==> #[trigger] url_keys@[i]@ == url_key(articles@[i].url@),
    ensures
        r == url_owner(articles@.map_values(|a: StoredArticleMeta| article_view(a)), key@),
{
    let ghost av = articles@.map_values(|a: StoredArticleMeta| article_view(a));
    let mut i: usize = articles.len();
    assert(av.take(i as int) =~= av);
    while i > 0
        invariant
            i <= articles@.len(),
            url_keys@.len() == articles@.len(),
            av == articles@.map_values(|a: StoredArticleMeta| article_view(a)),
            forall|k: int| 0 <= k < articles@.len() ==> #[trigger] url_keys@[k]@ == url_key(articles@[k].url@),
            url_owner(av, key@) == url_owner(av.take(i as int), key@),
        decreases i,
    {
        let ghost t = av.take(i as int);
        assert(t.drop_last() =~= av.take(i - 1));
        assert(t.last() == article_view(articles@[i - 1]));
        assert(url_keys@[i - 1]@ == url_key(articles@[i - 1].url@));
        if url_keys[i - 1] == *key {
            return Some(articles[i - 1].id);
        }
        i = i - 1;
    }
    assert(av.take(0) =~= Seq::<(i64, Seq<char>, Seq<char>)>::empty());
    None
}

/// The ids of the articles whose title key is `key`, in order.
fn find_title_owners(articles: &[StoredArticleMeta], title_keys: &Vec<String>, key: &String) -> (r: Vec<i64>)
    requires
        title_keys@.len() == articles@.len(),
        forall|i: int| 0 <= i < articles@.len() ==> #[trigger] title_keys@[i]@ == title_key(articles@[i].title@),
    ensures
        r@ == title_owners(articles@.map_values(|a: StoredArticleMeta| article_view(a)), key@),
{
    let ghost av = articles@.map_values(|a: StoredArticleMeta| article_view(a));
    let mut r: Vec<i64> = Vec::new();
    let mut i: usize = 0;
    while i < articles.len()
        invariant
            i <= articles@.len(),
            title_keys@.len() == articles@.len(),
            av == articles@.map_values(|a: StoredArticleMeta| article_view(a)),
            forall|k: int| 0 <= k < articles@.len() ==> #[trigger] title_keys@[k]@ == title_key(articles@[k].title@),
            r@ == title_owners(av.take(i as int), key@),
        decreases articles.len() - i,
    {
        assert(av.take(i + 1).drop_last() =~= av.take(i as int));
        assert(av.take(i + 1).last() == article_view(articles@[i as int]));
        assert(title_keys@[i as int]@ == title_key(articles@[i as int].title@));
        if title_keys[i] == *key {
            r.push(articles[i].id);
        }
        i = i + 1;
    }
    assert(av.take(articles.len() as int) =~= av);
    r
}

/// Whether `id` is one of `ids`.
pub fn contains_id(ids: &Vec<i64>, id: i64) -> (b: bool)
    ensures
        b == ids@.contains(id),
{
    let mut i: usize = 0;
    while i < ids.len()
        invariant
            i <= ids@.len(),
            forall|k: int| 0 <= k < i ==> ids@[k] != id,
        decreases ids.len() - i,
    {
        if ids[i] == id {
            return true;
        }
        i = i + 1;
    }
    false
}

/// Links LingQ lessons to saved articles: a lesson whose original URL has the
/// URL key of a saved article belongs to it (the last such article when
/// several share it); otherwise a lesson whose title has the title key of
/// exactly one saved article belongs to that one, and one whose title fits
/// several counts as ambiguous. Each article is matched to at most one lesson,
/// the first that fits. Returns `(article id, lesson id, lesson URL)` triples
/// and the number of ambiguous titles.
pub fn match_lingq_lessons(lessons: &[RemoteLesson], articles: &[StoredArticleMeta]) -> (r: (
    Vec<(i64, i64, String)>,
    usize,
))
    ensures
        ({
            let st = match_state(
                articles@.map_values(|a: StoredArticleMeta| article_view(a)),
                lessons@.map_values(|l: RemoteLesson| lesson_view(l)),
            );
            &&& r.0@.map_values(|m: (i64, i64, String)| (m.0, m.1, m.2@)) == st.0
            &&& r.1 == st.1
        }),
        r.1 <= lessons@.len(),
        forall|i: int, j: int| 0 <= i < j < r.0@.len() ==> r.0@[i].0 != r.0@[j].0,
{
    let ghost av = articles@.map_values(|a: StoredArticleMeta| article_view(a));
    let ghost lv = lessons@.map_values(|l: RemoteLesson| lesson_view(l));
    let mut url_keys: Vec<String> = Vec::new();
    let mut title_keys: Vec<String> = Vec::new();
    let mut k: usize = 0;
    while k < articles.len()
        invariant
            k <= articles@.len(),
            url_keys@.len() == k,
            title_keys@.len() == k,
            forall|i: int| 0 <= i < k ==> #[trigger] url_keys@[i]@ == url_key(articles@[i].url@),
            forall|i: int| 0 <= i < k ==> #[trigger] title_keys@[i]@ == title_key(articles@[i].title@),
        decreases articles.len() - k,
    {
        url_keys.push(normalized_lingq_url(articles[k].url.as_str()));
        title_keys.push(normalized_duplicate_title(articles[k].title.as_str()));
        k = k + 1;
    }
    let mut matches: Vec<(i64, i64, String)> = Vec::new();
    let mut used: Vec<i64> = Vec::new();
    let mut ambiguous: usize = 0;
    let mut i: usize = 0;
    while i < lessons.len()
        invariant
            i <= lessons@.len(),
            av == articles@.map_values(|a: StoredArticleMeta| article_view(a)),
            lv == lessons@.map_values(|l: RemoteLesson| lesson_view(l)),
            url_keys@.len() == articles@.len(),
            title_keys@.len() == articles@.len(),
            forall|j: int| 0 <= j < articles@.len() ==> #[trigger] url_keys@[j]@ == url_key(articles@[j].url@),
            forall|j: int| 0 <= j < articles@.len() ==> #[trigger] title_keys@[j]@ == title_key(articles@[j].title@),
            (matches@.map_values(|m: (i64, i64, String)| (m.0, m.1, m.2@)), ambiguous as nat, used@)
                == match_state(av, lv.take(i as int)),
            ambiguous <= i,
        decreases lessons.len() - i,
    {
        let lesson = &lessons[i];
        assert(lv.take(i + 1).drop_last() =~= lv.take(i as int));
        assert(lv.take(i + 1).last() == lesson_view(lessons@[i as int]));
        let mut owner: Option<i64> = None;
        let mut amb = false;
        match &lesson.original_url {
            Some(u) => {
                let key = normalized_lingq_url(u.as_str());
                owner = find_url_owner(articles, &url_keys, &key);
            },
            None => {},
        }
        if owner.is_none() {
            let key = normalized_duplicate_title(lesson.title.as_str());
            let ids = find_title_owners(articles, &title_keys, &key);
            if ids.len() == 1 {
                owner = Some(ids[0]);
            } else if ids.len() > 1 {
                amb = true;
            }
        }
        assert((owner, amb) == lesson_owner(av, lv[i as int]));
        if amb {
            ambiguous = ambiguous + 1;
        }
        match owner {
            Some(id) => {
                if !contains_id(&used, id) {
                    let ghost prev = matches@.map_values(|m: (i64, i64, String)| (m.0, m.1, m.2@));
                    matches.push((id, lesson.id, lesson.lesson_url.clone()));
                    used.push(id);
                    assert(matches@.map_values(|m: (i64, i64, String)| (m.0, m.1, m.2@)) =~= prev.push(
                        (id, lv[i as int].0, lv[i as int].3),
                    ));
                }
            },
            None => {},
        }
        i = i + 1;
    }
    assert(lv.take(lessons.len() as int) =~= lv);
    proof {
        lemma_match_state(av, lv);
        lemma_match_ids_distinct(av, lv);
        let st = match_state(av, lv);
        assert forall|a: int, b: int| 0 <= a < b < matches@.len() implies matches@[a].0
            != matches@[b].0 by {
            assert(st.2[a] == st.0[a].0);
            assert(st.0[a].0 == matches@[a].0);
            assert(st.2[b] == st.0[b].0);
            assert(st.0[b].0 == matches@[b].0);
        }
    }
    (matches, ambiguous)
}

} // verus!
