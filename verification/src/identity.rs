//! Stable identities for taz.de articles.

use vstd::prelude::*;
use crate::patterns::{regex_capture, regex_capture_result};
use crate::text::{
    chars_of, eq_pred, first_match, is_ws, lemma_first_match, lemma_first_match_is, lemma_trim,
    lowercase_of, matches_at, slice_range, split_on, str_to_lowercase, string_of, trim,
    trim_end_by, trim_start_by, trim_ws, ws_pred,
};

verus! {

/// Finds the numeric article id: `!` (or its percent encoding `%21`)
/// followed by digits, then a `/` or the end of the URL.
pub const ARTICLE_ID_PATTERN: &'static str = "(?:%21|!)(\\d+)(?:/|$)";

/// The part of `s` before the first `c` (all of `s` if there is none), as
/// `s.split(c).next()` gives it.
pub open spec fn before_char(s: Seq<char>, c: char) -> Seq<char> {
    split_on(s, seq![c])[0]
}

/// `s` with every leading repetition of `p` removed (`str::trim_start_matches`).
pub open spec fn strip_prefix_all(s: Seq<char>, p: Seq<char>) -> Seq<char>
    decreases s.len(),
{
    if p.len() > 0 && p.len() <= s.len() && s.take(p.len() as int) == p {
        strip_prefix_all(s.skip(p.len() as int), p)
    } else {
        s
    }
}

pub open spec fn https_scheme() -> Seq<char> {
    seq!['h', 't', 't', 'p', 's', ':', '/', '/']
}

pub open spec fn http_scheme() -> Seq<char> {
    seq!['h', 't', 't', 'p', ':', '/', '/']
}

pub open spec fn www_prefix() -> Seq<char> {
    seq!['w', 'w', 'w', '.']
}

/// The URL key: the trimmed URL without fragment, query and trailing slashes,
/// without leading `https://`, `http://` and `www.`, in lower case.
pub open spec fn url_key(url: Seq<char>) -> Seq<char> {
    let base = trim_end_by(before_char(before_char(trim(url), '#'), '?'), eq_pred('/'));
    lowercase_of(
        strip_prefix_all(strip_prefix_all(strip_prefix_all(base, https_scheme()), http_scheme()), www_prefix()),
    )
}

/// The article key: the numeric article id when the URL holds one, otherwise
/// `url:` followed by the URL key.
pub open spec fn article_key(url: Seq<char>) -> Seq<char> {
    match regex_capture_result(ARTICLE_ID_PATTERN@, url, 1) {
        Some(id) => id,
        None => seq!['u', 'r', 'l', ':'] + url_key(url),
    }
}

/// `n` is a non-empty run of the ASCII digits `0` to `9`.
pub open spec fn ascii_digits(n: Seq<char>) -> bool {
    n.len() > 0 && forall|i: int| 0 <= i < n.len() ==> '0' <= #[trigger] n[i] <= '9'
}

/// `s` holds no article-id marker: neither `!` nor `%21`.
pub open spec fn no_id_marker(s: Seq<char>) -> bool {
    &&& !s.contains('!')
    &&& forall|i: int|
        0 <= i && i + 3 <= s.len() ==> !(#[trigger] s[i] == '%' && s[i + 1] == '2' && s[i + 2]
            == '1')
}

/// The first article-id marker in `url` is a `!`, followed by the ASCII
/// digits `n` and then a `/`.
pub open spec fn id_after_first_bang(url: Seq<char>, n: Seq<char>) -> bool {
    &&& ascii_digits(n)
    &&& exists|k: int|
        0 <= k && k + n.len() + 2 <= url.len() && no_id_marker(#[trigger] url.take(k)) && url[k]
            == '!' && url.subrange(k + 1, k + 1 + n.len()) == n && url[k + 1 + n.len()] == '/'
}

/// The digits after the first article-id marker of `url`, where that marker
/// is a `!` followed by ASCII digits and a `/`.
pub open spec fn first_bang_id(url: Seq<char>) -> Option<Seq<char>> {
    if exists|n: Seq<char>| id_after_first_bang(url, n) {
        Some(choose|n: Seq<char>| id_after_first_bang(url, n))
    } else {
        None
    }
}

/// At most one digit run follows the first marker.
proof fn lemma_first_bang_unique(url: Seq<char>, n1: Seq<char>, n2: Seq<char>)
    requires
        id_after_first_bang(url, n1),
        id_after_first_bang(url, n2),
    ensures
        n1 == n2,
{
    let k1 = choose|k: int|
        0 <= k && k + n1.len() + 2 <= url.len() && no_id_marker(#[trigger] url.take(k)) && url[k]
            == '!' && url.subrange(k + 1, k + 1 + n1.len()) == n1 && url[k + 1 + n1.len()] == '/';
    let k2 = choose|k: int|
        0 <= k && k + n2.len() + 2 <= url.len() && no_id_marker(#[trigger] url.take(k)) && url[k]
            == '!' && url.subrange(k + 1, k + 1 + n2.len()) == n2 && url[k + 1 + n2.len()] == '/';
    if k1 < k2 {
        assert(url.take(k2)[k1] == '!');
        assert(url.take(k2).contains('!'));
    }
    if k2 < k1 {
        assert(url.take(k1)[k2] == '!');
        assert(url.take(k1).contains('!'));
    }
    assert(k1 == k2);
    if n1.len() < n2.len() {
        assert(url[k1 + 1 + n1.len()] == url.subrange(k2 + 1, k2 + 1 + n2.len())[n1.len() as int]);
        assert('0' <= n2[n1.len() as int] <= '9');
    }
    if n2.len() < n1.len() {
        assert(url[k2 + 1 + n2.len()] == url.subrange(k1 + 1, k1 + 1 + n1.len())[n2.len() as int]);
        assert('0' <= n1[n2.len() as int] <= '9');
    }
    assert(n1 =~= n2);
}

/// A taz.de article URL with the slug `slug` and the article id `id`:
/// `https://taz.de/{slug}/!{id}/`.
pub open spec fn taz_article_url(slug: Seq<char>, id: Seq<char>) -> Seq<char> {
    "https://taz.de/"@ + slug + "/!"@ + id + "/"@
}

/// The part of `s` before the first `c`.
fn take_before(s: &[char], c: char) -> (r: Vec<char>)
    ensures
        r@ == before_char(s@, c),
{
    let sep: Vec<char> = vec![c];
    let pieces = crate::text::split_on_exec(s, sep.as_slice());
    proof {
        crate::text::lemma_split_on_nonempty(s@, sep@);
    }
    assert(sep@ =~= seq![c]);
    pieces[0].clone()
}

/// Removes every leading repetition of `p` from `s`.
fn strip_all(s: Vec<char>, p: &[char]) -> (r: Vec<char>)
    requires
        p@.len() > 0,
    ensures
        r@ == strip_prefix_all(s@, p@),
{
    let mut i: usize = 0;
    assert(s@.skip(0) =~= s@);
    while i <= s.len() && p.len() <= s.len() - i && crate::text::matches_at_exec(s.as_slice(), p, i)
        invariant
            i <= s.len(),
            p@.len() > 0,
            strip_prefix_all(s@, p@) == strip_prefix_all(s@.skip(i as int), p@),
        decreases s.len() - i,
    {
        assert(s@.skip(i as int).take(p@.len() as int) =~= s@.subrange(i as int, i + p@.len()));
        assert(s@.skip(i as int).skip(p@.len() as int) =~= s@.skip(i + p@.len()));
        i = i + p.len();
    }
    proof {
        if p@.len() <= s@.skip(i as int).len() {
            assert(s@.skip(i as int).take(p@.len() as int) =~= s@.subrange(i as int, i + p@.len()));
        }
    }
    let r = slice_range(s.as_slice(), i, s.len());
    assert(r@ =~= s@.skip(i as int));
    r
}

/// Removes trailing slashes.
fn trim_end_slashes(s: Vec<char>) -> (r: Vec<char>)
    ensures
        r@ == trim_end_by(s@, eq_pred('/')),
{
    let mut j: usize = s.len();
    assert(s@.subrange(0, s.len() as int) =~= s@);
    while j > 0 && s[j - 1] == '/'
        invariant
            j <= s.len(),
            trim_end_by(s@, eq_pred('/')) == trim_end_by(s@.subrange(0, j as int), eq_pred('/')),
        decreases j,
    {
        assert(s@.subrange(0, j as int).drop_last() =~= s@.subrange(0, j - 1));
        assert(s@.subrange(0, j as int).last() == s@[j - 1]);
        assert(eq_pred('/')(s@.subrange(0, j as int).last()));
        j = j - 1;
    }
    slice_range(s.as_slice(), 0, j)
}

/// The numeric article id embedded in a taz.de URL (`…/!1234567/`), if any.
pub fn article_numeric_id(url: &str) -> (r: Option<String>)
    ensures
        match r {
            Some(id) => regex_capture_result(ARTICLE_ID_PATTERN@, url@, 1) == Some(id@),
            None => regex_capture_result(ARTICLE_ID_PATTERN@, url@, 1) is None,
        },
        r matches Some(id) ==> id@.len() > 0,
        forall|n: Seq<char>| #[trigger] id_after_first_bang(url@, n) ==> (r matches Some(id) && id@
            == n),
{
    proof {
        assert forall|n: Seq<char>| #[trigger] id_after_first_bang(url@, n) implies first_bang_id(
            url@,
        ) == Some(n) by {
            lemma_first_bang_unique(url@, n, choose|m: Seq<char>| id_after_first_bang(url@, m));
        }
    }
    regex_capture(ARTICLE_ID_PATTERN, url, 1)
}

/// A normalised key for a URL: trimmed, without fragment, query and trailing
/// slashes, without leading `https://`, `http://` and `www.`, lower-cased.
pub fn normalized_url_key(url: &str) -> (r: String)
    ensures
        r@ == url_key(url@),
{
    let chars = chars_of(url);
    let trimmed = trim_ws(chars.as_slice());
    let no_fragment = take_before(trimmed.as_slice(), '#');
    let no_query = take_before(no_fragment.as_slice(), '?');
    let base = trim_end_slashes(no_query);
    let https: Vec<char> = vec!['h', 't', 't', 'p', 's', ':', '/', '/'];
    let http: Vec<char> = vec!['h', 't', 't', 'p', ':', '/', '/'];
    let www: Vec<char> = vec!['w', 'w', 'w', '.'];
    assert(https@ =~= https_scheme());
    assert(http@ =~= http_scheme());
    assert(www@ =~= www_prefix());
    let a = strip_all(base, https.as_slice());
    let b = strip_all(a, http.as_slice());
    let c = strip_all(b, www.as_slice());
    let s = string_of(c.as_slice());
    str_to_lowercase(s.as_str())
}

/// A stable key for a taz.de article URL. The numeric article id is
/// preferred because slugs change while the `!1234567` id stays; without one
/// the key is `url:` followed by the normalised URL key.
pub fn article_key_from_url(url: &str) -> (r: String)
    ensures
        r@ == article_key(url@),
        regex_capture_result(ARTICLE_ID_PATTERN@, url@, 1) is None ==> r@.len() >= 4 && r@.take(4)
            == seq!['u', 'r', 'l', ':'],
        r@.len() > 0,
        forall|slug: Seq<char>, id: Seq<char>|
            url@ == #[trigger] taz_article_url(slug, id) && no_id_marker(slug) && ascii_digits(id)
                ==> r@ == id,
{
    let found = article_numeric_id(url);
    proof {
        assert forall|slug: Seq<char>, id: Seq<char>|
            url@ == #[trigger] taz_article_url(slug, id) && no_id_marker(slug) && ascii_digits(
                id,
            ) implies (found matches Some(x) && x@ == id) by {
            lemma_taz_url_id(slug, id);
        }
    }
    if let Some(id) = found {
        return id;
    }
    let key = normalized_url_key(url);
    let mut out: Vec<char> = vec!['u', 'r', 'l', ':'];
    let key_chars = chars_of(key.as_str());
    crate::text::append_chars(&mut out, key_chars.as_slice());
    assert(out@.take(4) =~= seq!['u', 'r', 'l', ':']);
    string_of(out.as_slice())
}

/// In `https://taz.de/{slug}/!{id}/`, where the slug holds neither `!` nor
/// `%21` and the id is ASCII digits, the first article-id marker is the `!`
/// before the id: so the article key is the id, whatever the slug.
pub proof fn lemma_taz_url_id(slug: Seq<char>, id: Seq<char>)
    requires
        no_id_marker(slug),
        ascii_digits(id),
    ensures
        id_after_first_bang(taz_article_url(slug, id), id),
{
    reveal_strlit("https://taz.de/");
    reveal_strlit("/!");
    reveal_strlit("/");
    let head = "https://taz.de/"@;
    let u = taz_article_url(slug, id);
    let k: int = (head.len() + slug.len() + 1) as int;
    let t = u.take(k);
    assert(t =~= head + slug + "/"@);
    assert(u[k] == '!');
    assert(u.subrange(k + 1, k + 1 + id.len()) =~= id);
    assert(u[k + 1 + id.len()] == '/');
    assert forall|i: int| 0 <= i < t.len() implies t[i] != '!' by {
        if head.len() <= i < head.len() + slug.len() {
            assert(t[i] == slug[i - head.len()]);
            if slug[i - head.len()] == '!' {
                assert(slug.contains('!'));
            }
        }
    }
    assert forall|i: int|
        0 <= i && i + 3 <= t.len() implies !(#[trigger] t[i] == '%' && t[i + 1] == '2' && t[i + 2]
        == '1') by {
        if head.len() <= i && i + 3 <= head.len() + slug.len() {
            let j = i - head.len();
            assert(t[i] == slug[j]);
            assert(t[i + 1] == slug[j + 1]);
            assert(t[i + 2] == slug[j + 2]);
        } else if head.len() <= i {
            assert(t[i + 2] == '/' || t[i + 2] == slug[i + 2 - head.len()]);
        }
    }
    assert(no_id_marker(t));
}


// ---------------------------------------------------------------------------
// What the URL key ignores
// ---------------------------------------------------------------------------

/// The part before `c` ends at the first `c`.
proof fn lemma_before_char_at(s: Seq<char>, c: char, k: int)
    requires
        0 <= k < s.len(),
        s[k] == c,
        forall|j: int| 0 <= j < k ==> s[j] != c,
    ensures
        before_char(s, c) == s.take(k),
{
    assert(s.subrange(k, k + 1) =~= seq![c]);
    assert forall|j: int| 0 <= j < k implies !matches_at(s, seq![c], j) by {
        if matches_at(s, seq![c], j) {
            assert(s.subrange(j, j + 1)[0] == s[j]);
        }
    }
    lemma_first_match_is(s, seq![c], k);
}

/// Without a `c`, the part before `c` is everything.
proof fn lemma_before_char_none(s: Seq<char>, c: char)
    requires
        forall|j: int| 0 <= j < s.len() ==> s[j] != c,
    ensures
        before_char(s, c) == s,
{
    lemma_first_match(s, seq![c]);
    if let Some(k) = first_match(s, seq![c]) {
        assert(s.subrange(k, k + 1)[0] == s[k]);
    }
}

/// Trimming at the back keeps a prefix and drops only trimmed characters.
proof fn lemma_trim_end_drops(s: Seq<char>, p: spec_fn(char) -> bool)
    ensures
        exists|k: int|
            0 <= k <= s.len() && trim_end_by(s, p) == s.take(k) && forall|j: int|
                k <= j < s.len() ==> p(#[trigger] s[j]),
    decreases s.len(),
{
    if s.len() > 0 && p(s.last()) {
        lemma_trim_end_drops(s.drop_last(), p);
        let k = choose|k: int|
            0 <= k <= s.drop_last().len() && trim_end_by(s.drop_last(), p) == s.drop_last().take(k)
                && forall|j: int| k <= j < s.drop_last().len() ==> p(#[trigger] s.drop_last()[j]);
        assert(s.drop_last().take(k) =~= s.take(k));
        assert forall|j: int| k <= j < s.len() implies p(#[trigger] s[j]) by {
            if j < s.len() - 1 {
                assert(s.drop_last()[j] == s[j]);
            }
        }
    } else {
        assert(s.take(s.len() as int) =~= s);
    }
}

/// Trailing slashes come off the last part only, when it holds another character.
proof fn lemma_trim_end_concat(a: Seq<char>, h: Seq<char>, c: char)
    requires
        exists|j: int| 0 <= j < h.len() && h[j] != c,
    ensures
        trim_end_by(a + h, eq_pred(c)) == a + trim_end_by(h, eq_pred(c)),
    decreases h.len(),
{
    if h.last() == c {
        assert((a + h).drop_last() =~= a + h.drop_last());
        assert(exists|j: int| 0 <= j < h.drop_last().len() && h.drop_last()[j] != c) by {
            let j = choose|j: int| 0 <= j < h.len() && h[j] != c;
            assert(j < h.len() - 1);
            assert(h.drop_last()[j] == h[j]);
        }
        lemma_trim_end_concat(a, h.drop_last(), c);
    } else {
        assert((a + h).last() == h.last());
    }
}

/// Removing repetitions of `p` from `p` followed by `y` removes that one first.
proof fn lemma_strip_once(p: Seq<char>, y: Seq<char>)
    requires
        p.len() > 0,
    ensures
        strip_prefix_all(p + y, p) == strip_prefix_all(y, p),
{
    assert((p + y).take(p.len() as int) =~= p);
    assert((p + y).skip(p.len() as int) =~= y);
}

/// Trimming keeps everything up to a character that is not whitespace.
proof fn lemma_trim_keeps(s: Seq<char>, i: int)
    requires
        0 <= i < s.len(),
        !is_ws(s[0]),
        !is_ws(s[i]),
    ensures
        exists|k: int| i < k <= s.len() && trim(s) == s.take(k),
{
    assert(trim_start_by(s, ws_pred()) == s);
    lemma_trim_end_drops(s, ws_pred());
    let k = choose|k: int|
        0 <= k <= s.len() && trim_end_by(s, ws_pred()) == s.take(k) && forall|j: int|
            k <= j < s.len() ==> ws_pred()(#[trigger] s[j]);
    if k <= i {
        assert(ws_pred()(s[i]));
    }
    assert(trim(s) == s.take(k));
}

/// The part before the first `c`, when a `c` stands at `i` and none before `lo`.
proof fn lemma_before_char_between(t: Seq<char>, c: char, lo: int, i: int)
    requires
        0 <= lo <= i < t.len(),
        t[i] == c,
        forall|j: int| 0 <= j < lo ==> t[j] != c,
    ensures
        exists|m: int| lo <= m <= i && before_char(t, c) == t.take(m),
{
    lemma_first_match(t, seq![c]);
    assert(matches_at(t, seq![c], i)) by {
        assert(t.subrange(i, i + 1) =~= seq![c]);
    }
    assert(first_match(t, seq![c]) is Some);
    let m = first_match(t, seq![c])->0;
    assert(m <= i);
    assert(t[m] == c) by {
        assert(t.subrange(m, m + 1)[0] == t[m]);
    }
    assert forall|j: int| 0 <= j < m implies t[j] != c by {
        if t[j] == c {
            assert(t.subrange(j, j + 1) =~= seq![c]);
            assert(matches_at(t, seq![c], j));
        }
    }
    assert(m >= lo) by {
        if m < lo {
            assert(t[m] != c);
        }
    }
    lemma_before_char_at(t, c, m);
}

/// Cutting at the fragment and then at the query of `a/?q#f` leaves `a/`.
proof fn lemma_cut_query(a: Seq<char>, q: Seq<char>, f: Seq<char>)
    requires
        a.len() > 0,
        !is_ws(a[0]),
        forall|j: int| 0 <= j < a.len() ==> a[j] != '?' && a[j] != '#',
    ensures
        before_char(before_char(trim(a + seq!['/', '?'] + q + seq!['#'] + f), '#'), '?') == a
            + seq!['/'],
{
    let s = a + seq!['/', '?'] + q + seq!['#'] + f;
    let n: int = a.len() as int;
    let hash: int = n + 2 + q.len();
    assert(s[hash] == '#');
    assert(s[0] == a[0]);
    lemma_trim_keeps(s, hash);
    let k = choose|k: int| hash < k <= s.len() && trim(s) == s.take(k);
    let t = s.take(k);
    assert forall|j: int| 0 <= j < n + 2 implies t[j] != '#' by {
        if j < n {
            assert(t[j] == a[j]);
        } else {
            assert(t[j] == s[j]);
        }
    }
    assert(t[hash] == '#');
    lemma_before_char_between(t, '#', n + 2, hash);
    let m = choose|m: int| n + 2 <= m <= hash && before_char(t, '#') == t.take(m);
    let b = t.take(m);
    assert(b[n + 1] == '?');
    assert forall|j: int| 0 <= j < n + 1 implies b[j] != '?' by {
        if j < n {
            assert(b[j] == a[j]);
        } else {
            assert(b[j] == s[j]);
        }
    }
    lemma_before_char_at(b, '?', n + 1);
    assert(b.take(n + 1) =~= a + seq!['/']);
}

/// The leading-part removals give the same on `p` `w` `hp` as on `hp`.
proof fn lemma_strip_decoration(p: Seq<char>, w: Seq<char>, hp: Seq<char>)
    requires
        p == Seq::<char>::empty() || p == http_scheme() || p == https_scheme(),
        w == Seq::<char>::empty() || w == www_prefix(),
        hp.len() > 0,
        !(hp.len() >= 7 && hp.take(7) == http_scheme()),
        !(hp.len() >= 8 && hp.take(8) == https_scheme()),
    ensures
        strip_prefix_all(
            strip_prefix_all(strip_prefix_all(p + w + hp, https_scheme()), http_scheme()),
            www_prefix(),
        ) == strip_prefix_all(
            strip_prefix_all(strip_prefix_all(hp, https_scheme()), http_scheme()),
            www_prefix(),
        ),
{
    assert(strip_prefix_all(hp, https_scheme()) == hp);
    assert(strip_prefix_all(hp, http_scheme()) == hp);
    let y = w + hp;
    assert(strip_prefix_all(y, https_scheme()) == y && strip_prefix_all(y, http_scheme()) == y) by {
        if w.len() > 0 {
            assert(y[0] == 'w');
            if y.len() >= 8 && y.take(8) == https_scheme() {
                assert(y.take(8)[0] == y[0]);
            }
            if y.len() >= 7 && y.take(7) == http_scheme() {
                assert(y.take(7)[0] == y[0]);
            }
        } else {
            assert(y =~= hp);
        }
    }
    let base = p + w + hp;
    assert(base =~= p + y);
    let rest = strip_prefix_all(strip_prefix_all(base, https_scheme()), http_scheme());
    assert(rest == y) by {
        if p == https_scheme() {
            lemma_strip_once(https_scheme(), y);
        } else if p == http_scheme() {
            assert(!(base.len() >= 8 && base.take(8) == https_scheme())) by {
                if base.len() >= 8 && base.take(8) == https_scheme() {
                    assert(base.take(8)[4] == base[4]);
                    assert(base[4] == p[4]);
                }
            }
            lemma_strip_once(http_scheme(), y);
        } else {
            assert(base =~= y);
        }
    }
    assert(strip_prefix_all(y, www_prefix()) == strip_prefix_all(hp, www_prefix())) by {
        if w.len() > 0 {
            lemma_strip_once(www_prefix(), hp);
        } else {
            assert(y =~= hp);
        }
    }
}

/// The steps of the URL key before the prefix removals, on a bare `h`.
proof fn lemma_bare_base(h: Seq<char>)
    requires
        forall|j: int| 0 <= j < h.len() ==> h[j] != '?' && h[j] != '#',
        exists|j: int| 0 <= j < h.len() && h[j] != '/',
        h.len() > 0,
        !is_ws(h[0]),
        !is_ws(h.last()),
        !(h.len() >= 7 && h.take(7) == http_scheme()),
        !(h.len() >= 8 && h.take(8) == https_scheme()),
    ensures
        trim_end_by(before_char(before_char(trim(h), '#'), '?'), eq_pred('/')) == trim_end_by(
            h,
            eq_pred('/'),
        ),
        trim_end_by(h, eq_pred('/')).len() > 0,
        !(trim_end_by(h, eq_pred('/')).len() >= 7 && trim_end_by(h, eq_pred('/')).take(7)
            == http_scheme()),
        !(trim_end_by(h, eq_pred('/')).len() >= 8 && trim_end_by(h, eq_pred('/')).take(8)
            == https_scheme()),
{
    let hp = trim_end_by(h, eq_pred('/'));
    assert(trim_start_by(h, ws_pred()) == h);
    assert(trim_end_by(h, ws_pred()) == h);
    assert(trim(h) == h);
    lemma_before_char_none(h, '#');
    lemma_before_char_none(h, '?');
    lemma_trim_end_drops(h, eq_pred('/'));
    let kh = choose|kk: int|
        0 <= kk <= h.len() && trim_end_by(h, eq_pred('/')) == h.take(kk) && forall|j: int|
            kk <= j < h.len() ==> eq_pred('/')(#[trigger] h[j]);
    assert(kh > 0) by {
        let j = choose|j: int| 0 <= j < h.len() && h[j] != '/';
        if kh == 0 {
            assert(eq_pred('/')(h[j]));
        }
    }
    assert(!(hp.len() >= 8 && hp.take(8) == https_scheme())) by {
        if hp.len() >= 8 && hp.take(8) == https_scheme() {
            assert(h.take(8) =~= hp.take(8));
        }
    }
    assert(!(hp.len() >= 7 && hp.take(7) == http_scheme())) by {
        if hp.len() >= 7 && hp.take(7) == http_scheme() {
            assert(h.take(7) =~= hp.take(7));
        }
    }
}

/// The decorated host-and-path starts with no whitespace and holds no `?` or `#`.
proof fn lemma_decorated_start(h: Seq<char>, p: Seq<char>, w: Seq<char>)
    requires
        p == Seq::<char>::empty() || p == http_scheme() || p == https_scheme(),
        w == Seq::<char>::empty() || w == www_prefix(),
        forall|j: int| 0 <= j < h.len() ==> h[j] != '?' && h[j] != '#',
        h.len() > 0,
        !is_ws(h[0]),
    ensures
        (p + w + h).len() > 0,
        !is_ws((p + w + h)[0]),
        forall|j: int| 0 <= j < (p + w + h).len() ==> (p + w + h)[j] != '?' && (p + w + h)[j] != '#',
{
    let pw = p + w;
    let a = pw + h;
    assert(!is_ws(a[0])) by {
        reveal_strlit("www.");
        if p.len() > 0 {
            assert(a[0] == p[0]);
        } else if w.len() > 0 {
            assert(a[0] == w[0]);
        } else {
            assert(a[0] == h[0]);
        }
    }
    assert forall|j: int| 0 <= j < a.len() implies a[j] != '?' && a[j] != '#' by {
        if j >= pw.len() {
            assert(a[j] == h[j - pw.len()]);
        } else if j >= p.len() {
            assert(a[j] == w[j - p.len()]);
        } else {
            assert(a[j] == p[j]);
        }
    }
}

/// Trailing slashes come off the path only.
proof fn lemma_decorated_slashes(h: Seq<char>, pw: Seq<char>)
    requires
        exists|j: int| 0 <= j < h.len() && h[j] != '/',
    ensures
        trim_end_by(pw + h + seq!['/'], eq_pred('/')) == pw + trim_end_by(h, eq_pred('/')),
{
    let c = pw + h + seq!['/'];
    assert(c.drop_last() =~= pw + h);
    assert(c.last() == '/');
    lemma_trim_end_concat(pw, h, '/');
}

/// The URL key ignores a leading `http://` or `https://`, a leading `www.`,
/// trailing slashes, the query and the fragment: for a host-and-path `h`
/// without `?`, `#`, surrounding whitespace or a scheme of its own, and with a
/// character other than `/`, the key of `{p}{w}{h}/?{q}#{f}` is the key of `h`.
pub proof fn lemma_url_key_ignores_decoration(
    h: Seq<char>,
    p: Seq<char>,
    w: Seq<char>,
    q: Seq<char>,
    f: Seq<char>,
)
    requires
        p == Seq::<char>::empty() || p == http_scheme() || p == https_scheme(),
        w == Seq::<char>::empty() || w == www_prefix(),
        forall|j: int| 0 <= j < h.len() ==> h[j] != '?' && h[j] != '#',
        exists|j: int| 0 <= j < h.len() && h[j] != '/',
        !is_ws(h[0]),
        !is_ws(h.last()),
        !(h.len() >= 7 && h.take(7) == http_scheme()),
        !(h.len() >= 8 && h.take(8) == https_scheme()),
    ensures
        url_key(p + w + h + seq!['/', '?'] + q + seq!['#'] + f) == url_key(h),
{
    let s = p + w + h + seq!['/', '?'] + q + seq!['#'] + f;
    let hp = trim_end_by(h, eq_pred('/'));
    assert(h.len() > 0);
    lemma_decorated_start(h, p, w);
    lemma_cut_query(p + w + h, q, f);
    assert(before_char(before_char(trim(s), '#'), '?') == p + w + h + seq!['/']);
    lemma_decorated_slashes(h, p + w);
    let base = trim_end_by(before_char(before_char(trim(s), '#'), '?'), eq_pred('/'));
    assert(base == p + w + hp);
    lemma_bare_base(h);
    let bare = trim_end_by(before_char(before_char(trim(h), '#'), '?'), eq_pred('/'));
    assert(bare == hp);
    lemma_strip_decoration(p, w, hp);
}

} // verus!
