//! Character-level text primitives shared by the rest of the library.
//!
//! Strings are handled as sequences of `char` (`Seq<char>` in specifications,
//! `Vec<char>` in code). Unicode character classes and case mapping come from
//! the standard library and are named here by uninterpreted spec functions.

use vstd::prelude::*;

verus! {

// ---------------------------------------------------------------------------
// Standard-library character facts
// ---------------------------------------------------------------------------

/// Unicode `White_Space`, the property that `char::is_whitespace` tests:
/// U+0009..U+000D, U+0020, U+0085, U+00A0, U+1680, U+2000..U+200A, U+2028,
/// U+2029, U+202F, U+205F and U+3000.
pub open spec fn is_ws(c: char) -> bool {
    let u = c as u32;
    ||| 0x9 <= u <= 0xD
    ||| u == 0x20
    ||| u == 0x85
    ||| u == 0xA0
    ||| u == 0x1680
    ||| 0x2000 <= u <= 0x200A
    ||| u == 0x2028
    ||| u == 0x2029
    ||| u == 0x202F
    ||| u == 0x205F
    ||| u == 0x3000
}

/// Whether `char::is_alphanumeric` holds of `c`.
pub uninterp spec fn is_alnum(c: char) -> bool;

/// What `str::to_lowercase` returns for a string.
pub uninterp spec fn lowercase_of(s: Seq<char>) -> Seq<char>;

/// Whether `c` is whitespace, as `char::is_whitespace` answers.
pub fn char_is_whitespace(c: char) -> (b: bool)
    ensures
        b == is_ws(c),
{
    let u = c as u32;
    (0x9 <= u && u <= 0xD) || u == 0x20 || u == 0x85 || u == 0xA0 || u == 0x1680 || (0x2000 <= u
        && u <= 0x200A) || u == 0x2028 || u == 0x2029 || u == 0x202F || u == 0x205F || u == 0x3000
}

/// Calls `char::is_alphanumeric`; the contract only names the result.
#[verifier::external_body]
pub(crate) fn char_is_alphanumeric(c: char) -> (b: bool)
    ensures
        b == is_alnum(c),
{
    c.is_alphanumeric()
}

/// Calls `str::to_lowercase`; the contract only names the result.
#[verifier::external_body]
pub(crate) fn str_to_lowercase(s: &str) -> (r: String)
    ensures
        r@ == lowercase_of(s@),
{
    s.to_lowercase()
}

/// Collects the characters of a string (`str::chars`), in order.
#[verifier::external_body]
pub(crate) fn chars_of(s: &str) -> (v: Vec<char>)
    ensures
        v@ == s@,
{
    s.chars().collect()
}

/// Builds a string from characters (`FromIterator<char> for String`), in order.
#[verifier::external_body]
pub(crate) fn string_of(v: &[char]) -> (s: String)
    ensures
        s@ == v@,
{
    v.iter().collect()
}

// ---------------------------------------------------------------------------
// Words: maximal runs of non-whitespace characters (`str::split_whitespace`)
// ---------------------------------------------------------------------------

/// Words finished so far, and the word in progress, after reading `s`.
pub open spec fn word_scan(s: Seq<char>) -> (Seq<Seq<char>>, Seq<char>)
    decreases s.len(),
{
    if s.len() == 0 {
        (Seq::empty(), Seq::empty())
    } else {
        let (done, cur) = word_scan(s.drop_last());
        let c = s.last();
        if is_ws(c) {
            if cur.len() > 0 {
                (done.push(cur), Seq::empty())
            } else {
                (done, Seq::empty())
            }
        } else {
            (done, cur.push(c))
        }
    }
}

/// The whitespace-separated words of `s`, as `str::split_whitespace` yields them.
pub open spec fn words(s: Seq<char>) -> Seq<Seq<char>> {
    let (done, cur) = word_scan(s);
    if cur.len() > 0 {
        done.push(cur)
    } else {
        done
    }
}

/// `s` holds no whitespace character.
pub open spec fn no_ws(s: Seq<char>) -> bool {
    forall|i: int| 0 <= i < s.len() ==> !is_ws(#[trigger] s[i])
}

/// Every piece is non-empty and free of whitespace.
pub open spec fn all_words(ws: Seq<Seq<char>>) -> bool {
    forall|i: int| 0 <= i < ws.len() ==> (#[trigger] ws[i]).len() > 0 && no_ws(ws[i])
}

/// The pieces of `ws` joined with `sep` between neighbours (`[T]::join`).
pub open spec fn join(ws: Seq<Seq<char>>, sep: Seq<char>) -> Seq<char>
    decreases ws.len(),
{
    if ws.len() == 0 {
        Seq::empty()
    } else if ws.len() == 1 {
        ws[0]
    } else {
        join(ws.drop_last(), sep) + sep + ws.last()
    }
}

/// Splits `s` into its words.
pub fn split_words(s: &Vec<char>) -> (ws: Vec<Vec<char>>)
    ensures
        ws@.map_values(|w: Vec<char>| w@) == words(s@),
{
    let mut done: Vec<Vec<char>> = Vec::new();
    let mut cur: Vec<char> = Vec::new();
    let mut i: usize = 0;
    while i < s.len()
        invariant
            i <= s.len(),
            (done@.map_values(|w: Vec<char>| w@), cur@) == word_scan(s@.take(i as int)),
        decreases s.len() - i,
    {
        let c = s[i];
        assert(s@.take(i + 1).drop_last() == s@.take(i as int));
        if char_is_whitespace(c) {
            if cur.len() > 0 {
                let w = cur;
                cur = Vec::new();
                done.push(w);
                assert(done@.map_values(|w: Vec<char>| w@) =~= word_scan(s@.take(i as int)).0.push(w@));
            }
        } else {
            cur.push(c);
        }
        i = i + 1;
    }
    assert(s@.take(s.len() as int) == s@);
    if cur.len() > 0 {
        let w = cur;
        done.push(w);
        assert(done@.map_values(|w: Vec<char>| w@) =~= word_scan(s@).0.push(w@));
    }
    done
}

/// Joins pieces with a separator.
pub fn join_with(ws: &Vec<Vec<char>>, sep: &[char]) -> (r: Vec<char>)
    ensures
        r@ == join(ws@.map_values(|w: Vec<char>| w@), sep@),
{
    let ghost vs = ws@.map_values(|w: Vec<char>| w@);
    let mut r: Vec<char> = Vec::new();
    let mut i: usize = 0;
    while i < ws.len()
        invariant
            i <= ws.len(),
            vs == ws@.map_values(|w: Vec<char>| w@),
            r@ == join(vs.take(i as int), sep@),
        decreases ws.len() - i,
    {
        assert(vs.take(i + 1).drop_last() =~= vs.take(i as int));
        if i > 0 {
            append_chars(&mut r, sep);
        }
        append_chars(&mut r, ws[i].as_slice());
        proof {
            if i == 0 {
                assert(r@ =~= vs.take(1)[0]);
            } else {
                assert(r@ =~= join(vs.take(i as int), sep@) + sep@ + vs.take(i + 1).last());
            }
        }
        i = i + 1;
    }
    assert(vs.take(ws.len() as int) =~= vs);
    r
}

/// Appends `src` to `dst`.
pub fn append_chars(dst: &mut Vec<char>, src: &[char])
    ensures
        final(dst)@ == old(dst)@ + src@,
{
    let mut i: usize = 0;
    while i < src.len()
        invariant
            i <= src.len(),
            dst@ == old(dst)@ + src@.take(i as int),
        decreases src.len() - i,
    {
        dst.push(src[i]);
        assert(src@.take(i + 1) =~= src@.take(i as int).push(src@[i as int]));
        i = i + 1;
    }
    assert(src@.take(src.len() as int) =~= src@);
}


// ---------------------------------------------------------------------------
// Splitting at a separator (`str::split` with a string pattern)
// ---------------------------------------------------------------------------

/// `pat` occurs in `s` starting at index `i`.
pub open spec fn matches_at(s: Seq<char>, pat: Seq<char>, i: int) -> bool {
    0 <= i && i + pat.len() <= s.len() && s.subrange(i, i + pat.len()) == pat
}

/// Index of the leftmost occurrence of `pat` in `s`.
pub open spec fn first_match(s: Seq<char>, pat: Seq<char>) -> Option<int>
    decreases s.len(),
{
    if s.len() < pat.len() {
        None
    } else if s.take(pat.len() as int) == pat {
        Some(0)
    } else if s.len() == 0 {
        None
    } else {
        match first_match(s.drop_first(), pat) {
            Some(k) => Some(k + 1),
            None => None,
        }
    }
}

/// The pieces of `s` between non-overlapping occurrences of `pat`, scanning
/// from the left, as `str::split` yields them.
pub open spec fn split_on(s: Seq<char>, pat: Seq<char>) -> Seq<Seq<char>>
    decreases s.len(),
{
    if pat.len() == 0 {
        seq![s]
    } else {
        match first_match(s, pat) {
            Some(k) => if 0 <= k && k + pat.len() <= s.len() {
                seq![s.take(k)] + split_on(s.skip(k + pat.len()), pat)
            } else {
                seq![s]
            },
            None => seq![s],
        }
    }
}

/// `first_match` finds exactly the leftmost occurrence.
pub proof fn lemma_first_match(s: Seq<char>, pat: Seq<char>)
    ensures
        first_match(s, pat) matches Some(k) ==> matches_at(s, pat, k) && forall|j: int|
            0 <= j < k ==> !matches_at(s, pat, j),
        first_match(s, pat) is None ==> forall|j: int| !matches_at(s, pat, j),
    decreases s.len(),
{
    if s.len() < pat.len() {
    } else if s.take(pat.len() as int) == pat {
        assert(s.subrange(0, pat.len() as int) == s.take(pat.len() as int));
    } else if s.len() == 0 {
    } else {
        let t = s.drop_first();
        lemma_first_match(t, pat);
        assert forall|j: int| 0 <= j && j + pat.len() <= t.len() implies
            #[trigger] t.subrange(j, j + pat.len()) == s.subrange(j + 1, j + 1 + pat.len()) by {
            assert(t.subrange(j, j + pat.len()) =~= s.subrange(j + 1, j + 1 + pat.len()));
        }
        assert(!matches_at(s, pat, 0)) by {
            assert(s.subrange(0, pat.len() as int) == s.take(pat.len() as int));
        }
        assert forall|j: int| 1 <= j implies matches_at(s, pat, j) == matches_at(t, pat, j - 1) by {
            if 0 <= j - 1 && j - 1 + pat.len() <= t.len() {
                assert(t.subrange(j - 1, j - 1 + pat.len()) == s.subrange(j, j + pat.len()));
            }
        }
        match first_match(t, pat) {
            Some(k) => {
                assert(matches_at(s, pat, k + 1));
                assert forall|j: int| 0 <= j < k + 1 implies !matches_at(s, pat, j) by {
                    if j >= 1 {
                        assert(!matches_at(t, pat, j - 1));
                    }
                }
            },
            None => {
                assert forall|j: int| !matches_at(s, pat, j) by {
                    if j >= 1 {
                        assert(!matches_at(t, pat, j - 1));
                    }
                }
            },
        }
    }
}

/// The leftmost occurrence is the only index with an occurrence and none before it.
pub proof fn lemma_first_match_is(s: Seq<char>, pat: Seq<char>, k: int)
    requires
        matches_at(s, pat, k),
        forall|j: int| 0 <= j < k ==> !matches_at(s, pat, j),
    ensures
        first_match(s, pat) == Some(k),
{
    lemma_first_match(s, pat);
    match first_match(s, pat) {
        Some(m) => {
            if m < k {
                assert(!matches_at(s, pat, m));
            } else if m > k {
                assert(!matches_at(s, pat, k));
            }
        },
        None => {
            assert(!matches_at(s, pat, k));
        },
    }
}

/// Whether `pat` occurs in `s` at index `i`.
pub fn matches_at_exec(s: &[char], pat: &[char], i: usize) -> (b: bool)
    ensures
        b == matches_at(s@, pat@, i as int),
{
    if i > s.len() || pat.len() > s.len() - i {
        return false;
    }
    let mut j: usize = 0;
    while j < pat.len()
        invariant
            j <= pat.len(),
            i + pat.len() <= s.len(),
            forall|k: int| 0 <= k < j ==> s@[i + k] == pat@[k],
        decreases pat.len() - j,
    {
        if s[i + j] != pat[j] {
            assert(s@.subrange(i as int, i + pat.len())[j as int] != pat@[j as int]);
            return false;
        }
        j = j + 1;
    }
    assert(s@.subrange(i as int, i + pat.len()) =~= pat@);
    true
}

/// Splits `s` at the non-overlapping occurrences of a non-empty `pat`.
pub fn split_on_exec(s: &[char], pat: &[char]) -> (r: Vec<Vec<char>>)
    requires
        pat@.len() > 0,
    ensures
        r@.map_values(|w: Vec<char>| w@) == split_on(s@, pat@),
{
    let mut pieces: Vec<Vec<char>> = Vec::new();
    let mut start: usize = 0;
    let mut i: usize = 0;
    let plen = pat.len();
    assert(s@.skip(0) =~= s@);
    while i <= s.len() && plen <= s.len() - i
        invariant
            plen == pat@.len(),
            plen > 0,
            start <= i <= s.len(),
            split_on(s@, pat@) == pieces@.map_values(|w: Vec<char>| w@) + split_on(
                s@.skip(start as int),
                pat@,
            ),
            forall|j: int| start <= j < i ==> !matches_at(s@, pat@, j),
        decreases s.len() - i,
    {
        let ghost t = s@.skip(start as int);
        assert forall|j: int| #![trigger matches_at(t, pat@, j)] 0 <= j implies matches_at(t, pat@, j)
            == matches_at(s@, pat@, start + j) by {
            if j + plen <= t.len() {
                assert(t.subrange(j, j + plen) =~= s@.subrange(start + j, start + j + plen));
            }
        }
        if matches_at_exec(s, pat, i) {
            proof {
                assert(matches_at(t, pat@, i - start));
                assert forall|j: int| 0 <= j < i - start implies !matches_at(t, pat@, j) by {
                    assert(!matches_at(s@, pat@, start + j));
                }
                lemma_first_match_is(t, pat@, i - start);
                assert(t.take(i - start) =~= s@.subrange(start as int, i as int));
                assert(t.skip(i - start + plen) =~= s@.skip(i + plen));
            }
            let piece = slice_range(s, start, i);
            pieces.push(piece);
            start = i + plen;
            i = start;
        } else {
            i = i + 1;
        }
    }
    let ghost t = s@.skip(start as int);
    proof {
        assert forall|j: int| !matches_at(t, pat@, j) by {
            if 0 <= j && j + plen <= t.len() {
                assert(t.subrange(j, j + plen) =~= s@.subrange(start + j, start + j + plen));
                assert(!matches_at(s@, pat@, start + j));
            }
        }
        lemma_first_match(t, pat@);
        if first_match(t, pat@) is Some {
            assert(false);
        }
    }
    let last = slice_range(s, start, s.len());
    assert(last@ =~= t);
    pieces.push(last);
    pieces
}

/// Copies `s[from..to]`.
pub fn slice_range(s: &[char], from: usize, to: usize) -> (r: Vec<char>)
    requires
        from <= to <= s@.len(),
    ensures
        r@ == s@.subrange(from as int, to as int),
{
    let mut r: Vec<char> = Vec::new();
    let mut i = from;
    while i < to
        invariant
            from <= i <= to <= s@.len(),
            r@ == s@.subrange(from as int, i as int),
        decreases to - i,
    {
        r.push(s[i]);
        assert(s@.subrange(from as int, i + 1) =~= s@.subrange(from as int, i as int).push(
            s@[i as int],
        ));
        i = i + 1;
    }
    r
}


// ---------------------------------------------------------------------------
// Lemmas relating words, joins and splits
// ---------------------------------------------------------------------------

/// A join of two or more pieces starts with the first piece and a separator.
pub proof fn lemma_join_front(ws: Seq<Seq<char>>, sep: Seq<char>)
    requires
        ws.len() >= 2,
    ensures
        join(ws, sep) == ws[0] + sep + join(ws.drop_first(), sep),
    decreases ws.len(),
{
    if ws.len() == 2 {
        assert(ws.drop_first().len() == 1);
        assert(ws.drop_last().len() == 1);
        assert(ws.drop_last()[0] == ws[0]);
        assert(ws.drop_first()[0] == ws[1]);
        assert(join(ws.drop_last(), sep) == ws[0]);
        assert(join(ws.drop_first(), sep) == ws[1]);
        assert(join(ws, sep) == join(ws.drop_last(), sep) + sep + ws.last());
    } else {
        lemma_join_front(ws.drop_last(), sep);
        assert(ws.drop_last()[0] == ws[0]);
        assert(ws.drop_last().drop_first() =~= ws.drop_first().drop_last());
        assert(ws.drop_first().last() == ws.last());
        assert(join(ws, sep) == join(ws.drop_last(), sep) + sep + ws.last());
        assert(join(ws.drop_first(), sep) == join(ws.drop_first().drop_last(), sep) + sep
            + ws.drop_first().last());
        assert((ws[0] + sep + join(ws.drop_last().drop_first(), sep)) + sep + ws.last() =~= ws[0]
            + sep + (join(ws.drop_last().drop_first(), sep) + sep + ws.last()));
    }
}

/// Splitting a join at its separator gives the pieces back, when no piece
/// holds the separator's first character.
pub proof fn lemma_split_join(qs: Seq<Seq<char>>, sep: Seq<char>)
    requires
        qs.len() >= 1,
        sep.len() > 0,
        forall|i: int, j: int| 0 <= i < qs.len() && 0 <= j < qs[i].len() ==> #[trigger] qs[i][j]
            != sep[0],
    ensures
        split_on(join(qs, sep), sep) == qs,
    decreases qs.len(),
{
    let s = join(qs, sep);
    let q0 = qs[0];
    if qs.len() == 1 {
        assert forall|j: int| !matches_at(s, sep, j) by {
            if matches_at(s, sep, j) {
                assert(s.subrange(j, j + sep.len())[0] == s[j]);
            }
        }
        lemma_first_match(s, sep);
        assert(split_on(s, sep) == seq![s]);
        assert(split_on(s, sep) =~= qs);
    } else {
        lemma_join_front(qs, sep);
        let rest = join(qs.drop_first(), sep);
        assert(s == q0 + sep + rest);
        assert(matches_at(s, sep, q0.len() as int)) by {
            assert(s.subrange(q0.len() as int, (q0.len() + sep.len()) as int) =~= sep);
        }
        assert forall|j: int| 0 <= j < q0.len() implies !matches_at(s, sep, j) by {
            if matches_at(s, sep, j) {
                assert(s.subrange(j, j + sep.len())[0] == s[j]);
                assert(s[j] == q0[j]);
                assert(qs[0][j] != sep[0]);
            }
        }
        lemma_first_match_is(s, sep, q0.len() as int);
        assert(s.take(q0.len() as int) =~= q0);
        assert(s.skip((q0.len() + sep.len()) as int) =~= rest);
        let tail = qs.drop_first();
        assert forall|i: int, j: int| 0 <= i < tail.len() && 0 <= j < tail[i].len() implies
            #[trigger] tail[i][j] != sep[0] by {
            assert(tail[i] == qs[i + 1]);
        }
        lemma_split_join(tail, sep);
        assert(split_on(s, sep) == seq![q0] + tail);
        assert(seq![q0] + tail =~= qs);
    }
}

/// Reading whitespace-free characters only extends the word in progress.
pub proof fn lemma_word_scan_extend(s: Seq<char>, t: Seq<char>)
    requires
        no_ws(t),
    ensures
        word_scan(s + t) == (word_scan(s).0, word_scan(s).1 + t),
    decreases t.len(),
{
    if t.len() == 0 {
        assert(s + t =~= s);
        assert(word_scan(s).1 + t =~= word_scan(s).1);
    } else {
        let u = t.drop_last();
        assert(no_ws(u)) by {
            assert forall|i: int| 0 <= i < u.len() implies !is_ws(#[trigger] u[i]) by {
                assert(u[i] == t[i]);
            }
        }
        lemma_word_scan_extend(s, u);
        assert((s + t).drop_last() =~= s + u);
        assert((s + t).last() == t.last());
        assert(!is_ws(t[t.len() - 1]));
        assert((word_scan(s).1 + u).push(t.last()) =~= word_scan(s).1 + t);
    }
}

/// The words of a join with single spaces are the joined words.
pub proof fn lemma_words_of_join(ws: Seq<Seq<char>>)
    requires
        all_words(ws),
    ensures
        words(join(ws, seq![' '])) == ws,
        ws.len() > 0 ==> word_scan(join(ws, seq![' '])).0 == ws.drop_last(),
        ws.len() > 0 ==> word_scan(join(ws, seq![' '])).1 == ws.last(),
    decreases ws.len(),
{
    let sp: Seq<char> = seq![' '];
    if ws.len() == 0 {
        assert(words(join(ws, sp)) =~= ws);
    } else if ws.len() == 1 {
        let e = Seq::<char>::empty();
        assert(ws[0].len() > 0 && no_ws(ws[0]));
        assert(word_scan(e) == (Seq::<Seq<char>>::empty(), e));
        lemma_word_scan_extend(e, ws[0]);
        assert(e + ws[0] =~= ws[0]);
        assert(word_scan(ws[0]).1 == ws[0]);
        assert(words(ws[0]) =~= ws);
        assert(ws.drop_last() =~= Seq::<Seq<char>>::empty());
    } else {
        let init = ws.drop_last();
        assert(all_words(init)) by {
            assert forall|i: int| 0 <= i < init.len() implies (#[trigger] init[i]).len() > 0
                && no_ws(init[i]) by {
                assert(init[i] == ws[i]);
            }
        }
        lemma_words_of_join(init);
        let a = join(init, sp);
        assert(join(ws, sp) == a + sp + ws.last());
        // reading the space closes the last word of `a`
        assert((a + sp).drop_last() =~= a);
        assert(word_scan(a + sp) == (init.drop_last().push(init.last()), Seq::<char>::empty()));
        assert(init.drop_last().push(init.last()) =~= init);
        assert(all_words(ws));
        assert(ws[ws.len() - 1].len() > 0 && no_ws(ws[ws.len() - 1]));
        lemma_word_scan_extend(a + sp, ws.last());
        assert(Seq::<char>::empty() + ws.last() =~= ws.last());
        assert(init.push(ws.last()) =~= ws);
    }
}

/// Every word of any text is non-empty and free of whitespace.
pub proof fn lemma_words_are_words(s: Seq<char>)
    ensures
        all_words(words(s)),
        all_words(word_scan(s).0),
        no_ws(word_scan(s).1),
    decreases s.len(),
{
    if s.len() > 0 {
        lemma_words_are_words(s.drop_last());
        let (done, cur) = word_scan(s.drop_last());
        let c = s.last();
        if is_ws(c) {
            if cur.len() > 0 {
                assert(all_words(done.push(cur))) by {
                    assert forall|i: int| 0 <= i < done.push(cur).len() implies (#[trigger] done.push(
                        cur,
                    )[i]).len() > 0 && no_ws(done.push(cur)[i]) by {
                        if i < done.len() {
                            assert(done.push(cur)[i] == done[i]);
                        }
                    }
                }
            }
        } else {
            assert(no_ws(cur.push(c))) by {
                assert forall|i: int| 0 <= i < cur.push(c).len() implies !is_ws(
                    #[trigger] cur.push(c)[i],
                ) by {
                    if i < cur.len() {
                        assert(cur.push(c)[i] == cur[i]);
                    }
                }
            }
        }
    }
    let (done, cur) = word_scan(s);
    if cur.len() > 0 {
        assert forall|i: int| 0 <= i < done.push(cur).len() implies (#[trigger] done.push(cur)[i]).len()
            > 0 && no_ws(done.push(cur)[i]) by {
            if i < done.len() {
                assert(done.push(cur)[i] == done[i]);
            }
        }
    }
}

/// A join of whitespace-free pieces with single spaces contains only spaces
/// as whitespace, so every character of it is either `' '` or no whitespace.
pub proof fn lemma_join_chars(ws: Seq<Seq<char>>, sep: Seq<char>, c: char)
    requires
        forall|i: int, j: int| 0 <= i < ws.len() && 0 <= j < ws[i].len() ==> #[trigger] ws[i][j]
            != c,
        forall|j: int| 0 <= j < sep.len() ==> #[trigger] sep[j] != c,
    ensures
        forall|k: int| 0 <= k < join(ws, sep).len() ==> #[trigger] join(ws, sep)[k] != c,
    decreases ws.len(),
{
    if ws.len() == 0 {
    } else if ws.len() == 1 {
        assert forall|k: int| 0 <= k < join(ws, sep).len() implies #[trigger] join(ws, sep)[k]
            != c by {
            assert(ws[0][k] != c);
        }
    } else {
        let init = ws.drop_last();
        assert forall|i: int, j: int| 0 <= i < init.len() && 0 <= j < init[i].len() implies
            #[trigger] init[i][j] != c by {
            assert(init[i] == ws[i]);
        }
        lemma_join_chars(init, sep, c);
        let a = join(init, sep);
        let l = ws.last();
        assert forall|k: int| 0 <= k < join(ws, sep).len() implies #[trigger] join(ws, sep)[k]
            != c by {
            assert(join(ws, sep) == a + sep + l);
            if k < a.len() {
            } else if k < a.len() + sep.len() {
                assert((a + sep + l)[k] == sep[k - a.len()]);
            } else {
                assert((a + sep + l)[k] == l[k - a.len() - sep.len()]);
                assert(ws[ws.len() - 1][k - a.len() - sep.len()] != c);
            }
        }
    }
}

/// The non-empty pieces of `ps`, in order.
pub open spec fn non_empty(ps: Seq<Seq<char>>) -> Seq<Seq<char>>
    decreases ps.len(),
{
    if ps.len() == 0 {
        Seq::empty()
    } else if ps.last().len() > 0 {
        non_empty(ps.drop_last()).push(ps.last())
    } else {
        non_empty(ps.drop_last())
    }
}

/// Every piece of `non_empty(ps)` is a piece of `ps` that is not empty.
#[verifier::rlimit(40)]
pub proof fn lemma_non_empty(ps: Seq<Seq<char>>)
    ensures
        forall|i: int| 0 <= i < non_empty(ps).len() ==> (#[trigger] non_empty(ps)[i]).len() > 0
            && exists|j: int| 0 <= j < ps.len() && ps[j] == non_empty(ps)[i],
        (forall|i: int| 0 <= i < ps.len() ==> (#[trigger] ps[i]).len() > 0) ==> non_empty(ps)
            == ps,
    decreases ps.len(),
{
    if ps.len() > 0 {
        let init = ps.drop_last();
        lemma_non_empty(init);
        let r = non_empty(ps);
        assert forall|i: int| 0 <= i < r.len() implies (#[trigger] r[i]).len() > 0 && exists|j: int|
            0 <= j < ps.len() && ps[j] == r[i] by {
            if i < non_empty(init).len() {
                assert(r[i] == non_empty(init)[i]);
                let j = choose|j: int| 0 <= j < init.len() && init[j] == non_empty(init)[i];
                assert(ps[j] == init[j]);
            } else {
                assert(r[i] == ps.last());
                assert(ps[ps.len() - 1] == r[i]);
            }
        }
        if forall|i: int| 0 <= i < ps.len() ==> (#[trigger] ps[i]).len() > 0 {
            assert(forall|i: int| 0 <= i < init.len() ==> (#[trigger] init[i]).len() > 0) by {
                assert forall|i: int| 0 <= i < init.len() implies (#[trigger] init[i]).len() > 0 by {
                    assert(init[i] == ps[i]);
                }
            }
            assert(ps[ps.len() - 1].len() > 0);
            assert(init.push(ps.last()) =~= ps);
        }
    }
}


// ---------------------------------------------------------------------------
// Filtering and trimming characters
// ---------------------------------------------------------------------------

/// The characters of `s` that satisfy `p`, in order.
pub open spec fn keep_chars(s: Seq<char>, p: spec_fn(char) -> bool) -> Seq<char>
    decreases s.len(),
{
    if s.len() == 0 {
        Seq::empty()
    } else if p(s.last()) {
        keep_chars(s.drop_last(), p).push(s.last())
    } else {
        keep_chars(s.drop_last(), p)
    }
}

/// `s` without its leading characters that satisfy `p`.
pub open spec fn trim_start_by(s: Seq<char>, p: spec_fn(char) -> bool) -> Seq<char>
    decreases s.len(),
{
    if s.len() > 0 && p(s[0]) {
        trim_start_by(s.drop_first(), p)
    } else {
        s
    }
}

/// `s` without its trailing characters that satisfy `p`.
pub open spec fn trim_end_by(s: Seq<char>, p: spec_fn(char) -> bool) -> Seq<char>
    decreases s.len(),
{
    if s.len() > 0 && p(s.last()) {
        trim_end_by(s.drop_last(), p)
    } else {
        s
    }
}

/// `s` without leading and trailing characters that satisfy `p`.
pub open spec fn trim_by(s: Seq<char>, p: spec_fn(char) -> bool) -> Seq<char> {
    trim_end_by(trim_start_by(s, p), p)
}

/// The whitespace test as a predicate.
pub open spec fn ws_pred() -> spec_fn(char) -> bool {
    |c: char| is_ws(c)
}

/// The test for one given character as a predicate.
pub open spec fn eq_pred(c: char) -> spec_fn(char) -> bool {
    |x: char| x == c
}

/// `s` without leading and trailing whitespace (`str::trim`).
pub open spec fn trim(s: Seq<char>) -> Seq<char> {
    trim_by(s, ws_pred())
}

/// `s` without leading and trailing copies of `c` (`str::trim_matches(c)`).
pub open spec fn trim_matches(s: Seq<char>, c: char) -> Seq<char> {
    trim_by(s, eq_pred(c))
}

/// Trimming at the front leaves a suffix that does not start with a trimmed character.
pub proof fn lemma_trim_start(s: Seq<char>, p: spec_fn(char) -> bool)
    ensures
        exists|k: int| 0 <= k <= s.len() && trim_start_by(s, p) == s.skip(k),
        trim_start_by(s, p).len() > 0 ==> !p(trim_start_by(s, p)[0]),
    decreases s.len(),
{
    if s.len() > 0 && p(s[0]) {
        lemma_trim_start(s.drop_first(), p);
        let k = choose|k: int| 0 <= k <= s.drop_first().len() && trim_start_by(s.drop_first(), p)
            == s.drop_first().skip(k);
        assert(s.drop_first().skip(k) =~= s.skip(k + 1));
    } else {
        assert(s.skip(0) =~= s);
    }
}

/// Trimming at the back leaves a prefix that does not end with a trimmed character.
pub proof fn lemma_trim_end(s: Seq<char>, p: spec_fn(char) -> bool)
    ensures
        exists|k: int| 0 <= k <= s.len() && trim_end_by(s, p) == s.take(k),
        trim_end_by(s, p).len() > 0 ==> !p(trim_end_by(s, p).last()),
    decreases s.len(),
{
    if s.len() > 0 && p(s.last()) {
        lemma_trim_end(s.drop_last(), p);
        let k = choose|k: int| 0 <= k <= s.drop_last().len() && trim_end_by(s.drop_last(), p)
            == s.drop_last().take(k);
        assert(s.drop_last().take(k) =~= s.take(k));
    } else {
        assert(s.take(s.len() as int) =~= s);
    }
}

/// The result of a trim is a contiguous part of `s` that neither starts nor
/// ends with a trimmed character.
pub proof fn lemma_trim(s: Seq<char>, p: spec_fn(char) -> bool)
    ensures
        exists|a: int, b: int| 0 <= a <= b <= s.len() && trim_by(s, p) == s.subrange(a, b),
        trim_by(s, p).len() > 0 ==> !p(trim_by(s, p)[0]) && !p(trim_by(s, p).last()),
{
    lemma_trim_start(s, p);
    let a = choose|k: int| 0 <= k <= s.len() && trim_start_by(s, p) == s.skip(k);
    let t = trim_start_by(s, p);
    lemma_trim_end(t, p);
    let m = choose|k: int| 0 <= k <= t.len() && trim_end_by(t, p) == t.take(k);
    assert(t.take(m) =~= s.subrange(a, a + m));
    if trim_by(s, p).len() > 0 {
        assert(trim_by(s, p)[0] == t[0]);
    }
}

/// Whether `s[i]` is whitespace.
fn is_ws_at(s: &[char], i: usize) -> (b: bool)
    requires
        i < s@.len(),
    ensures
        b == is_ws(s@[i as int]),
        b == ws_pred()(s@[i as int]),
{
    char_is_whitespace(s[i])
}

/// Drops leading and trailing whitespace of `s`.
pub fn trim_ws(s: &[char]) -> (r: Vec<char>)
    ensures
        r@ == trim(s@),
{
    let ghost p = ws_pred();
    let mut i: usize = 0;
    assert(s@.skip(0) =~= s@);
    while i < s.len() && is_ws_at(s, i)
        invariant
            i <= s.len(),
            p == ws_pred(),
            trim_start_by(s@, p) == trim_start_by(s@.skip(i as int), p),
        decreases s.len() - i,
    {
        assert(s@.skip(i as int).drop_first() =~= s@.skip(i + 1));
        assert(s@.skip(i as int)[0] == s@[i as int]);
        assert(p(s@.skip(i as int)[0]));
        assert(trim_start_by(s@.skip(i as int), p) == trim_start_by(s@.skip(i as int).drop_first(), p));
        i = i + 1;
    }
    let ghost t = s@.skip(i as int);
    assert(trim_start_by(s@, p) == t);
    let mut j: usize = s.len();
    while j > i && is_ws_at(s, j - 1)
        invariant
            i <= j <= s.len(),
            p == ws_pred(),
            t == s@.skip(i as int),
            trim_end_by(t, p) == trim_end_by(s@.subrange(i as int, j as int), p),
        decreases j,
    {
        assert(s@.subrange(i as int, j as int).drop_last() =~= s@.subrange(i as int, j - 1));
        assert(s@.subrange(i as int, j as int).last() == s@[j - 1]);
        assert(p(s@.subrange(i as int, j as int).last()));
        assert(trim_end_by(s@.subrange(i as int, j as int), p) == trim_end_by(
            s@.subrange(i as int, j as int).drop_last(),
            p,
        ));
        j = j - 1;
    }
    assert(s@.subrange(i as int, s.len() as int) =~= t);
    slice_range(s, i, j)
}

/// Drops leading and trailing copies of `c` from `s`.
pub fn trim_char(s: &[char], c: char) -> (r: Vec<char>)
    ensures
        r@ == trim_matches(s@, c),
{
    let ghost p = eq_pred(c);
    let mut i: usize = 0;
    assert(s@.skip(0) =~= s@);
    while i < s.len() && s[i] == c
        invariant
            i <= s.len(),
            p == eq_pred(c),
            trim_start_by(s@, p) == trim_start_by(s@.skip(i as int), p),
        decreases s.len() - i,
    {
        assert(s@.skip(i as int).drop_first() =~= s@.skip(i + 1));
        assert(s@.skip(i as int)[0] == s@[i as int]);
        assert(p(s@.skip(i as int)[0]));
        assert(trim_start_by(s@.skip(i as int), p) == trim_start_by(s@.skip(i as int).drop_first(), p));
        i = i + 1;
    }
    let ghost t = s@.skip(i as int);
    assert(trim_start_by(s@, p) == t);
    let mut j: usize = s.len();
    while j > i && s[j - 1] == c
        invariant
            i <= j <= s.len(),
            p == eq_pred(c),
            t == s@.skip(i as int),
            trim_end_by(t, p) == trim_end_by(s@.subrange(i as int, j as int), p),
        decreases j,
    {
        assert(s@.subrange(i as int, j as int).drop_last() =~= s@.subrange(i as int, j - 1));
        assert(s@.subrange(i as int, j as int).last() == s@[j - 1]);
        assert(p(s@.subrange(i as int, j as int).last()));
        assert(trim_end_by(s@.subrange(i as int, j as int), p) == trim_end_by(
            s@.subrange(i as int, j as int).drop_last(),
            p,
        ));
        j = j - 1;
    }
    assert(s@.subrange(i as int, s.len() as int) =~= t);
    slice_range(s, i, j)
}


/// A split always yields at least one piece.
pub proof fn lemma_split_on_nonempty(s: Seq<char>, pat: Seq<char>)
    ensures
        split_on(s, pat).len() >= 1,
    decreases s.len(),
{
    if pat.len() > 0 {
        match first_match(s, pat) {
            Some(k) => {
                if 0 <= k && k + pat.len() <= s.len() {
                    lemma_split_on_nonempty(s.skip(k + pat.len()), pat);
                }
            },
            None => {},
        }
    }
}


/// The characters of each string.
pub fn chars_of_all(v: &Vec<String>) -> (r: Vec<Vec<char>>)
    ensures
        r@.map_values(|w: Vec<char>| w@) == v@.map_values(|s: String| s@),
{
    let mut r: Vec<Vec<char>> = Vec::new();
    let mut i: usize = 0;
    while i < v.len()
        invariant
            i <= v.len(),
            r@.map_values(|w: Vec<char>| w@) == v@.map_values(|s: String| s@).take(i as int),
        decreases v.len() - i,
    {
        let w = chars_of(v[i].as_str());
        assert(w@ == v@[i as int]@);
        let ghost prev = r@.map_values(|w: Vec<char>| w@);
        r.push(w);
        assert(r@.map_values(|w: Vec<char>| w@) =~= prev.push(w@));
        assert(v@.map_values(|s: String| s@).take(i + 1) =~= v@.map_values(|s: String| s@).take(
            i as int,
        ).push(v@[i as int]@));
        i = i + 1;
    }
    assert(v@.map_values(|s: String| s@).take(v.len() as int) =~= v@.map_values(|s: String| s@));
    r
}

/// Joins strings with a separator.
pub fn join_strings(v: &Vec<String>, sep: &[char]) -> (r: String)
    ensures
        r@ == join(v@.map_values(|s: String| s@), sep@),
{
    let cs = chars_of_all(v);
    string_of(join_with(&cs, sep).as_slice())
}


/// `a` followed by `b`.
pub fn concat(a: &str, b: &str) -> (r: String)
    ensures
        r@ == a@ + b@,
{
    let mut v = chars_of(a);
    append_chars(&mut v, chars_of(b).as_slice());
    string_of(v.as_slice())
}

/// The string with its surrounding whitespace removed (`str::trim`).
pub fn trim_str(s: &str) -> (r: String)
    ensures
        r@ == trim(s@),
{
    string_of(trim_ws(chars_of(s).as_slice()).as_slice())
}


// ---------------------------------------------------------------------------
// UTF-8 sizes
// ---------------------------------------------------------------------------

/// Bytes in the UTF-8 encoding of `c`.
pub open spec fn utf8_width(c: char) -> nat {
    let u = c as u32;
    if u <= 0x7F {
        1
    } else if u <= 0x7FF {
        2
    } else if u <= 0xFFFF {
        3
    } else {
        4
    }
}

/// Bytes in the UTF-8 encoding of `s` (what `str::len` counts).
pub open spec fn utf8_len(s: Seq<char>) -> nat {
    vstd::utf8::encode_utf8(s).len()
}

/// Encoding distributes over concatenation.
pub proof fn lemma_encode_concat(a: Seq<char>, b: Seq<char>)
    ensures
        vstd::utf8::encode_utf8(a + b) == vstd::utf8::encode_utf8(a) + vstd::utf8::encode_utf8(b),
    decreases a.len(),
{
    if a.len() == 0 {
        assert(a + b =~= b);
        assert(vstd::utf8::encode_utf8(a) =~= Seq::<u8>::empty());
        assert(Seq::<u8>::empty() + vstd::utf8::encode_utf8(b) =~= vstd::utf8::encode_utf8(b));
    } else {
        lemma_encode_concat(a.drop_first(), b);
        assert((a + b).drop_first() =~= a.drop_first() + b);
        assert((a + b)[0] == a[0]);
        assert(vstd::utf8::encode_scalar(a[0] as u32) + (vstd::utf8::encode_utf8(a.drop_first())
            + vstd::utf8::encode_utf8(b)) =~= (vstd::utf8::encode_scalar(a[0] as u32)
            + vstd::utf8::encode_utf8(a.drop_first())) + vstd::utf8::encode_utf8(b));
    }
}

/// One more character adds its width.
pub proof fn lemma_utf8_len_push(s: Seq<char>, c: char)
    ensures
        utf8_len(s.push(c)) == utf8_len(s) + utf8_width(c),
{
    lemma_encode_concat(s, seq![c]);
    assert(s.push(c) =~= s + seq![c]);
    assert(seq![c].drop_first() =~= Seq::<char>::empty());
    assert(vstd::utf8::encode_utf8(Seq::<char>::empty()) =~= Seq::<u8>::empty());
    assert(vstd::utf8::encode_utf8(seq![c]) =~= vstd::utf8::encode_scalar(c as u32));
}

/// The UTF-8 width of a character.
pub fn char_width(c: char) -> (n: usize)
    ensures
        n == utf8_width(c),
{
    let u = c as u32;
    if u <= 0x7F {
        1
    } else if u <= 0x7FF {
        2
    } else if u <= 0xFFFF {
        3
    } else {
        4
    }
}

/// The number of leading characters of `s` whose encoding is exactly `n`
/// bytes long, if a character boundary falls at byte `n`.
pub open spec fn byte_prefix(s: Seq<char>, n: nat) -> Option<int> {
    if exists|k: int| 0 <= k <= s.len() && utf8_len(s.take(k)) == n {
        Some(choose|k: int| 0 <= k <= s.len() && utf8_len(s.take(k)) == n)
    } else {
        None
    }
}

/// Longer prefixes have longer encodings.
pub proof fn lemma_utf8_len_prefix_monotone(s: Seq<char>, a: int, b: int)
    requires
        0 <= a < b <= s.len(),
    ensures
        utf8_len(s.take(a)) < utf8_len(s.take(b)),
    decreases b - a,
{
    assert(s.take(b) =~= s.take(b - 1).push(s[b - 1]));
    lemma_utf8_len_push(s.take(b - 1), s[b - 1]);
    if a < b - 1 {
        lemma_utf8_len_prefix_monotone(s, a, b - 1);
    }
}

/// The characters of `s` that make up its first `n` bytes, when a character
/// boundary falls there.
pub fn take_bytes(s: &[char], n: usize) -> (r: Option<Vec<char>>)
    ensures
        match r {
            Some(p) => byte_prefix(s@, n as nat) is Some && p@ == s@.take(byte_prefix(s@, n as nat)->0),
            None => byte_prefix(s@, n as nat) is None,
        },
{
    let mut k: usize = 0;
    let mut bytes: usize = 0;
    assert(s@.take(0) =~= Seq::<char>::empty());
    assert(vstd::utf8::encode_utf8(Seq::<char>::empty()) =~= Seq::<u8>::empty());
    while k < s.len() && bytes < n
        invariant
            k <= s@.len(),
            bytes == utf8_len(s@.take(k as int)),
            bytes <= n,
            forall|j: int| 0 <= j < k ==> utf8_len(s@.take(j)) < n,
        decreases s.len() - k,
    {
        proof {
            assert(s@.take(k + 1) =~= s@.take(k as int).push(s@[k as int]));
            lemma_utf8_len_push(s@.take(k as int), s@[k as int]);
        }
        let w = char_width(s[k]);
        if w > n - bytes {
            proof {
                assert forall|j: int| 0 <= j <= s@.len() implies utf8_len(s@.take(j)) != n by {
                    if j > k {
                        if j > k + 1 {
                            lemma_utf8_len_prefix_monotone(s@, k + 1, j);
                        }
                    }
                }
            }
            return None;
        }
        bytes = bytes + w;
        k = k + 1;
    }
    if bytes == n {
        proof {
            let c = choose|j: int| 0 <= j <= s@.len() && utf8_len(s@.take(j)) == n;
            if c < k {
            } else if c > k {
                lemma_utf8_len_prefix_monotone(s@, k as int, c);
            }
        }
        Some(slice_range(s, 0, k))
    } else {
        proof {
            assert(k == s@.len());
            assert forall|j: int| 0 <= j <= s@.len() implies utf8_len(s@.take(j)) != n by {
                if j < k {
                    lemma_utf8_len_prefix_monotone(s@, j, k as int);
                }
            }
        }
        None
    }
}


/// A byte prefix found at `n` bytes tells whether the whole text has exactly
/// or more than `n` bytes.
pub proof fn lemma_byte_prefix(s: Seq<char>, n: nat)
    ensures
        byte_prefix(s, n) matches Some(k) ==> 0 <= k <= s.len() && utf8_len(s.take(k)) == n
            && utf8_len(s) >= n && (utf8_len(s) == n <==> k == s.len()),
{
    if let Some(k) = byte_prefix(s, n) {
        assert(s.take(s.len() as int) =~= s);
        if k < s.len() {
            lemma_utf8_len_prefix_monotone(s, k, s.len() as int);
        }
    }
}


/// `c` is an ASCII letter or digit (`char::is_ascii_alphanumeric`).
pub open spec fn is_ascii_alnum(c: char) -> bool {
    ('a' <= c <= 'z') || ('A' <= c <= 'Z') || ('0' <= c <= '9')
}

/// Text of ASCII characters has one byte per character.
pub proof fn lemma_ascii_utf8_len(s: Seq<char>)
    requires
        forall|i: int| 0 <= i < s.len() ==> (#[trigger] s[i] as u32) <= 0x7F,
    ensures
        utf8_len(s) == s.len(),
    decreases s.len(),
{
    if s.len() == 0 {
        assert(vstd::utf8::encode_utf8(s) =~= Seq::<u8>::empty());
    } else {
        let init = s.drop_last();
        assert forall|i: int| 0 <= i < init.len() implies (#[trigger] init[i] as u32) <= 0x7F by {
            assert(init[i] == s[i]);
        }
        lemma_ascii_utf8_len(init);
        assert(init.push(s.last()) =~= s);
        lemma_utf8_len_push(init, s.last());
        assert((s[s.len() - 1] as u32) <= 0x7F);
    }
}

/// `a`, `b` and `c` in a row.
pub fn concat3(a: &str, b: &str, c: &str) -> (r: String)
    ensures
        r@ == a@ + b@ + c@,
{
    let ab = concat(a, b);
    concat(ab.as_str(), c)
}


// ---------------------------------------------------------------------------
// Ordering of texts
// ---------------------------------------------------------------------------

/// `a` comes before `b` in lexicographic order of code points, the order in
/// which `String`s compare (UTF-8 preserves code point order).
pub open spec fn text_lt(a: Seq<char>, b: Seq<char>) -> bool
    decreases a.len(),
{
    if a.len() == 0 {
        b.len() > 0
    } else if b.len() == 0 {
        false
    } else if a[0] != b[0] {
        (a[0] as u32) < (b[0] as u32)
    } else {
        text_lt(a.drop_first(), b.drop_first())
    }
}

/// The order is strict and total.
pub proof fn lemma_text_lt_total(a: Seq<char>, b: Seq<char>)
    ensures
        !(text_lt(a, b) && text_lt(b, a)),
        a != b ==> text_lt(a, b) || text_lt(b, a),
        !text_lt(a, a),
    decreases a.len(),
{
    if a.len() > 0 && b.len() > 0 {
        vstd::utf8::char_u32_cast(a[0], a[0] as u32);
        vstd::utf8::char_u32_cast(b[0], b[0] as u32);
        lemma_text_lt_total(a.drop_first(), b.drop_first());
        lemma_text_lt_total(a.drop_first(), a.drop_first());
        if a[0] == b[0] && a != b {
            assert(a.drop_first() != b.drop_first()) by {
                if a.drop_first() == b.drop_first() {
                    assert(a =~= seq![a[0]] + a.drop_first());
                    assert(b =~= seq![b[0]] + b.drop_first());
                }
            }
        }
    } else if a.len() > 0 {
        lemma_text_lt_total(a.drop_first(), a.drop_first());
    } else if b.len() == 0 {
        assert(a =~= b);
    }
}

/// The order is transitive.
pub proof fn lemma_text_lt_transitive(a: Seq<char>, b: Seq<char>, c: Seq<char>)
    requires
        text_lt(a, b),
        text_lt(b, c),
    ensures
        text_lt(a, c),
    decreases a.len(),
{
    if a.len() > 0 && b.len() > 0 && c.len() > 0 && a[0] == b[0] && b[0] == c[0] {
        lemma_text_lt_transitive(a.drop_first(), b.drop_first(), c.drop_first());
    }
}

/// Whether `a` comes before `b`.
pub fn text_less(a: &String, b: &String) -> (r: bool)
    ensures
        r == text_lt(a@, b@),
{
    let x = chars_of(a.as_str());
    let y = chars_of(b.as_str());
    let mut i: usize = 0;
    assert(x@.skip(0) =~= x@);
    assert(y@.skip(0) =~= y@);
    while i < x.len() && i < y.len() && x[i] == y[i]
        invariant
            i <= x@.len(),
            i <= y@.len(),
            text_lt(x@, y@) == text_lt(x@.skip(i as int), y@.skip(i as int)),
        decreases x.len() - i,
    {
        assert(x@.skip(i as int).drop_first() =~= x@.skip(i + 1));
        assert(y@.skip(i as int).drop_first() =~= y@.skip(i + 1));
        assert(x@.skip(i as int)[0] == x@[i as int]);
        assert(y@.skip(i as int)[0] == y@[i as int]);
        i = i + 1;
    }
    if i == x.len() {
        i < y.len()
    } else if i == y.len() {
        false
    } else {
        assert(x@.skip(i as int)[0] == x@[i as int]);
        assert(y@.skip(i as int)[0] == y@[i as int]);
        (x[i] as u32) < (y[i] as u32)
    }
}


/// The texts of strings.
pub open spec fn texts(v: Seq<String>) -> Seq<Seq<char>> {
    v.map_values(|s: String| s@)
}

/// Each text comes strictly before the next: sorted, with no repeats.
pub open spec fn strictly_sorted(s: Seq<Seq<char>>) -> bool {
    forall|i: int, j: int| 0 <= i < j < s.len() ==> text_lt(#[trigger] s[i], #[trigger] s[j])
}

/// Sorts strings and drops repeats (`sort` then `dedup`): the result holds
/// each distinct input text once, in increasing order.
pub fn sorted_unique(items: Vec<String>) -> (r: Vec<String>)
    ensures
        strictly_sorted(texts(r@)),
        forall|x: Seq<char>| texts(r@).contains(x) <==> texts(items@).contains(x),
        r@.len() <= items@.len(),
{
    let mut out: Vec<String> = Vec::new();
    let mut i: usize = 0;
    while i < items.len()
        invariant
            i <= items.len(),
            out@.len() <= i,
            strictly_sorted(texts(out@)),
            forall|x: Seq<char>|
                texts(out@).contains(x) <==> texts(items@.take(i as int)).contains(x),
        decreases items.len() - i,
    {
        let s = &items[i];
        let ghost ov = texts(out@);
        let mut p: usize = 0;
        while p < out.len() && text_less(&out[p], s)
            invariant
                p <= out.len(),
                ov == texts(out@),
                forall|k: int| 0 <= k < p ==> text_lt(#[trigger] ov[k], s@),
            decreases out.len() - p,
        {
            p = p + 1;
        }
        let ghost t0 = texts(items@.take(i as int));
        let ghost t1 = texts(items@.take(i + 1));
        proof {
            assert(items@.take(i + 1) =~= items@.take(i as int).push(items@[i as int]));
            assert(t1 =~= t0.push(s@));
        }
        let present = p < out.len() && !text_less(s, &out[p]);
        if present {
            proof {
                lemma_text_lt_total(ov[p as int], s@);
                assert(ov[p as int] == s@);
                assert forall|x: Seq<char>|
                    texts(out@).contains(x) <==> t1.contains(x) by {
                    if x == s@ {
                        assert(texts(out@)[p as int] == x);
                    }
                    if t0.contains(x) {
                        let k = choose|k: int|
                            0 <= k < t0.len() && t0[k] == x;
                        assert(t1[k] == x);
                    }
                }
            }
        } else {
            assert(forall|x: Seq<char>| ov.contains(x) <==> t0.contains(x));
            let copy = s.clone();
            out.insert(p, copy);
            proof {
                let nv = texts(out@);
                assert(nv =~= ov.insert(p as int, s@));
                if p < ov.len() {
                    lemma_text_lt_total(ov[p as int], s@);
                }
                assert forall|a: int, b: int| 0 <= a < b < nv.len() implies text_lt(
                    #[trigger] nv[a],
                    #[trigger] nv[b],
                ) by {
                    if b < p {
                    } else if b == p {
                    } else if a < p {
                        assert(nv[b] == ov[b - 1]);
                        if b - 1 > p {
                            assert(text_lt(ov[p as int], ov[b - 1]));
                            lemma_text_lt_transitive(s@, ov[p as int], ov[b - 1]);
                        }
                        lemma_text_lt_transitive(ov[a], s@, ov[b - 1]);
                    } else if a == p {
                        assert(nv[b] == ov[b - 1]);
                        if b - 1 > p {
                            assert(text_lt(ov[p as int], ov[b - 1]));
                            lemma_text_lt_transitive(s@, ov[p as int], ov[b - 1]);
                        }
                    } else {
                        assert(nv[a] == ov[a - 1]);
                        assert(nv[b] == ov[b - 1]);
                    }
                }
                assert forall|x: Seq<char>| nv.contains(x) implies t1.contains(x) by {
                    let k = choose|k: int| 0 <= k < nv.len() && nv[k] == x;
                    if k == p {
                        assert(t1[i as int] == x);
                    } else {
                        if k < p {
                            assert(ov[k] == x);
                        } else {
                            assert(ov[k - 1] == x);
                        }
                        assert(ov.contains(x));
                        assert(t0.contains(x));
                        let k2 = choose|k2: int| 0 <= k2 < t0.len() && t0[k2] == x;
                        assert(t1[k2] == x);
                    }
                }
                assert forall|x: Seq<char>| t1.contains(x) implies nv.contains(x) by {
                    let k = choose|k: int| 0 <= k < t1.len() && t1[k] == x;
                    if k == i {
                        assert(nv[p as int] == x);
                    } else {
                        assert(t0[k] == x);
                        assert(t0.contains(x));
                        assert(ov.contains(x));
                        let k2 = choose|k2: int| 0 <= k2 < ov.len() && ov[k2] == x;
                        if k2 < p {
                            assert(nv[k2] == x);
                        } else {
                            assert(nv[k2 + 1] == x);
                        }
                    }
                }
            }
        }
        i = i + 1;
    }
    assert(items@.take(items.len() as int) =~= items@);
    out
}


/// Whether two strings hold the same text.
pub fn same_text(a: &String, b: &String) -> (r: bool)
    ensures
        r == (a@ == b@),
{
    proof {
        lemma_text_lt_total(a@, b@);
    }
    !text_less(a, b) && !text_less(b, a)
}


/// Sorting with repeats dropped has one answer: two strictly sorted
/// sequences of texts that hold the same texts are equal.
pub proof fn lemma_strictly_sorted_unique(a: Seq<Seq<char>>, b: Seq<Seq<char>>)
    requires
        strictly_sorted(a),
        strictly_sorted(b),
        forall|x: Seq<char>| a.contains(x) <==> b.contains(x),
    ensures
        a == b,
    decreases a.len(),
{
    if a.len() == 0 {
        if b.len() > 0 {
            assert(b.contains(b[0]));
        }
        assert(a =~= b);
    } else if b.len() == 0 {
        assert(a.contains(a[0]));
    } else {
        assert(a.contains(a[0]));
        assert(b.contains(b[0]));
        let j = choose|j: int| 0 <= j < b.len() && b[j] == a[0];
        let i = choose|i: int| 0 <= i < a.len() && a[i] == b[0];
        if j > 0 {
            assert(text_lt(b[0], b[j]));
            if i > 0 {
                assert(text_lt(a[0], a[i]));
                lemma_text_lt_total(a[0], b[0]);
            } else {
                lemma_text_lt_total(b[0], b[0]);
            }
        }
        assert(a[0] == b[0]);
        let ra = a.drop_first();
        let rb = b.drop_first();
        assert forall|x: Seq<char>| ra.contains(x) <==> rb.contains(x) by {
            if ra.contains(x) {
                let k = choose|k: int| 0 <= k < ra.len() && ra[k] == x;
                assert(a[k + 1] == x);
                assert(text_lt(a[0], a[k + 1]));
                lemma_text_lt_total(a[0], a[0]);
                assert(b.contains(x));
                let m = choose|m: int| 0 <= m < b.len() && b[m] == x;
                assert(m != 0);
                assert(rb[m - 1] == x);
            }
            if rb.contains(x) {
                let k = choose|k: int| 0 <= k < rb.len() && rb[k] == x;
                assert(b[k + 1] == x);
                assert(text_lt(b[0], b[k + 1]));
                lemma_text_lt_total(b[0], b[0]);
                assert(a.contains(x));
                let m = choose|m: int| 0 <= m < a.len() && a[m] == x;
                assert(m != 0);
                assert(ra[m - 1] == x);
            }
        }
        assert forall|p: int, q: int| 0 <= p < q < ra.len() implies text_lt(#[trigger] ra[p], #[trigger] ra[q]) by {
            assert(ra[p] == a[p + 1] && ra[q] == a[q + 1]);
        }
        assert forall|p: int, q: int| 0 <= p < q < rb.len() implies text_lt(#[trigger] rb[p], #[trigger] rb[q]) by {
            assert(rb[p] == b[p + 1] && rb[q] == b[q + 1]);
        }
        lemma_strictly_sorted_unique(ra, rb);
        assert(a =~= seq![a[0]] + ra);
        assert(b =~= seq![b[0]] + rb);
    }
}

} // verus!
