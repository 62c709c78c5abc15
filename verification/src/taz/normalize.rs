//! Cleanup of article text for reading and for LingQ lessons.

use vstd::prelude::*;
use crate::patterns::{regex_replace_all, regex_replace_all_result};
use crate::text::{
    char_is_alphanumeric, char_is_whitespace, chars_of, is_alnum, is_ws, join, join_with,
    keep_chars, lowercase_of, matches_at, matches_at_exec, split_words, str_to_lowercase,
    string_of, word_scan, words,
};

verus! {

// ---------------------------------------------------------------------------
// Whitespace and punctuation cleanup
// ---------------------------------------------------------------------------

/// Whitespace before closing punctuation.
pub const RE_PUNCTUATION: &'static str = "\\s+([,;:.!?)])";
/// Whitespace after an opening bracket.
pub const RE_OPENING: &'static str = "([(\\[])\\s+";
/// A dash directly followed by an opening quote.
pub const RE_QUOTE_SPACING: &'static str = "([–—-])([\"„‚»])";
/// Whitespace after an opening quote.
pub const RE_QUOTE_OPENING: &'static str = "([\"„‚«])\\s+";
/// A single letter split off the word that it starts.
pub const RE_SPLIT_WORD: &'static str = "\\b([A-Za-zÄÖÜäöüß]) ([a-zäöüß]{2,})\\b";
/// A markup tag.
pub const RE_TAG: &'static str = "<[^>]+>";

/// Replacement: the first group.
pub const KEEP_FIRST: &'static str = "$1";
/// Replacement: both groups with a space between.
pub const SPACE_BETWEEN: &'static str = "$1 $2";
/// Replacement: both groups joined.
pub const JOIN_GROUPS: &'static str = "$1$2";
/// Replacement: a single space.
pub const ONE_SPACE: &'static str = " ";

/// Invisible characters that taz.de texts carry: soft hyphen, zero-width
/// space, non-joiner and joiner, word joiner, byte-order mark.
pub open spec fn is_invisible(c: char) -> bool {
    let u = c as u32;
    u == 0xAD || u == 0x200B || u == 0x200C || u == 0x200D || u == 0x2060 || u == 0xFEFF
}

pub open spec fn visible() -> spec_fn(char) -> bool {
    |c: char| !is_invisible(c)
}

/// `haystack` rewritten by `pattern`; unchanged if the pattern does not compile.
pub open spec fn rewrite(pattern: Seq<char>, haystack: Seq<char>, replacement: Seq<char>) -> Seq<
    char,
> {
    match regex_replace_all_result(pattern, haystack, replacement) {
        Some(r) => r,
        None => haystack,
    }
}

/// Whitespace collapsed to single spaces between words.
pub open spec fn collapse(s: Seq<char>) -> Seq<char> {
    join(words(s), seq![' '])
}

/// Cleaned text: invisible characters removed, whitespace collapsed, no space
/// before closing or after opening punctuation, a space between a dash and a
/// following quote, and single letters split off a word joined back to it.
pub open spec fn cleaned(s: Seq<char>) -> Seq<char> {
    let a = collapse(keep_chars(s, visible()));
    let b = rewrite(RE_PUNCTUATION@, a, KEEP_FIRST@);
    let c = rewrite(RE_OPENING@, b, KEEP_FIRST@);
    let d = rewrite(RE_QUOTE_SPACING@, c, SPACE_BETWEEN@);
    let e = rewrite(RE_QUOTE_OPENING@, d, KEEP_FIRST@);
    rewrite(RE_SPLIT_WORD@, e, JOIN_GROUPS@)
}

/// No `(` or `[` is directly followed by white space.
pub open spec fn no_space_after_opening(s: Seq<char>) -> bool {
    forall|i: int|
        0 <= i && i + 1 < s.len() && (#[trigger] s[i] == '(' || s[i] == '[') ==> !is_ws(s[i + 1])
}

/// The cleanup rewrites after the opening-bracket one: the dash-quote,
/// quote-opening and split-word patterns with their replacements.
pub open spec fn keeps_openings_tight(pattern: Seq<char>, replacement: Seq<char>) -> bool {
    ||| pattern == RE_QUOTE_SPACING@ && replacement == SPACE_BETWEEN@
    ||| pattern == RE_QUOTE_OPENING@ && replacement == KEEP_FIRST@
    ||| pattern == RE_SPLIT_WORD@ && replacement == JOIN_GROUPS@
}

/// Rewrites `haystack` with `pattern`, keeping it when the pattern does not compile.
fn rewrite_exec(pattern: &str, haystack: String, replacement: &str) -> (r: String)
    ensures
        r@ == rewrite(pattern@, haystack@, replacement@),
        pattern@ == RE_OPENING@ && replacement@ == KEEP_FIRST@ ==> no_space_after_opening(r@),
        keeps_openings_tight(pattern@, replacement@) && no_space_after_opening(haystack@)
            ==> no_space_after_opening(r@),
{
    match regex_replace_all(pattern, haystack.as_str(), replacement) {
        Some(s) => s,
        None => haystack,
    }
}

/// Cleans whitespace and punctuation spacing in a piece of article text.
pub fn clean_whitespace(input: &str) -> (r: String)
    ensures
        r@ == cleaned(input@),
        no_space_after_opening(r@),
{
    let chars = chars_of(input);
    let mut kept: Vec<char> = Vec::new();
    let mut i: usize = 0;
    while i < chars.len()
        invariant
            i <= chars.len(),
            kept@ == keep_chars(chars@.take(i as int), visible()),
        decreases chars.len() - i,
    {
        let c = chars[i];
        let u = c as u32;
        assert(chars@.take(i + 1).drop_last() =~= chars@.take(i as int));
        if !(u == 0xAD || u == 0x200B || u == 0x200C || u == 0x200D || u == 0x2060 || u == 0xFEFF) {
            kept.push(c);
        }
        i = i + 1;
    }
    assert(chars@.take(chars.len() as int) =~= chars@);
    let ws = split_words(&kept);
    let space: Vec<char> = vec![' '];
    assert(space@ =~= seq![' ']);
    let collapsed = string_of(join_with(&ws, space.as_slice()).as_slice());
    let b = rewrite_exec(RE_PUNCTUATION, collapsed, KEEP_FIRST);
    let c = rewrite_exec(RE_OPENING, b, KEEP_FIRST);
    let d = rewrite_exec(RE_QUOTE_SPACING, c, SPACE_BETWEEN);
    let e = rewrite_exec(RE_QUOTE_OPENING, d, KEEP_FIRST);
    rewrite_exec(RE_SPLIT_WORD, e, JOIN_GROUPS)
}

/// Text with markup tags replaced by spaces, then cleaned.
pub open spec fn markup_stripped(s: Seq<char>) -> Seq<char> {
    cleaned(rewrite(RE_TAG@, s, ONE_SPACE@))
}

/// Removes markup tags and cleans the remaining text.
pub fn strip_markup(input: &str) -> (r: String)
    ensures
        r@ == markup_stripped(input@),
        no_space_after_opening(r@),
{
    let no_tags = rewrite_exec(RE_TAG, input.to_owned(), ONE_SPACE);
    clean_whitespace(no_tags.as_str())
}

/// The first `max` characters of `input` (all of it if it is shorter).
pub fn trim_chars(input: &str, max: usize) -> (r: String)
    ensures
        r@ == input@.take(if max < input@.len() { max as int } else { input@.len() as int }),
{
    let chars = chars_of(input);
    let n = if max < chars.len() { max } else { chars.len() };
    string_of(crate::text::slice_range(chars.as_slice(), 0, n).as_slice())
}

// ---------------------------------------------------------------------------
// Canonical text and similarity
// ---------------------------------------------------------------------------

/// Letters, digits and whitespace.
pub open spec fn alnum_or_ws() -> spec_fn(char) -> bool {
    |c: char| is_alnum(c) || is_ws(c)
}

/// Canonical form for comparing blocks: only letters, digits and whitespace,
/// words separated by single spaces, lower case.
pub open spec fn canonical(s: Seq<char>) -> Seq<char> {
    lowercase_of(join(words(keep_chars(s, alnum_or_ws())), seq![' ']))
}

/// Size of the UTF-8 encoding of `s`, as `str::len` reports it (a string in
/// memory never has more than `usize::MAX` bytes).
pub open spec fn byte_len(s: Seq<char>) -> usize {
    vstd::utf8::encode_utf8(s).len() as usize
}

/// The UTF-8 size of a string.
pub fn byte_len_of(s: &String) -> (n: usize)
    ensures
        n == byte_len(s@),
{
    s.as_str().len()
}

/// The canonical form of a text.
pub fn canonical_text(value: &str) -> (r: String)
    ensures
        r@ == canonical(value@),
{
    let chars = chars_of(value);
    let mut kept: Vec<char> = Vec::new();
    let mut i: usize = 0;
    while i < chars.len()
        invariant
            i <= chars.len(),
            kept@ == keep_chars(chars@.take(i as int), alnum_or_ws()),
        decreases chars.len() - i,
    {
        let c = chars[i];
        assert(chars@.take(i + 1).drop_last() =~= chars@.take(i as int));
        if char_is_alphanumeric(c) || char_is_whitespace(c) {
            kept.push(c);
        }
        i = i + 1;
    }
    assert(chars@.take(chars.len() as int) =~= chars@);
    let ws = split_words(&kept);
    let space: Vec<char> = vec![' '];
    assert(space@ =~= seq![' ']);
    let joined = string_of(join_with(&ws, space.as_slice()).as_slice());
    str_to_lowercase(joined.as_str())
}

/// `needle` occurs in `hay` (`str::contains`).
pub open spec fn contains_text(hay: Seq<char>, needle: Seq<char>) -> bool {
    exists|i: int| matches_at(hay, needle, i)
}

/// Whether `needle` occurs in `hay`.
pub fn contains_exec(hay: &String, needle: &String) -> (b: bool)
    ensures
        b == contains_text(hay@, needle@),
{
    let h = chars_of(hay.as_str());
    let n = chars_of(needle.as_str());
    let mut i: usize = 0;
    while i < h.len()
        invariant
            i <= h.len(),
            h@ == hay@,
            n@ == needle@,
            forall|j: int| 0 <= j < i ==> !matches_at(h@, n@, j),
        decreases h.len() - i,
    {
        if matches_at_exec(h.as_slice(), n.as_slice(), i) {
            assert(matches_at(hay@, needle@, i as int));
            return true;
        }
        i = i + 1;
    }
    if matches_at_exec(h.as_slice(), n.as_slice(), h.len()) {
        assert(matches_at(hay@, needle@, h.len() as int));
        return true;
    }
    assert forall|j: int| !matches_at(h@, n@, j) by {
        if 0 <= j < h@.len() {
            assert(!matches_at(h@, n@, j));
        }
    }
    false
}

/// Two canonical texts overlap: both have at least 40 bytes and one
/// contains the other.
pub open spec fn overlaps(left: Seq<char>, right: Seq<char>) -> bool {
    &&& left.len() > 0
    &&& right.len() > 0
    &&& byte_len(left) >= 40
    &&& byte_len(right) >= 40
    &&& (contains_text(left, right) || contains_text(right, left))
}

/// Whether two canonical texts overlap.
pub fn overlaps_canonical(left: &String, right: &String) -> (b: bool)
    ensures
        b == overlaps(left@, right@),
{
    if left.as_str().is_empty() || right.as_str().is_empty() {
        return false;
    }
    let l = byte_len_of(left);
    let r = byte_len_of(right);
    let shorter = if l < r { l } else { r };
    if shorter < 40 {
        return false;
    }
    contains_exec(left, right) || contains_exec(right, left)
}

/// Two canonical texts are near duplicates: equal, or both at least 80 bytes
/// long and equal in their first `min(shorter byte length, 180)` characters.
pub open spec fn near_duplicate(left: Seq<char>, right: Seq<char>) -> bool {
    let shorter = if byte_len(left) < byte_len(right) {
        byte_len(left)
    } else {
        byte_len(right)
    };
    let prefix: int = if shorter < 180 {
        shorter as int
    } else {
        180
    };
    ||| left == right
    ||| shorter >= 80 && left.take(
        if prefix < left.len() {
            prefix
        } else {
            left.len() as int
        },
    ) == right.take(
        if prefix < right.len() {
            prefix
        } else {
            right.len() as int
        },
    )
}

/// Whether two canonical texts are near duplicates.
pub fn near_duplicate_text(left: &String, right: &String) -> (b: bool)
    ensures
        b == near_duplicate(left@, right@),
{
    if *left == *right {
        return true;
    }
    let l = byte_len_of(left);
    let r = byte_len_of(right);
    let shorter = if l < r { l } else { r };
    if shorter < 80 {
        return false;
    }
    let prefix = if shorter < 180 { shorter } else { 180 };
    trim_chars(left.as_str(), prefix) == trim_chars(right.as_str(), prefix)
}

/// Near duplication does not depend on the order of the two texts.
pub proof fn lemma_near_duplicate_symmetric(a: Seq<char>, b: Seq<char>)
    ensures
        near_duplicate(a, b) == near_duplicate(b, a),
{
}

/// Overlap does not depend on the order of the two texts.
pub proof fn lemma_overlaps_symmetric(a: Seq<char>, b: Seq<char>)
    ensures
        overlaps(a, b) == overlaps(b, a),
{
}

/// Two texts are the same enough: equal, non-empty canonical forms.
pub open spec fn same_enough_spec(left: Seq<char>, right: Seq<char>) -> bool {
    canonical(left).len() > 0 && canonical(left) == canonical(right)
}

/// Whether two texts have the same non-empty canonical form.
pub fn same_enough(left: &str, right: &str) -> (b: bool)
    ensures
        b == same_enough_spec(left@, right@),
{
    let l = canonical_text(left);
    let r = canonical_text(right);
    !l.as_str().is_empty() && l == r
}

/// Whether the canonical forms of two texts overlap.
pub fn overlaps_enough(left: &str, right: &str) -> (b: bool)
    ensures
        b == overlaps(canonical(left@), canonical(right@)),
{
    overlaps_canonical(&canonical_text(left), &canonical_text(right))
}

/// A canonical block repeats the canonical title or subtitle.
pub open spec fn repeats_title(block: Seq<char>, title: Seq<char>, subtitle: Seq<char>) -> bool {
    &&& block.len() > 0
    &&& {
        ||| block == title
        ||| overlaps(block, title)
        ||| subtitle.len() > 0 && (block == subtitle || overlaps(block, subtitle))
    }
}

/// Whether a canonical block repeats the canonical title or subtitle.
pub fn matches_title_or_subtitle(canon_block: &String, canon_title: &String, canon_subtitle: &String) -> (b: bool)
    ensures
        b == repeats_title(canon_block@, canon_title@, canon_subtitle@),
{
    if !canon_block.as_str().is_empty() {
        if *canon_block == *canon_title {
            return true;
        }
        if overlaps_canonical(canon_block, canon_title) {
            return true;
        }
        if !canon_subtitle.as_str().is_empty() && (*canon_block == *canon_subtitle
            || overlaps_canonical(canon_block, canon_subtitle)) {
            return true;
        }
    }
    false
}


// ---------------------------------------------------------------------------
// Removing repeated blocks
// ---------------------------------------------------------------------------

/// Some text of `seen` is a near duplicate of `c`.
pub open spec fn near_any(seen: Seq<Seq<char>>, c: Seq<char>) -> bool {
    exists|i: int| 0 <= i < seen.len() && near_duplicate(#[trigger] seen[i], c)
}

/// Blocks kept so far and their canonical forms, reading `bs` in order: a
/// block is dropped when its canonical form was seen already or is a near
/// duplicate of one seen.
pub open spec fn dedupe_state(bs: Seq<Seq<char>>) -> (Seq<Seq<char>>, Seq<Seq<char>>)
    decreases bs.len(),
{
    if bs.len() == 0 {
        (Seq::empty(), Seq::empty())
    } else {
        let (kept, seen) = dedupe_state(bs.drop_last());
        let c = canonical(bs.last());
        if seen.contains(c) || near_any(seen, c) {
            (kept, seen)
        } else {
            (kept.push(bs.last()), seen.push(c))
        }
    }
}

/// The blocks that remain after dropping repeated ones.
pub open spec fn deduped(bs: Seq<Seq<char>>) -> Seq<Seq<char>> {
    dedupe_state(bs).0
}

/// The kept blocks' canonical forms are the seen ones, and no two are near duplicates.
pub proof fn lemma_dedupe_state(bs: Seq<Seq<char>>)
    ensures
        dedupe_state(bs).1 == dedupe_state(bs).0.map_values(|b: Seq<char>| canonical(b)),
        forall|i: int, j: int|
            0 <= i < j < dedupe_state(bs).1.len() ==> !near_duplicate(
                #[trigger] dedupe_state(bs).1[i],
                #[trigger] dedupe_state(bs).1[j],
            ),
    decreases bs.len(),
{
    if bs.len() > 0 {
        lemma_dedupe_state(bs.drop_last());
        let (kept, seen) = dedupe_state(bs.drop_last());
        let c = canonical(bs.last());
        if !(seen.contains(c) || near_any(seen, c)) {
            assert(seen.push(c) =~= kept.push(bs.last()).map_values(|b: Seq<char>| canonical(b)));
            let s2 = seen.push(c);
            assert forall|i: int, j: int| 0 <= i < j < s2.len() implies !near_duplicate(
                #[trigger] s2[i],
                #[trigger] s2[j],
            ) by {
                if j < seen.len() {
                    assert(s2[i] == seen[i] && s2[j] == seen[j]);
                } else {
                    assert(s2[j] == c);
                    assert(s2[i] == seen[i]);
                    assert(!near_duplicate(seen[i], c));
                }
            }
        }
    }
}

/// Whether `c` is a near duplicate of some text of `seen`.
fn near_any_exec(seen: &Vec<String>, c: &String) -> (b: bool)
    ensures
        b == near_any(seen@.map_values(|s: String| s@), c@),
{
    let ghost sv = seen@.map_values(|s: String| s@);
    let mut i: usize = 0;
    while i < seen.len()
        invariant
            i <= seen.len(),
            sv == seen@.map_values(|s: String| s@),
            forall|j: int| 0 <= j < i ==> !near_duplicate(#[trigger] sv[j], c@),
        decreases seen.len() - i,
    {
        if near_duplicate_text(&seen[i], c) {
            assert(near_duplicate(sv[i as int], c@));
            return true;
        }
        i = i + 1;
    }
    false
}

/// Whether `c` is one of `seen`.
fn contains_string(seen: &Vec<String>, c: &String) -> (b: bool)
    ensures
        b == seen@.map_values(|s: String| s@).contains(c@),
{
    let ghost sv = seen@.map_values(|s: String| s@);
    let mut i: usize = 0;
    while i < seen.len()
        invariant
            i <= seen.len(),
            sv == seen@.map_values(|s: String| s@),
            forall|j: int| 0 <= j < i ==> #[trigger] sv[j] != c@,
        decreases seen.len() - i,
    {
        if seen[i] == *c {
            assert(sv[i as int] == c@);
            return true;
        }
        i = i + 1;
    }
    false
}

/// Drops blocks whose canonical form repeats, or nearly repeats, the
/// canonical form of an earlier kept block. No two remaining blocks are near
/// duplicates of each other.
pub fn dedupe_similar_blocks(blocks: &mut Vec<String>)
    ensures
        final(blocks)@.map_values(|s: String| s@) == deduped(old(blocks)@.map_values(|s: String| s@)),
        forall|i: int, j: int|
            0 <= i < j < final(blocks)@.len() ==> !near_duplicate(
                canonical(#[trigger] final(blocks)@[i]@),
                canonical(#[trigger] final(blocks)@[j]@),
            ),
{
    let ghost bs = blocks@.map_values(|s: String| s@);
    let mut kept: Vec<String> = Vec::new();
    let mut seen: Vec<String> = Vec::new();
    let mut i: usize = 0;
    while i < blocks.len()
        invariant
            i <= blocks.len(),
            bs == blocks@.map_values(|s: String| s@),
            (kept@.map_values(|s: String| s@), seen@.map_values(|s: String| s@)) == dedupe_state(
                bs.take(i as int),
            ),
        decreases blocks.len() - i,
    {
        let canonical = canonical_text(blocks[i].as_str());
        assert(bs.take(i + 1).drop_last() =~= bs.take(i as int));
        assert(bs.take(i + 1).last() == blocks@[i as int]@);
        if !contains_string(&seen, &canonical) && !near_any_exec(&seen, &canonical) {
            let b = blocks[i].clone();
            kept.push(b);
            seen.push(canonical);
            assert(kept@.map_values(|s: String| s@) =~= dedupe_state(bs.take(i as int)).0.push(
                bs[i as int],
            ));
            assert(seen@.map_values(|s: String| s@) =~= dedupe_state(bs.take(i as int)).1.push(
                canonical@,
            ));
        }
        i = i + 1;
    }
    assert(bs.take(blocks.len() as int) =~= bs);
    proof {
        lemma_dedupe_state(bs);
        let kv = kept@.map_values(|s: String| s@);
        assert forall|i: int, j: int| 0 <= i < j < kept@.len() implies !near_duplicate(
            canonical(#[trigger] kept@[i]@),
            canonical(#[trigger] kept@[j]@),
        ) by {
            assert(dedupe_state(bs).1[i] == canonical(kv[i]));
            assert(dedupe_state(bs).1[j] == canonical(kv[j]));
        }
    }
    *blocks = kept;
}

/// Drops an opening block that repeats the title or subtitle, or else a
/// second block that nearly repeats the first.
pub open spec fn intro_dropped(bs: Seq<Seq<char>>, title: Seq<char>, subtitle: Seq<char>) -> Seq<
    Seq<char>,
> {
    if bs.len() == 0 {
        bs
    } else if overlaps(canonical(bs[0]), canonical(title)) || (subtitle.len() > 0 && overlaps(
        canonical(bs[0]),
        canonical(subtitle),
    )) {
        bs.remove(0)
    } else if bs.len() >= 2 && near_duplicate(canonical(bs[0]), canonical(bs[1])) {
        bs.remove(1)
    } else {
        bs
    }
}

/// Drops an opening block that repeats the title or subtitle, or else a
/// second block that nearly repeats the first.
pub fn drop_intro_like_duplicates(blocks: &mut Vec<String>, title: &str, subtitle: &str)
    ensures
        final(blocks)@.map_values(|s: String| s@) == intro_dropped(
            old(blocks)@.map_values(|s: String| s@),
            title@,
            subtitle@,
        ),
{
    let ghost bs = blocks@.map_values(|s: String| s@);
    if blocks.len() == 0 {
        return;
    }
    let first = blocks[0].clone();
    if overlaps_enough(first.as_str(), title) || (!subtitle.is_empty() && overlaps_enough(
        first.as_str(),
        subtitle,
    )) {
        blocks.remove(0);
        assert(blocks@.map_values(|s: String| s@) =~= bs.remove(0));
        return;
    }
    if blocks.len() >= 2 {
        let second = blocks[1].clone();
        if near_duplicate_text(&canonical_text(first.as_str()), &canonical_text(second.as_str())) {
            blocks.remove(1);
            assert(blocks@.map_values(|s: String| s@) =~= bs.remove(1));
        }
    }
}


// ---------------------------------------------------------------------------
// Lesson body and clean text
// ---------------------------------------------------------------------------

/// The prefix that marks a heading block.
pub open spec fn heading_marker() -> Seq<char> {
    seq!['#', '#', ' ']
}

/// A heading block without its marker and surrounding whitespace; any other
/// block unchanged.
pub open spec fn unmarked(block: Seq<char>) -> Seq<char> {
    if block.len() >= 3 && block.take(3) == heading_marker() {
        crate::text::trim(block.skip(3))
    } else {
        block
    }
}

/// The cleaned, non-empty blocks of `raws` that do not repeat the title or
/// subtitle (given in canonical form), headings unmarked.
pub open spec fn body_blocks(raws: Seq<Seq<char>>, canon_title: Seq<char>, canon_subtitle: Seq<char>) -> Seq<
    Seq<char>,
>
    decreases raws.len(),
{
    if raws.len() == 0 {
        Seq::empty()
    } else {
        let prior = body_blocks(raws.drop_last(), canon_title, canon_subtitle);
        let block = cleaned(raws.last());
        if block.len() == 0 {
            prior
        } else if repeats_title(canonical(unmarked(block)), canon_title, canon_subtitle) {
            prior
        } else {
            prior.push(unmarked(block))
        }
    }
}

/// The lesson body: the blank-line separated blocks of `body`, cleaned, without
/// blocks that repeat the title or subtitle or an earlier block, joined by
/// blank lines.
pub open spec fn lesson_body(body: Seq<char>, title: Seq<char>, subtitle: Seq<char>) -> Seq<char> {
    let raws = crate::text::split_on(body, seq!['\n', '\n']);
    let blocks = body_blocks(raws, canonical(title), canonical(subtitle));
    join(intro_dropped(deduped(blocks), title, subtitle), seq!['\n', '\n'])
}

/// A heading block `## h` loses its marker: what is kept of it is `h`
/// trimmed, which is shorter than the block. A block without the marker is
/// kept as it is.
pub proof fn lemma_heading_marker_removed(h: Seq<char>, block: Seq<char>)
    ensures
        unmarked(heading_marker() + h) == crate::text::trim(h),
        unmarked(heading_marker() + h).len() < (heading_marker() + h).len(),
        !(block.len() >= 3 && block.take(3) == heading_marker()) ==> unmarked(block) == block,
{
    let b = heading_marker() + h;
    assert(b.take(3) =~= heading_marker());
    assert(b.skip(3) =~= h);
    crate::text::lemma_trim(h, crate::text::ws_pred());
}

/// A body block that reads `## h` once cleaned is kept in the lesson body as
/// `h` trimmed, without the marker, unless that repeats the title or
/// subtitle.
pub proof fn lemma_heading_block_kept_unmarked(
    raws: Seq<Seq<char>>,
    raw: Seq<char>,
    h: Seq<char>,
    canon_title: Seq<char>,
    canon_subtitle: Seq<char>,
)
    requires
        cleaned(raw) == heading_marker() + h,
        !repeats_title(canonical(crate::text::trim(h)), canon_title, canon_subtitle),
    ensures
        body_blocks(raws.push(raw), canon_title, canon_subtitle) == body_blocks(
            raws,
            canon_title,
            canon_subtitle,
        ).push(crate::text::trim(h)),
{
    lemma_heading_marker_removed(h, h);
    assert(raws.push(raw).drop_last() =~= raws);
    assert(raws.push(raw).last() == raw);
}

/// A block without its heading marker.
fn unmark(block: String) -> (r: String)
    ensures
        r@ == unmarked(block@),
{
    let chars = chars_of(block.as_str());
    if chars.len() >= 3 && chars[0] == '#' && chars[1] == '#' && chars[2] == ' ' {
        assert(chars@.take(3) =~= heading_marker());
        let rest = crate::text::slice_range(chars.as_slice(), 3, chars.len());
        assert(rest@ =~= chars@.skip(3));
        string_of(crate::text::trim_ws(rest.as_slice()).as_slice())
    } else {
        proof {
            if chars@.len() >= 3 && chars@.take(3) == heading_marker() {
                assert(chars@[0] == chars@.take(3)[0]);
                assert(chars@[1] == chars@.take(3)[1]);
                assert(chars@[2] == chars@.take(3)[2]);
            }
        }
        block
    }
}

/// Builds the lesson body of an article from its raw body text.
pub fn normalize_body_for_lingq(body: &str, title: &str, subtitle: &str) -> (r: String)
    ensures
        r@ == lesson_body(body@, title@, subtitle@),
{
    let canon_title = canonical_text(title);
    let canon_subtitle = canonical_text(subtitle);
    let chars = chars_of(body);
    let sep: Vec<char> = vec!['\n', '\n'];
    assert(sep@ =~= seq!['\n', '\n']);
    let raws = crate::text::split_on_exec(chars.as_slice(), sep.as_slice());
    let ghost rv = raws@.map_values(|w: Vec<char>| w@);
    let mut blocks: Vec<String> = Vec::new();
    let mut i: usize = 0;
    while i < raws.len()
        invariant
            i <= raws.len(),
            rv == raws@.map_values(|w: Vec<char>| w@),
            canon_title@ == canonical(title@),
            canon_subtitle@ == canonical(subtitle@),
            blocks@.map_values(|s: String| s@) == body_blocks(
                rv.take(i as int),
                canon_title@,
                canon_subtitle@,
            ),
        decreases raws.len() - i,
    {
        assert(rv.take(i + 1).drop_last() =~= rv.take(i as int));
        assert(rv.take(i + 1).last() == raws@[i as int]@);
        let raw = string_of(raws[i].as_slice());
        let block = clean_whitespace(raw.as_str());
        if !block.as_str().is_empty() {
            let normalized = unmark(block);
            let canon_block = canonical_text(normalized.as_str());
            if !matches_title_or_subtitle(&canon_block, &canon_title, &canon_subtitle) {
                let ghost prev = blocks@.map_values(|s: String| s@);
                blocks.push(normalized);
                assert(blocks@.map_values(|s: String| s@) =~= prev.push(unmarked(cleaned(rv[i as int]))));
            }
        }
        i = i + 1;
    }
    assert(rv.take(raws.len() as int) =~= rv);
    dedupe_similar_blocks(&mut blocks);
    drop_intro_like_duplicates(&mut blocks, title, subtitle);
    crate::text::join_strings(&blocks, sep.as_slice())
}

/// The optional header lines between title and body.
pub open spec fn header_lines(title: Seq<char>, subtitle: Seq<char>, author: Seq<char>, date: Seq<char>) -> Seq<
    Seq<char>,
> {
    let sub = if subtitle.len() > 0 && !same_enough_spec(subtitle, title) {
        seq![Seq::<char>::empty(), subtitle]
    } else {
        Seq::empty()
    };
    let by = if author.len() > 0 {
        seq![seq!['V', 'o', 'n', ' '] + author]
    } else {
        Seq::empty()
    };
    let when = if date.len() > 0 {
        seq![date]
    } else {
        Seq::empty()
    };
    sub + by + when
}

/// The clean text of an article: the title, then (each on its own line) the
/// cleaned subtitle after a blank line unless it repeats the title,
/// `Von <author>` and the date when given, then a blank line and the lesson
/// body.
pub open spec fn clean_text(
    title: Seq<char>,
    subtitle: Seq<char>,
    author: Seq<char>,
    date: Seq<char>,
    body: Seq<char>,
) -> Seq<char> {
    let sub = cleaned(subtitle);
    join(
        seq![title] + header_lines(title, sub, author, date) + seq![
            Seq::<char>::empty(),
            lesson_body(body, title, sub),
        ],
        seq!['\n'],
    )
}

/// Builds the text that is saved and uploaded for an article. It starts with
/// the title on the first line.
pub fn build_clean_text(title: &str, subtitle: &str, author: &str, date: &str, body: &str) -> (r:
    String)
    ensures
        r@ == clean_text(title@, subtitle@, author@, date@, body@),
        r@.len() >= title@.len(),
        r@.take(title@.len() as int) == title@,
{
    let normalized_subtitle = clean_whitespace(subtitle);
    let normalized_body = normalize_body_for_lingq(body, title, normalized_subtitle.as_str());
    let mut pieces: Vec<String> = Vec::new();
    pieces.push(title.to_owned());
    let ghost sub = normalized_subtitle@;
    if !normalized_subtitle.as_str().is_empty() && !same_enough(normalized_subtitle.as_str(), title) {
        pieces.push(String::new());
        pieces.push(normalized_subtitle);
    }
    if !author.is_empty() {
        let mut by: Vec<char> = vec!['V', 'o', 'n', ' '];
        crate::text::append_chars(&mut by, chars_of(author).as_slice());
        pieces.push(string_of(by.as_slice()));
    }
    if !date.is_empty() {
        pieces.push(date.to_owned());
    }
    pieces.push(String::new());
    pieces.push(normalized_body);
    let ghost expected = seq![title@] + header_lines(title@, sub, author@, date@) + seq![
        Seq::<char>::empty(),
        lesson_body(body@, title@, sub),
    ];
    assert(pieces@.map_values(|s: String| s@) =~= expected);
    let nl: Vec<char> = vec!['\n'];
    assert(nl@ =~= seq!['\n']);
    let r = crate::text::join_strings(&pieces, nl.as_slice());
    proof {
        crate::text::lemma_join_front(expected, seq!['\n']);
        assert(expected[0] == title@);
    }
    r
}


// ---------------------------------------------------------------------------
// Reading difficulty
// ---------------------------------------------------------------------------

/// Total number of characters in the words.
pub open spec fn letters(ws: Seq<Seq<char>>) -> nat
    decreases ws.len(),
{
    if ws.len() == 0 {
        0
    } else {
        letters(ws.drop_last()) + ws.last().len()
    }
}

/// Number of words of ten characters or more.
pub open spec fn long_words(ws: Seq<Seq<char>>) -> nat
    decreases ws.len(),
{
    if ws.len() == 0 {
        0
    } else {
        long_words(ws.drop_last()) + if ws.last().len() >= 10 { 1nat } else { 0nat }
    }
}

/// `.`, `!` or `?`.
pub open spec fn is_sentence_mark(c: char) -> bool {
    c == '.' || c == '!' || c == '?'
}

/// A sentence ends at position `i`: a sentence mark followed by whitespace, a
/// double quote, or the end of the text.
pub open spec fn ends_sentence_at(t: Seq<char>, i: int) -> bool {
    &&& is_sentence_mark(t[i])
    &&& (i + 1 == t.len() || is_ws(t[i + 1]) || t[i + 1] == '"')
}

/// Number of sentence ends among the first `k` positions.
pub open spec fn sentence_ends(t: Seq<char>, k: int) -> nat
    decreases k,
{
    if k <= 0 {
        0
    } else {
        sentence_ends(t, k - 1) + if ends_sentence_at(t, k - 1) { 1nat } else { 0nat }
    }
}

pub open spec fn clamp(x: int, lo: int, hi: int) -> int {
    if x < lo {
        lo
    } else if x > hi {
        hi
    } else {
        x
    }
}

/// The difficulty of a text with `w` words, `s` sentences, `c` characters in
/// its words and `l` long words.
///
/// With the sentence score `ss = clamp((w/s - 8) / 20, 0, 1)`, the word-length
/// score `ws = clamp((c/w - 4) / 4, 0, 1)` and the long-word score
/// `ls = clamp(4l/w, 0, 1)`, the level is `1 + 4 * (0.4 ss + 0.3 ws + 0.3 ls)`
/// rounded half up. Over the common denominator that value is `1 + n / (50 s w)`,
/// and it reaches the next level at each of the half points `1.5`, `2.5`, `3.5`
/// and `4.5`.
///
/// The value is computed exactly. Computed in binary floating point instead,
/// a value that lies exactly on a half point can come out just below it and
/// round down: for 78 words, 6 sentences, 554 characters and 19 long words
/// the exact value is `3.5` (level 4) while the floating-point computation
/// gives `3.4999999999999996` (level 3).
pub open spec fn level_from_counts(w: int, s: int, c: int, l: int) -> int {
    let a = clamp(w - 8 * s, 0, 20 * s);
    let b = clamp(c - 4 * w, 0, 4 * w);
    let d = if 4 * l < w { 4 * l } else { w };
    let n = 4 * w * a + 15 * s * b + 60 * s * d;
    let sw = s * w;
    1 + (if n >= 25 * sw { 1int } else { 0 }) + (if n >= 75 * sw { 1int } else { 0 }) + (if n
        >= 125 * sw { 1int } else { 0 }) + (if n >= 175 * sw { 1int } else { 0 })
}

/// The reading difficulty of a text, from 1 to 5; texts of fewer than 20 words
/// get 3.
pub open spec fn difficulty(t: Seq<char>) -> int {
    let ws = words(t);
    let ends = sentence_ends(t, t.len() as int);
    if ws.len() < 20 {
        3
    } else {
        level_from_counts(
            ws.len() as int,
            if ends == 0 { 1 } else { ends as int },
            letters(ws) as int,
            long_words(ws) as int,
        )
    }
}

proof fn lemma_letters_push(ws: Seq<Seq<char>>, w: Seq<char>)
    ensures
        letters(ws.push(w)) == letters(ws) + w.len(),
        long_words(ws.push(w)) == long_words(ws) + if w.len() >= 10 { 1nat } else { 0nat },
{
    assert(ws.push(w).drop_last() =~= ws);
}

proof fn lemma_long_words_bound(ws: Seq<Seq<char>>)
    ensures
        long_words(ws) <= ws.len(),
    decreases ws.len(),
{
    if ws.len() > 0 {
        lemma_long_words_bound(ws.drop_last());
    }
}

/// The words of a text hold no more characters than the text, and each word
/// holds at least one.
proof fn lemma_word_scan_size(t: Seq<char>)
    ensures
        letters(word_scan(t).0) + word_scan(t).1.len() <= t.len(),
        word_scan(t).0.len() <= letters(word_scan(t).0),
    decreases t.len(),
{
    if t.len() > 0 {
        lemma_word_scan_size(t.drop_last());
        let (done, cur) = word_scan(t.drop_last());
        lemma_letters_push(done, cur);
    }
}

proof fn lemma_words_size(t: Seq<char>)
    ensures
        letters(words(t)) <= t.len(),
        words(t).len() <= letters(words(t)),
        long_words(words(t)) <= words(t).len(),
{
    lemma_word_scan_size(t);
    let (done, cur) = word_scan(t);
    lemma_letters_push(done, cur);
    lemma_long_words_bound(words(t));
}

proof fn lemma_sentence_ends_bound(t: Seq<char>, k: int)
    ensures
        sentence_ends(t, k) <= if k < 0 { 0 } else { k },
    decreases k,
{
    if k > 0 {
        lemma_sentence_ends_bound(t, k - 1);
    }
}

/// Whether a position ends a sentence does not change when a `.` becomes a
/// `?` or a `!`.
proof fn lemma_mark_swap_ends(t: Seq<char>, i: int, m: char, j: int)
    requires
        0 <= i < t.len(),
        t[i] == '.',
        m == '?' || m == '!',
        0 <= j < t.len(),
    ensures
        ends_sentence_at(t.update(i, m), j) == ends_sentence_at(t, j),
{
    let u = t.update(i, m);
    if j + 1 < t.len() {
        assert(u[j + 1] == t[j + 1] || (j + 1 == i && !is_ws(u[j + 1]) && !is_ws(t[j + 1])));
    }
}

/// Counting sentence ends up to `k` does not change when a `.` becomes a `?`
/// or a `!`.
proof fn lemma_mark_swap_count(t: Seq<char>, i: int, m: char, k: int)
    requires
        0 <= i < t.len(),
        t[i] == '.',
        m == '?' || m == '!',
        k <= t.len(),
    ensures
        sentence_ends(t.update(i, m), k) == sentence_ends(t, k),
    decreases k,
{
    if k > 0 {
        lemma_mark_swap_count(t, i, m, k - 1);
        lemma_mark_swap_ends(t, i, m, k - 1);
    }
}

/// Reading two texts whose characters are whitespace at the same positions
/// gives words of the same lengths.
proof fn lemma_word_scan_same_gaps(s1: Seq<char>, s2: Seq<char>)
    requires
        s1.len() == s2.len(),
        forall|j: int| 0 <= j < s1.len() ==> is_ws(#[trigger] s1[j]) == is_ws(s2[j]),
    ensures
        word_scan(s1).0.len() == word_scan(s2).0.len(),
        forall|j: int|
            0 <= j < word_scan(s1).0.len() ==> #[trigger] word_scan(s1).0[j].len() == word_scan(
                s2,
            ).0[j].len(),
        word_scan(s1).1.len() == word_scan(s2).1.len(),
    decreases s1.len(),
{
    if s1.len() > 0 {
        let a = s1.drop_last();
        let b = s2.drop_last();
        assert forall|j: int| 0 <= j < a.len() implies is_ws(#[trigger] a[j]) == is_ws(b[j]) by {
            assert(a[j] == s1[j] && b[j] == s2[j]);
        }
        lemma_word_scan_same_gaps(a, b);
        assert(is_ws(s1.last()) == is_ws(s2.last()));
    }
}

/// Word lists with words of the same lengths have the same letter and long
/// word counts.
proof fn lemma_counts_same_lengths(w1: Seq<Seq<char>>, w2: Seq<Seq<char>>)
    requires
        w1.len() == w2.len(),
        forall|j: int| 0 <= j < w1.len() ==> (#[trigger] w1[j]).len() == w2[j].len(),
    ensures
        letters(w1) == letters(w2),
        long_words(w1) == long_words(w2),
    decreases w1.len(),
{
    if w1.len() > 0 {
        let a = w1.drop_last();
        let b = w2.drop_last();
        assert forall|j: int| 0 <= j < a.len() implies (#[trigger] a[j]).len() == b[j].len() by {
            assert(a[j] == w1[j] && b[j] == w2[j]);
        }
        lemma_counts_same_lengths(a, b);
        assert(w1.last().len() == w2[w1.len() - 1].len());
    }
}

/// A `?` or `!` ends a sentence just as a `.` does: turning any `.` of a text
/// into a `?` or a `!` leaves its sentence count, and so its difficulty,
/// unchanged.
pub proof fn lemma_question_and_exclamation_end_sentences(t: Seq<char>, i: int, m: char)
    requires
        0 <= i < t.len(),
        t[i] == '.',
        m == '?' || m == '!',
    ensures
        sentence_ends(t.update(i, m), t.len() as int) == sentence_ends(t, t.len() as int),
        difficulty(t.update(i, m)) == difficulty(t),
{
    let u = t.update(i, m);
    lemma_mark_swap_count(t, i, m, t.len() as int);
    assert forall|j: int| 0 <= j < u.len() implies is_ws(#[trigger] u[j]) == is_ws(t[j]) by {
        if j == i {
            assert(!is_ws(u[j]) && !is_ws(t[j]));
        }
    }
    lemma_word_scan_same_gaps(u, t);
    let wu = words(u);
    let wt = words(t);
    assert(wu.len() == wt.len());
    assert forall|j: int| 0 <= j < wu.len() implies (#[trigger] wu[j]).len() == wt[j].len() by {
        if j < word_scan(u).0.len() {
            assert(wu[j] == word_scan(u).0[j]);
            assert(wt[j] == word_scan(t).0[j]);
        }
    }
    lemma_counts_same_lengths(wu, wt);
}

/// Counts the sentence ends of `t`.
fn count_sentence_ends(t: &Vec<char>) -> (n: u128)
    ensures
        n == sentence_ends(t@, t@.len() as int),
{
    let mut n: u128 = 0;
    let mut i: usize = 0;
    while i < t.len()
        invariant
            i <= t.len(),
            n == sentence_ends(t@, i as int),
            n <= i,
        decreases t.len() - i,
    {
        let c = t[i];
        let mark = c == '.' || c == '!' || c == '?';
        let ends = mark && (i + 1 == t.len() || char_is_whitespace(t[i + 1]) || t[i + 1] == '"');
        if ends {
            n = n + 1;
        }
        i = i + 1;
    }
    n
}

/// Scores the reading difficulty of a text from 1 (easy) to 5 (hard), by its
/// sentence length, word length and share of long words.
pub fn estimate_difficulty(body_text: &str) -> (level: i64)
    requires
        body_text@.len() < 0x1000_0000_0000_0000,
    ensures
        level == difficulty(body_text@),
        1 <= level <= 5,
{
    let t = chars_of(body_text);
    let ws = split_words(&t);
    proof {
        lemma_words_size(t@);
    }
    if ws.len() < 20 {
        return 3;
    }
    let ghost wv = ws@.map_values(|w: Vec<char>| w@);
    let mut c: u128 = 0;
    let mut l: u128 = 0;
    let mut i: usize = 0;
    while i < ws.len()
        invariant
            i <= ws.len(),
            wv == ws@.map_values(|w: Vec<char>| w@),
            wv == words(t@),
            c == letters(wv.take(i as int)),
            l == long_words(wv.take(i as int)),
            l <= i,
            letters(wv) <= t@.len(),
            t@.len() < 0x1000_0000_0000_0000,
        decreases ws.len() - i,
    {
        proof {
            assert(wv.take(i + 1) =~= wv.take(i as int).push(wv[i as int]));
            lemma_letters_push(wv.take(i as int), wv[i as int]);
            lemma_letters_prefix(wv, i + 1);
        }
        let len = ws[i].len();
        c = c + len as u128;
        if len >= 10 {
            l = l + 1;
        }
        i = i + 1;
    }
    proof {
        assert(wv.take(ws.len() as int) =~= wv);
        lemma_long_words_bound(wv);
        lemma_sentence_ends_bound(t@, t@.len() as int);
    }
    let ends = count_sentence_ends(&t);
    let s: u128 = if ends == 0 { 1 } else { ends };
    let w: u128 = ws.len() as u128;
    let a: u128 = if w < 8 * s { 0 } else if w - 8 * s > 20 * s { 20 * s } else { w - 8 * s };
    let b: u128 = if c < 4 * w { 0 } else if c - 4 * w > 4 * w { 4 * w } else { c - 4 * w };
    let d: u128 = if 4 * l < w { 4 * l } else { w };
    proof {
        lemma_difficulty_bounds(w as int, s as int, a as int, b as int, d as int);
    }
    let sw = s * w;
    let n = 4 * w * a + 15 * s * b + 60 * s * d;
    let mut level: i64 = 1;
    if n >= 25 * sw {
        level = level + 1;
    }
    if n >= 75 * sw {
        level = level + 1;
    }
    if n >= 125 * sw {
        level = level + 1;
    }
    if n >= 175 * sw {
        level = level + 1;
    }
    level
}

proof fn lemma_letters_prefix(ws: Seq<Seq<char>>, k: int)
    requires
        0 <= k <= ws.len(),
    ensures
        letters(ws.take(k)) <= letters(ws),
    decreases ws.len() - k,
{
    if k < ws.len() {
        lemma_letters_prefix(ws, k + 1);
        assert(ws.take(k + 1).drop_last() =~= ws.take(k));
    } else {
        assert(ws.take(k) =~= ws);
    }
}

/// With counts below 2^60 every intermediate product fits in 128 bits.
proof fn lemma_difficulty_bounds(w: int, s: int, a: int, b: int, d: int)
    requires
        1 <= w < 0x1000_0000_0000_0000,
        1 <= s < 0x1000_0000_0000_0000,
        0 <= a <= 20 * s,
        0 <= b <= 4 * w,
        0 <= d <= w,
    ensures
        s * w < 0x1000_0000_0000_0000 * 0x1000_0000_0000_0000,
        4 * w * a <= 80 * (s * w),
        15 * s * b <= 60 * (s * w),
        60 * s * d <= 60 * (s * w),
        200 * (s * w) <= u128::MAX,
{
    assert(s * w < 0x1000_0000_0000_0000 * 0x1000_0000_0000_0000) by (nonlinear_arith)
        requires
            1 <= w < 0x1000_0000_0000_0000,
            1 <= s < 0x1000_0000_0000_0000,
    ;
    assert(4 * w * a <= 80 * (s * w)) by (nonlinear_arith)
        requires
            1 <= w,
            0 <= a <= 20 * s,
    ;
    assert(15 * s * b <= 60 * (s * w)) by (nonlinear_arith)
        requires
            1 <= s,
            0 <= b <= 4 * w,
    ;
    assert(60 * s * d <= 60 * (s * w)) by (nonlinear_arith)
        requires
            1 <= s,
            0 <= d <= w,
    ;
}

} // verus!
