//! Labels of the window's pick lists and the positions chosen in them.

use vstd::prelude::*;
use crate::database::StoredArticleMeta;
use crate::gui::library::{ALL_HEADINGS, ALL_SECTIONS};
use crate::text::{
    chars_of, same_text, sorted_unique, split_on, split_on_exec, string_of,
    strictly_sorted, texts, trim, trim_str, trim_ws,
};

verus! {

/// The separator between a heading and a subsection in a section name.
pub open spec fn heading_separator() -> Seq<char> {
    seq![' ', '-', ' ']
}

/// The heading of a section name: the part before the first ` - `, trimmed.
pub open spec fn heading_of(section: Seq<char>) -> Seq<char> {
    trim(split_on(section, heading_separator())[0])
}

/// The heading of a section name (`Politik - Inland` has heading `Politik`).
pub fn section_heading(section: &str) -> (r: String)
    ensures
        r@ == heading_of(section@),
{
    let chars = chars_of(section);
    let sep: Vec<char> = vec![' ', '-', ' '];
    assert(sep@ =~= heading_separator());
    let pieces = split_on_exec(chars.as_slice(), sep.as_slice());
    proof {
        crate::text::lemma_split_on_nonempty(chars@, sep@);
    }
    string_of(trim_ws(pieces[0].as_slice()).as_slice())
}

/// The position of `current` among `labels`: the first one equal to it, or 0.
pub open spec fn label_position(labels: Seq<Seq<char>>, current: Seq<char>) -> int {
    if exists|i: int| 0 <= i < labels.len() && labels[i] == current {
        choose|i: int|
            0 <= i < labels.len() && labels[i] == current && forall|j: int|
                0 <= j < i ==> labels[j] != current
    } else {
        0
    }
}

/// Where `current` stands among `labels` (its first occurrence), or 0 when
/// it is not one of them.
pub fn index_of_label(labels: &[String], current: &str) -> (r: usize)
    ensures
        r == label_position(labels@.map_values(|s: String| s@), current@),
        labels@.map_values(|s: String| s@).contains(current@) ==> labels@[r as int]@ == current@,
{
    let ghost lv = labels@.map_values(|s: String| s@);
    let cur = current.to_owned();
    let mut i: usize = 0;
    while i < labels.len()
        invariant
            i <= labels.len(),
            lv == labels@.map_values(|s: String| s@),
            cur@ == current@,
            forall|j: int| 0 <= j < i ==> #[trigger] lv[j] != current@,
        decreases labels.len() - i,
    {
        if labels[i] == cur {
            proof {
                assert(lv[i as int] == current@);
                let k = choose|k: int|
                    0 <= k < lv.len() && lv[k] == current@ && forall|j: int|
                        0 <= j < k ==> lv[j] != current@;
                if k < i {
                    assert(lv[k] != current@);
                } else if k > i {
                    assert(lv[i as int] != current@);
                }
            }
            return i;
        }
        i = i + 1;
    }
    proof {
        if exists|k: int| 0 <= k < lv.len() && lv[k] == current@ {
            let k = choose|k: int| 0 <= k < lv.len() && lv[k] == current@;
            assert(lv[k] != current@);
        }
    }
    0
}

/// The label at a position: negative positions count as 0, positions past
/// the end give the first label, and no labels give the empty string.
pub open spec fn label_at(labels: Seq<Seq<char>>, index: int) -> Seq<char> {
    let i = if index < 0 {
        0
    } else {
        index
    };
    if i < labels.len() {
        labels[i]
    } else if labels.len() > 0 {
        labels[0]
    } else {
        Seq::empty()
    }
}

/// The label at a position of a pick list.
pub fn indexed_label(labels: &[String], index: i32) -> (r: String)
    ensures
        r@ == label_at(labels@.map_values(|s: String| s@), index as int),
{
    let i: usize = if index < 0 {
        0
    } else {
        index as usize
    };
    if i < labels.len() {
        labels[i].clone()
    } else if labels.len() > 0 {
        labels[0].clone()
    } else {
        String::new()
    }
}

/// Reading back the label at the position of a label gives that label.
pub proof fn lemma_label_roundtrip(labels: Seq<Seq<char>>, current: Seq<char>)
    requires
        labels.contains(current),
    ensures
        label_at(labels, label_position(labels, current)) == current,
{
    let k = choose|k: int| 0 <= k < labels.len() && labels[k] == current;
    assert(exists|i: int| 0 <= i < labels.len() && labels[i] == current);
    lemma_first_index_exists(labels, current, k);
}

/// A label that occurs has a first occurrence.
proof fn lemma_first_index_exists(labels: Seq<Seq<char>>, current: Seq<char>, k: int)
    requires
        0 <= k < labels.len(),
        labels[k] == current,
    ensures
        exists|i: int|
            0 <= i < labels.len() && labels[i] == current && forall|j: int|
                0 <= j < i ==> labels[j] != current,
    decreases k,
{
    if exists|j: int| 0 <= j < k && labels[j] == current {
        let j = choose|j: int| 0 <= j < k && labels[j] == current;
        lemma_first_index_exists(labels, current, j);
    } else {
        assert(forall|j: int| 0 <= j < k ==> labels[j] != current);
    }
}

/// The library filter presets, in list order.
pub fn filter_preset_labels() -> (r: Vec<&'static str>)
    ensures
        r@.len() == 6,
        r@[0]@ == "No preset"@,
        r@[1]@ == "Short LingQ (600-999)"@,
        r@[2]@ == "Standard LingQ (1000-1800)"@,
        r@[3]@ == "Long reads (1800+)"@,
        r@[4]@ == "Not uploaded"@,
        r@[5]@ == "Duplicates"@,
{
    vec![
        "No preset",
        "Short LingQ (600-999)",
        "Standard LingQ (1000-1800)",
        "Long reads (1800+)",
        "Not uploaded",
        "Duplicates",
    ]
}


/// A pick list led by its "all" entry: `all` first (twice when it is also one
/// of the candidates), then every other candidate once, in text order.
pub open spec fn pick_list(r: Seq<Seq<char>>, all: Seq<char>, candidates: Seq<Seq<char>>) -> bool {
    let lead: int = if candidates.contains(all) { 2 } else { 1 };
    &&& r.len() >= lead
    &&& forall|i: int| 0 <= i < lead ==> #[trigger] r[i] == all
    &&& strictly_sorted(r.skip(lead))
    &&& forall|x: Seq<char>| #[trigger] r.skip(lead).contains(x) <==> (x != all && candidates.contains(x))
}

/// Builds a pick list from `all` and the candidate labels.
fn pick_labels(all: &str, candidates: Vec<String>) -> (r: Vec<String>)
    ensures
        pick_list(texts(r@), all@, texts(candidates@)),
{
    let all_text = all.to_owned();
    let mut others: Vec<String> = Vec::new();
    let mut has_all = false;
    let ghost cv = texts(candidates@);
    let mut i: usize = 0;
    while i < candidates.len()
        invariant
            i <= candidates.len(),
            cv == texts(candidates@),
            all_text@ == all@,
            has_all == cv.take(i as int).contains(all@),
            forall|x: Seq<char>|
                texts(others@).contains(x) <==> (x != all@ && cv.take(i as int).contains(x)),
        decreases candidates.len() - i,
    {
        let c = &candidates[i];
        let ghost prev = texts(others@);
        let ghost t0 = cv.take(i as int);
        let ghost t1 = cv.take(i + 1);
        proof {
            assert(t1 =~= t0.push(c@));
        }
        if same_text(c, &all_text) {
            has_all = true;
            assert(t1[i as int] == all@);
        } else {
            others.push(c.clone());
            assert(texts(others@) =~= prev.push(c@));
        }
        proof {
            assert forall|x: Seq<char>|
                texts(others@).contains(x) <==> (x != all@ && t1.contains(x)) by {
                if t1.contains(x) && x != c@ {
                    let k = choose|k: int| 0 <= k < t1.len() && t1[k] == x;
                    assert(t0[k] == x);
                }
                if t0.contains(x) {
                    let k = choose|k: int| 0 <= k < t0.len() && t0[k] == x;
                    assert(t1[k] == x);
                }
                if x == c@ {
                    assert(t1[i as int] == x);
                }
                if x != c@ && texts(others@).contains(x) {
                    let k = choose|k: int| 0 <= k < texts(others@).len() && texts(others@)[k] == x;
                    if k < prev.len() {
                        assert(prev[k] == x);
                    }
                }
                if prev.contains(x) {
                    let k = choose|k: int| 0 <= k < prev.len() && prev[k] == x;
                    assert(texts(others@)[k] == x);
                }
                if x == c@ && x != all@ {
                    assert(texts(others@)[prev.len() as int] == x);
                }
            }
            if t0.contains(all@) {
                let k = choose|k: int| 0 <= k < t0.len() && t0[k] == all@;
                assert(t1[k] == all@);
            }
            if t1.contains(all@) && c@ != all@ {
                let k = choose|k: int| 0 <= k < t1.len() && t1[k] == all@;
                assert(t0[k] == all@);
            }
        }
        i = i + 1;
    }
    assert(cv.take(candidates.len() as int) =~= cv);
    let sorted = sorted_unique(others);
    let mut r: Vec<String> = Vec::new();
    r.push(all.to_owned());
    if has_all {
        r.push(all.to_owned());
    }
    let ghost lead: int = if has_all { 2 } else { 1 };
    let mut j: usize = 0;
    while j < sorted.len()
        invariant
            j <= sorted.len(),
            r@.len() == lead + j,
            lead == (if has_all { 2int } else { 1 }),
            forall|k: int| 0 <= k < lead ==> #[trigger] texts(r@)[k] == all@,
            texts(r@).skip(lead) == texts(sorted@).take(j as int),
        decreases sorted.len() - j,
    {
        let ghost prev = texts(r@);
        r.push(sorted[j].clone());
        proof {
            assert(texts(r@) =~= prev.push(sorted@[j as int]@));
            assert(texts(r@).skip(lead) =~= texts(sorted@).take(j + 1));
        }
        j = j + 1;
    }
    assert(texts(sorted@).take(sorted.len() as int) =~= texts(sorted@));
    r
}

/// The heading pick list of the library: "All headings", then the headings of
/// the articles' sections.
pub fn heading_labels(articles: &[StoredArticleMeta]) -> (r: Vec<String>)
    ensures
        pick_list(
            texts(r@),
            ALL_HEADINGS@,
            articles@.map_values(|a: StoredArticleMeta| heading_of(a.section@)),
        ),
{
    let mut headings: Vec<String> = Vec::new();
    let mut i: usize = 0;
    while i < articles.len()
        invariant
            i <= articles.len(),
            texts(headings@) == articles@.take(i as int).map_values(
                |a: StoredArticleMeta| heading_of(a.section@),
            ),
        decreases articles.len() - i,
    {
        let h = section_heading(articles[i].section.as_str());
        let ghost prev = texts(headings@);
        headings.push(h);
        proof {
            assert(texts(headings@) =~= prev.push(h@));
            assert(articles@.take(i + 1).map_values(|a: StoredArticleMeta| heading_of(a.section@))
                =~= articles@.take(i as int).map_values(
                |a: StoredArticleMeta| heading_of(a.section@),
            ).push(heading_of(articles@[i as int].section@)));
        }
        i = i + 1;
    }
    assert(articles@.take(articles.len() as int) =~= articles@);
    pick_labels(ALL_HEADINGS, headings)
}

/// The non-empty trimmed section names of the articles, in order.
pub open spec fn section_names(articles: Seq<StoredArticleMeta>) -> Seq<Seq<char>>
    decreases articles.len(),
{
    if articles.len() == 0 {
        Seq::empty()
    } else {
        let r = section_names(articles.drop_last());
        let s = trim(articles.last().section@);
        if s.len() > 0 {
            r.push(s)
        } else {
            r
        }
    }
}

/// The section pick list of the library: "All sections", then the articles'
/// non-empty section names, trimmed.
pub fn section_labels(articles: &[StoredArticleMeta]) -> (r: Vec<String>)
    ensures
        pick_list(texts(r@), ALL_SECTIONS@, section_names(articles@)),
{
    let mut names: Vec<String> = Vec::new();
    let mut i: usize = 0;
    while i < articles.len()
        invariant
            i <= articles.len(),
            texts(names@) == section_names(articles@.take(i as int)),
        decreases articles.len() - i,
    {
        let s = trim_str(articles[i].section.as_str());
        let ghost prev = texts(names@);
        proof {
            assert(articles@.take(i + 1).drop_last() =~= articles@.take(i as int));
        }
        if !s.as_str().is_empty() {
            names.push(s);
            assert(texts(names@) =~= prev.push(s@));
        }
        i = i + 1;
    }
    assert(articles@.take(articles.len() as int) =~= articles@);
    pick_labels(ALL_SECTIONS, names)
}

} // verus!
