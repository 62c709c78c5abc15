use taz_reader::database::StoredArticleMeta;
use taz_reader::gui::inputs::{parse_optional_i64, parse_positive_usize_input};
use taz_reader::gui::jobs::{format_failure_suffix, JobFailure};
use taz_reader::gui::labels::{index_of_label, indexed_label, section_heading};
use taz_reader::gui::lesson_match::match_lingq_lessons;
use taz_reader::gui::modes::{ArticleDensity, LibrarySortMode};
use taz_reader::lingq::RemoteLesson;

#[test]
fn parse_positive_usize_valid() {
    assert_eq!(parse_positive_usize_input("42", "limit").unwrap(), 42);
}

#[test]
fn parse_positive_usize_zero_rejected() {
    assert!(parse_positive_usize_input("0", "limit").is_err());
}

#[test]
fn parse_positive_usize_empty_rejected() {
    assert!(parse_positive_usize_input("", "limit").is_err());
}

#[test]
fn parse_positive_usize_negative_rejected() {
    assert!(parse_positive_usize_input("-1", "limit").is_err());
}

#[test]
fn parse_positive_usize_whitespace_trimmed() {
    assert_eq!(parse_positive_usize_input("  10  ", "limit").unwrap(), 10);
}

#[test]
fn parse_optional_i64_valid() {
    assert_eq!(parse_optional_i64("100").unwrap(), Some(100));
}

#[test]
fn parse_optional_i64_empty_is_none() {
    assert_eq!(parse_optional_i64("").unwrap(), None);
}

#[test]
fn parse_optional_i64_invalid() {
    assert!(parse_optional_i64("abc").is_err());
}

#[test]
fn section_heading_strips_suffix() {
    assert_eq!(section_heading("Politik - Inland"), "Politik");
}

#[test]
fn section_heading_no_separator() {
    assert_eq!(section_heading("Kultur"), "Kultur");
}

#[test]
fn format_failure_suffix_empty() {
    assert_eq!(format_failure_suffix(&[]), "");
}

#[test]
fn format_failure_suffix_one() {
    let result = format_failure_suffix(&[JobFailure {
        label: "error1".to_owned(),
        detail: String::new(),
        retry: None,
    }]);
    assert!(result.contains("1 failed"));
    assert!(result.contains("error1"));
}

#[test]
fn format_failure_suffix_truncates_at_three() {
    let failures: Vec<JobFailure> = (1..=5)
        .map(|i| JobFailure {
            label: format!("err{i}"),
            detail: String::new(),
            retry: None,
        })
        .collect();
    let result = format_failure_suffix(&failures);
    assert!(result.contains("5 failed"));
    assert!(result.contains("+2 more"));
}

#[test]
fn index_of_label_found() {
    let labels = vec!["A".to_owned(), "B".to_owned(), "C".to_owned()];
    assert_eq!(index_of_label(&labels, "B"), 1);
}

#[test]
fn index_of_label_not_found() {
    let labels = vec!["A".to_owned()];
    assert_eq!(index_of_label(&labels, "Z"), 0);
}

#[test]
fn indexed_label_valid() {
    let labels = vec!["A".to_owned(), "B".to_owned()];
    assert_eq!(indexed_label(&labels, 1), "B");
}

#[test]
fn indexed_label_negative_clamps() {
    let labels = vec!["A".to_owned(), "B".to_owned()];
    assert_eq!(indexed_label(&labels, -5), "A");
}

#[test]
fn indexed_label_out_of_bounds() {
    let labels = vec!["A".to_owned()];
    assert_eq!(indexed_label(&labels, 99), "A");
}

#[test]
fn sort_mode_roundtrip() {
    for mode in LibrarySortMode::all() {
        assert_eq!(LibrarySortMode::from_index(mode.index()), mode);
    }
}

#[test]
fn sort_mode_invalid_index_defaults() {
    assert_eq!(LibrarySortMode::from_index(-1), LibrarySortMode::Newest);
    assert_eq!(LibrarySortMode::from_index(99), LibrarySortMode::Newest);
}

#[test]
fn article_density_roundtrip() {
    for density in ArticleDensity::all() {
        assert_eq!(ArticleDensity::from_index(density.index()), density);
        assert_eq!(ArticleDensity::from_setting(density.setting()), density);
    }
}

fn meta(id: i64, url: &str, title: &str) -> StoredArticleMeta {
    StoredArticleMeta {
        id,
        url: url.to_owned(),
        title: title.to_owned(),
        subtitle: String::new(),
        author: String::new(),
        date: String::new(),
        section: String::new(),
        word_count: 1000,
        difficulty: 3,
        fetched_at: String::new(),
        uploaded_to_lingq: false,
        lingq_lesson_id: None,
        lingq_lesson_url: String::new(),
        paywalled: false,
    }
}

#[test]
fn lingq_matching_prefers_original_url() {
    let articles = vec![meta(42, "https://taz.de/Foo/!123/?utm=abc", "Different title")];
    let lessons = vec![RemoteLesson {
        id: 99,
        title: "Remote title".to_owned(),
        original_url: Some("https://www.taz.de/Foo/!123/".to_owned()),
        lesson_url: "https://www.lingq.com/de/learn/lesson/99/".to_owned(),
    }];

    let (matches, ambiguous) = match_lingq_lessons(&lessons, &articles);
    assert_eq!(ambiguous, 0);
    assert_eq!(matches, vec![(42, 99, lessons[0].lesson_url.clone())]);
}

#[test]
fn lingq_matching_skips_ambiguous_titles() {
    let make_article = |id: i64| meta(id, &format!("https://taz.de/a{id}/"), "Same title");
    let articles = vec![make_article(1), make_article(2)];
    let lessons = vec![RemoteLesson {
        id: 99,
        title: "Same title".to_owned(),
        original_url: None,
        lesson_url: "https://www.lingq.com/de/learn/lesson/99/".to_owned(),
    }];

    let (matches, ambiguous) = match_lingq_lessons(&lessons, &articles);
    assert_eq!(matches.len(), 0);
    assert_eq!(ambiguous, 1);
}
