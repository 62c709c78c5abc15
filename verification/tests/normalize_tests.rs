use taz_reader::gui::lesson_match::{normalized_duplicate_title, normalized_lingq_url};
use taz_reader::taz::normalize::{
    build_clean_text, canonical_text, clean_whitespace, dedupe_similar_blocks, estimate_difficulty,
    normalize_body_for_lingq, strip_markup,
};

#[test]
fn clean_whitespace_collapses_spaces() {
    assert_eq!(clean_whitespace("hello   world"), "hello world");
}

#[test]
fn clean_whitespace_strips_zero_width_chars() {
    assert_eq!(clean_whitespace("hel\u{200b}lo"), "hello");
}

#[test]
fn clean_whitespace_fixes_punctuation_spacing() {
    assert_eq!(clean_whitespace("hello ."), "hello.");
}

#[test]
fn estimate_difficulty_short_text_defaults_to_3() {
    assert_eq!(estimate_difficulty("Ein paar Wörter."), 3);
}

#[test]
fn estimate_difficulty_returns_1_to_5() {
    let easy = "Das ist gut. Er hat Spaß. Sie mag das. Wir sind da. ".repeat(10);
    let score = estimate_difficulty(&easy);
    assert!((1..=5).contains(&score), "score {score} out of range");
}

#[test]
fn estimate_difficulty_complex_text_scores_higher() {
    let easy = "Das ist gut. Er ist da. Sie mag es. Wir auch. ".repeat(10);
    let hard = "Die Bundesverfassungsgerichtsentscheidung über die Grundgesetzänderung zur Arbeitnehmerüberlassungsgesetzgebung wird weitreichende Konsequenzen haben. Die Verwaltungsgerichtsbarkeit prüft die Verhältnismäßigkeit der Maßnahmen zur Bekämpfung der Umweltverschmutzung. ".repeat(5);
    assert!(
        estimate_difficulty(&hard) > estimate_difficulty(&easy),
        "complex German text should score higher"
    );
}

/// The score as a floating-point formula, for comparison.
fn float_difficulty(body_text: &str) -> i64 {
    let words: Vec<&str> = body_text.split_whitespace().collect();
    if words.len() < 20 {
        return 3;
    }
    let sentence_count = body_text
        .chars()
        .zip(body_text.chars().skip(1).chain(std::iter::once(' ')))
        .filter(|(ch, next)| matches!(ch, '.' | '!' | '?') && (next.is_whitespace() || *next == '"'))
        .count()
        .max(1);
    let avg_sentence_len = words.len() as f64 / sentence_count as f64;
    let avg_word_len =
        words.iter().map(|w| w.chars().count()).sum::<usize>() as f64 / words.len() as f64;
    let long_word_ratio =
        words.iter().filter(|w| w.chars().count() >= 10).count() as f64 / words.len() as f64;
    let sentence_score = ((avg_sentence_len - 8.0) / 20.0).clamp(0.0, 1.0);
    let word_len_score = ((avg_word_len - 4.0) / 4.0).clamp(0.0, 1.0);
    let long_word_score = (long_word_ratio / 0.25).clamp(0.0, 1.0);
    let combined = sentence_score * 0.4 + word_len_score * 0.3 + long_word_score * 0.3;
    let level = (combined * 4.0 + 1.0).round() as i64;
    level.clamp(1, 5)
}

#[test]
fn estimate_difficulty_agrees_with_float_formula() {
    let samples = [
        "Das ist gut. Er hat Spaß. Sie mag das. Wir sind da. ".repeat(10),
        "Die Bundesverfassungsgerichtsentscheidung über die Grundgesetzänderung zur Arbeitnehmerüberlassungsgesetzgebung wird weitreichende Konsequenzen haben. ".repeat(4),
        "ein zwei drei vier fünf sechs sieben acht neun zehn elf zwölf dreizehn vierzehn fünfzehn sechzehn siebzehn achtzehn neunzehn zwanzig".to_owned(),
        "Kurz! \"Zitat.\" Frage? Antwort. Noch ein Satz mit mehreren Wörtern darin, sehr lang und ausführlich formuliert. ".repeat(3),
        "Wort ".repeat(200),
        "Außergewöhnlich schwierige Formulierungen. ".repeat(30),
    ];
    for s in samples.iter() {
        assert_eq!(estimate_difficulty(s), float_difficulty(s), "{s}");
    }
}

#[test]
fn estimate_difficulty_levels_at_extremes() {
    // Long sentences of long words: every score at its top.
    let hard = "Verwaltungsgerichtsbarkeiten ".repeat(40) + ".";
    assert_eq!(estimate_difficulty(&hard), 5);
    // Short sentences of short words: every score at zero.
    let easy = "Ja. ".repeat(40);
    assert_eq!(estimate_difficulty(&easy), 1);
}

#[test]
fn strip_markup_removes_tags() {
    assert_eq!(strip_markup("<b>bold</b> text"), "bold text");
}

#[test]
fn strip_markup_handles_nested_tags() {
    assert_eq!(strip_markup("<div><p>hello</p></div>"), "hello");
}

#[test]
fn build_clean_text_includes_all_metadata() {
    let result = build_clean_text("Titel", "Untertitel", "Autor", "2025-01-01", "Body text hier.");
    assert!(result.contains("Titel"), "should contain title");
    assert!(result.contains("Untertitel"), "should contain subtitle");
    assert!(result.contains("Von Autor"), "should contain author with Von prefix");
    assert!(result.contains("2025-01-01"), "should contain date");
    assert!(result.contains("Body text hier."), "should contain body");
}

#[test]
fn build_clean_text_omits_empty_subtitle() {
    let result = build_clean_text("Titel", "", "Autor", "2025-01-01", "Body.");
    assert!(!result.contains("\n\n\n"), "should not have double blank lines from empty subtitle");
}

#[test]
fn build_clean_text_removes_duplicate_title_from_body() {
    let result = build_clean_text("Titel", "Sub", "", "", "Titel\n\nActual body content here.");
    let title_count = result.matches("Titel").count();
    assert!(
        title_count <= 2,
        "title should not appear more than twice (header + possible sub overlap)"
    );
}

#[test]
fn build_clean_text_starts_with_title() {
    let result = build_clean_text("Ein Titel", "Sub", "A", "2025-02-02", "Text.");
    assert!(result.starts_with("Ein Titel"));
}

#[test]
fn dedupe_keeps_first_of_near_duplicates() {
    let mut blocks = vec![
        "Der erste Absatz mit genug Text.".to_owned(),
        "Der erste Absatz mit genug Text!".to_owned(),
        "Etwas ganz anderes.".to_owned(),
    ];
    dedupe_similar_blocks(&mut blocks);
    assert_eq!(blocks, vec!["Der erste Absatz mit genug Text.", "Etwas ganz anderes."]);
}

#[test]
fn lesson_body_drops_repeated_title() {
    let body = normalize_body_for_lingq("Titel\n\nDer Inhalt des Artikels.", "Titel", "");
    assert!(!body.starts_with("Titel"), "{body}");
    assert!(body.contains("Der Inhalt des Artikels."));
}

#[test]
fn canonical_text_keeps_letters_digits_and_single_spaces() {
    assert_eq!(canonical_text("  Hallo,   WELT! 2025 "), "hallo welt 2025");
    assert_eq!(canonical_text("Über—Straße"), "überstraße");
}

#[test]
fn duplicate_title_key_is_lower_case() {
    assert_eq!(normalized_duplicate_title("  Die   Große  Frage "), "die große frage");
    assert_eq!(normalized_lingq_url("https://www.TAZ.de/Foo/!1/?x=1"), "taz.de/foo/!1");
}
