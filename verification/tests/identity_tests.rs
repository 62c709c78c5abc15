use taz_reader::identity::{article_key_from_url, article_numeric_id, normalized_url_key};

#[test]
fn article_key_prefers_numeric_id() {
    assert_eq!(
        article_key_from_url("https://taz.de/Sonniges-Wochenende/!6175897/"),
        "6175897"
    );
}

#[test]
fn article_key_supports_percent_encoded_bang() {
    assert_eq!(article_key_from_url("https://taz.de/Foo/%216175897/"), "6175897");
}

#[test]
fn article_key_falls_back_to_normalized_url() {
    assert_eq!(
        article_key_from_url("https://taz.de/Foo/Bar/?x=1#fragment"),
        "url:taz.de/foo/bar"
    );
}

#[test]
fn numeric_id_absent_without_marker() {
    assert_eq!(article_numeric_id("https://taz.de/Foo/Bar/"), None);
    assert_eq!(article_numeric_id("https://taz.de/x/!42/").as_deref(), Some("42"));
}

#[test]
fn normalized_url_key_drops_scheme_www_query_and_case() {
    assert_eq!(normalized_url_key("https://www.TAZ.de/A/B/?q=1"), "taz.de/a/b");
    assert_eq!(normalized_url_key("HTTPS://taz.de/A"), "https://taz.de/a");
    assert_eq!(normalized_url_key("http://taz.de/x#frag"), "taz.de/x");
}

#[test]
fn fallback_key_always_marked() {
    for url in ["https://taz.de/", "", "plain text", "https://taz.de/!abc/"] {
        let key = article_key_from_url(url);
        assert!(key.starts_with("url:"), "{key}");
    }
}

#[test]
fn url_key_ignores_scheme_www_slash_query_and_fragment() {
    for h in ["taz.de/Foo/Bar", "example.org/a//b", "x"] {
        let bare = normalized_url_key(h);
        for p in ["", "http://", "https://"] {
            for w in ["", "www."] {
                for (q, f) in [("", ""), ("x=1&y=#2", "frag ment "), ("?", "#")] {
                    let url = format!("{p}{w}{h}/?{q}#{f}");
                    assert_eq!(normalized_url_key(&url), bare, "{url}");
                }
            }
        }
    }
}

#[test]
fn article_key_is_never_empty() {
    for url in ["", "!", "https://taz.de/!/", "https://taz.de/a/!12/", "   "] {
        assert!(!article_key_from_url(url).is_empty(), "{url}");
    }
}

#[test]
fn article_key_ignores_the_slug() {
    for slug in ["Sonniges-Wochenende", "ganz-anders", "", "a%2F/b", "x%2"] {
        let url = format!("https://taz.de/{slug}/!6175897/");
        assert_eq!(article_key_from_url(&url), "6175897", "{url}");
    }
}
