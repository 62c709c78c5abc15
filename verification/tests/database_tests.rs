use taz_reader::database::{pending_migrations, plan_query, sanitize_fts_query, ArticleQuery, ListOrder};

#[test]
fn sanitize_fts_plain_words() {
    assert_eq!(sanitize_fts_query("hello world"), r#""hello" "world""#);
}

#[test]
fn sanitize_fts_strips_operators() {
    assert_eq!(sanitize_fts_query(r#"hello "world" NOT"#), r#""hello" "world" "NOT""#);
}

#[test]
fn sanitize_fts_strips_stars_and_parens() {
    assert_eq!(sanitize_fts_query("test* (group)"), r#""test" "group""#);
}

#[test]
fn sanitize_fts_trims_leading_trailing_dashes() {
    assert_eq!(sanitize_fts_query("-negated- --double--"), r#""negated" "double""#);
}

#[test]
fn sanitize_fts_empty_input() {
    assert_eq!(sanitize_fts_query(""), "");
}

#[test]
fn sanitize_fts_only_special_chars() {
    assert_eq!(sanitize_fts_query(r#""*^(){}:+"#), "");
}

#[test]
fn sanitize_fts_preserves_german_chars() {
    assert_eq!(sanitize_fts_query("Über Straße"), r#""Über" "Straße""#);
}

#[test]
fn sanitize_fts_is_idempotent_on_examples() {
    for input in ["hello world", r#"a "b" c*"#, "-x- --y--", "", "Über Straße", "  spaced   out  "] {
        let once = sanitize_fts_query(input);
        assert_eq!(sanitize_fts_query(&once), once);
    }
}

#[test]
fn sanitize_fts_keeps_inner_dashes() {
    assert_eq!(sanitize_fts_query("well-known -x-"), r#""well-known" "x""#);
}

fn query(search: Option<&str>, sort: Option<&str>) -> ArticleQuery {
    ArticleQuery {
        search: search.map(|s| s.to_owned()),
        section: Some("Politik".to_owned()),
        only_not_uploaded: true,
        min_words: Some(10),
        max_words: None,
        sort: sort.map(|s| s.to_owned()),
        limit: 250,
    }
}

#[test]
fn plan_query_uses_full_text_for_plain_words() {
    let plan = plan_query(&query(Some("Klima Wandel"), Some("oldest")));
    assert!(plan.use_fts);
    assert_eq!(plan.search.as_deref(), Some(r#""Klima" "Wandel""#));
    assert_eq!(plan.order, ListOrder::Oldest);
    assert_eq!(plan.order.clause(), "date ASC, id ASC");
    assert_eq!(plan.section.as_deref(), Some("Politik"));
    assert_eq!(plan.only_not_uploaded, 1);
    assert_eq!(plan.min_words, Some(10));
    assert_eq!(plan.max_words, None);
    assert_eq!(plan.limit, 250);
}

#[test]
fn plan_query_falls_back_to_like_for_operator_only_search() {
    let plan = plan_query(&query(Some("***"), None));
    assert!(!plan.use_fts);
    assert_eq!(plan.search.as_deref(), Some("***"));
    assert_eq!(plan.order, ListOrder::Newest);
    assert_eq!(plan.order.clause(), "date DESC, id DESC");
}

#[test]
fn plan_query_without_search() {
    let plan = plan_query(&query(None, Some("title")));
    assert!(!plan.use_fts);
    assert_eq!(plan.search, None);
    assert_eq!(plan.order.clause(), "title ASC");
}

#[test]
fn plan_query_unknown_sort_is_newest() {
    assert_eq!(plan_query(&query(None, Some("random"))).order, ListOrder::Newest);
    assert_eq!(plan_query(&query(None, Some("longest"))).order.clause(), "word_count DESC");
    assert_eq!(plan_query(&query(None, Some("shortest"))).order.clause(), "word_count ASC");
}

#[test]
fn pending_migrations_from_each_version() {
    assert_eq!(pending_migrations(0), vec![1, 2, 3, 4]);
    assert_eq!(pending_migrations(2), vec![3, 4]);
    assert_eq!(pending_migrations(4), Vec::<i64>::new());
    assert_eq!(pending_migrations(9), Vec::<i64>::new());
    assert_eq!(pending_migrations(-3), vec![1, 2, 3, 4]);
}
