use bloomrepo::db::{
    discovered_on_pattern, existing_ids_sql, plan_search, sanitize_fts5_query, topics_column,
    topics_from_column, SearchPlan,
};

#[test]
fn fts_query_quotes_every_word() {
    assert_eq!(sanitize_fts5_query("c++"), "\"c++\"");
    assert_eq!(sanitize_fts5_query("rust  agent"), "\"rust\"* \"agent\"*");
    assert_eq!(sanitize_fts5_query("foo:bar"), "\"foo:bar\"");
    assert_eq!(sanitize_fts5_query("\"broken quote"), "\"broken\"* \"quote\"*");
    assert_eq!(sanitize_fts5_query("AND OR NOT"), "\"AND\"* \"OR\" \"NOT\"*");
    assert_eq!(sanitize_fts5_query(" \"\" "), "");
    assert_eq!(sanitize_fts5_query("ab_c"), "\"ab_c\"*");
}

#[test]
fn search_plans() {
    assert!(matches!(plan_search("   "), SearchPlan::Recent));
    assert!(matches!(plan_search("\"\""), SearchPlan::Recent));
    match plan_search("  c++ ") {
        SearchPlan::FullText { query, like_pattern } => {
            assert_eq!(query, "\"c++\"");
            assert_eq!(like_pattern, "%c++%");
        }
        SearchPlan::Recent => panic!("expected a full-text search"),
    }
}

#[test]
fn topics_round_trip_through_their_column() {
    let topics = vec!["cli".to_string(), "tool".to_string()];
    let column = topics_column(&topics);
    assert_eq!(column, "cli, tool");
    assert_eq!(topics_from_column(&column), topics);
    assert_eq!(topics_from_column(""), Vec::<String>::new());
    assert_eq!(topics_from_column(" a ,, b"), vec!["a".to_string(), "b".to_string()]);
}

#[test]
fn sql_text_helpers() {
    assert_eq!(existing_ids_sql(3), "SELECT id FROM repos WHERE id IN (?,?,?)");
    assert_eq!(existing_ids_sql(1), "SELECT id FROM repos WHERE id IN (?)");
    assert_eq!(discovered_on_pattern("2026-09-22"), "2026-09-22%");
}

#[test]
fn fts_query_of_words_apart() {
    let x = "c++ \"quoted";
    let y = "agent";
    let joined = sanitize_fts5_query(&format!("{x} \t\n{y}"));
    assert_eq!(joined, format!("{} {}", sanitize_fts5_query(x), sanitize_fts5_query(y)));
    assert_eq!(sanitize_fts5_query(&format!("  {x}\t")), sanitize_fts5_query(x));
    assert_eq!(sanitize_fts5_query(&format!("\"\" {y}")), sanitize_fts5_query(y));
}
