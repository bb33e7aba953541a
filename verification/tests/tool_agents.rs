use azurejay::tool_agents::{
    correction_fields, format_search_results, grammar_input, grammar_unavailable, merge_profile,
    plan_web_search, search_error, SearchResult,
};

#[test]
fn grammar_inputs() {
    assert_eq!(grammar_input("  I has  "), Ok("I has".to_string()));
    assert_eq!(grammar_input("  "), Err("No syntax errors found.".to_string()));
    assert_eq!(grammar_unavailable("timeout"), "grammar check unavailable: timeout");
}

#[test]
fn web_search_plans() {
    assert_eq!(plan_web_search(" news ", true), Ok("news".to_string()));
    assert_eq!(plan_web_search(" ", true), Err("No relevant information. (empty query)".to_string()));
    assert_eq!(
        plan_web_search("news", false),
        Err("No relevant information. (web search is not configured)".to_string())
    );
    assert_eq!(search_error("500"), "Search error: 500");
}

#[test]
fn search_results_format() {
    assert_eq!(format_search_results(&vec![]), "No relevant information.");
    let rs = vec![
        SearchResult { title: "A".to_string(), url: "http://a".to_string(), content: "aa".to_string() },
        SearchResult { title: "B".to_string(), url: "http://b".to_string(), content: "bb".to_string() },
    ];
    assert_eq!(format_search_results(&rs), "[A](http://a)\naa\n\n[B](http://b)\nbb");
}

#[test]
fn correction_fields_name_what_is_missing() {
    let ok = correction_fields(Some("a"), Some("b"), Some("c"), Some("d")).unwrap();
    assert_eq!((ok.original_text.as_str(), ok.improvement.as_str()), ("a", "d"));
    assert_eq!(
        correction_fields(None, Some("b"), Some(""), Some("d")).unwrap_err(),
        "Cannot save correction, missing fields: original_text, explanation."
    );
    assert_eq!(
        correction_fields(Some("a"), Some("b"), Some("c"), None).unwrap_err(),
        "Cannot save correction, missing fields: improvement."
    );
}

#[test]
fn profiles_merge_into_sorted_interests() {
    let p = merge_profile(
        "Ann",
        Some("Paris".to_string()),
        Some(vec!["tennis".to_string(), "art".to_string(), "tennis".to_string()]),
        None,
        None,
        &vec!["basketball".to_string(), "art".to_string(), "Zoo".to_string()],
    );
    assert_eq!(p.first_name, "Ann");
    assert_eq!(p.location.as_deref(), Some("Paris"));
    assert_eq!(p.interests, vec!["Zoo", "art", "basketball", "tennis"]);
    let q = merge_profile("Ann", None, None, Some("Bo"), Some("Rome"), &vec![]);
    assert_eq!(q.first_name, "Bo");
    assert_eq!(q.location.as_deref(), Some("Rome"));
    assert!(q.interests.is_empty());
    let mut std_set: std::collections::BTreeSet<String> = ["é", "e", "z", "ab", "a"].iter().map(|s| s.to_string()).collect();
    let r = merge_profile("x", None, Some(vec!["é".into(), "e".into(), "z".into()]), None, None, &vec!["ab".into(), "a".into()]);
    assert_eq!(r.interests, std_set.iter().cloned().collect::<Vec<_>>());
    std_set.clear();
}
