use cheru::entry::{AppEntry, ResultType};
use cheru::matcher::{rank_by_score, FuzzyMatcher};

fn make_app(name: &str) -> AppEntry {
    AppEntry {
        name: name.to_string(),
        launch_target: format!("/usr/bin/{}", name.to_lowercase()),
        icon: None,
        description: None,
        result_type: ResultType::App,
    }
}

#[test]
fn test_empty_query_returns_all() {
    let apps = vec![make_app("Alpha"), make_app("Beta"), make_app("Charlie")];
    let mut matcher = FuzzyMatcher::new();
    let results = matcher.search("", &apps);
    assert_eq!(results.len(), 3);
    assert_eq!(results, vec![0, 1, 2]);
}

#[test]
fn test_exact_match_scores_highest() {
    let apps = vec![make_app("Firefox"), make_app("Files"), make_app("Finder")];
    let mut matcher = FuzzyMatcher::new();
    let results = matcher.search("Firefox", &apps);
    assert!(!results.is_empty());
    assert_eq!(results[0], 0); // Firefox should be first
}

#[test]
fn test_no_match_returns_empty() {
    let apps = vec![make_app("Firefox"), make_app("Chrome")];
    let mut matcher = FuzzyMatcher::new();
    let results = matcher.search("zzzzz", &apps);
    assert!(results.is_empty());
}

#[test]
fn test_fuzzy_matching() {
    let apps = vec![make_app("Visual Studio Code"), make_app("Vim"), make_app("VLC")];
    let mut matcher = FuzzyMatcher::new();
    let results = matcher.search("vsc", &apps);
    // "vsc" should match "Visual Studio Code"
    assert!(results.contains(&0));
}

#[test]
fn test_case_insensitive() {
    let apps = vec![make_app("Firefox")];
    let mut matcher = FuzzyMatcher::new();
    let results = matcher.search("firefox", &apps);
    assert_eq!(results.len(), 1);
    assert_eq!(results[0], 0);
}

#[test]
fn lowercase_query_places_exact_name_first() {
    let apps = vec![make_app("Firefox"), make_app("Files"), make_app("Finder")];
    let mut matcher = FuzzyMatcher::new();
    let results = matcher.search("firefox", &apps);
    assert_eq!(results[0], 0);
}

#[test]
fn unmatched_query_gives_nothing() {
    let apps = vec![make_app("Firefox"), make_app("Chrome")];
    let mut matcher = FuzzyMatcher::new();
    assert!(matcher.search("zzzzzznotarealquery", &apps).is_empty());
}

#[test]
fn empty_query_on_empty_index() {
    let mut matcher = FuzzyMatcher::new();
    assert!(matcher.search("", &[]).is_empty());
}

#[test]
fn ranking_orders_by_score_then_position() {
    let scores = vec![Some(5u16), None, Some(9), Some(5), Some(1)];
    assert_eq!(rank_by_score(&scores), vec![2, 0, 3, 4]);
    assert!(rank_by_score(&vec![None, None]).is_empty());
}

#[test]
fn uppercase_query_is_case_sensitive() {
    let apps = vec![make_app("firefox")];
    let mut matcher = FuzzyMatcher::new();
    assert!(matcher.search("FIREFOX", &apps).is_empty());
}
