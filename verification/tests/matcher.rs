use melon::completion::matcher::FuzzyMatcher;
use melon::completion::spec::{CandidateKind, CompletionCandidate};

fn make_candidate(name: &str) -> CompletionCandidate {
    CompletionCandidate {
        name: name.to_string(),
        insert_value: None,
        display_name: None,
        description: None,
        icon: None,
        priority: 50,
        kind: CandidateKind::Subcommand,
    }
}

#[test]
fn test_exact_match_scores_highest() {
    let mut matcher = FuzzyMatcher::new();
    let candidates = vec![
        make_candidate("commit"),
        make_candidate("compare"),
        make_candidate("component"),
    ];
    let results = matcher.filter("commit", candidates);
    assert!(!results.is_empty());
    assert_eq!(results[0].candidate.name, "commit");
}

#[test]
fn test_prefix_match() {
    let mut matcher = FuzzyMatcher::new();
    let candidates = vec![
        make_candidate("commit"),
        make_candidate("compare"),
        make_candidate("clone"),
        make_candidate("checkout"),
    ];
    let results = matcher.filter("com", candidates);
    let names: Vec<&str> = results.iter().map(|r| r.candidate.name.as_str()).collect();
    assert!(names.contains(&"commit"));
    assert!(names.contains(&"compare"));
    assert!(!names.contains(&"clone"));
}

#[test]
fn test_fuzzy_match() {
    let mut matcher = FuzzyMatcher::new();
    let candidates = vec![
        make_candidate("checkout"),
        make_candidate("cherry-pick"),
        make_candidate("commit"),
    ];
    let results = matcher.filter("chk", candidates);
    let names: Vec<&str> = results.iter().map(|r| r.candidate.name.as_str()).collect();
    assert!(names.contains(&"checkout"));
}

#[test]
fn test_empty_pattern_returns_all() {
    let mut matcher = FuzzyMatcher::new();
    let candidates = vec![make_candidate("a"), make_candidate("b"), make_candidate("c")];
    let results = matcher.filter("", candidates);
    assert_eq!(results.len(), 3);
}

#[test]
fn test_priority_breaks_score_ties() {
    let mut matcher = FuzzyMatcher::new();
    let mut low = make_candidate("alpha");
    low.priority = 10;
    let mut high = make_candidate("beta");
    high.priority = 90;

    let results = matcher.filter("", vec![low, high]);
    assert_eq!(results[0].candidate.name, "beta");
}

#[test]
fn matcher_orders_equal_scores_by_name() {
    let mut matcher = FuzzyMatcher::new();
    let results = matcher.filter("", vec![make_candidate("zeta"), make_candidate("alpha"), make_candidate("mu")]);
    let names: Vec<&str> = results.iter().map(|r| r.candidate.name.as_str()).collect();
    assert_eq!(names, vec!["alpha", "mu", "zeta"]);
    assert!(results.iter().all(|r| r.score == 0));
}

#[test]
fn matcher_scores_come_from_nucleo() {
    let mut matcher = FuzzyMatcher::new();
    let results = matcher.filter("xyz", vec![make_candidate("commit")]);
    assert!(results.is_empty());
    let results = matcher.filter("cmt", vec![make_candidate("commit")]);
    assert_eq!(results.len(), 1);
    assert!(results[0].score > 0);
}
