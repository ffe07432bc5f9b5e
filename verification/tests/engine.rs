use melon::completion::engine::{rank_completion, CompletionEngine};
use melon::completion::loader::SpecStore;
use melon::completion::matcher::FuzzyMatcher;
use melon::completion::spec::{
    Arg, ArgOrArgs, CandidateKind, CompletionCandidate, GeneratorOrGenerators, Opt, Spec, StringOrArray, Subcommand,
    Template, TemplateKind,
};

fn sub(name: &str, description: &str, options: Vec<Opt>, args: ArgOrArgs) -> Subcommand {
    Subcommand {
        name: StringOrArray::Single(name.into()),
        description: Some(description.into()),
        subcommands: vec![],
        options,
        args,
        hidden: false,
    }
}

fn opt(names: &[&str], description: &str, args: ArgOrArgs) -> Opt {
    Opt {
        name: if names.len() == 1 {
            StringOrArray::Single(names[0].into())
        } else {
            StringOrArray::Multiple(names.iter().map(|n| n.to_string()).collect())
        },
        description: Some(description.into()),
        args,
        is_persistent: false,
        is_required: false,
        is_repeatable: false,
        hidden: false,
        exclusives_on: vec![],
    }
}

fn arg(name: Option<&str>, template: Option<Template>, is_variadic: bool) -> Arg {
    Arg {
        name: name.map(str::to_string),
        description: None,
        suggestions: vec![],
        generators: GeneratorOrGenerators::Empty,
        template,
        is_optional: false,
        is_variadic,
        default: None,
    }
}

fn test_store() -> SpecStore {
    let mut store = SpecStore::new();
    let git = Spec {
        name: StringOrArray::Single("git".into()),
        description: Some("Version control".into()),
        subcommands: vec![
            sub(
                "commit",
                "Record changes",
                vec![opt(
                    &["-m", "--message"],
                    "Commit message",
                    ArgOrArgs::Single(arg(Some("message"), None, false)),
                )],
                ArgOrArgs::Empty,
            ),
            sub("compare", "Compare branches", vec![], ArgOrArgs::Empty),
            sub("clone", "Clone a repository", vec![], ArgOrArgs::Empty),
            sub(
                "checkout",
                "Switch branches",
                vec![opt(&["-b"], "Create and checkout new branch", ArgOrArgs::Empty)],
                ArgOrArgs::Empty,
            ),
            sub(
                "add",
                "Add files",
                vec![],
                ArgOrArgs::Single(arg(None, Some(Template::Single(TemplateKind::Filepaths)), true)),
            ),
        ],
        options: vec![
            opt(&["--version"], "Print version", ArgOrArgs::Empty),
            opt(&["--help"], "Show help", ArgOrArgs::Empty),
        ],
        args: ArgOrArgs::Empty,
    };
    store.insert(git);
    store
}

#[test]
fn test_complete_subcommands() {
    let mut engine = CompletionEngine::new(test_store());
    let candidates = engine.complete("git com").candidates;
    let names: Vec<&str> = candidates.iter().map(|c| c.name.as_str()).collect();
    assert!(names.contains(&"commit"));
    assert!(names.contains(&"compare"));
}

#[test]
fn test_complete_subcommands_with_matcher() {
    let mut engine = CompletionEngine::new(test_store());
    let completion = engine.complete("git com");
    let mut matcher = FuzzyMatcher::new();
    let scored = matcher.filter(&completion.partial, completion.candidates);
    let names: Vec<&str> = scored.iter().map(|s| s.candidate.name.as_str()).collect();
    assert!(names.contains(&"commit"));
    assert!(names.contains(&"compare"));
    assert!(!names.contains(&"checkout"));
}

#[test]
fn test_complete_options() {
    let mut engine = CompletionEngine::new(test_store());
    let candidates = engine.complete("git commit -").candidates;
    let names: Vec<&str> = candidates.iter().map(|c| c.name.as_str()).collect();
    assert!(names.contains(&"-m"));
    assert!(names.contains(&"--message"));
}

#[test]
fn test_no_completions_after_non_template_arg() {
    let mut engine = CompletionEngine::new(test_store());
    let candidates = engine.complete("git clone ").candidates;
    let file_candidates: Vec<&str> = candidates
        .iter()
        .filter(|c| matches!(c.kind, CandidateKind::File | CandidateKind::Folder))
        .map(|c| c.name.as_str())
        .collect();
    assert!(
        file_candidates.is_empty(),
        "should not offer filesystem completions at position 0 of clone"
    );
}

#[test]
fn test_complete_all_subcommands() {
    let mut engine = CompletionEngine::new(test_store());
    let candidates = engine.complete("git ").candidates;
    let names: Vec<&str> = candidates.iter().map(|c| c.name.as_str()).collect();
    assert!(names.contains(&"commit"));
    assert!(names.contains(&"clone"));
    assert!(names.contains(&"checkout"));
}

#[test]
fn engine_completes_command_names_for_the_first_word() {
    let mut engine = CompletionEngine::new(test_store());
    let result = engine.complete("gi");
    assert_eq!(result.partial, "gi");
    let names: Vec<&str> = result.candidates.iter().map(|c| c.name.as_str()).collect();
    assert_eq!(names, vec!["git"]);
    assert!(result.path_context.is_none());
}

#[test]
fn engine_asks_for_paths_at_a_path_template() {
    let mut engine = CompletionEngine::new(test_store());
    let result = engine.complete("git add sr");
    assert_eq!(result.partial, "sr");
    let ctx = result.path_context.expect("a path request");
    assert_eq!(ctx.command, "git");
    assert_eq!(ctx.partial, "sr");
}

#[test]
fn engine_unknown_command_gives_nothing() {
    let mut engine = CompletionEngine::new(test_store());
    let result = engine.complete("hg com");
    assert!(result.candidates.is_empty());
    assert!(result.path_context.is_none());
}

#[test]
fn engine_repeats_the_same_answer_from_its_cache() {
    let mut engine = CompletionEngine::new(test_store());
    let first: Vec<String> = engine.complete("git c").candidates.into_iter().map(|c| c.name).collect();
    let second: Vec<String> = engine.complete("git co").candidates.into_iter().map(|c| c.name).collect();
    assert_eq!(first, second);
    assert!(first.contains(&"commit".to_string()));
}

#[test]
fn ranking_merges_path_entries_after_spec_candidates() {
    let mut engine = CompletionEngine::new(test_store());
    let mut result = engine.complete("git add sr");
    assert!(result.path_context.take().is_some());
    let entry = CompletionCandidate {
        name: "src/".into(),
        insert_value: None,
        display_name: None,
        description: None,
        icon: None,
        priority: 50,
        kind: CandidateKind::Folder,
    };
    let other = CompletionCandidate { name: "README.md".into(), kind: CandidateKind::File, ..entry.clone() };
    let mut matcher = FuzzyMatcher::new();
    let (items, partial_len) = rank_completion(&mut matcher, result, vec![entry, other]);
    assert_eq!(partial_len, 2);
    let names: Vec<&str> = items.iter().map(|s| s.candidate.name.as_str()).collect();
    assert_eq!(names, vec!["src/"]);
}

#[test]
fn ranking_counts_the_partial_word_in_characters() {
    let mut engine = CompletionEngine::new(test_store());
    let result = engine.complete("git com");
    let mut matcher = FuzzyMatcher::new();
    let (items, partial_len) = rank_completion(&mut matcher, result, vec![]);
    assert_eq!(partial_len, 3);
    assert!(items.iter().any(|s| s.candidate.name == "commit"));
    assert!(items.windows(2).all(|w| w[0].score >= w[1].score));
}
