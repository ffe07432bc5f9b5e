use melon::completion::generator::{
    cache_is_fresh, split_output, suggestion_candidates, trigger_key, uses_path_template,
    GeneratorContext, GeneratorPlan, GeneratorSource,
};
use melon::completion::source::CachedDirEntry;
use melon::completion::spec::{
    Arg, ArgOrArgs, CandidateKind, CompletionCandidate, Generator, GeneratorCache,
    GeneratorCacheStrategy, GeneratorOrGenerators, GeneratorScript, GeneratorTrigger, StringOrArray,
    Suggestion, SuggestionOrString, Template, TemplateKind,
};

fn context(cwd: &str, partial: &str) -> GeneratorContext {
    GeneratorContext {
        command: "git".into(),
        subcommands: vec!["checkout".into()],
        tokens: vec!["git".into(), "checkout".into()],
        partial: partial.into(),
        completing_option_arg: false,
        cwd: cwd.into(),
    }
}

fn script_generator(script: &str, split_on: Option<&str>) -> Generator {
    Generator {
        template: None,
        script: Some(GeneratorScript::Single(script.into())),
        script_timeout: Some(500),
        split_on: split_on.map(str::to_string),
        trigger: None,
        cache: None,
    }
}

/// Answers every generator of the argument; `printed` is what running a
/// script prints (the proxy runs it through the user's shell).
fn candidates(
    source: &mut GeneratorSource,
    arg: &Arg,
    ctx: &GeneratorContext,
    printed: impl Fn(&str) -> Option<String>,
    parsed: impl Fn(&str) -> Option<Vec<SuggestionOrString>>,
) -> Vec<CompletionCandidate> {
    let mut out = Vec::new();
    for g in arg.generators.iter() {
        match source.begin(g, ctx, 0) {
            GeneratorPlan::Ready(c) => out.extend(c),
            GeneratorPlan::RunScript => {
                let script = match &g.script {
                    Some(GeneratorScript::Single(s)) => s.clone(),
                    _ => unreachable!(),
                };
                let output = printed(&script);
                let json = output.as_deref().and_then(|o| parsed(o.trim()));
                out.extend(source.finish_script(g, ctx, output, json, 0));
            },
            GeneratorPlan::ListDir(_) => unreachable!(),
        }
    }
    out
}

fn arg_with(generator: Generator, name: &str) -> Arg {
    Arg {
        name: Some(name.into()),
        description: None,
        suggestions: vec![],
        generators: GeneratorOrGenerators::Single(generator),
        template: None,
        is_optional: false,
        is_variadic: false,
        default: None,
    }
}

#[test]
fn test_split_script_output_to_candidates() {
    let mut source = GeneratorSource::default();
    let arg = arg_with(script_generator("printf 'main\\nrelease\\n'", Some("\n")), "branch");
    // `printf 'main\nrelease\n'` prints two lines.
    let printed = |script: &str| {
        assert_eq!(script, "printf 'main\\nrelease\\n'");
        Some("main\nrelease\n".to_string())
    };
    let candidates = candidates(&mut source, &arg, &context(".", ""), printed, |_| None);
    let names: Vec<&str> = candidates.iter().map(|candidate| candidate.name.as_str()).collect();
    assert_eq!(names, vec!["main", "release"]);
}

#[test]
fn test_json_script_output_preserves_metadata() {
    let mut source = GeneratorSource::default();
    let arg = arg_with(
        script_generator(
            "printf '[{\"name\":\"prod\",\"icon\":\"🚀\",\"insertValue\":\"deploy --env=prod\",\"priority\":95}]'",
            None,
        ),
        "env",
    );
    // The JSON list `[{"name":"prod","icon":"🚀","insertValue":"deploy --env=prod","priority":95}]`
    // as the proxy's JSON reader hands it over.
    let parsed = |text: &str| {
        if text.starts_with('[') {
            Some(vec![SuggestionOrString::Suggestion(Suggestion {
                name: StringOrArray::Single("prod".into()),
                description: None,
                icon: Some("🚀".into()),
                hidden: false,
                insert_value: Some("deploy --env=prod".into()),
                display_name: None,
                priority: Some(95),
            })])
        } else {
            None
        }
    };
    // The script prints its JSON argument as it is.
    let printed = |_: &str| {
        Some(
            "[{\"name\":\"prod\",\"icon\":\"🚀\",\"insertValue\":\"deploy --env=prod\",\"priority\":95}]"
                .to_string(),
        )
    };
    let candidates = candidates(&mut source, &arg, &context(".", ""), printed, parsed);
    assert_eq!(candidates.len(), 1);
    let candidate = &candidates[0];
    assert_eq!(candidate.name, "prod");
    assert_eq!(candidate.insert_value.as_deref(), Some("deploy --env=prod"));
    assert_eq!(candidate.icon.as_deref(), Some("🚀"));
    assert_eq!(candidate.priority, 95);
}

#[test]
fn test_session_cache_reuses_results_without_trigger_change() {
    let mut source = GeneratorSource::default();
    let g = script_generator("cat branches.txt", Some("\n"));
    let first_ctx = context("/repo", "m");
    assert!(matches!(source.begin(&g, &first_ctx, 0), GeneratorPlan::RunScript));
    let first = source.finish_script(&g, &first_ctx, Some("main\n".into()), None, 0);
    let second = match source.begin(&g, &context("/repo", "ma"), 10) {
        GeneratorPlan::Ready(c) => c,
        other => panic!("expected a cached answer, got {other:?}"),
    };
    assert_eq!(first[0].name, "main");
    assert_eq!(second[0].name, "main");
}

#[test]
fn test_trigger_invalidates_session_cache() {
    let mut source = GeneratorSource::default();
    let mut g = script_generator("cat dirs.txt", Some("\n"));
    g.trigger = Some(GeneratorTrigger::Literal("/".into()));
    let ctx = context("/repo", "src");
    assert!(matches!(source.begin(&g, &ctx, 0), GeneratorPlan::RunScript));
    let first = source.finish_script(&g, &ctx, Some("src/main.rs\n".into()), None, 0);
    let ctx2 = context("/repo", "src/");
    assert!(matches!(source.begin(&g, &ctx2, 0), GeneratorPlan::RunScript));
    let second = source.finish_script(&g, &ctx2, Some("src/bin.rs\n".into()), None, 0);
    assert_eq!(first[0].name, "src/main.rs");
    assert_eq!(second[0].name, "src/bin.rs");
}

#[test]
fn test_explicit_cache_reuses_results_across_contexts() {
    let mut source = GeneratorSource::default();
    let mut g = script_generator("cat branches.txt", Some("\n"));
    g.cache = Some(GeneratorCache {
        strategy: Some(GeneratorCacheStrategy::MaxAge),
        ttl: Some(60_000),
        cache_by_directory: true,
        cache_key: Some("branches".into()),
    });
    let ctx = context("/repo", "");
    assert!(matches!(source.begin(&g, &ctx, 0), GeneratorPlan::RunScript));
    let first = source.finish_script(&g, &ctx, Some("main\n".into()), None, 0);
    let mut other = context("/repo", "");
    other.tokens.push("--all".into());
    let second = match source.begin(&g, &other, 1_000) {
        GeneratorPlan::Ready(c) => c,
        plan => panic!("expected the shared cache, got {plan:?}"),
    };
    assert_eq!(first[0].name, "main");
    assert_eq!(second[0].name, "main");
    // Past its time to live the entry is regenerated.
    let mut third = context("/repo", "");
    third.tokens.push("-v".into());
    assert!(matches!(source.begin(&g, &third, 70_000), GeneratorPlan::RunScript));
}

#[test]
fn stale_results_are_served_when_a_refresh_comes_back_empty() {
    let mut source = GeneratorSource::default();
    let mut g = script_generator("list", Some("\n"));
    g.cache = Some(GeneratorCache {
        strategy: Some(GeneratorCacheStrategy::StaleWhileRevalidate),
        ttl: Some(10),
        cache_by_directory: false,
        cache_key: None,
    });
    let ctx = context("/a", "");
    let _ = source.begin(&g, &ctx, 0);
    let _ = source.finish_script(&g, &ctx, Some("one\ntwo\n".into()), None, 0);
    let later = context("/b", "");
    assert!(matches!(source.begin(&g, &later, 100), GeneratorPlan::RunScript));
    let stale = source.finish_script(&g, &later, None, None, 100);
    let names: Vec<&str> = stale.iter().map(|c| c.name.as_str()).collect();
    assert_eq!(names, vec!["one", "two"]);
}

#[test]
fn path_templates_list_the_directory_first() {
    let mut source = GeneratorSource::default();
    let g = Generator {
        template: Some(Template::Single(TemplateKind::Folders)),
        script: None,
        script_timeout: None,
        split_on: None,
        trigger: None,
        cache: None,
    };
    let ctx = context("/work", "sr");
    let dir = match source.begin(&g, &ctx, 0) {
        GeneratorPlan::ListDir(d) => d,
        plan => panic!("expected a listing request, got {plan:?}"),
    };
    assert_eq!(dir, "/work");
    source.store_listing(
        dir,
        vec![
            CachedDirEntry { name: "src".into(), is_dir: true },
            CachedDirEntry { name: "README.md".into(), is_dir: false },
        ],
    );
    let found = source.finish_listing(&g, &ctx, 0);
    assert_eq!(found.len(), 1);
    assert_eq!(found[0].name, "src/");
    assert_eq!(found[0].kind, CandidateKind::Folder);
}

#[test]
fn split_output_pieces() {
    let g = script_generator("x", Some(","));
    let names: Vec<String> = split_output(&g, " a, ,b ,").unwrap().into_iter().map(|c| c.name).collect();
    assert_eq!(names, vec!["a", "b"]);
    let none = script_generator("x", None);
    assert!(split_output(&none, "a").is_none());
    let each = script_generator("x", Some(""));
    let names: Vec<String> = split_output(&each, "a b").unwrap().into_iter().map(|c| c.name).collect();
    assert_eq!(names, vec!["a", "b"]);
    let multi = script_generator("x", Some("::"));
    let names: Vec<String> = split_output(&multi, "x::y:::z").unwrap().into_iter().map(|c| c.name).collect();
    assert_eq!(names, vec!["x", "y", ":z"]);
}

#[test]
fn suggestions_become_candidates() {
    let plain = suggestion_candidates(&SuggestionOrString::String("main".into()), CandidateKind::Argument);
    assert_eq!(plain.len(), 1);
    assert_eq!(plain[0].priority, 50);
    let structured = SuggestionOrString::Suggestion(Suggestion {
        name: StringOrArray::Multiple(vec!["--all".into(), "-a".into()]),
        description: Some("Everything".into()),
        icon: None,
        hidden: false,
        insert_value: None,
        display_name: Some("All".into()),
        priority: None,
    });
    let cs = suggestion_candidates(&structured, CandidateKind::Option);
    assert_eq!(cs.len(), 2);
    assert_eq!(cs[0].display_name.as_deref(), Some("All"));
    assert_eq!(cs[1].display_name, None);
    assert_eq!(cs[1].description.as_deref(), Some("Everything"));
    let hidden = SuggestionOrString::Suggestion(Suggestion {
        name: StringOrArray::Single("secret".into()),
        description: None,
        icon: None,
        hidden: true,
        insert_value: None,
        display_name: None,
        priority: None,
    });
    assert!(suggestion_candidates(&hidden, CandidateKind::Argument).is_empty());
}

#[test]
fn trigger_keys_and_templates() {
    let mut g = script_generator("x", None);
    assert_eq!(trigger_key(&g, "src/lib"), None);
    g.trigger = Some(GeneratorTrigger::Literal("/".into()));
    assert_eq!(trigger_key(&g, "src/lib/mod"), Some("src/lib/".into()));
    assert_eq!(trigger_key(&g, "src"), None);
    assert!(uses_path_template(&Template::Multiple(vec![TemplateKind::History, TemplateKind::Filepaths])));
    assert!(!uses_path_template(&Template::Single(TemplateKind::History)));
    let mut c = script_generator("x", None);
    assert!(!cache_is_fresh(&c, 0, 0));
    c.cache = Some(GeneratorCache { strategy: None, ttl: Some(5), cache_by_directory: false, cache_key: None });
    assert!(cache_is_fresh(&c, 10, 15));
    assert!(!cache_is_fresh(&c, 10, 16));
}

#[test]
fn no_script_no_template_gives_nothing() {
    let mut source = GeneratorSource::new();
    let g = Generator { template: None, script: None, script_timeout: None, split_on: None, trigger: None, cache: None };
    match source.begin(&g, &context(".", ""), 0) {
        GeneratorPlan::Ready(c) => assert!(c.is_empty()),
        plan => panic!("unexpected {plan:?}"),
    }
    let _ = ArgOrArgs::Empty;
}
