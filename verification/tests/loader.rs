use melon::completion::loader::SpecStore;
use melon::completion::source::{CachedDirEntry, CompletionContext, CompletionSource, PathSource};
use melon::completion::spec::{ArgOrArgs, Spec, StringOrArray, Subcommand};

fn spec(names: Vec<&str>, subcommands: Vec<&str>) -> Spec {
    Spec {
        name: if names.len() == 1 {
            StringOrArray::Single(names[0].into())
        } else {
            StringOrArray::Multiple(names.into_iter().map(str::to_string).collect())
        },
        description: None,
        subcommands: subcommands
            .into_iter()
            .map(|n| Subcommand {
                name: StringOrArray::Single(n.into()),
                description: None,
                subcommands: vec![],
                options: vec![],
                args: ArgOrArgs::Empty,
                hidden: false,
            })
            .collect(),
        options: vec![],
        args: ArgOrArgs::Empty,
    }
}

#[test]
fn test_alias_lookup() {
    let mut store = SpecStore::new();
    assert!(store.is_empty());
    store.insert(spec(vec!["python3", "python"], vec![]));
    assert!(store.get("python3").is_some());
    assert!(store.get("python").is_some());
    assert!(store.get("py").is_none());
    assert_eq!(store.len(), 2);
}

#[test]
fn a_later_spec_replaces_an_earlier_one() {
    let mut store = SpecStore::new();
    store.insert(spec(vec!["cargo"], vec!["build", "test"]));
    assert_eq!(store.get("cargo").unwrap().subcommands.len(), 2);
    store.insert(spec(vec!["cargo"], vec!["run"]));
    assert_eq!(store.get("cargo").unwrap().subcommands.len(), 1);
    assert_eq!(store.len(), 1);
    let mut names = store.iter_commands();
    names.sort();
    assert_eq!(names, vec!["cargo"]);
}

fn ctx(cwd: &str, partial: &str) -> CompletionContext {
    CompletionContext {
        command: "ls".into(),
        subcommands: vec![],
        partial: partial.into(),
        completing_option_arg: false,
        cwd: cwd.into(),
    }
}

#[test]
fn path_listing_is_reused_for_the_same_directory() {
    let mut source = PathSource::default();
    assert_eq!(source.listing_needed(&ctx("/d", "a")), Some("/d".to_string()));
    source.store_listing("/d".into(), vec![
        CachedDirEntry { name: "beta.txt".into(), is_dir: false },
        CachedDirEntry { name: "alpha.txt".into(), is_dir: false },
        CachedDirEntry { name: ".hidden".into(), is_dir: false },
    ]);
    assert_eq!(source.listing_needed(&ctx("/d", "b")), None);
    let names: Vec<String> = source.candidates(&ctx("/d", "")).into_iter().map(|c| c.name).collect();
    assert_eq!(names, vec!["alpha.txt", "beta.txt"]);
    let hidden: Vec<String> = source.candidates(&ctx("/d", ".")).into_iter().map(|c| c.name).collect();
    assert_eq!(hidden, vec![".hidden"]);
}

#[test]
fn path_listing_changes_with_the_directory() {
    let mut source = PathSource::default();
    source.store_listing("/d".into(), vec![CachedDirEntry { name: "nested".into(), is_dir: true }]);
    assert_eq!(source.listing_needed(&ctx("/d", "nested/f")), Some("/d/nested".to_string()));
    assert!(source.candidates(&ctx("/d", "nested/f")).is_empty());
    source.store_listing("/d/nested".into(), vec![CachedDirEntry { name: "first.txt".into(), is_dir: false }]);
    let names: Vec<String> = source.candidates(&ctx("/d", "nested/f")).into_iter().map(|c| c.name).collect();
    assert_eq!(names, vec!["nested/first.txt"]);
    let (base, prefix, file_prefix) = source.resolve_context(&ctx("/d", "/etc/pa"));
    assert_eq!((base.as_str(), prefix.as_str(), file_prefix.as_str()), ("/etc", "/etc/", "pa"));
}

fn absolute_ctx(partial: &str) -> CompletionContext {
    CompletionContext {
        command: "test".into(),
        subcommands: vec![],
        partial: partial.into(),
        completing_option_arg: false,
        cwd: ".".into(),
    }
}

#[test]
fn test_path_source_reuses_cached_listing_for_same_base_path() {
    let context = absolute_ctx("/tmp/melon-dir/");
    let mut source = PathSource::default();
    assert_eq!(source.listing_needed(&context), Some("/tmp/melon-dir".to_string()));
    source.store_listing(
        "/tmp/melon-dir".into(),
        vec![CachedDirEntry { name: "alpha.txt".into(), is_dir: false }],
    );
    let first = source.candidates(&context);
    assert!(first.iter().any(|candidate| candidate.name.ends_with("alpha.txt")));

    // The directory has gained `beta.txt`, but the held listing is still the one used.
    assert_eq!(source.listing_needed(&context), None);
    let second = source.candidates(&context);
    assert!(!second.iter().any(|candidate| candidate.name.ends_with("beta.txt")));
}

#[test]
fn test_path_source_invalidates_cache_when_base_path_changes() {
    let mut source = PathSource::default();
    let root_context = absolute_ctx("/tmp/melon-dir/");
    assert_eq!(source.listing_needed(&root_context), Some("/tmp/melon-dir".to_string()));
    source.store_listing(
        "/tmp/melon-dir".into(),
        vec![CachedDirEntry { name: "nested".into(), is_dir: true }],
    );
    let _ = source.candidates(&root_context);

    let nested_context = absolute_ctx("/tmp/melon-dir/nested/");
    assert_eq!(
        source.listing_needed(&nested_context),
        Some("/tmp/melon-dir/nested".to_string())
    );
    source.store_listing(
        "/tmp/melon-dir/nested".into(),
        vec![
            CachedDirEntry { name: "first.txt".into(), is_dir: false },
            CachedDirEntry { name: "second.txt".into(), is_dir: false },
        ],
    );
    let nested_results = source.candidates(&nested_context);
    assert!(nested_results.iter().any(|candidate| candidate.name.ends_with("first.txt")));
    assert!(nested_results.iter().any(|candidate| candidate.name.ends_with("second.txt")));
}
