use codeskel::commands::get::{chain_count, chain_order, entry_at_index, get_mode, GetMode};
use codeskel::commands::next::{
    done_output, project_next_index, project_start, targeted_next_index, targeted_start, visit_output, NextError,
    Session, TargetedStart,
};
use codeskel::cli::GetArgs;
use codeskel::error::CodeskelError;
use codeskel::models::{CacheFile, FileEntry, Signature, Stats};

fn sig(kind: &str, name: &str, line: usize) -> Signature {
    Signature {
        kind: kind.into(),
        name: name.into(),
        modifiers: vec![],
        params: None,
        return_type: None,
        throws: vec![],
        extends: None,
        implements: vec![],
        annotations: vec![],
        line,
        has_docstring: false,
        existing_word_count: 0,
        docstring_text: None,
    }
}

fn entry(path: &str, imports: &[&str], sigs: Vec<Signature>) -> FileEntry {
    FileEntry {
        path: path.into(),
        language: "java".into(),
        package: None,
        comment_coverage_bits: 0f64.to_bits(),
        skip: false,
        skip_reason: None,
        cycle_warning: false,
        internal_imports: imports.iter().map(|s| s.to_string()).collect(),
        signatures: sigs,
        scanned_at: None,
        file_kind: "class".into(),
        reverse_deps: vec![],
    }
}

fn cache_of(order: &[&str], files: Vec<FileEntry>) -> CacheFile {
    let n = files.len();
    CacheFile {
        version: 1,
        scanned_at: "2026-01-01T00:00:00Z".into(),
        project_root: "/nonexistent/project".into(),
        detected_languages: vec!["java".into()],
        stats: Stats { total_files: n, skipped_covered: 0, skipped_generated: 0, to_comment: order.len() },
        min_docstring_words: 0,
        order: order.iter().map(|s| s.to_string()).collect(),
        files: files.into_iter().map(|e| (e.path.clone(), e)).collect(),
    }
}

fn session(cursor: i64, current: Option<&str>, target: Option<&str>, chain: Option<Vec<&str>>) -> Session {
    Session {
        cursor,
        current_file: current.map(|s| s.to_string()),
        target: target.map(|s| s.to_string()),
        chain: chain.map(|c| c.iter().map(|s| s.to_string()).collect()),
    }
}

/// User <- UserRepository <- UserService (UserService imports both).
fn refs_project() -> CacheFile {
    cache_of(
        &["src/User.java", "src/UserRepository.java", "src/UserService.java"],
        vec![
            entry("src/User.java", &[], vec![sig("class", "User", 1)]),
            entry("src/UserRepository.java", &["src/User.java"], vec![sig("interface", "UserRepository", 1)]),
            entry(
                "src/UserService.java",
                &["src/User.java", "src/UserRepository.java"],
                vec![sig("class", "UserService", 1)],
            ),
        ],
    )
}

fn fields_project(n_fields: usize) -> CacheFile {
    let mut dep_sigs = vec![sig("class", "AppExCode", 1)];
    for i in 0..n_fields {
        dep_sigs.push(sig("field", &format!("CODE_{}", i), i + 2));
    }
    cache_of(
        &["src/AppExCode.java", "src/MyService.java"],
        vec![
            entry("src/AppExCode.java", &[], dep_sigs),
            entry("src/MyService.java", &["src/AppExCode.java"], vec![sig("class", "MyService", 1)]),
        ],
    )
}

#[test]
fn next_bootstrap_hands_out_index_0() {
    let cache = refs_project();
    let s = Session::default();
    assert_eq!(s.cursor, -1);
    assert_eq!(project_next_index(&s, cache.order.len()), Some(0));
    let out = visit_output(&cache, false, 0, 3, "src/User.java", &vec![], 10).unwrap();
    assert!(!out.done);
    assert_eq!(out.mode, "project");
    assert_eq!(out.index, Some(0));
    assert_eq!(out.remaining, 2);
    assert_eq!(out.file.as_ref().unwrap().path, "src/User.java");
}

#[test]
fn next_empty_cache_is_done() {
    assert_eq!(project_next_index(&Session::default(), 0), None);
    let out = done_output(false);
    assert!(out.done);
    assert_eq!(out.index, None);
    assert!(out.file.is_none());
    assert!(out.deps.is_empty());
    assert_eq!(out.remaining, 0);
}

#[test]
fn next_advances_and_rescans_previous() {
    let cache = refs_project();
    let s = session(0, Some("src/User.java"), None, None);
    let start = project_start(&cache.order, &s);
    assert_eq!(start.rescan.as_deref(), Some("src/User.java"));
    assert!(!start.mismatch);
    assert!(!start.was_targeted);
    assert_eq!(project_next_index(&s, 3), Some(1));
    // past the last file: done
    assert_eq!(project_next_index(&session(2, Some("src/UserService.java"), None, None), 3), None);
}

#[test]
fn next_mismatch_and_missing_current_file_are_reported() {
    let cache = refs_project();
    let start = project_start(&cache.order, &session(1, Some("src/User.java"), None, None));
    assert!(start.mismatch);
    let start = project_start(&cache.order, &session(1, None, None, None));
    assert!(start.no_current_file);
    assert!(start.rescan.is_none());
}

#[test]
fn next_after_targeted_session_restarts_project_at_0() {
    let cache = refs_project();
    let s = session(1, Some("src/UserRepository.java"), Some("src/UserService.java"), Some(vec!["a"]));
    let start = project_start(&cache.order, &s);
    assert!(start.was_targeted);
    assert!(start.rescan.is_none());
    assert_eq!(project_next_index(&s, 3), Some(0));
}

#[test]
fn next_max_fields_truncates_fields() {
    let cache = fields_project(8);
    let out = visit_output(&cache, false, 1, 2, "src/MyService.java", &vec![], 5).unwrap();
    assert_eq!(out.deps.len(), 1);
    let dep = &out.deps[0];
    assert_eq!(dep.signatures.iter().filter(|s| s.kind == "field").count(), 5);
    assert_eq!(dep.fields_omitted, 3);
    assert_eq!(dep.signatures[0].kind, "class");
}

#[test]
fn next_max_fields_zero_omits_all_fields() {
    let cache = fields_project(4);
    let out = visit_output(&cache, false, 1, 2, "src/MyService.java", &vec![], 0).unwrap();
    let dep = &out.deps[0];
    assert_eq!(dep.signatures.iter().filter(|s| s.kind == "field").count(), 0);
    assert_eq!(dep.fields_omitted, 4);
    assert!(dep.signatures.iter().any(|s| s.kind == "class"));
}

#[test]
fn next_deps_filtered_to_referenced_names() {
    let mut cache = fields_project(3);
    // a method in the dependency: shown only where referenced
    cache.files[0].1.signatures.push(sig("method", "lookup", 20));
    cache.files[0].1.signatures.push(sig("method", "unused", 21));
    let refs = vec![("src/AppExCode.java".to_string(), vec!["lookup".to_string()])];
    let out = visit_output(&cache, false, 1, 2, "src/MyService.java", &refs, 10).unwrap();
    let names: Vec<&str> = out.deps[0].signatures.iter().map(|s| s.name.as_str()).collect();
    assert_eq!(names, vec!["AppExCode", "lookup"]);
}

#[test]
fn next_missing_entry_is_an_error() {
    let cache = refs_project();
    let err = visit_output(&cache, false, 0, 1, "src/Ghost.java", &vec![], 10).unwrap_err();
    assert_eq!(err, "File src/Ghost.java in order but missing from files map");
}

#[test]
fn chain_lists_transitive_deps_leaves_first() {
    let cache = refs_project();
    let chain = chain_order(&cache, "src/UserService.java").unwrap();
    assert_eq!(chain, vec!["src/User.java", "src/UserRepository.java"]);
    assert_eq!(chain_count(&cache, "src/UserService.java").unwrap(), 2);
    assert_eq!(chain_count(&cache, "src/User.java").unwrap(), 0);
    assert_eq!(chain_order(&cache, "src/Nope.java").unwrap_err(), "Path 'src/Nope.java' not found in cache");
}

#[test]
fn targeted_bootstrap_chain_ends_with_target() {
    let cache = refs_project();
    match targeted_start(&cache, "src/UserService.java", &Session::default()) {
        Ok(TargetedStart::Bootstrap { chain, restart }) => {
            assert_eq!(chain, vec!["src/User.java", "src/UserRepository.java", "src/UserService.java"]);
            assert!(!restart);
        }
        other => panic!("unexpected: {:?}", other),
    }
    // a leaf: the chain is the target alone
    match targeted_start(&cache, "src/User.java", &Session::default()) {
        Ok(TargetedStart::Bootstrap { chain, .. }) => assert_eq!(chain, vec!["src/User.java"]),
        other => panic!("unexpected: {:?}", other),
    }
}

#[test]
fn targeted_other_target_restarts() {
    let cache = refs_project();
    let s = session(0, Some("src/User.java"), Some("src/UserService.java"), Some(vec!["src/User.java"]));
    match targeted_start(&cache, "src/UserRepository.java", &s) {
        Ok(TargetedStart::Bootstrap { chain, restart }) => {
            assert!(restart);
            assert_eq!(chain, vec!["src/User.java", "src/UserRepository.java"]);
        }
        other => panic!("unexpected: {:?}", other),
    }
}

#[test]
fn targeted_missing_target_is_coded_error() {
    let cache = refs_project();
    match targeted_start(&cache, "src/DoesNotExist.java", &Session::default()) {
        Err(NextError::Coded(e)) => {
            assert_eq!(e.code(), "TARGET_NOT_IN_TREE");
            assert!(e.message().contains("not found in cache"));
            assert!(matches!(e, CodeskelError::TargetNotInTree(_)));
        }
        other => panic!("unexpected: {:?}", other),
    }
}

#[test]
fn targeted_skips_missing_chain_entry() {
    let cache = refs_project();
    let chain = vec![
        "src/User.java".to_string(),
        "com/example/GhostFile.java".to_string(),
        "src/UserRepository.java".to_string(),
        "src/UserService.java".to_string(),
    ];
    let s = Session {
        cursor: 0,
        current_file: Some("src/User.java".into()),
        target: Some("src/UserService.java".into()),
        chain: Some(chain.clone()),
    };
    match targeted_start(&cache, "src/UserService.java", &s) {
        Ok(TargetedStart::Continue { cursor, rescan, stale, .. }) => {
            assert_eq!(cursor, 0);
            assert_eq!(rescan.as_deref(), Some("src/User.java"));
            assert!(stale.is_none());
        }
        other => panic!("unexpected: {:?}", other),
    }
    assert_eq!(targeted_next_index(&cache, &chain, 0), Some(2));
    assert_eq!(targeted_next_index(&cache, &chain, 3), None);
}

#[test]
fn targeted_session_without_chain_is_an_error() {
    let cache = refs_project();
    let s = session(0, Some("src/User.java"), Some("src/UserService.java"), None);
    match targeted_start(&cache, "src/UserService.java", &s) {
        Err(NextError::Message(m)) => assert_eq!(m, "session.chain missing in targeted mode"),
        other => panic!("unexpected: {:?}", other),
    }
}

fn get_args() -> GetArgs {
    GetArgs { cache_path: "c.json".into(), index: None, path: None, deps: None, chain: None, refs: None }
}

#[test]
fn get_mode_choices_and_conflicts() {
    let mut a = get_args();
    assert_eq!(get_mode(&a).unwrap_err(), "One of --index, --path, --deps, --chain, or --refs is required");
    a.index = Some(1);
    a.path = Some("x".into());
    assert_eq!(get_mode(&a).unwrap_err(), "Only one of --index, --path, or --deps may be used at a time");
    let mut b = get_args();
    b.chain = Some("x".into());
    b.index = Some(2);
    assert!(matches!(get_mode(&b), Ok(GetMode::ChainEntry(p, 2)) if p == "x"));
    b.deps = Some("y".into());
    assert_eq!(get_mode(&b).unwrap_err(), "--chain cannot be combined with --path, --deps, or --refs");
    let mut c = get_args();
    c.refs = Some("r".into());
    c.index = Some(0);
    assert_eq!(get_mode(&c).unwrap_err(), "--refs cannot be combined with --chain, --index, --path, or --deps");
}

#[test]
fn get_index_out_of_range_message() {
    let cache = refs_project();
    assert_eq!(entry_at_index(&cache, 0).unwrap().path, "src/User.java");
    assert_eq!(entry_at_index(&cache, 5).unwrap_err(), "Index 5 out of range (cache has 3 items in order)");
}
