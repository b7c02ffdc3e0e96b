use codeskel::commands::rescan::{recompute_stats, relative_path, rescan_one, RescanOne};
use codeskel::models::Language;
use codeskel::scanner::{assemble_scan, go_module_from, is_generated, parse_file, FileParse, Outcome, ScannedFile};

const BASE: &str = "package com.example;\n\n/** The base of all services, with shared plumbing. */\npublic class Base {}\n";
const SERVICE: &str =
    "package com.example;\n\nimport com.example.Base;\n\npublic class Service extends Base {\n    public void run() {}\n}\n";

fn scanned(rel: &str, content: &str, min_words: usize, sufficient_at: Option<f64>) -> ScannedFile {
    let outcome = match parse_file(&Language::Java, rel, content, min_words) {
        FileParse::Generated => Outcome::Generated,
        FileParse::Parsed { documented, total, signatures, raw_imports, package } => {
            let coverage = if total > 0 { documented as f64 / total as f64 } else { 1.0 };
            let sufficient = sufficient_at.map(|m| coverage >= m).unwrap_or(false);
            Outcome::Parsed { coverage_bits: coverage.to_bits(), sufficient, signatures, raw_imports, package }
        }
    };
    ScannedFile { rel_path: rel.into(), language: Language::Java, outcome }
}

#[test]
fn scan_orders_dependencies_first() {
    let files = vec![
        scanned("src/main/java/com/example/Service.java", SERVICE, 0, None),
        scanned("src/main/java/com/example/Base.java", BASE, 0, None),
    ];
    let parts = assemble_scan(&files, None, "/proj", "2026-01-01T00:00:00Z", 0);
    let cache = parts.cache;
    assert_eq!(cache.version, 1);
    assert_eq!(cache.order, vec!["src/main/java/com/example/Base.java", "src/main/java/com/example/Service.java"]);
    let svc = &cache.files.iter().find(|(k, _)| k.ends_with("Service.java")).unwrap().1;
    assert_eq!(svc.internal_imports, vec!["src/main/java/com/example/Base.java"]);
    assert_eq!(svc.file_kind, "class");
    assert_eq!(cache.stats.total_files, 2);
    assert_eq!(cache.stats.to_comment, 2);
    assert_eq!(cache.detected_languages, vec!["java"]);
    assert!(parts.cycles.is_empty());
}

#[test]
fn scan_stats_add_up_with_skips() {
    let files = vec![
        scanned("src/Base.java", BASE, 0, Some(0.8)),
        scanned("src/Service.java", SERVICE, 0, Some(0.8)),
        scanned("src/Gen.java", "// @generated by a tool\nclass Gen {}\n", 0, Some(0.8)),
        ScannedFile { rel_path: "src/Lost.java".into(), language: Language::Java, outcome: Outcome::Unreadable },
    ];
    let cache = assemble_scan(&files, None, "/proj", "t", 0).cache;
    let s = cache.stats;
    assert_eq!(s.total_files, 4);
    assert_eq!(s.skipped_covered, 1);
    assert_eq!(s.skipped_generated, 1);
    assert_eq!(s.to_comment, 1);
    assert!(s.to_comment + s.skipped_covered + s.skipped_generated <= s.total_files);
    let gen = &cache.files.iter().find(|(k, _)| k == "src/Gen.java").unwrap().1;
    assert_eq!(gen.skip_reason.as_deref(), Some("generated"));
    let lost = &cache.files.iter().find(|(k, _)| k == "src/Lost.java").unwrap().1;
    assert_eq!(lost.skip_reason.as_deref(), Some("unreadable"));
}

#[test]
fn scan_marks_cycles() {
    let a = "package p;\nimport p.B;\npublic class A {}\n";
    let b = "package p;\nimport p.A;\npublic class B {}\n";
    let files = vec![scanned("p/A.java", a, 0, None), scanned("p/B.java", b, 0, None)];
    let parts = assemble_scan(&files, None, "/proj", "t", 0);
    assert!(!parts.cycles.is_empty());
    assert_eq!(parts.full_order.len(), 2);
    assert!(parts.cache.files.iter().any(|(_, e)| e.cycle_warning));
}

#[test]
fn thin_docstring_fails_min_words() {
    let content = "/** Short doc. */\npublic class Thin {}\n";
    match parse_file(&Language::Java, "src/Thin.java", content, 30) {
        FileParse::Parsed { documented, total, signatures, .. } => {
            let cls = signatures.iter().find(|s| s.kind == "class").unwrap();
            assert!(!cls.has_docstring, "thin doc should fail min_docstring_words threshold");
            assert!(cls.existing_word_count > 0, "existing_word_count should reflect actual word count");
            assert_eq!(documented, 0);
            assert_eq!(total, 1);
        }
        FileParse::Generated => panic!("not generated"),
    }
}

#[test]
fn min_words_zero_keeps_docstring() {
    let content = "/** This is a well documented class with many words here. */\npublic class Documented {}\n";
    match parse_file(&Language::Java, "src/Documented.java", content, 0) {
        FileParse::Parsed { documented, signatures, .. } => {
            let cls = signatures.iter().find(|s| s.kind == "class").unwrap();
            assert!(cls.has_docstring, "with min_docstring_words=0, any doc counts");
            assert!(cls.existing_word_count > 0);
            assert_eq!(documented, 1);
        }
        FileParse::Generated => panic!("not generated"),
    }
}

#[test]
fn generated_marker_only_in_first_lines() {
    assert!(is_generated("a.go", "// Code generated by x. DO NOT EDIT.\npackage a\n"));
    assert!(is_generated("a.ts", "/* auto-generated */\n"));
    assert!(!is_generated("a.java", "class A {}\n"));
    assert!(!is_generated("a.java", "1\n2\n3\n4\n5\n// @generated\n"));
    assert!(is_generated("a.java", "1\n2\n3\n4\n// @generated\n"));
    assert!(matches!(parse_file(&Language::Go, "a.go", "// @generated\npackage a\n", 0), FileParse::Generated));
}

#[test]
fn go_module_read_from_go_mod() {
    assert_eq!(go_module_from("module github.com/x/y\n\ngo 1.21\n").as_deref(), Some("github.com/x/y"));
    assert_eq!(go_module_from("go 1.21\nmodule   example.com/m  \n").as_deref(), Some("example.com/m"));
    assert_eq!(go_module_from("go 1.21\n"), None);
}

#[test]
fn rescan_updates_entry_and_stats() {
    let files = vec![scanned("src/Base.java", "public class Base {}\n", 0, None)];
    let mut cache = assemble_scan(&files, None, "/proj", "t0", 0).cache;
    let content = "/** Now documented. */\npublic class Base {}\n";
    match rescan_one(&mut cache, "src/Base.java", content, "t1") {
        RescanOne::Rescanned { documented, total } => {
            assert_eq!((documented, total), (1, 1));
        }
        other => panic!("unexpected: {:?}", other),
    }
    let e = &cache.files[0].1;
    assert_eq!(e.scanned_at.as_deref(), Some("t1"));
    assert!(e.signatures[0].has_docstring);
    assert_eq!(cache.order, vec!["src/Base.java"]);
    assert!(matches!(rescan_one(&mut cache, "notes.txt", "x", "t2"), RescanOne::UnknownLanguage));
    assert!(matches!(rescan_one(&mut cache, "src/Other.java", "class Other {}", "t2"), RescanOne::NotInCache));
    // a generated file becomes skipped, and the statistics follow
    assert!(matches!(
        rescan_one(&mut cache, "src/Base.java", "// DO NOT EDIT\npublic class Base {}\n", "t3"),
        RescanOne::Rescanned { .. }
    ));
    recompute_stats(&mut cache);
    assert_eq!(cache.stats.total_files, 1);
    assert_eq!(cache.stats.skipped_generated, 1);
    assert_eq!(cache.stats.to_comment, 0);
}

#[test]
fn rescan_paths_made_relative_to_root() {
    assert_eq!(relative_path("/proj/src/A.java", "/proj"), "src/A.java");
    assert_eq!(relative_path("src/A.java", "/proj"), "src/A.java");
    assert_eq!(relative_path("/elsewhere/A.java", "/proj"), "/elsewhere/A.java");
}
