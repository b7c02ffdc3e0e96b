use codeskel::envelope::{format_ok, format_ok_with_warnings, merge_ok, print_err, print_err_coded};
use codeskel::error::CodeskelError;
use codeskel::lang::{detect_language, lang_from_str};
use codeskel::models::Language;
use codeskel::parsers::get_parser;
use codeskel::text::decimal_string;
use codeskel::walker::{build_glob_set, exclude_patterns, glob_is_match, select_file};

fn fields(v: &[(&str, &str)]) -> Vec<(String, String)> {
    v.iter().map(|(k, x)| (k.to_string(), x.to_string())).collect()
}

#[test]
fn ok_envelope_keeps_fields_in_key_order() {
    let f = fields(&[("a", "1"), ("stats", "{\"n\":2}"), ("z", "\"x\"")]);
    assert_eq!(format_ok(&f), "{\"a\":1,\"ok\":true,\"stats\":{\"n\":2},\"z\":\"x\"}");
}

#[test]
fn ok_envelope_overwrites_ok_and_adds_warnings() {
    let f = fields(&[("done", "false"), ("ok", "false")]);
    assert_eq!(format_ok(&f), "{\"done\":false,\"ok\":true}");
    let w = vec!["first \"one\"".to_string(), "second".to_string()];
    assert_eq!(
        format_ok_with_warnings(&fields(&[("a", "1"), ("warnings", "[]"), ("x", "2")]), &w),
        "{\"a\":1,\"ok\":true,\"warnings\":[\"first \\\"one\\\"\",\"second\"],\"x\":2}"
    );
    let merged = merge_ok(&fields(&[]), None);
    assert_eq!(merged, vec![("ok".to_string(), "true".to_string())]);
}

#[test]
fn error_envelopes() {
    assert_eq!(print_err("boom", Some("try again")), "{\"error\":{\"hint\":\"try again\",\"message\":\"boom\"},\"ok\":false}");
    assert_eq!(print_err("boom", None), "{\"error\":{\"message\":\"boom\"},\"ok\":false}");
    assert_eq!(
        print_err_coded("CACHE_NOT_FOUND", "cache not found at x", None),
        "{\"error\":{\"code\":\"CACHE_NOT_FOUND\",\"message\":\"cache not found at x\"},\"ok\":false}"
    );
}

#[test]
fn coded_errors_have_codes_hints_and_messages() {
    let e = CodeskelError::CacheNotFound("/p/cache.json".into());
    assert_eq!(e.code(), "CACHE_NOT_FOUND");
    assert_eq!(e.hint(), Some("run `codeskel scan <project_root>` first"));
    assert_eq!(e.message(), "cache not found at /p/cache.json");
    let e = CodeskelError::SessionCorrupt("/p/session.json".into());
    assert_eq!(e.code(), "SESSION_CORRUPT");
    assert_eq!(e.message(), "session file at /p/session.json is corrupt");
    let e = CodeskelError::ProjectRootMissing("/nope".into());
    assert_eq!(e.hint(), None);
    assert_eq!(e.message(), "project root not found: /nope");
    let e = CodeskelError::TargetNotInTree("a/B.java".into());
    assert_eq!(e.message(), "'a/B.java' not found in cache");
}

#[test]
fn language_names_read_back() {
    for l in [
        Language::Java,
        Language::Python,
        Language::TypeScript,
        Language::JavaScript,
        Language::Go,
        Language::Rust,
        Language::CSharp,
        Language::Cpp,
        Language::Ruby,
    ] {
        assert_eq!(lang_from_str(l.as_str()), Some(l));
        assert_eq!(Language::from_name(l.as_str()), Ok(l));
    }
    assert_eq!(Language::from_name("c++"), Ok(Language::Cpp));
    assert_eq!(Language::from_name("cobol"), Err("unknown language: cobol".to_string()));
    assert_eq!(detect_language("src/app.tsx"), Some(Language::TypeScript));
}

#[test]
fn parser_dispatch_by_language() {
    let r = get_parser(&Language::Python).parse("import os\n\ndef f():\n    pass\n");
    assert!(r.signatures.is_empty() && r.raw_imports.is_empty());
    let r = get_parser(&Language::Java).parse("/** Doc. */\npublic class A {}\n");
    assert_eq!(r.signatures.len(), 1);
    assert_eq!(r.signatures[0].name, "A");
    let r = get_parser(&Language::Ruby).parse("require_relative 'x'\n");
    assert_eq!(r.raw_imports, vec!["x"]);
}

#[test]
fn walk_selection_by_globs_and_extension() {
    let ex = build_glob_set(&exclude_patterns(&vec![])).unwrap();
    let f = select_file("/r/src/Foo.java", "/r", None, &ex, None).unwrap();
    assert_eq!(f.rel_path, "src/Foo.java");
    assert_eq!(f.language, Language::Java);
    assert!(select_file("/r/src/README.md", "/r", None, &ex, None).is_none());
    assert!(select_file("/r/tests/FooTest.java", "/r", None, &ex, None).is_none());
    assert!(select_file("/r/node_modules/x/a.js", "/r", None, &ex, None).is_none());
    // a forced language takes any extension
    assert_eq!(select_file("/r/src/notes.txt", "/r", Some(Language::Go), &ex, None).unwrap().language, Language::Go);
    // user excludes and includes
    let ex2 = build_glob_set(&exclude_patterns(&vec!["**/generated/**".to_string()])).unwrap();
    assert!(select_file("/r/src/generated/G.java", "/r", None, &ex2, None).is_none());
    let inc = build_glob_set(&vec!["src/api/**".to_string()]).unwrap();
    assert!(select_file("/r/src/core/C.java", "/r", None, &ex, Some(&inc)).is_none());
    assert!(select_file("/r/src/api/A.java", "/r", None, &ex, Some(&inc)).is_some());
    assert!(glob_is_match(&inc, "src/api/x/Y.java"));
}

#[test]
fn invalid_glob_names_the_pattern() {
    let err = build_glob_set(&vec!["a[".to_string()]).err().unwrap();
    assert!(err.starts_with("invalid glob pattern: a[: "), "got: {}", err);
}

#[test]
fn decimal_text_of_numbers() {
    assert_eq!(decimal_string(0), "0");
    assert_eq!(decimal_string(1234), "1234");
}

#[test]
fn language_parses_from_cache_names() {
    assert_eq!("cs".parse::<Language>(), Ok(Language::CSharp));
    assert_eq!("c++".parse::<Language>(), Ok(Language::Cpp));
    assert_eq!("go".parse::<Language>(), Ok(Language::Go));
    assert_eq!("cobol".parse::<Language>(), Err("unknown language: cobol".to_string()));
}

#[test]
fn ok_envelope_keeps_a_warnings_field_when_no_warnings_are_given() {
    assert_eq!(
        format_ok(&fields(&[("ok", "false"), ("warnings", "1")])),
        "{\"ok\":true,\"warnings\":1}"
    );
}

#[test]
fn default_patterns_exclude_each_listed_place() {
    let ex = build_glob_set(&exclude_patterns(&vec![])).unwrap();
    for p in [
        "/r/src/test/A.java",
        "/r/a/tests/b.py",
        "/r/src/FooTest.java",
        "/r/web/node_modules/x/a.js",
        "/r/vendor/lib/a.go",
        "/r/.git/hooks/a.rb",
        "/r/target/gen/A.java",
        "/r/build/out.ts",
        "/r/dist/app.js",
    ] {
        assert!(select_file(p, "/r", None, &ex, None).is_none(), "{} should be excluded", p);
    }
    let kept = select_file("/r/src/main/Foo.java", "/r", None, &ex, None).unwrap();
    assert_eq!(kept.rel_path, "src/main/Foo.java");
    assert_eq!(kept.language, Language::Java);
}

#[test]
fn error_messages_are_escaped_as_json_strings() {
    assert_eq!(
        print_err("a\u{1}\t\"\\\u{1f}é", None),
        "{\"error\":{\"message\":\"a\\u0001\\t\\\"\\\\\\u001fé\"},\"ok\":false}"
    );
}
