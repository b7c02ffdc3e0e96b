use codeskel::lang::{detect_language, lang_from_str};
use codeskel::models::Language;

#[test]
fn test_java() { assert_eq!(detect_language("Foo.java"), Some(Language::Java)); }
#[test]
fn test_python() { assert_eq!(detect_language("foo.py"), Some(Language::Python)); }
#[test]
fn test_tsx() { assert_eq!(detect_language("App.tsx"), Some(Language::TypeScript)); }
#[test]
fn test_rs_extension() { assert_eq!(detect_language("main.rs"), Some(Language::Rust)); }
#[test]
fn test_unknown() { assert_eq!(detect_language("README.md"), None); }
#[test]
fn test_lang_from_str_cs() { assert_eq!(lang_from_str("cs"), Some(Language::CSharp)); }

#[test]
fn header_files_are_cpp() {
    assert_eq!(detect_language("include/foo.hpp"), Some(Language::Cpp));
    assert_eq!(detect_language("foo.h"), Some(Language::Cpp));
}

#[test]
fn no_extension_is_unknown() {
    assert_eq!(detect_language("Makefile"), None);
}

#[test]
fn full_names_and_short_forms() {
    assert_eq!(lang_from_str("typescript"), Some(Language::TypeScript));
    assert_eq!(lang_from_str("js"), Some(Language::JavaScript));
    assert_eq!(lang_from_str("cobol"), None);
}

#[test]
fn cache_names_round_trip() {
    for l in [Language::Java, Language::Python, Language::TypeScript, Language::JavaScript, Language::Go,
              Language::Rust, Language::CSharp, Language::Cpp, Language::Ruby] {
        assert_eq!(Language::from_name(l.as_str()), Ok(l));
    }
    assert_eq!(Language::from_name("cs"), Ok(Language::CSharp));
    assert_eq!(Language::from_name("perl"), Err("unknown language: perl".to_string()));
}
