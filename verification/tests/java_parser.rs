use codeskel::parsers::java::JavaParser;

const SAMPLE: &str = r#"
package com.example.model;

import java.util.Optional;
import com.example.base.Entity;

/**
 * Represents a user.
 */
public class User extends Entity implements Auditable {
    private Long id;
    public String name;

    public User() {}

    public Optional<User> findByEmail(String email) {
        return Optional.empty();
    }
}
"#;

fn coverage(documented: usize, documentable: usize) -> f64 {
    if documentable > 0 { documented as f64 / documentable as f64 } else { 1.0 }
}

#[test]
fn test_java_imports() {
    let r = JavaParser::new().parse(SAMPLE);
    assert!(r.raw_imports.contains(&"java.util.Optional".to_string()), "imports: {:?}", r.raw_imports);
    assert!(r.raw_imports.contains(&"com.example.base.Entity".to_string()), "imports: {:?}", r.raw_imports);
}

#[test]
fn test_java_class_signature() {
    let r = JavaParser::new().parse(SAMPLE);
    let cls = r.signatures.iter().find(|s| s.kind == "class").expect("should find class");
    assert_eq!(cls.name, "User");
    assert_eq!(cls.extends.as_deref(), Some("Entity"));
    assert!(cls.has_docstring, "User class has /** javadoc */");
}

#[test]
fn test_java_method_signature() {
    let r = JavaParser::new().parse(SAMPLE);
    let m = r.signatures.iter().find(|s| s.name == "findByEmail").expect("should find findByEmail");
    assert_eq!(m.kind, "method");
    assert!(!m.has_docstring);
    // Generic return types must be captured correctly
    assert_eq!(m.return_type.as_deref(), Some("Optional<User>"), "return_type: {:?}", m.return_type);
}

#[test]
fn test_java_package() {
    let r = JavaParser::new().parse(SAMPLE);
    assert_eq!(r.package.as_deref(), Some("com.example.model"), "package: {:?}", r.package);
}

#[test]
fn test_java_coverage() {
    let r = JavaParser::new().parse(SAMPLE);
    let c = coverage(r.documented, r.documentable);
    // class has docstring (1 out of several documentable items)
    assert!(c > 0.0 && c <= 1.0, "coverage: {}", c);
}

#[test]
fn test_java_class_docstring_text_extracted() {
    let r = JavaParser::new().parse(SAMPLE);
    let cls = r.signatures.iter().find(|s| s.kind == "class").unwrap();
    let text = cls.docstring_text.as_deref().expect("should have docstring_text");
    assert!(text.contains("Represents a user"), "text: {:?}", text);
}

#[test]
fn test_java_method_without_doc_has_no_docstring_text() {
    let r = JavaParser::new().parse(SAMPLE);
    let m = r.signatures.iter().find(|s| s.name == "findByEmail").unwrap();
    assert!(m.docstring_text.is_none(), "should be None, got: {:?}", m.docstring_text);
}

#[test]
fn test_java_public_field() {
    let r = JavaParser::new().parse(SAMPLE);
    // public String name should be extracted
    assert!(
        r.signatures.iter().any(|s| s.kind == "field" && s.name == "name"),
        "sigs: {:?}",
        r.signatures.iter().map(|s| (&s.kind, &s.name)).collect::<Vec<_>>()
    );
}

#[test]
fn java_private_field_is_left_out_and_lines_are_one_based() {
    let r = JavaParser::new().parse(SAMPLE);
    assert!(!r.signatures.iter().any(|s| s.name == "id"));
    let cls = r.signatures.iter().find(|s| s.kind == "class").unwrap();
    assert_eq!(cls.line, 10);
    assert_eq!(cls.implements, vec!["Auditable".to_string()]);
    assert_eq!(cls.modifiers, vec!["public".to_string()]);
    let m = r.signatures.iter().find(|s| s.name == "findByEmail").unwrap();
    let params = m.params.as_ref().unwrap();
    assert_eq!(params.len(), 1);
    assert_eq!(params[0].name, "email");
    assert_eq!(params[0].type_, "String");
    let ctor = r.signatures.iter().find(|s| s.kind == "constructor").unwrap();
    assert_eq!(ctor.name, "User");
    assert_eq!(r.documented, 1);
    assert_eq!(r.documentable, r.signatures.len());
}

#[test]
fn java_throws_and_interfaces() {
    let src = "interface Repo { void save(Object o) throws java.io.IOException, Bad; }\nenum Color { RED }";
    let r = JavaParser::new().parse(src);
    assert!(r.signatures.iter().any(|s| s.kind == "interface" && s.name == "Repo"));
    assert!(r.signatures.iter().any(|s| s.kind == "enum" && s.name == "Color"));
    let m = r.signatures.iter().find(|s| s.name == "save").unwrap();
    assert_eq!(m.throws, vec!["java.io.IOException".to_string(), "Bad".to_string()]);
    assert_eq!(m.return_type.as_deref(), Some("void"));
}

#[test]
fn java_empty_source_finds_nothing() {
    let r = JavaParser::new().parse("");
    assert!(r.signatures.is_empty());
    assert!(r.raw_imports.is_empty());
    assert_eq!(r.package, None);
    assert_eq!(r.documentable, 0);
}
