use codeskel::parsers::rust_lang::RustParser;

const SAMPLE: &str = r#"
use crate::models::User;
use std::collections::HashMap;

/// A user service.
pub struct UserService {
    db: String,
}

impl UserService {
    /// Creates a new service.
    pub fn new(db: String) -> Self {
        UserService { db }
    }

    fn private_method(&self) {}
}

pub trait Processor {
    fn process(&self);
}

pub enum Status { Active, Inactive }
"#;

#[test]
fn test_rust_crate_import() {
    let r = RustParser::new().parse(SAMPLE);
    assert!(r.raw_imports.iter().any(|i| i == "crate::models::User"), "imports: {:?}", r.raw_imports);
    assert!(!r.raw_imports.iter().any(|i| i.starts_with("std::")), "std imports should be excluded: {:?}", r.raw_imports);
}

#[test]
fn test_rust_pub_struct() {
    let r = RustParser::new().parse(SAMPLE);
    let s = r.signatures.iter().find(|s| s.name == "UserService").expect("should find UserService");
    assert_eq!(s.kind, "struct");
    assert!(s.has_docstring);
}

#[test]
fn test_rust_pub_method_in_impl() {
    let r = RustParser::new().parse(SAMPLE);
    assert!(r.signatures.iter().any(|s| s.name == "new" && s.kind == "function"),
        "pub fn new inside impl should be extracted");
    assert!(!r.signatures.iter().any(|s| s.name == "private_method"), "private methods must not appear");
}

#[test]
fn test_rust_trait_and_enum() {
    let r = RustParser::new().parse(SAMPLE);
    assert!(r.signatures.iter().any(|s| s.kind == "trait" && s.name == "Processor"));
    assert!(r.signatures.iter().any(|s| s.kind == "enum" && s.name == "Status"));
}
