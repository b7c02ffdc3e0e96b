use codeskel::parsers::javascript::JavaScriptParser;
use codeskel::parsers::typescript::TypeScriptParser;

const TS_SAMPLE: &str = r#"
import { Component } from '@angular/core';
import { UserService } from './services/user.service';
import type { User } from '../models/user';

/**
 * App component
 */
export class AppComponent {
  title: string = 'app';

  constructor(private svc: UserService) {}

  getData(): User[] {
    return [];
  }
}

export function helperFn(): void {}
"#;

const JS_SAMPLE: &str = r#"
const path = require('path');
const utils = require('./utils');

/**
 * Main class
 */
class MyClass {
  doWork() {}
}

function helper() {}
"#;

fn coverage(documented: usize, documentable: usize) -> f64 {
    if documentable > 0 { documented as f64 / documentable as f64 } else { 1.0 }
}

#[test]
fn test_ts_internal_only() {
    let r = TypeScriptParser::new().parse(TS_SAMPLE);
    assert!(r.raw_imports.iter().any(|i| i.contains("./services/user.service")), "imports: {:?}", r.raw_imports);
    assert!(r.raw_imports.iter().any(|i| i.contains("../models/user")), "imports: {:?}", r.raw_imports);
    assert!(!r.raw_imports.iter().any(|i| i.contains("@angular")),
        "bare specifiers should be excluded, imports: {:?}", r.raw_imports);
}

#[test]
fn test_ts_class_has_jsdoc() {
    let r = TypeScriptParser::new().parse(TS_SAMPLE);
    let cls = r.signatures.iter().find(|s| s.kind == "class").expect("should find class");
    assert!(cls.has_docstring, "AppComponent has JSDoc");
    assert_eq!(cls.name, "AppComponent");
}

#[test]
fn test_ts_method_extracted() {
    let r = TypeScriptParser::new().parse(TS_SAMPLE);
    assert!(r.signatures.iter().any(|s| s.name == "getData" || s.name == "helperFn"),
        "sigs: {:?}", r.signatures.iter().map(|s| &s.name).collect::<Vec<_>>());
}

#[test]
fn test_ts_coverage() {
    let r = TypeScriptParser::new().parse(TS_SAMPLE);
    let c = coverage(r.documented, r.documentable);
    assert!(c >= 0.0 && c <= 1.0, "coverage: {}", c);
}

#[test]
fn test_js_require_relative() {
    let r = JavaScriptParser::new().parse(JS_SAMPLE);
    assert!(r.raw_imports.iter().any(|i| i.contains("./utils")), "imports: {:?}", r.raw_imports);
    assert!(!r.raw_imports.iter().any(|i| i == "path"), "bare requires should be excluded, imports: {:?}", r.raw_imports);
}

#[test]
fn test_js_class_jsdoc() {
    let r = JavaScriptParser::new().parse(JS_SAMPLE);
    let cls = r.signatures.iter().find(|s| s.kind == "class");
    assert!(cls.is_some(), "should find class");
    assert!(cls.unwrap().has_docstring);
}

#[test]
fn ts_signatures_in_order_constructor_skipped() {
    let r = TypeScriptParser::new().parse(TS_SAMPLE);
    let got: Vec<(String, String)> = r.signatures.iter().map(|s| (s.kind.clone(), s.name.clone())).collect();
    assert_eq!(got, vec![
        ("class".to_string(), "AppComponent".to_string()),
        ("method".to_string(), "getData".to_string()),
        ("function".to_string(), "helperFn".to_string()),
    ]);
    let cls = &r.signatures[0];
    assert_eq!(cls.docstring_text.as_deref(), Some("/**\n * App component\n */"));
    assert_eq!(r.documented, 1);
    assert_eq!(r.documentable, 3);
    assert_eq!(r.raw_imports, vec!["./services/user.service", "../models/user"]);
}

#[test]
fn js_records_presence_of_doc_only() {
    let r = JavaScriptParser::new().parse(JS_SAMPLE);
    let got: Vec<(String, String, bool)> =
        r.signatures.iter().map(|s| (s.kind.clone(), s.name.clone(), s.has_docstring)).collect();
    assert_eq!(got, vec![
        ("class".to_string(), "MyClass".to_string(), true),
        ("method".to_string(), "doWork".to_string(), false),
        ("function".to_string(), "helper".to_string(), false),
    ]);
    assert!(r.signatures.iter().all(|s| s.docstring_text.is_none()));
    assert_eq!(r.raw_imports, vec!["./utils"]);
}

#[test]
fn js_export_doc_before_export_counts() {
    let src = "/** Exported. */\nexport function f() {}\nexport class C {}\n";
    let r = JavaScriptParser::new().parse(src);
    let got: Vec<(String, bool)> = r.signatures.iter().map(|s| (s.name.clone(), s.has_docstring)).collect();
    assert_eq!(got, vec![("f".to_string(), true), ("C".to_string(), false)]);
}
