use codeskel::parsers::csharp::CSharpParser;

const SAMPLE: &str = r#"
using System;
using MyApp.Models;

namespace MyApp.Services
{
    /// <summary>
    /// User service.
    /// </summary>
    public class UserService
    {
        public User GetUser(int id) { return null; }
        private void Helper() {}
    }
}
"#;

#[test]
fn test_csharp_internal_import() {
    let r = CSharpParser::new().parse(SAMPLE);
    assert!(r.raw_imports.iter().any(|i| i == "MyApp.Models"), "imports: {:?}", r.raw_imports);
    assert!(!r.raw_imports.iter().any(|i| i == "System"), "System should be excluded: {:?}", r.raw_imports);
}

#[test]
fn test_csharp_class_has_docstring() {
    let r = CSharpParser::new().parse(SAMPLE);
    let cls = r.signatures.iter().find(|s| s.kind == "class").expect("should find class");
    assert!(cls.has_docstring);
}

#[test]
fn test_csharp_public_method() {
    let r = CSharpParser::new().parse(SAMPLE);
    assert!(r.signatures.iter().any(|s| s.name == "GetUser"),
        "sigs: {:?}", r.signatures.iter().map(|s| &s.name).collect::<Vec<_>>());
    assert!(!r.signatures.iter().any(|s| s.name == "Helper"), "private methods must not appear");
}

#[test]
fn test_csharp_using_static_excluded() {
    let src = "using static MyApp.Helpers.StringUtils;\nusing System;\npublic class Foo {}";
    let r = CSharpParser::new().parse(src);
    assert!(!r.raw_imports.iter().any(|i| i.starts_with("static ")), "static prefix must be stripped: {:?}", r.raw_imports);
    assert!(!r.raw_imports.iter().any(|i| i == "System"), "System must be excluded: {:?}", r.raw_imports);
}

#[test]
fn csharp_records_no_package() {
    let r = CSharpParser::new().parse(SAMPLE);
    assert_eq!(r.package, None);
    assert_eq!(r.raw_imports, vec!["MyApp.Models"]);
}
