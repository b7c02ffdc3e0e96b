use codeskel::parsers::cpp::CppParser;

const SAMPLE: &str = r#"
#include <vector>
#include "mylib/foo.h"
#include "utils.h"

/**
 * Main function.
 */
void process(int x) {}

class MyClass {
public:
    void doWork() {}
};
"#;

#[test]
fn test_cpp_quoted_include() {
    let r = CppParser::new().parse(SAMPLE);
    assert!(r.raw_imports.iter().any(|i| i == "mylib/foo.h"), "imports: {:?}", r.raw_imports);
    assert!(r.raw_imports.iter().any(|i| i == "utils.h"), "imports: {:?}", r.raw_imports);
    assert!(!r.raw_imports.iter().any(|i| i == "vector"), "angle-bracket includes must be excluded: {:?}", r.raw_imports);
}

#[test]
fn test_cpp_function_has_jsdoc() {
    let r = CppParser::new().parse(SAMPLE);
    let f = r.signatures.iter().find(|s| s.name == "process");
    assert!(f.is_some(), "process should be extracted, sigs: {:?}",
        r.signatures.iter().map(|s| &s.name).collect::<Vec<_>>());
    assert!(f.unwrap().has_docstring, "process has /** */ before it");
}

#[test]
fn test_cpp_class_extracted() {
    let r = CppParser::new().parse(SAMPLE);
    assert!(r.signatures.iter().any(|s| s.kind == "class" && s.name == "MyClass"),
        "sigs: {:?}", r.signatures.iter().map(|s| (&s.kind, &s.name)).collect::<Vec<_>>());
}

#[test]
fn cpp_includes_in_order() {
    let r = CppParser::new().parse(SAMPLE);
    assert_eq!(r.raw_imports, vec!["mylib/foo.h", "utils.h"]);
    assert!(r.package.is_none());
}
