use codeskel::parsers::go::GoParser;

const SAMPLE: &str = r#"
package main

import (
    "fmt"
    "github.com/myorg/myapp/models"
    "github.com/myorg/myapp/utils"
)

// UserService manages users.
type UserService struct {
    db *models.DB
}

// NewUserService creates a new service.
func NewUserService(db *models.DB) *UserService {
    return &UserService{db: db}
}

func (s *UserService) GetUser(id int) *models.User {
    return nil
}

func (s *UserService) privateHelper() {}
"#;

fn coverage(documented: usize, documentable: usize) -> f64 {
    if documentable > 0 { documented as f64 / documentable as f64 } else { 1.0 }
}

#[test]
fn test_go_imports() {
    let r = GoParser::new().parse(SAMPLE);
    assert!(r.raw_imports.iter().any(|i| i.contains("myapp/models")), "imports: {:?}", r.raw_imports);
    assert!(r.raw_imports.iter().any(|i| i.contains("myapp/utils")), "imports: {:?}", r.raw_imports);
    // fmt is included (resolver will filter it as stdlib)
    assert!(r.raw_imports.iter().any(|i| i == "fmt"), "stdlib imports should be included in raw: {:?}", r.raw_imports);
}

#[test]
fn test_go_type_has_comment() {
    let r = GoParser::new().parse(SAMPLE);
    let s = r.signatures.iter().find(|s| s.name == "UserService").expect("should find UserService");
    assert!(s.has_docstring, "UserService has line comment");
}

#[test]
fn test_go_exported_func_only() {
    let r = GoParser::new().parse(SAMPLE);
    assert!(r.signatures.iter().any(|s| s.name == "NewUserService"),
        "sigs: {:?}", r.signatures.iter().map(|s| &s.name).collect::<Vec<_>>());
    assert!(r.signatures.iter().any(|s| s.name == "GetUser"), "method on receiver should be extracted");
    assert!(!r.signatures.iter().any(|s| s.name == "privateHelper"), "unexported methods must not appear");
}

#[test]
fn test_go_coverage() {
    let r = GoParser::new().parse(SAMPLE);
    // UserService and NewUserService have comments; GetUser does not
    let c = coverage(r.documented, r.documentable);
    assert!(c > 0.5 && c < 1.0, "coverage: {}", c);
}

#[test]
fn go_exact_counts_and_package() {
    let r = GoParser::new().parse(SAMPLE);
    assert_eq!(r.documented, 2);
    assert_eq!(r.documentable, 3);
    assert_eq!(r.raw_imports, vec!["fmt", "github.com/myorg/myapp/models", "github.com/myorg/myapp/utils"]);
}
