use codeskel::parsers::ruby::RubyParser;

const SAMPLE: &str = r#"
require_relative 'models/user'
require 'json'

# User service class
class UserService
  # Creates a new service
  def initialize(db)
    @db = db
  end

  def get_user(id)
    nil
  end
end
"#;

#[test]
fn test_ruby_require_relative() {
    let r = RubyParser::new().parse(SAMPLE);
    assert!(r.raw_imports.iter().any(|i| i == "models/user"), "imports: {:?}", r.raw_imports);
    assert!(!r.raw_imports.iter().any(|i| i == "json"), "bare require should be excluded: {:?}", r.raw_imports);
}

#[test]
fn test_ruby_class_has_comment() {
    let r = RubyParser::new().parse(SAMPLE);
    let cls = r.signatures.iter().find(|s| s.kind == "class").expect("should find class");
    assert!(cls.has_docstring, "UserService has # comment before it");
}

#[test]
fn test_ruby_methods() {
    let r = RubyParser::new().parse(SAMPLE);
    assert!(r.signatures.iter().any(|s| s.name == "initialize"),
        "sigs: {:?}", r.signatures.iter().map(|s| &s.name).collect::<Vec<_>>());
    assert!(r.signatures.iter().any(|s| s.name == "get_user"));
}

#[test]
fn ruby_comment_text_kept() {
    let r = RubyParser::new().parse(SAMPLE);
    let cls = r.signatures.iter().find(|s| s.kind == "class").unwrap();
    assert_eq!(cls.docstring_text.as_deref(), Some("# User service class"));
    assert_eq!(cls.line, 6);
    assert_eq!(r.documentable, 3);
}
