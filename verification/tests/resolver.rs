use codeskel::models::Language;
use codeskel::resolver::Resolver;

#[test]
fn test_java_resolution() {
    let r = Resolver::new(
        &Language::Java,
        &["src/main/java/com/example/model/User.java".to_string()],
        "/proj",
        None,
    );
    assert_eq!(
        r.resolve("com.example.model.User", None),
        Some("src/main/java/com/example/model/User.java".to_string())
    );
}

#[test]
fn test_python_resolution() {
    let r = Resolver::new(&Language::Python, &["myapp/models.py".to_string()], "/proj", None);
    assert_eq!(r.resolve("myapp.models", None), Some("myapp/models.py".to_string()));
}

#[test]
fn test_ts_relative_resolution() {
    let r = Resolver::new(&Language::TypeScript, &["src/services/user.service.ts".to_string()], "/proj", None);
    // "./services/user.service" from "src/app.ts" should resolve to "src/services/user.service.ts"
    assert_eq!(
        r.resolve("./services/user.service", Some("src")),
        Some("src/services/user.service.ts".to_string())
    );
}

#[test]
fn test_go_resolution() {
    let r = Resolver::new(&Language::Go, &["pkg/models/user.go".to_string()], "/proj", Some("github.com/myorg/myapp"));
    assert_eq!(
        r.resolve("github.com/myorg/myapp/pkg/models", None),
        Some("pkg/models/user.go".to_string())
    );
}

#[test]
fn test_cpp_resolution() {
    let r = Resolver::new(&Language::Cpp, &["mylib/foo.h".to_string()], "/proj", None);
    assert_eq!(r.resolve("mylib/foo.h", None), Some("mylib/foo.h".to_string()));
    // Also by basename
    assert_eq!(r.resolve("foo.h", None), Some("mylib/foo.h".to_string()));
}

#[test]
fn test_unresolvable_returns_none() {
    let r = Resolver::new(&Language::Java, &["src/Foo.java".to_string()], "/proj", None);
    assert_eq!(r.resolve("com.external.Library", None), None);
}

#[test]
fn relative_import_climbs_out_of_a_directory() {
    let r = Resolver::new(&Language::TypeScript, &["src/util.ts".to_string()], "/proj", None);
    assert_eq!(r.resolve("../util", Some("src/pages")), Some("src/util.ts".to_string()));
}

#[test]
fn java_names_strip_only_the_source_root() {
    let r = Resolver::new(
        &Language::Java,
        &["src/Foo.java".to_string(), "lib/Bar.java".to_string()],
        "/proj",
        None,
    );
    assert_eq!(r.resolve("Foo", None), Some("src/Foo.java".to_string()));
    assert_eq!(r.resolve("lib.Bar", None), Some("lib/Bar.java".to_string()));
    assert_eq!(r.resolve("src.Foo", None), None);
}

#[test]
fn relative_import_is_normalized() {
    let r = Resolver::new(&Language::TypeScript, &["src/a/util.ts".to_string()], "/proj", None);
    assert_eq!(r.resolve("./a/./b/../util", Some("src")), Some("src/a/util.ts".to_string()));
}
