use codeskel::refs::java::{build_type_map, JavaRefsAnalyzer};
use codeskel::refs::{get_refs_analyzer, RefsAnalyzer};
use codeskel::models::Language;
use codeskel::syntax::{parse_syntax, Grammar};

fn type_of(map: &[(String, String)], var: &str) -> Option<String> {
    map.iter().rev().find(|(k, _)| k == var).map(|(_, v)| v.clone())
}

fn refs_for<'a>(refs: &'a [(String, Vec<String>)], dep: &str) -> Option<&'a Vec<String>> {
    refs.iter().find(|(k, _)| k == dep).map(|(_, v)| v)
}

#[test]
fn test_build_type_map_local_var() {
    let source = r#"
class Foo {
    void method() {
        User user = null;
        UserRepository repo;
    }
}
"#;
    let tree = parse_syntax(Grammar::Java, source);
    let map = build_type_map(&tree);
    assert_eq!(type_of(&map, "user").as_deref(), Some("User"), "user should map to User; map: {:?}", map);
    assert_eq!(type_of(&map, "repo").as_deref(), Some("UserRepository"), "repo should map to UserRepository; map: {:?}", map);
}

#[test]
fn test_build_type_map_field_decl() {
    let source = r#"
class Foo {
    private UserRepository repo;
    public User currentUser;
}
"#;
    let tree = parse_syntax(Grammar::Java, source);
    let map = build_type_map(&tree);
    assert_eq!(type_of(&map, "repo").as_deref(), Some("UserRepository"));
    assert_eq!(type_of(&map, "currentUser").as_deref(), Some("User"));
}

#[test]
fn test_build_type_map_formal_param() {
    let source = r#"
class Foo {
    void save(User user, String name) {}
}
"#;
    let tree = parse_syntax(Grammar::Java, source);
    let map = build_type_map(&tree);
    assert_eq!(type_of(&map, "user").as_deref(), Some("User"));
    assert_eq!(type_of(&map, "name").as_deref(), Some("String"));
}

#[test]
fn test_extract_refs_userservice() {
    let source = r#"
package com.example.service;
import com.example.model.User;
import com.example.repo.UserRepository;

public class UserService {
    private UserRepository repo;

    public User findUser(String id) {
        User user = repo.findById(id);
        return user;
    }

    public void saveUser(User user) {
        repo.save(user);
    }

    public String getUserEmail(String id) {
        User user = repo.findById(id);
        return user.getEmail();
    }
}
"#;
    let import_map = vec![
        ("User".to_string(), "src/com/example/model/User.java".to_string()),
        ("UserRepository".to_string(), "src/com/example/repo/UserRepository.java".to_string()),
    ];
    let dep_sigs = vec![
        ("src/com/example/model/User.java".to_string(),
            vec!["User".to_string(), "getEmail".to_string(), "setEmail".to_string()]),
        ("src/com/example/repo/UserRepository.java".to_string(),
            vec!["UserRepository".to_string(), "findById".to_string(), "save".to_string()]),
    ];

    let analyzer = JavaRefsAnalyzer::new();
    let refs = analyzer.extract_refs(source, &import_map, &dep_sigs);

    let user_refs = refs_for(&refs, "src/com/example/model/User.java").expect("User.java must appear in refs");
    assert!(user_refs.contains(&"User".to_string()), "User type ref missing; got: {:?}", user_refs);
    assert!(user_refs.contains(&"getEmail".to_string()), "getEmail method ref missing; got: {:?}", user_refs);

    let repo_refs = refs_for(&refs, "src/com/example/repo/UserRepository.java").expect("UserRepository.java must appear in refs");
    assert!(repo_refs.contains(&"UserRepository".to_string()), "UserRepository type ref missing; got: {:?}", repo_refs);
    assert!(repo_refs.contains(&"findById".to_string()), "findById missing; got: {:?}", repo_refs);
    assert!(repo_refs.contains(&"save".to_string()), "save missing; got: {:?}", repo_refs);
}

#[test]
fn test_extract_refs_no_internal_imports() {
    let source = "public class Foo { void bar() { String s = \"x\"; } }";
    let analyzer = JavaRefsAnalyzer::new();
    let refs = analyzer.extract_refs(source, &vec![], &vec![]);
    assert!(refs.is_empty(), "no internal imports → empty refs");
}

#[test]
fn test_extract_refs_static_call() {
    let source = r#"
import com.example.Util;
class Foo {
    void bar() {
        Util.doSomething();
    }
}
"#;
    let import_map = vec![("Util".to_string(), "src/Util.java".to_string())];
    let dep_sigs = vec![("src/Util.java".to_string(), vec!["Util".to_string(), "doSomething".to_string()])];
    let analyzer = JavaRefsAnalyzer::new();
    let refs = analyzer.extract_refs(source, &import_map, &dep_sigs);
    let util_refs = refs_for(&refs, "src/Util.java").expect("Util.java must appear");
    assert!(util_refs.contains(&"Util".to_string()), "Util type_identifier ref missing; got: {:?}", util_refs);
    assert!(util_refs.contains(&"doSomething".to_string()), "static method call missing; got: {:?}", util_refs);
}

#[test]
fn referenced_names_come_sorted_and_once() {
    let source = "class A { void f(B b) { b.z(); b.a(); b.z(); } }";
    let import_map = vec![("B".to_string(), "src/B.java".to_string())];
    let dep_sigs = vec![("src/B.java".to_string(), vec!["B".to_string(), "a".to_string(), "z".to_string()])];
    let refs = JavaRefsAnalyzer::new().extract_refs(source, &import_map, &dep_sigs);
    assert_eq!(refs, vec![("src/B.java".to_string(), vec!["B".to_string(), "a".to_string(), "z".to_string()])]);
}

#[test]
fn only_java_has_an_analyzer() {
    assert!(get_refs_analyzer(&Language::Java).is_some());
    assert!(get_refs_analyzer(&Language::Go).is_none());
}
