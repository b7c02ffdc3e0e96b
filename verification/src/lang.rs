//! Which language a file is written in.

use vstd::prelude::*;
use crate::models::Language;
use crate::paths::{extension_of, path_extension};
use crate::text::str_eq;

verus! {

/// The language a file extension denotes.
pub open spec fn language_of_extension(e: Seq<char>) -> Option<Language> {
    if e == "java"@ {
        Some(Language::Java)
    } else if e == "py"@ {
        Some(Language::Python)
    } else if e == "ts"@ || e == "tsx"@ {
        Some(Language::TypeScript)
    } else if e == "js"@ || e == "jsx"@ || e == "mjs"@ {
        Some(Language::JavaScript)
    } else if e == "go"@ {
        Some(Language::Go)
    } else if e == "rs"@ {
        Some(Language::Rust)
    } else if e == "cs"@ {
        Some(Language::CSharp)
    } else if e == "c"@ || e == "cpp"@ || e == "h"@ || e == "hpp"@ {
        Some(Language::Cpp)
    } else if e == "rb"@ {
        Some(Language::Ruby)
    } else {
        None
    }
}

/// The language of a file, from its path's extension.
pub open spec fn language_of_path(p: Seq<char>) -> Option<Language> {
    match extension_of(p) {
        Some(e) => language_of_extension(e),
        None => None,
    }
}

/// The language named on the command line (`--lang`): short forms
/// (ts, js, cs) and full names (typescript, javascript, csharp).
pub open spec fn language_of_flag(s: Seq<char>) -> Option<Language> {
    if s == "java"@ {
        Some(Language::Java)
    } else if s == "python"@ {
        Some(Language::Python)
    } else if s == "ts"@ || s == "typescript"@ {
        Some(Language::TypeScript)
    } else if s == "js"@ || s == "javascript"@ {
        Some(Language::JavaScript)
    } else if s == "go"@ {
        Some(Language::Go)
    } else if s == "rust"@ {
        Some(Language::Rust)
    } else if s == "cs"@ || s == "csharp"@ {
        Some(Language::CSharp)
    } else if s == "cpp"@ {
        Some(Language::Cpp)
    } else if s == "ruby"@ {
        Some(Language::Ruby)
    } else {
        None
    }
}

fn language_from_extension(e: &str) -> (r: Option<Language>)
    ensures
        r == language_of_extension(e@),
{
    if str_eq(e, "java") {
        Some(Language::Java)
    } else if str_eq(e, "py") {
        Some(Language::Python)
    } else if str_eq(e, "ts") || str_eq(e, "tsx") {
        Some(Language::TypeScript)
    } else if str_eq(e, "js") || str_eq(e, "jsx") || str_eq(e, "mjs") {
        Some(Language::JavaScript)
    } else if str_eq(e, "go") {
        Some(Language::Go)
    } else if str_eq(e, "rs") {
        Some(Language::Rust)
    } else if str_eq(e, "cs") {
        Some(Language::CSharp)
    } else if str_eq(e, "c") || str_eq(e, "cpp") || str_eq(e, "h") || str_eq(e, "hpp") {
        Some(Language::Cpp)
    } else if str_eq(e, "rb") {
        Some(Language::Ruby)
    } else {
        None
    }
}

/// The language of the file at `path`, by extension.
pub fn detect_language(path: &str) -> (r: Option<Language>)
    ensures
        r == language_of_path(path@),
{
    match path_extension(path) {
        Some(e) => language_from_extension(e.as_str()),
        None => None,
    }
}

/// Parse a language from a CLI --lang argument.
/// Accepts both short forms (ts, js, cs) and full names (typescript, javascript, csharp).
pub fn lang_from_str(s: &str) -> (r: Option<Language>)
    ensures
        r == language_of_flag(s@),
{
    if str_eq(s, "java") {
        Some(Language::Java)
    } else if str_eq(s, "python") {
        Some(Language::Python)
    } else if str_eq(s, "ts") || str_eq(s, "typescript") {
        Some(Language::TypeScript)
    } else if str_eq(s, "js") || str_eq(s, "javascript") {
        Some(Language::JavaScript)
    } else if str_eq(s, "go") {
        Some(Language::Go)
    } else if str_eq(s, "rust") {
        Some(Language::Rust)
    } else if str_eq(s, "cs") || str_eq(s, "csharp") {
        Some(Language::CSharp)
    } else if str_eq(s, "cpp") {
        Some(Language::Cpp)
    } else if str_eq(s, "ruby") {
        Some(Language::Ruby)
    } else {
        None
    }
}

} // verus!
