//! The parsers: what each language's parser reads off a source file.

pub mod java;
pub mod python;
pub mod go;
pub mod rust_lang;
pub mod csharp;
pub mod cpp;
pub mod ruby;
pub mod script;
pub mod typescript;
pub mod javascript;

use vstd::prelude::*;
use crate::models::{Language, Signature};
use crate::syntax::{SyntaxTree, Grammar, parsed_from};
use crate::parsers::java::{JavaParser, java_result};
use crate::parsers::python::PythonParser;
use crate::parsers::typescript::{TypeScriptParser, ts_found};
use crate::parsers::javascript::{JavaScriptParser, js_found};
use crate::parsers::go::{GoParser, go_result};
use crate::parsers::rust_lang::{RustParser, rust_result};
use crate::parsers::csharp::{CSharpParser, csharp_result};
use crate::parsers::cpp::{CppParser, cpp_result};
use crate::parsers::ruby::{RubyParser, ruby_result};
use crate::parsers::script::script_result;

verus! {

/// What parsing one source file gives.
#[derive(Debug)]
pub struct ParseResult {
    /// Import strings as written in the source (before resolution).
    pub raw_imports: Vec<String>,
    /// The declarations found (no bodies).
    pub signatures: Vec<Signature>,
    /// How many of the documentable declarations have a docstring...
    pub documented: usize,
    /// ...out of how many: the comment coverage is their ratio (1 where
    /// there are none).
    pub documentable: usize,
    /// The package or namespace declared, where there is one.
    pub package: Option<String>,
}

impl ParseResult {
    /// The result of a parser that finds nothing.
    pub fn empty() -> (r: ParseResult)
        ensures
            r.raw_imports@.len() == 0,
            r.signatures@.len() == 0,
            r.documented == 0,
            r.documentable == 0,
            r.package is None,
    {
        ParseResult { raw_imports: Vec::new(), signatures: Vec::new(), documented: 0, documentable: 0, package: None }
    }
}

/// How many signatures have a docstring.
pub open spec fn documented_count(sigs: Seq<Signature>) -> nat
    decreases sigs.len(),
{
    if sigs.len() == 0 {
        0
    } else {
        documented_count(sigs.drop_last()) + if sigs.last().has_docstring { 1nat } else { 0nat }
    }
}

pub fn count_documented(sigs: &Vec<Signature>) -> (r: usize)
    ensures
        r == documented_count(sigs@),
{
    let mut n: usize = 0;
    let mut i: usize = 0;
    while i < sigs.len()
        invariant
            i <= sigs@.len(),
            n == documented_count(sigs@.take(i as int)),
            n <= i,
        decreases sigs.len() - i,
    {
        assert(sigs@.take(i + 1).drop_last() =~= sigs@.take(i as int));
        if sigs[i].has_docstring {
            n = n + 1;
        }
        i += 1;
    }
    assert(sigs@.take(sigs@.len() as int) =~= sigs@);
    n
}

/// The parser of one language.
pub enum LanguageParser {
    Java(JavaParser),
    Python(PythonParser),
    TypeScript(TypeScriptParser),
    JavaScript(JavaScriptParser),
    Go(GoParser),
    Rust(RustParser),
    CSharp(CSharpParser),
    Cpp(CppParser),
    Ruby(RubyParser),
}

/// `r` is what the parser of `lang` gives for the syntax tree of `source`
/// (Python: nothing).
pub open spec fn parsed_as(r: ParseResult, lang: Language, source: Seq<char>) -> bool {
    match lang {
        Language::Java => exists|t: SyntaxTree| parsed_from(t, Grammar::Java, source) && #[trigger] java_result(r, t),
        Language::Python => r.raw_imports@.len() == 0 && r.signatures@.len() == 0 && r.documented == 0
            && r.documentable == 0 && r.package is None,
        Language::TypeScript => exists|t: SyntaxTree| parsed_from(t, Grammar::TypeScript, source) && #[trigger] script_result(r, t, ts_found(t), true),
        Language::JavaScript => exists|t: SyntaxTree| parsed_from(t, Grammar::JavaScript, source) && #[trigger] script_result(r, t, js_found(t), false),
        Language::Go => exists|t: SyntaxTree| parsed_from(t, Grammar::Go, source) && #[trigger] go_result(r, t),
        Language::Rust => exists|t: SyntaxTree| parsed_from(t, Grammar::Rust, source) && #[trigger] rust_result(r, t),
        Language::CSharp => exists|t: SyntaxTree| parsed_from(t, Grammar::CSharp, source) && #[trigger] csharp_result(r, t),
        Language::Cpp => exists|t: SyntaxTree| parsed_from(t, Grammar::Cpp, source) && #[trigger] cpp_result(r, t),
        Language::Ruby => exists|t: SyntaxTree| parsed_from(t, Grammar::Ruby, source) && #[trigger] ruby_result(r, t),
    }
}

impl LanguageParser {
    /// The language this parser reads.
    pub open spec fn language(self) -> Language {
        match self {
            LanguageParser::Java(_) => Language::Java,
            LanguageParser::Python(_) => Language::Python,
            LanguageParser::TypeScript(_) => Language::TypeScript,
            LanguageParser::JavaScript(_) => Language::JavaScript,
            LanguageParser::Go(_) => Language::Go,
            LanguageParser::Rust(_) => Language::Rust,
            LanguageParser::CSharp(_) => Language::CSharp,
            LanguageParser::Cpp(_) => Language::Cpp,
            LanguageParser::Ruby(_) => Language::Ruby,
        }
    }

    /// Parses one source file of this parser's language.
    pub fn parse(&self, source: &str) -> (r: ParseResult)
        ensures
            parsed_as(r, self.language(), source@),
    {
        match self {
            LanguageParser::Java(p) => p.parse(source),
            LanguageParser::Python(p) => p.parse(source),
            LanguageParser::TypeScript(p) => p.parse(source),
            LanguageParser::JavaScript(p) => p.parse(source),
            LanguageParser::Go(p) => p.parse(source),
            LanguageParser::Rust(p) => p.parse(source),
            LanguageParser::CSharp(p) => p.parse(source),
            LanguageParser::Cpp(p) => p.parse(source),
            LanguageParser::Ruby(p) => p.parse(source),
        }
    }
}

/// The parser for `lang`.
pub fn get_parser(lang: &Language) -> (r: LanguageParser)
    ensures
        r.language() == *lang,
{
    match lang {
        Language::Java => LanguageParser::Java(JavaParser::new()),
        Language::Python => LanguageParser::Python(PythonParser::new()),
        Language::TypeScript => LanguageParser::TypeScript(TypeScriptParser::new()),
        Language::JavaScript => LanguageParser::JavaScript(JavaScriptParser::new()),
        Language::Go => LanguageParser::Go(GoParser::new()),
        Language::Rust => LanguageParser::Rust(RustParser::new()),
        Language::CSharp => LanguageParser::CSharp(CSharpParser::new()),
        Language::Cpp => LanguageParser::Cpp(CppParser::new()),
        Language::Ruby => LanguageParser::Ruby(RubyParser::new()),
    }
}

/// The 1-based line of a node on (0-based) row `row`.
pub open spec fn line_of(row: usize) -> usize {
    if row < usize::MAX { (row + 1) as usize } else { row }
}

pub fn line_exec(row: usize) -> (r: usize)
    ensures
        r == line_of(row),
{
    if row < usize::MAX { row + 1 } else { row }
}

} // verus!
