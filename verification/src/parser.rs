//! Languages, parsing with tree-sitter, and the formatter's entry point.
use vstd::prelude::*;
use vstd::string::StringExecFns;
use crate::printer::{format_via_splicing, formatted_source};
use crate::syntax::{char_index_of_bytes, spans_from_table, SyntaxNode};
use crate::text::{chars_of, contains_block, contains_chars, same_chars, starts_with};

verus! {

#[verifier::external_type_specification]
#[verifier::external_body]
pub struct ExParser(tree_sitter::Parser);

#[verifier::external_type_specification]
#[verifier::external_body]
pub struct ExLanguage(tree_sitter::Language);

#[verifier::external_type_specification]
#[verifier::external_body]
pub struct ExLanguageError(tree_sitter::LanguageError);

/// A failure to parse.
pub enum Error {
    Parse(String),
}

impl Error {
    /// The error's message: `parse error: ` and the detail.
    pub fn message(&self) -> (r: String)
        ensures
            r@ == "parse error: "@ + match self {
                Error::Parse(m) => m@,
            },
    {
        match self {
            Error::Parse(m) => {
                let mut r = String::from_str("parse error: ");
                r.append(m.as_str());
                r
            },
        }
    }
}

/// Supported file types for parsing.
#[derive(Debug, Clone, Copy, PartialEq, Eq, Structural)]
pub enum Lang {
    Html,
    Tsx,
}

/// The language of a file with extension `ext`.
pub open spec fn lang_of_extension(ext: Seq<char>) -> Option<Lang> {
    if ext == "html"@ || ext == "htm"@ || ext == "heex"@ || ext == "blade"@ || ext == "templ"@ {
        Some(Lang::Html)
    } else if ext == "jsx"@ || ext == "tsx"@ {
        Some(Lang::Tsx)
    } else {
        None
    }
}

fn is_text(a: &Vec<char>, literal: &str) -> (r: bool)
    ensures
        r == (a@ == literal@),
{
    same_chars(a, &chars_of(literal))
}

impl Lang {
    pub fn from_extension(ext: &str) -> (r: Option<Self>)
        ensures
            r == lang_of_extension(ext@),
    {
        let e = chars_of(ext);
        if is_text(&e, "html") || is_text(&e, "htm") || is_text(&e, "heex") || is_text(&e, "blade")
            || is_text(&e, "templ") {
            Some(Lang::Html)
        } else if is_text(&e, "jsx") || is_text(&e, "tsx") {
            Some(Lang::Tsx)
        } else {
            None
        }
    }
}

/// TSX when the text holds `=>`, `function `, `export `, `import ` or ``={` ``;
/// HTML otherwise.
pub open spec fn detected_lang(input: Seq<char>) -> Lang {
    if contains_block(input, "=>"@) || contains_block(input, "function "@) || contains_block(
        input,
        "export "@,
    ) || contains_block(input, "import "@) || contains_block(input, "={`"@) {
        Lang::Tsx
    } else {
        Lang::Html
    }
}

pub fn detect_lang(input: &str) -> (r: Lang)
    ensures
        r == detected_lang(input@),
{
    let s = chars_of(input);
    if contains_chars(&s, &chars_of("=>")) || contains_chars(&s, &chars_of("function "))
        || contains_chars(&s, &chars_of("export ")) || contains_chars(&s, &chars_of("import "))
        || contains_chars(&s, &chars_of("={`")) {
        return Lang::Tsx;
    }
    Lang::Html
}

/// Takes `tree_sitter_html::LANGUAGE` as a `tree_sitter::Language`. A language
/// is opaque here, so nothing is stated of it.
#[verifier::external_body]
fn html_language() -> tree_sitter::Language {
    tree_sitter_html::LANGUAGE.into()
}

/// Takes `tree_sitter_typescript::LANGUAGE_TSX` as a `tree_sitter::Language`.
/// A language is opaque here, so nothing is stated of it.
#[verifier::external_body]
fn tsx_language() -> tree_sitter::Language {
    tree_sitter_typescript::LANGUAGE_TSX.into()
}

/// Calls `tree_sitter::Parser::new`. A parser is opaque here, so nothing is
/// stated of it.
#[verifier::external_body]
fn new_parser() -> tree_sitter::Parser {
    tree_sitter::Parser::new()
}

/// Calls `tree_sitter::Parser::set_language`. Whether it succeeds is not stated:
/// it fails when the grammar's ABI version lies outside the range that this
/// build of tree-sitter accepts, which Verus cannot see.
#[verifier::external_body]
fn set_language(parser: &mut tree_sitter::Parser, language: &tree_sitter::Language) -> Result<
    (),
    tree_sitter::LanguageError,
> {
    parser.set_language(language)
}

/// The message of a `tree_sitter::LanguageError`, as its `Display` writes it:
/// `Incompatible language version ` followed by the versions involved. Only
/// that opening is stated: the versions are in fields that are opaque here.
#[verifier::external_body]
fn language_error_message(e: &tree_sitter::LanguageError) -> (r: String)
    ensures
        starts_with(r@, "Incompatible language version "@),
{
    e.to_string()
}

/// Calls `tree_sitter::Parser::parse` on `text` with no earlier tree. Nothing
/// is stated of the result: a tree is opaque here, and whether one comes back
/// depends on the state of the parser, which Verus cannot see either.
#[verifier::external_body]
fn parse_text(parser: &mut tree_sitter::Parser, text: &str) -> Option<tree_sitter::Tree> {
    parser.parse(text, None)
}

/// Parse source text into a tree-sitter tree. The tree, and whether parsing
/// succeeds, are tree-sitter's; an error carries the language error's message
/// or says that no tree came back.
pub fn parse(source: &str, lang: Lang) -> (r: Result<tree_sitter::Tree, Error>)
    ensures
        r matches Err(Error::Parse(m)) ==> m@ == "tree-sitter returned None"@ || starts_with(
            m@,
            "Incompatible language version "@,
        ),
{
    let language = match lang {
        Lang::Html => html_language(),
        Lang::Tsx => tsx_language(),
    };
    let mut parser = new_parser();
    match set_language(&mut parser, &language) {
        Ok(()) => {},
        Err(e) => {
            return Err(Error::Parse(language_error_message(&e)));
        },
    }
    match parse_text(&mut parser, source) {
        Some(tree) => Ok(tree),
        None => Err(Error::Parse(String::from_str("tree-sitter returned None"))),
    }
}

/// Format a source text. Currently supports HTML and TSX.
pub fn parse_and_format(input: &str, line_width: usize, use_spaces: bool, tab_width: usize) -> (r:
    String)
    ensures
        r@ == input@ || (input@.len() + 2 <= usize::MAX && exists|root: SyntaxNode|
            root.wf(input@.len()) && spans_from_table(
                root,
                char_index_of_bytes(input@),
                input@.len(),
            ) && r@ == formatted_source(
                input@,
                root,
                line_width as nat,
                use_spaces,
                tab_width as nat,
            )),
{
    let lang = detect_lang(input);
    match parse(input, lang) {
        Ok(tree) => format_via_splicing(input, &tree, line_width, use_spaces, tab_width),
        Err(_) => input.to_owned(),
    }
}

} // verus!
