//! Guessing the language of a pasted snippet.

use vstd::prelude::*;
use crate::text::{contains_chars, occurs_in};

verus! {

/// The language a snippet of text appears to be written in.
pub enum Language {
    Rust,
    Python,
    Javascript,
    Typescript,
    Other(String),
}

/// What a `Language` stands for, with the label of `Other` as characters.
pub enum LanguageView {
    Rust,
    Python,
    Javascript,
    Typescript,
    Other(Seq<char>),
}

impl View for Language {
    type V = LanguageView;

    open spec fn view(&self) -> LanguageView {
        match self {
            Language::Rust => LanguageView::Rust,
            Language::Python => LanguageView::Python,
            Language::Javascript => LanguageView::Javascript,
            Language::Typescript => LanguageView::Typescript,
            Language::Other(s) => LanguageView::Other(s@),
        }
    }
}

/// The lowercase form of a text, as `str::to_lowercase` produces it.
pub uninterp spec fn lower_of(s: Seq<char>) -> Seq<char>;

/// Relies on `str::to_lowercase`: its result depends on the characters alone.
#[verifier::external_body]
fn lowercase_chars(text: &str) -> (r: Vec<char>)
    ensures
        r@ == lower_of(text@),
{
    text.to_lowercase().chars().collect()
}

/// The language that an already lowercased snippet is taken to be: the first
/// rule that matches wins, and anything else is plain text.
pub open spec fn detect(lower: Seq<char>) -> LanguageView {
    if occurs_in(lower, "fn"@) && occurs_in(lower, "let"@) {
        LanguageView::Rust
    } else if occurs_in(lower, "def"@) && occurs_in(lower, ":"@) {
        LanguageView::Python
    } else if occurs_in(lower, "function"@) && occurs_in(lower, "{"@) {
        if occurs_in(lower, "typescript"@) {
            LanguageView::Typescript
        } else {
            LanguageView::Javascript
        }
    } else {
        LanguageView::Other("txt"@)
    }
}

impl Language {
    /// Detect the language of a snippet, ignoring case.
    pub fn from_text(text: &str) -> (r: Self)
        ensures
            r@ == detect(lower_of(text@)),
    {
        let lower = lowercase_chars(text);
        Language::from_lowercase(&lower)
    }

    /// Detect the language of a snippet that is already in lowercase.
    pub fn from_lowercase(lower: &Vec<char>) -> (r: Self)
        ensures
            r@ == detect(lower@),
    {
        if contains_chars(lower, "fn") && contains_chars(lower, "let") {
            Language::Rust
        } else if contains_chars(lower, "def") && contains_chars(lower, ":") {
            Language::Python
        } else if contains_chars(lower, "function") && contains_chars(lower, "{") {
            if contains_chars(lower, "typescript") {
                Language::Typescript
            } else {
                Language::Javascript
            }
        } else {
            Language::Other("txt".to_owned())
        }
    }
}

} // verus!
