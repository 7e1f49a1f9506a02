//! Detection of template markup inside a string literal.
//!
//! A string literal that holds `{{ ... }}`, `{% ... %}` or `{# ... #}` on one
//! line is a dynamic expression. The search is done by the `regex` crate.

use crate::ast::ValueKind;
use crate::lexical::{byte_is, has_byte, OPEN_PAREN, UNDERSCORE};
use vstd::prelude::*;
use vstd::string::StringSliceAdditionalSpecFns;

verus! {

/// Pattern of a variable tag, `{{ ... }}`, within one line.
pub const VARIABLE_TAG: &'static str = r"\{\{.*?\}\}";

/// Pattern of a block tag, `{% ... %}`, within one line.
pub const BLOCK_TAG: &'static str = r"\{%.*?%\}";

/// Pattern of a comment tag, `{# ... #}`, within one line.
pub const COMMENT_TAG: &'static str = r"\{#.*?#\}";

/// Whether `regex::Regex::new` accepts `pattern`.
pub uninterp spec fn regex_compiles(pattern: Seq<char>) -> bool;

/// What `regex::Regex::is_match` answers for the regex compiled from `pattern`
/// on `haystack`: whether the regex matches anywhere in it.
pub uninterp spec fn regex_is_match(pattern: Seq<char>, haystack: Seq<char>) -> bool;

/// `pattern` is a regex that matches somewhere in `text`.
pub open spec fn pattern_found(pattern: Seq<char>, text: Seq<char>) -> bool {
    regex_compiles(pattern) && regex_is_match(pattern, text)
}

/// `text` holds a variable tag, a block tag or a comment tag.
pub open spec fn has_markup(text: Seq<char>) -> bool {
    pattern_found(VARIABLE_TAG@, text) || pattern_found(BLOCK_TAG@, text) || pattern_found(
        COMMENT_TAG@,
        text,
    )
}

/// The bytes begin with `_(`, as a translation string does.
pub open spec fn has_translation_prefix(bytes: Seq<u8>) -> bool {
    byte_is(bytes, 0, UNDERSCORE) && byte_is(bytes, 1, OPEN_PAREN)
}

/// Compiles `pattern` with `regex::Regex::new` and searches `haystack` with
/// `regex::Regex::is_match`.
///
/// Trusted: the answer is `None` exactly where the pattern does not compile, and
/// otherwise what `is_match` returned. Both depend on the two strings alone.
#[verifier::external_body]
fn regex_search(pattern: &str, haystack: &str) -> (r: Option<bool>)
    ensures
        r is Some <==> regex_compiles(pattern@),
        r matches Some(found) ==> found == regex_is_match(pattern@, haystack@),
{
    match regex::Regex::new(pattern) {
        Ok(re) => Some(re.is_match(haystack)),
        Err(_) => None,
    }
}

/// Decides from the outcome of the three searches whether a text is a dynamic
/// expression: it is one where it is no translation string and some search
/// found a match. A search that could not run counts as no match.
pub fn markup_verdict(
    translation: bool,
    variable: Option<bool>,
    block: Option<bool>,
    comment: Option<bool>,
) -> (r: bool)
    ensures
        r == (!translation && (variable == Some(true) || block == Some(true) || comment == Some(
            true,
        ))),
{
    if translation {
        return false;
    }
    let in_variable: bool = match variable {
        Some(found) => found,
        None => false,
    };
    let in_block: bool = match block {
        Some(found) => found,
        None => false,
    };
    let in_comment: bool = match comment {
        Some(found) => found,
        None => false,
    };
    in_variable || in_block || in_comment
}

/// The kind of a string literal: an expression where it holds markup, a plain
/// string where it does not.
pub fn string_kind(dynamic: bool) -> (r: ValueKind)
    ensures
        r == spec_string_kind(dynamic),
{
    if dynamic {
        ValueKind::Expression
    } else {
        ValueKind::String
    }
}

pub open spec fn spec_string_kind(dynamic: bool) -> ValueKind {
    if dynamic {
        ValueKind::Expression
    } else {
        ValueKind::String
    }
}

/// Whether `s` is a dynamic expression: a text that does not begin with `_(` and
/// holds a variable tag, a block tag or a comment tag.
pub fn has_dynamic_expression(s: &str) -> (r: bool)
    ensures
        r == (!has_translation_prefix(s.spec_bytes()) && has_markup(s@)),
{
    let bytes = s.as_bytes();
    let translation: bool = has_byte(bytes, 0, UNDERSCORE) && has_byte(bytes, 1, OPEN_PAREN);
    let variable = regex_search(VARIABLE_TAG, s);
    let block = regex_search(BLOCK_TAG, s);
    let comment = regex_search(COMMENT_TAG, s);
    markup_verdict(translation, variable, block, comment)
}

} // verus!
