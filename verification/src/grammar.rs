//! The grammar of an attribute list, as functions from the input bytes and a
//! position to the syntax tree that is read there.
//!
//! ```text
//! input     := trivia (attribute trivia)*
//! attribute := key '=' filtered | '...' filtered | filtered
//! filtered  := value (trivia filter)*
//! value     := list | dict | scalar
//! scalar    := translation | string | float | int | variable
//! list      := '[' trivia (item trivia (',' trivia item trivia)* (',' trivia)?)? ']'
//! item      := '*' comments filtered | filtered
//! dict      := '{' trivia (entry trivia (',' trivia entry trivia)* (',' trivia)?)? '}'
//! entry     := '**' comments filtered | key trivia ':' trivia filtered
//! key       := scalar (trivia '|' trivia name)*
//! filter    := '|' trivia name (trivia ':' trivia filtered)?
//! trivia    := (whitespace | comment)*
//! comments  := comment*
//! ```
//!
//! Alternatives are tried in order and the first that matches is taken;
//! repetitions and options take as much as they can, and what they took is
//! never given back. The filters of a dict key take no arguments, since the
//! `:` behind a key parts it from its value. Lists, dicts and filter
//! arguments nest at most [`MAX_DEPTH`] deep, and the key of a dict item is a
//! scalar. Where a rule meets deeper nesting, or a dict item whose key is a
//! list or a dict, it matches nothing and no other alternative is tried: the
//! outcome is handed up to the top as it is.
//!
//! A rule that reads on behind a match first tests that the match is not
//! empty and ends inside the input. The test shows that the rules end; no
//! match fails it.

use crate::ast::{AttrModel, FilterModel, TokenModel, ValueKind, ValueModel};
use crate::dynamic::{has_markup, spec_string_kind};
use crate::lexical::{
    byte_is, comments_end, float_end, int_end, is_quote, key_end, lemma_comments_end, lemma_run_end,
    lemma_trivia_end, name_end, string_end, translation_end, trivia_end, ByteClass, CLOSE_BRACE,
    CLOSE_BRACKET, COLON, COMMA, DOT, EQUALS, OPEN_BRACE, OPEN_BRACKET, PIPE, STAR,
};
use crate::source::line_col_at;
use vstd::prelude::*;
use vstd::utf8::decode_utf8;

verus! {

/// The text that the bytes from `start` up to `end` encode.
pub open spec fn text_at(s: Seq<u8>, start: int, end: int) -> Seq<char> {
    decode_utf8(s.subrange(start, end))
}

/// The token that spans `start` up to `end`.
pub open spec fn token_at(s: Seq<u8>, start: int, end: int) -> TokenModel {
    TokenModel {
        text: text_at(s, start, end),
        start_index: start,
        end_index: end,
        line_col: line_col_at(s, start),
    }
}

/// Position of the first quote from `pos` up to `end`, or `end` without one.
pub open spec fn first_quote(s: Seq<u8>, pos: int, end: int) -> int
    decreases end - pos,
{
    if pos >= end {
        end
    } else if is_quote(s[pos]) {
        pos
    } else {
        first_quote(s, pos + 1, end)
    }
}

/// Position of the last byte `b` from `pos` up to `end`, or `pos` without one.
pub open spec fn last_byte(s: Seq<u8>, pos: int, end: int, b: u8) -> int
    decreases end - pos,
{
    if end <= pos {
        pos
    } else if s[end - 1] == b {
        end - 1
    } else {
        last_byte(s, pos, end - 1, b)
    }
}

/// The text of a translation string that spans `start` up to `end`: `_(`, the
/// source from its first quote to the last quote of the same kind, and `)`.
pub open spec fn translation_text(s: Seq<u8>, start: int, end: int) -> Seq<char> {
    let open = first_quote(s, start, end);
    let close = last_byte(s, open, end, s[open]);
    seq!['_', '('] + text_at(s, open, close + 1) + seq![')']
}

/// A value without children, filters or spread marker.
pub open spec fn leaf(kind: ValueKind, token: TokenModel) -> ValueModel {
    ValueModel {
        token,
        children: Seq::empty(),
        kind,
        spread: None,
        filters: Seq::empty(),
        start_index: token.start_index,
        end_index: token.end_index,
        line_col: token.line_col,
    }
}

/// A list or dict that spans `start` up to `end`.
pub open spec fn collection(
    s: Seq<u8>,
    kind: ValueKind,
    start: int,
    end: int,
    children: Seq<ValueModel>,
) -> ValueModel {
    ValueModel {
        token: token_at(s, start, end),
        children,
        kind,
        spread: None,
        filters: Seq::empty(),
        start_index: start,
        end_index: end,
        line_col: line_col_at(s, start),
    }
}

/// The value `v` with the filter chain that follows it: the value ends where
/// its last filter ends.
pub open spec fn with_filters(v: ValueModel, filters: Seq<FilterModel>) -> ValueModel {
    ValueModel {
        filters,
        end_index: if filters.len() > 0 {
            filters.last().end_index
        } else {
            v.end_index
        },
        ..v
    }
}

/// The value `v` behind a spread marker of `width` bytes: the value begins
/// `width` bytes and columns earlier.
pub open spec fn with_spread(v: ValueModel, marker: Seq<char>, width: int) -> ValueModel {
    ValueModel {
        spread: Some(marker),
        start_index: v.start_index - width,
        line_col: (v.line_col.0, v.line_col.1 - width),
        ..v
    }
}

/// The value `v` as a filter argument whose span begins at `start`, where the
/// `:` of the argument stands.
pub open spec fn as_argument(s: Seq<u8>, v: ValueModel, start: int) -> ValueModel {
    ValueModel { start_index: start, line_col: line_col_at(s, start), ..v }
}

/// A scalar value at `pos`: a translation string, a string literal, a float,
/// an integer or a variable, whichever matches first.
pub open spec fn parse_basic(s: Seq<u8>, pos: int) -> Option<ValueModel> {
    if let Some(e) = translation_end(s, pos) {
        Some(
            leaf(
                ValueKind::Translation,
                TokenModel {
                    text: translation_text(s, pos, e),
                    start_index: pos,
                    end_index: e,
                    line_col: line_col_at(s, pos),
                },
            ),
        )
    } else if let Some(e) = string_end(s, pos) {
        Some(leaf(spec_string_kind(has_markup(text_at(s, pos, e))), token_at(s, pos, e)))
    } else if let Some(e) = float_end(s, pos) {
        Some(leaf(ValueKind::Float, token_at(s, pos, e)))
    } else if let Some(e) = int_end(s, pos) {
        Some(leaf(ValueKind::Int, token_at(s, pos, e)))
    } else if let Some(e) = name_end(s, pos, ByteClass::Variable) {
        Some(leaf(ValueKind::Variable, token_at(s, pos, e)))
    } else {
        None
    }
}

/// The greatest depth to which lists, dicts and filter arguments may nest.
pub const MAX_DEPTH: usize = 128;

/// What reading a rule of the grammar at a position gives.
#[derive(Debug, PartialEq)]
pub enum Parsed<T> {
    /// The rule matches, with this result.
    Match(T),
    /// The rule does not match here. Another alternative may.
    NoMatch,
    /// The input nests deeper than the parser follows. Nothing matches.
    TooDeep,
    /// A dict item has a list or a dict as its key. Nothing matches.
    InvalidKey,
}

impl<T: View> View for Parsed<T> {
    type V = Parsed<T::V>;

    open spec fn view(&self) -> Parsed<T::V> {
        match self {
            Parsed::Match(t) => Parsed::Match(t@),
            Parsed::NoMatch => Parsed::NoMatch,
            Parsed::TooDeep => Parsed::TooDeep,
            Parsed::InvalidKey => Parsed::InvalidKey,
        }
    }
}

impl<T> Parsed<T> {
    /// The same outcome for another rule, where the outcome is no match.
    pub open spec fn fail<U>(self) -> Parsed<U> {
        match self {
            Parsed::TooDeep => Parsed::TooDeep,
            Parsed::InvalidKey => Parsed::InvalidKey,
            _ => Parsed::NoMatch,
        }
    }
}

impl<T: View> Parsed<T> {
    /// Hands an outcome that is no match on to the rule that asked.
    pub fn failed<U: View>(self) -> (r: Parsed<U>)
        requires
            !(self is Match),
        ensures
            r == self.fail::<U>(),
            r@ == self@.fail::<U::V>(),
            !(r is Match),
    {
        match self {
            Parsed::TooDeep => Parsed::TooDeep,
            Parsed::InvalidKey => Parsed::InvalidKey,
            _ => Parsed::NoMatch,
        }
    }
}

/// A value at `pos` with the filter chain that follows it. Filters take
/// arguments where `with_args` holds. Lists, dicts and filter arguments may
/// nest `depth` deep below the value.
#[verifier::opaque]
pub open spec fn parse_filtered(
    s: Seq<u8>,
    pos: int,
    with_args: bool,
    depth: nat,
) -> Parsed<ValueModel>
    decreases s.len() - pos, 5int,
    when 0 <= pos <= s.len()
{
    match parse_bare(s, pos, depth) {
        Parsed::Match(v) => if pos < v.end_index <= s.len() {
            match parse_filter_chain(s, v.end_index, with_args, depth, Seq::empty()) {
                Parsed::Match(filters) => Parsed::Match(with_filters(v, filters)),
                other => other.fail(),
            }
        } else {
            Parsed::NoMatch
        },
        other => other.fail(),
    }
}

/// A list, a dict or a scalar at `pos`, without filters. A list or a dict
/// takes one level of `depth`.
#[verifier::opaque]
pub open spec fn parse_bare(s: Seq<u8>, pos: int, depth: nat) -> Parsed<ValueModel>
    decreases s.len() - pos, 4int,
    when 0 <= pos <= s.len()
{
    if byte_is(s, pos, OPEN_BRACKET) {
        if depth == 0 {
            Parsed::TooDeep
        } else {
            match parse_list_rest(s, pos + 1, (depth - 1) as nat, Seq::empty()) {
                Parsed::Match((items, end)) => Parsed::Match(
                    collection(s, ValueKind::List, pos, end, items),
                ),
                other => other.fail(),
            }
        }
    } else if byte_is(s, pos, OPEN_BRACE) {
        if depth == 0 {
            Parsed::TooDeep
        } else {
            match parse_dict_rest(s, pos + 1, (depth - 1) as nat, Seq::empty()) {
                Parsed::Match((entries, end)) => Parsed::Match(
                    collection(s, ValueKind::Dict, pos, end, entries),
                ),
                other => other.fail(),
            }
        }
    } else {
        match parse_basic(s, pos) {
            Some(v) => Parsed::Match(v),
            None => Parsed::NoMatch,
        }
    }
}

/// The rest of a list from `pos`, behind `[` or a comma: the items still to
/// come are added to `items`, up to the closing `]`. A comma may stand before
/// the `]`.
#[verifier::opaque]
pub open spec fn parse_list_rest(
    s: Seq<u8>,
    pos: int,
    depth: nat,
    items: Seq<ValueModel>,
) -> Parsed<(Seq<ValueModel>, int)>
    decreases s.len() - pos, 7int,
    when 0 <= pos <= s.len()
{
    let at = trivia_end(s, pos);
    if byte_is(s, at, CLOSE_BRACKET) {
        Parsed::Match((items, at + 1))
    } else {
        proof {
            lemma_trivia_end(s, pos);
        }
        match parse_list_item(s, at, depth) {
            Parsed::Match(v) => {
                let next = trivia_end(s, v.end_index);
                if !(pos < v.end_index <= s.len()) {
                    Parsed::NoMatch
                } else if byte_is(s, next, COMMA) {
                    proof {
                        lemma_trivia_end(s, v.end_index);
                    }
                    parse_list_rest(s, next + 1, depth, items.push(v))
                } else if byte_is(s, next, CLOSE_BRACKET) {
                    Parsed::Match((items.push(v), next + 1))
                } else {
                    Parsed::NoMatch
                }
            },
            other => other.fail(),
        }
    }
}

/// A list item at `pos`: a filtered value, or `*`, comments and a filtered
/// value.
#[verifier::opaque]
pub open spec fn parse_list_item(s: Seq<u8>, pos: int, depth: nat) -> Parsed<ValueModel>
    decreases s.len() - pos, 6int,
    when 0 <= pos <= s.len()
{
    if byte_is(s, pos, STAR) {
        proof {
            lemma_comments_end(s, pos + 1);
        }
        match parse_filtered(s, comments_end(s, pos + 1), true, depth) {
            Parsed::Match(v) => Parsed::Match(with_spread(v, "*"@, 1)),
            other => other.fail(),
        }
    } else {
        parse_filtered(s, pos, true, depth)
    }
}

/// The rest of a dict from `pos`, behind `{` or a comma: the keys and values
/// still to come are added to `entries`, up to the closing `}`. A comma may
/// stand before the `}`.
#[verifier::opaque]
pub open spec fn parse_dict_rest(
    s: Seq<u8>,
    pos: int,
    depth: nat,
    entries: Seq<ValueModel>,
) -> Parsed<(Seq<ValueModel>, int)>
    decreases s.len() - pos, 7int,
    when 0 <= pos <= s.len()
{
    let at = trivia_end(s, pos);
    if byte_is(s, at, CLOSE_BRACE) {
        Parsed::Match((entries, at + 1))
    } else {
        proof {
            lemma_trivia_end(s, pos);
        }
        match parse_dict_item(s, at, depth) {
            Parsed::Match((added, end)) => {
                let next = trivia_end(s, end);
                if !(pos < end <= s.len()) {
                    Parsed::NoMatch
                } else if byte_is(s, next, COMMA) {
                    proof {
                        lemma_trivia_end(s, end);
                    }
                    parse_dict_rest(s, next + 1, depth, entries + added)
                } else if byte_is(s, next, CLOSE_BRACE) {
                    Parsed::Match((entries + added, next + 1))
                } else {
                    Parsed::NoMatch
                }
            },
            other => other.fail(),
        }
    }
}

/// The value that was read, as the key of a dict item: a list or a dict is an
/// invalid key.
pub open spec fn as_key(r: Parsed<ValueModel>) -> Parsed<ValueModel> {
    match r {
        Parsed::Match(v) => if v.kind.is_collection() {
            Parsed::InvalidKey
        } else {
            Parsed::Match(v)
        },
        other => other,
    }
}

/// The key of a dict item at `pos`: a scalar with a chain of filters that
/// take no arguments. A list or a dict in its place is an invalid key.
pub open spec fn parse_key(s: Seq<u8>, pos: int, depth: nat) -> Parsed<ValueModel> {
    as_key(parse_filtered(s, pos, false, depth))
}

/// A dict item at `pos` and where it ends: `**`, comments and a filtered
/// value, which gives one entry; or a key, `:` and a filtered value, which
/// gives two.
#[verifier::opaque]
pub open spec fn parse_dict_item(s: Seq<u8>, pos: int, depth: nat) -> Parsed<(Seq<ValueModel>, int)>
    decreases s.len() - pos, 6int,
    when 0 <= pos <= s.len()
{
    if byte_is(s, pos, STAR) && byte_is(s, pos + 1, STAR) {
        proof {
            lemma_comments_end(s, pos + 2);
        }
        match parse_filtered(s, comments_end(s, pos + 2), true, depth) {
            Parsed::Match(v) => Parsed::Match((seq![with_spread(v, "**"@, 2)], v.end_index)),
            other => other.fail(),
        }
    } else {
        match as_key(parse_filtered(s, pos, false, depth)) {
            Parsed::Match(key) => {
                let colon = trivia_end(s, key.end_index);
                if pos < key.end_index <= s.len() && byte_is(s, colon, COLON) {
                    proof {
                        lemma_trivia_end(s, key.end_index);
                        lemma_trivia_end(s, colon + 1);
                    }
                    match parse_filtered(s, trivia_end(s, colon + 1), true, depth) {
                        Parsed::Match(v) => Parsed::Match((seq![key, v], v.end_index)),
                        other => other.fail(),
                    }
                } else {
                    Parsed::NoMatch
                }
            },
            other => other.fail(),
        }
    }
}

/// The filters from `pos` on, added to `filters`: as many as can be read.
#[verifier::opaque]
pub open spec fn parse_filter_chain(
    s: Seq<u8>,
    pos: int,
    with_args: bool,
    depth: nat,
    filters: Seq<FilterModel>,
) -> Parsed<Seq<FilterModel>>
    decreases s.len() - pos, 3int,
    when 0 <= pos <= s.len()
{
    proof {
        lemma_trivia_end(s, pos);
    }
    match parse_filter(s, trivia_end(s, pos), with_args, depth) {
        Parsed::Match(f) => if pos < f.end_index <= s.len() {
            parse_filter_chain(s, f.end_index, with_args, depth, filters.push(f))
        } else {
            Parsed::Match(filters)
        },
        Parsed::NoMatch => Parsed::Match(filters),
        other => other.fail(),
    }
}

/// The filter named by the token from `name` up to `e` behind the `|` at
/// `pos`, with the argument `arg`. The filter ends where its argument ends.
pub open spec fn filter_at(
    s: Seq<u8>,
    pos: int,
    name: int,
    e: int,
    arg: Option<ValueModel>,
) -> FilterModel {
    FilterModel {
        token: token_at(s, name, e),
        arg,
        start_index: pos,
        end_index: match arg {
            Some(a) => a.end_index,
            None => e,
        },
        line_col: line_col_at(s, pos),
    }
}

/// A filter at `pos`: `|`, a name and, where `with_args` holds and one
/// follows, an argument.
#[verifier::opaque]
pub open spec fn parse_filter(
    s: Seq<u8>,
    pos: int,
    with_args: bool,
    depth: nat,
) -> Parsed<FilterModel>
    decreases s.len() - pos, 2int,
    when 0 <= pos <= s.len()
{
    if byte_is(s, pos, PIPE) {
        let name = trivia_end(s, pos + 1);
        match name_end(s, name, ByteClass::Name) {
            Some(e) => {
                proof {
                    lemma_trivia_end(s, pos + 1);
                    lemma_run_end(s, name + 1, ByteClass::Name);
                }
                if with_args {
                    match parse_filter_arg(s, e, depth) {
                        Parsed::Match(a) => Parsed::Match(filter_at(s, pos, name, e, Some(a))),
                        Parsed::NoMatch => Parsed::Match(filter_at(s, pos, name, e, None)),
                        other => other.fail(),
                    }
                } else {
                    Parsed::Match(filter_at(s, pos, name, e, None))
                }
            },
            None => Parsed::NoMatch,
        }
    } else {
        Parsed::NoMatch
    }
}

/// A filter argument behind the filter name that ends at `pos`: `:` and a
/// filtered value. The argument's span begins at the `:`. An argument takes
/// one level of `depth`.
#[verifier::opaque]
pub open spec fn parse_filter_arg(s: Seq<u8>, pos: int, depth: nat) -> Parsed<ValueModel>
    decreases s.len() - pos, 1int,
    when 0 <= pos <= s.len()
{
    let colon = trivia_end(s, pos);
    if byte_is(s, colon, COLON) {
        proof {
            lemma_trivia_end(s, pos);
            lemma_trivia_end(s, colon + 1);
        }
        if depth == 0 {
            Parsed::TooDeep
        } else {
            match parse_filtered(s, trivia_end(s, colon + 1), true, (depth - 1) as nat) {
                Parsed::Match(v) => Parsed::Match(as_argument(s, v, colon)),
                other => other.fail(),
            }
        }
    } else {
        Parsed::NoMatch
    }
}

/// `...` stands at `pos`.
pub open spec fn dots_at(s: Seq<u8>, pos: int) -> bool {
    byte_is(s, pos, DOT) && byte_is(s, pos + 1, DOT) && byte_is(s, pos + 2, DOT)
}

/// An attribute `key=value` at `pos`, with nothing between the three parts.
pub open spec fn parse_keyed(s: Seq<u8>, pos: int, depth: nat) -> Parsed<AttrModel> {
    match key_end(s, pos) {
        Some(e) => if byte_is(s, e, EQUALS) {
            match parse_filtered(s, e + 1, true, depth) {
                Parsed::Match(v) => Parsed::Match(
                    AttrModel {
                        key: Some(token_at(s, pos, e)),
                        value: v,
                        start_index: pos,
                        end_index: v.end_index,
                        line_col: line_col_at(s, pos),
                    },
                ),
                other => other.fail(),
            }
        } else {
            Parsed::NoMatch
        },
        None => Parsed::NoMatch,
    }
}

/// An attribute without a key whose value is `v`.
pub open spec fn positional(s: Seq<u8>, pos: int, v: ValueModel) -> AttrModel {
    AttrModel {
        key: None,
        value: v,
        start_index: pos,
        end_index: v.end_index,
        line_col: line_col_at(s, pos),
    }
}

/// An attribute `...value` at `pos`, with nothing between marker and value.
pub open spec fn parse_spread(s: Seq<u8>, pos: int, depth: nat) -> Parsed<AttrModel> {
    if dots_at(s, pos) {
        match parse_filtered(s, pos + 3, true, depth) {
            Parsed::Match(v) => Parsed::Match(positional(s, pos, with_spread(v, "..."@, 3))),
            other => other.fail(),
        }
    } else {
        Parsed::NoMatch
    }
}

/// An attribute that is a value at `pos`.
pub open spec fn parse_positional(s: Seq<u8>, pos: int, depth: nat) -> Parsed<AttrModel> {
    match parse_filtered(s, pos, true, depth) {
        Parsed::Match(v) => Parsed::Match(positional(s, pos, v)),
        other => other.fail(),
    }
}

/// An attribute at `pos`: `key=value`, or `...value`, or a value, whichever
/// matches first.
pub open spec fn parse_attribute(s: Seq<u8>, pos: int, depth: nat) -> Parsed<AttrModel> {
    match parse_keyed(s, pos, depth) {
        Parsed::NoMatch => match parse_spread(s, pos, depth) {
            Parsed::NoMatch => parse_positional(s, pos, depth),
            found => found,
        },
        found => found,
    }
}

/// The attributes from `pos` to the end of the input, added to `attrs`.
/// Nothing but whitespace and comments may stand between and around them.
pub open spec fn parse_attributes(
    s: Seq<u8>,
    pos: int,
    depth: nat,
    attrs: Seq<AttrModel>,
) -> Parsed<Seq<AttrModel>>
    decreases s.len() - pos,
    when 0 <= pos <= s.len()
{
    let at = trivia_end(s, pos);
    if at >= s.len() {
        Parsed::Match(attrs)
    } else {
        match parse_attribute(s, at, depth) {
            Parsed::Match(a) => if pos < a.end_index <= s.len() {
                parse_attributes(s, a.end_index, depth, attrs.push(a))
            } else {
                Parsed::NoMatch
            },
            other => other.fail(),
        }
    }
}

/// What the whole of `s` spells: an attribute list, or none, or something
/// that nests deeper than [`MAX_DEPTH`], or something with a list or a dict
/// as a dict key, whichever is met first.
pub open spec fn parse_input(s: Seq<u8>) -> Parsed<Seq<AttrModel>> {
    parse_attributes(s, 0, MAX_DEPTH as nat, Seq::empty())
}

/// The rule of a filtered value, read once.
pub proof fn rule_filtered(s: Seq<u8>, pos: int, with_args: bool, depth: nat)
    requires
        0 <= pos <= s.len(),
    ensures
        parse_filtered(s, pos, with_args, depth) == ({
            match parse_bare(s, pos, depth) {
                Parsed::Match(v) => if pos < v.end_index <= s.len() {
                    match parse_filter_chain(s, v.end_index, with_args, depth, Seq::empty()) {
                        Parsed::Match(filters) => Parsed::Match(with_filters(v, filters)),
                        other => other.fail(),
                    }
                } else {
                    Parsed::NoMatch
                },
                other => other.fail(),
            }
        }),
{
    reveal(parse_filtered);
    reveal(parse_bare);
    reveal(parse_filter_chain);
}

/// The rule of a value without filters, read once.
pub proof fn rule_bare(s: Seq<u8>, pos: int, depth: nat)
    requires
        0 <= pos <= s.len(),
    ensures
        parse_bare(s, pos, depth) == ({
            if byte_is(s, pos, OPEN_BRACKET) {
                if depth == 0 {
                    Parsed::TooDeep
                } else {
                    match parse_list_rest(s, pos + 1, (depth - 1) as nat, Seq::empty()) {
                        Parsed::Match((items, end)) => Parsed::Match(
                            collection(s, ValueKind::List, pos, end, items),
                        ),
                        other => other.fail(),
                    }
                }
            } else if byte_is(s, pos, OPEN_BRACE) {
                if depth == 0 {
                    Parsed::TooDeep
                } else {
                    match parse_dict_rest(s, pos + 1, (depth - 1) as nat, Seq::empty()) {
                        Parsed::Match((entries, end)) => Parsed::Match(
                            collection(s, ValueKind::Dict, pos, end, entries),
                        ),
                        other => other.fail(),
                    }
                }
            } else {
                match parse_basic(s, pos) {
                    Some(v) => Parsed::Match(v),
                    None => Parsed::NoMatch,
                }
            }
        }),
{
    reveal(parse_bare);
    reveal(parse_list_rest);
    reveal(parse_dict_rest);
}

/// The rule of the rest of a list, read once.
pub proof fn rule_list_rest(s: Seq<u8>, pos: int, depth: nat, items: Seq<ValueModel>)
    requires
        0 <= pos <= s.len(),
    ensures
        parse_list_rest(s, pos, depth, items) == ({
            let at = trivia_end(s, pos);
            if byte_is(s, at, CLOSE_BRACKET) {
                Parsed::Match((items, at + 1))
            } else {
                match parse_list_item(s, at, depth) {
                    Parsed::Match(v) => {
                        let next = trivia_end(s, v.end_index);
                        if !(pos < v.end_index <= s.len()) {
                            Parsed::NoMatch
                        } else if byte_is(s, next, COMMA) {
                            parse_list_rest(s, next + 1, depth, items.push(v))
                        } else if byte_is(s, next, CLOSE_BRACKET) {
                            Parsed::Match((items.push(v), next + 1))
                        } else {
                            Parsed::NoMatch
                        }
                    },
                    other => other.fail(),
                }
            }
        }),
{
    reveal(parse_list_rest);
    reveal(parse_list_item);
    lemma_trivia_end(s, pos);
    if let Parsed::Match(v) = parse_list_item(s, trivia_end(s, pos), depth) {
        if pos < v.end_index <= s.len() {
            lemma_trivia_end(s, v.end_index);
        }
    }
}

/// The rule of a list item, read once.
pub proof fn rule_list_item(s: Seq<u8>, pos: int, depth: nat)
    requires
        0 <= pos <= s.len(),
    ensures
        parse_list_item(s, pos, depth) == ({
            if byte_is(s, pos, STAR) {
                match parse_filtered(s, comments_end(s, pos + 1), true, depth) {
                    Parsed::Match(v) => Parsed::Match(with_spread(v, "*"@, 1)),
                    other => other.fail(),
                }
            } else {
                parse_filtered(s, pos, true, depth)
            }
        }),
{
    reveal(parse_list_item);
    reveal(parse_filtered);
    if pos < s.len() {
        lemma_comments_end(s, pos + 1);
    }
}

/// The rule of the rest of a dict, read once.
pub proof fn rule_dict_rest(s: Seq<u8>, pos: int, depth: nat, entries: Seq<ValueModel>)
    requires
        0 <= pos <= s.len(),
    ensures
        parse_dict_rest(s, pos, depth, entries) == ({
            let at = trivia_end(s, pos);
            if byte_is(s, at, CLOSE_BRACE) {
                Parsed::Match((entries, at + 1))
            } else {
                match parse_dict_item(s, at, depth) {
                    Parsed::Match((added, end)) => {
                        let next = trivia_end(s, end);
                        if !(pos < end <= s.len()) {
                            Parsed::NoMatch
                        } else if byte_is(s, next, COMMA) {
                            parse_dict_rest(s, next + 1, depth, entries + added)
                        } else if byte_is(s, next, CLOSE_BRACE) {
                            Parsed::Match((entries + added, next + 1))
                        } else {
                            Parsed::NoMatch
                        }
                    },
                    other => other.fail(),
                }
            }
        }),
{
    reveal(parse_dict_rest);
    reveal(parse_dict_item);
    lemma_trivia_end(s, pos);
    if let Parsed::Match((added, end)) = parse_dict_item(s, trivia_end(s, pos), depth) {
        if pos < end <= s.len() {
            lemma_trivia_end(s, end);
        }
    }
}

/// The rule of a dict item, read once.
pub proof fn rule_dict_item(s: Seq<u8>, pos: int, depth: nat)
    requires
        0 <= pos <= s.len(),
    ensures
        parse_dict_item(s, pos, depth) == ({
            if byte_is(s, pos, STAR) && byte_is(s, pos + 1, STAR) {
                match parse_filtered(s, comments_end(s, pos + 2), true, depth) {
                    Parsed::Match(v) => Parsed::Match(
                        (seq![with_spread(v, "**"@, 2)], v.end_index),
                    ),
                    other => other.fail(),
                }
            } else {
                match parse_key(s, pos, depth) {
                    Parsed::Match(key) => {
                        let colon = trivia_end(s, key.end_index);
                        if pos < key.end_index <= s.len() && byte_is(s, colon, COLON) {
                            match parse_filtered(s, trivia_end(s, colon + 1), true, depth) {
                                Parsed::Match(v) => Parsed::Match((seq![key, v], v.end_index)),
                                other => other.fail(),
                            }
                        } else {
                            Parsed::NoMatch
                        }
                    },
                    other => other.fail(),
                }
            }
        }),
{
    reveal(parse_dict_item);
    reveal(parse_filtered);
    if pos + 1 < s.len() {
        lemma_comments_end(s, pos + 2);
    }
    if let Parsed::Match(key) = parse_key(s, pos, depth) {
        if pos < key.end_index <= s.len() {
            lemma_trivia_end(s, key.end_index);
            if trivia_end(s, key.end_index) < s.len() {
                lemma_trivia_end(s, trivia_end(s, key.end_index) + 1);
            }
        }
    }
}

/// The rule of a filter chain, read once.
pub proof fn rule_filter_chain(
    s: Seq<u8>,
    pos: int,
    with_args: bool,
    depth: nat,
    filters: Seq<FilterModel>,
)
    requires
        0 <= pos <= s.len(),
    ensures
        parse_filter_chain(s, pos, with_args, depth, filters) == ({
            match parse_filter(s, trivia_end(s, pos), with_args, depth) {
                Parsed::Match(f) => if pos < f.end_index <= s.len() {
                    parse_filter_chain(s, f.end_index, with_args, depth, filters.push(f))
                } else {
                    Parsed::Match(filters)
                },
                Parsed::NoMatch => Parsed::Match(filters),
                other => other.fail(),
            }
        }),
{
    reveal(parse_filter_chain);
    reveal(parse_filter);
    lemma_trivia_end(s, pos);
}

/// The rule of a filter, read once.
pub proof fn rule_filter(s: Seq<u8>, pos: int, with_args: bool, depth: nat)
    requires
        0 <= pos <= s.len(),
    ensures
        parse_filter(s, pos, with_args, depth) == ({
            if byte_is(s, pos, PIPE) {
                let name = trivia_end(s, pos + 1);
                match name_end(s, name, ByteClass::Name) {
                    Some(e) => {
                        if with_args {
                            match parse_filter_arg(s, e, depth) {
                                Parsed::Match(a) => Parsed::Match(
                                    filter_at(s, pos, name, e, Some(a)),
                                ),
                                Parsed::NoMatch => Parsed::Match(filter_at(s, pos, name, e, None)),
                                other => other.fail(),
                            }
                        } else {
                            Parsed::Match(filter_at(s, pos, name, e, None))
                        }
                    },
                    None => Parsed::NoMatch,
                }
            } else {
                Parsed::NoMatch
            }
        }),
{
    reveal(parse_filter);
    reveal(parse_filter_arg);
    if pos < s.len() {
        lemma_trivia_end(s, pos + 1);
        if trivia_end(s, pos + 1) < s.len() {
            lemma_run_end(s, trivia_end(s, pos + 1) + 1, ByteClass::Name);
        }
    }
}

/// The rule of a filter argument, read once.
pub proof fn rule_filter_arg(s: Seq<u8>, pos: int, depth: nat)
    requires
        0 <= pos <= s.len(),
    ensures
        parse_filter_arg(s, pos, depth) == ({
            let colon = trivia_end(s, pos);
            if byte_is(s, colon, COLON) {
                if depth == 0 {
                    Parsed::TooDeep
                } else {
                    match parse_filtered(s, trivia_end(s, colon + 1), true, (depth - 1) as nat) {
                        Parsed::Match(v) => Parsed::Match(as_argument(s, v, colon)),
                        other => other.fail(),
                    }
                }
            } else {
                Parsed::NoMatch
            }
        }),
{
    reveal(parse_filter_arg);
    reveal(parse_filtered);
    lemma_trivia_end(s, pos);
    if trivia_end(s, pos) < s.len() {
        lemma_trivia_end(s, trivia_end(s, pos) + 1);
    }
}

} // verus!
