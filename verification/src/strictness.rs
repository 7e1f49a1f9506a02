//! Proof that no attribute list is read from a position where a key stands
//! with whitespace before or behind its `=`.
//!
//! What can be read from inside the key is made of key bytes and ends at or
//! before the end of the key; and nothing can be read at the `=`.

use crate::ast::AttrModel;
use crate::grammar::{
    dots_at, parse_attribute, parse_attributes, parse_basic, parse_filtered, rule_bare, rule_filter,
    rule_filter_chain, rule_filtered, Parsed,
};
use crate::grammar_shape::lemma_filtered;
use crate::lexical::{
    byte_is, class_at, exponent_end, in_class, lemma_run_end, lemma_trivia_end, run_end, sign_end,
    trivia_end, ByteClass, EQUALS, PIPE,
};
use vstd::prelude::*;

verus! {

/// From `pos` up to `e` stand key bytes; at `e` stands whitespace or `=`;
/// behind the whitespace and comments at `e` stands `=`; and whitespace
/// stands at `e` or behind the `=` at `e`.
pub open spec fn spaced_equals(s: Seq<u8>, pos: int, e: int) -> bool {
    &&& 0 <= pos <= e < s.len()
    &&& forall|i: int| pos <= i < e ==> in_class(ByteClass::Key, #[trigger] s[i])
    &&& byte_is(s, trivia_end(s, e), EQUALS)
    &&& class_at(s, e, ByteClass::Space) || (byte_is(s, e, EQUALS) && class_at(
        s,
        e + 1,
        ByteClass::Space,
    ))
}

/// A run from `pos` ends at or before a byte that is not of its class.
proof fn lemma_run_stops(s: Seq<u8>, pos: int, e: int, class: ByteClass)
    requires
        0 <= pos <= e < s.len(),
        !in_class(class, s[e]),
    ensures
        pos <= run_end(s, pos, class) <= e,
{
    lemma_run_end(s, pos, class);
}

/// A run of key bytes from inside the key ends where the key ends.
proof fn lemma_key_run(s: Seq<u8>, pos: int, p: int, e: int)
    requires
        spaced_equals(s, pos, e),
        pos <= p <= e,
    ensures
        run_end(s, p, ByteClass::Key) == e,
{
    lemma_run_stops(s, p, e, ByteClass::Key);
    lemma_run_end(s, p, ByteClass::Key);
}

/// No whitespace and no comment begins inside the key.
proof fn lemma_no_trivia(s: Seq<u8>, pos: int, p: int, e: int)
    requires
        spaced_equals(s, pos, e),
        pos <= p < e,
    ensures
        trivia_end(s, p) == p,
        !byte_is(s, p, PIPE),
{
}

/// An exponent inside the key ends at or before the end of the key.
proof fn lemma_exponent_within(s: Seq<u8>, pos: int, p: int, e: int)
    requires
        spaced_equals(s, pos, e),
        pos <= p <= e,
    ensures
        exponent_end(s, p) matches Some(x) ==> x <= e,
{
    if p < e {
        lemma_run_stops(s, sign_end(s, p + 1), e, ByteClass::Digit);
    }
}

/// A scalar that begins inside the key ends at or before the end of the key.
proof fn lemma_scalar_within(s: Seq<u8>, pos: int, p: int, e: int)
    requires
        spaced_equals(s, pos, e),
        pos <= p < e,
    ensures
        parse_basic(s, p) matches Some(v) ==> v.end_index <= e,
{
    lemma_run_stops(s, p, e, ByteClass::Digit);
    let whole = run_end(s, p, ByteClass::Digit);
    lemma_exponent_within(s, pos, whole, e);
    if whole < e {
        lemma_run_stops(s, whole + 1, e, ByteClass::Digit);
        lemma_exponent_within(s, pos, run_end(s, whole + 1, ByteClass::Digit), e);
    }
    lemma_run_stops(s, p + 1, e, ByteClass::Digit);
    lemma_exponent_within(s, pos, run_end(s, p + 1, ByteClass::Digit), e);
    lemma_run_stops(s, p + 1, e, ByteClass::Variable);
}

/// A value that begins inside the key ends at or before the end of the key.
proof fn lemma_value_within(
    s: Seq<u8>,
    pos: int,
    p: int,
    e: int,
    with_args: bool,
    depth: nat,
)
    requires
        spaced_equals(s, pos, e),
        pos <= p < e,
    ensures
        parse_filtered(s, p, with_args, depth) matches Parsed::Match(v) ==> v.end_index <= e,
{
    rule_filtered(s, p, with_args, depth);
    rule_bare(s, p, depth);
    lemma_scalar_within(s, pos, p, e);
    if let Some(v) = parse_basic(s, p) {
        if p < v.end_index <= e {
            rule_filter_chain(s, v.end_index, with_args, depth, Seq::empty());
            lemma_trivia_end(s, v.end_index);
            rule_filter(s, trivia_end(s, v.end_index), with_args, depth);
            if v.end_index < e {
                lemma_no_trivia(s, pos, v.end_index, e);
            }
        }
    }
}

/// Nothing is read at `=`, and nothing at whitespace.
proof fn lemma_nothing_at(s: Seq<u8>, p: int, with_args: bool, depth: nat)
    requires
        0 <= p < s.len(),
        s[p] == EQUALS || class_at(s, p, ByteClass::Space),
    ensures
        parse_filtered(s, p, with_args, depth) is NoMatch,
        parse_attribute(s, p, depth) is NoMatch,
{
    rule_filtered(s, p, with_args, depth);
    rule_filtered(s, p, true, depth);
    rule_bare(s, p, depth);
    lemma_run_end(s, p, ByteClass::Digit);
}

/// An attribute that begins inside the key ends at or before the end of the
/// key.
proof fn lemma_attribute_within(s: Seq<u8>, pos: int, p: int, e: int, depth: nat)
    requires
        spaced_equals(s, pos, e),
        pos <= p < e,
    ensures
        parse_attribute(s, p, depth) matches Parsed::Match(a) ==> p < a.end_index <= e,
{
    lemma_key_run(s, pos, p, e);
    if byte_is(s, e, EQUALS) {
        lemma_nothing_at(s, e + 1, true, depth);
    }
    if dots_at(s, p) {
        if p + 3 < e {
            lemma_value_within(s, pos, p + 3, e, true, depth);
            lemma_filtered(s, p + 3, true, depth);
        } else {
            lemma_nothing_at(s, e, true, depth);
        }
    }
    lemma_value_within(s, pos, p, e, true, depth);
    lemma_filtered(s, p, true, depth);
}

/// No attribute list is read from inside the key, nor from its end.
pub proof fn lemma_stuck(
    s: Seq<u8>,
    pos: int,
    p: int,
    e: int,
    depth: nat,
    attrs: Seq<AttrModel>,
)
    requires
        spaced_equals(s, pos, e),
        pos <= p <= e,
    ensures
        !(parse_attributes(s, p, depth, attrs) is Match),
    decreases e - p,
{
    if p < e {
        lemma_no_trivia(s, pos, p, e);
        lemma_attribute_within(s, pos, p, e, depth);
        if let Parsed::Match(a) = parse_attribute(s, p, depth) {
            lemma_stuck(s, pos, a.end_index, e, depth, attrs.push(a));
        }
    } else {
        lemma_trivia_end(s, e);
        lemma_nothing_at(s, trivia_end(s, e), true, depth);
    }
}

/// No attribute list is read from a position whose whitespace and comments
/// end where the key begins.
pub proof fn lemma_stuck_before(
    s: Seq<u8>,
    from: int,
    pos: int,
    e: int,
    depth: nat,
    attrs: Seq<AttrModel>,
)
    requires
        spaced_equals(s, pos, e),
        0 <= from <= pos,
        trivia_end(s, from) == pos,
    ensures
        !(parse_attributes(s, from, depth, attrs) is Match),
{
    if pos < e {
        lemma_attribute_within(s, pos, pos, e, depth);
        if let Parsed::Match(a) = parse_attribute(s, pos, depth) {
            lemma_stuck(s, pos, a.end_index, e, depth, attrs.push(a));
        }
    } else {
        lemma_trivia_end(s, from);
        lemma_nothing_at(s, pos, true, depth);
    }
}

} // verus!
