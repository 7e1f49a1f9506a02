//! What holds of every parsed input, one law a function: the requirement of a
//! law is that the input parses, and where the law speaks of every value, that
//! the value occurs in the tree of some attribute.

use crate::ast::{AttrModel, ValueKind, ValueModel};
use crate::grammar::{parse_attributes, parse_input, text_at, MAX_DEPTH, Parsed};
use crate::grammar_shape::lemma_attributes;
use crate::lexical::{
    byte_is, class_at, is_space, key_end, lemma_run_end, lemma_trivia_end, trivia_end, ByteClass,
    COLON, EQUALS, PIPE,
};
use crate::shape::{
    all_keys_valid, attr_ok, filter_placed, keys_scalar, keys_valid, lemma_counts, lemma_everywhere,
    lemma_keys_valid, lemma_paired_keys, lemma_paired_parity, marked_count, nests_within, occurs_in,
    paired, unmarked_count, Place,
};
use crate::source::{lemma_ascii_boundaries, lemma_line_col_bounds, line_col_at};
use crate::strictness::lemma_stuck_before;
use vstd::prelude::*;
use vstd::utf8::{is_char_boundary, valid_utf8};

verus! {

/// Every attribute of a parsed input is well formed, and the attributes stand
/// in source order.
pub proof fn attributes_well_formed(s: Seq<u8>, attrs: Seq<AttrModel>)
    requires
        parse_input(s) == Parsed::Match(attrs),
    ensures
        forall|i: int| 0 <= i < attrs.len() ==> attr_ok(s, #[trigger] attrs[i]),
        forall|i: int, j: int|
            0 <= i < j < attrs.len() ==> (#[trigger] attrs[i]).end_index <= (
            #[trigger] attrs[j]).start_index,
{
    lemma_attributes(s, 0, MAX_DEPTH as nat, Seq::empty());
}

/// Span containment. Every value `n` in the tree of a parsed input lies
/// inside the input, with its token and its filters; every token is not
/// empty; and but for a translation string, the text of the token is the
/// input between the token's offsets. The same holds of the attribute and of
/// its key.
pub proof fn span_containment(
    s: Seq<u8>,
    attrs: Seq<AttrModel>,
    i: int,
    n: ValueModel,
    place: Place,
)
    requires
        parse_input(s) == Parsed::Match(attrs),
        0 <= i < attrs.len(),
        occurs_in(n, place, attrs[i].value, Place::Attribute),
    ensures
        0 <= attrs[i].start_index < attrs[i].end_index <= s.len(),
        attrs[i].key matches Some(k) ==> 0 <= k.start_index < k.end_index <= s.len() && k.text
            == text_at(s, k.start_index, k.end_index),
        0 <= n.start_index <= n.token.start_index < n.token.end_index <= n.end_index <= s.len(),
        n.kind != ValueKind::Translation ==> n.token.text == text_at(
            s,
            n.token.start_index,
            n.token.end_index,
        ),
        forall|j: int|
            0 <= j < n.filters.len() ==> {
                let f = #[trigger] n.filters[j];
                &&& 0 <= f.start_index < f.token.start_index < f.token.end_index <= f.end_index
                    <= s.len()
                &&& f.token.text == text_at(s, f.token.start_index, f.token.end_index)
            },
{
    attributes_well_formed(s, attrs);
    lemma_everywhere(s, n, place, attrs[i].value, Place::Attribute);
}

/// No-filter span equality. Every value `n` in the tree of a parsed input
/// that has no filters and no spread marker, and is no filter argument, has
/// the span, line and column of its token.
pub proof fn no_filter_span_equality(
    s: Seq<u8>,
    attrs: Seq<AttrModel>,
    i: int,
    n: ValueModel,
    place: Place,
)
    requires
        parse_input(s) == Parsed::Match(attrs),
        0 <= i < attrs.len(),
        occurs_in(n, place, attrs[i].value, Place::Attribute),
        n.filters.len() == 0,
        n.spread is None,
        !(place is FilterArg),
    ensures
        n.start_index == n.token.start_index,
        n.end_index == n.token.end_index,
        n.line_col == n.token.line_col,
{
    attributes_well_formed(s, attrs);
    lemma_everywhere(s, n, place, attrs[i].value, Place::Attribute);
}

/// Dict children parity. In every dict `n` in the tree of a parsed input, the
/// children split into spread entries marked `**`, one child each, and pairs
/// of a key and a value without marker, where the key is a scalar whose
/// filters have no arguments: the children without marker are even in number,
/// and so are all children where none is marked.
pub proof fn dict_children_parity(
    s: Seq<u8>,
    attrs: Seq<AttrModel>,
    i: int,
    n: ValueModel,
    place: Place,
)
    requires
        parse_input(s) == Parsed::Match(attrs),
        0 <= i < attrs.len(),
        occurs_in(n, place, attrs[i].value, Place::Attribute),
        n.kind == ValueKind::Dict,
    ensures
        paired(n.children, 0),
        keys_scalar(n.children, 0),
        n.children.len() == unmarked_count(n.children, 0) + marked_count(n.children, 0),
        unmarked_count(n.children, 0) % 2 == 0,
        marked_count(n.children, 0) == 0 ==> n.children.len() % 2 == 0,
{
    attributes_well_formed(s, attrs);
    lemma_everywhere(s, n, place, attrs[i].value, Place::Attribute);
    lemma_paired_parity(n.children, 0);
    lemma_paired_keys(n.children, 0);
    lemma_counts(n.children, 0);
}

/// Spread exclusivity. Every value `n` in the tree of a parsed input has at
/// most one spread marker, and the marker goes by the place: `...` on the
/// value of an attribute, `*` on a list item, `**` on a dict entry, none on a
/// filter argument. The value of an attribute with a key has none.
pub proof fn spread_exclusivity(
    s: Seq<u8>,
    attrs: Seq<AttrModel>,
    i: int,
    n: ValueModel,
    place: Place,
)
    requires
        parse_input(s) == Parsed::Match(attrs),
        0 <= i < attrs.len(),
        occurs_in(n, place, attrs[i].value, Place::Attribute),
    ensures
        n.spread matches Some(m) ==> match place {
            Place::Attribute => m == "..."@,
            Place::ListItem => m == "*"@,
            Place::DictEntry => m == "**"@,
            Place::FilterArg => false,
        },
        attrs[i].key is Some ==> attrs[i].value.spread is None,
{
    attributes_well_formed(s, attrs);
    lemma_everywhere(s, n, place, attrs[i].value, Place::Attribute);
}

/// Filter order preservation. In every value `n` in the tree of a parsed
/// input, the filters stand in source order: each begins at a `|` at or
/// behind the end of the token, and at or behind the end of every filter
/// before it; and the value ends where its last filter ends.
pub proof fn filter_order_preservation(
    s: Seq<u8>,
    attrs: Seq<AttrModel>,
    i: int,
    n: ValueModel,
    place: Place,
)
    requires
        parse_input(s) == Parsed::Match(attrs),
        0 <= i < attrs.len(),
        occurs_in(n, place, attrs[i].value, Place::Attribute),
    ensures
        forall|j: int|
            0 <= j < n.filters.len() ==> n.token.end_index <= (#[trigger] n.filters[j]).start_index
                && byte_is(s, n.filters[j].start_index, PIPE),
        forall|j: int, k: int|
            0 <= j < k < n.filters.len() ==> (#[trigger] n.filters[j]).end_index <= (
            #[trigger] n.filters[k]).start_index,
        n.filters.len() > 0 ==> n.end_index == n.filters.last().end_index,
{
    attributes_well_formed(s, attrs);
    lemma_everywhere(s, n, place, attrs[i].value, Place::Attribute);
}

/// Filter argument span. In every value `n` in the tree of a parsed input,
/// the span of a filter argument begins at the `:` behind the filter name,
/// with the line and column of the `:`, and ends where the filter ends; the
/// token of the argument begins behind the `:`; and the argument has no
/// spread marker.
pub proof fn filter_argument_span(
    s: Seq<u8>,
    attrs: Seq<AttrModel>,
    i: int,
    n: ValueModel,
    place: Place,
    j: int,
)
    requires
        parse_input(s) == Parsed::Match(attrs),
        0 <= i < attrs.len(),
        occurs_in(n, place, attrs[i].value, Place::Attribute),
        0 <= j < n.filters.len(),
        n.filters[j].arg is Some,
    ensures
        byte_is(s, n.filters[j].arg->0.start_index, COLON),
        n.filters[j].arg->0.line_col == line_col_at(s, n.filters[j].arg->0.start_index),
        n.filters[j].token.end_index <= n.filters[j].arg->0.start_index
            < n.filters[j].arg->0.token.start_index,
        n.filters[j].arg->0.end_index == n.filters[j].end_index,
        n.filters[j].arg->0.spread is None,
{
    attributes_well_formed(s, attrs);
    lemma_everywhere(s, n, place, attrs[i].value, Place::Attribute);
    assert(filter_placed(s, n.filters[j]));
    let a = n.filters[j].arg->0;
    assert(occurs_in(a, Place::FilterArg, a, Place::FilterArg));
    assert(occurs_in(a, Place::FilterArg, n, place));
    lemma_everywhere(s, a, Place::FilterArg, n, place);
}

/// Equals-sign strictness, of a parsed input. In every attribute with a key,
/// the key is followed at once by `=` and the `=` at once by the value: no
/// whitespace stands before or behind the `=`.
pub proof fn equals_sign_strictness(s: Seq<u8>, attrs: Seq<AttrModel>, i: int)
    requires
        parse_input(s) == Parsed::Match(attrs),
        0 <= i < attrs.len(),
        attrs[i].key is Some,
    ensures
        attrs[i].key->0.start_index == attrs[i].start_index,
        byte_is(s, attrs[i].key->0.end_index, EQUALS),
        attrs[i].value.token.start_index == attrs[i].key->0.end_index + 1,
        !is_space(s[attrs[i].key->0.end_index - 1]),
        !is_space(s[attrs[i].key->0.end_index + 1]),
{
    attributes_well_formed(s, attrs);
}

/// Equals-sign strictness, of rejected inputs. Where the whitespace and
/// comments from `from` on end at a key, and whitespace stands between the
/// key and its `=` or right behind the `=`, no attribute list is read from
/// `from` on: an input with such a key where an attribute is to begin does
/// not parse.
pub proof fn spaced_equals_rejected(
    s: Seq<u8>,
    from: int,
    pos: int,
    depth: nat,
    attrs: Seq<AttrModel>,
)
    requires
        0 <= from <= pos <= s.len(),
        trivia_end(s, from) == pos,
        key_end(s, pos) matches Some(e) && byte_is(s, trivia_end(s, e), EQUALS) && (class_at(
            s,
            e,
            ByteClass::Space,
        ) || (byte_is(s, e, EQUALS) && class_at(s, e + 1, ByteClass::Space))),
    ensures
        !(parse_attributes(s, from, depth, attrs) is Match),
        from == 0 && depth == MAX_DEPTH && attrs.len() == 0 ==> !(parse_input(s) is Match),
{
    let e = key_end(s, pos)->0;
    lemma_run_end(s, pos, ByteClass::Key);
    lemma_trivia_end(s, e);
    lemma_stuck_before(s, from, pos, e, depth, attrs);
    if attrs.len() == 0 {
        assert(attrs =~= Seq::empty());
    }
}

/// Children order. In every value `n` in the tree of a parsed input, the
/// children stand in source order inside the token of `n`, between its first
/// and its last byte; and only a list or a dict has children.
pub proof fn children_order_preservation(
    s: Seq<u8>,
    attrs: Seq<AttrModel>,
    i: int,
    n: ValueModel,
    place: Place,
)
    requires
        parse_input(s) == Parsed::Match(attrs),
        0 <= i < attrs.len(),
        occurs_in(n, place, attrs[i].value, Place::Attribute),
    ensures
        forall|k: int|
            0 <= k < n.children.len() ==> n.token.start_index < (
            #[trigger] n.children[k]).start_index < n.children[k].end_index
                < n.token.end_index,
        forall|j: int, k: int|
            0 <= j < k < n.children.len() ==> (#[trigger] n.children[j]).end_index <= (
            #[trigger] n.children[k]).start_index,
        n.children.len() > 0 ==> n.kind.is_collection(),
{
    attributes_well_formed(s, attrs);
    lemma_everywhere(s, n, place, attrs[i].value, Place::Attribute);
}

/// Character boundaries. In a parsed input that is valid UTF-8, every offset
/// of an attribute, of its key and of every value `n` in its tree, with the
/// token and the filters of `n`, is a character boundary of the input, and
/// every line and every column is at least 1.
pub proof fn offsets_on_character_boundaries(
    s: Seq<u8>,
    attrs: Seq<AttrModel>,
    i: int,
    n: ValueModel,
    place: Place,
)
    requires
        valid_utf8(s),
        parse_input(s) == Parsed::Match(attrs),
        0 <= i < attrs.len(),
        occurs_in(n, place, attrs[i].value, Place::Attribute),
    ensures
        span_on_boundaries(s, attrs[i].start_index, attrs[i].end_index, attrs[i].line_col),
        attrs[i].key matches Some(k) ==> span_on_boundaries(
            s,
            k.start_index,
            k.end_index,
            k.line_col,
        ),
        span_on_boundaries(s, n.start_index, n.end_index, n.line_col),
        span_on_boundaries(s, n.token.start_index, n.token.end_index, n.token.line_col),
        forall|j: int|
            0 <= j < n.filters.len() ==> {
                let f = #[trigger] n.filters[j];
                &&& span_on_boundaries(s, f.start_index, f.end_index, f.line_col)
                &&& span_on_boundaries(
                    s,
                    f.token.start_index,
                    f.token.end_index,
                    f.token.line_col,
                )
            },
{
    attributes_well_formed(s, attrs);
    lemma_everywhere(s, n, place, attrs[i].value, Place::Attribute);
    let a = attrs[i];
    lemma_ascii_boundaries(s, a.start_index, a.end_index);
    lemma_line_col_bounds(s, a.start_index);
    if let Some(k) = a.key {
        lemma_ascii_boundaries(s, k.start_index, k.end_index);
        lemma_line_col_bounds(s, k.start_index);
    }
    lemma_ascii_boundaries(s, n.start_index, n.end_index);
    lemma_ascii_boundaries(s, n.token.start_index, n.token.end_index);
    lemma_line_col_bounds(s, n.token.start_index);
    assert forall|j: int| 0 <= j < n.filters.len() implies {
        let f = #[trigger] n.filters[j];
        &&& span_on_boundaries(s, f.start_index, f.end_index, f.line_col)
        &&& span_on_boundaries(s, f.token.start_index, f.token.end_index, f.token.line_col)
    } by {
        let f = n.filters[j];
        lemma_ascii_boundaries(s, f.start_index, f.end_index);
        lemma_ascii_boundaries(s, f.token.start_index, f.token.end_index);
        lemma_line_col_bounds(s, f.start_index);
        lemma_line_col_bounds(s, f.token.start_index);
    }
}

/// The span from `start` up to `end` lies inside `s`, both offsets are
/// character boundaries of `s`, and line and column are at least 1.
pub open spec fn span_on_boundaries(
    s: Seq<u8>,
    start: int,
    end: int,
    line_col: (int, int),
) -> bool {
    &&& 0 <= start <= end <= s.len()
    &&& is_char_boundary(s, start)
    &&& is_char_boundary(s, end)
    &&& line_col.0 >= 1
    &&& line_col.1 >= 1
}

/// Scalar dict keys. In a parsed input no dict, at any depth, has a list or
/// a dict as a key.
pub proof fn keys_scalar_everywhere(s: Seq<u8>, attrs: Seq<AttrModel>)
    requires
        parse_input(s) == Parsed::Match(attrs),
    ensures
        all_keys_valid(attrs),
{
    attributes_well_formed(s, attrs);
    assert forall|i: int| 0 <= i < attrs.len() implies keys_valid((#[trigger] attrs[i]).value) by {
        lemma_keys_valid(s, attrs[i].value, Place::Attribute);
    }
}

/// Nesting limit. In every value of a parsed input, lists, dicts and filter
/// arguments nest at most [`MAX_DEPTH`] deep.
pub proof fn nesting_within_limit(s: Seq<u8>, attrs: Seq<AttrModel>, i: int)
    requires
        parse_input(s) == Parsed::Match(attrs),
        0 <= i < attrs.len(),
    ensures
        nests_within(attrs[i].value, MAX_DEPTH as nat),
{
    lemma_attributes(s, 0, MAX_DEPTH as nat, Seq::empty());
}

} // verus!
