//! Proof that every tree which the grammar yields has the shape of a
//! well-formed tree. The proof follows the grammar rule by rule.

use crate::ast::{AttrModel, FilterModel, ValueKind, ValueModel};
use crate::grammar::{
    as_argument, collection, dots_at, parse_attribute, parse_attributes, parse_bare, parse_basic,
    parse_dict_item, parse_dict_rest, parse_filter, parse_filter_arg, parse_filter_chain,
    parse_filtered, parse_keyed, parse_list_item, parse_list_rest, rule_bare, rule_dict_item,
    rule_dict_rest, rule_filter, rule_filter_arg, rule_filter_chain, rule_filtered, rule_list_item,
    rule_list_rest, with_filters, with_spread, Parsed,
};
use crate::lexical::{
    ascii_ends, byte_is, comments_end, is_space, key_end, lemma_behind_marker, lemma_comments_end,
    lemma_run_end, lemma_token_ends, lemma_trivia_end, name_end, trivia_end, ByteClass, CLOSE_BRACE,
    CLOSE_BRACKET, COLON, COMMA, EQUALS, OPEN_BRACE, OPEN_BRACKET, PIPE, STAR,
};
use crate::shape::{
    args_nest_within, attr_ok, child_place, filter_placed, in_order_between, is_dict_key,
    marker_fits, nests_within, ordered_behind, paired, tree_ok, Place,
};
use crate::source::{lemma_column_behind, lemma_line_col_bounds, line_col_at};
use vstd::prelude::*;

verus! {

/// What every value that the grammar reads at `pos` begins with: it starts at
/// `pos`, as its token does, carries the line and column of `pos`, has no
/// spread marker and is not empty.
pub open spec fn fresh(s: Seq<u8>, v: ValueModel, pos: int) -> bool {
    &&& v.start_index == pos
    &&& v.token.start_index == pos
    &&& v.line_col == line_col_at(s, pos)
    &&& v.spread is None
    &&& pos < v.token.end_index <= v.end_index <= s.len()
    &&& !is_space(s[pos])
    &&& s[pos] < 0x80
    &&& s[v.end_index - 1] < 0x80
}

/// What is added to the entries of a dict by one item: a spread entry, or a
/// key and a value.
pub open spec fn item_shape(added: Seq<ValueModel>) -> bool {
    ||| added.len() == 1 && added[0].spread == Some("**"@)
    ||| added.len() == 2 && added[0].spread is None && added[1].spread is None && is_dict_key(
        added[0],
    )
}

/// None of the filters has an argument.
pub open spec fn no_arguments(fs: Seq<FilterModel>) -> bool {
    forall|j: int| 0 <= j < fs.len() ==> (#[trigger] fs[j]).arg is None
}

/// The filters `fs` behind a token that ends at `base` are placed, ordered,
/// and have well-formed arguments.
pub open spec fn chain_ok(s: Seq<u8>, fs: Seq<FilterModel>, base: int) -> bool {
    &&& ordered_behind(fs, base)
    &&& forall|j: int|
        0 <= j < fs.len() ==> {
            &&& filter_placed(s, #[trigger] fs[j])
            &&& (fs[j].arg is Some ==> tree_ok(s, fs[j].arg->0, Place::FilterArg))
        }
}

/// A well-formed value without spread marker is well formed at any place.
pub proof fn lemma_place(s: Seq<u8>, v: ValueModel, place: Place)
    requires
        tree_ok(s, v, Place::Attribute),
        v.spread is None,
    ensures
        tree_ok(s, v, place),
{
    reveal(tree_ok);
}

/// A fresh well-formed value stays well formed behind the spread marker
/// that belongs to its place.
proof fn lemma_marked(s: Seq<u8>, v: ValueModel, marker: Seq<char>, width: int, place: Place)
    requires
        tree_ok(s, v, Place::Attribute),
        v.spread is None,
        0 <= width <= v.start_index,
        s[v.start_index - width] < 0x80,
        v.line_col.1 > width,
        marker_fits(place, Some(marker)),
    ensures
        tree_ok(s, with_spread(v, marker, width), place),
{
    reveal(tree_ok);
}

/// A fresh well-formed value stays well formed as a filter argument whose
/// span begins at or before the value.
proof fn lemma_argument(s: Seq<u8>, v: ValueModel, start: int)
    requires
        tree_ok(s, v, Place::Attribute),
        v.spread is None,
        0 <= start <= v.start_index,
        s[start] < 0x80,
    ensures
        tree_ok(s, as_argument(s, v, start), Place::FilterArg),
{
    reveal(tree_ok);
    lemma_line_col_bounds(s, start);
}

/// A well-formed value without filters is well formed with a chain of
/// well-formed filters behind its token.
proof fn lemma_filters(s: Seq<u8>, v: ValueModel, filters: Seq<FilterModel>)
    requires
        tree_ok(s, v, Place::Attribute),
        v.filters.len() == 0,
        v.spread is None,
        v.end_index == v.token.end_index,
        chain_ok(s, filters, v.token.end_index),
    ensures
        tree_ok(s, with_filters(v, filters), Place::Attribute),
{
    reveal(tree_ok);
}

/// A list or a dict of well-formed children, which pair up in a dict, is well
/// formed.
proof fn lemma_collection(
    s: Seq<u8>,
    kind: ValueKind,
    start: int,
    end: int,
    children: Seq<ValueModel>,
)
    requires
        kind.is_collection(),
        ascii_ends(s, start, end),
        kind == ValueKind::Dict ==> paired(children, 0),
        in_order_between(children, start + 1, end - 1),
        forall|i: int|
            0 <= i < children.len() ==> tree_ok(s, #[trigger] children[i], child_place(kind)),
    ensures
        tree_ok(s, collection(s, kind, start, end, children), Place::Attribute),
{
    reveal(tree_ok);
    lemma_line_col_bounds(s, start);
}

/// How deep a value nests goes by its kind, its children and its filters.
proof fn lemma_nests_alike(v: ValueModel, w: ValueModel, depth: nat)
    requires
        nests_within(v, depth),
        w.kind == v.kind,
        w.children == v.children,
        w.filters == v.filters,
    ensures
        nests_within(w, depth),
{
    reveal(nests_within);
}

/// A value without filters nests as deep as before with filters whose
/// arguments nest no deeper.
proof fn lemma_nests_filters(v: ValueModel, filters: Seq<FilterModel>, depth: nat)
    requires
        nests_within(v, depth),
        v.filters.len() == 0,
        args_nest_within(filters, depth),
    ensures
        nests_within(with_filters(v, filters), depth),
{
    reveal(nests_within);
}

/// A scalar without filters nests to any depth.
proof fn lemma_nests_leaf(v: ValueModel, depth: nat)
    requires
        !v.kind.is_collection(),
        v.children.len() == 0,
        v.filters.len() == 0,
    ensures
        nests_within(v, depth),
{
    reveal(nests_within);
}

/// A list or a dict nests one level deeper than its children.
proof fn lemma_nests_collection(
    s: Seq<u8>,
    kind: ValueKind,
    start: int,
    end: int,
    children: Seq<ValueModel>,
    depth: nat,
)
    requires
        depth > 0,
        forall|i: int|
            0 <= i < children.len() ==> nests_within(#[trigger] children[i], (depth - 1) as nat),
    ensures
        nests_within(collection(s, kind, start, end, children), depth),
{
    reveal(nests_within);
}

/// Entries that pair up still do with one more item behind them.
proof fn lemma_paired_append(entries: Seq<ValueModel>, added: Seq<ValueModel>, from: int)
    requires
        0 <= from <= entries.len(),
        paired(entries, from),
        item_shape(added),
    ensures
        paired(entries + added, from),
    decreases entries.len() - from,
{
    let all = entries + added;
    if from == entries.len() {
        if added.len() == 2 {
            assert(paired(all, from + 2));
        } else {
            assert(paired(all, from + 1));
        }
    } else {
        if entries[from].spread is Some {
            lemma_paired_append(entries, added, from + 1);
        } else {
            lemma_paired_append(entries, added, from + 2);
        }
    }
}

/// A fresh key and a fresh value are well formed as entries of a dict, and
/// have the shape of an item.
proof fn lemma_pair(s: Seq<u8>, key: ValueModel, v: ValueModel)
    requires
        tree_ok(s, key, Place::Attribute),
        tree_ok(s, v, Place::Attribute),
        key.spread is None,
        v.spread is None,
        is_dict_key(key),
    ensures
        item_shape(seq![key, v]),
        tree_ok(s, key, Place::DictEntry),
        tree_ok(s, v, Place::DictEntry),
{
    lemma_place(s, key, Place::DictEntry);
    lemma_place(s, v, Place::DictEntry);
}

/// A scalar that the grammar reads is fresh and well formed.
proof fn lemma_basic(s: Seq<u8>, pos: int)
    requires
        0 <= pos <= s.len(),
    ensures
        parse_basic(s, pos) matches Some(v) ==> fresh(s, v, pos) && tree_ok(
            s,
            v,
            Place::Attribute,
        ) && v.end_index == v.token.end_index && v.filters.len() == 0 && v.children.len() == 0
            && !v.kind.is_collection(),
{
    reveal(tree_ok);
    lemma_token_ends(s, pos);
    lemma_line_col_bounds(s, pos);
}

/// A filtered value that the grammar reads is fresh and well formed.
pub proof fn lemma_filtered(s: Seq<u8>, pos: int, with_args: bool, depth: nat)
    requires
        0 <= pos <= s.len(),
    ensures
        parse_filtered(s, pos, with_args, depth) matches Parsed::Match(v) ==> fresh(s, v, pos)
            && tree_ok(s, v, Place::Attribute) && nests_within(v, depth) && (!with_args
            ==> no_arguments(v.filters)),
    decreases s.len() - pos, 5int,
{
    rule_filtered(s, pos, with_args, depth);
    lemma_bare(s, pos, depth);
    if let Parsed::Match(bare) = parse_bare(s, pos, depth) {
        lemma_filter_chain(s, bare.end_index, with_args, depth, Seq::empty(), bare.end_index);
        if let Parsed::Match(fs) = parse_filter_chain(
            s,
            bare.end_index,
            with_args,
            depth,
            Seq::empty(),
        ) {
            lemma_filters(s, bare, fs);
            lemma_nests_filters(bare, fs, depth);
        }
    }
}

/// A list, dict or scalar that the grammar reads is fresh and well formed.
pub proof fn lemma_bare(s: Seq<u8>, pos: int, depth: nat)
    requires
        0 <= pos <= s.len(),
    ensures
        parse_bare(s, pos, depth) matches Parsed::Match(v) ==> fresh(s, v, pos) && tree_ok(
            s,
            v,
            Place::Attribute,
        ) && v.end_index == v.token.end_index && v.filters.len() == 0 && nests_within(v, depth),
    decreases s.len() - pos, 4int,
{
    rule_bare(s, pos, depth);
    if byte_is(s, pos, OPEN_BRACKET) {
        if depth > 0 {
            lemma_list_rest(s, pos + 1, (depth - 1) as nat, Seq::empty(), pos + 1);
            if let Parsed::Match((items, end)) = parse_list_rest(
                s,
                pos + 1,
                (depth - 1) as nat,
                Seq::empty(),
            ) {
                lemma_collection(s, ValueKind::List, pos, end, items);
                lemma_nests_collection(s, ValueKind::List, pos, end, items, depth);
            }
        }
    } else if byte_is(s, pos, OPEN_BRACE) {
        if depth > 0 {
            lemma_dict_rest(s, pos + 1, (depth - 1) as nat, Seq::empty(), pos + 1);
            if let Parsed::Match((entries, end)) = parse_dict_rest(
                s,
                pos + 1,
                (depth - 1) as nat,
                Seq::empty(),
            ) {
                lemma_collection(s, ValueKind::Dict, pos, end, entries);
                lemma_nests_collection(s, ValueKind::Dict, pos, end, entries, depth);
            }
        }
    } else {
        lemma_basic(s, pos);
        if let Some(v) = parse_basic(s, pos) {
            lemma_nests_leaf(v, depth);
        }
    }
}

/// The items of a list that the grammar reads are well formed and stand in
/// source order behind `first`, the position behind the `[`.
pub proof fn lemma_list_rest(s: Seq<u8>, pos: int, depth: nat, items: Seq<ValueModel>, first: int)
    requires
        0 <= first <= pos <= s.len(),
        in_order_between(items, first, pos),
        forall|i: int|
            0 <= i < items.len() ==> tree_ok(s, #[trigger] items[i], Place::ListItem)
                && nests_within(items[i], depth),
    ensures
        parse_list_rest(s, pos, depth, items) matches Parsed::Match((all, end)) ==> pos < end
            <= s.len() && byte_is(s, end - 1, CLOSE_BRACKET) && in_order_between(
            all,
            first,
            end - 1,
        ) && (forall|i: int|
            0 <= i < all.len() ==> tree_ok(s, #[trigger] all[i], Place::ListItem) && nests_within(
                all[i],
                depth,
            )),
    decreases s.len() - pos, 8int,
{
    rule_list_rest(s, pos, depth, items);
    lemma_trivia_end(s, pos);
    let at = trivia_end(s, pos);
    if !byte_is(s, at, CLOSE_BRACKET) {
        lemma_list_item(s, at, depth);
        if let Parsed::Match(v) = parse_list_item(s, at, depth) {
            lemma_trivia_end(s, v.end_index);
            let next = trivia_end(s, v.end_index);
            if byte_is(s, next, COMMA) {
                lemma_list_rest(s, next + 1, depth, items.push(v), first);
            }
        }
    }
}

/// A list item that the grammar reads is well formed.
pub proof fn lemma_list_item(s: Seq<u8>, pos: int, depth: nat)
    requires
        0 <= pos <= s.len(),
    ensures
        parse_list_item(s, pos, depth) matches Parsed::Match(v) ==> pos <= v.start_index
            < v.end_index <= s.len() && tree_ok(s, v, Place::ListItem) && nests_within(v, depth),
    decreases s.len() - pos, 6int,
{
    rule_list_item(s, pos, depth);
    if byte_is(s, pos, STAR) {
        lemma_comments_end(s, pos + 1);
        let at = comments_end(s, pos + 1);
        lemma_filtered(s, at, true, depth);
        if let Parsed::Match(v) = parse_filtered(s, at, true, depth) {
            lemma_behind_marker(s, pos + 1, 1);
            lemma_column_behind(s, at, 1);
            lemma_marked(s, v, "*"@, 1, Place::ListItem);
            lemma_nests_alike(v, with_spread(v, "*"@, 1), depth);
        }
    } else {
        lemma_filtered(s, pos, true, depth);
        if let Parsed::Match(v) = parse_filtered(s, pos, true, depth) {
            lemma_place(s, v, Place::ListItem);
        }
    }
}

/// The entries of a dict that the grammar reads are well formed, pair up and
/// stand in source order behind `first`, the position behind the `{`.
pub proof fn lemma_dict_rest(s: Seq<u8>, pos: int, depth: nat, entries: Seq<ValueModel>, first: int)
    requires
        0 <= first <= pos <= s.len(),
        in_order_between(entries, first, pos),
        forall|i: int|
            0 <= i < entries.len() ==> tree_ok(s, #[trigger] entries[i], Place::DictEntry)
                && nests_within(entries[i], depth),
        paired(entries, 0),
    ensures
        parse_dict_rest(s, pos, depth, entries) matches Parsed::Match((all, end)) ==> pos < end
            <= s.len() && byte_is(s, end - 1, CLOSE_BRACE) && paired(all, 0) && in_order_between(
            all,
            first,
            end - 1,
        ) && (forall|i: int|
            0 <= i < all.len() ==> tree_ok(s, #[trigger] all[i], Place::DictEntry)
                && nests_within(all[i], depth)),
    decreases s.len() - pos, 8int,
{
    rule_dict_rest(s, pos, depth, entries);
    lemma_trivia_end(s, pos);
    let at = trivia_end(s, pos);
    if !byte_is(s, at, CLOSE_BRACE) {
        lemma_dict_item(s, at, depth);
        if let Parsed::Match((added, end)) = parse_dict_item(s, at, depth) {
            lemma_trivia_end(s, end);
            lemma_paired_append(entries, added, 0);
            let next = trivia_end(s, end);
            if byte_is(s, next, COMMA) {
                lemma_dict_rest(s, next + 1, depth, entries + added, first);
            }
        }
    }
}

/// What a dict item adds is well formed and has the shape of an item.
proof fn lemma_dict_item(s: Seq<u8>, pos: int, depth: nat)
    requires
        0 <= pos <= s.len(),
    ensures
        parse_dict_item(s, pos, depth) matches Parsed::Match((added, end)) ==> pos < end
            <= s.len() && item_shape(added) && in_order_between(added, pos, end) && (forall|i: int|
            0 <= i < added.len() ==> tree_ok(s, #[trigger] added[i], Place::DictEntry)
                && nests_within(added[i], depth)),
    decreases s.len() - pos, 7int,
{
    rule_dict_item(s, pos, depth);
    if byte_is(s, pos, STAR) && byte_is(s, pos + 1, STAR) {
        lemma_dict_spread(s, pos, depth);
    } else {
        lemma_dict_pair(s, pos, depth);
    }
}

/// What the dict item `**value` adds is one well-formed entry marked `**`.
proof fn lemma_dict_spread(s: Seq<u8>, pos: int, depth: nat)
    requires
        0 <= pos <= s.len(),
        byte_is(s, pos, STAR) && byte_is(s, pos + 1, STAR),
    ensures
        parse_dict_item(s, pos, depth) matches Parsed::Match((added, end)) ==> pos < end
            <= s.len() && item_shape(added) && in_order_between(added, pos, end) && (forall|i: int|
            0 <= i < added.len() ==> tree_ok(s, #[trigger] added[i], Place::DictEntry)
                && nests_within(added[i], depth)),
    decreases s.len() - pos, 6int,
{
    rule_dict_item(s, pos, depth);
    lemma_comments_end(s, pos + 2);
    let at = comments_end(s, pos + 2);
    lemma_filtered(s, at, true, depth);
    if let Parsed::Match(v) = parse_filtered(s, at, true, depth) {
        lemma_behind_marker(s, pos + 2, 2);
        lemma_column_behind(s, at, 2);
        lemma_marked(s, v, "**"@, 2, Place::DictEntry);
        lemma_nests_alike(v, with_spread(v, "**"@, 2), depth);
    }
}

/// What the dict item `key: value` adds is two well-formed entries without
/// marker.
proof fn lemma_dict_pair(s: Seq<u8>, pos: int, depth: nat)
    requires
        0 <= pos <= s.len(),
        !(byte_is(s, pos, STAR) && byte_is(s, pos + 1, STAR)),
    ensures
        parse_dict_item(s, pos, depth) matches Parsed::Match((added, end)) ==> pos < end
            <= s.len() && item_shape(added) && in_order_between(added, pos, end) && (forall|i: int|
            0 <= i < added.len() ==> tree_ok(s, #[trigger] added[i], Place::DictEntry)
                && nests_within(added[i], depth)),
    decreases s.len() - pos, 6int,
{
    rule_dict_item(s, pos, depth);
    lemma_filtered(s, pos, false, depth);
    if let Parsed::Match(key) = parse_filtered(s, pos, false, depth) {
        lemma_trivia_end(s, key.end_index);
        let colon = trivia_end(s, key.end_index);
        if byte_is(s, colon, COLON) {
            lemma_trivia_end(s, colon + 1);
            let at = trivia_end(s, colon + 1);
            lemma_filtered(s, at, true, depth);
            if let Parsed::Match(v) = parse_filtered(s, at, true, depth) {
                if !key.kind.is_collection() {
                    lemma_pair(s, key, v);
                }
            }
        }
    }
}

/// The filters of a chain that the grammar reads are placed, ordered and have
/// well-formed arguments; the last of them ends inside the input.
pub proof fn lemma_filter_chain(
    s: Seq<u8>,
    pos: int,
    with_args: bool,
    depth: nat,
    filters: Seq<FilterModel>,
    base: int,
)
    requires
        0 <= base <= pos <= s.len(),
        chain_ok(s, filters, base),
        args_nest_within(filters, depth),
        !with_args ==> no_arguments(filters),
        filters.len() > 0 ==> filters.last().end_index == pos,
        filters.len() == 0 ==> base == pos,
    ensures
        parse_filter_chain(s, pos, with_args, depth, filters) matches Parsed::Match(all)
            ==> chain_ok(s, all, base) && args_nest_within(all, depth) && all.len()
            >= filters.len() && (all.len() == 0 ==> filters.len() == 0) && (!with_args
            ==> no_arguments(all)),
        !(parse_filter_chain(s, pos, with_args, depth, filters) is NoMatch),
    decreases s.len() - pos, 3int,
{
    rule_filter_chain(s, pos, with_args, depth, filters);
    lemma_trivia_end(s, pos);
    let at = trivia_end(s, pos);
    lemma_filter(s, at, with_args, depth);
    if let Parsed::Match(f) = parse_filter(s, at, with_args, depth) {
        lemma_filter_chain(s, f.end_index, with_args, depth, filters.push(f), base);
    }
}

/// A filter that the grammar reads at `pos` is placed and begins at `pos`;
/// its argument is well formed.
pub proof fn lemma_filter(s: Seq<u8>, pos: int, with_args: bool, depth: nat)
    requires
        0 <= pos <= s.len(),
    ensures
        parse_filter(s, pos, with_args, depth) matches Parsed::Match(f) ==> filter_placed(s, f)
            && f.start_index == pos && pos < f.end_index <= s.len() && (!with_args ==> f.arg
            is None) && (f.arg is Some ==> tree_ok(
            s,
            f.arg->0,
            Place::FilterArg,
        ) && depth > 0 && nests_within(f.arg->0, (depth - 1) as nat)),
    decreases s.len() - pos, 2int,
{
    rule_filter(s, pos, with_args, depth);
    if byte_is(s, pos, PIPE) {
        lemma_trivia_end(s, pos + 1);
        let name = trivia_end(s, pos + 1);
        lemma_token_ends(s, name);
        if let Some(e) = name_end(s, name, ByteClass::Name) {
            if with_args {
                lemma_filter_arg(s, e, depth);
            }
        }
    }
}

/// A filter argument that the grammar reads behind a name that ends at `pos`
/// is well formed; its span begins at the `:`.
pub proof fn lemma_filter_arg(s: Seq<u8>, pos: int, depth: nat)
    requires
        0 <= pos <= s.len(),
    ensures
        parse_filter_arg(s, pos, depth) matches Parsed::Match(a) ==> pos <= a.start_index
            < a.token.start_index < a.end_index <= s.len() && byte_is(s, a.start_index, COLON)
            && a.line_col == line_col_at(s, a.start_index) && s[a.end_index - 1] < 0x80 && tree_ok(
            s,
            a,
            Place::FilterArg,
        ) && depth > 0 && nests_within(a, (depth - 1) as nat),
    decreases s.len() - pos, 1int,
{
    rule_filter_arg(s, pos, depth);
    lemma_trivia_end(s, pos);
    let colon = trivia_end(s, pos);
    if byte_is(s, colon, COLON) && depth > 0 {
        lemma_trivia_end(s, colon + 1);
        let at = trivia_end(s, colon + 1);
        lemma_filtered(s, at, true, (depth - 1) as nat);
        if let Parsed::Match(v) = parse_filtered(s, at, true, (depth - 1) as nat) {
            lemma_argument(s, v, colon);
            lemma_nests_alike(v, as_argument(s, v, colon), (depth - 1) as nat);
        }
    }
}

/// An attribute that the grammar reads at `pos` is well formed and begins at
/// `pos`.
pub proof fn lemma_attribute(s: Seq<u8>, pos: int, depth: nat)
    requires
        0 <= pos <= s.len(),
    ensures
        parse_attribute(s, pos, depth) matches Parsed::Match(a) ==> attr_ok(s, a) && a.start_index
            == pos && nests_within(a.value, depth),
{
    lemma_token_ends(s, pos);
    if let Some(e) = key_end(s, pos) {
        lemma_run_end(s, pos, ByteClass::Key);
        if byte_is(s, e, EQUALS) {
            lemma_filtered(s, e + 1, true, depth);
        }
    }
    if parse_keyed(s, pos, depth) is NoMatch {
        if dots_at(s, pos) {
            lemma_filtered(s, pos + 3, true, depth);
            if let Parsed::Match(v) = parse_filtered(s, pos + 3, true, depth) {
                lemma_column_behind(s, pos + 3, 3);
                lemma_marked(s, v, "..."@, 3, Place::Attribute);
                lemma_nests_alike(v, with_spread(v, "..."@, 3), depth);
            }
        }
        lemma_filtered(s, pos, true, depth);
    }
}

/// The attributes that the grammar reads from `pos` on are well formed and
/// stand in source order.
pub proof fn lemma_attributes(s: Seq<u8>, pos: int, depth: nat, attrs: Seq<AttrModel>)
    requires
        0 <= pos <= s.len(),
        forall|i: int|
            0 <= i < attrs.len() ==> attr_ok(s, #[trigger] attrs[i]) && nests_within(
                attrs[i].value,
                depth,
            ),
        forall|i: int, j: int|
            0 <= i < j < attrs.len() ==> (#[trigger] attrs[i]).end_index <= (
            #[trigger] attrs[j]).start_index,
        attrs.len() > 0 ==> attrs.last().end_index <= pos,
    ensures
        parse_attributes(s, pos, depth, attrs) matches Parsed::Match(all) ==> (forall|i: int|
            0 <= i < all.len() ==> attr_ok(s, #[trigger] all[i]) && nests_within(
                all[i].value,
                depth,
            )) && (forall|i: int, j: int|
            0 <= i < j < all.len() ==> (#[trigger] all[i]).end_index <= (
            #[trigger] all[j]).start_index),
    decreases s.len() - pos,
{
    lemma_trivia_end(s, pos);
    let at = trivia_end(s, pos);
    if at < s.len() {
        lemma_attribute(s, at, depth);
        if let Parsed::Match(a) = parse_attribute(s, at, depth) {
            lemma_attributes(s, a.end_index, depth, attrs.push(a));
        }
    }
}

} // verus!
