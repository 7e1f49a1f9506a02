//! The parser: executable functions that read the grammar from a [`Source`]
//! and build the syntax tree.

use crate::ast::{
    attrs_view, depth_message, dict_key_message, filters_view, grammar_message, lemma_filter_view,
    lemma_value_view, values_view, FilterModel, ParseError, TagAttr, TagToken, TagValue,
    TagValueFilter, ValueKind, ValueModel,
};
use crate::dynamic::{has_dynamic_expression, string_kind};
use crate::grammar::{
    collection, first_quote, last_byte, leaf, parse_attribute, parse_attributes, parse_bare,
    parse_basic, parse_dict_item, parse_dict_rest, parse_filter, parse_filter_arg,
    parse_filter_chain, parse_filtered, parse_input, parse_key, parse_keyed, parse_list_item,
    parse_list_rest, parse_spread, rule_bare, rule_dict_item, rule_dict_rest, rule_filter,
    rule_filter_arg, rule_filter_chain, rule_filtered, rule_list_item, rule_list_rest, token_at,
    translation_text, with_spread, MAX_DEPTH, Parsed,
};
use crate::grammar_shape::{
    chain_ok, lemma_attribute, lemma_dict_rest, lemma_filter_chain, lemma_filtered, lemma_list_rest,
    lemma_place,
};
use crate::laws::{attributes_well_formed, keys_scalar_everywhere};
use crate::lexical::{
    byte_is, has_byte, is_quote, lemma_behind_marker, scan_float, scan_int, scan_key, scan_name,
    scan_string, scan_translation, skip_comments, skip_trivia, ByteClass, CLOSE_BRACE,
    CLOSE_BRACKET, COLON, COMMA, DOT, DOUBLE_QUOTE, EQUALS, OPEN_BRACE, OPEN_BRACKET, PIPE,
    SINGLE_QUOTE, STAR,
};
use crate::shape::{
    all_keys_valid, attr_ok, each_ok, is_dict_key, keys_scalar, keys_valid, lemma_everywhere,
    lemma_keys_valid, lemma_paired_keys, paired, tree_ok, Place,
};
use crate::source::{lemma_ascii_boundaries, lemma_column_behind, line_col_at, Source};
use vstd::prelude::*;
use vstd::string::{StringExecFns, StringSliceAdditionalSpecFns};
use vstd::utf8::decode_utf8_encode_utf8;

verus! {

/// The parser of attribute lists.
pub struct TagParser;

/// Finds the first quote from `pos` up to `end`.
fn find_first_quote(bytes: &[u8], pos: usize, end: usize) -> (r: usize)
    requires
        pos <= end <= bytes@.len(),
        exists|q: int| pos <= q < end && is_quote(#[trigger] bytes@[q]),
    ensures
        r == first_quote(bytes@, pos as int, end as int),
        pos <= r < end,
        is_quote(bytes@[r as int]),
{
    let mut i: usize = pos;
    while i < end && !(bytes[i] == SINGLE_QUOTE || bytes[i] == DOUBLE_QUOTE)
        invariant
            pos <= i <= end <= bytes@.len(),
            first_quote(bytes@, pos as int, end as int) == first_quote(
                bytes@,
                i as int,
                end as int,
            ),
            exists|q: int| i <= q < end && is_quote(#[trigger] bytes@[q]),
        decreases end - i,
    {
        i += 1;
    }
    i
}

/// Finds the last byte `b` from `pos` up to `end`, where `b` stands at `pos`.
fn find_last_byte(bytes: &[u8], pos: usize, end: usize, b: u8) -> (r: usize)
    requires
        pos < end <= bytes@.len(),
        bytes@[pos as int] == b,
    ensures
        r == last_byte(bytes@, pos as int, end as int, b),
        pos <= r < end,
        bytes@[r as int] == b,
{
    let mut j: usize = end;
    while bytes[j - 1] != b
        invariant
            pos < j <= end <= bytes@.len(),
            bytes@[pos as int] == b,
            last_byte(bytes@, pos as int, end as int, b) == last_byte(
                bytes@,
                pos as int,
                j as int,
                b,
            ),
        decreases j - pos,
    {
        j -= 1;
    }
    j - 1
}

/// The models of what a dict item holds: one value, or a key and a value.
pub open spec fn item_models(first: TagValue, second: Option<TagValue>) -> Seq<ValueModel> {
    match second {
        Some(v) => seq![first@, v@],
        None => seq![first@],
    }
}

/// The model of what reading the rest of a list or dict gave: the models of
/// the entries, and where the list or dict ends.
pub open spec fn entries_model(
    r: Parsed<(Vec<TagValue>, usize)>,
) -> Parsed<(Seq<ValueModel>, int)> {
    match r {
        Parsed::Match((entries, end)) => Parsed::Match((values_view(entries@), end as int)),
        Parsed::NoMatch => Parsed::NoMatch,
        Parsed::TooDeep => Parsed::TooDeep,
        Parsed::InvalidKey => Parsed::InvalidKey,
    }
}

/// The model of what reading a dict item gave: the models of what the item
/// holds, and where it ends.
pub open spec fn item_model(
    r: Parsed<(TagValue, Option<TagValue>, usize)>,
) -> Parsed<(Seq<ValueModel>, int)> {
    match r {
        Parsed::Match((first, second, end)) => Parsed::Match(
            (item_models(first, second), end as int),
        ),
        Parsed::NoMatch => Parsed::NoMatch,
        Parsed::TooDeep => Parsed::TooDeep,
        Parsed::InvalidKey => Parsed::InvalidKey,
    }
}

/// The model of what reading a filter chain gave: the models of the filters.
pub open spec fn chain_model(r: Parsed<(Vec<TagValueFilter>, usize)>) -> Parsed<Seq<FilterModel>> {
    match r {
        Parsed::Match((filters, _)) => Parsed::Match(filters_view(filters@)),
        Parsed::NoMatch => Parsed::NoMatch,
        Parsed::TooDeep => Parsed::TooDeep,
        Parsed::InvalidKey => Parsed::InvalidKey,
    }
}

/// Builds a value without children, filters or spread marker.
fn leaf_value(kind: ValueKind, token: TagToken) -> (v: TagValue)
    ensures
        v@ == leaf(kind, token@),
        v.start_index == token.start_index,
        v.end_index == token.end_index,
{
    let start_index: usize = token.start_index;
    let end_index: usize = token.end_index;
    let line_col: (usize, usize) = (token.line_col.0, token.line_col.1);
    let v = TagValue {
        token,
        children: Vec::new(),
        kind,
        spread: None,
        filters: Vec::new(),
        start_index,
        end_index,
        line_col,
    };
    proof {
        lemma_value_view(v);
        assert(values_view(v.children@) =~= Seq::empty());
        assert(filters_view(v.filters@) =~= Seq::empty());
    }
    v
}

impl TagParser {
    /// Reads the token that spans `start` up to `end`.
    fn token(src: &Source, start: usize, end: usize) -> (t: TagToken)
        requires
            src.wf(),
            start < end <= src.bytes().len(),
            src.bytes()[start as int] < 0x80,
            src.bytes()[end - 1] < 0x80,
        ensures
            t@ == token_at(src.bytes(), start as int, end as int),
            t.start_index == start,
            t.end_index == end,
    {
        proof {
            src.lemma_valid();
            lemma_ascii_boundaries(src.bytes(), start as int, end as int);
        }
        TagToken {
            token: src.text_between(start, end),
            start_index: start,
            end_index: end,
            line_col: src.line_col(start),
        }
    }

    /// The text of the translation string that spans `start` up to `end`.
    fn translation_token(src: &Source, start: usize, end: usize) -> (r: String)
        requires
            src.wf(),
            start <= end <= src.bytes().len(),
            exists|q: int| start <= q < end && is_quote(#[trigger] src.bytes()[q]),
        ensures
            r@ == translation_text(src.bytes(), start as int, end as int),
    {
        let bytes = src.as_bytes();
        let open: usize = find_first_quote(bytes, start, end);
        let close: usize = find_last_byte(bytes, open, end, bytes[open]);
        proof {
            src.lemma_valid();
            lemma_ascii_boundaries(src.bytes(), open as int, close + 1);
        }
        let quoted = src.text_between(open, close + 1);
        let mut text = String::from_str("_(");
        text.append(quoted.as_str());
        text.append(")");
        proof {
            reveal_strlit("_(");
            reveal_strlit(")");
        }
        text
    }

    /// Reads a scalar value at `pos`: a translation string, a string literal, a
    /// float, an integer or a variable, whichever matches first.
    pub fn process_basic_value(src: &Source, pos: usize) -> (r: Option<TagValue>)
        requires
            src.wf(),
            pos <= src.bytes().len(),
        ensures
            r matches Some(v) ==> parse_basic(src.bytes(), pos as int) == Some(v@) && pos
                < v.end_index <= src.bytes().len(),
            r is None ==> parse_basic(src.bytes(), pos as int) is None,
    {
        let bytes = src.as_bytes();
        if let Some(e) = scan_translation(bytes, pos) {
            let text = Self::translation_token(src, pos, e);
            let token = TagToken {
                token: text,
                start_index: pos,
                end_index: e,
                line_col: src.line_col(pos),
            };
            Some(leaf_value(ValueKind::Translation, token))
        } else if let Some(e) = scan_string(bytes, pos) {
            let token = Self::token(src, pos, e);
            proof {
                src.lemma_valid();
                lemma_ascii_boundaries(src.bytes(), pos as int, e as int);
                decode_utf8_encode_utf8(src.bytes().subrange(pos as int, e as int));
            }
            let dynamic: bool = has_dynamic_expression(token.token.as_str());
            Some(leaf_value(string_kind(dynamic), token))
        } else if let Some(e) = scan_float(bytes, pos) {
            Some(leaf_value(ValueKind::Float, Self::token(src, pos, e)))
        } else if let Some(e) = scan_int(bytes, pos) {
            Some(leaf_value(ValueKind::Int, Self::token(src, pos, e)))
        } else if let Some(e) = scan_name(bytes, pos, ByteClass::Variable) {
            Some(leaf_value(ValueKind::Variable, Self::token(src, pos, e)))
        } else {
            None
        }
    }

    /// Puts the spread marker `marker`, which is `width` bytes wide, in front
    /// of `v`: the value begins `width` bytes and columns earlier.
    fn mark_spread(v: TagValue, marker: &str, width: usize) -> (r: TagValue)
        requires
            width <= v.start_index,
            width < v.line_col.1,
        ensures
            r@ == with_spread(v@, marker@, width as int),
            r.end_index == v.end_index,
    {
        let mut r = v;
        r.spread = Some(String::from_str(marker));
        r.start_index = r.start_index - width;
        r.line_col = (r.line_col.0, r.line_col.1 - width);
        proof {
            lemma_value_view(v);
            lemma_value_view(r);
        }
        r
    }

    /// Reads a value at `pos` with the filter chain that follows it. Filters
    /// take arguments where `with_args` holds. Lists, dicts and filter
    /// arguments may nest `depth` deep below the value.
    pub fn process_filtered_value(
        src: &Source,
        pos: usize,
        with_args: bool,
        depth: usize,
    ) -> (r: Parsed<TagValue>)
        requires
            src.wf(),
            pos <= src.bytes().len(),
        ensures
            r@ == parse_filtered(src.bytes(), pos as int, with_args, depth as nat),
            r matches Parsed::Match(v) ==> pos < v.end_index <= src.bytes().len()
                && v.start_index == pos && v@.line_col == line_col_at(src.bytes(), pos as int)
                && tree_ok(src.bytes(), v@, Place::Attribute) && keys_valid(v@),
        decreases src.bytes().len() - pos, 5int,
    {
        proof {
            rule_filtered(src.bytes(), pos as int, with_args, depth as nat);
            lemma_filtered(src.bytes(), pos as int, with_args, depth as nat);
            if let Parsed::Match(v) = parse_filtered(
                src.bytes(),
                pos as int,
                with_args,
                depth as nat,
            ) {
                lemma_keys_valid(src.bytes(), v, Place::Attribute);
            }
        }
        match Self::process_value(src, pos, depth) {
            Parsed::Match(bare) => {
                match Self::process_filters(src, bare.end_index, with_args, depth) {
                    Parsed::Match((filters, end)) => {
                        let mut v = bare;
                        v.filters = filters;
                        v.end_index = end;
                        proof {
                            lemma_value_view(bare);
                            lemma_value_view(v);
                        }
                        Parsed::Match(v)
                    },
                    other => other.failed(),
                }
            },
            other => other.failed(),
        }
    }

    /// Reads a dict key at `pos`: a scalar with a chain of filters that take
    /// no arguments. A list or a dict in its place is an invalid key.
    pub fn process_filtered_basic_value(
        src: &Source,
        pos: usize,
        depth: usize,
    ) -> (r: Parsed<TagValue>)
        requires
            src.wf(),
            pos <= src.bytes().len(),
        ensures
            r@ == parse_key(src.bytes(), pos as int, depth as nat),
            r matches Parsed::Match(v) ==> pos < v.end_index <= src.bytes().len()
                && v.start_index == pos && v@.line_col == line_col_at(src.bytes(), pos as int)
                && is_dict_key(v@) && v@.children.len() == 0 && tree_ok(
                src.bytes(),
                v@,
                Place::DictEntry,
            ),
        decreases src.bytes().len() - pos, 6int,
    {
        match Self::process_filtered_value(src, pos, false, depth) {
            Parsed::Match(key) => {
                match key.kind {
                    ValueKind::List | ValueKind::Dict => Parsed::InvalidKey,
                    _ => {
                        proof {
                            lemma_filtered(src.bytes(), pos as int, false, depth as nat);
                            lemma_place(src.bytes(), key@, Place::DictEntry);
                            lemma_everywhere(
                                src.bytes(),
                                key@,
                                Place::DictEntry,
                                key@,
                                Place::DictEntry,
                            );
                            lemma_value_view(key);
                        }
                        Parsed::Match(key)
                    },
                }
            },
            other => other.failed(),
        }
    }

    /// Reads a list, a dict or a scalar at `pos`, without filters.
    fn process_value(src: &Source, pos: usize, depth: usize) -> (r: Parsed<TagValue>)
        requires
            src.wf(),
            pos <= src.bytes().len(),
        ensures
            r@ == parse_bare(src.bytes(), pos as int, depth as nat),
            r matches Parsed::Match(v) ==> pos < v.end_index <= src.bytes().len()
                && v.start_index == pos && v@.line_col == line_col_at(src.bytes(), pos as int),
        decreases src.bytes().len() - pos, 4int,
    {
        proof {
            rule_bare(src.bytes(), pos as int, depth as nat);
        }
        let bytes = src.as_bytes();
        if has_byte(bytes, pos, OPEN_BRACKET) {
            if depth == 0 {
                return Parsed::TooDeep;
            }
            match Self::process_list(src, pos + 1, depth - 1) {
                Parsed::Match((items, end)) => Parsed::Match(
                    Self::collection_value(src, ValueKind::List, pos, end, items),
                ),
                other => other.failed(),
            }
        } else if has_byte(bytes, pos, OPEN_BRACE) {
            if depth == 0 {
                return Parsed::TooDeep;
            }
            match Self::process_dict(src, pos + 1, depth - 1) {
                Parsed::Match((entries, end)) => Parsed::Match(
                    Self::collection_value(src, ValueKind::Dict, pos, end, entries),
                ),
                other => other.failed(),
            }
        } else {
            match Self::process_basic_value(src, pos) {
                Some(v) => Parsed::Match(v),
                None => Parsed::NoMatch,
            }
        }
    }

    /// Builds the list or dict that spans `start` up to `end`.
    fn collection_value(
        src: &Source,
        kind: ValueKind,
        start: usize,
        end: usize,
        children: Vec<TagValue>,
    ) -> (v: TagValue)
        requires
            src.wf(),
            start < end <= src.bytes().len(),
            src.bytes()[start as int] < 0x80,
            src.bytes()[end - 1] < 0x80,
        ensures
            v@ == collection(src.bytes(), kind, start as int, end as int, values_view(children@)),
            v.start_index == start,
            v.end_index == end,
    {
        let token = Self::token(src, start, end);
        let v = TagValue {
            token,
            children,
            kind,
            spread: None,
            filters: Vec::new(),
            start_index: start,
            end_index: end,
            line_col: src.line_col(start),
        };
        proof {
            lemma_value_view(v);
            assert(filters_view(v.filters@) =~= Seq::empty());
        }
        v
    }

    /// Reads the rest of a list from `pos`, behind its `[`: the items and the
    /// position behind the closing `]`.
    pub fn process_list(
        src: &Source,
        pos: usize,
        depth: usize,
    ) -> (r: Parsed<(Vec<TagValue>, usize)>)
        requires
            src.wf(),
            pos <= src.bytes().len(),
        ensures
            entries_model(r) == parse_list_rest(
                src.bytes(),
                pos as int,
                depth as nat,
                Seq::empty(),
            ),
            r matches Parsed::Match((items, end)) ==> pos < end <= src.bytes().len()
                && src.bytes()[end - 1] == CLOSE_BRACKET && each_ok(
                src.bytes(),
                values_view(items@),
                Place::ListItem,
            ),
        decreases src.bytes().len() - pos, 8int,
    {
        let bytes = src.as_bytes();
        let mut items: Vec<TagValue> = Vec::new();
        let mut cur: usize = pos;
        assert(values_view(items@) =~= Seq::empty());
        proof {
            lemma_list_rest(src.bytes(), pos as int, depth as nat, Seq::empty(), pos as int);
        }
        loop
            invariant
                src.wf(),
                parse_list_rest(
                    src.bytes(),
                    pos as int,
                    depth as nat,
                    Seq::empty(),
                ) matches Parsed::Match((all, _)) ==> each_ok(src.bytes(), all, Place::ListItem),
                bytes@ == src.bytes(),
                src.bytes().len() <= usize::MAX,
                pos <= cur <= src.bytes().len(),
                parse_list_rest(src.bytes(), pos as int, depth as nat, Seq::empty())
                    == parse_list_rest(
                    src.bytes(),
                    cur as int,
                    depth as nat,
                    values_view(items@),
                ),
            decreases src.bytes().len() - cur,
        {
            proof {
                rule_list_rest(src.bytes(), cur as int, depth as nat, values_view(items@));
            }
            let at: usize = skip_trivia(bytes, cur);
            if has_byte(bytes, at, CLOSE_BRACKET) {
                return Parsed::Match((items, at + 1));
            }
            match Self::process_list_item(src, at, depth) {
                Parsed::Match(v) => {
                    let next: usize = skip_trivia(bytes, v.end_index);
                    let ghost before = values_view(items@);
                    if has_byte(bytes, next, COMMA) {
                        items.push(v);
                        assert(values_view(items@) =~= before.push(v@));
                        cur = next + 1;
                    } else if has_byte(bytes, next, CLOSE_BRACKET) {
                        items.push(v);
                        assert(values_view(items@) =~= before.push(v@));
                        return Parsed::Match((items, next + 1));
                    } else {
                        return Parsed::NoMatch;
                    }
                },
                other => {
                    return other.failed();
                },
            }
        }
    }

    /// Reads a list item at `pos`: a filtered value, or `*`, comments and a
    /// filtered value.
    fn process_list_item(src: &Source, pos: usize, depth: usize) -> (r: Parsed<TagValue>)
        requires
            src.wf(),
            pos <= src.bytes().len(),
        ensures
            r@ == parse_list_item(src.bytes(), pos as int, depth as nat),
            r matches Parsed::Match(v) ==> pos < v.end_index <= src.bytes().len(),
        decreases src.bytes().len() - pos, 7int,
    {
        proof {
            rule_list_item(src.bytes(), pos as int, depth as nat);
        }
        let bytes = src.as_bytes();
        if has_byte(bytes, pos, STAR) {
            let at: usize = skip_comments(bytes, pos + 1);
            match Self::process_filtered_value(src, at, true, depth) {
                Parsed::Match(v) => {
                    proof {
                        lemma_behind_marker(src.bytes(), pos + 1, 1);
                        lemma_column_behind(src.bytes(), at as int, 1);
                    }
                    Parsed::Match(Self::mark_spread(v, "*", 1))
                },
                other => other.failed(),
            }
        } else {
            Self::process_filtered_value(src, pos, true, depth)
        }
    }

    /// Reads the rest of a dict from `pos`, behind its `{`: the keys and
    /// values, flattened in source order, and the position behind the closing
    /// `}`. Every key is a scalar whose filters have no arguments; a list or a
    /// dict in the place of a key is an invalid key.
    pub fn process_dict(
        src: &Source,
        pos: usize,
        depth: usize,
    ) -> (r: Parsed<(Vec<TagValue>, usize)>)
        requires
            src.wf(),
            pos <= src.bytes().len(),
        ensures
            entries_model(r) == parse_dict_rest(
                src.bytes(),
                pos as int,
                depth as nat,
                Seq::empty(),
            ),
            r matches Parsed::Match((entries, end)) ==> pos < end <= src.bytes().len()
                && src.bytes()[end - 1] == CLOSE_BRACE && each_ok(
                src.bytes(),
                values_view(entries@),
                Place::DictEntry,
            ) && paired(values_view(entries@), 0) && keys_scalar(values_view(entries@), 0),
        decreases src.bytes().len() - pos, 9int,
    {
        let bytes = src.as_bytes();
        let mut entries: Vec<TagValue> = Vec::new();
        let mut cur: usize = pos;
        assert(values_view(entries@) =~= Seq::empty());
        proof {
            lemma_dict_rest(src.bytes(), pos as int, depth as nat, Seq::empty(), pos as int);
            if let Parsed::Match((all, _)) = parse_dict_rest(
                src.bytes(),
                pos as int,
                depth as nat,
                Seq::empty(),
            ) {
                lemma_paired_keys(all, 0);
            }
        }
        loop
            invariant
                src.wf(),
                parse_dict_rest(
                    src.bytes(),
                    pos as int,
                    depth as nat,
                    Seq::empty(),
                ) matches Parsed::Match((all, _)) ==> each_ok(src.bytes(), all, Place::DictEntry)
                    && paired(all, 0) && keys_scalar(all, 0),
                bytes@ == src.bytes(),
                src.bytes().len() <= usize::MAX,
                pos <= cur <= src.bytes().len(),
                parse_dict_rest(src.bytes(), pos as int, depth as nat, Seq::empty())
                    == parse_dict_rest(
                    src.bytes(),
                    cur as int,
                    depth as nat,
                    values_view(entries@),
                ),
            decreases src.bytes().len() - cur,
        {
            proof {
                rule_dict_rest(src.bytes(), cur as int, depth as nat, values_view(entries@));
            }
            let at: usize = skip_trivia(bytes, cur);
            if has_byte(bytes, at, CLOSE_BRACE) {
                return Parsed::Match((entries, at + 1));
            }
            match Self::process_dict_item(src, at, depth) {
                Parsed::Match((first, second, end)) => {
                    let next: usize = skip_trivia(bytes, end);
                    let ghost before = values_view(entries@);
                    let ghost added = item_models(first, second);
                    entries.push(first);
                    match second {
                        Some(v) => {
                            entries.push(v);
                        },
                        None => {},
                    }
                    assert(values_view(entries@) =~= before + added);
                    if has_byte(bytes, next, COMMA) {
                        cur = next + 1;
                    } else if has_byte(bytes, next, CLOSE_BRACE) {
                        return Parsed::Match((entries, next + 1));
                    } else {
                        return Parsed::NoMatch;
                    }
                },
                other => {
                    return other.failed();
                },
            }
        }
    }

    /// Reads a dict item at `pos`: one value for `**value`, a key and a value
    /// for `key: value`. Returns them with the position where the item ends.
    fn process_dict_item(
        src: &Source,
        pos: usize,
        depth: usize,
    ) -> (r: Parsed<(TagValue, Option<TagValue>, usize)>)
        requires
            src.wf(),
            pos <= src.bytes().len(),
        ensures
            item_model(r) == parse_dict_item(src.bytes(), pos as int, depth as nat),
            r matches Parsed::Match((_, _, end)) ==> pos < end <= src.bytes().len(),
        decreases src.bytes().len() - pos, 8int,
    {
        proof {
            rule_dict_item(src.bytes(), pos as int, depth as nat);
        }
        let bytes = src.as_bytes();
        if has_byte(bytes, pos, STAR) && has_byte(bytes, pos + 1, STAR) {
            Self::process_dict_spread(src, pos, depth)
        } else {
            Self::process_dict_pair(src, pos, depth)
        }
    }

    /// Reads the dict item `**value` at `pos`.
    fn process_dict_spread(
        src: &Source,
        pos: usize,
        depth: usize,
    ) -> (r: Parsed<(TagValue, Option<TagValue>, usize)>)
        requires
            src.wf(),
            pos <= src.bytes().len(),
            byte_is(src.bytes(), pos as int, STAR),
            byte_is(src.bytes(), pos + 1, STAR),
        ensures
            item_model(r) == parse_dict_item(src.bytes(), pos as int, depth as nat),
            r matches Parsed::Match((_, _, end)) ==> pos < end <= src.bytes().len(),
        decreases src.bytes().len() - pos, 7int,
    {
        proof {
            rule_dict_item(src.bytes(), pos as int, depth as nat);
        }
        let bytes = src.as_bytes();
        let at: usize = skip_comments(bytes, pos + 2);
        match Self::process_filtered_value(src, at, true, depth) {
            Parsed::Match(v) => {
                proof {
                    lemma_behind_marker(src.bytes(), pos + 2, 2);
                    lemma_column_behind(src.bytes(), at as int, 2);
                }
                let end: usize = v.end_index;
                Parsed::Match((Self::mark_spread(v, "**", 2), None, end))
            },
            other => other.failed(),
        }
    }

    /// Reads the dict item `key: value` at `pos`. A list or a dict in the place
    /// of the key is an invalid key.
    fn process_dict_pair(
        src: &Source,
        pos: usize,
        depth: usize,
    ) -> (r: Parsed<(TagValue, Option<TagValue>, usize)>)
        requires
            src.wf(),
            pos <= src.bytes().len(),
            !(byte_is(src.bytes(), pos as int, STAR) && byte_is(src.bytes(), pos + 1, STAR)),
        ensures
            item_model(r) == parse_dict_item(src.bytes(), pos as int, depth as nat),
            r matches Parsed::Match((_, _, end)) ==> pos < end <= src.bytes().len(),
        decreases src.bytes().len() - pos, 7int,
    {
        proof {
            rule_dict_item(src.bytes(), pos as int, depth as nat);
        }
        let bytes = src.as_bytes();
        match Self::process_filtered_basic_value(src, pos, depth) {
            Parsed::Match(key) => {
                let colon: usize = skip_trivia(bytes, key.end_index);
                if !has_byte(bytes, colon, COLON) {
                    return Parsed::NoMatch;
                }
                let at: usize = skip_trivia(bytes, colon + 1);
                match Self::process_filtered_value(src, at, true, depth) {
                    Parsed::Match(v) => {
                        let end: usize = v.end_index;
                        Parsed::Match((key, Some(v), end))
                    },
                    other => other.failed(),
                }
            },
            other => other.failed(),
        }
    }

    /// Reads the filter chain from `pos` on: the filters in source order, and
    /// the position where the last of them ends, which is `pos` without one.
    /// Filters take arguments where `with_args` holds. A chain always
    /// matches, unless it nests too deep.
    pub fn process_filters(
        src: &Source,
        pos: usize,
        with_args: bool,
        depth: usize,
    ) -> (r: Parsed<(Vec<TagValueFilter>, usize)>)
        requires
            src.wf(),
            pos <= src.bytes().len(),
        ensures
            chain_model(r) == parse_filter_chain(
                src.bytes(),
                pos as int,
                with_args,
                depth as nat,
                Seq::empty(),
            ),
            !(r is NoMatch),
            r matches Parsed::Match((filters, end)) ==> pos <= end <= src.bytes().len() && end == (
            if filters@.len() > 0 {
                filters@.last().end_index as int
            } else {
                pos as int
            }) && chain_ok(src.bytes(), filters_view(filters@), pos as int),
        decreases src.bytes().len() - pos, 3int,
    {
        let bytes = src.as_bytes();
        let mut filters: Vec<TagValueFilter> = Vec::new();
        let mut cur: usize = pos;
        assert(filters_view(filters@) =~= Seq::empty());
        proof {
            lemma_filter_chain(
                src.bytes(),
                pos as int,
                with_args,
                depth as nat,
                Seq::empty(),
                pos as int,
            );
        }
        loop
            invariant
                src.wf(),
                parse_filter_chain(
                    src.bytes(),
                    pos as int,
                    with_args,
                    depth as nat,
                    Seq::empty(),
                ) matches Parsed::Match(all) ==> chain_ok(src.bytes(), all, pos as int),
                bytes@ == src.bytes(),
                src.bytes().len() <= usize::MAX,
                pos <= cur <= src.bytes().len(),
                filters@.len() == 0 ==> cur == pos,
                filters@.len() > 0 ==> cur == filters@.last().end_index,
                parse_filter_chain(src.bytes(), pos as int, with_args, depth as nat, Seq::empty())
                    == parse_filter_chain(
                    src.bytes(),
                    cur as int,
                    with_args,
                    depth as nat,
                    filters_view(filters@),
                ),
            decreases src.bytes().len() - cur,
        {
            proof {
                rule_filter_chain(
                    src.bytes(),
                    cur as int,
                    with_args,
                    depth as nat,
                    filters_view(filters@),
                );
            }
            let at: usize = skip_trivia(bytes, cur);
            match Self::process_filter(src, at, with_args, depth) {
                Parsed::Match(f) => {
                    let ghost before = filters_view(filters@);
                    cur = f.end_index;
                    filters.push(f);
                    assert(filters_view(filters@) =~= before.push(f@));
                },
                Parsed::NoMatch => {
                    return Parsed::Match((filters, cur));
                },
                other => {
                    return other.failed();
                },
            }
        }
    }

    /// Reads a filter at `pos`: `|`, a name and, where `with_args` holds and
    /// one follows, an argument.
    fn process_filter(
        src: &Source,
        pos: usize,
        with_args: bool,
        depth: usize,
    ) -> (r: Parsed<TagValueFilter>)
        requires
            src.wf(),
            pos <= src.bytes().len(),
        ensures
            r@ == parse_filter(src.bytes(), pos as int, with_args, depth as nat),
            r matches Parsed::Match(f) ==> pos < f.end_index <= src.bytes().len(),
        decreases src.bytes().len() - pos, 2int,
    {
        proof {
            rule_filter(src.bytes(), pos as int, with_args, depth as nat);
        }
        let bytes = src.as_bytes();
        if !has_byte(bytes, pos, PIPE) {
            return Parsed::NoMatch;
        }
        let name: usize = skip_trivia(bytes, pos + 1);
        match scan_name(bytes, name, ByteClass::Name) {
            Some(e) => {
                let arg: Option<TagValue> = if with_args {
                    match Self::process_filter_arg(src, e, depth) {
                        Parsed::Match(a) => Some(a),
                        Parsed::NoMatch => None,
                        other => {
                            return other.failed();
                        },
                    }
                } else {
                    None
                };
                let token = Self::token(src, name, e);
                let end_index: usize = match &arg {
                    Some(a) => a.end_index,
                    None => e,
                };
                let f = TagValueFilter {
                    token,
                    arg,
                    start_index: pos,
                    end_index,
                    line_col: src.line_col(pos),
                };
                proof {
                    lemma_filter_view(f);
                }
                Parsed::Match(f)
            },
            None => Parsed::NoMatch,
        }
    }

    /// Reads a filter argument behind the filter name that ends at `pos`: `:`
    /// and a filtered value. The argument's span begins at the `:`.
    fn process_filter_arg(src: &Source, pos: usize, depth: usize) -> (r: Parsed<TagValue>)
        requires
            src.wf(),
            pos <= src.bytes().len(),
        ensures
            r@ == parse_filter_arg(src.bytes(), pos as int, depth as nat),
            r matches Parsed::Match(a) ==> pos < a.end_index <= src.bytes().len(),
        decreases src.bytes().len() - pos, 1int,
    {
        proof {
            rule_filter_arg(src.bytes(), pos as int, depth as nat);
        }
        let bytes = src.as_bytes();
        let colon: usize = skip_trivia(bytes, pos);
        if !has_byte(bytes, colon, COLON) {
            return Parsed::NoMatch;
        }
        if depth == 0 {
            return Parsed::TooDeep;
        }
        let at: usize = skip_trivia(bytes, colon + 1);
        match Self::process_filtered_value(src, at, true, depth - 1) {
            Parsed::Match(v) => {
                let mut a = v;
                a.start_index = colon;
                a.line_col = src.line_col(colon);
                proof {
                    lemma_value_view(v);
                    lemma_value_view(a);
                }
                Parsed::Match(a)
            },
            other => other.failed(),
        }
    }

    /// Reads an attribute `key=value` at `pos`.
    fn process_keyed(src: &Source, pos: usize, depth: usize) -> (r: Parsed<TagAttr>)
        requires
            src.wf(),
            pos <= src.bytes().len(),
        ensures
            r@ == parse_keyed(src.bytes(), pos as int, depth as nat),
            r matches Parsed::Match(a) ==> pos < a.end_index <= src.bytes().len(),
    {
        let bytes = src.as_bytes();
        match scan_key(bytes, pos) {
            Some(e) => {
                if !has_byte(bytes, e, EQUALS) {
                    return Parsed::NoMatch;
                }
                match Self::process_filtered_value(src, e + 1, true, depth) {
                    Parsed::Match(value) => {
                        let end_index: usize = value.end_index;
                        Parsed::Match(
                            TagAttr {
                                key: Some(Self::token(src, pos, e)),
                                value,
                                start_index: pos,
                                end_index,
                                line_col: src.line_col(pos),
                            },
                        )
                    },
                    other => other.failed(),
                }
            },
            None => Parsed::NoMatch,
        }
    }

    /// Reads an attribute `...value` at `pos`.
    fn process_spread(src: &Source, pos: usize, depth: usize) -> (r: Parsed<TagAttr>)
        requires
            src.wf(),
            pos <= src.bytes().len(),
        ensures
            r@ == parse_spread(src.bytes(), pos as int, depth as nat),
            r matches Parsed::Match(a) ==> pos < a.end_index <= src.bytes().len(),
    {
        let bytes = src.as_bytes();
        if !(has_byte(bytes, pos, DOT) && has_byte(bytes, pos + 1, DOT) && has_byte(
            bytes,
            pos + 2,
            DOT,
        )) {
            return Parsed::NoMatch;
        }
        match Self::process_filtered_value(src, pos + 3, true, depth) {
            Parsed::Match(v) => {
                proof {
                    lemma_column_behind(src.bytes(), pos + 3, 3);
                }
                let end_index: usize = v.end_index;
                Parsed::Match(
                    TagAttr {
                        key: None,
                        value: Self::mark_spread(v, "...", 3),
                        start_index: pos,
                        end_index,
                        line_col: src.line_col(pos),
                    },
                )
            },
            other => other.failed(),
        }
    }

    /// Reads an attribute at `pos`: `key=value`, or `...value`, or a value,
    /// whichever matches first.
    pub fn process_attribute(src: &Source, pos: usize, depth: usize) -> (r: Parsed<TagAttr>)
        requires
            src.wf(),
            pos <= src.bytes().len(),
        ensures
            r@ == parse_attribute(src.bytes(), pos as int, depth as nat),
            r matches Parsed::Match(a) ==> pos < a.end_index <= src.bytes().len() && attr_ok(
                src.bytes(),
                a@,
            ) && keys_valid(a@.value),
    {
        proof {
            lemma_attribute(src.bytes(), pos as int, depth as nat);
            if let Parsed::Match(a) = parse_attribute(src.bytes(), pos as int, depth as nat) {
                lemma_keys_valid(src.bytes(), a.value, Place::Attribute);
            }
        }
        match Self::process_keyed(src, pos, depth) {
            Parsed::NoMatch => {},
            found => {
                return found;
            },
        }
        match Self::process_spread(src, pos, depth) {
            Parsed::NoMatch => {},
            found => {
                return found;
            },
        }
        match Self::process_filtered_value(src, pos, true, depth) {
            Parsed::Match(value) => {
                let end_index: usize = value.end_index;
                Parsed::Match(
                    TagAttr {
                        key: None,
                        value,
                        start_index: pos,
                        end_index,
                        line_col: src.line_col(pos),
                    },
                )
            },
            other => other.failed(),
        }
    }

    /// Parses an attribute list.
    ///
    /// Returns the attributes in source order where the whole input matches the
    /// grammar. Every attribute is then well formed: spans lie inside the
    /// input, tokens hold the text of their span, spread markers go by place,
    /// filters stand in source order and no dict has a list or a dict as a
    /// key. Fails with [`ParseError::Grammar`] where the input does not match
    /// the grammar, with [`ParseError::TooDeep`] where it nests deeper than
    /// [`MAX_DEPTH`], and with [`ParseError::InvalidKey`] where a dict item
    /// has a list or a dict as its key, whichever is met first.
    pub fn parse_tag(input: &str) -> (r: Result<Vec<TagAttr>, ParseError>)
        ensures
            match r {
                Ok(attrs) => {
                    &&& parse_input(input.spec_bytes()) == Parsed::Match(attrs_view(attrs@))
                    &&& all_keys_valid(attrs_view(attrs@))
                    &&& forall|i: int|
                        0 <= i < attrs@.len() ==> attr_ok(
                            input.spec_bytes(),
                            #[trigger] attrs_view(attrs@)[i],
                        )
                },
                Err(ParseError::Grammar(m)) => parse_input(input.spec_bytes()) is NoMatch && m@
                    == grammar_message(),
                Err(ParseError::TooDeep(m)) => parse_input(input.spec_bytes()) is TooDeep && m@
                    == depth_message(),
                Err(ParseError::InvalidKey(m)) => parse_input(input.spec_bytes()) is InvalidKey
                    && m@ == dict_key_message(),
            },
    {
        let src = Source::new(input);
        let bytes = src.as_bytes();
        let mut attrs: Vec<TagAttr> = Vec::new();
        let mut cur: usize = 0;
        assert(attrs_view(attrs@) =~= Seq::empty());
        loop
            invariant
                src.wf(),
                bytes@ == src.bytes(),
                src.bytes() == input.spec_bytes(),
                cur <= src.bytes().len(),
                parse_input(src.bytes()) == parse_attributes(
                    src.bytes(),
                    cur as int,
                    MAX_DEPTH as nat,
                    attrs_view(attrs@),
                ),
            ensures
                parse_input(input.spec_bytes()) == Parsed::Match(attrs_view(attrs@)),
            decreases src.bytes().len() - cur,
        {
            let at: usize = skip_trivia(bytes, cur);
            if at >= bytes.len() {
                break ;
            }
            match Self::process_attribute(&src, at, MAX_DEPTH) {
                Parsed::Match(a) => {
                    let ghost before = attrs_view(attrs@);
                    cur = a.end_index;
                    attrs.push(a);
                    assert(attrs_view(attrs@) =~= before.push(a@));
                },
                Parsed::NoMatch => {
                    return Err(
                        ParseError::Grammar(
                            String::from_str(
                                "input does not match the grammar of an attribute list",
                            ),
                        ),
                    );
                },
                Parsed::TooDeep => {
                    return Err(
                        ParseError::TooDeep(
                            String::from_str("lists, dicts and filter arguments nest too deep"),
                        ),
                    );
                },
                Parsed::InvalidKey => {
                    return Err(
                        ParseError::InvalidKey(
                            String::from_str("Dictionary keys cannot be lists or dictionaries"),
                        ),
                    );
                },
            }
        }
        proof {
            attributes_well_formed(input.spec_bytes(), attrs_view(attrs@));
            keys_scalar_everywhere(input.spec_bytes(), attrs_view(attrs@));
        }
        Ok(attrs)
    }
}

} // verus!
