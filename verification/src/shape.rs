//! The shape of a well-formed syntax tree: where spans lie, which spread
//! marker stands where, how filters are ordered, how the children of a dict
//! pair up and how deep values nest.

use crate::ast::{AttrModel, FilterModel, TokenModel, ValueKind, ValueModel};
use crate::grammar::text_at;
use crate::lexical::{ascii_ends, byte_is, is_space, COLON, EQUALS, PIPE};
use crate::source::line_col_at;
use vstd::prelude::*;

verus! {

/// Where a value stands in the tree.
pub enum Place {
    /// The value of a top-level attribute.
    Attribute,
    /// An item of a list.
    ListItem,
    /// A key, a value or a spread entry of a dict.
    DictEntry,
    /// The argument of a filter.
    FilterArg,
}

/// Where the children of a value of `kind` stand.
pub open spec fn child_place(kind: ValueKind) -> Place {
    if kind == ValueKind::Dict {
        Place::DictEntry
    } else {
        Place::ListItem
    }
}

/// The spread marker `spread` may stand in front of a value at `place`:
/// `...` at an attribute, `*` at a list item, `**` at a dict entry, none at a
/// filter argument.
pub open spec fn marker_fits(place: Place, spread: Option<Seq<char>>) -> bool {
    match spread {
        None => true,
        Some(m) => match place {
            Place::Attribute => m == "..."@,
            Place::ListItem => m == "*"@,
            Place::DictEntry => m == "**"@,
            Place::FilterArg => false,
        },
    }
}

/// The token is not empty, lies inside the input, begins and ends with an
/// ASCII byte, and carries the line and column of its first byte.
pub open spec fn token_placed(s: Seq<u8>, t: TokenModel) -> bool {
    &&& ascii_ends(s, t.start_index, t.end_index)
    &&& t.line_col == line_col_at(s, t.start_index)
}

/// The text of the token is the input between its two offsets.
pub open spec fn token_verbatim(s: Seq<u8>, t: TokenModel) -> bool {
    t.text == text_at(s, t.start_index, t.end_index)
}

/// The filter begins at a `|`, holds its name verbatim behind it, and ends
/// where its argument ends, or where its name ends without one. The span of
/// the argument begins at the `:` behind the name and carries the line and
/// column of the `:`; the token of the argument begins behind the `:`.
pub open spec fn filter_placed(s: Seq<u8>, f: FilterModel) -> bool {
    &&& token_placed(s, f.token)
    &&& token_verbatim(s, f.token)
    &&& byte_is(s, f.start_index, PIPE)
    &&& f.start_index < f.token.start_index
    &&& f.token.end_index <= f.end_index <= s.len()
    &&& s[f.end_index - 1] < 0x80
    &&& f.line_col == line_col_at(s, f.start_index)
    &&& match f.arg {
        Some(a) => byte_is(s, a.start_index, COLON) && f.token.end_index <= a.start_index
            < a.token.start_index && a.end_index == f.end_index && a.line_col == line_col_at(
            s,
            a.start_index,
        ),
        None => f.end_index == f.token.end_index,
    }
}

/// Span containment: the value, its token and its filters lie inside the
/// input, the token inside the value; each of them begins and ends with an
/// ASCII byte; line and column are at least 1; and but for a translation
/// string, the token's text is the input between the token's offsets.
pub open spec fn spans_contained(s: Seq<u8>, v: ValueModel) -> bool {
    &&& token_placed(s, v.token)
    &&& v.kind != ValueKind::Translation ==> token_verbatim(s, v.token)
    &&& 0 <= v.start_index <= v.token.start_index
    &&& v.token.end_index <= v.end_index <= s.len()
    &&& ascii_ends(s, v.start_index, v.end_index)
    &&& v.line_col.0 >= 1 && v.line_col.1 >= 1
    &&& forall|j: int| 0 <= j < v.filters.len() ==> filter_placed(s, #[trigger] v.filters[j])
}

/// No-filter span equality: a value without filters and without spread marker
/// that is no filter argument has the span, line and column of its token.
pub open spec fn plain_span_is_token_span(v: ValueModel, place: Place) -> bool {
    v.filters.len() == 0 && v.spread is None && !(place is FilterArg) ==> v.start_index
        == v.token.start_index && v.end_index == v.token.end_index && v.line_col
        == v.token.line_col
}

/// The value can be the key of a dict item: it is neither a list nor a dict,
/// and none of its filters has an argument.
pub open spec fn is_dict_key(v: ValueModel) -> bool {
    &&& !v.kind.is_collection()
    &&& forall|j: int| 0 <= j < v.filters.len() ==> (#[trigger] v.filters[j]).arg is None
}

/// From `from` on, the entries split into spread entries, each marked `**`,
/// and pairs of a key and a value, neither of them marked, where the key can
/// be a key.
pub open spec fn paired(entries: Seq<ValueModel>, from: int) -> bool
    decreases entries.len() + 1 - from,
{
    if from < 0 || from >= entries.len() {
        from == entries.len()
    } else if entries[from].spread is Some {
        entries[from].spread == Some("**"@) && paired(entries, from + 1)
    } else {
        from + 1 < entries.len() && is_dict_key(entries[from]) && entries[from + 1].spread
            is None && paired(entries, from + 2)
    }
}

/// From `from` on, every key among the flattened entries of a dict is a
/// scalar. An entry with a spread marker stands alone; any other entry is a key
/// and the entry behind it is its value.
pub open spec fn keys_scalar(entries: Seq<ValueModel>, from: int) -> bool
    decreases entries.len() + 1 - from,
{
    if from < 0 || from >= entries.len() {
        true
    } else if entries[from].spread is Some {
        keys_scalar(entries, from + 1)
    } else {
        !entries[from].kind.is_collection() && keys_scalar(entries, from + 2)
    }
}

/// No dict in `v`, at any depth, has a list or a dict as a key.
pub open spec fn keys_valid(v: ValueModel) -> bool
    decreases v,
{
    &&& v.kind == ValueKind::Dict ==> keys_scalar(v.children, 0)
    &&& forall|i: int| 0 <= i < v.children.len() ==> keys_valid(#[trigger] v.children[i])
    &&& forall|j: int|
        0 <= j < v.filters.len() ==> ((#[trigger] v.filters[j]).arg matches Some(a)
            ==> keys_valid(a))
}

/// No dict in the values of `attrs` has a list or a dict as a key.
pub open spec fn all_keys_valid(attrs: Seq<AttrModel>) -> bool {
    forall|i: int| 0 <= i < attrs.len() ==> keys_valid((#[trigger] attrs[i]).value)
}

/// Entries that pair up have scalars as keys.
pub proof fn lemma_paired_keys(entries: Seq<ValueModel>, from: int)
    requires
        0 <= from <= entries.len(),
        paired(entries, from),
    ensures
        keys_scalar(entries, from),
    decreases entries.len() - from,
{
    if from < entries.len() {
        if entries[from].spread is Some {
            lemma_paired_keys(entries, from + 1);
        } else {
            lemma_paired_keys(entries, from + 2);
        }
    }
}


/// The number of entries from `from` on that carry no spread marker.
pub open spec fn unmarked_count(entries: Seq<ValueModel>, from: int) -> int
    decreases entries.len() - from,
{
    if from < 0 || from >= entries.len() {
        0
    } else if entries[from].spread is Some {
        unmarked_count(entries, from + 1)
    } else {
        1 + unmarked_count(entries, from + 1)
    }
}

/// The number of entries from `from` on that carry a spread marker.
pub open spec fn marked_count(entries: Seq<ValueModel>, from: int) -> int
    decreases entries.len() - from,
{
    if from < 0 || from >= entries.len() {
        0
    } else if entries[from].spread is Some {
        1 + marked_count(entries, from + 1)
    } else {
        marked_count(entries, from + 1)
    }
}

/// Dict children parity: the children of a dict split into spread entries and
/// pairs of a key and a value.
pub open spec fn dict_children_paired(v: ValueModel) -> bool {
    v.kind == ValueKind::Dict ==> paired(v.children, 0)
}

/// Spread exclusivity: the marker of a value is the one that belongs to the
/// place where the value stands.
pub open spec fn marker_by_place(v: ValueModel, place: Place) -> bool {
    marker_fits(place, v.spread)
}

/// The filters `fs` stand in source order behind offset `base`: each begins
/// at or behind `base`, and at or behind the end of every filter before it.
pub open spec fn ordered_behind(fs: Seq<FilterModel>, base: int) -> bool {
    &&& forall|j: int| 0 <= j < fs.len() ==> base <= (#[trigger] fs[j]).start_index
    &&& forall|i: int, j: int|
        0 <= i < j < fs.len() ==> (#[trigger] fs[i]).end_index <= (#[trigger] fs[j]).start_index
}

/// Filter order: the filters stand in source order behind the token, and the
/// value ends where its last filter ends.
pub open spec fn filters_in_source_order(v: ValueModel) -> bool {
    &&& ordered_behind(v.filters, v.token.end_index)
    &&& v.end_index == if v.filters.len() > 0 {
        v.filters.last().end_index
    } else {
        v.token.end_index
    }
}

/// The values `vs` are not empty and stand in source order between `lo` and
/// `hi`: each begins at or behind `lo`, ends at or before `hi`, and begins at
/// or behind the end of every value before it.
pub open spec fn in_order_between(vs: Seq<ValueModel>, lo: int, hi: int) -> bool {
    &&& forall|i: int|
        0 <= i < vs.len() ==> lo <= (#[trigger] vs[i]).start_index < vs[i].end_index <= hi
    &&& forall|i: int, j: int|
        0 <= i < j < vs.len() ==> (#[trigger] vs[i]).end_index <= (#[trigger] vs[j]).start_index
}

/// Children order: the children of a value stand in source order inside its
/// token, behind the first byte of the token and before the last.
pub open spec fn children_in_source_order(v: ValueModel) -> bool {
    in_order_between(v.children, v.token.start_index + 1, v.token.end_index - 1)
}

/// What holds of a single value at `place`.
pub open spec fn node_ok(s: Seq<u8>, v: ValueModel, place: Place) -> bool {
    &&& spans_contained(s, v)
    &&& children_in_source_order(v)
    &&& plain_span_is_token_span(v, place)
    &&& dict_children_paired(v)
    &&& marker_by_place(v, place)
    &&& filters_in_source_order(v)
    &&& !v.kind.is_collection() ==> v.children.len() == 0
}

/// What holds of a value at `place` and of every value below it.
#[verifier::opaque]
pub open spec fn tree_ok(s: Seq<u8>, v: ValueModel, place: Place) -> bool
    decreases v,
{
    &&& node_ok(s, v, place)
    &&& forall|i: int|
        0 <= i < v.children.len() ==> tree_ok(s, #[trigger] v.children[i], child_place(v.kind))
    &&& forall|j: int|
        0 <= j < v.filters.len() && (#[trigger] v.filters[j]).arg is Some ==> tree_ok(
            s,
            v.filters[j].arg->0,
            Place::FilterArg,
        )
}

/// Each of the values `vs` is well formed at `place`, with every value below
/// it.
pub open spec fn each_ok(s: Seq<u8>, vs: Seq<ValueModel>, place: Place) -> bool {
    forall|i: int| 0 <= i < vs.len() ==> tree_ok(s, #[trigger] vs[i], place)
}

/// The value `n` stands at `n_place` somewhere in the tree of `v`, which
/// stands at `v_place`: it is `v` itself, or it occurs in a child of `v` or in
/// the argument of a filter of `v`.
pub open spec fn occurs_in(n: ValueModel, n_place: Place, v: ValueModel, v_place: Place) -> bool
    decreases v,
{
    ||| (n == v && n_place == v_place)
    ||| exists|i: int|
        0 <= i < v.children.len() && occurs_in(
            n,
            n_place,
            #[trigger] v.children[i],
            child_place(v.kind),
        )
    ||| exists|j: int|
        0 <= j < v.filters.len() && (#[trigger] v.filters[j]).arg is Some && occurs_in(
            n,
            n_place,
            v.filters[j].arg->0,
            Place::FilterArg,
        )
}

/// What holds of a top-level attribute: it spans from its first byte to the
/// end of its value, and its value is well formed. With a key, the attribute
/// begins with the key, `=` follows the key at once and the value follows the
/// `=` at once, without a spread marker.
pub open spec fn attr_ok(s: Seq<u8>, a: AttrModel) -> bool {
    &&& ascii_ends(s, a.start_index, a.end_index)
    &&& a.end_index == a.value.end_index
    &&& a.line_col == line_col_at(s, a.start_index)
    &&& tree_ok(s, a.value, Place::Attribute)
    &&& match a.key {
        Some(k) => {
            &&& token_placed(s, k)
            &&& token_verbatim(s, k)
            &&& k.start_index == a.start_index
            &&& byte_is(s, k.end_index, EQUALS)
            &&& a.value.start_index == k.end_index + 1
            &&& a.value.token.start_index == k.end_index + 1
            &&& a.value.spread is None
            &&& !is_space(s[k.end_index - 1])
            &&& !is_space(s[k.end_index + 1])
        },
        None => a.value.start_index == a.start_index,
    }
}

/// Lists, dicts and filter arguments nest at most `depth` deep in `v`: where
/// `v` is a list or a dict, or has a filter with an argument, `depth` is not
/// zero, and they nest at most `depth - 1` deep in each child and argument.
#[verifier::opaque]
pub open spec fn nests_within(v: ValueModel, depth: nat) -> bool
    decreases v,
{
    &&& v.kind.is_collection() ==> depth > 0
    &&& forall|j: int|
        0 <= j < v.filters.len() && (#[trigger] v.filters[j]).arg is Some ==> depth > 0
    &&& forall|i: int|
        0 <= i < v.children.len() ==> nests_within(#[trigger] v.children[i], (depth - 1) as nat)
    &&& forall|j: int|
        0 <= j < v.filters.len() && (#[trigger] v.filters[j]).arg is Some ==> nests_within(
            v.filters[j].arg->0,
            (depth - 1) as nat,
        )
}

/// Lists, dicts and filter arguments nest at most `depth` deep in the
/// arguments of the filters `fs`, each argument counting as one level.
pub open spec fn args_nest_within(fs: Seq<FilterModel>, depth: nat) -> bool {
    &&& forall|j: int| 0 <= j < fs.len() && (#[trigger] fs[j]).arg is Some ==> depth > 0
    &&& forall|j: int|
        0 <= j < fs.len() && (#[trigger] fs[j]).arg is Some ==> nests_within(
            fs[j].arg->0,
            (depth - 1) as nat,
        )
}

/// What holds of a tree holds of every value in it.
pub proof fn lemma_everywhere(
    s: Seq<u8>,
    n: ValueModel,
    n_place: Place,
    v: ValueModel,
    v_place: Place,
)
    requires
        tree_ok(s, v, v_place),
        occurs_in(n, n_place, v, v_place),
    ensures
        tree_ok(s, n, n_place),
        node_ok(s, n, n_place),
    decreases v,
{
    reveal(tree_ok);
    if n == v && n_place == v_place {
    } else if exists|i: int|
        0 <= i < v.children.len() && occurs_in(
            n,
            n_place,
            #[trigger] v.children[i],
            child_place(v.kind),
        ) {
        let i = choose|i: int|
            0 <= i < v.children.len() && occurs_in(
                n,
                n_place,
                #[trigger] v.children[i],
                child_place(v.kind),
            );
        lemma_everywhere(s, n, n_place, v.children[i], child_place(v.kind));
    } else {
        let j = choose|j: int|
            0 <= j < v.filters.len() && (#[trigger] v.filters[j]).arg is Some && occurs_in(
                n,
                n_place,
                v.filters[j].arg->0,
                Place::FilterArg,
            );
        lemma_everywhere(s, n, n_place, v.filters[j].arg->0, Place::FilterArg);
    }
}

/// Among entries that pair up, those without a marker are even in number.
pub proof fn lemma_paired_parity(entries: Seq<ValueModel>, from: int)
    requires
        0 <= from <= entries.len(),
        paired(entries, from),
    ensures
        unmarked_count(entries, from) % 2 == 0,
    decreases entries.len() - from,
{
    if from < entries.len() {
        if entries[from].spread is Some {
            lemma_paired_parity(entries, from + 1);
        } else {
            lemma_paired_parity(entries, from + 2);
            assert(unmarked_count(entries, from + 1) == 1 + unmarked_count(entries, from + 2));
        }
    }
}

/// Every entry from `from` on is counted once, as marked or as unmarked.
pub proof fn lemma_counts(entries: Seq<ValueModel>, from: int)
    requires
        0 <= from <= entries.len(),
    ensures
        marked_count(entries, from) + unmarked_count(entries, from) == entries.len() - from,
        0 <= marked_count(entries, from),
        0 <= unmarked_count(entries, from),
    decreases entries.len() - from,
{
    if from < entries.len() {
        lemma_counts(entries, from + 1);
    }
}

/// In a well-formed tree no dict, at any depth, has a list or a dict as a
/// key.
pub proof fn lemma_keys_valid(s: Seq<u8>, v: ValueModel, place: Place)
    requires
        tree_ok(s, v, place),
    ensures
        keys_valid(v),
    decreases v,
{
    reveal(tree_ok);
    if v.kind == ValueKind::Dict {
        lemma_paired_keys(v.children, 0);
    }
    assert forall|i: int| 0 <= i < v.children.len() implies keys_valid(
        #[trigger] v.children[i],
    ) by {
        lemma_keys_valid(s, v.children[i], child_place(v.kind));
    }
    assert forall|j: int| 0 <= j < v.filters.len() implies ((
    #[trigger] v.filters[j]).arg matches Some(a) ==> keys_valid(a)) by {
        if let Some(a) = v.filters[j].arg {
            lemma_keys_valid(s, a, Place::FilterArg);
        }
    }
}

} // verus!
