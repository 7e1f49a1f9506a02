//! The syntax tree of an attribute list, and the mathematical model of each node.

use vstd::prelude::*;
use vstd::string::StringExecFns;

verus! {

/// The kind of a value, decided by the grammar alternative that matched it.
#[derive(Debug, Clone, Copy, PartialEq, Eq, Structural)]
pub enum ValueKind {
    /// `[item, ...]`: the items are the children.
    List,
    /// `{key: value, **entries, ...}`: keys, values and spread entries are the
    /// children, flattened in source order.
    Dict,
    /// An optional sign and digits.
    Int,
    /// A number with a `.` or an exponent.
    Float,
    /// A name with dots.
    Variable,
    /// A string literal that holds template markup.
    Expression,
    /// `_("text")`: a string to translate.
    Translation,
    /// A string literal without template markup.
    String,
}

/// The name of each kind.
pub open spec fn kind_name(kind: ValueKind) -> Seq<char> {
    match kind {
        ValueKind::List => "list"@,
        ValueKind::Dict => "dict"@,
        ValueKind::Int => "int"@,
        ValueKind::Float => "float"@,
        ValueKind::Variable => "variable"@,
        ValueKind::Expression => "expression"@,
        ValueKind::Translation => "translation"@,
        ValueKind::String => "string"@,
    }
}

impl ValueKind {
    /// The lower-case name of the kind.
    pub fn name(&self) -> (r: &'static str)
        ensures
            r@ == kind_name(*self),
    {
        match self {
            ValueKind::List => "list",
            ValueKind::Dict => "dict",
            ValueKind::Int => "int",
            ValueKind::Float => "float",
            ValueKind::Variable => "variable",
            ValueKind::Expression => "expression",
            ValueKind::Translation => "translation",
            ValueKind::String => "string",
        }
    }

    /// Whether the kind is that of a list or a dict.
    pub open spec fn is_collection(self) -> bool {
        self == ValueKind::List || self == ValueKind::Dict
    }
}

/// Why an input is no attribute list.
#[derive(Debug, PartialEq)]
pub enum ParseError {
    /// The input does not match the grammar.
    Grammar(String),
    /// The input matches the grammar and breaks a rule on keys.
    InvalidKey(String),
    /// The input nests deeper than the parser follows.
    TooDeep(String),
}

/// What a grammar error says.
pub open spec fn grammar_message() -> Seq<char> {
    "input does not match the grammar of an attribute list"@
}

/// What an error on a dict key says.
pub open spec fn dict_key_message() -> Seq<char> {
    "Dictionary keys cannot be lists or dictionaries"@
}

/// What an error on the depth of nesting says.
pub open spec fn depth_message() -> Seq<char> {
    "lists, dicts and filter arguments nest too deep"@
}

/// The message of an error: what kind of error it is, and what it says.
pub open spec fn error_message(e: ParseError) -> Seq<char> {
    match e {
        ParseError::Grammar(m) => "Syntax error: "@ + m@,
        ParseError::InvalidKey(m) => "Invalid key: "@ + m@,
        ParseError::TooDeep(m) => "Too deep: "@ + m@,
    }
}

impl ParseError {
    /// The message of the error, for a reader.
    pub fn message(&self) -> (r: String)
        ensures
            r@ == error_message(*self),
    {
        match self {
            ParseError::Grammar(m) => String::from_str("Syntax error: ").concat(m.as_str()),
            ParseError::InvalidKey(m) => String::from_str("Invalid key: ").concat(m.as_str()),
            ParseError::TooDeep(m) => String::from_str("Too deep: ").concat(m.as_str()),
        }
    }
}

/// A lexical token: its text and where it stands in the input.
#[derive(Debug, PartialEq)]
pub struct TagToken {
    /// Text of the token, without filters and spread marker.
    pub token: String,
    /// Byte offset of the first byte of the token.
    pub start_index: usize,
    /// Byte offset just past the last byte of the token.
    pub end_index: usize,
    /// 1-indexed line and column of `start_index`.
    pub line_col: (usize, usize),
}

/// A value with its children, spread marker and filter chain.
#[derive(Debug, PartialEq)]
pub struct TagValue {
    /// The value itself, without filters and spread marker.
    pub token: TagToken,
    /// Items of a list, or the flattened keys and values of a dict.
    pub children: Vec<TagValue>,
    pub kind: ValueKind,
    /// The spread marker in front of the value, if any: `...`, `*` or `**`.
    pub spread: Option<String>,
    /// Filters applied to the value, in source order.
    pub filters: Vec<TagValueFilter>,
    /// Start of the whole value, filters and spread marker counted in.
    pub start_index: usize,
    /// End of the whole value, filters counted in.
    pub end_index: usize,
    /// 1-indexed line and column of `start_index`.
    pub line_col: (usize, usize),
}

/// One step `|name` or `|name:arg` of a filter chain.
#[derive(Debug, PartialEq)]
pub struct TagValueFilter {
    /// The filter's name.
    pub token: TagToken,
    /// The filter's argument, if it has one.
    pub arg: Option<TagValue>,
    /// Offset of the `|`.
    pub start_index: usize,
    /// End of the filter, its argument counted in.
    pub end_index: usize,
    /// 1-indexed line and column of `start_index`.
    pub line_col: (usize, usize),
}

/// A filter argument together with the span that holds its `:`.
#[derive(Debug, PartialEq)]
pub struct TagValueFilterArg {
    pub value: TagValue,
    pub start_index: usize,
    pub end_index: usize,
    pub line_col: (usize, usize),
}

/// One top-level entry of the attribute list.
#[derive(Debug, PartialEq)]
pub struct TagAttr {
    /// The key of a `key=value` attribute.
    pub key: Option<TagToken>,
    pub value: TagValue,
    pub start_index: usize,
    pub end_index: usize,
    /// 1-indexed line and column of `start_index`.
    pub line_col: (usize, usize),
}

/// Model of a [`TagToken`].
pub struct TokenModel {
    pub text: Seq<char>,
    pub start_index: int,
    pub end_index: int,
    pub line_col: (int, int),
}

/// Model of a [`TagValue`].
pub struct ValueModel {
    pub token: TokenModel,
    pub children: Seq<ValueModel>,
    pub kind: ValueKind,
    pub spread: Option<Seq<char>>,
    pub filters: Seq<FilterModel>,
    pub start_index: int,
    pub end_index: int,
    pub line_col: (int, int),
}

/// Model of a [`TagValueFilter`].
pub struct FilterModel {
    pub token: TokenModel,
    pub arg: Option<ValueModel>,
    pub start_index: int,
    pub end_index: int,
    pub line_col: (int, int),
}

/// Model of a [`TagAttr`].
pub struct AttrModel {
    pub key: Option<TokenModel>,
    pub value: ValueModel,
    pub start_index: int,
    pub end_index: int,
    pub line_col: (int, int),
}

/// A line and column pair as mathematical integers.
pub open spec fn line_col_model(lc: (usize, usize)) -> (int, int) {
    (lc.0 as int, lc.1 as int)
}

impl View for TagToken {
    type V = TokenModel;

    open spec fn view(&self) -> TokenModel {
        TokenModel {
            text: self.token@,
            start_index: self.start_index as int,
            end_index: self.end_index as int,
            line_col: line_col_model(self.line_col),
        }
    }
}

impl View for TagValue {
    type V = ValueModel;

    open spec fn view(&self) -> ValueModel
        decreases self,
    {
        ValueModel {
            token: self.token@,
            children: Seq::new(
                self.children.len() as nat,
                |i: int|
                    if 0 <= i < self.children.len() {
                        self.children[i]@
                    } else {
                        arbitrary()
                    },
            ),
            kind: self.kind,
            spread: match self.spread {
                Some(m) => Some(m@),
                None => None,
            },
            filters: Seq::new(
                self.filters.len() as nat,
                |i: int|
                    if 0 <= i < self.filters.len() {
                        self.filters[i]@
                    } else {
                        arbitrary()
                    },
            ),
            start_index: self.start_index as int,
            end_index: self.end_index as int,
            line_col: line_col_model(self.line_col),
        }
    }
}

impl View for TagValueFilter {
    type V = FilterModel;

    open spec fn view(&self) -> FilterModel
        decreases self,
    {
        FilterModel {
            token: self.token@,
            arg: match self.arg {
                Some(a) => Some(a@),
                None => None,
            },
            start_index: self.start_index as int,
            end_index: self.end_index as int,
            line_col: line_col_model(self.line_col),
        }
    }
}

impl View for TagAttr {
    type V = AttrModel;

    open spec fn view(&self) -> AttrModel {
        AttrModel {
            key: match self.key {
                Some(k) => Some(k@),
                None => None,
            },
            value: self.value@,
            start_index: self.start_index as int,
            end_index: self.end_index as int,
            line_col: line_col_model(self.line_col),
        }
    }
}

/// The models of a sequence of values.
pub open spec fn values_view(vs: Seq<TagValue>) -> Seq<ValueModel> {
    Seq::new(vs.len(), |i: int| vs[i]@)
}

/// The models of a sequence of filters.
pub open spec fn filters_view(fs: Seq<TagValueFilter>) -> Seq<FilterModel> {
    Seq::new(fs.len(), |i: int| fs[i]@)
}

/// The models of a sequence of attributes.
pub open spec fn attrs_view(attrs: Seq<TagAttr>) -> Seq<AttrModel> {
    Seq::new(attrs.len(), |i: int| attrs[i]@)
}

/// The model of a spread marker.
pub open spec fn marker_view(marker: Option<String>) -> Option<Seq<char>> {
    match marker {
        Some(m) => Some(m@),
        None => None,
    }
}

/// The model of a filter argument.
pub open spec fn arg_view(arg: Option<TagValue>) -> Option<ValueModel> {
    match arg {
        Some(a) => Some(a@),
        None => None,
    }
}

/// The model of a value, field by field.
pub proof fn lemma_value_view(v: TagValue)
    ensures
        v@ == (ValueModel {
            token: v.token@,
            children: values_view(v.children@),
            kind: v.kind,
            spread: marker_view(v.spread),
            filters: filters_view(v.filters@),
            start_index: v.start_index as int,
            end_index: v.end_index as int,
            line_col: line_col_model(v.line_col),
        }),
{
    reveal_with_fuel(<TagValue as View>::view, 3);
    reveal_with_fuel(<TagValueFilter as View>::view, 3);
    assert(v@.children =~= values_view(v.children@));
    assert(v@.filters =~= filters_view(v.filters@));
}

/// The model of a filter, field by field.
pub proof fn lemma_filter_view(f: TagValueFilter)
    ensures
        f@ == (FilterModel {
            token: f.token@,
            arg: arg_view(f.arg),
            start_index: f.start_index as int,
            end_index: f.end_index as int,
            line_col: line_col_model(f.line_col),
        }),
{
    reveal_with_fuel(<TagValue as View>::view, 3);
    reveal_with_fuel(<TagValueFilter as View>::view, 3);
}

impl Clone for ParseError {
    fn clone(&self) -> (r: Self)
        ensures
            r == *self,
    {
        match self {
            ParseError::Grammar(m) => ParseError::Grammar(m.clone()),
            ParseError::InvalidKey(m) => ParseError::InvalidKey(m.clone()),
            ParseError::TooDeep(m) => ParseError::TooDeep(m.clone()),
        }
    }
}

impl Clone for TagToken {
    fn clone(&self) -> (r: Self)
        ensures
            r == *self,
    {
        TagToken {
            token: self.token.clone(),
            start_index: self.start_index,
            end_index: self.end_index,
            line_col: (self.line_col.0, self.line_col.1),
        }
    }
}

impl Clone for TagValue {
    fn clone(&self) -> (r: Self)
        ensures
            r@ == self@,
        decreases self,
    {
        let mut children: Vec<TagValue> = Vec::new();
        let mut i: usize = 0;
        while i < self.children.len()
            invariant
                i <= self.children@.len(),
                children@.len() == i,
                forall|k: int| 0 <= k < i ==> (#[trigger] children@[k])@ == self.children@[k]@,
            decreases self.children@.len() - i,
        {
            children.push(self.children[i].clone());
            i += 1;
        }
        let mut filters: Vec<TagValueFilter> = Vec::new();
        let mut j: usize = 0;
        while j < self.filters.len()
            invariant
                j <= self.filters@.len(),
                filters@.len() == j,
                forall|k: int| 0 <= k < j ==> (#[trigger] filters@[k])@ == self.filters@[k]@,
            decreases self.filters@.len() - j,
        {
            filters.push(self.filters[j].clone());
            j += 1;
        }
        let r = TagValue {
            token: self.token.clone(),
            children,
            kind: self.kind,
            spread: match &self.spread {
                Some(m) => Some(m.clone()),
                None => None,
            },
            filters,
            start_index: self.start_index,
            end_index: self.end_index,
            line_col: (self.line_col.0, self.line_col.1),
        };
        proof {
            lemma_value_view(r);
            lemma_value_view(*self);
            assert(values_view(r.children@) =~= values_view(self.children@));
            assert(filters_view(r.filters@) =~= filters_view(self.filters@));
        }
        r
    }
}

impl Clone for TagValueFilter {
    fn clone(&self) -> (r: Self)
        ensures
            r@ == self@,
        decreases self,
    {
        let r = TagValueFilter {
            token: self.token.clone(),
            arg: match &self.arg {
                Some(a) => Some(a.clone()),
                None => None,
            },
            start_index: self.start_index,
            end_index: self.end_index,
            line_col: (self.line_col.0, self.line_col.1),
        };
        proof {
            lemma_filter_view(r);
            lemma_filter_view(*self);
        }
        r
    }
}

impl Clone for TagValueFilterArg {
    fn clone(&self) -> (r: Self)
        ensures
            r.value@ == self.value@,
            r.start_index == self.start_index,
            r.end_index == self.end_index,
            r.line_col == self.line_col,
    {
        TagValueFilterArg {
            value: self.value.clone(),
            start_index: self.start_index,
            end_index: self.end_index,
            line_col: (self.line_col.0, self.line_col.1),
        }
    }
}

impl Clone for TagAttr {
    fn clone(&self) -> (r: Self)
        ensures
            r@ == self@,
    {
        TagAttr {
            key: match &self.key {
                Some(k) => Some(k.clone()),
                None => None,
            },
            value: self.value.clone(),
            start_index: self.start_index,
            end_index: self.end_index,
            line_col: (self.line_col.0, self.line_col.1),
        }
    }
}

} // verus!
