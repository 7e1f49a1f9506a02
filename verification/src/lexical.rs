//! Lexical rules of an attribute list, on bytes: whitespace, comments, numbers,
//! string literals, names and keys.
//!
//! ```text
//! whitespace  := ' ' | tab | line feed | carriage return
//! comment     := '{#', any bytes up to the first '#}', '#}'
//! string      := "'", any bytes but ', "'" | '"', any bytes but ", '"'
//! translation := '_(' trivia string trivia ')'
//! float       := sign? (digits '.' digits? | '.' digits) exponent? | sign? digits exponent
//! int         := sign? digits
//! exponent    := ('e' | 'E') sign? digits
//! variable    := (letter | '_') (letter | digit | '_' | '.')*
//! name        := (letter | '_') (letter | digit | '_')*
//! key         := (letter | digit | '_' | '.' | ':' | '@')+, beginning neither with ':' nor '...'
//! ```
//!
//! Letters and digits are those of ASCII. Each rule is a spec function from a
//! position to the position where the match ends, with an executable scanner
//! that computes it.

use vstd::prelude::*;

verus! {

pub const TAB: u8 = 0x09;
pub const NEWLINE: u8 = 0x0a;
pub const CARRIAGE_RETURN: u8 = 0x0d;
pub const SPACE: u8 = 0x20;
pub const DOUBLE_QUOTE: u8 = 0x22;
pub const HASH: u8 = 0x23;
pub const SINGLE_QUOTE: u8 = 0x27;
pub const OPEN_PAREN: u8 = 0x28;
pub const CLOSE_PAREN: u8 = 0x29;
pub const STAR: u8 = 0x2a;
pub const PLUS: u8 = 0x2b;
pub const COMMA: u8 = 0x2c;
pub const MINUS: u8 = 0x2d;
pub const DOT: u8 = 0x2e;
pub const COLON: u8 = 0x3a;
pub const EQUALS: u8 = 0x3d;
pub const AT_SIGN: u8 = 0x40;
pub const UPPER_E: u8 = 0x45;
pub const OPEN_BRACKET: u8 = 0x5b;
pub const CLOSE_BRACKET: u8 = 0x5d;
pub const UNDERSCORE: u8 = 0x5f;
pub const LOWER_E: u8 = 0x65;
pub const OPEN_BRACE: u8 = 0x7b;
pub const PIPE: u8 = 0x7c;
pub const CLOSE_BRACE: u8 = 0x7d;

/// The classes of bytes that a run of the grammar is made of.
#[derive(Debug, Clone, Copy, PartialEq, Eq, Structural)]
pub enum ByteClass {
    /// Space, tab, line feed, carriage return.
    Space,
    /// `0` to `9`.
    Digit,
    /// Letters, digits and `_`: the bytes of a filter name.
    Name,
    /// The bytes of a name, and `.`: the bytes of a variable.
    Variable,
    /// The bytes of a variable, and `:` and `@`: the bytes of a key.
    Key,
}

pub open spec fn is_space(b: u8) -> bool {
    b == SPACE || b == TAB || b == NEWLINE || b == CARRIAGE_RETURN
}

pub open spec fn is_digit(b: u8) -> bool {
    0x30 <= b <= 0x39
}

pub open spec fn is_letter(b: u8) -> bool {
    (0x41 <= b <= 0x5a) || (0x61 <= b <= 0x7a)
}

/// The bytes that can begin a variable or a filter name.
pub open spec fn is_name_start(b: u8) -> bool {
    is_letter(b) || b == UNDERSCORE
}

pub open spec fn in_class(class: ByteClass, b: u8) -> bool {
    match class {
        ByteClass::Space => is_space(b),
        ByteClass::Digit => is_digit(b),
        ByteClass::Name => is_letter(b) || is_digit(b) || b == UNDERSCORE,
        ByteClass::Variable => is_letter(b) || is_digit(b) || b == UNDERSCORE || b == DOT,
        ByteClass::Key => is_letter(b) || is_digit(b) || b == UNDERSCORE || b == DOT || b
            == COLON || b == AT_SIGN,
    }
}

/// The byte `b` stands at `pos`.
pub open spec fn byte_is(s: Seq<u8>, pos: int, b: u8) -> bool {
    0 <= pos < s.len() && s[pos] == b
}

/// A byte of `class` stands at `pos`.
pub open spec fn class_at(s: Seq<u8>, pos: int, class: ByteClass) -> bool {
    0 <= pos < s.len() && in_class(class, s[pos])
}

/// End of the longest run of bytes of `class` that begins at `pos`.
pub open spec fn run_end(s: Seq<u8>, pos: int, class: ByteClass) -> int
    decreases s.len() - pos,
{
    if class_at(s, pos, class) {
        run_end(s, pos + 1, class)
    } else {
        pos
    }
}

/// Position just past the first `#}` that begins at or after `pos`.
pub open spec fn comment_close(s: Seq<u8>, pos: int) -> Option<int>
    decreases s.len() - pos,
{
    if pos < 0 || pos + 2 > s.len() {
        None
    } else if s[pos] == HASH && s[pos + 1] == CLOSE_BRACE {
        Some(pos + 2)
    } else {
        comment_close(s, pos + 1)
    }
}

/// End of the comment `{# ... #}` that begins at `pos`, if one does.
pub open spec fn comment_end(s: Seq<u8>, pos: int) -> Option<int> {
    if byte_is(s, pos, OPEN_BRACE) && byte_is(s, pos + 1, HASH) {
        comment_close(s, pos + 2)
    } else {
        None
    }
}

/// End of the whitespace and comments that begin at `pos`.
pub open spec fn trivia_end(s: Seq<u8>, pos: int) -> int
    decreases s.len() - pos,
{
    if class_at(s, pos, ByteClass::Space) {
        trivia_end(s, pos + 1)
    } else {
        match comment_end(s, pos) {
            Some(e) => if pos < e <= s.len() {
                trivia_end(s, e)
            } else {
                pos
            },
            None => pos,
        }
    }
}

/// End of the comments, with no whitespace among them, that begin at `pos`.
pub open spec fn comments_end(s: Seq<u8>, pos: int) -> int
    decreases s.len() - pos,
{
    match comment_end(s, pos) {
        Some(e) => if pos < e <= s.len() {
            comments_end(s, e)
        } else {
            pos
        },
        None => pos,
    }
}

/// Position of the first byte `b` at or after `pos`.
pub open spec fn find_byte(s: Seq<u8>, pos: int, b: u8) -> Option<int>
    decreases s.len() - pos,
{
    if pos < 0 || pos >= s.len() {
        None
    } else if s[pos] == b {
        Some(pos)
    } else {
        find_byte(s, pos + 1, b)
    }
}

pub open spec fn is_quote(b: u8) -> bool {
    b == SINGLE_QUOTE || b == DOUBLE_QUOTE
}

/// End of the string literal that begins at `pos`: a quote, any bytes but that
/// quote, and the same quote again.
pub open spec fn string_end(s: Seq<u8>, pos: int) -> Option<int> {
    if 0 <= pos < s.len() && is_quote(s[pos]) {
        match find_byte(s, pos + 1, s[pos]) {
            Some(close) => Some(close + 1),
            None => None,
        }
    } else {
        None
    }
}

/// End of the translation string `_( 'text' )` that begins at `pos`.
pub open spec fn translation_end(s: Seq<u8>, pos: int) -> Option<int> {
    if byte_is(s, pos, UNDERSCORE) && byte_is(s, pos + 1, OPEN_PAREN) {
        match string_end(s, trivia_end(s, pos + 2)) {
            Some(e) => {
                let close = trivia_end(s, e);
                if byte_is(s, close, CLOSE_PAREN) {
                    Some(close + 1)
                } else {
                    None
                }
            },
            None => None,
        }
    } else {
        None
    }
}

/// Position after an optional `+` or `-` at `pos`.
pub open spec fn sign_end(s: Seq<u8>, pos: int) -> int {
    if byte_is(s, pos, PLUS) || byte_is(s, pos, MINUS) {
        pos + 1
    } else {
        pos
    }
}

/// End of the exponent `e`, optional sign, digits that begins at `pos`.
pub open spec fn exponent_end(s: Seq<u8>, pos: int) -> Option<int> {
    if byte_is(s, pos, LOWER_E) || byte_is(s, pos, UPPER_E) {
        let digits = sign_end(s, pos + 1);
        let end = run_end(s, digits, ByteClass::Digit);
        if end > digits {
            Some(end)
        } else {
            None
        }
    } else {
        None
    }
}

/// End of the float that begins at `pos`: an optional sign, digits with a `.`
/// somewhere among or around them, and an optional exponent; or digits and an
/// exponent.
pub open spec fn float_end(s: Seq<u8>, pos: int) -> Option<int> {
    let first = sign_end(s, pos);
    let whole = run_end(s, first, ByteClass::Digit);
    if whole > first {
        if byte_is(s, whole, DOT) {
            let fraction = run_end(s, whole + 1, ByteClass::Digit);
            match exponent_end(s, fraction) {
                Some(e) => Some(e),
                None => Some(fraction),
            }
        } else {
            exponent_end(s, whole)
        }
    } else if byte_is(s, first, DOT) {
        let fraction = run_end(s, first + 1, ByteClass::Digit);
        if fraction > first + 1 {
            match exponent_end(s, fraction) {
                Some(e) => Some(e),
                None => Some(fraction),
            }
        } else {
            None
        }
    } else {
        None
    }
}

/// End of the integer that begins at `pos`: an optional sign and digits.
pub open spec fn int_end(s: Seq<u8>, pos: int) -> Option<int> {
    let first = sign_end(s, pos);
    let end = run_end(s, first, ByteClass::Digit);
    if end > first {
        Some(end)
    } else {
        None
    }
}

/// End of the name that begins at `pos`: a letter or `_`, followed by bytes of
/// `class`.
pub open spec fn name_end(s: Seq<u8>, pos: int, class: ByteClass) -> Option<int> {
    if 0 <= pos < s.len() && is_name_start(s[pos]) {
        Some(run_end(s, pos + 1, class))
    } else {
        None
    }
}

/// End of the key that begins at `pos`: a run of key bytes that begins neither
/// with `:` nor with `...`.
pub open spec fn key_end(s: Seq<u8>, pos: int) -> Option<int> {
    if class_at(s, pos, ByteClass::Key) && !byte_is(s, pos, COLON) && !(byte_is(s, pos, DOT)
        && byte_is(s, pos + 1, DOT) && byte_is(s, pos + 2, DOT)) {
        Some(run_end(s, pos, ByteClass::Key))
    } else {
        None
    }
}

/// Every byte of `s` from `from` up to `to` is ASCII.
pub open spec fn all_ascii(s: Seq<u8>, from: int, to: int) -> bool {
    forall|i: int| from <= i < to ==> #[trigger] s[i] < 0x80
}

pub proof fn lemma_run_end(s: Seq<u8>, pos: int, class: ByteClass)
    requires
        0 <= pos <= s.len(),
    ensures
        pos <= run_end(s, pos, class) <= s.len(),
        forall|i: int| pos <= i < run_end(s, pos, class) ==> in_class(class, #[trigger] s[i]),
        !class_at(s, run_end(s, pos, class), class),
    decreases s.len() - pos,
{
    if class_at(s, pos, class) {
        lemma_run_end(s, pos + 1, class);
    }
}

pub proof fn lemma_comment_close(s: Seq<u8>, pos: int)
    requires
        0 <= pos,
    ensures
        comment_close(s, pos) matches Some(e) ==> pos + 2 <= e <= s.len() && s[e - 2] == HASH
            && s[e - 1] == CLOSE_BRACE,
    decreases s.len() - pos,
{
    if pos + 2 <= s.len() && !(s[pos] == HASH && s[pos + 1] == CLOSE_BRACE) {
        lemma_comment_close(s, pos + 1);
    }
}

pub proof fn lemma_trivia_end(s: Seq<u8>, pos: int)
    requires
        0 <= pos <= s.len(),
    ensures
        pos <= trivia_end(s, pos) <= s.len(),
        !class_at(s, trivia_end(s, pos), ByteClass::Space),
        comment_end(s, trivia_end(s, pos)) is None,
    decreases s.len() - pos,
{
    if class_at(s, pos, ByteClass::Space) {
        lemma_trivia_end(s, pos + 1);
    } else {
        match comment_end(s, pos) {
            Some(e) => {
                lemma_comment_close(s, pos + 2);
                lemma_trivia_end(s, e);
            },
            None => {},
        }
    }
}

pub proof fn lemma_comments_end(s: Seq<u8>, pos: int)
    requires
        0 <= pos <= s.len(),
    ensures
        pos <= comments_end(s, pos) <= s.len(),
        comments_end(s, pos) > pos ==> comments_end(s, pos) >= pos + 4 && s[comments_end(s, pos)
            - 2] == HASH && s[comments_end(s, pos) - 1] == CLOSE_BRACE,
    decreases s.len() - pos,
{
    match comment_end(s, pos) {
        Some(e) => {
            lemma_comment_close(s, pos + 2);
            lemma_comments_end(s, e);
        },
        None => {},
    }
}

/// A value behind a spread marker and the comments that follow the marker
/// stands behind at least as many ASCII bytes that are no line feeds as the
/// marker is wide, where the marker is one or two bytes wide: behind the
/// marker itself, or behind the `#}` of the last comment.
pub proof fn lemma_behind_marker(s: Seq<u8>, pos: int, width: int)
    requires
        1 <= width <= 2,
        width <= pos <= s.len(),
        forall|i: int| pos - width <= i < pos ==> #[trigger] s[i] < 0x80 && s[i] != NEWLINE,
    ensures
        pos <= comments_end(s, pos) <= s.len(),
        forall|i: int|
            comments_end(s, pos) - width <= i < comments_end(s, pos) ==> #[trigger] s[i] < 0x80
                && s[i] != NEWLINE,
{
    lemma_comments_end(s, pos);
}

pub proof fn lemma_find_byte(s: Seq<u8>, pos: int, b: u8)
    requires
        0 <= pos,
    ensures
        find_byte(s, pos, b) matches Some(i) ==> pos <= i < s.len() && s[i] == b,
    decreases s.len() - pos,
{
    if pos < s.len() && s[pos] != b {
        lemma_find_byte(s, pos + 1, b);
    }
}

/// The range from `start` up to `end` is not empty, lies inside `s`, and has
/// an ASCII byte as its first and as its last byte.
pub open spec fn ascii_ends(s: Seq<u8>, start: int, end: int) -> bool {
    0 <= start < end <= s.len() && s[start] < 0x80 && s[end - 1] < 0x80
}

/// A token that a lexical rule matches is not empty, ends inside the input,
/// and begins and ends with an ASCII byte.
pub proof fn lemma_token_ends(s: Seq<u8>, pos: int)
    requires
        0 <= pos <= s.len(),
    ensures
        string_end(s, pos) matches Some(e) ==> ascii_ends(s, pos, e),
        translation_end(s, pos) matches Some(e) ==> ascii_ends(s, pos, e),
        float_end(s, pos) matches Some(e) ==> ascii_ends(s, pos, e),
        int_end(s, pos) matches Some(e) ==> ascii_ends(s, pos, e),
        key_end(s, pos) matches Some(e) ==> ascii_ends(s, pos, e),
        name_end(s, pos, ByteClass::Name) matches Some(e) ==> ascii_ends(s, pos, e),
        name_end(s, pos, ByteClass::Variable) matches Some(e) ==> ascii_ends(s, pos, e),
{
    if pos < s.len() {
        lemma_find_byte(s, pos + 1, s[pos]);
        lemma_run_end(s, pos, ByteClass::Key);
        lemma_run_end(s, pos + 1, ByteClass::Name);
        lemma_run_end(s, pos + 1, ByteClass::Variable);
    }
    if pos + 2 <= s.len() {
        lemma_trivia_end(s, pos + 2);
        let open = trivia_end(s, pos + 2);
        if open < s.len() {
            lemma_find_byte(s, open + 1, s[open]);
        }
        if let Some(e) = string_end(s, open) {
            lemma_trivia_end(s, e);
        }
    }
    let first = sign_end(s, pos);
    lemma_run_end(s, first, ByteClass::Digit);
    let whole = run_end(s, first, ByteClass::Digit);
    if whole < s.len() {
        lemma_run_end(s, whole + 1, ByteClass::Digit);
        lemma_exponent_end(s, run_end(s, whole + 1, ByteClass::Digit));
    }
    lemma_exponent_end(s, whole);
    if first < s.len() {
        lemma_run_end(s, first + 1, ByteClass::Digit);
        lemma_exponent_end(s, run_end(s, first + 1, ByteClass::Digit));
    }
}

/// An exponent is not empty, ends inside the input and ends with a digit.
pub proof fn lemma_exponent_end(s: Seq<u8>, pos: int)
    requires
        0 <= pos <= s.len(),
    ensures
        exponent_end(s, pos) matches Some(e) ==> pos < e <= s.len() && is_digit(s[e - 1]),
{
    if pos < s.len() {
        lemma_run_end(s, sign_end(s, pos + 1), ByteClass::Digit);
    }
}

pub fn class_contains(class: ByteClass, b: u8) -> (r: bool)
    ensures
        r == in_class(class, b),
{
    let letter = (0x41 <= b && b <= 0x5a) || (0x61 <= b && b <= 0x7a);
    let digit = 0x30 <= b && b <= 0x39;
    match class {
        ByteClass::Space => b == SPACE || b == TAB || b == NEWLINE || b == CARRIAGE_RETURN,
        ByteClass::Digit => digit,
        ByteClass::Name => letter || digit || b == UNDERSCORE,
        ByteClass::Variable => letter || digit || b == UNDERSCORE || b == DOT,
        ByteClass::Key => letter || digit || b == UNDERSCORE || b == DOT || b == COLON || b
            == AT_SIGN,
    }
}

/// Whether the byte `b` stands at `pos`.
pub fn has_byte(bytes: &[u8], pos: usize, b: u8) -> (r: bool)
    ensures
        r == byte_is(bytes@, pos as int, b),
{
    pos < bytes.len() && bytes[pos] == b
}

/// Scans the longest run of bytes of `class` from `pos`.
pub fn scan_run(bytes: &[u8], pos: usize, class: ByteClass) -> (end: usize)
    requires
        pos <= bytes@.len(),
    ensures
        end == run_end(bytes@, pos as int, class),
        pos <= end <= bytes@.len(),
{
    let mut i: usize = pos;
    while i < bytes.len() && class_contains(class, bytes[i])
        invariant
            pos <= i <= bytes@.len(),
            run_end(bytes@, pos as int, class) == run_end(bytes@, i as int, class),
        decreases bytes@.len() - i,
    {
        i += 1;
    }
    i
}

/// Scans a comment from `pos`.
pub fn scan_comment(bytes: &[u8], pos: usize) -> (r: Option<usize>)
    requires
        pos <= bytes@.len(),
    ensures
        r matches Some(e) ==> comment_end(bytes@, pos as int) == Some(e as int) && pos + 4 <= e
            <= bytes@.len(),
        r is None ==> comment_end(bytes@, pos as int) is None,
{
    let n: usize = bytes.len();
    if !(pos < n && bytes[pos] == OPEN_BRACE && pos + 1 < n && bytes[pos + 1] == HASH) {
        return None;
    }
    let mut i: usize = pos + 2;
    while n - i >= 2
        invariant
            pos + 2 <= i <= n,
            n == bytes@.len(),
            comment_end(bytes@, pos as int) == comment_close(bytes@, pos + 2),
            comment_close(bytes@, pos + 2) == comment_close(bytes@, i as int),
        decreases n - i,
    {
        if bytes[i] == HASH && bytes[i + 1] == CLOSE_BRACE {
            return Some(i + 2);
        }
        i += 1;
    }
    assert(comment_close(bytes@, i as int) is None) by {
        if i + 2 <= n {
        } else if i + 1 <= n {
        }
    }
    None
}

/// Skips whitespace and comments from `pos`.
pub fn skip_trivia(bytes: &[u8], pos: usize) -> (end: usize)
    requires
        pos <= bytes@.len(),
    ensures
        end == trivia_end(bytes@, pos as int),
        pos <= end <= bytes@.len(),
{
    let mut i: usize = pos;
    loop
        invariant
            pos <= i <= bytes@.len(),
            trivia_end(bytes@, pos as int) == trivia_end(bytes@, i as int),
        ensures
            pos <= i <= bytes@.len(),
            i == trivia_end(bytes@, pos as int),
        decreases bytes@.len() - i,
    {
        if i < bytes.len() && class_contains(ByteClass::Space, bytes[i]) {
            i += 1;
        } else {
            match scan_comment(bytes, i) {
                Some(e) => {
                    i = e;
                },
                None => {
                    break ;
                },
            }
        }
    }
    i
}

/// Skips comments, and no whitespace, from `pos`.
pub fn skip_comments(bytes: &[u8], pos: usize) -> (end: usize)
    requires
        pos <= bytes@.len(),
    ensures
        end == comments_end(bytes@, pos as int),
        pos <= end <= bytes@.len(),
{
    let mut i: usize = pos;
    loop
        invariant
            pos <= i <= bytes@.len(),
            comments_end(bytes@, pos as int) == comments_end(bytes@, i as int),
        ensures
            pos <= i <= bytes@.len(),
            i == comments_end(bytes@, pos as int),
        decreases bytes@.len() - i,
    {
        match scan_comment(bytes, i) {
            Some(e) => {
                i = e;
            },
            None => {
                break ;
            },
        }
    }
    i
}

/// Finds the first byte `b` at or after `pos`.
pub fn scan_byte(bytes: &[u8], pos: usize, b: u8) -> (r: Option<usize>)
    requires
        pos <= bytes@.len(),
    ensures
        r matches Some(i) ==> find_byte(bytes@, pos as int, b) == Some(i as int) && pos <= i
            < bytes@.len() && bytes@[i as int] == b,
        r is None ==> find_byte(bytes@, pos as int, b) is None,
{
    let mut i: usize = pos;
    while i < bytes.len()
        invariant
            pos <= i <= bytes@.len(),
            find_byte(bytes@, pos as int, b) == find_byte(bytes@, i as int, b),
        decreases bytes@.len() - i,
    {
        if bytes[i] == b {
            return Some(i);
        }
        i += 1;
    }
    None
}

/// Scans a string literal from `pos`.
pub fn scan_string(bytes: &[u8], pos: usize) -> (r: Option<usize>)
    requires
        pos <= bytes@.len(),
    ensures
        r matches Some(e) ==> string_end(bytes@, pos as int) == Some(e as int) && pos + 2 <= e
            <= bytes@.len() && is_quote(bytes@[pos as int]) && bytes@[e - 1] == bytes@[
            pos as int],
        r is None ==> string_end(bytes@, pos as int) is None,
{
    let n: usize = bytes.len();
    if pos < bytes.len() && (bytes[pos] == SINGLE_QUOTE || bytes[pos] == DOUBLE_QUOTE) {
        match scan_byte(bytes, pos + 1, bytes[pos]) {
            Some(close) => Some(close + 1),
            None => None,
        }
    } else {
        None
    }
}

/// Scans a translation string from `pos`.
pub fn scan_translation(bytes: &[u8], pos: usize) -> (r: Option<usize>)
    requires
        pos <= bytes@.len(),
    ensures
        r matches Some(e) ==> translation_end(bytes@, pos as int) == Some(e as int) && pos + 5
            <= e <= bytes@.len() && bytes@[pos as int] == UNDERSCORE && bytes@[e - 1]
            == CLOSE_PAREN && exists|q: int| pos + 2 <= q < e - 1 && is_quote(#[trigger] bytes@[q]),
        r is None ==> translation_end(bytes@, pos as int) is None,
{
    let n: usize = bytes.len();
    if !(has_byte(bytes, pos, UNDERSCORE) && has_byte(bytes, pos + 1, OPEN_PAREN)) {
        return None;
    }
    let open: usize = skip_trivia(bytes, pos + 2);
    match scan_string(bytes, open) {
        Some(e) => {
            let close: usize = skip_trivia(bytes, e);
            if has_byte(bytes, close, CLOSE_PAREN) {
                Some(close + 1)
            } else {
                None
            }
        },
        None => None,
    }
}

/// Skips an optional sign at `pos`.
pub fn skip_sign(bytes: &[u8], pos: usize) -> (end: usize)
    requires
        pos <= bytes@.len(),
    ensures
        end == sign_end(bytes@, pos as int),
        pos <= end <= bytes@.len(),
        end <= pos + 1,
{
    let n: usize = bytes.len();
    if has_byte(bytes, pos, PLUS) || has_byte(bytes, pos, MINUS) {
        pos + 1
    } else {
        pos
    }
}

/// Scans an exponent from `pos`.
pub fn scan_exponent(bytes: &[u8], pos: usize) -> (r: Option<usize>)
    requires
        pos <= bytes@.len(),
    ensures
        r matches Some(e) ==> exponent_end(bytes@, pos as int) == Some(e as int) && pos < e
            <= bytes@.len() && is_digit(bytes@[e - 1]),
        r is None ==> exponent_end(bytes@, pos as int) is None,
{
    let n: usize = bytes.len();
    if has_byte(bytes, pos, LOWER_E) || has_byte(bytes, pos, UPPER_E) {
        let digits: usize = skip_sign(bytes, pos + 1);
        let end: usize = scan_run(bytes, digits, ByteClass::Digit);
        if end > digits {
            proof {
                lemma_run_end(bytes@, digits as int, ByteClass::Digit);
            }
            Some(end)
        } else {
            None
        }
    } else {
        None
    }
}

/// Scans a float from `pos`.
pub fn scan_float(bytes: &[u8], pos: usize) -> (r: Option<usize>)
    requires
        pos <= bytes@.len(),
    ensures
        r matches Some(e) ==> float_end(bytes@, pos as int) == Some(e as int) && pos < e
            <= bytes@.len() && bytes@[pos as int] < 0x80 && bytes@[e - 1] < 0x80,
        r is None ==> float_end(bytes@, pos as int) is None,
{
    let n: usize = bytes.len();
    let first: usize = skip_sign(bytes, pos);
    let whole: usize = scan_run(bytes, first, ByteClass::Digit);
    proof {
        lemma_run_end(bytes@, first as int, ByteClass::Digit);
    }
    if whole > first {
        if has_byte(bytes, whole, DOT) {
            let fraction: usize = scan_run(bytes, whole + 1, ByteClass::Digit);
            proof {
                lemma_run_end(bytes@, whole + 1, ByteClass::Digit);
            }
            match scan_exponent(bytes, fraction) {
                Some(e) => Some(e),
                None => Some(fraction),
            }
        } else {
            scan_exponent(bytes, whole)
        }
    } else if has_byte(bytes, first, DOT) {
        let fraction: usize = scan_run(bytes, first + 1, ByteClass::Digit);
        proof {
            lemma_run_end(bytes@, first + 1, ByteClass::Digit);
        }
        if fraction > first + 1 {
            match scan_exponent(bytes, fraction) {
                Some(e) => Some(e),
                None => Some(fraction),
            }
        } else {
            None
        }
    } else {
        None
    }
}

/// Scans an integer from `pos`.
pub fn scan_int(bytes: &[u8], pos: usize) -> (r: Option<usize>)
    requires
        pos <= bytes@.len(),
    ensures
        r matches Some(e) ==> int_end(bytes@, pos as int) == Some(e as int) && pos < e
            <= bytes@.len() && bytes@[pos as int] < 0x80 && bytes@[e - 1] < 0x80,
        r is None ==> int_end(bytes@, pos as int) is None,
{
    let n: usize = bytes.len();
    let first: usize = skip_sign(bytes, pos);
    let end: usize = scan_run(bytes, first, ByteClass::Digit);
    proof {
        lemma_run_end(bytes@, first as int, ByteClass::Digit);
    }
    if end > first {
        Some(end)
    } else {
        None
    }
}

/// Scans a name from `pos`: a letter or `_`, followed by bytes of `class`.
pub fn scan_name(bytes: &[u8], pos: usize, class: ByteClass) -> (r: Option<usize>)
    requires
        pos <= bytes@.len(),
    ensures
        r matches Some(e) ==> name_end(bytes@, pos as int, class) == Some(e as int) && pos < e
            <= bytes@.len() && all_ascii(bytes@, pos as int, e as int),
        r is None ==> name_end(bytes@, pos as int, class) is None,
{
    let n: usize = bytes.len();
    if pos < bytes.len() && (bytes[pos] == UNDERSCORE || (0x41 <= bytes[pos] && bytes[pos] <= 0x5a)
        || (0x61 <= bytes[pos] && bytes[pos] <= 0x7a)) {
        let end: usize = scan_run(bytes, pos + 1, class);
        proof {
            lemma_run_end(bytes@, pos + 1, class);
        }
        Some(end)
    } else {
        None
    }
}

/// Scans a key from `pos`.
pub fn scan_key(bytes: &[u8], pos: usize) -> (r: Option<usize>)
    requires
        pos <= bytes@.len(),
    ensures
        r matches Some(e) ==> key_end(bytes@, pos as int) == Some(e as int) && pos < e
            <= bytes@.len() && all_ascii(bytes@, pos as int, e as int),
        r is None ==> key_end(bytes@, pos as int) is None,
{
    let n: usize = bytes.len();
    if pos < bytes.len() && class_contains(ByteClass::Key, bytes[pos]) && bytes[pos] != COLON && !(
    has_byte(bytes, pos, DOT) && has_byte(bytes, pos + 1, DOT) && has_byte(bytes, pos + 2, DOT)) {
        let end: usize = scan_run(bytes, pos, ByteClass::Key);
        proof {
            lemma_run_end(bytes@, pos as int, ByteClass::Key);
        }
        Some(end)
    } else {
        None
    }
}

} // verus!
