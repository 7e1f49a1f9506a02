//! The input text with what the parser needs of it: its bytes, the line and
//! column of every offset, and the text between two offsets.

use crate::lexical::NEWLINE;
use vstd::prelude::*;
use vstd::string::StringSliceAdditionalSpecFns;
use vstd::utf8::*;

verus! {

/// The 1-indexed line and column of offset `pos` in `s`.
///
/// A line ends with a line feed. The column counts characters, not bytes: a
/// continuation byte of a UTF-8 sequence does not advance it.
pub open spec fn line_col_at(s: Seq<u8>, pos: int) -> (int, int)
    decreases pos,
{
    if pos <= 0 {
        (1, 1)
    } else {
        let before = line_col_at(s, pos - 1);
        if s[pos - 1] == NEWLINE {
            (before.0 + 1, 1)
        } else if is_continuation_byte(s[pos - 1]) {
            before
        } else {
            (before.0, before.1 + 1)
        }
    }
}

/// Lines and columns start at 1 and never exceed the offset by more than 1.
pub proof fn lemma_line_col_bounds(s: Seq<u8>, pos: int)
    requires
        0 <= pos,
    ensures
        1 <= line_col_at(s, pos).0 <= pos + 1,
        1 <= line_col_at(s, pos).1 <= pos + 1,
    decreases pos,
{
    if pos > 0 {
        lemma_line_col_bounds(s, pos - 1);
    }
}

/// After `k` ASCII bytes that are no line feeds, the line is the same and the
/// column is `k` further.
pub proof fn lemma_line_col_advance(s: Seq<u8>, pos: int, k: int)
    requires
        0 <= pos,
        0 <= k,
        forall|i: int| pos <= i < pos + k ==> #[trigger] s[i] < 0x80 && s[i] != NEWLINE,
    ensures
        line_col_at(s, pos + k) == (line_col_at(s, pos).0, line_col_at(s, pos).1 + k),
    decreases k,
{
    if k > 0 {
        lemma_line_col_advance(s, pos, k - 1);
    }
}

/// Behind `k` ASCII bytes that are no line feeds, the column is greater than
/// `k`.
pub proof fn lemma_column_behind(s: Seq<u8>, pos: int, k: int)
    requires
        0 <= k <= pos,
        forall|i: int| pos - k <= i < pos ==> #[trigger] s[i] < 0x80 && s[i] != NEWLINE,
    ensures
        line_col_at(s, pos).1 > k,
{
    lemma_line_col_bounds(s, pos - k);
    lemma_line_col_advance(s, pos - k, k);
}

/// In valid UTF-8, an offset where an ASCII byte stands, and the offset after
/// an ASCII byte, are character boundaries.
pub proof fn lemma_ascii_boundaries(s: Seq<u8>, start: int, end: int)
    requires
        valid_utf8(s),
        0 <= start < end <= s.len(),
        s[start] < 0x80,
        s[end - 1] < 0x80,
    ensures
        is_char_boundary(s, start),
        is_char_boundary(s, end),
        valid_utf8(s.subrange(0, end)),
        is_char_boundary(s.subrange(0, end), start),
        valid_utf8(s.subrange(start, end)),
{
    is_char_boundary_iff_not_is_continuation_byte(s, start);
    is_char_boundary_iff_not_is_continuation_byte(s, end - 1);
    if end == s.len() {
        is_char_boundary_start_end_of_seq(s);
    } else {
        valid_utf8_split(s, end - 1);
        let tail = s.subrange(end - 1, s.len() as int);
        let rest = pop_first_scalar(tail);
        assert(valid_utf8(rest));
        is_char_boundary_iff_not_is_continuation_byte(s, end);
    }
    valid_utf8_split(s, end);
    let head = s.subrange(0, end);
    is_char_boundary_iff_not_is_continuation_byte(head, start);
    valid_utf8_split(head, start);
    assert(head.subrange(start, head.len() as int) =~= s.subrange(start, end));
}

/// A character boundary of valid UTF-8 is a character boundary of every
/// prefix that ends at a character boundary behind it.
pub proof fn lemma_boundary_in_prefix(s: Seq<u8>, start: int, end: int)
    requires
        valid_utf8(s),
        0 <= start <= end <= s.len(),
        is_char_boundary(s, start),
        is_char_boundary(s, end),
    ensures
        valid_utf8(s.subrange(0, end)),
        is_char_boundary(s.subrange(0, end), start),
{
    valid_utf8_split(s, end);
    let head = s.subrange(0, end);
    if start == end {
        is_char_boundary_start_end_of_seq(head);
    } else {
        is_char_boundary_iff_not_is_continuation_byte(s, start);
        assert(head[start] == s[start]);
        is_char_boundary_iff_not_is_continuation_byte(head, start);
    }
}

/// The text of an attribute list, indexed for parsing.
pub struct Source<'a> {
    text: &'a str,
    /// For each offset, the line feeds before it and the characters between the
    /// last of them and the offset.
    counts: Vec<(usize, usize)>,
}

impl<'a> Source<'a> {
    /// The bytes of the text.
    pub closed spec fn bytes(&self) -> Seq<u8> {
        self.text.spec_bytes()
    }

    /// The index agrees with the text.
    pub closed spec fn wf(&self) -> bool {
        &&& self.counts@.len() == self.bytes().len()
        &&& forall|i: int|
            0 <= i < self.counts@.len() ==> line_col_at(self.bytes(), i) == (
                (#[trigger] self.counts@[i]).0 + 1,
                self.counts@[i].1 + 1,
            )
    }

    /// The bytes of a text are valid UTF-8.
    pub proof fn lemma_valid(&self)
        ensures
            valid_utf8(self.bytes()),
    {
        encode_utf8_valid_utf8(self.text@);
    }

    /// Indexes `text`.
    pub fn new(text: &'a str) -> (r: Source<'a>)
        ensures
            r.wf(),
            r.bytes() == text.spec_bytes(),
    {
        let bytes = text.as_bytes();
        let n: usize = bytes.len();
        let mut counts: Vec<(usize, usize)> = Vec::new();
        let mut lines: usize = 0;
        let mut chars: usize = 0;
        let mut i: usize = 0;
        while i < n
            invariant
                i <= n,
                n == bytes@.len(),
                counts@.len() == i,
                lines <= i,
                chars <= i,
                line_col_at(bytes@, i as int) == (lines + 1, chars + 1),
                forall|k: int|
                    0 <= k < i ==> line_col_at(bytes@, k) == (
                        (#[trigger] counts@[k]).0 + 1,
                        counts@[k].1 + 1,
                    ),
            decreases n - i,
        {
            counts.push((lines, chars));
            let b: u8 = bytes[i];
            if b == NEWLINE {
                lines += 1;
                chars = 0;
            } else if !(0x80 <= b && b <= 0xbf) {
                chars += 1;
            }
            i += 1;
        }
        Source { text, counts }
    }

    /// The bytes of the text.
    pub fn as_bytes(&self) -> (r: &[u8])
        ensures
            r@ == self.bytes(),
            r@.len() <= usize::MAX,
    {
        let bytes = self.text.as_bytes();
        let _: usize = bytes.len();
        bytes
    }

    /// The line and column of offset `pos`.
    pub fn line_col(&self, pos: usize) -> (r: (usize, usize))
        requires
            self.wf(),
            pos < self.bytes().len(),
        ensures
            (r.0 as int, r.1 as int) == line_col_at(self.bytes(), pos as int),
    {
        let n: usize = self.counts.len();
        let c: (usize, usize) = self.counts[pos];
        proof {
            lemma_line_col_bounds(self.bytes(), pos as int);
            assert(line_col_at(self.bytes(), pos as int) == (
                self.counts@[pos as int].0 + 1,
                self.counts@[pos as int].1 + 1,
            ));
        }
        (c.0 + 1, c.1 + 1)
    }

    /// The text from `start` up to `end`, where both offsets are character
    /// boundaries.
    pub fn text_between(&self, start: usize, end: usize) -> (r: String)
        requires
            start <= end <= self.bytes().len(),
            is_char_boundary(self.bytes(), start as int),
            is_char_boundary(self.bytes(), end as int),
        ensures
            r@ == decode_utf8(self.bytes().subrange(start as int, end as int)),
    {
        proof {
            self.lemma_valid();
            lemma_boundary_in_prefix(self.bytes(), start as int, end as int);
        }
        let (head, _) = self.text.split_at(end);
        let (_, part) = head.split_at(start);
        proof {
            assert(part.spec_bytes() =~= self.bytes().subrange(start as int, end as int));
            encode_utf8_decode_utf8(part@);
        }
        part.to_owned()
    }
}

} // verus!
