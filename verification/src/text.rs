//! Offsets and ranges into a source text, and slices of it.
use vstd::prelude::*;
use vstd::utf8::*;

verus! {

/// An offset into a source text, in bytes.
#[derive(Clone, Copy, Debug, PartialEq, Eq, Structural, PartialOrd, Ord, Hash)]
pub struct TextSize {
    pub raw: u32,
}

impl TextSize {
    pub fn new(raw: u32) -> (size: TextSize)
        ensures
            size.raw == raw,
    {
        TextSize { raw }
    }

    /// The larger of two offsets.
    pub open spec fn later(self, other: TextSize) -> TextSize {
        if self.raw <= other.raw {
            other
        } else {
            self
        }
    }

    /// Returns the larger of two offsets.
    pub fn max(self, other: TextSize) -> (size: TextSize)
        ensures
            size == self.later(other),
    {
        if self.raw <= other.raw {
            other
        } else {
            self
        }
    }
}

/// A stretch of a source text: the bytes from `start` up to, but not including, `end`.
#[derive(Clone, Copy, Debug, PartialEq, Eq, Structural, Hash)]
pub struct TextRange {
    pub start: TextSize,
    pub end: TextSize,
}

impl TextRange {
    pub fn new(start: TextSize, end: TextSize) -> (range: TextRange)
        requires
            start.raw <= end.raw,
        ensures
            range.start == start,
            range.end == end,
    {
        TextRange { start, end }
    }
}

/// Whether `range` cuts `text` at character boundaries, in order.
pub open spec fn valid_range(text: Seq<char>, range: TextRange) -> bool {
    &&& range.start.raw <= range.end.raw <= encode_utf8(text).len()
    &&& is_char_boundary(encode_utf8(text), range.start.raw as int)
    &&& is_char_boundary(encode_utf8(text), range.end.raw as int)
}

/// The characters of `text` whose UTF-8 encoding fills `range`.
pub open spec fn text_in(text: Seq<char>, range: TextRange) -> Seq<char> {
    decode_utf8(encode_utf8(text).subrange(range.start.raw as int, range.end.raw as int))
}

/// What follows a character boundary keeps the character boundaries behind it.
proof fn lemma_boundary_after_split(bytes: Seq<u8>, mid: int, index: int)
    requires
        valid_utf8(bytes),
        is_char_boundary(bytes, mid),
        is_char_boundary(bytes, index),
        0 <= mid <= index <= bytes.len(),
    ensures
        valid_utf8(bytes.subrange(mid, bytes.len() as int)),
        is_char_boundary(bytes.subrange(mid, bytes.len() as int), index - mid),
{
    let rest = bytes.subrange(mid, bytes.len() as int);
    valid_utf8_split(bytes, mid);
    if index == bytes.len() {
        is_char_boundary_start_end_of_seq(rest);
    } else {
        is_char_boundary_iff_not_is_continuation_byte(bytes, index);
        is_char_boundary_iff_not_is_continuation_byte(rest, index - mid);
        assert(rest[index - mid] == bytes[index]);
    }
}

/// What comes before a character boundary keeps the character boundaries in it.
proof fn lemma_boundary_before_split(bytes: Seq<u8>, mid: int, index: int)
    requires
        valid_utf8(bytes),
        is_char_boundary(bytes, mid),
        is_char_boundary(bytes, index),
        0 <= index <= mid <= bytes.len(),
    ensures
        valid_utf8(bytes.subrange(0, mid)),
        is_char_boundary(bytes.subrange(0, mid), index),
{
    let part = bytes.subrange(0, mid);
    valid_utf8_split(bytes, mid);
    if index == mid {
        is_char_boundary_start_end_of_seq(part);
    } else {
        is_char_boundary_iff_not_is_continuation_byte(bytes, index);
        is_char_boundary_iff_not_is_continuation_byte(part, index);
        assert(part[index] == bytes[index]);
    }
}

/// The stretch between two others.
pub open spec fn gap(left: TextRange, right: TextRange) -> TextRange {
    TextRange { start: left.end, end: right.start }
}

/// What fills two stretches one behind the other is what fills the first and then the second.
pub proof fn lemma_text_in_split(text: Seq<char>, left: TextRange, right: TextRange)
    requires
        valid_range(text, left),
        valid_range(text, right),
        left.end == right.start,
    ensures
        text_in(text, TextRange { start: left.start, end: right.end }) == text_in(text, left)
            + text_in(text, right),
{
    let bytes = encode_utf8(text);
    let start = left.start.raw as int;
    let mid = left.end.raw as int;
    let end = right.end.raw as int;
    encode_utf8_valid_utf8(text);
    lemma_boundary_after_split(bytes, start, mid);
    lemma_boundary_after_split(bytes, start, end);
    let rest = bytes.subrange(start, bytes.len() as int);
    valid_utf8_split(rest, end - start);
    let whole = rest.subrange(0, end - start);
    assert(whole =~= bytes.subrange(start, end));
    lemma_boundary_before_split(rest, end - start, mid - start);
    decode_utf8_split(whole, mid - start);
    assert(whole.subrange(0, mid - start) =~= bytes.subrange(start, mid));
    assert(whole.subrange(mid - start, whole.len() as int) =~= bytes.subrange(mid, end));
}

/// Whether a character ends a line.
pub open spec fn is_line_break(c: char) -> bool {
    c == '\n' || c == '\r' || c == '\u{2028}' || c == '\u{2029}'
}

/// Whether `text` holds a character that ends a line.
pub open spec fn has_line_break(text: Seq<char>) -> bool {
    exists|i: int| 0 <= i < text.len() && is_line_break(#[trigger] text[i])
}

/// A text holds a line break where one of its parts does.
pub proof fn lemma_line_break_in_parts(left: Seq<char>, right: Seq<char>)
    ensures
        has_line_break(left + right) == (has_line_break(left) || has_line_break(right)),
{
    let whole = left + right;
    if has_line_break(whole) {
        let i = choose|i: int| 0 <= i < whole.len() && is_line_break(#[trigger] whole[i]);
        if i >= left.len() {
            assert(is_line_break(right[i - left.len()]));
        } else {
            assert(is_line_break(left[i]));
        }
    }
    if has_line_break(left) {
        let i = choose|i: int| 0 <= i < left.len() && is_line_break(#[trigger] left[i]);
        assert(is_line_break(whole[i]));
    }
    if has_line_break(right) {
        let i = choose|i: int| 0 <= i < right.len() && is_line_break(#[trigger] right[i]);
        assert(is_line_break(whole[left.len() + i]));
    }
}

/// Returns whether `text` holds a character that ends a line.
pub fn holds_line_break(text: &str) -> (found: bool)
    ensures
        found == has_line_break(text@),
        found <==> text@.contains('\n') || text@.contains('\r') || text@.contains('\u{2028}')
            || text@.contains('\u{2029}'),
{
    proof {
        law_line_breaks(text@);
    }
    let mut found: bool = false;
    for c in iter: text.chars()
        invariant
            iter.seq() == text@,
            found == has_line_break(text@.take(iter.index())),
    {
        proof {
            let done = text@.take(iter.index());
            assert(text@.take(iter.index() + 1) =~= done + seq![c]);
            lemma_line_break_in_parts(done, seq![c]);
            assert(is_line_break(c) ==> is_line_break(seq![c][0]));
        }
        if c == '\n' || c == '\r' || c == '\u{2028}' || c == '\u{2029}' {
            found = true;
        }
    }
    assert(text@.take(text@.len() as int) =~= text@);
    found
}

/// Returns whether `range` cuts `text` at character boundaries, in order.
pub fn check_range(text: &str, range: TextRange) -> (valid: bool)
    ensures
        valid == valid_range(text@, range),
{
    proof {
        encode_utf8_valid_utf8(text@);
        reveal_with_fuel(is_char_boundary, 2);
    }
    range.start.raw <= range.end.raw && text.is_char_boundary(range.start.raw as usize)
        && text.is_char_boundary(range.end.raw as usize)
}

/// Returns the part of `text` that fills `range`.
pub fn slice<'a>(text: &'a str, range: TextRange) -> (part: &'a str)
    requires
        valid_range(text@, range),
    ensures
        part@ == text_in(text@, range),
        encode_utf8(part@) == encode_utf8(text@).subrange(
            range.start.raw as int,
            range.end.raw as int,
        ),
{
    let ghost bytes = encode_utf8(text@);
    proof {
        encode_utf8_valid_utf8(text@);
        lemma_boundary_after_split(bytes, range.start.raw as int, range.end.raw as int);
    }
    let (_, rest) = text.split_at(range.start.raw as usize);
    let (part, _) = rest.split_at((range.end.raw - range.start.raw) as usize);
    proof {
        assert(encode_utf8(part@) =~= bytes.subrange(
            range.start.raw as int,
            range.end.raw as int,
        ));
        encode_utf8_decode_utf8(part@);
    }
    part
}

/// The larger of two offsets is one of them, and not smaller than either.
pub proof fn law_later_is_the_larger(left: TextSize, right: TextSize)
    ensures
        left.later(right) == left || left.later(right) == right,
        left.later(right).raw >= left.raw,
        left.later(right).raw >= right.raw,
{
}

/// A range cuts a text exactly if it starts no later than it ends, ends no later than the text, and
/// starts and ends at character boundaries.
pub proof fn law_when_a_range_cuts(text: Seq<char>, range: TextRange)
    ensures
        valid_range(text, range) <==> {
            let start = range.start.raw as int;
            let end = range.end.raw as int;
            let bytes = encode_utf8(text);
            start <= end && end <= bytes.len() && is_char_boundary(bytes, start)
                && is_char_boundary(bytes, end)
        },
{
}

/// The text in a range is encoded by the bytes in that range, so that the whole text is in the
/// range of all its bytes.
pub proof fn law_text_in_range_has_its_bytes(text: Seq<char>, range: TextRange)
    requires
        valid_range(text, range),
    ensures
        encode_utf8(text_in(text, range)) == encode_utf8(text).subrange(
            range.start.raw as int,
            range.end.raw as int,
        ),
        range.start.raw == 0 && range.end.raw == encode_utf8(text).len() ==> text_in(text, range)
            == text,
{
    let bytes = encode_utf8(text);
    let start = range.start.raw as int;
    let end = range.end.raw as int;
    encode_utf8_valid_utf8(text);
    lemma_boundary_after_split(bytes, start, end);
    let rest = bytes.subrange(start, bytes.len() as int);
    valid_utf8_split(rest, end - start);
    assert(rest.subrange(0, end - start) =~= bytes.subrange(start, end));
    decode_utf8_encode_utf8(bytes.subrange(start, end));
    if start == 0 && end == bytes.len() {
        assert(bytes.subrange(0, end) =~= bytes);
        encode_utf8_decode_utf8(text);
    }
}

/// A text holds a line break exactly if it holds a line feed, a carriage return, a line separator
/// or a paragraph separator.
pub proof fn law_line_breaks(text: Seq<char>)
    ensures
        has_line_break(text) <==> text.contains('\n') || text.contains('\r') || text.contains(
            '\u{2028}',
        ) || text.contains('\u{2029}'),
{
    if has_line_break(text) {
        let i = choose|i: int| 0 <= i < text.len() && is_line_break(#[trigger] text[i]);
        assert(text.contains(text[i]));
    }
    assert forall|i: int|
        0 <= i < text.len() && (#[trigger] text[i] == '\n' || text[i] == '\r' || text[i]
            == '\u{2028}' || text[i] == '\u{2029}') implies has_line_break(text) by {
        assert(is_line_break(text[i]));
    }
}

} // verus!
