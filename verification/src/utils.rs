use vstd::prelude::*;

verus! {

/// A contiguous range of character positions inside a document buffer.
///
/// Parsers stamp every zero-copy leaf with the range it was read from, so a
/// later splice can address exactly those characters.  The range is half open:
/// `start` is the position of the first character of the leaf, `end` is one
/// past its last character.
#[derive(Clone, Copy, Debug, PartialEq, Eq, Structural)]
pub struct TextSpan {
    pub start: usize,
    pub end: usize,
}

/// True when `span` addresses a well-formed range inside a buffer of length `n`.
pub open spec fn span_in_range(span: TextSpan, n: int) -> bool {
    span.start <= span.end <= n
}

/// Returns the half-open range of buffer positions a leaf occupies.
///
/// The caller must only hand in a span that was stamped onto a leaf while
/// parsing the same buffer it now addresses; the range is meaningless against
/// any other buffer.
pub fn get_range(part: &TextSpan) -> (r: (usize, usize))
    ensures
        r.0 == part.start,
        r.1 == part.end,
{
    (part.start, part.end)
}

} // verus!
