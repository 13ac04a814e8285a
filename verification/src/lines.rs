//! Line numbers of byte offsets.
//!
//! The index itself is `ruff_source_file::LineIndex`. The two functions
//! marked `external_body` call it and are taken on trust; what a line number
//! is, and that it never falls as the offset rises, is stated and proved here.

use crate::seqs::{lemma_filter_empty, lemma_filter_push};
use vstd::prelude::*;
use vstd::string::StringSliceAdditionalSpecFns;

verus! {

#[verifier::external_type_specification]
#[verifier::external_body]
pub struct ExTextSize(ruff_text_size::TextSize);

#[verifier::external_type_specification]
#[verifier::external_body]
pub struct ExLineIndex(ruff_source_file::LineIndex);

/// The offsets at which the lines known to `index` start, in the order in
/// which the index holds them.
pub uninterp spec fn line_starts(index: ruff_source_file::LineIndex) -> Seq<u32>;

/// The bytes that `text` is held as.
pub open spec fn bytes_of(text: Seq<char>) -> Seq<u8> {
    vstd::utf8::encode_utf8(text)
}

/// Whether a line ends with the byte at `at`: a line feed, or a carriage
/// return that no line feed follows.
pub open spec fn ends_line(bytes: Seq<u8>, at: int) -> bool {
    &&& 0 <= at < bytes.len()
    &&& (bytes[at] == 10 || (bytes[at] == 13 && !(at + 1 < bytes.len() && bytes[at + 1] == 10)))
}

/// The starts of the lines that begin before `upto` or at it: offset 0, and
/// each offset after a byte that ends a line, in rising order.
pub open spec fn starts_upto(bytes: Seq<u8>, upto: int) -> Seq<u32>
    decreases upto,
{
    if upto <= 0 {
        seq![0u32]
    } else if ends_line(bytes, upto - 1) {
        starts_upto(bytes, upto - 1).push(upto as u32)
    } else {
        starts_upto(bytes, upto - 1)
    }
}

/// How many of `starts` are at `offset` or before it.
pub open spec fn starts_within(starts: Seq<u32>, offset: u32) -> nat {
    starts.filter(|start: u32| start <= offset).len()
}

/// How many lines end before `offset`.
pub open spec fn lines_ended(bytes: Seq<u8>, offset: int) -> nat
    decreases offset,
{
    if offset <= 0 {
        0
    } else if ends_line(bytes, offset - 1) {
        lines_ended(bytes, offset - 1) + 1
    } else {
        lines_ended(bytes, offset - 1)
    }
}

/// The number of the line that holds `offset`, counted from 1. An offset
/// past the end is on the last line.
pub open spec fn line_number_at(bytes: Seq<u8>, offset: u32) -> nat {
    lines_ended(bytes, offset as int) + 1
}

/// Builds the index with `LineIndex::from_source_text`. Trusted: the index
/// holds offset 0 and each offset after a line end, in rising order. The
/// outside function refuses a text of more than `u32::MAX` bytes.
#[verifier::external_body]
fn index_lines(text: &str) -> (index: ruff_source_file::LineIndex)
    requires
        text.spec_bytes().len() <= u32::MAX,
    ensures
        line_starts(index) == starts_upto(text.spec_bytes(), text.spec_bytes().len() as int),
{
    ruff_source_file::LineIndex::from_source_text(text)
}

/// Looks `offset` up with `LineIndex::line_index`. Trusted: the line's
/// number, from 1, is the number of line starts at the offset or before it.
#[verifier::external_body]
fn line_at(index: &ruff_source_file::LineIndex, offset: u32) -> (line: usize)
    requires
        line_starts(*index).len() > 0,
        line_starts(*index)[0] == 0,
    ensures
        line == starts_within(line_starts(*index), offset),
{
    index.line_index(offset.into()).get()
}

/// No line ends at the end of the text or after it.
pub proof fn lemma_lines_ended_past_end(bytes: Seq<u8>, offset: int)
    requires
        offset >= bytes.len(),
    ensures
        lines_ended(bytes, offset) == lines_ended(bytes, bytes.len() as int),
    decreases offset,
{
    if offset > bytes.len() {
        lemma_lines_ended_past_end(bytes, offset - 1);
    }
}

/// The count of lines that have ended never falls as the offset rises.
pub proof fn lemma_lines_ended_monotonic(bytes: Seq<u8>, low: int, high: int)
    requires
        low <= high,
    ensures
        lines_ended(bytes, low) <= lines_ended(bytes, high),
    decreases high - low,
{
    if low < high {
        lemma_lines_ended_monotonic(bytes, low, high - 1);
    }
}

/// Line numbers never fall as the offset rises.
pub proof fn lemma_line_numbers_monotonic(bytes: Seq<u8>, low: u32, high: u32)
    requires
        low <= high,
    ensures
        line_number_at(bytes, low) <= line_number_at(bytes, high),
{
    lemma_lines_ended_monotonic(bytes, low as int, high as int);
}

/// Among the starts of the lines that begin at `upto` or before, those
/// within `offset` are one more than the lines that end before the smaller
/// of the two.
pub proof fn lemma_starts_count(bytes: Seq<u8>, upto: int, offset: u32)
    requires
        0 <= upto <= bytes.len() <= u32::MAX,
    ensures
        starts_upto(bytes, upto).len() > 0,
        starts_upto(bytes, upto)[0] == 0,
        starts_within(starts_upto(bytes, upto), offset) == lines_ended(
            bytes,
            if upto <= offset {
                upto
            } else {
                offset as int
            },
        ) + 1,
    decreases upto,
{
    let within = |start: u32| start <= offset;
    if upto <= 0 {
        lemma_filter_empty(within);
        lemma_filter_push(Seq::<u32>::empty(), 0u32, within);
        assert(seq![0u32] =~= Seq::<u32>::empty().push(0u32));
    } else {
        lemma_starts_count(bytes, upto - 1, offset);
        if ends_line(bytes, upto - 1) {
            lemma_filter_push(starts_upto(bytes, upto - 1), upto as u32, within);
        }
        if upto > offset {
            assert(upto - 1 >= offset);
        }
    }
}

/// The lines of a source text.
pub struct SourceLines {
    index: ruff_source_file::LineIndex,
    bytes: Ghost<Seq<u8>>,
}

impl SourceLines {
    /// The bytes of the text whose lines these are.
    pub closed spec fn bytes(&self) -> Seq<u8> {
        self.bytes@
    }

    /// Whether the index holds the line starts of the text.
    #[verifier::type_invariant]
    spec fn wf(&self) -> bool {
        &&& self.bytes@.len() <= u32::MAX
        &&& line_starts(self.index) == starts_upto(self.bytes@, self.bytes@.len() as int)
    }

    /// The lines of `text`; `None` where the text has more than `u32::MAX`
    /// bytes, so that not every offset in it could be told.
    pub fn new(text: &str) -> (r: Option<Self>)
        ensures
            r is Some <==> text.spec_bytes().len() <= u32::MAX,
            r matches Some(lines) ==> lines.bytes() == text.spec_bytes(),
    {
        if text.as_bytes().len() > u32::MAX as usize {
            return None;
        }
        let index = index_lines(text);
        Some(SourceLines { index, bytes: Ghost(text.spec_bytes()) })
    }

    /// The number of the line that holds `offset`, counted from 1.
    pub fn line_number(&self, offset: u32) -> (line: usize)
        ensures
            line == line_number_at(self.bytes(), offset),
    {
        proof {
            use_type_invariant(self);
            lemma_starts_count(self.bytes@, self.bytes@.len() as int, offset);
            if self.bytes@.len() <= offset {
                lemma_lines_ended_past_end(self.bytes@, offset as int);
            }
        }
        line_at(&self.index, offset)
    }
}

} // verus!
