use vstd::prelude::*;
use vstd::string::StringSliceAdditionalSpecFns;
use vstd::utf8::is_char_boundary;

verus! {

/// A source file: its path and its full text.
#[derive(Debug, Clone, Copy)]
pub struct Input<'src> {
    pub path: &'src str,
    pub text: &'src str,
}

impl<'src> Input<'src> {
    /// The path of the file.
    pub fn file_path(&self) -> (r: &'src str)
        ensures
            r@ == self.path@,
    {
        self.path
    }

    /// The full text of the file.
    pub fn full_input(&self) -> (r: &'src str)
        ensures
            r@ == self.text@,
    {
        self.text
    }
}

/// Represents a certain range of a file. This is useful for marking the locations that certain tokens or errors occur.
/// The position and length are both in BYTES. The byte offsets provided should be valid.
#[derive(Debug, Clone)]
pub struct Span<'src> {
    pub position: usize,
    pub length: usize,
    pub source: Input<'src>,
}

/// The start and end of the smallest range that covers both spans.
pub open spec fn merge_range(a: Span, b: Span) -> (int, int) {
    (
        if a.position <= b.position {
            a.position as int
        } else {
            b.position as int
        },
        if a.position + a.length >= b.position + b.length {
            a.position + a.length
        } else {
            b.position + b.length
        },
    )
}

/// Merging spans is symmetric: both orders cover the same range.
pub proof fn lemma_merge_symmetric(a: Span, b: Span)
    ensures
        merge_range(a, b) == merge_range(b, a),
{
}

/// Merging spans covers both: the merged range starts no later and ends no earlier than
/// either span.
pub proof fn lemma_merge_covers(a: Span, b: Span)
    ensures
        merge_range(a, b).0 <= a.position,
        merge_range(a, b).0 <= b.position,
        merge_range(a, b).1 >= a.position + a.length,
        merge_range(a, b).1 >= b.position + b.length,
{
}

impl<'src> Span<'src> {
    /// Creates a new span, given a file, starting position and the length that the span should be.
    pub fn from_length(source: Input<'src>, position: usize, length: usize) -> (r: Self)
        ensures
            r.source == source,
            r.position == position,
            r.length == length,
    {
        Self { source, position, length }
    }

    /// Creates a new span, given a file, starting position and end position.
    pub fn from_end(source: Input<'src>, position: usize, end: usize) -> (r: Self)
        requires
            end >= position,
        ensures
            r.source == source,
            r.position == position,
            r.length == end - position,
    {
        Self { source, position, length: end - position }
    }

    /// The byte offset just past the span.
    pub fn end(&self) -> (r: usize)
        requires
            self.position + self.length <= usize::MAX,
        ensures
            r == self.position + self.length,
    {
        self.position + self.length
    }

    /// Get a string from the source file, described by this span.
    pub fn as_str(&self) -> (r: &'src str)
        requires
            self.position + self.length <= self.source.text.spec_bytes().len(),
            is_char_boundary(self.source.text.spec_bytes(), self.position as int),
            is_char_boundary(
                self.source.text.spec_bytes().subrange(
                    self.position as int,
                    self.source.text.spec_bytes().len() as int,
                ),
                self.length as int,
            ),
        ensures
            r.spec_bytes() == self.source.text.spec_bytes().subrange(
                self.position as int,
                self.position + self.length,
            ),
    {
        let full = self.source.full_input();
        let (_, rest) = full.split_at(self.position);
        let (r, _) = rest.split_at(self.length);
        assert(r.spec_bytes() =~= self.source.text.spec_bytes().subrange(
            self.position as int,
            self.position + self.length,
        ));
        r
    }

    /// Merge two spans: the smallest span of `self`'s source that covers both.
    pub fn merge(&self, other: &Span) -> (r: Self)
        requires
            self.position + self.length <= usize::MAX,
            other.position + other.length <= usize::MAX,
        ensures
            r.source == self.source,
            (r.position as int, r.position + r.length) == merge_range(*self, *other),
    {
        let start = if self.position <= other.position {
            self.position
        } else {
            other.position
        };
        let end = if self.end() >= other.end() {
            self.end()
        } else {
            other.end()
        };
        Self::from_end(self.source, start, end)
    }
}

} // verus!
