use crate::named::span::Span;
use crate::text::push_char;
use vstd::prelude::*;

verus! {

/// A set of characters, as inclusive ranges.
#[derive(Debug, Clone, Hash, PartialEq, Eq)]
pub struct CharacterClass {
    pub ranges: Vec<(char, char)>,
}

/// The text of one range of a character class.
pub open spec fn range_text(r: (char, char)) -> Seq<char> {
    if r.0 == r.1 {
        seq!['\'', r.0, '\'']
    } else {
        seq!['\'', r.0, '\'', '-', '\'', r.1, '\'']
    }
}

/// The text of the first `n` ranges, separated by `" | "`.
pub open spec fn ranges_text(rs: Seq<(char, char)>, n: nat) -> Seq<char>
    decreases n,
{
    if n == 0 {
        Seq::empty()
    } else if n == 1 {
        range_text(rs[0])
    } else {
        ranges_text(rs, (n - 1) as nat) + " | "@ + range_text(rs[n - 1])
    }
}

/// The text of a character class, as the grammar writes it: `['a'-'z' | '_']`.
pub open spec fn class_text(cc: CharacterClass) -> Seq<char> {
    "["@ + ranges_text(cc.ranges@, cc.ranges@.len()) + "]"@
}

impl CharacterClass {
    /// The text of this character class.
    pub fn to_display_string(&self) -> (r: String)
        ensures
            r@ == class_text(*self),
    {
        let mut s = String::new();
        s.append("[");
        let mut i: usize = 0;
        while i < self.ranges.len()
            invariant
                i <= self.ranges@.len(),
                s@ == "["@ + ranges_text(self.ranges@, i as nat),
            decreases self.ranges@.len() - i,
        {
            if i > 0 {
                s.append(" | ");
            }
            let (lo, hi) = self.ranges[i];
            push_char(&mut s, '\'');
            push_char(&mut s, lo);
            push_char(&mut s, '\'');
            if lo != hi {
                push_char(&mut s, '-');
                push_char(&mut s, '\'');
                push_char(&mut s, hi);
                push_char(&mut s, '\'');
            }
            assert(s@ =~= "["@ + ranges_text(self.ranges@, (i + 1) as nat));
            i += 1;
        }
        s.append("]");
        s
    }
}

/// Represents a single thing that went wrong at this position.
#[derive(Debug, Clone, Hash, Eq, PartialEq)]
pub enum Expect {
    /// Expect a character from a certain char class to be there, but it was not.
    ExpectCharClass(CharacterClass),
    /// Expect a certain string (keyword) to be there, but it was not.
    ExpectString(String),
    /// Expect a certain sort
    ExpectSort(String),
    /// This happens when not the entire input was parsed, but also no errors occurred during parsing.
    NotEntireInput(),
}

/// The text that describes an expectation.
pub open spec fn expect_text(e: Expect) -> Seq<char> {
    match e {
        Expect::ExpectCharClass(cc) => class_text(cc),
        Expect::ExpectString(s) => "'"@ + s@ + "'"@,
        Expect::ExpectSort(s) => s@,
        Expect::NotEntireInput() => "more input"@,
    }
}

impl Expect {
    /// The text that describes this expectation.
    pub fn to_display_string(&self) -> (r: String)
        ensures
            r@ == expect_text(*self),
    {
        match self {
            Expect::ExpectCharClass(cc) => cc.to_display_string(),
            Expect::ExpectString(s) => {
                let mut r = String::new();
                r.append("'");
                r.append(s.as_str());
                r.append("'");
                r
            },
            Expect::ExpectSort(s) => {
                let mut r = String::new();
                r.append(s.as_str());
                r
            },
            Expect::NotEntireInput() => {
                let mut r = String::new();
                r.append("more input");
                r
            },
        }
    }
}

/// A parsing error represents a single error that occurred during parsing.
/// The parsing error occurs at a certain position in a file, represented by the span.
/// The parsing error consists of multiple `Expect`s, which each represent a single thing that went wrong at this position.
#[derive(Debug, Clone)]
pub struct PEGParseError<'src> {
    pub span: Span<'src>,
    pub expected: Vec<Expect>,
    pub fail_left_rec: bool,
    pub fail_loop: bool,
}

impl<'src> PEGParseError<'src> {
    /// An error that expected `expect` at `span`.
    pub fn expect(span: Span<'src>, expect: Expect) -> (r: Self)
        ensures
            r.span == span,
            r.expected@ == seq![expect],
            !r.fail_left_rec,
            !r.fail_loop,
    {
        let mut expected = Vec::new();
        expected.push(expect);
        PEGParseError { span, expected, fail_left_rec: false, fail_loop: false }
    }

    /// An error of failed left recursion at `span`.
    pub fn fail_left_recursion(span: Span<'src>) -> (r: Self)
        ensures
            r.span == span,
            r.expected@ == Seq::<Expect>::empty(),
            r.fail_left_rec,
            !r.fail_loop,
    {
        PEGParseError { span, expected: Vec::new(), fail_left_rec: true, fail_loop: false }
    }

    /// An error of a failed loop at `span`.
    pub fn fail_loop(span: Span<'src>) -> (r: Self)
        ensures
            r.span == span,
            r.expected@ == Seq::<Expect>::empty(),
            !r.fail_left_rec,
            r.fail_loop,
    {
        PEGParseError { span, expected: Vec::new(), fail_left_rec: false, fail_loop: true }
    }

    /// Combine multiple parse errors. When one has precedence over
    /// another, the highest precedence error is kept and the other
    /// is discarded.
    ///
    /// Highest precedence is defined as furthest starting position for now. This might be changed later.
    pub fn combine(self, other: PEGParseError<'src>) -> (r: PEGParseError<'src>)
        requires
            self.span.source.path@ == other.span.source.path@,
        ensures
            self.span.position < other.span.position ==> r == other,
            self.span.position > other.span.position ==> r == self,
            self.span.position == other.span.position ==> {
                &&& r.span.position == self.span.position
                &&& r.span.source == self.span.source
                &&& r.span.length == (if self.span.length >= other.span.length {
                    self.span.length
                } else {
                    other.span.length
                })
                &&& r.expected@ == self.expected@ + other.expected@
                &&& r.fail_left_rec == (self.fail_left_rec || other.fail_left_rec)
                &&& r.fail_loop == self.fail_loop
            },
    {
        let mut s = self;
        let mut o = other;
        if s.span.position < o.span.position {
            o
        } else if s.span.position > o.span.position {
            s
        } else {
            if o.span.length > s.span.length {
                s.span.length = o.span.length;
            }
            s.expected.append(&mut o.expected);
            s.fail_left_rec = s.fail_left_rec || o.fail_left_rec;
            s
        }
    }

    /// A helper that combines optional parse errors, and returns an optional parse error if either exists.
    /// If both exist, use `PEGParseError::combine` to combine the errors.
    pub fn combine_option_parse_error(
        a: Option<PEGParseError<'src>>,
        b: Option<PEGParseError<'src>>,
    ) -> (r: Option<PEGParseError<'src>>)
        requires
            a is Some && b is Some ==> a->0.span.source.path@ == b->0.span.source.path@,
        ensures
            a is None ==> r == b,
            a is Some && b is None ==> r == a,
            a is Some && b is Some ==> r is Some && {
                let (x, y, z) = (a->0, b->0, r->0);
                &&& x.span.position < y.span.position ==> z == y
                &&& x.span.position > y.span.position ==> z == x
                &&& x.span.position == y.span.position ==> {
                    &&& z.span.position == x.span.position
                    &&& z.span.source == x.span.source
                    &&& z.span.length == (if x.span.length >= y.span.length {
                        x.span.length
                    } else {
                        y.span.length
                    })
                    &&& z.expected@ == x.expected@ + y.expected@
                    &&& z.fail_left_rec == (x.fail_left_rec || y.fail_left_rec)
                    &&& z.fail_loop == x.fail_loop
                }
            },
    {
        match (a, b) {
            (None, None) => None,
            (None, Some(e)) => Some(e),
            (Some(e), None) => Some(e),
            (Some(e1), Some(e2)) => Some(e1.combine(e2)),
        }
    }
}

} // verus!
