//! Where a parse stopped, and what it was looking for.

use vstd::prelude::*;

verus! {

/// The things a parser can be looking for at one position of the input. Each
/// flag stands for one of them.
#[derive(Debug, Clone, Copy, PartialEq, Eq, Structural)]
pub struct Expectations {
    /// The letter that opens a record: one of `t u c e a p r`.
    pub tag: bool,
    /// A colon.
    pub colon: bool,
    /// A character of a literal: a plain byte or a two-byte escape.
    pub text: bool,
    /// A double quote.
    pub quote: bool,
    /// The operator of a relationship: `--` or `->`.
    pub operator: bool,
    /// The `\u` that opens a UTF-16 escape.
    pub unicode_escape: bool,
    /// A hexadecimal digit of a UTF-16 escape.
    pub hex_digit: bool,
    /// A literal whose bytes are valid UTF-8.
    pub utf8: bool,
}

/// How a failed parse is classified.
#[derive(Debug, Clone, Copy, PartialEq, Eq, Structural)]
pub enum ErrorKind {
    /// A delimiter, a quote or a digit of an escape is missing.
    Lexical,
    /// No record and no relationship begins at the position.
    Grammar,
    /// The bytes of a literal are not valid UTF-8.
    Encoding,
}

/// A failed parse: the position at which it stopped and what was expected there.
#[derive(Debug, Clone, Copy, PartialEq, Eq, Structural)]
pub struct ParseError {
    /// The offset into the input of the byte that did not fit, or the length of
    /// the input where it ended too early.
    pub position: usize,
    /// What would have been accepted at `position`.
    pub expected: Expectations,
}

/// A failure as the grammar states it, with an unbounded position.
pub struct Failure {
    pub position: int,
    pub expected: Expectations,
}

impl Expectations {
    /// Nothing is expected.
    pub open spec fn nothing() -> Expectations {
        Expectations {
            tag: false,
            colon: false,
            text: false,
            quote: false,
            operator: false,
            unicode_escape: false,
            hex_digit: false,
            utf8: false,
        }
    }

    pub open spec fn only_tag() -> Expectations {
        Expectations { tag: true, ..Expectations::nothing() }
    }

    pub open spec fn only_colon() -> Expectations {
        Expectations { colon: true, ..Expectations::nothing() }
    }

    pub open spec fn only_text() -> Expectations {
        Expectations { text: true, ..Expectations::nothing() }
    }

    pub open spec fn only_quote() -> Expectations {
        Expectations { quote: true, ..Expectations::nothing() }
    }

    pub open spec fn only_operator() -> Expectations {
        Expectations { operator: true, ..Expectations::nothing() }
    }

    pub open spec fn only_unicode_escape() -> Expectations {
        Expectations { unicode_escape: true, ..Expectations::nothing() }
    }

    pub open spec fn only_hex_digit() -> Expectations {
        Expectations { hex_digit: true, ..Expectations::nothing() }
    }

    pub open spec fn only_utf8() -> Expectations {
        Expectations { utf8: true, ..Expectations::nothing() }
    }

    /// Everything that `self` or `other` expects.
    pub open spec fn union(self, other: Expectations) -> Expectations {
        Expectations {
            tag: self.tag || other.tag,
            colon: self.colon || other.colon,
            text: self.text || other.text,
            quote: self.quote || other.quote,
            operator: self.operator || other.operator,
            unicode_escape: self.unicode_escape || other.unicode_escape,
            hex_digit: self.hex_digit || other.hex_digit,
            utf8: self.utf8 || other.utf8,
        }
    }

    /// The expectations with no flag set.
    pub fn none() -> (result: Expectations)
        ensures
            result == Expectations::nothing(),
    {
        Expectations {
            tag: false,
            colon: false,
            text: false,
            quote: false,
            operator: false,
            unicode_escape: false,
            hex_digit: false,
            utf8: false,
        }
    }

    /// The flags of `self` and of `other` together.
    pub fn merge(self, other: Expectations) -> (result: Expectations)
        ensures
            result == self.union(other),
    {
        Expectations {
            tag: self.tag || other.tag,
            colon: self.colon || other.colon,
            text: self.text || other.text,
            quote: self.quote || other.quote,
            operator: self.operator || other.operator,
            unicode_escape: self.unicode_escape || other.unicode_escape,
            hex_digit: self.hex_digit || other.hex_digit,
            utf8: self.utf8 || other.utf8,
        }
    }
}

impl Failure {
    /// The failure that got further into the input. Where both stopped at the
    /// same position, what either expected there.
    pub open spec fn furthest(self, other: Failure) -> Failure {
        if self.position > other.position {
            self
        } else if other.position > self.position {
            other
        } else {
            Failure { position: self.position, expected: self.expected.union(other.expected) }
        }
    }

    /// The class of the failure: an encoding failure where valid UTF-8 was
    /// expected, else a grammar failure where a record could have begun, else a
    /// lexical failure.
    pub open spec fn kind(self) -> ErrorKind {
        if self.expected.utf8 {
            ErrorKind::Encoding
        } else if self.expected.tag {
            ErrorKind::Grammar
        } else {
            ErrorKind::Lexical
        }
    }
}

impl View for ParseError {
    type V = Failure;

    open spec fn view(&self) -> Failure {
        Failure { position: self.position as int, expected: self.expected }
    }
}

impl ParseError {
    /// The failure at `position` with the expectations `expected`.
    pub fn new(position: usize, expected: Expectations) -> (result: ParseError)
        ensures
            result.position == position,
            result.expected == expected,
    {
        ParseError { position, expected }
    }

    /// The failure that got further into the input. Where both stopped at the
    /// same position, the one failure that expects what either expected.
    pub fn merge(self, other: ParseError) -> (result: ParseError)
        ensures
            result@ == self@.furthest(other@),
    {
        if self.position > other.position {
            self
        } else if other.position > self.position {
            other
        } else {
            ParseError { position: self.position, expected: self.expected.merge(other.expected) }
        }
    }

    /// The class of the failure.
    pub fn kind(&self) -> (result: ErrorKind)
        ensures
            result == self@.kind(),
    {
        if self.expected.utf8 {
            ErrorKind::Encoding
        } else if self.expected.tag {
            ErrorKind::Grammar
        } else {
            ErrorKind::Lexical
        }
    }
}

} // verus!
