//! Frontend for the CVARINFO console-variable declaration language: a verified
//! recursive-descent parser producing a typed abstract syntax tree, together
//! with the deduplicating string interner the parser stores identifiers in,
//! and a reader for the whitespace-separated LOADACS object list.
//!
//! Byte offsets into the source text are tracked as [`Span`] values attached
//! to every AST node. The entry point for CVARINFO text is
//! [`cvarinfo::CVarInfo::parse`].

use vstd::prelude::*;
use vstd::string::StringSliceAdditionalSpecFns;
use vstd::utf8::is_char_boundary;

pub mod cvarinfo;
pub mod grammar;
pub mod interner;
pub mod loadacs;

verus! {

/// Immutable half-open byte-offset range into the source text.
#[derive(Debug, Clone, Copy, PartialEq, Eq, Structural)]
pub struct Span {
    start: usize,
    end: usize,
}

/// Mathematical image of a [`Span`]: the same two offsets as unbounded integers.
#[verifier::ext_equal]
pub struct SpanModel {
    pub start: int,
    pub end: int,
}

impl View for Span {
    type V = SpanModel;

    closed spec fn view(&self) -> SpanModel {
        SpanModel { start: self.start as int, end: self.end as int }
    }
}

impl Span {
    pub fn new(start: usize, end: usize) -> (s: Self)
        ensures
            s@ == (SpanModel { start: start as int, end: end as int }),
    {
        Self { start, end }
    }

    pub fn start(&self) -> (r: usize)
        ensures
            r == self@.start,
    {
        self.start
    }

    pub fn end(&self) -> (r: usize)
        ensures
            r == self@.end,
    {
        self.end
    }

    /// Whether the span's start and end both lie on UTF-8 character boundaries
    /// of `source` and are ordered, so that the span denotes a well-formed
    /// slice of `source`. Principally for use in a debug assertion.
    pub fn validate(&self, source: &str) -> (r: bool)
        ensures
            r == (self@.start <= self@.end && is_char_boundary(source.spec_bytes(), self@.start)
                && is_char_boundary(source.spec_bytes(), self@.end)),
    {
        proof {
            vstd::utf8::encode_utf8_valid_utf8(source@);
        }
        self.start <= self.end && source.is_char_boundary(self.start) && source.is_char_boundary(
            self.end,
        )
    }

    /// Covering span of two spans, taken componentwise: the larger of the two
    /// starts and the larger of the two ends. This is deliberately kept as
    /// componentwise maxima rather than the set union (which would take the
    /// smaller start): every use merges a sub-node's span into one that begins
    /// no earlier, where the two definitions coincide.
    pub fn combine(self, other: Self) -> (r: Self)
        ensures
            r@.start == if self@.start >= other@.start {
                self@.start
            } else {
                other@.start
            },
            r@.end == if self@.end >= other@.end {
                self@.end
            } else {
                other@.end
            },
    {
        Self {
            start: if self.start >= other.start {
                self.start
            } else {
                other.start
            },
            end: if self.end >= other.end {
                self.end
            } else {
                other.end
            },
        }
    }
}

/// A parsed name: its location in the source and its handle in the interner
/// the parse call stored it in.
#[derive(Debug, Clone, PartialEq, Eq)]
pub struct Identifier {
    pub span: Span,
    pub string: crate::interner::StringHandle,
}

/// Mathematical image of an [`Identifier`]: its span and its interner index.
#[verifier::ext_equal]
pub struct IdentModel {
    pub span: SpanModel,
    pub index: int,
}

impl View for Identifier {
    type V = IdentModel;

    open spec fn view(&self) -> IdentModel {
        IdentModel { span: self.span@, index: self.string.index.0 as int }
    }
}

/// The syntactic category the parser needed and did not find.
#[derive(Debug, Clone, Copy, PartialEq, Eq, Structural)]
pub enum Expected {
    /// A `bool`/`int`/`float`/`string`/`color` keyword (or a flag qualifier
    /// leading up to one) had to follow.
    TypeSpecifier,
    /// A declaration's name had to follow: an ASCII letter, then letters,
    /// digits or underscores.
    Identifier,
    /// The terminating `;` of a declaration had to follow.
    Semicolon,
}

impl Expected {
    /// Human-readable description of the missing category.
    pub fn describe(&self) -> (r: &'static str)
        ensures
            r@ == self.spec_describe(),
    {
        match self {
            Expected::TypeSpecifier => "a scope keyword, flag qualifier or type specifier",
            Expected::Identifier => "an identifier",
            Expected::Semicolon => "a semicolon",
        }
    }

    pub open spec fn spec_describe(&self) -> Seq<char> {
        match self {
            Expected::TypeSpecifier => "a scope keyword, flag qualifier or type specifier"@,
            Expected::Identifier => "an identifier"@,
            Expected::Semicolon => "a semicolon"@,
        }
    }
}

/// Failure of a whole parse: the grammar is all-or-nothing, so one such value
/// is produced per rejected input, carrying the byte offset at which the
/// failing grammar rule gave up and the category expected there.
#[derive(Debug, Clone, Copy, PartialEq, Eq, Structural)]
pub struct ParseError {
    pub offset: usize,
    pub expected: Expected,
}

} // verus!
