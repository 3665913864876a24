//! What an expansion reports when it fails.

use crate::token::Position;
use vstd::prelude::*;
use vstd::string::StringExecFns;

verus! {

/// The kinds of failure.
#[derive(Clone, Copy, Debug, PartialEq, Eq, Structural)]
pub enum ErrorKind {
    /// The invocation header does not follow its grammar.
    Syntax,
    /// A bound is not a non-negative integer, or the start lies beyond the end.
    Range,
    /// The body holds a repetition marker that cannot be honoured.
    Structure,
    /// A splice operator after an identifier is not followed by an identifier.
    Splice,
}

/// Where a failure was found.
#[derive(Clone, Copy, Debug, PartialEq, Eq, Structural)]
pub enum Place {
    /// At the token that carries this position.
    At(Position),
    /// Behind the last token: the input ended too early.
    EndOfInput,
}

/// A failure together with the place it is reported at.
#[derive(Clone, Copy, Debug, PartialEq, Eq, Structural)]
pub struct Diagnostic {
    pub kind: ErrorKind,
    pub place: Place,
}

impl Diagnostic {
    /// A failure of `kind` at the token with position `pos`.
    pub fn at(kind: ErrorKind, pos: Position) -> (d: Diagnostic)
        ensures
            d == (Diagnostic { kind, place: Place::At(pos) }),
    {
        Diagnostic { kind, place: Place::At(pos) }
    }

    /// A dangling splice is reported as a fault of the syntax, located at the splice.
    pub open spec fn syntactic(self) -> bool {
        self.kind == ErrorKind::Syntax || self.kind == ErrorKind::Splice
    }

    /// Whether the failure is a fault of the syntax.
    pub fn is_syntactic(&self) -> (b: bool)
        ensures
            b == self.syntactic(),
    {
        match self.kind {
            ErrorKind::Syntax => true,
            ErrorKind::Splice => true,
            _ => false,
        }
    }

    /// The text of the message for each kind.
    pub open spec fn message_text(self) -> Seq<char> {
        match self.kind {
            ErrorKind::Syntax => "expected `<ident> in <int>..<int> { ... }`"@,
            ErrorKind::Range => "range bounds must be non-negative integers with start <= end"@,
            ErrorKind::Structure => "unsupported repetition marker `#( ... )*`"@,
            ErrorKind::Splice => "splice operator `~` must be followed by an identifier"@,
        }
    }

    /// The message that names the offending construct.
    pub fn message(&self) -> (s: String)
        ensures
            s@ == self.message_text(),
    {
        match self.kind {
            ErrorKind::Syntax => String::from_str("expected `<ident> in <int>..<int> { ... }`"),
            ErrorKind::Range => String::from_str(
                "range bounds must be non-negative integers with start <= end",
            ),
            ErrorKind::Structure => String::from_str("unsupported repetition marker `#( ... )*`"),
            ErrorKind::Splice => String::from_str(
                "splice operator `~` must be followed by an identifier",
            ),
        }
    }
}

} // verus!
