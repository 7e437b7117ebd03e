//! The closed set of syntactic categories, for tokens and nodes alike.

use vstd::prelude::*;

verus! {

/// Tag of a tree element: the token kinds come first, then the node
/// kinds, and `Root` last.  The numbering used on the wire (see
/// [`MathLanguage`]) follows the declaration order.
#[derive(Debug, Clone, Copy, PartialEq, Eq, Structural, Hash)]
pub enum SyntaxKind {
    // Tokens
    Number,
    Plus,
    Minus,
    Star,
    Slash,
    LParen,
    RParen,
    Whitespace,
    Error,
    // Expressions
    BinaryExpr,
    ParenExpr,
    LiteralExpr,
    // Root
    Root,
}

/// The language marker: a carrier for the conversions between
/// [`SyntaxKind`] and its raw numbering.  Only its associated
/// functions are used.
#[derive(Debug, Clone, Copy, PartialEq, Eq, Structural, Hash)]
pub enum MathLanguage {
    Marker,
}

/// The raw number of each kind, in declaration order.
pub open spec fn raw_of_kind(kind: SyntaxKind) -> u16 {
    match kind {
        SyntaxKind::Number => 0,
        SyntaxKind::Plus => 1,
        SyntaxKind::Minus => 2,
        SyntaxKind::Star => 3,
        SyntaxKind::Slash => 4,
        SyntaxKind::LParen => 5,
        SyntaxKind::RParen => 6,
        SyntaxKind::Whitespace => 7,
        SyntaxKind::Error => 8,
        SyntaxKind::BinaryExpr => 9,
        SyntaxKind::ParenExpr => 10,
        SyntaxKind::LiteralExpr => 11,
        SyntaxKind::Root => 12,
    }
}

/// The kind a raw number stands for; meaningful only up to `Root`.
pub open spec fn kind_of_raw(raw: u16) -> SyntaxKind {
    if raw == 0 {
        SyntaxKind::Number
    } else if raw == 1 {
        SyntaxKind::Plus
    } else if raw == 2 {
        SyntaxKind::Minus
    } else if raw == 3 {
        SyntaxKind::Star
    } else if raw == 4 {
        SyntaxKind::Slash
    } else if raw == 5 {
        SyntaxKind::LParen
    } else if raw == 6 {
        SyntaxKind::RParen
    } else if raw == 7 {
        SyntaxKind::Whitespace
    } else if raw == 8 {
        SyntaxKind::Error
    } else if raw == 9 {
        SyntaxKind::BinaryExpr
    } else if raw == 10 {
        SyntaxKind::ParenExpr
    } else if raw == 11 {
        SyntaxKind::LiteralExpr
    } else {
        SyntaxKind::Root
    }
}

impl MathLanguage {
    /// The kind a raw number stands for.  Numbers above `Root`'s stand
    /// for nothing and are refused.
    pub fn kind_from_raw(raw: u16) -> (kind: SyntaxKind)
        requires
            raw <= raw_of_kind(SyntaxKind::Root),
        ensures
            kind == kind_of_raw(raw),
            raw_of_kind(kind) == raw,
    {
        if raw == 0 {
            SyntaxKind::Number
        } else if raw == 1 {
            SyntaxKind::Plus
        } else if raw == 2 {
            SyntaxKind::Minus
        } else if raw == 3 {
            SyntaxKind::Star
        } else if raw == 4 {
            SyntaxKind::Slash
        } else if raw == 5 {
            SyntaxKind::LParen
        } else if raw == 6 {
            SyntaxKind::RParen
        } else if raw == 7 {
            SyntaxKind::Whitespace
        } else if raw == 8 {
            SyntaxKind::Error
        } else if raw == 9 {
            SyntaxKind::BinaryExpr
        } else if raw == 10 {
            SyntaxKind::ParenExpr
        } else if raw == 11 {
            SyntaxKind::LiteralExpr
        } else {
            SyntaxKind::Root
        }
    }

    /// The raw number of a kind.
    pub fn kind_to_raw(kind: SyntaxKind) -> (raw: u16)
        ensures
            raw == raw_of_kind(kind),
            raw <= raw_of_kind(SyntaxKind::Root),
    {
        match kind {
            SyntaxKind::Number => 0,
            SyntaxKind::Plus => 1,
            SyntaxKind::Minus => 2,
            SyntaxKind::Star => 3,
            SyntaxKind::Slash => 4,
            SyntaxKind::LParen => 5,
            SyntaxKind::RParen => 6,
            SyntaxKind::Whitespace => 7,
            SyntaxKind::Error => 8,
            SyntaxKind::BinaryExpr => 9,
            SyntaxKind::ParenExpr => 10,
            SyntaxKind::LiteralExpr => 11,
            SyntaxKind::Root => 12,
        }
    }
}

/// Converting a kind to its raw number and back yields the kind again.
pub proof fn lemma_kind_raw_round_trip(kind: SyntaxKind)
    ensures
        kind_of_raw(raw_of_kind(kind)) == kind,
{
}

} // verus!
