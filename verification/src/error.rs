//! The error taxonomy of the pipeline.

use vstd::prelude::*;

verus! {

/// The four ways an invocation can fail; the pipeline stops at the
/// first failing stage and reports exactly one of these.
///
/// Each fault carries `at`: the index, into the invocation's flat
/// token stream, of the token the diagnostic anchors at — the first
/// leftover token for trailing input, the target type's first token
/// for a mismatch, the `impl` keyword when no placeholder is found,
/// and the second qualifying parameter when two are.  For an item the
/// host grammar rejects before its shape is found, the anchor is the
/// item's first token.  The boundary that reports the diagnostic maps
/// the index back to the source span it recorded for that token.
#[derive(Clone, Copy, PartialEq, Eq, Structural, Debug)]
pub enum Fault {
    /// The input is not exactly an enum item followed by an impl item.
    Malformed { at: usize },
    /// The impl's target type is not the enum's bare identifier.
    IdentityMismatch { at: usize },
    /// No generic parameter of the impl qualifies as the placeholder.
    MissingPlaceholder { at: usize },
    /// More than one generic parameter qualifies as the placeholder.
    DuplicatePlaceholder { at: usize },
}

impl Fault {
    /// The diagnostic text of this fault.
    pub open spec fn text_model(self) -> Seq<char> {
        match self {
            Fault::Malformed { at } => "can only have two items: enum and impl block"@,
            Fault::IdentityMismatch { at } => "must be the same ident as the enum"@,
            Fault::MissingPlaceholder { at } => "missing a placeholder identifier definition"@,
            Fault::DuplicatePlaceholder { at } => "can only have one placeholder identifier"@,
        }
    }

    /// The token index the diagnostic anchors at.
    pub open spec fn anchor_model(self) -> int {
        match self {
            Fault::Malformed { at } => at as int,
            Fault::IdentityMismatch { at } => at as int,
            Fault::MissingPlaceholder { at } => at as int,
            Fault::DuplicatePlaceholder { at } => at as int,
        }
    }

    /// The diagnostic message reported at the invocation site.
    pub fn text(&self) -> (r: String)
        ensures
            r@ == self.text_model(),
    {
        match self {
            Fault::Malformed { at } => String::from_str(
                "can only have two items: enum and impl block",
            ),
            Fault::IdentityMismatch { at } => String::from_str("must be the same ident as the enum"),
            Fault::MissingPlaceholder { at } => String::from_str(
                "missing a placeholder identifier definition",
            ),
            Fault::DuplicatePlaceholder { at } => String::from_str(
                "can only have one placeholder identifier",
            ),
        }
    }

    /// The token index the diagnostic anchors at.
    pub fn anchor(&self) -> (r: usize)
        ensures
            r as int == self.anchor_model(),
    {
        match self {
            Fault::Malformed { at } => *at,
            Fault::IdentityMismatch { at } => *at,
            Fault::MissingPlaceholder { at } => *at,
            Fault::DuplicatePlaceholder { at } => *at,
        }
    }
}

} // verus!
