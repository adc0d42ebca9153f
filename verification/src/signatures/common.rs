//! What the signature validators share.
use vstd::prelude::*;

verus! {

/// Confidence of a match that a header check has confirmed.
pub const CONFIDENCE_HIGH: u8 = 250;

/// The data at the given offset is not an instance of the signature.
#[derive(Debug, Clone, Copy, PartialEq, Eq, Structural)]
pub struct SignatureError;

/// What a validator found at an offset.
#[derive(Debug, Clone)]
pub struct SignatureResult {
    /// Where the matched data starts.
    pub offset: usize,
    /// Identifier of the signature.
    pub id: String,
    /// Length of the matched data.
    pub size: usize,
    /// Short name of the signature.
    pub name: String,
    /// How sure the validator is.
    pub confidence: u8,
    /// Human-readable description of the match.
    pub description: String,
    /// Show the match even when it lies inside another one.
    pub always_display: bool,
    /// The validator advises against extracting the match.
    pub extraction_declined: bool,
}

/// `r` holds the default value of every field but those that a validator sets
/// (offset, size, confidence and description).
pub open spec fn other_fields_default(r: SignatureResult) -> bool {
    &&& r.id@ == Seq::<char>::empty()
    &&& r.name@ == Seq::<char>::empty()
    &&& !r.always_display
    &&& !r.extraction_declined
}

impl Default for SignatureResult {
    fn default() -> (r: Self)
        ensures
            r.offset == 0,
            r.size == 0,
            r.confidence == 0,
            r.description@ == Seq::<char>::empty(),
            other_fields_default(r),
    {
        SignatureResult {
            offset: 0,
            id: String::new(),
            size: 0,
            name: String::new(),
            confidence: 0,
            description: String::new(),
            always_display: false,
            extraction_declined: false,
        }
    }
}

} // verus!
