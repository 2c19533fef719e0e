//! Errors of the facilitator.

use vstd::prelude::*;

verus! {

/// Why the facilitator refuses a request, with what it says of it.
#[derive(Debug)]
pub enum FacilitatorError {
    /// The request cannot be parsed.
    Malformed(String),
    /// A signature does not decode, does not verify, or is by another key.
    InvalidSignature(String),
    /// The facilitator's own machinery failed.
    Internal(String),
}

/// A [`FacilitatorError`] with its text as a sequence.
pub enum Refusal {
    Malformed(Seq<char>),
    InvalidSignature(Seq<char>),
    Internal(Seq<char>),
}

impl View for FacilitatorError {
    type V = Refusal;

    open spec fn view(&self) -> Refusal {
        match *self {
            FacilitatorError::Malformed(m) => Refusal::Malformed(m@),
            FacilitatorError::InvalidSignature(m) => Refusal::InvalidSignature(m@),
            FacilitatorError::Internal(m) => Refusal::Internal(m@),
        }
    }
}

impl FacilitatorError {
    /// What the error says.
    pub fn text(&self) -> (r: &str)
        ensures
            r@ == (match self@ {
                Refusal::Malformed(m) => m,
                Refusal::InvalidSignature(m) => m,
                Refusal::Internal(m) => m,
            }),
    {
        match self {
            FacilitatorError::Malformed(m) => m.as_str(),
            FacilitatorError::InvalidSignature(m) => m.as_str(),
            FacilitatorError::Internal(m) => m.as_str(),
        }
    }
}

/// An error is of the kind, and says the text, that it was made with.
pub proof fn law_error_fields(e: FacilitatorError)
    ensures
        e matches FacilitatorError::Malformed(m) ==> e@ == Refusal::Malformed(m@),
        e matches FacilitatorError::InvalidSignature(m) ==> e@ == Refusal::InvalidSignature(m@),
        e matches FacilitatorError::Internal(m) ==> e@ == Refusal::Internal(m@),
{
}

} // verus!
