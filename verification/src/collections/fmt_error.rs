use vstd::prelude::*;

verus! {

/// `std::fmt::Error`, which the text encoders name in their result type.
#[verifier::external_type_specification]
#[verifier::external_body]
pub struct ExFmtError(std::fmt::Error);

} // verus!
