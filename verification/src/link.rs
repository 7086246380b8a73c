//! The content identifier that a link holds.
use vstd::prelude::*;

verus! {

/// `cid::CidGeneric`, the content identifier of the `cid` crate, carried through as an
/// opaque value: nothing is claimed about what it holds.
#[verifier::external_type_specification]
#[verifier::external_body]
pub struct ExCidGeneric<const S: usize>(cid::CidGeneric<S>);

} // verus!
