//! What seals `SealedTrait`: reachable in this crate only.
use vstd::prelude::*;

verus! {

pub struct Token;

pub trait Sealed {}

} // verus!
