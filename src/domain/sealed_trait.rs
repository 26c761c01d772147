//! A trait that other crates can see and call but not implement, one of
//! whose methods they cannot call either: its parameter's type is private.

mod private;

use vstd::prelude::*;

verus! {

pub trait SealedTrait: private::Sealed {
    fn method(&self);

    fn sealed_method(&self, token: private::Token);
}

pub struct ExportedType {}

impl private::Sealed for ExportedType {}

impl SealedTrait for ExportedType {
    fn method(&self) {
    }

    fn sealed_method(&self, _token: private::Token) {
    }
}

/// Calls the sealed method, which only this crate can name the argument of.
pub fn call_to_sealed_meothod<T: SealedTrait>(value: &T) {
    value.sealed_method(private::Token {});
}

} // verus!
