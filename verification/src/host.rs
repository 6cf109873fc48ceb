use vstd::prelude::*;

verus! {

/// The decode-side handle: the embedding audio pipeline drives its decoder
/// loop through this marker while pulling bytes from an `HlsStream`.
pub struct Decoder;

impl Decoder {
    pub fn new() -> Decoder {
        Decoder {  }
    }
}

/// Allocation interface for host-bridge wire values: the embedding layer
/// implements it for its own wire types, whose pointer fields begin life
/// null.
pub trait NewWithNullPtr: Sized {
    fn new_with_null_ptr() -> Self;
}

} // verus!
