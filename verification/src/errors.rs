use vstd::prelude::*;

verus! {

/// Errors surfaced by the streaming components.
///
/// `UnresolvableSize` aborts layout construction when a part's byte length is
/// unknown. `OutOfRange` reports a lookup of a virtual position beyond the
/// total length. `InvalidSeek` reports a seek whose resulting position would
/// be negative; it is recoverable, the cursor is left unchanged.
#[derive(Clone, Copy, Debug, PartialEq, Eq, Structural)]
pub enum StreamError {
    UnresolvableSize,
    OutOfRange,
    InvalidSeek,
}

} // verus!
