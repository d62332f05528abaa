use vstd::prelude::*;

verus! {

/// Keeps [`SlotItem`](super::SlotItem) from being implemented outside this
/// crate.
pub trait Sealed {
}

} // verus!
