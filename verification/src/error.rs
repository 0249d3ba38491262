use vstd::prelude::*;

verus! {

/// Why the store refused an operation. A refused operation changes nothing.
#[derive(Clone, Copy, Debug, PartialEq, Eq, Structural)]
pub enum StoreError {
    /// An archetype was asked for with room for no actor at all.
    ZeroCapacity,
    /// A descriptor's alignment is not a power of two, or its size is not a
    /// multiple of its alignment.
    InvalidType,
    /// The same type occurs twice among the components of one actor: two
    /// descriptors have one identity.
    DuplicateComponentType,
    /// The types of the components on offer are not exactly those of the
    /// archetype, or a value is not as long as its column's values are.
    BundleMismatch,
    /// The block that would hold the columns is larger than any allocation
    /// can be.
    BlockTooLarge,
    /// Every actor identity has been issued.
    ActorsExhausted,
}

} // verus!
