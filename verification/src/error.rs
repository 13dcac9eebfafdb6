use vstd::prelude::*;

verus! {

/// Why the engine refused an input.
#[derive(Clone, Copy, Debug, PartialEq, Eq, Structural)]
pub enum PricingError {
    /// An item identity that the catalog does not hold.
    UnknownItem(u64),
    /// A sale or a bulk price that would divide a count by zero.
    InvalidSaleEffect,
}

} // verus!
