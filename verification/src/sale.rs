use vstd::prelude::*;
use crate::catalog::BulkPrice;

verus! {

/// A change that can be applied to the price of a parcel.
#[derive(Debug, PartialEq)]
pub enum Sale<P> {
    /// Replace the bulk price (if there is one) for the parcel's item.
    Bulk(BulkPrice<P>),
    /// Reduce the total price of the parcel by this fraction.
    PercentOff(P),
    /// For the purposes of calculating the price, reduce the number of items by this factor.
    NForOne(u32),
}

impl<P: Copy> Clone for Sale<P> {
    fn clone(&self) -> (r: Self)
        ensures
            r == *self,
    {
        *self
    }
}

impl<P: Copy> Copy for Sale<P> {
}

} // verus!
