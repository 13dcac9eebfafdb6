use vstd::prelude::*;

verus! {

/// The price of a full group of `amount` units.
#[derive(Debug, PartialEq)]
pub struct BulkPrice<P> {
    pub amount: u32,
    pub total_price: P,
}

/// A good with a price.
#[derive(Debug, PartialEq)]
pub struct Item<P> {
    pub id: u64,
    pub name: String,
    pub price: P,
    pub bulk_pricing: Option<BulkPrice<P>>,
}

impl<P> BulkPrice<P> {
    /// A group holds at least one unit.
    pub open spec fn well_formed(&self) -> bool {
        self.amount >= 1
    }
}

impl<P: Copy> Clone for BulkPrice<P> {
    fn clone(&self) -> (r: Self)
        ensures
            r == *self,
    {
        *self
    }
}

impl<P: Copy> Copy for BulkPrice<P> {
}

impl<P: Copy> Clone for Item<P> {
    fn clone(&self) -> (r: Self)
        ensures
            r == *self,
    {
        Item {
            id: self.id,
            name: self.name.clone(),
            price: self.price,
            bulk_pricing: self.bulk_pricing,
        }
    }
}

} // verus!
