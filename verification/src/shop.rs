use vstd::prelude::*;
use crate::calendar::ReferenceDate;
use crate::catalog::Item;
use crate::error::PricingError;
use crate::pricing::{cart_charges, listed, Cart, Charge, Parcel};
use crate::schedule::{active_sales, resolve_active_sales, ScheduledSale};

verus! {

/// One line of a cart as a customer fills it: an item, by its identity, and
/// how many of it.
#[derive(Clone, Copy, Debug, PartialEq, Eq, Structural)]
pub struct ItemIdAndAmount {
    pub item_id: u64,
    pub amount: u32,
}

/// A cart as the shop keeps it: lines that name their items by identity.
#[derive(Debug, PartialEq, Eq)]
pub struct StoredCart {
    pub items: Vec<ItemIdAndAmount>,
}

/// A shop: the treats it sells, the sales it has scheduled, and the carts
/// that its customers have filled. A cart's identity is its place among the
/// carts, counted from 1.
#[derive(Debug)]
pub struct Bakery<P> {
    treats: Vec<Item<P>>,
    sales: Vec<ScheduledSale<P>>,
    carts: Vec<StoredCart>,
}

/// The catalog holds an item of this identity.
pub open spec fn has_item<P>(catalog: Seq<Item<P>>, id: u64) -> bool {
    exists|i: int| 0 <= i < catalog.len() && (#[trigger] catalog[i]).id == id
}

/// The item at `i` is the first of the catalog with this identity.
pub open spec fn is_first_with_id<P>(catalog: Seq<Item<P>>, id: u64, i: int) -> bool {
    &&& 0 <= i < catalog.len()
    &&& catalog[i].id == id
    &&& forall|j: int| 0 <= j < i ==> (#[trigger] catalog[j]).id != id
}

/// The catalog's item of this identity: the first, should there be several.
pub open spec fn lookup<P>(catalog: Seq<Item<P>>, id: u64) -> Option<Item<P>> {
    if has_item(catalog, id) {
        Some(catalog[choose|i: int| is_first_with_id(catalog, id, i)])
    } else {
        None
    }
}

/// The parcel is what the line stands for: the catalog's first item of the
/// line's identity, in the line's amount.
pub open spec fn is_parcel_for<P>(
    catalog: Seq<Item<P>>,
    line: ItemIdAndAmount,
    parcel: Parcel<P>,
) -> bool {
    &&& parcel.count == line.amount
    &&& exists|j: int| is_first_with_id(catalog, line.item_id, j) && parcel.item == catalog[j]
}

/// The line at `k` is the first that names an item which the catalog does
/// not hold.
pub open spec fn is_first_unknown_line<P>(
    catalog: Seq<Item<P>>,
    lines: Seq<ItemIdAndAmount>,
    k: int,
) -> bool {
    &&& 0 <= k < lines.len()
    &&& !has_item(catalog, lines[k].item_id)
    &&& forall|j: int| 0 <= j < k ==> has_item(catalog, (#[trigger] lines[j]).item_id)
}

/// The parcels that the lines stand for: for each line the catalog's item
/// of that identity, in the line's amount. Where a line names an item that
/// the catalog does not hold, the first such line's item is reported.
pub open spec fn parcels_for<P>(catalog: Seq<Item<P>>, lines: Seq<ItemIdAndAmount>) -> Result<
    Seq<Parcel<P>>,
    PricingError,
> {
    if forall|i: int| 0 <= i < lines.len() ==> has_item(catalog, (#[trigger] lines[i]).item_id) {
        Ok(
            Seq::new(
                lines.len(),
                |i: int|
                    Parcel {
                        item: lookup(catalog, lines[i].item_id)->Some_0,
                        count: lines[i].amount,
                    },
            ),
        )
    } else {
        Err(
            PricingError::UnknownItem(
                lines[choose|k: int| is_first_unknown_line(catalog, lines, k)].item_id,
            ),
        )
    }
}

/// The sale at `k` is the first of the schedule on an item that the catalog
/// does not hold.
pub open spec fn is_first_stray_sale<P>(
    catalog: Seq<Item<P>>,
    schedule: Seq<ScheduledSale<P>>,
    k: int,
) -> bool {
    &&& 0 <= k < schedule.len()
    &&& !has_item(catalog, schedule[k].item_id)
    &&& forall|j: int| 0 <= j < k ==> has_item(catalog, (#[trigger] schedule[j]).item_id)
}

/// Every sale of the schedule is on an item that the catalog holds.
pub open spec fn sales_target_known_items<P>(
    catalog: Seq<Item<P>>,
    schedule: Seq<ScheduledSale<P>>,
) -> bool {
    forall|i: int|
        0 <= i < schedule.len() ==> has_item(catalog, (#[trigger] schedule[i]).item_id)
}

/// What a cart of these lines is charged for on `date`: the lines' parcels,
/// each under the sale that is on for its item.
pub open spec fn cart_quote<P>(
    catalog: Seq<Item<P>>,
    schedule: Seq<ScheduledSale<P>>,
    lines: Seq<ItemIdAndAmount>,
    date: ReferenceDate,
) -> Result<Seq<Charge<P>>, PricingError> {
    match parcels_for(catalog, lines) {
        Ok(parcels) => cart_charges(parcels, active_sales(schedule, date)),
        Err(e) => Err(e),
    }
}

/// Where the catalog holds an item of an identity, the item that is looked
/// up is the first with it.
pub proof fn lemma_lookup_finds_first<P>(catalog: Seq<Item<P>>, id: u64, i: int)
    requires
        is_first_with_id(catalog, id, i),
    ensures
        lookup(catalog, id) == Some(catalog[i]),
{
    let chosen = choose|k: int| is_first_with_id(catalog, id, k);
    assert(chosen == i);
}

/// Finds the catalog's item of this identity: the first, should there be
/// several.
pub fn find_item<P>(catalog: &Vec<Item<P>>, id: u64) -> (r: Option<&Item<P>>)
    ensures
        match r {
            Some(item) => lookup(catalog@, id) == Some(*item),
            None => lookup(catalog@, id) is None,
        },
        r matches Some(item) ==> exists|i: int|
            is_first_with_id(catalog@, id, i) && *item == catalog@[i],
        r is None ==> forall|i: int| 0 <= i < catalog@.len() ==> (#[trigger] catalog@[i]).id != id,
{
    let n: usize = catalog.len();
    let mut i: usize = 0;
    while i < n
        invariant
            n == catalog@.len(),
            i <= n,
            forall|j: int| 0 <= j < i ==> (#[trigger] catalog@[j]).id != id,
        decreases n - i,
    {
        if catalog[i].id == id {
            proof {
                lemma_lookup_finds_first(catalog@, id, i as int);
            }
            return Some(&catalog[i]);
        }
        i += 1;
    }
    None
}

/// Builds the cart that the lines stand for, with the catalog's item for
/// each. A line that names an item which the catalog does not hold is
/// refused, and the first such line's item reported.
pub fn collect_parcels<P: Copy>(catalog: &Vec<Item<P>>, lines: &Vec<ItemIdAndAmount>) -> (r: Result<
    Cart<P>,
    PricingError,
>)
    ensures
        match r {
            Ok(cart) => parcels_for(catalog@, lines@) == Ok::<Seq<Parcel<P>>, PricingError>(
                cart.parcels@,
            ),
            Err(e) => parcels_for(catalog@, lines@) == Err::<Seq<Parcel<P>>, PricingError>(e),
        },
        r matches Ok(cart) ==> {
            &&& cart.parcels@.len() == lines@.len()
            &&& forall|i: int|
                0 <= i < lines@.len() ==> is_parcel_for(
                    catalog@,
                    lines@[i],
                    #[trigger] cart.parcels@[i],
                )
        },
        r matches Err(e) ==> exists|k: int|
            is_first_unknown_line(catalog@, lines@, k) && e == PricingError::UnknownItem(
                lines@[k].item_id,
            ),
{
    let n: usize = lines.len();
    let mut parcels: Vec<Parcel<P>> = Vec::new();
    let mut i: usize = 0;
    while i < n
        invariant
            n == lines@.len(),
            i <= n,
            parcels@.len() == i,
            forall|j: int| 0 <= j < i ==> has_item(catalog@, (#[trigger] lines@[j]).item_id),
            forall|j: int|
                0 <= j < i ==> #[trigger] parcels@[j] == (Parcel {
                    item: lookup(catalog@, lines@[j].item_id)->Some_0,
                    count: lines@[j].amount,
                }),
            forall|j: int|
                0 <= j < i ==> is_parcel_for(catalog@, lines@[j], #[trigger] parcels@[j]),
        decreases n - i,
    {
        let line = &lines[i];
        match find_item(catalog, line.item_id) {
            Some(item) => {
                parcels.push(Parcel { item: item.clone(), count: line.amount });
            },
            None => {
                proof {
                    assert(is_first_unknown_line(catalog@, lines@, i as int));
                    let chosen = choose|k: int| is_first_unknown_line(catalog@, lines@, k);
                    assert(chosen == i);
                }
                return Err(PricingError::UnknownItem(line.item_id));
            },
        }
        i += 1;
    }
    assert(parcels@ =~= parcels_for(catalog@, lines@)->Ok_0);
    Ok(Cart { parcels })
}

impl<P> Bakery<P> {
    /// The treats that the shop sells.
    pub closed spec fn treats(&self) -> Seq<Item<P>> {
        self.treats@
    }

    /// The sales that the shop has scheduled, in the order in which they
    /// were written down.
    pub closed spec fn sales(&self) -> Seq<ScheduledSale<P>> {
        self.sales@
    }

    /// The carts that the shop keeps, oldest first.
    pub closed spec fn carts(&self) -> Seq<StoredCart> {
        self.carts@
    }

    /// Every scheduled sale is on a treat that the shop sells.
    pub open spec fn well_formed(&self) -> bool {
        sales_target_known_items(self.treats(), self.sales())
    }

    /// The shop keeps a cart of this identity.
    pub open spec fn has_cart(&self, cart_id: u64) -> bool {
        1 <= cart_id <= self.carts().len()
    }
}

impl<P: Copy> Bakery<P> {
    /// Opens a shop with these treats and this schedule of sales, and no
    /// cart yet.
    ///
    /// A sale on an item that the shop does not sell would never come up
    /// when a cart is priced, so it is refused here, and the first such
    /// sale's item reported.
    pub fn new(treats: Vec<Item<P>>, sales: Vec<ScheduledSale<P>>) -> (r: Result<
        Bakery<P>,
        PricingError,
    >)
        ensures
            r is Ok <==> sales_target_known_items(treats@, sales@),
            r matches Ok(bakery) ==> {
                &&& bakery.treats() == treats@
                &&& bakery.sales() == sales@
                &&& bakery.carts() == Seq::<StoredCart>::empty()
                &&& bakery.well_formed()
            },
            r matches Err(e) ==> exists|k: int|
                is_first_stray_sale(treats@, sales@, k) && e == PricingError::UnknownItem(
                    sales@[k].item_id,
                ),
    {
        let n: usize = sales.len();
        let mut i: usize = 0;
        while i < n
            invariant
                n == sales@.len(),
                i <= n,
                forall|j: int| 0 <= j < i ==> has_item(treats@, (#[trigger] sales@[j]).item_id),
            decreases n - i,
        {
            let item_id: u64 = sales[i].item_id;
            if find_item(&treats, item_id).is_none() {
                assert(is_first_stray_sale(treats@, sales@, i as int));
                return Err(PricingError::UnknownItem(item_id));
            }
            i += 1;
        }
        Ok(Bakery { treats, sales, carts: Vec::new() })
    }

    /// Keeps a cart and gives it its identity: the number of carts that the
    /// shop keeps from now on.
    pub fn create_cart(&mut self, cart: StoredCart) -> (cart_id: u64)
        ensures
            final(self).carts() == old(self).carts().push(cart),
            final(self).treats() == old(self).treats(),
            final(self).sales() == old(self).sales(),
            cart_id == final(self).carts().len(),
            final(self).has_cart(cart_id),
    {
        self.carts.push(cart);
        self.carts.len() as u64
    }

    /// The cart of this identity, if the shop keeps one.
    pub fn cart(&self, cart_id: u64) -> (r: Option<&StoredCart>)
        ensures
            match r {
                Some(cart) => self.has_cart(cart_id) && *cart == self.carts()[cart_id - 1],
                None => !self.has_cart(cart_id),
            },
    {
        if cart_id == 0 || cart_id > self.carts.len() as u64 {
            None
        } else {
            Some(&self.carts[(cart_id - 1) as usize])
        }
    }

    /// Decides what the cart of this identity is charged for on `date`;
    /// `None` where the shop keeps no such cart.
    ///
    /// The cart's lines become parcels of the shop's treats, and each parcel
    /// is priced under the sale that is on for its item on `date`. A line on
    /// an item that the shop does not sell is refused.
    pub fn get_cart_price(&self, cart_id: u64, date: &ReferenceDate) -> (r: Option<
        Result<Vec<Charge<P>>, PricingError>,
    >)
        ensures
            r is Some <==> self.has_cart(cart_id),
            r matches Some(price) ==> listed(price) == cart_quote(
                self.treats(),
                self.sales(),
                self.carts()[cart_id - 1].items@,
                *date,
            ),
    {
        let stored = match self.cart(cart_id) {
            Some(stored) => stored,
            None => {
                return None;
            },
        };
        let cart = match collect_parcels(&self.treats, &stored.items) {
            Ok(cart) => cart,
            Err(e) => {
                return Some(Err(e));
            },
        };
        let sales = resolve_active_sales(&self.sales, date);
        Some(cart.price(&sales))
    }
}

} // verus!
