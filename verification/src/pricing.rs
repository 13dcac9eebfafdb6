use std::collections::HashMap;
use vstd::prelude::*;
use vstd::std_specs::hash::*;
use crate::catalog::{BulkPrice, Item};
use crate::error::PricingError;
use crate::sale::Sale;

verus! {

/// A number of items grouped together, such as "8 cookies".
#[derive(Debug, PartialEq)]
pub struct Parcel<P> {
    pub item: Item<P>,
    pub count: u32,
}

/// A collection of parcels that is priced together.
#[derive(Debug, PartialEq)]
pub struct Cart<P> {
    pub parcels: Vec<Parcel<P>>,
}

/// What one parcel is charged for.
///
/// Its amount is `groups` times `group_price` (where there is one) plus
/// `units` times `unit_price`, and of that sum the part that `percent_off`
/// leaves (one minus the fraction), where a fraction is given.
#[derive(Debug, PartialEq)]
pub struct Charge<P> {
    /// Full groups charged at the bulk price.
    pub groups: u32,
    /// The price of one full group; `None` where no bulk price applies.
    pub group_price: Option<P>,
    /// Units charged singly.
    pub units: u32,
    /// The price of one unit.
    pub unit_price: P,
    /// The fraction taken off the sum, where a sale takes one off.
    pub percent_off: Option<P>,
}

impl<P: Copy> Clone for Charge<P> {
    fn clone(&self) -> (r: Self)
        ensures
            r == *self,
    {
        *self
    }
}

impl<P: Copy> Copy for Charge<P> {
}

/// The sale behind an optional reference.
pub open spec fn sale_value<P>(sale: Option<&Sale<P>>) -> Option<Sale<P>> {
    match sale {
        Some(s) => Some(*s),
        None => None,
    }
}

/// The number of units that count for pricing: the parcel's count, divided
/// (rounding down) by `n` under an `NForOne(n)` sale.
pub open spec fn effective_count<P>(count: u32, sale: Option<Sale<P>>) -> int {
    match sale {
        Some(Sale::NForOne(n)) => count as int / n as int,
        _ => count as int,
    }
}

/// The bulk price that applies: the sale's where the sale brings one, else
/// the item's own, if it has one.
pub open spec fn effective_tier<P>(item: Item<P>, sale: Option<Sale<P>>) -> Option<BulkPrice<P>> {
    match sale {
        Some(Sale::Bulk(tier)) => Some(tier),
        _ => item.bulk_pricing,
    }
}

/// The fraction that the sale takes off, if it takes one off.
pub open spec fn effective_percent_off<P>(sale: Option<Sale<P>>) -> Option<P> {
    match sale {
        Some(Sale::PercentOff(fraction)) => Some(fraction),
        _ => None,
    }
}

/// Pricing would divide by zero: the sale counts zero units for one, or the
/// bulk price that applies is for groups of zero units.
pub open spec fn divides_by_zero<P>(item: Item<P>, sale: Option<Sale<P>>) -> bool {
    ||| sale matches Some(Sale::NForOne(n)) && n == 0
    ||| effective_tier(item, sale) matches Some(tier) && !tier.well_formed()
}

impl<P> Parcel<P> {
    /// What this parcel is charged for under `sale`.
    pub open spec fn charge(self, sale: Option<Sale<P>>) -> Result<Charge<P>, PricingError> {
        if divides_by_zero(self.item, sale) {
            Err(PricingError::InvalidSaleEffect)
        } else {
            let count = effective_count(self.count, sale);
            Ok(
                match effective_tier(self.item, sale) {
                    Some(tier) => {
                        Charge {
                            groups: (count / tier.amount as int) as u32,
                            group_price: Some(tier.total_price),
                            units: (count % tier.amount as int) as u32,
                            unit_price: self.item.price,
                            percent_off: effective_percent_off(sale),
                        }
                    },
                    None => Charge {
                        groups: 0,
                        group_price: None,
                        units: count as u32,
                        unit_price: self.item.price,
                        percent_off: effective_percent_off(sale),
                    },
                },
            )
        }
    }
}

impl<P: Copy> Parcel<P> {
    /// Decides what this parcel is charged for.
    ///
    /// The steps, in order: an `NForOne(n)` sale divides the count by `n`;
    /// the sale's bulk price, else the item's own, splits what is left into
    /// full groups and single units; a `PercentOff` sale is noted for the
    /// sum. A division by zero is refused.
    pub fn price(&self, sale: Option<&Sale<P>>) -> (r: Result<Charge<P>, PricingError>)
        ensures
            r == self.charge(sale_value(sale)),
    {
        let mut count: u32 = self.count;
        let mut tier: Option<BulkPrice<P>> = self.item.bulk_pricing;
        let mut percent_off: Option<P> = None;
        match sale {
            Some(Sale::NForOne(n)) => {
                if *n == 0 {
                    return Err(PricingError::InvalidSaleEffect);
                }
                count = self.count / *n;
            },
            Some(Sale::Bulk(bulk_pricing)) => {
                tier = Some(*bulk_pricing);
            },
            Some(Sale::PercentOff(fraction)) => {
                percent_off = Some(*fraction);
            },
            None => {},
        }
        match tier {
            Some(bulk_pricing) => {
                if bulk_pricing.amount == 0 {
                    return Err(PricingError::InvalidSaleEffect);
                }
                let number_of_groups: u32 = count / bulk_pricing.amount;
                assert(number_of_groups * bulk_pricing.amount + count % bulk_pricing.amount
                    == count) by (nonlinear_arith)
                    requires
                        bulk_pricing.amount > 0,
                        number_of_groups == count / bulk_pricing.amount,
                ;
                Ok(
                    Charge {
                        groups: number_of_groups,
                        group_price: Some(bulk_pricing.total_price),
                        units: count - number_of_groups * bulk_pricing.amount,
                        unit_price: self.item.price,
                        percent_off,
                    },
                )
            },
            None => Ok(
                Charge {
                    groups: 0,
                    group_price: None,
                    units: count,
                    unit_price: self.item.price,
                    percent_off,
                },
            ),
        }
    }
}

/// The sale that `sales` holds for an item, if it holds one.
pub open spec fn sale_for<P>(sales: Map<u64, Sale<P>>, item_id: u64) -> Option<Sale<P>> {
    if sales.contains_key(item_id) {
        Some(sales[item_id])
    } else {
        None
    }
}

impl<P> Parcel<P> {
    /// What this parcel is charged for where sales are kept by item: its
    /// charge under the sale that `sales` holds for its item.
    pub open spec fn charge_under(self, sales: Map<u64, Sale<P>>) -> Result<
        Charge<P>,
        PricingError,
    > {
        self.charge(sale_for(sales, self.item.id))
    }
}

/// What a cart of `parcels` is charged for: the charge of each parcel, in the
/// cart's order, unless one of them is refused.
pub open spec fn cart_charges<P>(parcels: Seq<Parcel<P>>, sales: Map<u64, Sale<P>>) -> Result<
    Seq<Charge<P>>,
    PricingError,
> {
    if forall|i: int| 0 <= i < parcels.len() ==> (#[trigger] parcels[i]).charge_under(sales) is Ok {
        Ok(Seq::new(parcels.len(), |i: int| parcels[i].charge_under(sales)->Ok_0))
    } else {
        Err(PricingError::InvalidSaleEffect)
    }
}

/// A result that lists values, with the list as a sequence.
pub open spec fn listed<T, E>(r: Result<Vec<T>, E>) -> Result<Seq<T>, E> {
    match r {
        Ok(v) => Ok(v@),
        Err(e) => Err(e),
    }
}

impl<P: Copy> Cart<P> {
    /// Decides what the cart is charged for: one charge for each parcel, in
    /// order, each under the sale that `sales` holds for the parcel's item.
    /// The cart's amount is the sum of the charges' amounts.
    pub fn price(&self, sales: &HashMap<u64, Sale<P>>) -> (r: Result<Vec<Charge<P>>, PricingError>)
        ensures
            listed(r) == cart_charges(self.parcels@, sales@),
    {
        broadcast use group_hash_axioms;

        let n: usize = self.parcels.len();
        let mut charges: Vec<Charge<P>> = Vec::new();
        let mut i: usize = 0;
        while i < n
            invariant
                n == self.parcels@.len(),
                i <= n,
                charges@.len() == i,
                forall|j: int|
                    0 <= j < i ==> (#[trigger] self.parcels@[j]).charge_under(sales@) == Ok::<
                        Charge<P>,
                        PricingError,
                    >(charges@[j]),
            decreases n - i,
        {
            let parcel = &self.parcels[i];
            match parcel.price(sales.get(&parcel.item.id)) {
                Ok(charge) => {
                    charges.push(charge);
                },
                Err(e) => {
                    assert(self.parcels@[i as int].charge_under(sales@) is Err);
                    return Err(e);
                },
            }
            i += 1;
        }
        assert(charges@ =~= cart_charges(self.parcels@, sales@)->Ok_0);
        Ok(charges)
    }
}

/// A parcel is charged for every unit that counts, once: the full groups and
/// the single units make up the count that the sale leaves, and the single
/// units are fewer than a group. Without a bulk price every unit is single.
pub proof fn lemma_charge_accounts_for_every_unit<P>(parcel: Parcel<P>, sale: Option<Sale<P>>)
    requires
        parcel.charge(sale) is Ok,
    ensures
        ({
            let charge = parcel.charge(sale)->Ok_0;
            let count = effective_count(parcel.count, sale);
            match effective_tier(parcel.item, sale) {
                Some(tier) => {
                    &&& charge.groups * tier.amount + charge.units == count
                    &&& charge.units < tier.amount
                    &&& charge.group_price == Some(tier.total_price)
                },
                None => {
                    &&& charge.groups == 0
                    &&& charge.units == count
                    &&& charge.group_price is None
                },
            }
        }),
{
    let count = effective_count(parcel.count, sale);
    assert(0 <= count <= parcel.count) by (nonlinear_arith)
        requires
            count == match sale {
                Some(Sale::NForOne(n)) => parcel.count as int / n as int,
                _ => parcel.count as int,
            },
            sale matches Some(Sale::NForOne(n)) ==> n > 0,
    ;
    if let Some(tier) = effective_tier(parcel.item, sale) {
        let amount = tier.amount as int;
        assert(0 <= count / amount <= count && (count / amount) * amount + count % amount
            == count && 0 <= count % amount < amount) by (nonlinear_arith)
            requires
                0 <= count,
                0 < amount,
        ;
    }
}

/// A bulk sale replaces the item's own bulk price and does not combine with
/// it: the parcel is charged as one of an item that has the sale's bulk price
/// for its own, with no sale.
pub proof fn lemma_bulk_sale_replaces_own_tier<P>(parcel: Parcel<P>, tier: BulkPrice<P>)
    ensures
        parcel.charge(Some(Sale::Bulk(tier))) == (Parcel {
            item: Item { bulk_pricing: Some(tier), ..parcel.item },
            count: parcel.count,
        }).charge(None),
{
}

/// A percentage sale comes after the bulk math: groups and units are those
/// of the parcel without a sale, and the fraction is noted beside them.
pub proof fn lemma_percent_off_follows_bulk_math<P>(parcel: Parcel<P>, fraction: P)
    ensures
        parcel.charge(Some(Sale::PercentOff(fraction))) == match parcel.charge(None) {
            Ok(charge) => Ok(Charge { percent_off: Some(fraction), ..charge }),
            Err(e) => Err(e),
        },
        parcel.charge(None) matches Ok(charge) ==> charge.percent_off is None,
{
}

/// Under an `n` for one sale, with `n` above zero, a parcel is charged as one
/// of the count divided by `n`, rounding down, with no sale.
pub proof fn lemma_n_for_one_divides_count<P>(parcel: Parcel<P>, n: u32)
    requires
        n > 0,
    ensures
        (parcel.count / n) as int == parcel.count as int / n as int,
        parcel.charge(Some(Sale::NForOne(n))) == (Parcel {
            item: parcel.item,
            count: parcel.count / n,
        }).charge(None),
{
}

/// An empty cart is charged for nothing, whatever the sales.
pub proof fn lemma_empty_cart_has_no_charges<P>(sales: Map<u64, Sale<P>>)
    ensures
        cart_charges(Seq::<Parcel<P>>::empty(), sales) == Ok::<Seq<Charge<P>>, PricingError>(
            Seq::empty(),
        ),
{
    assert(cart_charges(Seq::<Parcel<P>>::empty(), sales)->Ok_0 =~= Seq::<Charge<P>>::empty());
}

/// Each parcel of a cart is charged as it would be alone: where the cart is
/// priced, it has one charge for each parcel, in order, and that charge is
/// the parcel's own. The cart is refused exactly where one of its parcels is.
pub proof fn lemma_cart_charges_each_parcel_alone<P>(
    parcels: Seq<Parcel<P>>,
    sales: Map<u64, Sale<P>>,
)
    ensures
        cart_charges(parcels, sales) is Ok <==> forall|i: int|
            0 <= i < parcels.len() ==> (#[trigger] parcels[i]).charge(
                sale_for(sales, parcels[i].item.id),
            ) is Ok,
        cart_charges(parcels, sales) matches Ok(charges) ==> {
            &&& charges.len() == parcels.len()
            &&& forall|i: int|
                0 <= i < parcels.len() ==> (#[trigger] parcels[i]).charge(
                    sale_for(sales, parcels[i].item.id),
                ) == Ok::<Charge<P>, PricingError>(charges[i])
        },
{
    assert forall|i: int| 0 <= i < parcels.len() implies ((#[trigger] parcels[i]).charge(
        sale_for(sales, parcels[i].item.id),
    ) is Ok <==> parcels[i].charge_under(sales) is Ok) by {}
}

/// A cart made of two carts is charged for what the first is charged for,
/// then for what the second is.
pub proof fn lemma_cart_charges_of_joined_carts<P>(
    front: Seq<Parcel<P>>,
    back: Seq<Parcel<P>>,
    sales: Map<u64, Sale<P>>,
)
    ensures
        cart_charges(front + back, sales) == match (
            cart_charges(front, sales),
            cart_charges(back, sales),
        ) {
            (Ok(a), Ok(b)) => Ok(a + b),
            _ => Err(PricingError::InvalidSaleEffect),
        },
{
    let all = front + back;
    if cart_charges(front, sales) is Ok && cart_charges(back, sales) is Ok {
        assert forall|i: int| 0 <= i < all.len() implies (#[trigger] all[i]).charge_under(
            sales,
        ) is Ok by {
            if i < front.len() {
                assert(all[i] == front[i]);
            } else {
                assert(all[i] == back[i - front.len()]);
            }
        }
        assert(cart_charges(all, sales)->Ok_0 =~= cart_charges(front, sales)->Ok_0 + cart_charges(
            back,
            sales,
        )->Ok_0);
    } else if cart_charges(front, sales) is Err {
        let i = choose|i: int| 0 <= i < front.len() && !(front[i].charge_under(sales) is Ok);
        assert(all[i] == front[i]);
    } else {
        let i = choose|i: int| 0 <= i < back.len() && !(back[i].charge_under(sales) is Ok);
        assert(all[i + front.len()] == back[i]);
    }
}

/// What a function makes of each value of a sequence is the same, up to
/// order, for any order of the sequence.
proof fn lemma_map_of_reordered<A, B>(a: Seq<A>, b: Seq<A>, f: spec_fn(A) -> B)
    requires
        a.to_multiset() == b.to_multiset(),
    ensures
        a.map_values(f).to_multiset() == b.map_values(f).to_multiset(),
    decreases a.len(),
{
    broadcast use vstd::seq_lib::group_to_multiset_ensures;

    a.to_multiset_ensures();
    b.to_multiset_ensures();
    assert(a.len() == a.to_multiset().len() && b.len() == b.to_multiset().len());
    if a.len() == 0 {
        assert(a.map_values(f) =~= b.map_values(f));
    } else {
        let x = a.last();
        let a1 = a.drop_last();
        assert(a1 =~= a.remove(a.len() - 1));
        assert(a[a.len() - 1] == x);
        assert(a.contains(x));
        assert(a.to_multiset().count(x) > 0);
        assert(b.contains(x));
        let j = choose|j: int| 0 <= j < b.len() && b[j] == x;
        let b1 = b.remove(j);
        assert(a1.to_multiset() =~= b1.to_multiset());
        lemma_map_of_reordered(a1, b1, f);
        let fa = a.map_values(f);
        let fb = b.map_values(f);
        assert(fa.remove(a.len() - 1) =~= a1.map_values(f));
        assert(fb.remove(j) =~= b1.map_values(f));
        assert(fa[a.len() - 1] == f(x));
        assert(fb[j] == f(x));
        assert(fa.contains(f(x)));
        assert(fb.contains(f(x)));
        assert(fa.to_multiset() =~= fa.remove(a.len() - 1).to_multiset().insert(f(x)));
        assert(fb.to_multiset() =~= fb.remove(j).to_multiset().insert(f(x)));
    }
}

/// The order of the parcels decides the order of the charges and nothing
/// else: a cart with the same parcels in another order is refused if and only
/// if this one is, and is charged for the same, in another order.
pub proof fn lemma_cart_order_changes_order_alone<P>(
    parcels: Seq<Parcel<P>>,
    reordered: Seq<Parcel<P>>,
    sales: Map<u64, Sale<P>>,
)
    requires
        parcels.to_multiset() == reordered.to_multiset(),
    ensures
        cart_charges(parcels, sales) is Ok <==> cart_charges(reordered, sales) is Ok,
        cart_charges(parcels, sales) is Ok ==> cart_charges(parcels, sales)->Ok_0.to_multiset()
            == cart_charges(reordered, sales)->Ok_0.to_multiset(),
{
    broadcast use vstd::seq_lib::group_to_multiset_ensures;

    assert forall|a: Seq<Parcel<P>>, b: Seq<Parcel<P>>|
        a.to_multiset() == b.to_multiset() && cart_charges(a, sales) is Ok implies cart_charges(
        b,
        sales,
    ) is Ok by {
        assert forall|i: int| 0 <= i < b.len() implies (#[trigger] b[i]).charge_under(
            sales,
        ) is Ok by {
            a.to_multiset_ensures();
            b.to_multiset_ensures();
            assert(b.contains(b[i]));
            assert(b.to_multiset().count(b[i]) > 0);
            assert(a.contains(b[i]));
            let j = choose|j: int| 0 <= j < a.len() && a[j] == b[i];
            assert(a[j].charge_under(sales) is Ok);
        }
    }
    if cart_charges(parcels, sales) is Ok {
        let f = |parcel: Parcel<P>| parcel.charge_under(sales)->Ok_0;
        lemma_map_of_reordered(parcels, reordered, f);
        assert(cart_charges(parcels, sales)->Ok_0 =~= parcels.map_values(f));
        assert(cart_charges(reordered, sales)->Ok_0 =~= reordered.map_values(f));
    }
}

/// Pricing has no hidden state: two results of pricing the same cart under
/// the same sales list the same charges, or are the same refusal.
pub proof fn lemma_price_twice_is_same<P>(
    cart: Cart<P>,
    sales: HashMap<u64, Sale<P>>,
    first: Result<Vec<Charge<P>>, PricingError>,
    second: Result<Vec<Charge<P>>, PricingError>,
)
    requires
        listed(first) == cart_charges(cart.parcels@, sales@),
        listed(second) == cart_charges(cart.parcels@, sales@),
    ensures
        listed(first) == listed(second),
{
}

} // verus!
