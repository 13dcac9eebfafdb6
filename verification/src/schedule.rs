use std::collections::HashMap;
use vstd::prelude::*;
use vstd::std_specs::hash::*;
use crate::calendar::{Month, ReferenceDate, Weekday};
use crate::sale::Sale;

verus! {

/// When a scheduled sale is on.
#[derive(Clone, Copy, Debug, PartialEq, Eq, Structural)]
pub enum Applies {
    /// Every week, on this day.
    Day(Weekday),
    /// Every year, on this day of this month.
    Date(Month, u32),
}

/// A sale on one item, with the days on which it is on.
#[derive(Debug, PartialEq)]
pub struct ScheduledSale<P> {
    pub id: u64,
    /// The identity of the item that the sale is on.
    pub item_id: u64,
    pub filter: Applies,
    pub sale: Sale<P>,
}

impl<P: Copy> Clone for ScheduledSale<P> {
    fn clone(&self) -> (r: Self)
        ensures
            r == *self,
    {
        *self
    }
}

impl<P: Copy> Copy for ScheduledSale<P> {
}

impl Applies {
    /// The day is one of those that `self` names.
    pub open spec fn holds_on(self, date: ReferenceDate) -> bool {
        match self {
            Applies::Day(weekday) => date.weekday == weekday,
            Applies::Date(month, day) => date.month == month.number() && date.day == day,
        }
    }
}

impl<P> ScheduledSale<P> {
    /// The sale is on on `date`.
    pub open spec fn applies_on(self, date: ReferenceDate) -> bool {
        self.filter.holds_on(date)
    }

    /// Whether the sale is on on `date`: the day of the week is the
    /// scheduled one, or month and day of the month are the scheduled ones,
    /// whatever the year.
    pub fn applies(&self, date: &ReferenceDate) -> (r: bool)
        ensures
            r == self.applies_on(*date),
    {
        match &self.filter {
            Applies::Day(day) => date.weekday == *day,
            Applies::Date(month, day) => date.month == month.number_from_month() && date.day
                == *day,
        }
    }
}

/// The entry is on on `date` and is a sale on the item `item_id`.
pub open spec fn targets<P>(entry: ScheduledSale<P>, date: ReferenceDate, item_id: u64) -> bool {
    entry.applies_on(date) && entry.item_id == item_id
}

/// The entry at `i` is the last of `entries` that is on on `date` and is a
/// sale on the item `item_id`.
pub open spec fn is_last_active_for<P>(
    entries: Seq<ScheduledSale<P>>,
    date: ReferenceDate,
    item_id: u64,
    i: int,
) -> bool {
    &&& 0 <= i < entries.len()
    &&& targets(entries[i], date, item_id)
    &&& forall|j: int| i < j < entries.len() ==> !targets(#[trigger] entries[j], date, item_id)
}

/// The sales that are on on `date`, by item: for each item that some entry
/// that is on is a sale on, the sale of the last such entry.
pub open spec fn active_sales<P>(entries: Seq<ScheduledSale<P>>, date: ReferenceDate) -> Map<
    u64,
    Sale<P>,
> {
    Map::new(
        |item_id: u64| exists|i: int| is_last_active_for(entries, date, item_id, i),
        |item_id: u64| entries[choose|i: int| is_last_active_for(entries, date, item_id, i)].sale,
    )
}

/// No two entries are the last one for an item.
pub proof fn lemma_last_active_is_unique<P>(
    entries: Seq<ScheduledSale<P>>,
    date: ReferenceDate,
    item_id: u64,
    a: int,
    b: int,
)
    requires
        is_last_active_for(entries, date, item_id, a),
        is_last_active_for(entries, date, item_id, b),
    ensures
        a == b,
{
}

/// Last write wins: where the entry at `i` is on and no later entry that is
/// on is a sale on the same item, the item's active sale is that entry's.
pub proof fn lemma_last_write_wins<P>(entries: Seq<ScheduledSale<P>>, date: ReferenceDate, i: int)
    requires
        0 <= i < entries.len(),
        is_last_active_for(entries, date, entries[i].item_id, i),
    ensures
        active_sales(entries, date).contains_key(entries[i].item_id),
        active_sales(entries, date)[entries[i].item_id] == entries[i].sale,
{
    let item_id = entries[i].item_id;
    let chosen = choose|k: int| is_last_active_for(entries, date, item_id, k);
    lemma_last_active_is_unique(entries, date, item_id, chosen, i);
}

/// One more entry at the end of the schedule overwrites the sale of its
/// item where it is on, and changes nothing where it is not.
pub proof fn lemma_active_sales_push<P>(
    entries: Seq<ScheduledSale<P>>,
    entry: ScheduledSale<P>,
    date: ReferenceDate,
)
    ensures
        active_sales(entries.push(entry), date) == if entry.applies_on(date) {
            active_sales(entries, date).insert(entry.item_id, entry.sale)
        } else {
            active_sales(entries, date)
        },
{
    let longer = entries.push(entry);
    let n = entries.len() as int;
    let before = active_sales(entries, date);
    let after = active_sales(longer, date);
    let expected = if entry.applies_on(date) {
        before.insert(entry.item_id, entry.sale)
    } else {
        before
    };
    assert forall|item_id: u64| #[trigger]
        after.contains_key(item_id) == expected.contains_key(item_id) && (after.contains_key(
            item_id,
        ) ==> after[item_id] == expected[item_id]) by {
        if targets(entry, date, item_id) {
            assert(longer[n] == entry);
            assert(is_last_active_for(longer, date, item_id, n));
            lemma_last_write_wins(longer, date, n);
        } else {
            assert forall|i: int|
                is_last_active_for(longer, date, item_id, i) == is_last_active_for(
                    entries,
                    date,
                    item_id,
                    i,
                ) by {
                if 0 <= i < n {
                    assert(longer[i] == entries[i]);
                    if is_last_active_for(longer, date, item_id, i) {
                        assert forall|j: int| i < j < n implies !targets(
                            #[trigger] entries[j],
                            date,
                            item_id,
                        ) by {
                            assert(longer[j] == entries[j]);
                        }
                    }
                    if is_last_active_for(entries, date, item_id, i) {
                        assert forall|j: int| i < j < n + 1 implies !targets(
                            #[trigger] longer[j],
                            date,
                            item_id,
                        ) by {
                            if j < n {
                                assert(longer[j] == entries[j]);
                            }
                        }
                    }
                } else if i == n {
                    assert(longer[n] == entry);
                }
            }
            if after.contains_key(item_id) {
                let a = choose|i: int| is_last_active_for(longer, date, item_id, i);
                let b = choose|i: int| is_last_active_for(entries, date, item_id, i);
                assert(is_last_active_for(entries, date, item_id, a));
                lemma_last_active_is_unique(entries, date, item_id, a, b);
                assert(longer[a] == entries[a]);
            }
        }
    }
    assert(after =~= expected);
}

/// An item has an active sale exactly where some entry that is on is a sale
/// on it.
pub proof fn lemma_active_sales_domain<P>(
    entries: Seq<ScheduledSale<P>>,
    date: ReferenceDate,
    item_id: u64,
)
    ensures
        active_sales(entries, date).contains_key(item_id) <==> exists|i: int|
            0 <= i < entries.len() && targets(#[trigger] entries[i], date, item_id),
    decreases entries.len(),
{
    if entries.len() > 0 {
        let front = entries.drop_last();
        let last = entries.last();
        assert(entries =~= front.push(last));
        lemma_active_sales_domain(front, date, item_id);
        lemma_active_sales_push(front, last, date);
        if active_sales(entries, date).contains_key(item_id) {
            if targets(last, date, item_id) {
                assert(targets(entries[entries.len() - 1], date, item_id));
            } else {
                let i = choose|i: int|
                    0 <= i < front.len() && targets(#[trigger] front[i], date, item_id);
                assert(targets(entries[i], date, item_id));
            }
        }
        if exists|i: int| 0 <= i < entries.len() && targets(#[trigger] entries[i], date, item_id) {
            let i = choose|i: int|
                0 <= i < entries.len() && targets(#[trigger] entries[i], date, item_id);
            if i < front.len() {
                assert(targets(front[i], date, item_id));
            }
        }
    }
}

/// The tie-break between two entries that are on and are sales on the same
/// item: where the later one is the last such entry, the item's active sale
/// is the later one's, whatever the earlier one's is.
pub proof fn lemma_later_entry_overrides<P>(
    entries: Seq<ScheduledSale<P>>,
    date: ReferenceDate,
    earlier: int,
    later: int,
)
    requires
        0 <= earlier < later < entries.len(),
        entries[earlier].applies_on(date),
        entries[earlier].item_id == entries[later].item_id,
        is_last_active_for(entries, date, entries[later].item_id, later),
    ensures
        active_sales(entries, date)[entries[earlier].item_id] == entries[later].sale,
{
    lemma_last_write_wins(entries, date, later);
}

/// Collects the sales that are on on `date`, by the identity of the item
/// that each is on. Of several entries that are on for one item the last in
/// the schedule wins.
pub fn resolve_active_sales<P: Copy>(entries: &Vec<ScheduledSale<P>>, date: &ReferenceDate) -> (r:
    HashMap<u64, Sale<P>>)
    ensures
        r@ == active_sales(entries@, *date),
        forall|i: int|
            #![trigger entries@[i]]
            is_last_active_for(entries@, *date, entries@[i].item_id, i) ==> r@.contains_key(
                entries@[i].item_id,
            ) && r@[entries@[i].item_id] == entries@[i].sale,
        forall|item_id: u64| #[trigger]
            r@.contains_key(item_id) ==> exists|i: int|
                is_last_active_for(entries@, *date, item_id, i),
{
    broadcast use group_hash_axioms;

    let n: usize = entries.len();
    let mut sales: HashMap<u64, Sale<P>> = HashMap::new();
    let mut i: usize = 0;
    proof {
        lemma_empty_schedule_has_no_sale::<P>(*date);
    }
    while i < n
        invariant
            n == entries@.len(),
            i <= n,
            sales@ == active_sales(entries@.take(i as int), *date),
        decreases n - i,
    {
        let entry = &entries[i];
        proof {
            assert(entries@.take(i + 1) =~= entries@.take(i as int).push(*entry));
            lemma_active_sales_push(entries@.take(i as int), *entry, *date);
        }
        if entry.applies(date) {
            sales.insert(entry.item_id, entry.sale);
        }
        i += 1;
    }
    proof {
        assert(entries@.take(n as int) =~= entries@);
        assert forall|i: int|
            #![trigger entries@[i]]
            is_last_active_for(
                entries@,
                *date,
                entries@[i].item_id,
                i,
            ) implies sales@.contains_key(entries@[i].item_id) && sales@[entries@[i].item_id]
            == entries@[i].sale by {
            lemma_last_write_wins(entries@, *date, i);
        }
    }
    sales
}

/// An empty schedule has no active sale.
pub proof fn lemma_empty_schedule_has_no_sale<P>(date: ReferenceDate)
    ensures
        active_sales(Seq::<ScheduledSale<P>>::empty(), date) == Map::<u64, Sale<P>>::empty(),
{
    assert(active_sales(Seq::<ScheduledSale<P>>::empty(), date) =~= Map::<u64, Sale<P>>::empty());
}

} // verus!
