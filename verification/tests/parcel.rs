use bakery_test::{BulkPrice, Charge, Item, Parcel, PricingError, Sale};

fn amount(charge: &Charge<f64>) -> f64 {
    let mut total = 0.0;
    if let Some(group_price) = charge.group_price {
        total += (charge.groups as f64) * group_price;
    }
    total += (charge.units as f64) * charge.unit_price;
    if let Some(percent_off) = charge.percent_off {
        total *= 1. - percent_off;
    }
    total
}

fn cookies(count: u32) -> Parcel<f64> {
    Parcel {
        item: Item {
            id: 1,
            name: String::from("cookies"),
            price: 1.25,
            bulk_pricing: Some(BulkPrice {
                amount: 6,
                total_price: 6.0,
            }),
        },
        count,
    }
}

fn cheesecakes(count: u32) -> Parcel<f64> {
    Parcel {
        item: Item {
            id: 2,
            name: String::from("Cheesecakes"),
            price: 8.0,
            bulk_pricing: None,
        },
        count,
    }
}

#[test]
fn bulk_price_takes_full_groups_and_leaves_the_rest() {
    assert_eq!(
        cookies(7).price(None),
        Ok(Charge {
            groups: 1,
            group_price: Some(6.0),
            units: 1,
            unit_price: 1.25,
            percent_off: None,
        })
    );
    assert_eq!(
        cookies(8).price(None),
        Ok(Charge {
            groups: 1,
            group_price: Some(6.0),
            units: 2,
            unit_price: 1.25,
            percent_off: None,
        })
    );
    assert_eq!(amount(&cookies(7).price(None).unwrap()), 7.25);
    assert_eq!(amount(&cookies(8).price(None).unwrap()), 8.50);
}

#[test]
fn every_unit_is_charged_once() {
    for count in 0..40u32 {
        let charge = cookies(count).price(None).unwrap();
        assert_eq!(charge.groups * 6 + charge.units, count);
        assert!(charge.units < 6);
        assert_eq!(charge.group_price, Some(6.0));
        assert_eq!(
            amount(&charge),
            (count / 6) as f64 * 6.0 + (count % 6) as f64 * 1.25
        );
    }
}

#[test]
fn without_bulk_price_every_unit_is_single() {
    assert_eq!(
        cheesecakes(4).price(None),
        Ok(Charge {
            groups: 0,
            group_price: None,
            units: 4,
            unit_price: 8.0,
            percent_off: None,
        })
    );
    assert_eq!(amount(&cheesecakes(4).price(None).unwrap()), 32.0);
}

#[test]
fn no_units_cost_nothing() {
    assert_eq!(
        cookies(0).price(None),
        Ok(Charge {
            groups: 0,
            group_price: Some(6.0),
            units: 0,
            unit_price: 1.25,
            percent_off: None,
        })
    );
    assert_eq!(amount(&cookies(0).price(None).unwrap()), 0.0);
    assert_eq!(amount(&cheesecakes(0).price(None).unwrap()), 0.0);
}

#[test]
fn exact_groups_leave_no_single_unit() {
    let charge = cookies(12).price(None).unwrap();
    assert_eq!((charge.groups, charge.units), (2, 0));
    assert_eq!(amount(&charge), 12.0);
}

#[test]
fn bulk_sale_replaces_the_items_own_bulk_price() {
    let sale = Sale::Bulk(BulkPrice {
        amount: 8,
        total_price: 6.0,
    });
    let charge = cookies(8).price(Some(&sale)).unwrap();
    assert_eq!(
        charge,
        Charge {
            groups: 1,
            group_price: Some(6.0),
            units: 0,
            unit_price: 1.25,
            percent_off: None,
        }
    );
    assert_eq!(amount(&charge), 6.0);

    // As an item that has the sale's bulk price for its own.
    let mut replaced = cookies(8);
    replaced.item.bulk_pricing = Some(BulkPrice {
        amount: 8,
        total_price: 6.0,
    });
    assert_eq!(cookies(8).price(Some(&sale)), replaced.price(None));
}

#[test]
fn bulk_sale_gives_an_item_without_bulk_price_one() {
    let sale = Sale::Bulk(BulkPrice {
        amount: 3,
        total_price: 20.0,
    });
    let charge = cheesecakes(7).price(Some(&sale)).unwrap();
    assert_eq!(
        charge,
        Charge {
            groups: 2,
            group_price: Some(20.0),
            units: 1,
            unit_price: 8.0,
            percent_off: None,
        }
    );
    assert_eq!(amount(&charge), 48.0);
}

#[test]
fn percent_off_comes_after_the_bulk_math() {
    let sale = Sale::PercentOff(0.25);
    let charge = cheesecakes(4).price(Some(&sale)).unwrap();
    assert_eq!(
        charge,
        Charge {
            groups: 0,
            group_price: None,
            units: 4,
            unit_price: 8.0,
            percent_off: Some(0.25),
        }
    );
    assert_eq!(amount(&charge), 24.0);

    let with_groups = cookies(8).price(Some(&sale)).unwrap();
    let without_sale = cookies(8).price(None).unwrap();
    assert_eq!(
        with_groups,
        Charge {
            percent_off: Some(0.25),
            ..without_sale
        }
    );
    assert_eq!(amount(&with_groups), 8.5 * 0.75);
}

#[test]
fn percent_off_at_its_bounds() {
    let nothing_off = cheesecakes(4).price(Some(&Sale::PercentOff(0.0))).unwrap();
    assert_eq!(amount(&nothing_off), 32.0);
    let all_off = cheesecakes(4).price(Some(&Sale::PercentOff(1.0))).unwrap();
    assert_eq!(amount(&all_off), 0.0);
}

#[test]
fn n_for_one_divides_the_count_before_the_bulk_math() {
    let sale = Sale::NForOne(2);
    let charge = cookies(12).price(Some(&sale)).unwrap();
    assert_eq!(
        charge,
        Charge {
            groups: 1,
            group_price: Some(6.0),
            units: 0,
            unit_price: 1.25,
            percent_off: None,
        }
    );
    assert_eq!(amount(&charge), 6.0);
    assert_eq!(cookies(12).price(Some(&sale)), cookies(6).price(None));
}

#[test]
fn n_for_one_rounds_down() {
    let sale = Sale::NForOne(2);
    assert_eq!(cookies(7).price(Some(&sale)), cookies(3).price(None));
    assert_eq!(amount(&cookies(7).price(Some(&sale)).unwrap()), 3.75);
    assert_eq!(cookies(1).price(Some(&sale)), cookies(0).price(None));
    assert_eq!(
        cheesecakes(5).price(Some(&Sale::NForOne(5))),
        cheesecakes(1).price(None)
    );
}

#[test]
fn one_for_one_changes_nothing() {
    assert_eq!(
        cookies(7).price(Some(&Sale::NForOne(1))),
        cookies(7).price(None)
    );
}

#[test]
fn zero_for_one_is_refused() {
    assert_eq!(
        cookies(7).price(Some(&Sale::NForOne(0))),
        Err(PricingError::InvalidSaleEffect)
    );
    assert_eq!(
        cheesecakes(0).price(Some(&Sale::NForOne(0))),
        Err(PricingError::InvalidSaleEffect)
    );
}

#[test]
fn groups_of_zero_are_refused() {
    let sale = Sale::Bulk(BulkPrice {
        amount: 0,
        total_price: 6.0,
    });
    assert_eq!(
        cookies(7).price(Some(&sale)),
        Err(PricingError::InvalidSaleEffect)
    );

    let mut own = cookies(7);
    own.item.bulk_pricing = Some(BulkPrice {
        amount: 0,
        total_price: 6.0,
    });
    assert_eq!(own.price(None), Err(PricingError::InvalidSaleEffect));
    assert_eq!(
        own.price(Some(&Sale::PercentOff(0.5))),
        Err(PricingError::InvalidSaleEffect)
    );
}

#[test]
fn bulk_sale_stands_in_for_an_own_bulk_price_of_zero() {
    // The item's own bulk price is never divided by under a bulk sale.
    let mut own = cookies(8);
    own.item.bulk_pricing = Some(BulkPrice {
        amount: 0,
        total_price: 6.0,
    });
    let sale = Sale::Bulk(BulkPrice {
        amount: 8,
        total_price: 6.0,
    });
    assert_eq!(amount(&own.price(Some(&sale)).unwrap()), 6.0);
}

#[test]
fn largest_count_is_priced() {
    let charge = cookies(u32::MAX).price(None).unwrap();
    assert_eq!(charge.groups, u32::MAX / 6);
    assert_eq!(charge.units, u32::MAX % 6);
}

#[test]
fn item_clone_keeps_every_field() {
    let parcel = cookies(1);
    let copy = parcel.item.clone();
    assert_eq!(copy, parcel.item);
    assert_eq!(copy.name, "cookies");
}
