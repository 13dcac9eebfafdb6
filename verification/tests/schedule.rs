use std::collections::HashMap;

use bakery_test::{
    resolve_active_sales, Applies, BulkPrice, Month, ReferenceDate, Sale, ScheduledSale, Weekday,
};

fn entry(id: u64, item_id: u64, filter: Applies, sale: Sale<f64>) -> ScheduledSale<f64> {
    ScheduledSale {
        id,
        item_id,
        filter,
        sale,
    }
}

fn friday_october_first() -> ReferenceDate {
    ReferenceDate {
        weekday: Weekday::Fri,
        month: 10,
        day: 1,
    }
}

#[test]
fn day_of_week_applies_on_that_day_alone() {
    let sale = entry(1, 1, Applies::Day(Weekday::Fri), Sale::NForOne(2));
    assert!(sale.applies(&friday_october_first()));
    let saturday = ReferenceDate {
        weekday: Weekday::Sat,
        month: 10,
        day: 2,
    };
    assert!(!sale.applies(&saturday));
}

#[test]
fn fixed_date_applies_on_month_and_day() {
    let sale = entry(1, 1, Applies::Date(Month::October, 1), Sale::NForOne(2));
    assert!(sale.applies(&friday_october_first()));
    // Whatever the day of the week, so in any year.
    let sunday = ReferenceDate {
        weekday: Weekday::Sun,
        month: 10,
        day: 1,
    };
    assert!(sale.applies(&sunday));
    let same_day_other_month = ReferenceDate {
        weekday: Weekday::Fri,
        month: 11,
        day: 1,
    };
    assert!(!sale.applies(&same_day_other_month));
    let same_month_other_day = ReferenceDate {
        weekday: Weekday::Fri,
        month: 10,
        day: 2,
    };
    assert!(!sale.applies(&same_month_other_day));
}

#[test]
fn months_are_numbered_from_january() {
    let months = [
        Month::January,
        Month::February,
        Month::March,
        Month::April,
        Month::May,
        Month::June,
        Month::July,
        Month::August,
        Month::September,
        Month::October,
        Month::November,
        Month::December,
    ];
    for (i, month) in months.iter().enumerate() {
        assert_eq!(month.number_from_month(), i as u32 + 1);
    }
}

#[test]
fn reference_date_has_the_dates_day_of_the_week() {
    assert_eq!(
        ReferenceDate::from_ymd(2015, 9, 8),
        Some(ReferenceDate {
            weekday: Weekday::Tue,
            month: 9,
            day: 8,
        })
    );
    assert_eq!(
        ReferenceDate::from_ymd(2021, 10, 1),
        Some(friday_october_first())
    );
    let week = [
        Weekday::Mon,
        Weekday::Tue,
        Weekday::Wed,
        Weekday::Thu,
        Weekday::Fri,
        Weekday::Sat,
        Weekday::Sun,
    ];
    // 2024-01-01 was a Monday.
    for (i, weekday) in week.iter().enumerate() {
        let date = ReferenceDate::from_ymd(2024, 1, 1 + i as u32).unwrap();
        assert_eq!(date.weekday, *weekday);
    }
}

#[test]
fn reference_date_of_no_date_is_none() {
    assert_eq!(ReferenceDate::from_ymd(2015, 2, 29), None);
    assert_eq!(ReferenceDate::from_ymd(2023, 4, 31), None);
    assert_eq!(ReferenceDate::from_ymd(2015, 0, 14), None);
    assert_eq!(ReferenceDate::from_ymd(2015, 13, 1), None);
    assert_eq!(ReferenceDate::from_ymd(2015, 1, 0), None);
    assert_eq!(ReferenceDate::from_ymd(400000, 1, 1), None);
    assert!(ReferenceDate::from_ymd(2024, 2, 29).is_some());
}

#[test]
fn sales_that_are_on_are_collected_by_item() {
    let schedule = vec![
        entry(1, 1, Applies::Day(Weekday::Fri), Sale::NForOne(2)),
        entry(2, 2, Applies::Day(Weekday::Tue), Sale::PercentOff(0.25)),
        entry(
            3,
            3,
            Applies::Date(Month::October, 1),
            Sale::Bulk(BulkPrice {
                amount: 8,
                total_price: 6.0,
            }),
        ),
    ];
    let sales = resolve_active_sales(&schedule, &friday_october_first());
    let expected: HashMap<u64, Sale<f64>> = [
        (1, Sale::NForOne(2)),
        (
            3,
            Sale::Bulk(BulkPrice {
                amount: 8,
                total_price: 6.0,
            }),
        ),
    ]
    .into_iter()
    .collect();
    assert_eq!(sales, expected);
}

#[test]
fn later_entry_wins_between_two_that_are_on() {
    let schedule = vec![
        entry(1, 1, Applies::Day(Weekday::Fri), Sale::NForOne(2)),
        entry(2, 1, Applies::Date(Month::October, 1), Sale::PercentOff(0.25)),
    ];
    let sales = resolve_active_sales(&schedule, &friday_october_first());
    assert_eq!(sales.len(), 1);
    assert_eq!(sales.get(&1), Some(&Sale::PercentOff(0.25)));

    let swapped = vec![schedule[1], schedule[0]];
    let sales = resolve_active_sales(&swapped, &friday_october_first());
    assert_eq!(sales.get(&1), Some(&Sale::NForOne(2)));
}

#[test]
fn later_entry_that_is_off_does_not_win() {
    let schedule = vec![
        entry(1, 1, Applies::Day(Weekday::Fri), Sale::NForOne(2)),
        entry(2, 1, Applies::Day(Weekday::Mon), Sale::PercentOff(0.25)),
    ];
    let sales = resolve_active_sales(&schedule, &friday_october_first());
    assert_eq!(sales.get(&1), Some(&Sale::NForOne(2)));
}

#[test]
fn no_entry_that_is_on_gives_no_sale() {
    let schedule = vec![entry(1, 1, Applies::Day(Weekday::Mon), Sale::NForOne(2))];
    assert!(resolve_active_sales(&schedule, &friday_october_first()).is_empty());
    let none: Vec<ScheduledSale<f64>> = vec![];
    assert!(resolve_active_sales(&none, &friday_october_first()).is_empty());
}
