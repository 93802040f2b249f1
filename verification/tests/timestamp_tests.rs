use rota::decision::{decide, UpdateAction};
use rota::timestamp::{exec_days_in_month, FirmwareTimestamp};

fn ts(year: u32, month: u32, day: u32, hour: u32, minute: u32, second: u32) -> FirmwareTimestamp {
    FirmwareTimestamp { year, month, day, hour, minute, second }
}

#[test]
fn orders_by_instant_not_by_fields_textually() {
    let a = ts(2020, 12, 31, 23, 59, 59);
    let b = ts(2021, 1, 1, 0, 0, 0);
    assert!(a.precedes(&b));
    assert!(!b.precedes(&a));
}

#[test]
fn order_is_strict_on_each_field() {
    let base = ts(2021, 6, 15, 12, 30, 30);
    assert!(ts(2020, 6, 15, 12, 30, 30).precedes(&base));
    assert!(ts(2021, 5, 15, 12, 30, 30).precedes(&base));
    assert!(ts(2021, 6, 14, 12, 30, 30).precedes(&base));
    assert!(ts(2021, 6, 15, 11, 30, 30).precedes(&base));
    assert!(ts(2021, 6, 15, 12, 29, 30).precedes(&base));
    assert!(ts(2021, 6, 15, 12, 30, 29).precedes(&base));
}

#[test]
fn equal_timestamps_do_not_precede_each_other() {
    let a = ts(2021, 1, 5, 12, 0, 0);
    let b = ts(2021, 1, 5, 12, 0, 0);
    assert!(!a.precedes(&b));
    assert!(!b.precedes(&a));
}

#[test]
fn total_seconds_counts_seconds() {
    let a = ts(2021, 1, 5, 12, 0, 0);
    let b = ts(2021, 1, 5, 12, 0, 1);
    let c = ts(2021, 1, 6, 12, 0, 0);
    assert_eq!(b.total_seconds() - a.total_seconds(), 1);
    assert_eq!(c.total_seconds() - a.total_seconds(), 24 * 60 * 60);
}

#[test]
fn leap_years_lengthen_february() {
    assert_eq!(exec_days_in_month(2020, 2), 29);
    assert_eq!(exec_days_in_month(2021, 2), 28);
    assert_eq!(exec_days_in_month(2000, 2), 29);
    assert_eq!(exec_days_in_month(1900, 2), 28);
    assert_eq!(exec_days_in_month(2021, 1), 31);
    assert_eq!(exec_days_in_month(2021, 4), 30);
}

#[test]
fn equal_instants_decide_up_to_date() {
    let a = ts(2021, 1, 5, 12, 0, 0);
    let b = ts(2021, 1, 5, 12, 0, 0);
    assert_eq!(decide(&a, &b), UpdateAction::UpToDate);
}

#[test]
fn earlier_claimed_decides_serve_update() {
    let claimed = ts(2021, 1, 5, 12, 0, 0);
    let target = ts(2021, 1, 6, 12, 0, 0);
    assert_eq!(decide(&claimed, &target), UpdateAction::ServeUpdate);
    assert_eq!(decide(&target, &claimed), UpdateAction::UpToDate);
}

#[test]
fn largest_encodable_instant_still_compares() {
    let top = ts(9999, 12, 31, 23, 59, 59);
    let almost = ts(9999, 12, 31, 23, 59, 58);
    assert!(almost.precedes(&top));
    assert!(!top.precedes(&almost));
    assert!(!top.precedes(&top));
}
