use croon::occurrence::{day_of_week, Instant};
use croon::parser::Parser;

fn at(year: u32, month: u32, day: u32, hour: u32, minute: u32) -> Instant {
    Instant { year, month, day, hour, minute }
}

#[test]
fn day_of_week_known_dates() {
    assert_eq!(day_of_week(2024, 1, 1), 1);
    assert_eq!(day_of_week(2024, 1, 7), 0);
    assert_eq!(day_of_week(2000, 1, 1), 6);
    assert_eq!(day_of_week(1970, 1, 1), 4);
    assert_eq!(day_of_week(2024, 2, 29), 4);
}

#[test]
fn next_minute_within_same_hour() {
    let table = Parser::parse("* * * * * echo").unwrap();
    let t = table.next(&at(2024, 1, 1, 0, 0)).unwrap();
    assert_eq!(t, at(2024, 1, 1, 0, 1));
}

#[test]
fn next_is_strictly_later() {
    let table = Parser::parse("* * * * * echo").unwrap();
    let reference = at(2024, 6, 15, 12, 30);
    let t = table.next(&reference).unwrap();
    assert!(reference < t);
}

#[test]
fn minute_wraps_into_next_hour() {
    let table = Parser::parse("* * * * * echo").unwrap();
    let t = table.next(&at(2024, 1, 1, 0, 59)).unwrap();
    assert_eq!(t, at(2024, 1, 1, 1, 0));
}

#[test]
fn year_wraps_at_the_end_of_december() {
    let table = Parser::parse("* * * * * echo").unwrap();
    let t = table.next(&at(2024, 12, 31, 23, 59)).unwrap();
    assert_eq!(t, at(2025, 1, 1, 0, 0));
}

#[test]
fn chosen_minute_is_the_smallest_candidate() {
    let table = Parser::parse("15,45 3 * * * echo").unwrap();
    let t = table.next(&at(2024, 1, 1, 3, 15)).unwrap();
    assert_eq!(t, at(2024, 1, 1, 3, 45));
    let u = table.next(&at(2024, 1, 1, 3, 45)).unwrap();
    assert_eq!(u, at(2024, 1, 2, 3, 15));
}

#[test]
fn advancing_hour_resets_minute() {
    let table = Parser::parse("10,50 6,18 * * * echo").unwrap();
    let t = table.next(&at(2024, 1, 1, 6, 50)).unwrap();
    assert_eq!(t, at(2024, 1, 1, 18, 10));
}

#[test]
fn matching_weekday_is_accepted() {
    let table = Parser::parse("* * * * 1 echo").unwrap();
    let t = table.next(&at(2024, 1, 7, 23, 59)).unwrap();
    assert_eq!(t, at(2024, 1, 8, 0, 0));
    assert_eq!(day_of_week(2024, 1, 8), 1);
}

#[test]
fn unmatched_weekday_reports_absence() {
    let table = Parser::parse("* * * * 2 echo").unwrap();
    assert_eq!(table.next(&at(2024, 1, 1, 0, 0)), None);
}

#[test]
fn empty_field_reports_absence() {
    let table = Parser::parse("5-2 * * * * echo").unwrap();
    assert_eq!(table.next(&at(2024, 1, 1, 0, 0)), None);
}
