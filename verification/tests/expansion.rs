use croon::expand::calculate_time;
use croon::expression::{CronBaseExpression, CronExpression};
use croon::parser::{day, Parser};
use croon::schedule::Schedule;

#[test]
fn all_expands_to_full_range() {
    let items = vec![CronExpression::Simple(CronBaseExpression::All)];
    let values = calculate_time(items, 0, 59).unwrap();
    let expected: Vec<u32> = (0..=59).collect();
    assert_eq!(values, expected);
}

#[test]
fn exact_expands_to_singleton() {
    let items = vec![CronExpression::Simple(CronBaseExpression::Exact(30))];
    let values = calculate_time(items, 0, 59).unwrap();
    assert_eq!(values, vec![30]);
}

#[test]
fn exact_above_maximum_is_not_checked() {
    let items = vec![CronExpression::Simple(CronBaseExpression::Exact(99))];
    let values = calculate_time(items, 0, 59).unwrap();
    assert_eq!(values, vec![99]);
}

#[test]
fn range_expands_inclusively() {
    let items = vec![CronExpression::Simple(CronBaseExpression::Range(2, 4))];
    let values = calculate_time(items, 0, 59).unwrap();
    assert_eq!(values, vec![2, 3, 4]);
}

#[test]
fn range_with_high_endpoint_fails() {
    let items = vec![CronExpression::Simple(CronBaseExpression::Range(10, 150))];
    assert!(calculate_time(items, 0, 59).is_err());
}

#[test]
fn backwards_range_expands_to_nothing() {
    let items = vec![CronExpression::Simple(CronBaseExpression::Range(5, 2))];
    let values = calculate_time(items, 0, 59).unwrap();
    assert_eq!(values, Vec::<u32>::new());
}

#[test]
fn stepped_all_walks_from_minimum() {
    let items = vec![CronExpression::Period(CronBaseExpression::All, 15)];
    let values = calculate_time(items, 0, 59).unwrap();
    assert_eq!(values, vec![0, 15, 30, 45]);
}

#[test]
fn stepped_exact_walks_to_maximum() {
    let items = vec![CronExpression::Period(CronBaseExpression::Exact(3), 20)];
    let values = calculate_time(items, 0, 59).unwrap();
    assert_eq!(values, vec![3, 23, 43]);
}

#[test]
fn stepped_range_keeps_its_own_end() {
    let items = vec![CronExpression::Period(CronBaseExpression::Range(10, 30), 7)];
    let values = calculate_time(items, 0, 59).unwrap();
    assert_eq!(values, vec![10, 17, 24]);
}

#[test]
fn zero_step_fails() {
    let items = vec![CronExpression::Period(CronBaseExpression::All, 0)];
    assert!(calculate_time(items, 0, 59).is_err());
}

#[test]
fn union_is_deduplicated_and_sorted() {
    let items = vec![
        CronExpression::Simple(CronBaseExpression::Exact(4)),
        CronExpression::Simple(CronBaseExpression::Exact(2)),
        CronExpression::Simple(CronBaseExpression::Exact(4)),
        CronExpression::Simple(CronBaseExpression::Range(3, 5)),
    ];
    let values = calculate_time(items, 0, 59).unwrap();
    assert_eq!(values, vec![2, 3, 4, 5]);
}

#[test]
fn monday_alias_value_matches_numeric_day() {
    assert_eq!(day("MON", 0).unwrap(), (1, 3));
    let by_alias = Parser::parse("* * * * MON echo").unwrap();
    let by_number = Parser::parse("* * * * 1 echo").unwrap();
    assert_eq!(by_alias, by_number);
    assert_eq!(by_alias.day_of_week, vec![1]);
}

#[test]
fn schedule_assembles_five_fields() {
    let schedule = Schedule::from_cron_expression_list(
        vec![CronExpression::Simple(CronBaseExpression::Exact(5))],
        vec![CronExpression::Simple(CronBaseExpression::All)],
        vec![CronExpression::Simple(CronBaseExpression::Range(1, 3))],
        vec![CronExpression::Simple(CronBaseExpression::All)],
        vec![CronExpression::Simple(CronBaseExpression::Exact(0))],
    )
    .unwrap();
    let expected = Schedule {
        minute: vec![5],
        hour: (0..=23).collect(),
        day_of_month: vec![1, 2, 3],
        month: (1..=12).collect(),
        day: vec![0],
    };
    assert_eq!(schedule, expected);
}

#[test]
fn schedule_rejects_bad_range() {
    let result = Schedule::from_cron_expression_list(
        vec![CronExpression::Simple(CronBaseExpression::Range(0, 99))],
        vec![CronExpression::Simple(CronBaseExpression::All)],
        vec![CronExpression::Simple(CronBaseExpression::All)],
        vec![CronExpression::Simple(CronBaseExpression::All)],
        vec![CronExpression::Simple(CronBaseExpression::All)],
    );
    assert!(result.is_err());
}

#[test]
fn error_message_text() {
    let items = vec![CronExpression::Simple(CronBaseExpression::Range(70, 80))];
    let err = calculate_time(items, 0, 59).unwrap_err();
    assert_eq!(err.message(), "something went wrong!");
}
