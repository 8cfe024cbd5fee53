use croon::cron_table::CronTab;
use croon::parser::{all, cron_expression_list, day, freq, number, range, Parser};

#[test]
fn test_valid_number() {
    number("42", 0).unwrap();
}

#[test]
fn test_invalid_number() {
    assert!(number("AAA", 0).is_err());
}

#[test]
fn test_valid_day() {
    day("MON", 0).unwrap();
}

#[test]
fn test_invalid_alias() {
    assert!(day("MoN", 0).is_err());
}

#[test]
fn test_valid_range() {
    range("2-4", 0, true).unwrap();
}

#[test]
fn test_valid_range_of_number_and_day() {
    range("MON-4", 0, true).unwrap();
}

#[test]
fn test_invalid_range() {
    assert!(range("2-A", 0, true).is_err());
}

#[test]
fn test_valid_all() {
    all("*", 0).unwrap();
}

#[test]
fn test_valid_freq() {
    freq("4/2", 0, true).unwrap();
}

#[test]
fn test_invalid_freq() {
    assert!(freq("cron/1", 0, true).is_err());
}

#[test]
fn test_valid_all_freq() {
    freq("*/1", 0, true).unwrap();
}

#[test]
fn test_invalid_all_freq() {
    assert!(freq("1/*", 0, true).is_err());
}

#[test]
fn test_valid_number_list() {
    cron_expression_list("4,2", 0, true).unwrap();
}

#[test]
fn test_valid_alias_list() {
    cron_expression_list("MON,2", 0, true).unwrap();
}

#[test]
fn test_invalid_number_list() {
    assert!(cron_expression_list("A,4,2", 0, true).is_err());
}

#[test]
fn test_valid_range_list() {
    cron_expression_list("2-4,4-6", 0, true).unwrap();
}

#[test]
fn test_valid_freq_list() {
    cron_expression_list("4,2/1", 0, true).unwrap();
}

#[test]
fn test_all_cron_table() {
    let expected = CronTab {
        minute: (0..=59).collect(),
        hour: (0..=23).collect(),
        day_of_month: (1..=31).collect(),
        month: (1..=12).collect(),
        day_of_week: (0..=6).collect(),
        command: String::from("echo 'hello world'"),
    };

    let cron_table = Parser::parse("* * * * * echo 'hello world'").unwrap();
    assert_eq!(cron_table, expected);
}

#[test]
fn test_monday_only_cron_table() {
    let expected = CronTab {
        minute: (0..=59).collect(),
        hour: (0..=23).collect(),
        day_of_month: (1..=31).collect(),
        month: (1..=12).collect(),
        day_of_week: vec![1],
        command: String::from("echo"),
    };

    let cron_table = Parser::parse("* * * * 1 echo").unwrap();
    assert_eq!(cron_table, expected);
}

#[test]
fn test_every_two_hours_between_two_and_eight_cron_table() {
    let expected = CronTab {
        minute: (0..=59).collect(),
        hour: (2..=8).step_by(2).collect(),
        day_of_month: (1..=31).collect(),
        month: (1..=12).collect(),
        day_of_week: (0..=6).collect(),
        command: String::from("echo"),
    };

    let cron_table = Parser::parse("* 2-8/2 * * * echo").unwrap();
    assert_eq!(cron_table, expected);
}

#[test]
fn test_first_day_of_month_cron_table() {
    let expected = CronTab {
        minute: (0..=59).collect(),
        hour: (0..=23).collect(),
        day_of_month: vec![1],
        month: (1..=12).collect(),
        day_of_week: (0..=6).collect(),
        command: String::from("echo"),
    };

    let cron_table = Parser::parse("* * 1 * * echo").unwrap();
    assert_eq!(cron_table, expected);
}

#[test]
fn test_invalid_freq_range_cron_table() {
    assert!(Parser::parse("30/30-150 * * * * echo").is_err());
}

#[test]
fn test_missing_command_cron_table() {
    assert!(Parser::parse("* * * * *").is_err());
}
