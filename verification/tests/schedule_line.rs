use croon::cron_table::CronTab;
use croon::parser::Parser;
use std::str::FromStr;

#[test]
fn from_str_parses_like_the_parser() {
    let a = CronTab::from_str("* * * * * echo").unwrap();
    let b = Parser::parse("* * * * * echo").unwrap();
    assert_eq!(a, b);
}

#[test]
fn fields_are_sorted_and_deduplicated() {
    let table = Parser::parse("4,2,4 * * * * echo").unwrap();
    assert_eq!(table.minute, vec![2, 4]);
}

#[test]
fn command_keeps_inner_whitespace() {
    let table = Parser::parse("* * * * * echo hi").unwrap();
    assert_eq!(table.command, "echo hi");
}

#[test]
fn command_accepts_unicode_letters() {
    let table = Parser::parse("* * * * * caf\u{e9}").unwrap();
    assert_eq!(table.command, "caf\u{e9}");
}

#[test]
fn command_with_forbidden_character_fails() {
    assert!(Parser::parse("* * * * * echo;ls").is_err());
}

#[test]
fn whitespace_only_command_fails() {
    assert!(Parser::parse("* * * * *    ").is_err());
}

#[test]
fn dangling_comma_fails() {
    assert!(Parser::parse("* * * * 1, echo").is_err());
}

#[test]
fn number_past_u32_fails() {
    assert!(Parser::parse("99999999999 * * * * echo").is_err());
}

#[test]
fn whitespace_around_numbers_is_tolerated() {
    let table = Parser::parse(" 4 , 2  * * * * echo").unwrap();
    assert_eq!(table.minute, vec![2, 4]);
    assert_eq!(table.hour, (0..=23).collect::<Vec<u32>>());
}

#[test]
fn empty_line_fails() {
    assert!(Parser::parse("").is_err());
}

#[test]
fn aliases_do_not_apply_outside_day_of_week() {
    assert!(Parser::parse("MON * * * * echo").is_err());
}

#[test]
fn backwards_range_gives_empty_field() {
    let table = Parser::parse("5-2 * * * * echo").unwrap();
    assert_eq!(table.minute, Vec::<u32>::new());
}
