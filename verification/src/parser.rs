//! The field grammar parser: recursive descent over the schedule line,
//! mirrored by spec-level parsing functions that the executable code is
//! proved to implement exactly.  Alternation order is part of the grammar:
//! `*` before a range before an exact value, and a stepped item before a
//! plain one.

use crate::cron_table::CronTab;
use crate::error::Error;
use crate::expand::{list_ok, list_values};
use crate::expression::{CronBaseExpression, CronExpression};
use vstd::prelude::*;
use vstd::string::StrSliceExecFns;

verus! {

/// Whitespace tolerated around numbers and between fields.
pub open spec fn is_space(c: char) -> bool {
    c == ' ' || c == '\t' || c == '\r' || c == '\n'
}

/// An ASCII decimal digit.
pub open spec fn is_digit(c: char) -> bool {
    '0' as u32 <= c as u32 && c as u32 <= '9' as u32
}

/// Index of the first non-whitespace character at or after `i`.
pub open spec fn spec_skip_ws(s: Seq<char>, i: int) -> int
    decreases s.len() - i,
{
    if 0 <= i && i < s.len() && is_space(s[i]) {
        spec_skip_ws(s, i + 1)
    } else {
        i
    }
}

/// Index of the first non-digit character at or after `i`.
pub open spec fn digit_run_end(s: Seq<char>, i: int) -> int
    decreases s.len() - i,
{
    if 0 <= i && i < s.len() && is_digit(s[i]) {
        digit_run_end(s, i + 1)
    } else {
        i
    }
}

/// The decimal value of the digits `s[i..j)`.
pub open spec fn digits_value(s: Seq<char>, i: int, j: int) -> int
    decreases j - i,
{
    if i < j {
        digits_value(s, i, j - 1) * 10 + (s[j - 1] as u32 - '0' as u32)
    } else {
        0
    }
}

/// A number token: optional whitespace, one or more digits whose value fits
/// in `u32`, optional whitespace.
pub open spec fn spec_number(s: Seq<char>, i: int) -> Option<(u32, int)> {
    let start = spec_skip_ws(s, i);
    let end = digit_run_end(s, start);
    if end == start {
        None
    } else if digits_value(s, start, end) > u32::MAX {
        None
    } else {
        Some((digits_value(s, start, end) as u32, spec_skip_ws(s, end)))
    }
}

/// The weekday number of a three-letter uppercase alias.
pub open spec fn spec_alias(a: char, b: char, c: char) -> Option<u32> {
    if a == 'M' && b == 'O' && c == 'N' {
        Some(1u32)
    } else if a == 'T' && b == 'U' && c == 'E' {
        Some(2u32)
    } else if a == 'W' && b == 'E' && c == 'D' {
        Some(3u32)
    } else if a == 'T' && b == 'H' && c == 'U' {
        Some(4u32)
    } else if a == 'F' && b == 'R' && c == 'I' {
        Some(5u32)
    } else if a == 'S' && b == 'A' && c == 'T' {
        Some(6u32)
    } else if a == 'S' && b == 'U' && c == 'N' {
        Some(0u32)
    } else {
        None
    }
}

/// A weekday alias token: exactly three characters, no whitespace skipped.
pub open spec fn spec_day(s: Seq<char>, i: int) -> Option<(u32, int)> {
    if 0 <= i && i + 3 <= s.len() {
        match spec_alias(s[i], s[i + 1], s[i + 2]) {
            Some(v) => Some((v, i + 3)),
            None => None,
        }
    } else {
        None
    }
}

/// A unit: a number, or — in the alias-aware grammar — a weekday alias.
pub open spec fn spec_unit(s: Seq<char>, i: int, alias: bool) -> Option<(u32, int)> {
    match spec_number(s, i) {
        Some(r) => Some(r),
        None => if alias {
            spec_day(s, i)
        } else {
            None
        },
    }
}

/// The `*` clause.
pub open spec fn spec_all(s: Seq<char>, i: int) -> Option<(CronBaseExpression, int)> {
    if 0 <= i && i < s.len() && s[i] == '*' {
        Some((CronBaseExpression::All, i + 1))
    } else {
        None
    }
}

/// A range clause: unit '-' unit.
pub open spec fn spec_range(s: Seq<char>, i: int, alias: bool) -> Option<
    (CronBaseExpression, int),
> {
    match spec_unit(s, i, alias) {
        Some((a, j)) => if j < s.len() && s[j] == '-' {
            match spec_unit(s, j + 1, alias) {
                Some((b, k)) => Some((CronBaseExpression::Range(a, b), k)),
                None => None,
            }
        } else {
            None
        },
        None => None,
    }
}

/// A base clause, trying `*` before a range before an exact value, so that
/// `*` is never taken for a value and `2-4` never stops at `2`.
pub open spec fn spec_base(s: Seq<char>, i: int, alias: bool) -> Option<
    (CronBaseExpression, int),
> {
    match spec_all(s, i) {
        Some(r) => Some(r),
        None => match spec_range(s, i, alias) {
            Some(r) => Some(r),
            None => match spec_unit(s, i, alias) {
                Some((v, j)) => Some((CronBaseExpression::Exact(v), j)),
                None => None,
            },
        },
    }
}

/// A stepped item: base '/' number, nothing less.
pub open spec fn spec_freq(s: Seq<char>, i: int, alias: bool) -> Option<(CronExpression, int)> {
    match spec_base(s, i, alias) {
        Some((b, j)) => if j < s.len() && s[j] == '/' {
            match spec_number(s, j + 1) {
                Some((n, k)) => Some((CronExpression::Period(b, n), k)),
                None => None,
            }
        } else {
            None
        },
        None => None,
    }
}

/// One field item: the stepped form wins when it parses whole; otherwise the
/// plain clause stands on its own, even in front of a dangling '/'.
pub open spec fn spec_expr(s: Seq<char>, i: int, alias: bool) -> Option<(CronExpression, int)> {
    match spec_freq(s, i, alias) {
        Some(r) => Some(r),
        None => match spec_base(s, i, alias) {
            Some((b, j)) => Some((CronExpression::Simple(b), j)),
            None => None,
        },
    }
}

/// Skipping whitespace stays within the text.
pub proof fn lemma_skip_ws_bounds(s: Seq<char>, i: int)
    requires
        0 <= i <= s.len(),
    ensures
        i <= spec_skip_ws(s, i) <= s.len(),
    decreases s.len() - i,
{
    if i < s.len() && is_space(s[i]) {
        lemma_skip_ws_bounds(s, i + 1);
    }
}

/// A digit run stays within the text.
pub proof fn lemma_digit_run_bounds(s: Seq<char>, i: int)
    requires
        0 <= i <= s.len(),
    ensures
        i <= digit_run_end(s, i) <= s.len(),
    decreases s.len() - i,
{
    if i < s.len() && is_digit(s[i]) {
        lemma_digit_run_bounds(s, i + 1);
    }
}

/// A number token consumes at least one character.
pub proof fn lemma_number_advances(s: Seq<char>, i: int)
    requires
        0 <= i <= s.len(),
    ensures
        spec_number(s, i) matches Some((v, j)) ==> i < j <= s.len(),
{
    lemma_skip_ws_bounds(s, i);
    let start = spec_skip_ws(s, i);
    lemma_digit_run_bounds(s, start);
    let end = digit_run_end(s, start);
    lemma_skip_ws_bounds(s, end);
}

/// A unit consumes at least one character.
pub proof fn lemma_unit_advances(s: Seq<char>, i: int, alias: bool)
    requires
        0 <= i <= s.len(),
    ensures
        spec_unit(s, i, alias) matches Some((v, j)) ==> i < j <= s.len(),
{
    lemma_number_advances(s, i);
}

/// A base clause consumes at least one character.
pub proof fn lemma_base_advances(s: Seq<char>, i: int, alias: bool)
    requires
        0 <= i <= s.len(),
    ensures
        spec_base(s, i, alias) matches Some((b, j)) ==> i < j <= s.len(),
{
    lemma_unit_advances(s, i, alias);
    if spec_all(s, i) is None && spec_range(s, i, alias) is Some {
        let (a, j) = spec_unit(s, i, alias)->Some_0;
        lemma_unit_advances(s, j + 1, alias);
    }
}

/// A field item consumes at least one character.
pub proof fn lemma_expr_advances(s: Seq<char>, i: int, alias: bool)
    requires
        0 <= i <= s.len(),
    ensures
        spec_expr(s, i, alias) matches Some((e, j)) ==> i < j <= s.len(),
{
    lemma_base_advances(s, i, alias);
    if spec_freq(s, i, alias) is Some {
        let (b, j) = spec_base(s, i, alias)->Some_0;
        lemma_number_advances(s, j + 1);
    }
}

/// A field list: items separated by commas, whitespace tolerated before each
/// item and before each comma.  At least one item; a dangling trailing comma
/// is a parse failure.
pub open spec fn spec_list(s: Seq<char>, i: int, alias: bool) -> Option<
    (Seq<CronExpression>, int),
>
    decreases s.len() - i,
    when 0 <= i <= s.len()
    via spec_list_decreases
{
    let i0 = spec_skip_ws(s, i);
    match spec_expr(s, i0, alias) {
        None => None,
        Some((e, j)) => {
            let j0 = spec_skip_ws(s, j);
            if j0 < s.len() && s[j0] == ',' {
                match spec_list(s, j0 + 1, alias) {
                    Some((rest, k)) => Some((seq![e] + rest, k)),
                    None => None,
                }
            } else {
                Some((seq![e], j))
            }
        },
    }
}

#[via_fn]
proof fn spec_list_decreases(s: Seq<char>, i: int, alias: bool) {
    lemma_skip_ws_bounds(s, i);
    let i0 = spec_skip_ws(s, i);
    lemma_expr_advances(s, i0, alias);
    if spec_expr(s, i0, alias) is Some {
        let (e, j) = spec_expr(s, i0, alias)->Some_0;
        lemma_skip_ws_bounds(s, j);
    }
}

/// What `char::is_alphanumeric` returns; a function of the character alone.
pub uninterp spec fn is_alnum(c: char) -> bool;

/// What `char::is_whitespace` returns; a function of the character alone.
pub uninterp spec fn is_white(c: char) -> bool;

/// Relies on `char::is_alphanumeric`: the Unicode letter-or-number
/// classification of one character.
#[verifier::external_body]
fn char_is_alphanumeric(c: char) -> (r: bool)
    ensures
        r == is_alnum(c),
{
    c.is_alphanumeric()
}

/// Relies on `char::is_whitespace`: the Unicode whitespace classification of
/// one character.
#[verifier::external_body]
fn char_is_whitespace(c: char) -> (r: bool)
    ensures
        r == is_white(c),
{
    c.is_whitespace()
}

/// A character the free-form command text may hold.
pub open spec fn allowed_in_command(c: char) -> bool {
    is_alnum(c) || c == '\'' || c == '/' || is_white(c)
}

/// Index of the first character at or after `i` that the command may not
/// hold.
pub open spec fn command_end(s: Seq<char>, i: int) -> int
    decreases s.len() - i,
{
    if 0 <= i && i < s.len() && allowed_in_command(s[i]) {
        command_end(s, i + 1)
    } else {
        i
    }
}

/// The command text: leading whitespace dropped, then the longest run of
/// allowed characters.
pub open spec fn spec_command(s: Seq<char>, i: int) -> (Seq<char>, int) {
    let start = spec_skip_ws(s, i);
    let end = command_end(s, start);
    (s.subrange(start, end), end)
}

/// The five field lists (the last one alias aware), the command text, and
/// the demand that nothing is left over.
pub open spec fn spec_fields(s: Seq<char>) -> Option<
    (
        Seq<CronExpression>,
        Seq<CronExpression>,
        Seq<CronExpression>,
        Seq<CronExpression>,
        Seq<CronExpression>,
        Seq<char>,
    ),
> {
    match spec_list(s, 0, false) {
        None => None,
        Some((minute, i1)) => match spec_list(s, i1, false) {
            None => None,
            Some((hour, i2)) => match spec_list(s, i2, false) {
                None => None,
                Some((day_of_month, i3)) => match spec_list(s, i3, false) {
                    None => None,
                    Some((month, i4)) => match spec_list(s, i4, true) {
                        None => None,
                        Some((day_of_week, i5)) => {
                            let (cmd, end) = spec_command(s, i5);
                            if end == s.len() {
                                Some((minute, hour, day_of_month, month, day_of_week, cmd))
                            } else {
                                None
                            }
                        },
                    },
                },
            },
        },
    }
}

/// Whether `c` is whitespace between tokens.
fn is_space_char(c: char) -> (r: bool)
    ensures
        r == is_space(c),
{
    c == ' ' || c == '\t' || c == '\r' || c == '\n'
}

/// Whether `c` is an ASCII decimal digit.
fn is_digit_char(c: char) -> (r: bool)
    ensures
        r == is_digit(c),
{
    let u = c as u32;
    ('0' as u32) <= u && u <= ('9' as u32)
}

/// Advances past whitespace.
pub fn skip_ws(s: &str, i: usize) -> (r: usize)
    requires
        i <= s@.len(),
    ensures
        i <= r <= s@.len(),
        r as int == spec_skip_ws(s@, i as int),
{
    let n = s.unicode_len();
    let mut j = i;
    while j < n && is_space_char(s.get_char(j))
        invariant
            i <= j <= n,
            n == s@.len(),
            spec_skip_ws(s@, i as int) == spec_skip_ws(s@, j as int),
        decreases n - j,
    {
        j = j + 1;
    }
    j
}

/// Parses a number token: optional whitespace, digits, optional whitespace.
/// Fails on a missing digit and on a value past `u32::MAX`.
pub fn number(s: &str, i: usize) -> (r: Result<(u32, usize), Error>)
    requires
        i <= s@.len(),
    ensures
        match r {
            Ok((v, j)) => spec_number(s@, i as int) == Some((v, j as int)) && i < j <= s@.len(),
            Err(_) => spec_number(s@, i as int) is None,
        },
{
    let n = s.unicode_len();
    let start = skip_ws(s, i);
    let mut j = start;
    let mut val: u32 = 0;
    let mut overflow = false;
    while j < n && is_digit_char(s.get_char(j))
        invariant
            start <= j <= n,
            n == s@.len(),
            digit_run_end(s@, start as int) == digit_run_end(s@, j as int),
            !overflow ==> val == digits_value(s@, start as int, j as int),
            overflow ==> digits_value(s@, start as int, j as int) > u32::MAX,
        decreases n - j,
    {
        let c = s.get_char(j);
        let d = (c as u32) - ('0' as u32);
        let ghost pre = digits_value(s@, start as int, j as int);
        if !overflow {
            if val > (u32::MAX - d) / 10 {
                overflow = true;
                proof {
                    vstd::arithmetic::div_mod::lemma_fundamental_div_mod(
                        (u32::MAX - d) as int,
                        10,
                    );
                }
            } else {
                val = val * 10 + d;
            }
        }
        j = j + 1;
        proof {
            assert(digits_value(s@, start as int, j as int) == pre * 10 + d);
        }
    }
    if j == start {
        return Err(Error);
    }
    if overflow {
        return Err(Error);
    }
    let rest = skip_ws(s, j);
    Ok((val, rest))
}

/// Maps a three-letter weekday alias to its cron number.
pub fn map_alias_to_number(a: char, b: char, c: char) -> (r: Option<u32>)
    ensures
        r == spec_alias(a, b, c),
{
    if a == 'M' && b == 'O' && c == 'N' {
        Some(1)
    } else if a == 'T' && b == 'U' && c == 'E' {
        Some(2)
    } else if a == 'W' && b == 'E' && c == 'D' {
        Some(3)
    } else if a == 'T' && b == 'H' && c == 'U' {
        Some(4)
    } else if a == 'F' && b == 'R' && c == 'I' {
        Some(5)
    } else if a == 'S' && b == 'A' && c == 'T' {
        Some(6)
    } else if a == 'S' && b == 'U' && c == 'N' {
        Some(0)
    } else {
        None
    }
}

/// Parses a weekday alias token.
pub fn day(s: &str, i: usize) -> (r: Result<(u32, usize), Error>)
    requires
        i <= s@.len(),
    ensures
        match r {
            Ok((v, j)) => spec_day(s@, i as int) == Some((v, j as int)) && i < j <= s@.len(),
            Err(_) => spec_day(s@, i as int) is None,
        },
{
    let n = s.unicode_len();
    if n < 3 || i > n - 3 {
        return Err(Error);
    }
    let a = s.get_char(i);
    let b = s.get_char(i + 1);
    let c = s.get_char(i + 2);
    match map_alias_to_number(a, b, c) {
        Some(v) => Ok((v, i + 3)),
        None => Err(Error),
    }
}

/// Parses a unit: a number, or — when aliases apply — a weekday alias.
pub fn unit(s: &str, i: usize, alias: bool) -> (r: Result<(u32, usize), Error>)
    requires
        i <= s@.len(),
    ensures
        match r {
            Ok((v, j)) => spec_unit(s@, i as int, alias) == Some((v, j as int)) && i < j
                <= s@.len(),
            Err(_) => spec_unit(s@, i as int, alias) is None,
        },
{
    match number(s, i) {
        Ok(r) => Ok(r),
        Err(_) => {
            if alias {
                day(s, i)
            } else {
                Err(Error)
            }
        },
    }
}

/// Parses the `*` clause.
pub fn all(s: &str, i: usize) -> (r: Result<(CronBaseExpression, usize), Error>)
    requires
        i <= s@.len(),
    ensures
        match r {
            Ok((e, j)) => spec_all(s@, i as int) == Some((e, j as int)) && i < j <= s@.len(),
            Err(_) => spec_all(s@, i as int) is None,
        },
{
    let n = s.unicode_len();
    if i < n && s.get_char(i) == '*' {
        Ok((CronBaseExpression::All, i + 1))
    } else {
        Err(Error)
    }
}

/// Parses a range clause: unit '-' unit.
pub fn range(s: &str, i: usize, alias: bool) -> (r: Result<(CronBaseExpression, usize), Error>)
    requires
        i <= s@.len(),
    ensures
        match r {
            Ok((e, j)) => spec_range(s@, i as int, alias) == Some((e, j as int)) && i < j
                <= s@.len(),
            Err(_) => spec_range(s@, i as int, alias) is None,
        },
{
    let (a, j) = match unit(s, i, alias) {
        Ok(r) => r,
        Err(e) => {
            return Err(e);
        },
    };
    let n = s.unicode_len();
    if j < n && s.get_char(j) == '-' {
        let (b, k) = match unit(s, j + 1, alias) {
            Ok(r) => r,
            Err(e) => {
                return Err(e);
            },
        };
        Ok((CronBaseExpression::Range(a, b), k))
    } else {
        Err(Error)
    }
}

/// Parses a base clause: `*`, else a range, else an exact value.
pub fn cron_base_expression(s: &str, i: usize, alias: bool) -> (r: Result<
    (CronBaseExpression, usize),
    Error,
>)
    requires
        i <= s@.len(),
    ensures
        match r {
            Ok((e, j)) => spec_base(s@, i as int, alias) == Some((e, j as int)) && i < j
                <= s@.len(),
            Err(_) => spec_base(s@, i as int, alias) is None,
        },
{
    match all(s, i) {
        Ok(r) => {
            return Ok(r);
        },
        Err(_) => {},
    }
    match range(s, i, alias) {
        Ok(r) => {
            return Ok(r);
        },
        Err(_) => {},
    }
    match unit(s, i, alias) {
        Ok((v, j)) => Ok((CronBaseExpression::Exact(v), j)),
        Err(_) => Err(Error),
    }
}

/// Parses a stepped item: base '/' number, nothing less.
pub fn freq(s: &str, i: usize, alias: bool) -> (r: Result<(CronExpression, usize), Error>)
    requires
        i <= s@.len(),
    ensures
        match r {
            Ok((e, j)) => spec_freq(s@, i as int, alias) == Some((e, j as int)) && i < j
                <= s@.len(),
            Err(_) => spec_freq(s@, i as int, alias) is None,
        },
{
    let (b, j) = match cron_base_expression(s, i, alias) {
        Ok(r) => r,
        Err(e) => {
            return Err(e);
        },
    };
    let n = s.unicode_len();
    if j < n && s.get_char(j) == '/' {
        let (v, k) = match number(s, j + 1) {
            Ok(r) => r,
            Err(e) => {
                return Err(e);
            },
        };
        Ok((CronExpression::Period(b, v), k))
    } else {
        Err(Error)
    }
}

/// Parses one field item: a stepped item if it parses whole, else a plain
/// clause.
pub fn cron_expression(s: &str, i: usize, alias: bool) -> (r: Result<
    (CronExpression, usize),
    Error,
>)
    requires
        i <= s@.len(),
    ensures
        match r {
            Ok((e, j)) => spec_expr(s@, i as int, alias) == Some((e, j as int)) && i < j
                <= s@.len(),
            Err(_) => spec_expr(s@, i as int, alias) is None,
        },
{
    match freq(s, i, alias) {
        Ok(r) => {
            return Ok(r);
        },
        Err(_) => {},
    }
    match cron_base_expression(s, i, alias) {
        Ok((b, j)) => Ok((CronExpression::Simple(b), j)),
        Err(_) => Err(Error),
    }
}

/// Parses a comma-separated field list with at least one item.
pub fn cron_expression_list(s: &str, i: usize, alias: bool) -> (r: Result<
    (Vec<CronExpression>, usize),
    Error,
>)
    requires
        i <= s@.len(),
    ensures
        match r {
            Ok((l, j)) => spec_list(s@, i as int, alias) == Some((l@, j as int)) && i < j
                <= s@.len(),
            Err(_) => spec_list(s@, i as int, alias) is None,
        },
    decreases s@.len() - i,
{
    let i0 = skip_ws(s, i);
    let (e, j) = match cron_expression(s, i0, alias) {
        Ok(r) => r,
        Err(err) => {
            return Err(err);
        },
    };
    let j0 = skip_ws(s, j);
    let n = s.unicode_len();
    if j0 < n && s.get_char(j0) == ',' {
        match cron_expression_list(s, j0 + 1, alias) {
            Ok((mut rest, k)) => {
                let ghost tail = rest@;
                rest.insert(0, e);
                proof {
                    assert(rest@ =~= seq![e] + tail);
                }
                Ok((rest, k))
            },
            Err(err) => Err(err),
        }
    } else {
        let mut l: Vec<CronExpression> = Vec::new();
        l.push(e);
        proof {
            assert(l@ =~= seq![e]);
        }
        Ok((l, j))
    }
}

/// Whether the free-form command text may hold `c`.
fn is_command_char(c: char) -> (r: bool)
    ensures
        r == allowed_in_command(c),
{
    char_is_alphanumeric(c) || c == '\'' || c == '/' || char_is_whitespace(c)
}

/// Parses the command text: leading whitespace dropped, then the longest run
/// of allowed characters.
pub fn command(s: &str, i: usize) -> (r: (String, usize))
    requires
        i <= s@.len(),
    ensures
        r.0@ == spec_command(s@, i as int).0,
        r.1 as int == spec_command(s@, i as int).1,
        i <= r.1 <= s@.len(),
{
    let n = s.unicode_len();
    let start = skip_ws(s, i);
    let mut j = start;
    while j < n && is_command_char(s.get_char(j))
        invariant
            start <= j <= n,
            n == s@.len(),
            command_end(s@, start as int) == command_end(s@, j as int),
        decreases n - j,
    {
        j = j + 1;
    }
    let sub = s.substring_char(start, j);
    (sub.to_owned(), j)
}

/// The entry point of the grammar: a whole schedule line.
pub struct Parser;

impl Parser {
    /// Parses the five fields (the day-of-week field with the alias-aware
    /// grammar), then the command text, demands that nothing is left over,
    /// and hands the parts to the assembler.
    pub fn parse(expression: &str) -> (r: Result<CronTab, Error>)
        ensures
            match r {
                Ok(t) => spec_fields(expression@) matches Some(
                    (m, h, d, mo, w, cmd),
                ) && {
                    &&& list_ok(m, 59)
                    &&& list_ok(h, 23)
                    &&& list_ok(d, 31)
                    &&& list_ok(mo, 12)
                    &&& list_ok(w, 6)
                    &&& cmd.len() > 0
                    &&& t.ascending()
                    &&& t.minute@.to_set() == list_values(m, 0, 59)
                    &&& t.hour@.to_set() == list_values(h, 0, 23)
                    &&& t.day_of_month@.to_set() == list_values(d, 1, 31)
                    &&& t.month@.to_set() == list_values(mo, 1, 12)
                    &&& t.day_of_week@.to_set() == list_values(w, 0, 6)
                    &&& t.command@ == cmd
                },
                Err(_) => !(spec_fields(expression@) matches Some((m, h, d, mo, w, cmd))
                    && list_ok(m, 59) && list_ok(h, 23) && list_ok(d, 31) && list_ok(mo, 12)
                    && list_ok(w, 6) && cmd.len() > 0),
            },
    {
        let n = expression.unicode_len();
        let (minute, i1) = match cron_expression_list(expression, 0, false) {
            Ok(r) => r,
            Err(e) => {
                return Err(e);
            },
        };
        let (hour, i2) = match cron_expression_list(expression, i1, false) {
            Ok(r) => r,
            Err(e) => {
                return Err(e);
            },
        };
        let (day_of_month, i3) = match cron_expression_list(expression, i2, false) {
            Ok(r) => r,
            Err(e) => {
                return Err(e);
            },
        };
        let (month, i4) = match cron_expression_list(expression, i3, false) {
            Ok(r) => r,
            Err(e) => {
                return Err(e);
            },
        };
        let (day_of_week, i5) = match cron_expression_list(expression, i4, true) {
            Ok(r) => r,
            Err(e) => {
                return Err(e);
            },
        };
        let (cmd, end) = command(expression, i5);
        if end != n {
            return Err(Error);
        }
        CronTab::from_cron_expression_list(minute, hour, day_of_month, month, day_of_week, cmd)
    }
}

} // verus!
