//! The cron table assembler: five expanded fields plus the command text.

use crate::error::Error;
use crate::expand::{calculate_time, list_ok, list_values, strictly_ascending};
use crate::expression::CronExpression;
use vstd::prelude::*;

verus! {

/// A fully assembled schedule: for each calendar field the ascending set of
/// matching values, plus the command text.  Built once, never mutated.
#[derive(Debug)]
pub struct CronTab {
    pub minute: Vec<u32>,
    pub hour: Vec<u32>,
    pub day_of_month: Vec<u32>,
    pub month: Vec<u32>,
    pub day_of_week: Vec<u32>,
    pub command: String,
}

impl CronTab {
    /// Every field is strictly ascending and therefore duplicate free.  This
    /// is what assembly establishes; an exact value is never compared with
    /// the field bounds, so assembled values may still lie outside them.
    pub open spec fn ascending(self) -> bool {
        &&& strictly_ascending(self.minute@)
        &&& strictly_ascending(self.hour@)
        &&& strictly_ascending(self.day_of_month@)
        &&& strictly_ascending(self.month@)
        &&& strictly_ascending(self.day_of_week@)
    }

    /// The five field lists expanded against their fixed bounds, in order,
    /// followed by the check that the command text is present.  Any failure
    /// aborts the whole assembly: no partial table is ever returned.
    pub fn from_cron_expression_list(
        minute_list: Vec<CronExpression>,
        hour_list: Vec<CronExpression>,
        day_of_month_list: Vec<CronExpression>,
        month_list: Vec<CronExpression>,
        day_list: Vec<CronExpression>,
        command: String,
    ) -> (r: Result<CronTab, Error>)
        ensures
            match r {
                Ok(t) => {
                    &&& list_ok(minute_list@, 59)
                    &&& list_ok(hour_list@, 23)
                    &&& list_ok(day_of_month_list@, 31)
                    &&& list_ok(month_list@, 12)
                    &&& list_ok(day_list@, 6)
                    &&& command@.len() > 0
                    &&& t.ascending()
                    &&& t.minute@.to_set() == list_values(minute_list@, 0, 59)
                    &&& t.hour@.to_set() == list_values(hour_list@, 0, 23)
                    &&& t.day_of_month@.to_set() == list_values(day_of_month_list@, 1, 31)
                    &&& t.month@.to_set() == list_values(month_list@, 1, 12)
                    &&& t.day_of_week@.to_set() == list_values(day_list@, 0, 6)
                    &&& t.command == command
                },
                Err(_) => !({
                    &&& list_ok(minute_list@, 59)
                    &&& list_ok(hour_list@, 23)
                    &&& list_ok(day_of_month_list@, 31)
                    &&& list_ok(month_list@, 12)
                    &&& list_ok(day_list@, 6)
                    &&& command@.len() > 0
                }),
            },
    {
        let minute = calculate_time(minute_list, 0, 59)?;
        let hour = calculate_time(hour_list, 0, 23)?;
        let day_of_month = calculate_time(day_of_month_list, 1, 31)?;
        let month = calculate_time(month_list, 1, 12)?;
        let day_of_week = calculate_time(day_list, 0, 6)?;

        if command.as_str().is_empty() {
            return Err(Error);
        }
        Ok(CronTab { minute, hour, day_of_month, month, day_of_week, command })
    }
}

/// Whether two expanded fields hold the same values in the same order.
pub(crate) fn vec_eq(a: &Vec<u32>, b: &Vec<u32>) -> (r: bool)
    ensures
        r == (a@ == b@),
{
    let r = a == b;
    proof {
        if r {
            assert(a@ =~= b@);
        }
        if a@ == b@ {
            assert(r);
        }
    }
    r
}

impl PartialEq for CronTab {
    /// Tables are equal when every expanded field and the command agree.
    fn eq(&self, other: &CronTab) -> (r: bool) {
        vec_eq(&self.minute, &other.minute) && vec_eq(&self.hour, &other.hour) && vec_eq(
            &self.day_of_month,
            &other.day_of_month,
        ) && vec_eq(&self.month, &other.month) && vec_eq(&self.day_of_week, &other.day_of_week)
            && self.command == other.command
    }
}

impl vstd::std_specs::cmp::PartialEqSpecImpl for CronTab {
    open spec fn obeys_eq_spec() -> bool {
        true
    }

    open spec fn eq_spec(&self, other: &CronTab) -> bool {
        &&& self.minute@ == other.minute@
        &&& self.hour@ == other.hour@
        &&& self.day_of_month@ == other.day_of_month@
        &&& self.month@ == other.month@
        &&& self.day_of_week@ == other.day_of_week@
        &&& self.command@ == other.command@
    }
}

impl core::str::FromStr for CronTab {
    type Err = Error;

    fn from_str(expression: &str) -> Result<CronTab, Error> {
        crate::parser::Parser::parse(expression)
    }
}

} // verus!
