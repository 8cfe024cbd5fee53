//! A command-free variant of the assembled table: just the five expanded
//! fields.

use crate::error::Error;
use crate::expand::{calculate_time, list_ok, list_values, strictly_ascending};
use crate::expression::CronExpression;
use vstd::prelude::*;

verus! {

/// The five expanded calendar fields of a schedule, without command text.
#[derive(Debug)]
pub struct Schedule {
    pub minute: Vec<u32>,
    pub hour: Vec<u32>,
    pub day_of_month: Vec<u32>,
    pub month: Vec<u32>,
    pub day: Vec<u32>,
}

impl Schedule {
    /// Every field is strictly ascending and therefore duplicate free.
    pub open spec fn ascending(self) -> bool {
        &&& strictly_ascending(self.minute@)
        &&& strictly_ascending(self.hour@)
        &&& strictly_ascending(self.day_of_month@)
        &&& strictly_ascending(self.month@)
        &&& strictly_ascending(self.day@)
    }

    /// The five field lists expanded against their fixed bounds, in order.
    /// Any failure aborts the whole assembly.
    pub fn from_cron_expression_list(
        minute_list: Vec<CronExpression>,
        hour_list: Vec<CronExpression>,
        day_of_month_list: Vec<CronExpression>,
        month_list: Vec<CronExpression>,
        day_list: Vec<CronExpression>,
    ) -> (r: Result<Schedule, Error>)
        ensures
            match r {
                Ok(t) => {
                    &&& list_ok(minute_list@, 59)
                    &&& list_ok(hour_list@, 23)
                    &&& list_ok(day_of_month_list@, 31)
                    &&& list_ok(month_list@, 12)
                    &&& list_ok(day_list@, 6)
                    &&& t.ascending()
                    &&& t.minute@.to_set() == list_values(minute_list@, 0, 59)
                    &&& t.hour@.to_set() == list_values(hour_list@, 0, 23)
                    &&& t.day_of_month@.to_set() == list_values(day_of_month_list@, 1, 31)
                    &&& t.month@.to_set() == list_values(month_list@, 1, 12)
                    &&& t.day@.to_set() == list_values(day_list@, 0, 6)
                },
                Err(_) => !({
                    &&& list_ok(minute_list@, 59)
                    &&& list_ok(hour_list@, 23)
                    &&& list_ok(day_of_month_list@, 31)
                    &&& list_ok(month_list@, 12)
                    &&& list_ok(day_list@, 6)
                }),
            },
    {
        let minute = calculate_time(minute_list, 0, 59)?;
        let hour = calculate_time(hour_list, 0, 23)?;
        let day_of_month = calculate_time(day_of_month_list, 1, 31)?;
        let month = calculate_time(month_list, 1, 12)?;
        let day = calculate_time(day_list, 0, 6)?;

        Ok(Schedule { minute, hour, day_of_month, month, day })
    }
}

impl PartialEq for Schedule {
    /// Schedules are equal when every expanded field agrees.
    fn eq(&self, other: &Schedule) -> (r: bool) {
        crate::cron_table::vec_eq(&self.minute, &other.minute) && crate::cron_table::vec_eq(
            &self.hour,
            &other.hour,
        ) && crate::cron_table::vec_eq(&self.day_of_month, &other.day_of_month)
            && crate::cron_table::vec_eq(&self.month, &other.month) && crate::cron_table::vec_eq(
            &self.day,
            &other.day,
        )
    }
}

impl vstd::std_specs::cmp::PartialEqSpecImpl for Schedule {
    open spec fn obeys_eq_spec() -> bool {
        true
    }

    open spec fn eq_spec(&self, other: &Schedule) -> bool {
        &&& self.minute@ == other.minute@
        &&& self.hour@ == other.hour@
        &&& self.day_of_month@ == other.day_of_month@
        &&& self.month@ == other.month@
        &&& self.day@ == other.day@
    }
}

} // verus!
