//! The next-occurrence calculator: the earliest instant strictly after a
//! reference instant that an assembled table admits, found by carry
//! propagation from the least significant calendar unit upward.

use crate::cron_table::CronTab;
use crate::expand::strictly_ascending;
use vstd::prelude::*;

verus! {

/// A calendar point at minute granularity.  Months are treated uniformly:
/// a day-of-month may be any value of the field's 1..=31 span, matching the
/// field bounds rather than any particular month's length.
#[derive(Clone, Copy, Debug, PartialEq, Eq, Structural, PartialOrd, Ord)]
pub struct Instant {
    pub year: u32,
    pub month: u32,
    pub day: u32,
    pub hour: u32,
    pub minute: u32,
}

impl Instant {
    /// Within the calendar bounds the calculator works over.
    pub open spec fn wf(self) -> bool {
        &&& 1 <= self.year <= 9999
        &&& 1 <= self.month <= 12
        &&& 1 <= self.day <= 31
        &&& self.hour <= 23
        &&& self.minute <= 59
    }

    /// Strictly earlier, comparing year, month, day, hour, minute in turn.
    pub open spec fn spec_lt(self, o: Instant) -> bool {
        if self.year != o.year {
            self.year < o.year
        } else if self.month != o.month {
            self.month < o.month
        } else if self.day != o.day {
            self.day < o.day
        } else if self.hour != o.hour {
            self.hour < o.hour
        } else {
            self.minute < o.minute
        }
    }

    /// Earlier or equal.
    pub open spec fn spec_le(self, o: Instant) -> bool {
        self.spec_lt(o) || self == o
    }
}

/// The day of the week of a date, numbered as the day-of-week field is:
/// 0 for Sunday through 6 for Saturday (Zeller's congruence, shifted).
pub open spec fn spec_day_of_week(y: int, m: int, d: int) -> int {
    let zy = if m <= 2 {
        y - 1
    } else {
        y
    };
    let zm = if m <= 2 {
        m + 12
    } else {
        m
    };
    let k = zy % 100;
    let j = zy / 100;
    ((d + (13 * (zm + 1)) / 5 + k + k / 4 + j / 4 + 5 * j) % 7 + 6) % 7
}

/// Computes the day of the week of a date, 0 = Sunday ... 6 = Saturday.
pub fn day_of_week(y: u32, m: u32, d: u32) -> (r: u32)
    requires
        1 <= y <= 9999,
        1 <= m <= 12,
        1 <= d <= 31,
    ensures
        r as int == spec_day_of_week(y as int, m as int, d as int),
        r <= 6,
{
    let zy: u32 = if m <= 2 {
        y - 1
    } else {
        y
    };
    let zm: u32 = if m <= 2 {
        m + 12
    } else {
        m
    };
    let k = zy % 100;
    let j = zy / 100;
    let h = (d + (13 * (zm + 1)) / 5 + k + k / 4 + j / 4 + 5 * j) % 7;
    (h + 6) % 7
}

/// The first (smallest) value of a strictly ascending field.
fn first_value(field: &Vec<u32>) -> (r: Option<u32>)
    requires
        strictly_ascending(field@),
    ensures
        match r {
            Some(x) => field@.contains(x) && (forall|y: u32| field@.contains(y) ==> x <= y),
            None => field@.len() == 0,
        },
{
    if field.len() == 0 {
        None
    } else {
        let x = field[0];
        proof {
            assert forall|y: u32| field@.contains(y) implies x <= y by {
                let w = choose|w: int| 0 <= w < field@.len() && field@[w] == y;
                if w > 0 {
                    assert(field@[0] < field@[w]);
                }
            }
            assert(field@.contains(field@[0]));
        }
        Some(x)
    }
}

/// The smallest field value at least `v`, if any.
fn next_value(field: &Vec<u32>, v: u32) -> (r: Option<u32>)
    requires
        strictly_ascending(field@),
    ensures
        match r {
            Some(x) => field@.contains(x) && x >= v && (forall|y: u32|
                field@.contains(y) && y >= v ==> x <= y),
            None => forall|y: u32| field@.contains(y) ==> y < v,
        },
{
    let m = field.len();
    let mut i: usize = 0;
    while i < m
        invariant
            i <= m,
            m == field@.len(),
            strictly_ascending(field@),
            forall|t: int| 0 <= t < i ==> #[trigger] field@[t] < v,
        decreases m - i,
    {
        let x = field[i];
        if x >= v {
            proof {
                assert(field@.contains(field@[i as int]));
                assert forall|y: u32| field@.contains(y) && y >= v implies x <= y by {
                    let w = choose|w: int| 0 <= w < field@.len() && field@[w] == y;
                    if w < i {
                        assert(field@[w] < v);
                    } else if w > i {
                        assert(field@[i as int] < field@[w]);
                    }
                }
            }
            return Some(x);
        }
        i = i + 1;
    }
    proof {
        assert forall|y: u32| field@.contains(y) implies y < v by {
            let w = choose|w: int| 0 <= w < field@.len() && field@[w] == y;
        }
    }
    None
}

/// Whether a field holds a value.
fn contains_value(field: &Vec<u32>, v: u32) -> (r: bool)
    ensures
        r == field@.contains(v),
{
    let m = field.len();
    let mut i: usize = 0;
    while i < m
        invariant
            i <= m,
            m == field@.len(),
            forall|t: int| 0 <= t < i ==> #[trigger] field@[t] != v,
        decreases m - i,
    {
        if field[i] == v {
            proof {
                assert(field@.contains(field@[i as int]));
            }
            return true;
        }
        i = i + 1;
    }
    proof {
        if field@.contains(v) {
            let w = choose|w: int| 0 <= w < field@.len() && field@[w] == v;
            assert(field@[w] != v);
        }
    }
    false
}

impl CronTab {
    /// Every field value lies within that field's calendar bounds.  Assembly
    /// alone does not establish this — an exact value is never checked — but
    /// a table within the documented field bounds satisfies it.
    pub open spec fn in_bounds(self) -> bool {
        &&& forall|i: int| 0 <= i < self.minute@.len() ==> #[trigger] self.minute@[i] <= 59
        &&& forall|i: int| 0 <= i < self.hour@.len() ==> #[trigger] self.hour@[i] <= 23
        &&& forall|i: int|
            0 <= i < self.day_of_month@.len() ==> 1 <= #[trigger] self.day_of_month@[i] <= 31
        &&& forall|i: int| 0 <= i < self.month@.len() ==> 1 <= #[trigger] self.month@[i] <= 12
        &&& forall|i: int| 0 <= i < self.day_of_week@.len() ==> #[trigger] self.day_of_week@[i]
            <= 6
    }

    /// Ascending, duplicate-free fields whose values lie within the calendar
    /// bounds: the table invariant the calculator relies on.
    pub open spec fn wf(self) -> bool {
        self.ascending() && self.in_bounds()
    }

    /// Whether the four date and time fields admit `t`; the day-of-week
    /// field is reconciled separately.
    pub open spec fn admits(self, t: Instant) -> bool {
        &&& self.minute@.contains(t.minute)
        &&& self.hour@.contains(t.hour)
        &&& self.day_of_month@.contains(t.day)
        &&& self.month@.contains(t.month)
    }

    /// The earliest instant strictly after `after` whose minute, hour,
    /// day-of-month and month all lie in this table's fields, found by carry
    /// propagation from the minute upward; each unit either advances (then
    /// all lesser units reset to their fields' minima) or wraps and carries.
    /// The found date's day of the week must lie in the day-of-week field;
    /// when it does not, the calculator reports absence rather than trying
    /// later days.
    pub fn next(&self, after: &Instant) -> (r: Option<Instant>)
        requires
            self.wf(),
            after.wf(),
            after.year <= 9998,
        ensures
            match r {
                Some(t) => {
                    &&& t.wf()
                    &&& after.spec_lt(t)
                    &&& self.admits(t)
                    &&& forall|u: Instant|
                        u.wf() && after.spec_lt(u) && #[trigger] self.admits(u) ==> t.spec_le(u)
                    &&& self.day_of_week@.contains(
                        spec_day_of_week(t.year as int, t.month as int, t.day as int) as u32,
                    )
                },
                None => {
                    ||| self.minute@.len() == 0
                    ||| self.hour@.len() == 0
                    ||| self.day_of_month@.len() == 0
                    ||| self.month@.len() == 0
                    ||| exists|t: Instant|
                        {
                            &&& t.wf()
                            &&& after.spec_lt(t)
                            &&& #[trigger] self.admits(t)
                            &&& forall|u: Instant|
                                u.wf() && after.spec_lt(u) && #[trigger] self.admits(u)
                                    ==> t.spec_le(u)
                            &&& !self.day_of_week@.contains(
                                spec_day_of_week(t.year as int, t.month as int, t.day as int)
                                    as u32,
                            )
                        }
                },
            },
    {
        let m_first = match first_value(&self.minute) {
            Some(x) => x,
            None => {
                return None;
            },
        };
        let h_first = match first_value(&self.hour) {
            Some(x) => x,
            None => {
                return None;
            },
        };
        let d_first = match first_value(&self.day_of_month) {
            Some(x) => x,
            None => {
                return None;
            },
        };
        let mo_first = match first_value(&self.month) {
            Some(x) => x,
            None => {
                return None;
            },
        };

        let mut minute: u32;
        let carry_h: bool;
        match next_value(&self.minute, after.minute + 1) {
            Some(x) => {
                minute = x;
                carry_h = false;
            },
            None => {
                minute = m_first;
                carry_h = true;
            },
        }
        let ghost minute_stage = minute;

        let href: u32 = if carry_h {
            after.hour + 1
        } else {
            after.hour
        };
        let mut hour: u32;
        let carry_d: bool;
        match next_value(&self.hour, href) {
            Some(x) => {
                hour = x;
                if x > after.hour {
                    minute = m_first;
                }
                carry_d = false;
            },
            None => {
                hour = h_first;
                minute = m_first;
                carry_d = true;
            },
        }
        let ghost hour_stage = hour;

        let dref: u32 = if carry_d {
            after.day + 1
        } else {
            after.day
        };
        let mut day: u32;
        let carry_mo: bool;
        match next_value(&self.day_of_month, dref) {
            Some(x) => {
                day = x;
                if x > after.day {
                    hour = h_first;
                    minute = m_first;
                }
                carry_mo = false;
            },
            None => {
                day = d_first;
                hour = h_first;
                minute = m_first;
                carry_mo = true;
            },
        }
        let ghost day_stage = day;

        let moref: u32 = if carry_mo {
            after.month + 1
        } else {
            after.month
        };
        let month: u32;
        let year: u32;
        match next_value(&self.month, moref) {
            Some(x) => {
                month = x;
                if x > after.month {
                    day = d_first;
                    hour = h_first;
                    minute = m_first;
                }
                year = after.year;
            },
            None => {
                month = mo_first;
                day = d_first;
                hour = h_first;
                minute = m_first;
                year = after.year + 1;
            },
        }

        let t = Instant { year, month, day, hour, minute };
        proof {
            assert(t.wf());
            assert(self.admits(t));
            assert(after.spec_lt(t)) by {
                if year == after.year {
                    if month == after.month {
                        if day == after.day {
                            if hour == after.hour {
                                assert(!carry_h && minute == minute_stage);
                                assert(minute > after.minute);
                            }
                        }
                    }
                }
            }
            assert forall|u: Instant|
                u.wf() && after.spec_lt(u) && #[trigger] self.admits(u) implies t.spec_le(u) by {
                if u.year > after.year {
                    if t.year == after.year {
                        assert(t.spec_lt(u));
                    } else {
                        assert(t.year == after.year + 1 && t.month == mo_first && t.day == d_first
                            && t.hour == h_first && t.minute == m_first);
                        assert(mo_first <= u.month && d_first <= u.day && h_first <= u.hour
                            && m_first <= u.minute);
                        assert(t.spec_le(u));
                    }
                } else {
                    assert(u.year == after.year);
                    if u.month > after.month {
                        assert(u.month >= moref);
                        assert(t.year == after.year);
                        assert(t.month <= u.month);
                        if t.month == u.month {
                            assert(t.month > after.month);
                            assert(t.day == d_first && t.hour == h_first && t.minute == m_first);
                        }
                        assert(t.spec_le(u));
                    } else {
                        assert(u.month == after.month);
                        if u.day > after.day {
                            assert(u.day >= dref);
                            assert(!carry_mo);
                            assert(moref == after.month);
                            assert(t.year == after.year);
                            assert(t.month <= after.month);
                            assert(t.month == after.month);
                            assert(t.day == day_stage);
                            assert(day_stage <= u.day);
                            if t.day == u.day {
                                assert(t.day > after.day);
                                assert(t.hour == h_first && t.minute == m_first);
                            }
                            assert(t.spec_le(u));
                        } else {
                            assert(u.day == after.day);
                            if u.hour > after.hour {
                                assert(u.hour >= href);
                                assert(!carry_d);
                                assert(dref == after.day);
                                assert(day_stage == after.day);
                                assert(!carry_mo);
                                assert(moref == after.month);
                                assert(t.year == after.year);
                                assert(t.month == after.month);
                                assert(t.day == after.day);
                                assert(t.hour == hour_stage);
                                assert(hour_stage <= u.hour);
                                if t.hour == u.hour {
                                    assert(t.hour > after.hour);
                                    assert(t.minute == m_first);
                                }
                                assert(t.spec_le(u));
                            } else {
                                assert(u.hour == after.hour && u.minute > after.minute);
                                assert(u.minute >= after.minute + 1);
                                assert(!carry_h);
                                assert(minute_stage <= u.minute);
                                assert(href == after.hour);
                                assert(!carry_d);
                                assert(hour_stage == after.hour);
                                assert(dref == after.day);
                                assert(day_stage == after.day);
                                assert(!carry_mo);
                                assert(moref == after.month);
                                assert(t.year == after.year);
                                assert(t.month == after.month);
                                assert(t.day == after.day);
                                assert(t.hour == after.hour);
                                assert(t.minute == minute_stage);
                                assert(t.spec_le(u));
                            }
                        }
                    }
                }
            }
        }
        let w = day_of_week(t.year, t.month, t.day);
        if contains_value(&self.day_of_week, w) {
            Some(t)
        } else {
            proof {
                assert(self.admits(t));
            }
            None
        }
    }
}

} // verus!
