use vstd::prelude::*;

verus! {

/// One clause of a cron field: `*`, a single value, or an inclusive range.
#[derive(Clone, Copy, Debug, PartialEq, Eq, Structural)]
pub enum CronBaseExpression {
    All,
    Exact(u32),
    Range(u32, u32),
}

/// One comma-separated item of a field: a base clause on its own, or a base
/// clause walked with a step increment.
#[derive(Clone, Copy, Debug, PartialEq, Eq, Structural)]
pub enum CronExpression {
    Simple(CronBaseExpression),
    Period(CronBaseExpression, u32),
}

} // verus!
