pub mod cron_table;
pub mod error;
pub mod expand;
pub mod expression;
pub mod occurrence;
pub mod parser;
pub mod schedule;
mod value_set;
