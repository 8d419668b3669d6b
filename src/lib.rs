//! Aggregation of line-level case records into monthly counts of cases,
//! hospitalisations and deaths per jurisdiction and sex, with an all-sexes
//! rollup, returned as one table in a fixed order.

pub mod text;
pub mod record;
pub mod table;
pub mod aggregate;
pub mod laws;
