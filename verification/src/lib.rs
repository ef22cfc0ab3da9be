//! Feature engineering for sequential bid prediction.
//!
//! Raw auction and bid records are filtered, enriched with timing and
//! per-user history features, reshaped into lag windows and split
//! chronologically into training, validation and test sets.  Every stage is
//! a function from rows to rows whose result is fixed by a specification
//! function over sequences.

pub mod order;
pub mod pipeline;
pub mod filter;
pub mod groups;
pub mod history;
pub mod lags;
pub mod money;
pub mod rows;
pub mod split;
pub mod temporal;
pub mod timing;
