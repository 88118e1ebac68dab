//! Assignment of people to pull requests: who gets asked to look at a change,
//! which of them are required, and in what order.

pub mod model;
pub mod eligibility;
pub mod selection;
pub mod shuffle;
pub mod assignment;
pub mod run;
pub mod directory;
pub mod slack;
pub mod laws;
