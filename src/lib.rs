//! Analysis of a salary survey table: cleaning, descriptive statistics,
//! histograms and a least-squares line of salary over experience, all in
//! exact integer arithmetic, and a lock that shares the table among readers.

pub mod analysis;
pub mod histogram;
pub mod loader;
pub mod regression;
pub mod shared;
pub mod stats;
pub mod table;
