pub mod aggregate;
pub mod decimals;
pub mod engine;
pub mod fees;
pub mod fill;
pub mod matching;
pub mod orders;
pub mod performance;
pub mod portfolio;
pub mod signal_laws;
pub mod signals;
pub mod stepping;
pub mod tape;
pub mod types;
