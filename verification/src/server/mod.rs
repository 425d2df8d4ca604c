//! A mock bank for tests and development.

pub mod answer;
pub mod codec;
pub mod conduct;
pub mod failing;
pub mod faults;
pub mod fixtures;
pub mod history;
pub mod laws;
pub mod reading;
pub mod scan;
pub mod scanned;
pub mod signing;
pub mod state;
pub mod told;
