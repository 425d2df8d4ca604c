//! The segments that client and bank exchange.

pub mod builder;
pub mod positions;
pub mod recognized;
pub mod response;
pub mod shapes;
pub mod stated;
