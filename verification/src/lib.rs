//! Verified core of a discretionary trading engine: component lifecycles, order
//! states, routing command application, risk bookkeeping and error formatting.

pub mod bus;
pub mod component;
pub mod order_state;
pub mod report;
pub mod risk;
pub mod routing;
pub mod settings;
pub mod strategy;
pub mod text;
