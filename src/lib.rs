//! Buffered command/data transport for MIPI-DCS display controllers.
//!
//! The verified core decides which bus operations a request produces (select
//! line changes and byte transactions); a driver performs them in order.

pub mod adapter;
pub mod bus;
pub mod color;
pub mod interface;
pub mod model;
