//! Verified core of a small cluster monitor: a head node keeps the list of
//! worker nodes that report to it, and renders their load history.

pub mod display;
pub mod get_data;
pub mod handle_data;
pub mod head;
pub mod message;
pub mod worker;
