//! What the library promises, stated on what goes into its operations and what comes out of them.

pub mod calls;
pub mod capture;
pub mod effects;
pub mod inspection;
pub mod owner;
pub mod requests;
pub mod shapes;
pub mod snapshots;
pub mod store;
pub mod ticks;
pub mod timing;
pub mod views;
