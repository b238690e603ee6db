//! Central-role coordination for a Bluetooth Low Energy client: the device
//! registry, the event bus, the scan session and the adapter that composes them.

pub mod types;
pub mod registry;
pub mod events;
pub mod scan;
pub mod adapter;
