//! Battery readings of wireless peripherals.

pub mod protocol;
pub mod transport;
pub mod store;
pub mod names;
pub mod logitech;
pub mod power_supply;
pub mod headsets;
