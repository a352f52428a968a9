//! Driver logic for the KSZ8851SNL SPI Ethernet controller.
//!
//! The chip is reached through a register-oriented serial bus. This crate
//! holds the verified core: the command-header encoding for register access,
//! the initialization sequence, the transmit and receive framing protocols,
//! and the register accessors, all specified over a ghost transcript of the
//! bus transactions they issue. The physical transport and the timing source
//! are port traits in [`bus`] that the embedding program implements.
pub mod bus;
pub mod device;
pub mod driver;
pub mod laws;
