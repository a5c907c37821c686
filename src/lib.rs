//! Remote control of a microcontroller's pins, PWM slices and PIO state
//! machines over a serial link of 64-byte packets: the wire codec, the
//! device's resource bookkeeping and command dispatch, and the host's
//! request correlation.
pub mod cbor;
pub mod protocol;
pub mod fields;
pub mod codec;
pub mod slot;
pub mod peripherals;
pub mod command;
pub mod channel;
pub mod requests;
