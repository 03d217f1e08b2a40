//! What the public functions promise, said of their inputs and results alone.
//!
//! A law speaks of the calls themselves: of what a call returned, or of how what two calls
//! returned hangs together. It does so in terms of characters and bytes and of what age
//! makes of them.

pub mod armor;
pub mod editing;
pub mod failures;
pub mod filter;
pub mod inputs;
pub mod installing;
pub mod keys;
pub mod places;
pub mod values;
