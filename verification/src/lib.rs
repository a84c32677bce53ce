//! Bindings between chat rooms and the mirroring of membership changes
//! from a master room to the rooms bound to it.

pub mod backing;
pub mod command;
pub mod decimal;
pub mod entries;
pub mod keys;
pub mod mirror;
pub mod relation;
pub mod store;
