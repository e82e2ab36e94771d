//! Core of a multi-user online chess service.
//!
//! The library holds everything that can be stated and proved: the message
//! taxonomy and its wire codec, the user-store line format, the rule-engine
//! adapter around the `chess` crate, the per-game state, the session registry
//! with its three-way index, and the dispatcher that turns an incoming
//! message into state changes and outbound messages.  The surrounding
//! process — sockets, tasks, files — lives outside and hands the library
//! plain values.

pub mod client;
pub mod codec;
pub mod dispatch;
pub mod engine;
pub mod game;
pub mod messages;
pub mod registry;
pub mod store;
pub mod table;

use vstd::prelude::*;

verus! {

} // verus!
