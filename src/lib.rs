//! A multi-client chat relay: unique display names, room broadcast, private
//! whispers, a bounded replay history and a per-connection protocol state
//! machine. The transport, the channels and the timers live with the caller;
//! this crate decides what happens on each event.

pub mod basics;
pub mod command;
pub mod history;
pub mod notice;
pub mod registry;
pub mod session;
pub mod text;
