//! Logic of a bridge between a message bus and a home-automation hub:
//! canonical text of state values, the capability catalog builder and the
//! per-message command dispatcher.

pub mod state;
pub mod text;
pub mod capabilities;
pub mod dispatch;
