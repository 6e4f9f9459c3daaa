//! A terminal password manager: an encrypted vault of named environments,
//! each holding environment variables, with the state machine of its
//! terminal front end.

pub mod text;
pub mod assoc;
pub mod vault;
pub mod tui;
pub mod screen;
pub mod cli;
