//! The logic of an always-on-top overlay that shows API credit balances and
//! machine load.
//!
//! Everything here works on plain values. Talking to the network, the disk,
//! the clock and the window system is left to the program around it, which
//! reports what happened and carries out what this crate decides.

pub mod balance;
pub mod color;
pub mod config;
pub mod draw;
pub mod layout;
pub mod render;
pub mod state;
pub mod surface;
pub mod system;
pub mod text;
