//! Authoritative server-side simulation core for a real-time arena game.
//!
//! World geometry is measured in integer subunits (`SUBUNITS_PER_UNIT` per
//! world unit) and time in integer units of 1/60 second, so every quantity
//! the simulation computes is exact integer arithmetic.

use vstd::prelude::*;

pub mod command;
pub mod component;
pub mod event;
pub mod game;
pub mod logic;
pub mod ping;
pub mod replay;
pub mod server;
pub mod stream;
pub mod system;
pub mod vector;

verus! {

/// Well-known TCP port the server listens on.
pub const DEFAULT_PORT: u16 = 26137;

/// Subunits per world unit: all coordinates, radii and speeds are scaled by this.
pub const SUBUNITS_PER_UNIT: i64 = 30;

/// Time units per second; one server tick at the default rate lasts one unit.
pub const TIME_UNITS_PER_SECOND: i64 = 60;

} // verus!
