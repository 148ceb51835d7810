//! Client-originated requests to change an entity's intent.

use vstd::prelude::*;

use crate::component::{wf_target, Target};
use crate::vector::{wf_point, Point};

verus! {

/// A request from a client about its own entity, applied synchronously by
/// the server; the events it produces are queued like tick events.
#[derive(Clone, Copy, Debug, PartialEq, Eq)]
pub enum Command {
    SetTarget(Target),
    UseAbility { ability_id: u32, mouse_position: Option<Point> },
}

pub open spec fn wf_command(c: Command) -> bool {
    match c {
        Command::SetTarget(t) => wf_target(t),
        Command::UseAbility { mouse_position, .. } => match mouse_position {
            Some(p) => wf_point(p),
            None => true,
        },
    }
}

/// Whether the command checks `wf_command`, decided at run time.
pub fn command_is_wf(c: &Command) -> (r: bool)
    ensures
        r == wf_command(*c),
{
    match c {
        Command::SetTarget(t) => match t {
            Target::Nothing => true,
            Target::Position(p) => crate::event::point_in_range(*p),
            Target::Entity(_) => true,
        },
        Command::UseAbility { mouse_position, .. } => match mouse_position {
            Some(p) => crate::event::point_in_range(*p),
            None => true,
        },
    }
}

} // verus!
