//! Combat rules shared by the pipeline stages.

use vstd::prelude::*;

use crate::component::{wf_hitbox, Hitbox, Team};
use crate::system::can_attack_spec;
use crate::vector::{sq, sqrt_ceil_spec, wf_point, Point};

verus! {

/// Whether an attacker with `this_team` may damage an entity with
/// `other_team`: sharing a non-zero team forbids it, and only damageable
/// entities are valid victims. Team 0 is unaligned and attackable by
/// everyone, so a shared team 0 blocks nothing.
pub fn can_attack(
    this_team: Option<Team>,
    other_team: Option<Team>,
    other_has_hitpoints: bool,
) -> (r: bool)
    ensures
        r == can_attack_spec(this_team, other_team, other_has_hitpoints),
{
    let same_nonzero_team: bool = match (this_team, other_team) {
        (Some(a), Some(b)) => a.0 == b.0 && a.0 != 0,
        _ => false,
    };
    if same_nonzero_team {
        return false;
    }
    other_has_hitpoints
}

/// The gap between two circular hitboxes (or points, where a hitbox is
/// absent): centre distance minus both radii, floored at zero.
pub open spec fn shortest_distance_spec(
    this_point: Point,
    other_point: Point,
    this_hitbox: Option<Hitbox>,
    other_hitbox: Option<Hitbox>,
) -> int {
    let d = sqrt_ceil_spec(sq(other_point.x - this_point.x) + sq(other_point.y - this_point.y));
    let r1 = match this_hitbox {
        Some(h) => h.radius as int,
        None => 0,
    };
    let r2 = match other_hitbox {
        Some(h) => h.radius as int,
        None => 0,
    };
    if d - r1 - r2 >= 0 {
        d - r1 - r2
    } else {
        0
    }
}

/// How far apart two entities' hitbox surfaces are, in subunits.
pub fn shortest_distance_between(
    this_point: Point,
    other_point: Point,
    this_hitbox: Option<Hitbox>,
    other_hitbox: Option<Hitbox>,
) -> (r: i64)
    requires
        wf_point(this_point),
        wf_point(other_point),
        match this_hitbox {
            Some(h) => wf_hitbox(h),
            None => true,
        },
        match other_hitbox {
            Some(h) => wf_hitbox(h),
            None => true,
        },
    ensures
        r as int == shortest_distance_spec(this_point, other_point, this_hitbox, other_hitbox),
{
    let d: i64 = this_point.distance_to(other_point);
    let r1: i64 = match this_hitbox {
        Some(h) => h.radius,
        None => 0,
    };
    let r2: i64 = match other_hitbox {
        Some(h) => h.radius,
        None => 0,
    };
    if d - r1 - r2 >= 0 {
        d - r1 - r2
    } else {
        0
    }
}

} // verus!
