//! Replayable world-state changes.
//!
//! Events are the only vocabulary in which observable world state changes:
//! the server applies each tick's events to its own store in emission order
//! and broadcasts them in that same order, so a client that replays them
//! reconstructs the same world.

use vstd::prelude::*;

use crate::component::{wf_target, EntityID, HeroKind, Target, Team};
use crate::vector::{wf_point, Point};

verus! {

/// An immutable record of a world-state change.
#[derive(Clone, Debug, PartialEq, Eq)]
pub enum Event {
    EntityMove(EntityID, Point),
    AddHero { id: EntityID, position: Point, hero: HeroKind, name: String, team: Option<Team> },
    AddProjectile {
        id: EntityID,
        position: Point,
        target: Target,
        damage: u16,
        team: Option<Team>,
        owner: EntityID,
    },
    DamageEntity { id: EntityID, damage: u16 },
    RemoveEntity(EntityID),
}

/// Events the simulation accepts: coordinates within the world range, and
/// identifiers of added entities leaving room for the id counter.
pub open spec fn wf_event(e: Event) -> bool {
    match e {
        Event::EntityMove(_, p) => wf_point(p),
        Event::AddHero { id, position, .. } => wf_point(position) && id.0 < u32::MAX,
        Event::AddProjectile { id, position, target, .. } => wf_point(position) && wf_target(
            target,
        ) && id.0 < u32::MAX,
        Event::DamageEntity { .. } => true,
        Event::RemoveEntity(_) => true,
    }
}

pub open spec fn wf_events(es: Seq<Event>) -> bool {
    forall|i: int| 0 <= i < es.len() ==> wf_event(#[trigger] es[i])
}

/// An exact copy of the event, usable where the original must stay behind.
pub fn clone_event(e: &Event) -> (r: Event)
    ensures
        r == *e,
{
    match e {
        Event::EntityMove(id, p) => Event::EntityMove(*id, *p),
        Event::AddHero { id, position, hero, name, team } => Event::AddHero {
            id: *id,
            position: *position,
            hero: *hero,
            name: name.clone(),
            team: *team,
        },
        Event::AddProjectile { id, position, target, damage, team, owner } => {
            Event::AddProjectile {
                id: *id,
                position: *position,
                target: *target,
                damage: *damage,
                team: *team,
                owner: *owner,
            }
        },
        Event::DamageEntity { id, damage } => Event::DamageEntity { id: *id, damage: *damage },
        Event::RemoveEntity(id) => Event::RemoveEntity(*id),
    }
}

/// Whether the event checks `wf_event`, decided at run time, so that a
/// caller fed events from outside can reject the ill-formed ones.
pub fn event_is_wf(e: &Event) -> (r: bool)
    ensures
        r == wf_event(*e),
{
    match e {
        Event::EntityMove(_, p) => point_in_range(*p),
        Event::AddHero { id, position, .. } => point_in_range(*position) && id.0 < u32::MAX,
        Event::AddProjectile { id, position, target, .. } => point_in_range(*position)
            && target_in_range(*target) && id.0 < u32::MAX,
        Event::DamageEntity { .. } => true,
        Event::RemoveEntity(_) => true,
    }
}

pub(crate) fn point_in_range(p: Point) -> (r: bool)
    ensures
        r == wf_point(p),
{
    -crate::vector::MAX_COORD <= p.x && p.x <= crate::vector::MAX_COORD
        && -crate::vector::MAX_COORD <= p.y && p.y <= crate::vector::MAX_COORD
}

pub(crate) fn target_in_range(t: Target) -> (r: bool)
    ensures
        r == wf_target(t),
{
    match t {
        Target::Nothing => true,
        Target::Position(p) => point_in_range(p),
        Target::Entity(_) => true,
    }
}

} // verus!
