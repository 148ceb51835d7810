//! Per-entity component types of the simulation.
//!
//! Distances and radii are in subunits, speeds in subunits per second,
//! durations in time units of 1/60 second, and attack rates in
//! milli-attacks per second, so that the standard hero's 0.8 attacks per
//! second and 1.25 second attack period are exact integers.

use vstd::prelude::*;

use crate::vector::{in_coord_range, wf_point, Point, Vector, MAX_RADIUS, MAX_SPEED};

verus! {

/// Stable identifier of a live entity; never reused while the entity lives.
#[derive(Clone, Copy, Debug, Eq, Hash)]
pub struct EntityID(pub u32);

impl PartialEq for EntityID {
    fn eq(&self, o: &EntityID) -> (r: bool) {
        self.0 == o.0
    }
}

impl vstd::std_specs::cmp::PartialEqSpecImpl for EntityID {
    open spec fn obeys_eq_spec() -> bool {
        true
    }

    open spec fn eq_spec(&self, o: &EntityID) -> bool {
        self.0 == o.0
    }
}

/// Team tag; team 0 is unaligned and attackable by everyone.
#[derive(Clone, Copy, Debug, PartialEq, Eq, Hash)]
pub struct Team(pub u8);

/// What sort of entity a record describes, used to rebuild add-events
/// for late joiners.
#[derive(Clone, Copy, Debug, PartialEq, Eq, Hash)]
pub enum EntityKind {
    Hero,
    Projectile,
}

/// The playable hero kinds; stats are pure functions of the tag.
#[derive(Clone, Copy, Debug, PartialEq, Eq)]
pub enum HeroKind {
    John,
}

impl HeroKind {
    pub open spec fn spec_radius(self) -> i64 {
        match self {
            HeroKind::John => 1500,
        }
    }

    pub open spec fn spec_speed(self) -> i64 {
        match self {
            HeroKind::John => 6000,
        }
    }

    pub open spec fn spec_range(self) -> i64 {
        match self {
            HeroKind::John => 6000,
        }
    }

    pub open spec fn spec_attack_speed(self) -> u32 {
        match self {
            HeroKind::John => 800,
        }
    }

    /// Hitbox radius in subunits (50 world units).
    #[verifier::when_used_as_spec(spec_radius)]
    pub fn radius(self) -> (r: i64)
        ensures
            r == 1500i64,
            0 < r <= MAX_RADIUS,
    {
        match self {
            HeroKind::John => 1500,
        }
    }

    /// Movement speed in subunits per second (200 world units per second).
    #[verifier::when_used_as_spec(spec_speed)]
    pub fn speed(self) -> (r: i64)
        ensures
            r == 6000i64,
            0 < r <= MAX_SPEED,
    {
        match self {
            HeroKind::John => 6000,
        }
    }

    /// Basic-attack range in subunits (200 world units).
    #[verifier::when_used_as_spec(spec_range)]
    pub fn range(self) -> (r: i64)
        ensures
            r == 6000i64,
            0 < r <= MAX_RADIUS,
    {
        match self {
            HeroKind::John => 6000,
        }
    }

    /// Attack rate in milli-attacks per second (0.8 attacks per second).
    #[verifier::when_used_as_spec(spec_attack_speed)]
    pub fn attack_speed(self) -> (r: u32)
        ensures
            r == 800u32,
    {
        match self {
            HeroKind::John => 800,
        }
    }
}

/// What a unit is moving toward or attacking.
#[derive(Clone, Copy, Debug, PartialEq, Eq)]
pub enum Target {
    Nothing,
    Position(Point),
    Entity(EntityID),
}

pub open spec fn wf_target(t: Target) -> bool {
    match t {
        Target::Nothing => true,
        Target::Position(p) => wf_point(p),
        Target::Entity(_) => true,
    }
}

/// Self-targeting is forbidden: a target naming the acting entity itself
/// collapses to no target at all.
pub fn normalize_target(target: Target, own: EntityID) -> (r: Target)
    ensures
        target == Target::Entity(own) ==> r == Target::Nothing,
        target != Target::Entity(own) ==> r == target,
{
    match target {
        Target::Entity(id) if id == own => Target::Nothing,
        x => x,
    }
}

/// Damageable state: `current` never leaves `[0, max]`.
#[derive(Clone, Copy, Debug, PartialEq, Eq)]
pub struct Hitpoints {
    pub max: u16,
    pub current: u16,
}

/// One mutation of a `Hitpoints` value, as a datum for stating laws
/// about arbitrary call sequences.
#[derive(Clone, Copy, Debug, PartialEq, Eq)]
pub enum HitpointOp {
    Damage(u16),
    SetCurrent(u16),
    SetMax(u16),
}

pub open spec fn hp_wf(hp: Hitpoints) -> bool {
    hp.current <= hp.max
}

pub open spec fn hp_damage_spec(hp: Hitpoints, damage: u16) -> Hitpoints {
    Hitpoints {
        max: hp.max,
        current: if damage > hp.current {
            0u16
        } else {
            (hp.current - damage) as u16
        },
    }
}

pub open spec fn hp_set_current_spec(hp: Hitpoints, to: u16) -> Hitpoints {
    Hitpoints {
        max: hp.max,
        current: if to > hp.max {
            hp.max
        } else {
            to
        },
    }
}

pub open spec fn hp_set_max_spec(hp: Hitpoints, to: u16) -> Hitpoints {
    let raised = if to > hp.max {
        hp.current + to - hp.max
    } else {
        hp.current as int
    };
    Hitpoints {
        max: to,
        current: if raised > to {
            to
        } else {
            raised as u16
        },
    }
}

pub open spec fn hp_apply_op(hp: Hitpoints, op: HitpointOp) -> Hitpoints {
    match op {
        HitpointOp::Damage(d) => hp_damage_spec(hp, d),
        HitpointOp::SetCurrent(t) => hp_set_current_spec(hp, t),
        HitpointOp::SetMax(t) => hp_set_max_spec(hp, t),
    }
}

pub open spec fn hp_apply_ops(hp: Hitpoints, ops: Seq<HitpointOp>) -> Hitpoints
    decreases ops.len(),
{
    if ops.len() == 0 {
        hp
    } else {
        hp_apply_ops(hp_apply_op(hp, ops[0]), ops.skip(1))
    }
}

impl Hitpoints {
    pub fn new_at_max(max: u16) -> (hp: Hitpoints)
        ensures
            hp == (Hitpoints { max, current: max }),
            hp_wf(hp),
    {
        Hitpoints { max, current: max }
    }

    pub fn max(&self) -> (r: u16)
        ensures
            r == self.max,
    {
        self.max
    }

    pub fn current(&self) -> (r: u16)
        ensures
            r == self.current,
    {
        self.current
    }

    /// Set the current value, clamped to the maximum.
    pub fn set_current(&mut self, to: u16)
        ensures
            *final(self) == hp_set_current_spec(*old(self), to),
            hp_wf(*final(self)),
    {
        self.current = if to > self.max {
            self.max
        } else {
            to
        };
    }

    /// Raise or lower the maximum; raising it by some amount raises the
    /// current value by the same amount, and the result is re-clamped.
    pub fn set_max(&mut self, to: u16)
        requires
            hp_wf(*old(self)),
        ensures
            *final(self) == hp_set_max_spec(*old(self), to),
            hp_wf(*final(self)),
    {
        let diff: u16 = if to > self.max {
            to - self.max
        } else {
            0
        };
        self.max = to;
        self.current = self.current + diff;
        if self.current > self.max {
            self.current = self.max;
        }
    }

    /// Subtract damage, stopping at zero.
    pub fn damage(&mut self, damage: u16)
        ensures
            *final(self) == hp_damage_spec(*old(self), damage),
            hp_wf(*old(self)) ==> hp_wf(*final(self)),
    {
        if damage > self.current {
            self.current = 0;
        } else {
            self.current = self.current - damage;
        }
    }
}

/// Each single mutation keeps `current` within `[0, max]`.
pub proof fn lemma_hp_op_preserves_wf(hp: Hitpoints, op: HitpointOp)
    requires
        hp_wf(hp),
    ensures
        hp_wf(hp_apply_op(hp, op)),
{
}

/// After any sequence of mutations of a well-formed `Hitpoints` value,
/// `current` is still within `[0, max]`.
pub proof fn lemma_hp_ops_preserve_wf(hp: Hitpoints, ops: Seq<HitpointOp>)
    requires
        hp_wf(hp),
    ensures
        hp_wf(hp_apply_ops(hp, ops)),
    decreases ops.len(),
{
    if ops.len() > 0 {
        lemma_hp_op_preserves_wf(hp, ops[0]);
        lemma_hp_ops_preserve_wf(hp_apply_op(hp, ops[0]), ops.skip(1));
    }
}

/// Where something occupies space: its centre point.
#[derive(Clone, Copy, Debug, PartialEq, Eq)]
pub struct Position {
    pub point: Point,
}

/// Per-tick displacement rate in subunits per second, derived from
/// target-seeking logic each tick.
#[derive(Clone, Copy, Debug, PartialEq, Eq)]
pub struct Velocity {
    pub vector: Vector,
}

impl Velocity {
    pub fn new(x: i64, y: i64) -> (v: Velocity)
        ensures
            v == (Velocity { vector: Vector { x, y } }),
    {
        Velocity { vector: Vector { x, y } }
    }
}

/// An RGBA colour with 8-bit channels; purely cosmetic.
#[derive(Clone, Copy, Debug, PartialEq, Eq)]
pub struct Colour {
    pub red: u8,
    pub green: u8,
    pub blue: u8,
    pub alpha: u8,
}

/// Cosmetic state consumed only by a client.
#[derive(Clone, Copy, Debug, PartialEq, Eq)]
pub struct Renderable {
    pub radius: i64,
    pub colour: Colour,
}

/// A circular collidable shape, in subunits.
#[derive(Clone, Copy, Debug, PartialEq, Eq)]
pub struct Hitbox {
    pub radius: i64,
}

pub open spec fn wf_hitbox(h: Hitbox) -> bool {
    0 <= h.radius <= MAX_RADIUS
}

impl Hitbox {
    pub fn new_ball(radius: i64) -> (h: Hitbox)
        ensures
            h == (Hitbox { radius }),
    {
        Hitbox { radius }
    }

    /// Whether the point `p` lies within the shape centred at `(x, y)`,
    /// distances rounding up to whole subunits.
    pub fn contains_point(&self, x: i64, y: i64, p: Point) -> (r: bool)
        requires
            wf_hitbox(*self),
            in_coord_range(x as int),
            in_coord_range(y as int),
            wf_point(p),
        ensures
            r == (crate::vector::sqrt_ceil_spec(
                crate::vector::sq(p.x - x) + crate::vector::sq(p.y - y),
            ) <= self.radius),
    {
        let centre = Point { x, y };
        let d: i64 = centre.distance_to(p);
        d <= self.radius
    }
}

/// Transient damage dealer, owned by the entity that fired it.
#[derive(Clone, Copy, Debug, PartialEq, Eq)]
pub struct Projectile {
    pub damage: u16,
    pub owner: EntityID,
}

/// A human-controlled hero entity.
#[derive(Clone, Debug, PartialEq, Eq)]
pub struct Player {
    pub hero: HeroKind,
    pub name: String,
}

impl Player {
    pub fn name(&self) -> (r: &str)
        ensures
            r@ == self.name@,
    {
        self.name.as_str()
    }
}

/// Anything that moves toward a goal.
#[derive(Clone, Copy, Debug, PartialEq, Eq)]
pub struct Unit {
    pub speed: i64,
    pub target: Target,
}

pub open spec fn wf_unit(u: Unit) -> bool {
    0 <= u.speed <= MAX_SPEED && wf_target(u.target)
}

/// Auto-attack state: rate in milli-attacks per second and remaining
/// cooldown in time units.
#[derive(Clone, Copy, Debug, PartialEq, Eq)]
pub struct BasicAttacker {
    pub attack_speed: u32,
    pub time_until_next_attack: u32,
}

/// Time units between attacks at the given rate: one second's worth of
/// time units per attack, scaled by the milli-attack rate.
pub fn attack_period(attack_speed: u32) -> (r: u32)
    requires
        attack_speed > 0,
    ensures
        r as int == 60000int / attack_speed as int,
{
    60000 / attack_speed
}

} // verus!
