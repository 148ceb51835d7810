//! The per-tick system pipeline.
//!
//! Each tick runs a fixed stage order over a frozen pre-tick world:
//! targeting/velocity, motion, a barrier, collision detection, a barrier,
//! then basic attacks and projectile resolution. Stages communicate only
//! through the tick `Context` (events, collisions, the id counter), and
//! every event the pipeline emits is applied to the store afterwards, in
//! emission order.

use vstd::prelude::*;

use crate::component::{EntityID, Team};
use crate::event::Event;
use crate::game::{find_index, EntityRecord, WorldSnap};
use crate::vector::{
    clamp_coord_spec, iabs, sq, sqrt_ceil, sqrt_ceil_spec, trunc_div, wf_point, Point, Vector,
    MAX_COORD, MAX_RADIUS, MAX_SPEED,
};

verus! {

/// Longest tick the pipeline accepts, in time units (one minute).
pub const DT_MAX: u32 = 3600;

/// Displacements whose components are all below this many subunits
/// (0.1 world units) are suppressed to bound event volume.
pub const MOVE_EPSILON: i64 = 3;

/// One contact between two hitboxes, recorded for a single tick. The
/// normal is the unnormalised centre-to-centre displacement and the depth
/// is how far the hitbox radii overlap the centre distance.
#[derive(Clone, Copy, Debug, PartialEq, Eq)]
pub struct Collision {
    pub obj1: EntityID,
    pub obj2: EntityID,
    pub normal: Vector,
    pub depth: i64,
}

pub open spec fn wf_collision(c: Collision) -> bool {
    iabs(c.normal.x as int) <= 2 * MAX_COORD && iabs(c.normal.y as int) <= 2 * MAX_COORD
}

pub open spec fn flip_spec(c: Collision) -> Collision {
    Collision {
        obj1: c.obj2,
        obj2: c.obj1,
        normal: Vector { x: (-c.normal.x) as i64, y: (-c.normal.y) as i64 },
        depth: c.depth,
    }
}

impl Collision {
    /// The same contact seen from the other object.
    pub fn flip(self) -> (r: Collision)
        requires
            wf_collision(self),
        ensures
            r == flip_spec(self),
    {
        Collision {
            obj1: self.obj2,
            obj2: self.obj1,
            normal: Vector { x: -self.normal.x, y: -self.normal.y },
            depth: self.depth,
        }
    }
}

/// The collisions of `this`, restricted to `other` when given; asking for
/// self-collisions yields nothing. In every returned collision
/// `this == collision.obj1`.
pub open spec fn get_collisions_from(
    cols: Seq<Collision>,
    this: EntityID,
    other: Option<EntityID>,
    i: int,
) -> Seq<Collision>
    decreases cols.len() - i,
{
    if i < 0 || i >= cols.len() {
        Seq::<Collision>::empty()
    } else {
        let rest = get_collisions_from(cols, this, other, i + 1);
        if cols[i].obj1.0 == this.0 && (match other {
            Some(o) => o.0 == cols[i].obj2.0,
            None => true,
        }) {
            seq![cols[i]] + rest
        } else {
            rest
        }
    }
}

pub open spec fn get_collisions_spec(
    cols: Seq<Collision>,
    this: EntityID,
    other: Option<EntityID>,
) -> Seq<Collision> {
    if other == Some(this) {
        Seq::<Collision>::empty()
    } else {
        get_collisions_from(cols, this, other, 0)
    }
}

/// Per-tick shared state: the tick length, the id counter for entities
/// spawned this tick, and the events and collisions recorded so far.
pub struct Context {
    pub time: u32,
    pub next_id: u32,
    pub events: Vec<Event>,
    pub collisions: Vec<Collision>,
}

impl Context {
    pub open spec fn wf(&self) -> bool {
        forall|i: int|
            0 <= i < self.collisions@.len() ==> wf_collision(#[trigger] self.collisions@[i])
    }

    pub fn new(time: u32, next_id: u32) -> (c: Context)
        ensures
            c.time == time,
            c.next_id == next_id,
            c.events@ == Seq::<Event>::empty(),
            c.collisions@ == Seq::<Collision>::empty(),
            c.wf(),
    {
        let c = Context { time, next_id, events: Vec::new(), collisions: Vec::new() };
        proof {
            assert(c.events@ =~= Seq::<Event>::empty());
            assert(c.collisions@ =~= Seq::<Collision>::empty());
        }
        c
    }

    /// Record one event.
    pub fn push_event(&mut self, event: Event)
        ensures
            final(self).events@ == old(self).events@.push(event),
            final(self).time == old(self).time,
            final(self).next_id == old(self).next_id,
            final(self).collisions == old(self).collisions,
    {
        self.events.push(event);
    }

    /// Record one contact, in both directions, so both participants can
    /// query it.
    pub fn push_collision(&mut self, collision: Collision)
        requires
            wf_collision(collision),
        ensures
            final(self).collisions@ == old(self).collisions@.push(collision).push(
                flip_spec(collision),
            ),
            final(self).time == old(self).time,
            final(self).next_id == old(self).next_id,
            final(self).events == old(self).events,
            old(self).wf() ==> final(self).wf(),
    {
        let flipped = collision.flip();
        self.collisions.push(collision);
        self.collisions.push(flipped);
    }

    /// All recorded collisions of `this`, restricted to `other` if given.
    pub fn get_collisions(&self, this: EntityID, other: Option<EntityID>) -> (r: Vec<Collision>)
        ensures
            r@ == get_collisions_spec(self.collisions@, this, other),
    {
        let ghost cs = self.collisions@;
        match other {
            Some(o) if o.0 == this.0 => {
                let r: Vec<Collision> = Vec::new();
                proof {
                    assert(r@ =~= Seq::<Collision>::empty());
                }
                return r;
            },
            _ => {},
        }
        let mut out: Vec<Collision> = Vec::new();
        let n = self.collisions.len();
        let mut i: usize = 0;
        proof {
            assert(out@ + get_collisions_from(cs, this, other, 0) =~= get_collisions_from(
                cs,
                this,
                other,
                0,
            ));
        }
        while i < n
            invariant
                i <= n,
                n == cs.len(),
                cs == self.collisions@,
                get_collisions_from(cs, this, other, 0) == out@ + get_collisions_from(
                    cs,
                    this,
                    other,
                    i as int,
                ),
            decreases n - i,
        {
            let ghost out_before = out@;
            let c = self.collisions[i];
            let keep: bool = c.obj1.0 == this.0 && (match other {
                Some(o) => o.0 == c.obj2.0,
                None => true,
            });
            if keep {
                out.push(c);
            }
            proof {
                if keep {
                    assert(out@ =~= out_before + seq![cs[i as int]]);
                    assert(out_before + seq![cs[i as int]] + get_collisions_from(
                        cs,
                        this,
                        other,
                        i as int + 1,
                    ) =~= out_before + (seq![cs[i as int]] + get_collisions_from(
                        cs,
                        this,
                        other,
                        i as int + 1,
                    )));
                }
            }
            i = i + 1;
        }
        out
    }

    /// A copy of the events recorded so far, in emission order.
    pub fn events(&self) -> (r: Vec<Event>)
        ensures
            r@ == self.events@,
    {
        let mut out: Vec<Event> = Vec::new();
        let n = self.events.len();
        let mut i: usize = 0;
        while i < n
            invariant
                i <= n,
                n == self.events@.len(),
                out@ =~= self.events@.take(i as int),
            decreases n - i,
        {
            out.push(crate::event::clone_event(&self.events[i]));
            proof {
                assert(out@ =~= self.events@.take(i as int + 1));
            }
            i = i + 1;
        }
        proof {
            assert(self.events@.take(n as int) =~= self.events@);
        }
        out
    }

    /// Allocate a fresh entity id for something spawned this tick.
    pub fn next_entity_id(&mut self) -> (r: EntityID)
        requires
            old(self).next_id < u32::MAX,
        ensures
            r.0 == old(self).next_id,
            final(self).next_id == old(self).next_id + 1,
            final(self).time == old(self).time,
            final(self).events == old(self).events,
            final(self).collisions == old(self).collisions,
    {
        let t = self.next_id;
        self.next_id = self.next_id + 1;
        EntityID(t)
    }
}

/// The velocity a unit adopts this tick: aim at `target`, stop `range`
/// short of it, and cap the speed so one tick's travel cannot overshoot.
pub open spec fn spec_calculate_velocity(
    source: Point,
    target: Point,
    speed: i64,
    time: u32,
    range: i64,
) -> crate::component::Velocity {
    let dx = target.x - source.x;
    let dy = target.y - source.y;
    let d = sqrt_ceil_spec(sq(dx) + sq(dy));
    if d - range <= 0 {
        crate::component::Velocity { vector: Vector { x: 0, y: 0 } }
    } else {
        let eff = d - range;
        let cap0 = eff * 60 / (time as int);
        let cap = if speed <= cap0 {
            speed as int
        } else {
            cap0
        };
        crate::component::Velocity {
            vector: Vector {
                x: trunc_div(dx * cap, d) as i64,
                y: trunc_div(dy * cap, d) as i64,
            },
        }
    }
}

/// Seek `target` from `source`: direction scaled to a speed of at most
/// `min(speed, remaining distance per tick)`, zero once within `range`.
pub fn calculate_velocity(
    source: Point,
    target: Point,
    speed: i64,
    time: u32,
    range: i64,
) -> (v: crate::component::Velocity)
    requires
        wf_point(source),
        wf_point(target),
        0 <= speed <= MAX_SPEED,
        1 <= time <= DT_MAX,
        0 <= range <= MAX_RADIUS,
    ensures
        v == spec_calculate_velocity(source, target, speed, time, range),
        iabs(v.vector.x as int) <= speed && iabs(v.vector.y as int) <= speed,
{
    proof {
        lemma_velocity_in_speed(source, target, speed, time, range);
    }
    let vec = source.vector_to(target);
    let d: i64 = vec.norm();
    if d - range <= 0 {
        return crate::component::Velocity { vector: Vector { x: 0, y: 0 } };
    }
    let eff: i64 = d - range;
    let cap0_u: u64 = ((eff as u64) * 60) / (time as u64);
    proof {
        assert((eff as u64) * 60 == eff * 60);
        assert(cap0_u as int == eff * 60 / (time as int));
    }
    let cap: i64 = if cap0_u >= (MAX_SPEED as u64) || speed <= (cap0_u as i64) {
        speed
    } else {
        cap0_u as i64
    };
    proof {
        let cap0 = eff * 60 / (time as int);
        vstd::arithmetic::div_mod::lemma_div_pos_is_pos(eff * 60, time as int);
        assert(cap as int == if speed <= cap0 {
            speed as int
        } else {
            cap0
        });
        assert(iabs(vec.x as int) * cap <= i64::MAX as int) by (nonlinear_arith)
            requires
                iabs(vec.x as int) <= 2_000_000_000int,
                0 <= cap <= 1_000_000int,
        ;
        assert(iabs(vec.y as int) * cap <= i64::MAX as int) by (nonlinear_arith)
            requires
                iabs(vec.y as int) <= 2_000_000_000int,
                0 <= cap <= 1_000_000int,
        ;
    }
    let vx: i64 = crate::vector::mul_div_trunc(vec.x, cap, d);
    let vy: i64 = crate::vector::mul_div_trunc(vec.y, cap, d);
    crate::component::Velocity { vector: Vector { x: vx, y: vy } }
}

/// The computed velocity never exceeds the unit's speed, nor the rate
/// that would overshoot the effective target within one tick, and it is
/// exactly zero when the remaining distance is within range.
pub proof fn lemma_velocity_bounds(source: Point, target: Point, speed: i64, time: u32, range: i64)
    requires
        wf_point(source),
        wf_point(target),
        0 <= speed,
        1 <= time,
        0 <= range,
    ensures
        ({
            let v = spec_calculate_velocity(source, target, speed, time, range);
            let d = sqrt_ceil_spec(sq(target.x - source.x) + sq(target.y - source.y));
            &&& sq(v.vector.x as int) + sq(v.vector.y as int) <= sq(speed as int)
            &&& d <= range ==> v.vector == (Vector { x: 0i64, y: 0i64 })
            &&& d > range ==> sq(v.vector.x as int) + sq(v.vector.y as int) <= sq(
                (d - range) * 60 / (time as int),
            )
        }),
{
    let dx = target.x - source.x;
    let dy = target.y - source.y;
    let dsq = sq(dx) + sq(dy);
    let d = sqrt_ceil_spec(dsq);
    crate::vector::lemma_sqrt_ceil_spec(dsq);
    crate::vector::lemma_sq_abs(dx);
    crate::vector::lemma_sq_abs(dy);
    crate::vector::lemma_sq_abs(speed as int);
    if d - range <= 0 {
    } else {
        let eff = d - range;
        let cap0 = eff * 60 / (time as int);
        let cap = if speed <= cap0 {
            speed as int
        } else {
            cap0
        };
        vstd::arithmetic::div_mod::lemma_div_pos_is_pos(eff * 60, time as int);
        crate::vector::lemma_sq_abs(cap);
        crate::vector::lemma_sq_abs(cap0);
        let tdx = trunc_div(dx * cap, d);
        let tdy = trunc_div(dy * cap, d);
        crate::vector::lemma_trunc_div_mag(dx * cap, d);
        crate::vector::lemma_trunc_div_mag(dy * cap, d);
        crate::vector::lemma_sq_abs(tdx);
        crate::vector::lemma_sq_abs(tdy);
        assert(iabs(dx * cap) == iabs(dx) * cap) by (nonlinear_arith)
            requires
                cap >= 0,
        ;
        assert(iabs(dy * cap) == iabs(dy) * cap) by (nonlinear_arith)
            requires
                cap >= 0,
        ;
        // each component magnitude is at most |dx| * cap / d, and |dx| <= d
        assert(iabs(dx) <= d && iabs(dy) <= d) by (nonlinear_arith)
            requires
                iabs(dx) * iabs(dx) + iabs(dy) * iabs(dy) <= d * d,
                d >= 0,
                iabs(dx) >= 0,
                iabs(dy) >= 0,
        ;
        assert(iabs(tdx) <= cap && iabs(tdy) <= cap) by (nonlinear_arith)
            requires
                iabs(tdx) * d <= iabs(dx) * cap,
                iabs(tdy) * d <= iabs(dy) * cap,
                iabs(dx) <= d,
                iabs(dy) <= d,
                d > 0,
                cap >= 0,
                iabs(tdx) >= 0,
                iabs(tdy) >= 0,
        ;
        // so the i64 casts in the computed velocity are exact
        assert(tdx as i64 as int == tdx && tdy as i64 as int == tdy);
        assert(sq(tdx) * sq(d) <= sq(dx) * sq(cap)) by (nonlinear_arith)
            requires
                iabs(tdx) * d <= iabs(dx) * cap,
                d > 0,
                iabs(tdx) >= 0,
                iabs(dx) >= 0,
                cap >= 0,
                sq(tdx) == iabs(tdx) * iabs(tdx),
                sq(dx) == iabs(dx) * iabs(dx),
                sq(d) == d * d,
                sq(cap) == cap * cap,
        ;
        assert(sq(tdy) * sq(d) <= sq(dy) * sq(cap)) by (nonlinear_arith)
            requires
                iabs(tdy) * d <= iabs(dy) * cap,
                d > 0,
                iabs(tdy) >= 0,
                iabs(dy) >= 0,
                cap >= 0,
                sq(tdy) == iabs(tdy) * iabs(tdy),
                sq(dy) == iabs(dy) * iabs(dy),
                sq(d) == d * d,
                sq(cap) == cap * cap,
        ;
        assert((sq(tdx) + sq(tdy)) * sq(d) <= (sq(dx) + sq(dy)) * sq(cap)) by (nonlinear_arith)
            requires
                sq(tdx) * sq(d) <= sq(dx) * sq(cap),
                sq(tdy) * sq(d) <= sq(dy) * sq(cap),
        ;
        assert(sq(tdx) + sq(tdy) <= sq(cap)) by (nonlinear_arith)
            requires
                (sq(tdx) + sq(tdy)) * sq(d) <= (sq(dx) + sq(dy)) * sq(cap),
                sq(dx) + sq(dy) <= sq(d),
                sq(d) > 0,
                sq(cap) >= 0,
                sq(tdx) + sq(tdy) >= 0,
        ;
        assert(sq(cap) <= sq(speed as int) && sq(cap) <= sq(cap0)) by (nonlinear_arith)
            requires
                0 <= cap,
                cap <= speed,
                cap <= cap0,
        ;
    }
}

/// The attack range that applies when `r` chases `target_rec`: the hero's
/// own range if the target is alive and attackable (by the same rule the
/// projectile stage uses), else zero.
pub open spec fn chase_range(r: EntityRecord, target_rec: EntityRecord) -> i64 {
    let base = if r.player is Some {
        r.player.unwrap().hero.range()
    } else {
        0i64
    };
    if can_attack_spec(r.team, target_rec.team, target_rec.hitpoints is Some) {
        base
    } else {
        0i64
    }
}

pub open spec fn zero_velocity() -> crate::component::Velocity {
    crate::component::Velocity { vector: Vector { x: 0i64, y: 0i64 } }
}

/// The velocity the targeting stage assigns to one unit this tick. A
/// target entity that is no longer live, or has no position, yields a
/// standstill rather than a fault.
pub open spec fn velocity_for(w: WorldSnap, r: EntityRecord, time: u32) -> crate::component::Velocity
    recommends
        r.unit is Some,
        r.position is Some,
{
    let u = r.unit.unwrap();
    match u.target {
        crate::component::Target::Nothing => zero_velocity(),
        crate::component::Target::Position(p) => spec_calculate_velocity(
            r.position.unwrap().point,
            p,
            u.speed,
            time,
            0,
        ),
        crate::component::Target::Entity(e) => {
            let j = find_index(w.entities, e.0);
            if j >= 0 && w.entities[j].position is Some {
                spec_calculate_velocity(
                    r.position.unwrap().point,
                    w.entities[j].position.unwrap().point,
                    u.speed,
                    time,
                    chase_range(r, w.entities[j]),
                )
            } else {
                zero_velocity()
            }
        },
    }
}

/// One record after the targeting stage: a fresh velocity for anything
/// with a unit, a position and a velocity slot, the rest untouched.
pub open spec fn velocity_updated(w: WorldSnap, r: EntityRecord, time: u32) -> EntityRecord {
    if r.unit is Some && r.position is Some && r.velocity is Some {
        EntityRecord { velocity: Some(velocity_for(w, r, time)), ..r }
    } else {
        r
    }
}

/// The whole world after the targeting stage, all of it computed against
/// the frozen pre-stage world.
pub open spec fn velocity_stage(w: WorldSnap, time: u32) -> Seq<EntityRecord> {
    w.entities.map_values(|r: EntityRecord| velocity_updated(w, r, time))
}

/// Targeting stage: derive every unit's velocity from its target.
pub struct UpdateVelocitySystem;

impl UpdateVelocitySystem {
    pub fn run(&self, game: &mut crate::game::Game, ctx: &Context)
        requires
            old(game).wf(),
            1 <= ctx.time <= DT_MAX,
        ensures
            final(game).entities@ == velocity_stage(old(game).snap(), ctx.time),
            final(game).next_id == old(game).next_id,
            final(game).wf(),
    {
        let ghost w = game.snap();
        let n = game.entities.len();
        let mut new_vels: Vec<Option<crate::component::Velocity>> = Vec::new();
        let mut i: usize = 0;
        while i < n
            invariant
                i <= n,
                n == game.entities@.len(),
                game.wf(),
                w == game.snap(),
                1 <= ctx.time <= DT_MAX,
                new_vels@.len() == i,
                forall|j: int|
                    0 <= j < i ==> #[trigger] new_vels@[j] == (if w.entities[j].unit is Some
                        && w.entities[j].position is Some && w.entities[j].velocity is Some {
                        Some(velocity_for(w, w.entities[j], ctx.time))
                    } else {
                        None::<crate::component::Velocity>
                    }),
                forall|j: int|
                    0 <= j < i ==> (match #[trigger] new_vels@[j] {
                        Some(v) => iabs(v.vector.x as int) <= MAX_SPEED && iabs(v.vector.y as int)
                            <= MAX_SPEED,
                        None => true,
                    }),
            decreases n - i,
        {
            let has_all: bool = game.entities[i].unit.is_some() && game.entities[i].position.is_some()
                && game.entities[i].velocity.is_some();
            let nv: Option<crate::component::Velocity> = if has_all {
                let u = game.entities[i].unit.unwrap();
                let pos = game.entities[i].position.unwrap();
                match u.target {
                    crate::component::Target::Nothing => Some(
                        crate::component::Velocity::new(0, 0),
                    ),
                    crate::component::Target::Position(p) => Some(
                        calculate_velocity(pos.point, p, u.speed, ctx.time, 0),
                    ),
                    crate::component::Target::Entity(e) => {
                        match game.get_entity(e) {
                            Some(j) => {
                                match game.entities[j].position {
                                    Some(tp) => {
                                        let base: i64 = match &game.entities[i].player {
                                            Some(pl) => pl.hero.range(),
                                            None => 0,
                                        };
                                        let attackable: bool = crate::logic::can_attack(
                                            game.entities[i].team,
                                            game.entities[j].team,
                                            game.entities[j].hitpoints.is_some(),
                                        );
                                        let range: i64 = if attackable {
                                            base
                                        } else {
                                            0
                                        };
                                        Some(
                                            calculate_velocity(
                                                pos.point,
                                                tp.point,
                                                u.speed,
                                                ctx.time,
                                                range,
                                            ),
                                        )
                                    },
                                    None => Some(crate::component::Velocity::new(0, 0)),
                                }
                            },
                            None => Some(crate::component::Velocity::new(0, 0)),
                        }
                    },
                }
            } else {
                None
            };
            new_vels.push(nv);
            i = i + 1;
        }
        let mut k: usize = 0;
        while k < n
            invariant
                k <= n,
                n == game.entities@.len(),
                n == w.entities.len(),
                game.next_id == w.next_id,
                new_vels@.len() == n,
                forall|j: int|
                    0 <= j < n ==> #[trigger] new_vels@[j] == (if w.entities[j].unit is Some
                        && w.entities[j].position is Some && w.entities[j].velocity is Some {
                        Some(velocity_for(w, w.entities[j], ctx.time))
                    } else {
                        None::<crate::component::Velocity>
                    }),
                forall|j: int|
                    0 <= j < n ==> (match #[trigger] new_vels@[j] {
                        Some(v) => iabs(v.vector.x as int) <= MAX_SPEED && iabs(v.vector.y as int)
                            <= MAX_SPEED,
                        None => true,
                    }),
                forall|j: int|
                    0 <= j < k ==> #[trigger] game.entities@[j] == velocity_updated(
                        w,
                        w.entities[j],
                        ctx.time,
                    ),
                forall|j: int| k <= j < n ==> #[trigger] game.entities@[j] == w.entities[j],
                forall|j: int|
                    0 <= j < n ==> crate::game::wf_record(#[trigger] game.entities@[j]),
            decreases n - k,
        {
            match new_vels[k] {
                Some(v) => {
                    let r = crate::game::rec_mut(&mut game.entities, k);
                    r.velocity = Some(v);
                },
                None => {},
            }
            k = k + 1;
        }
        proof {
            assert(game.entities@ =~= velocity_stage(w, ctx.time));
            assert(game.wf());
        }
    }
}

/// The move event (if any) one record produces this tick: integrate the
/// velocity over the tick, suppress sub-epsilon movements, clamp into the
/// coordinate range.
pub open spec fn move_event(r: EntityRecord, time: u32) -> Seq<Event> {
    if r.position is Some && r.velocity is Some {
        let v = r.velocity.unwrap().vector;
        let p = r.position.unwrap().point;
        let dx = trunc_div(v.x * time, 60);
        let dy = trunc_div(v.y * time, 60);
        if iabs(dx) < MOVE_EPSILON && iabs(dy) < MOVE_EPSILON {
            Seq::<Event>::empty()
        } else {
            seq![
                Event::EntityMove(
                    r.id,
                    Point {
                        x: clamp_coord_spec(p.x + dx) as i64,
                        y: clamp_coord_spec(p.y + dy) as i64,
                    },
                ),
            ]
        }
    } else {
        Seq::<Event>::empty()
    }
}

pub open spec fn motion_from(w: WorldSnap, time: u32, i: int) -> Seq<Event>
    decreases w.entities.len() - i,
{
    if i < 0 || i >= w.entities.len() {
        Seq::<Event>::empty()
    } else {
        move_event(w.entities[i], time) + motion_from(w, time, i + 1)
    }
}

/// All move events of one tick, in insertion order of their entities.
pub open spec fn motion_events(w: WorldSnap, time: u32) -> Seq<Event> {
    motion_from(w, time, 0)
}

/// Every move event carries an in-range position.
pub proof fn lemma_motion_from_wf(w: WorldSnap, time: u32, i: int)
    ensures
        crate::event::wf_events(motion_from(w, time, i)),
    decreases w.entities.len() - i,
{
    if 0 <= i < w.entities.len() {
        lemma_motion_from_wf(w, time, i + 1);
        let es = motion_from(w, time, i);
        let head = move_event(w.entities[i], time);
        assert(forall|k: int|
            0 <= k < es.len() ==> es[k] == (if k < head.len() {
                head[k]
            } else {
                motion_from(w, time, i + 1)[k - head.len()]
            }));
    }
}

/// Motion stage: append each entity's move event to the tick's events.
pub struct MotionSystem;

impl MotionSystem {
    pub fn run(&self, game: &crate::game::Game, ctx: &mut Context)
        requires
            game.wf(),
            1 <= old(ctx).time <= DT_MAX,
        ensures
            final(ctx).events@ == old(ctx).events@ + motion_events(game.snap(), old(ctx).time),
            final(ctx).collisions == old(ctx).collisions,
            final(ctx).time == old(ctx).time,
            final(ctx).next_id == old(ctx).next_id,
    {
        let ghost w = game.snap();
        let ghost evs0 = ctx.events@;
        let n = game.entities.len();
        let mut i: usize = 0;
        proof {
            assert(evs0 + motion_from(w, ctx.time, 0) =~= evs0 + motion_from(w, ctx.time, 0));
        }
        while i < n
            invariant
                i <= n,
                n == game.entities@.len(),
                w == game.snap(),
                game.wf(),
                1 <= ctx.time <= DT_MAX,
                ctx.events@ + motion_from(w, ctx.time, i as int) == evs0 + motion_from(
                    w,
                    ctx.time,
                    0,
                ),
                ctx.collisions == old(ctx).collisions,
                ctx.time == old(ctx).time,
                ctx.next_id == old(ctx).next_id,
            decreases n - i,
        {
            let ghost evs_before = ctx.events@;
            let pos_opt = game.entities[i].position;
            let vel_opt = game.entities[i].velocity;
            match (pos_opt, vel_opt) {
                (Some(pos), Some(vel)) => {
                    proof {
                        assert(crate::game::wf_record(w.entities[i as int]));
                        assert(iabs(vel.vector.x as int) * iabs(ctx.time as i64 as int)
                            <= i64::MAX as int) by (nonlinear_arith)
                            requires
                                iabs(vel.vector.x as int) <= 1_000_000int,
                                0 <= iabs(ctx.time as i64 as int) <= 3600int,
                        ;
                        assert(iabs(vel.vector.y as int) * iabs(ctx.time as i64 as int)
                            <= i64::MAX as int) by (nonlinear_arith)
                            requires
                                iabs(vel.vector.y as int) <= 1_000_000int,
                                0 <= iabs(ctx.time as i64 as int) <= 3600int,
                        ;
                    }
                    let dx: i64 = crate::vector::mul_div_trunc(vel.vector.x, ctx.time as i64, 60);
                    let dy: i64 = crate::vector::mul_div_trunc(vel.vector.y, ctx.time as i64, 60);
                    let adx: i64 = if dx < 0 {
                        -dx
                    } else {
                        dx
                    };
                    let ady: i64 = if dy < 0 {
                        -dy
                    } else {
                        dy
                    };
                    if adx < MOVE_EPSILON && ady < MOVE_EPSILON {
                    } else {
                        proof {
                            assert(iabs(dx as int) * 60 <= 1_000_000int * 3600)
                                by (nonlinear_arith)
                                requires
                                    iabs(dx as int) * 60 <= iabs(vel.vector.x as int) * iabs(
                                        ctx.time as i64 as int,
                                    ),
                                    iabs(vel.vector.x as int) <= 1_000_000int,
                                    0 <= iabs(ctx.time as i64 as int) <= 3600int,
                            ;
                            assert(iabs(dy as int) * 60 <= 1_000_000int * 3600)
                                by (nonlinear_arith)
                                requires
                                    iabs(dy as int) * 60 <= iabs(vel.vector.y as int) * iabs(
                                        ctx.time as i64 as int,
                                    ),
                                    iabs(vel.vector.y as int) <= 1_000_000int,
                                    0 <= iabs(ctx.time as i64 as int) <= 3600int,
                            ;
                        }
                        let nx: i64 = crate::vector::clamp_coord(pos.point.x + dx);
                        let ny: i64 = crate::vector::clamp_coord(pos.point.y + dy);
                        ctx.push_event(
                            Event::EntityMove(game.entities[i].id, Point { x: nx, y: ny }),
                        );
                    }
                },
                _ => {},
            }
            proof {
                assert(ctx.events@ =~= evs_before + move_event(w.entities[i as int], ctx.time));
                assert(evs_before + move_event(w.entities[i as int], ctx.time) + motion_from(
                    w,
                    ctx.time,
                    i as int + 1,
                ) =~= evs_before + (move_event(w.entities[i as int], ctx.time) + motion_from(
                    w,
                    ctx.time,
                    i as int + 1,
                )));
            }
            i = i + 1;
        }
        proof {
            assert(ctx.events@ + motion_from(w, ctx.time, n as int) =~= ctx.events@);
        }
    }
}

/// The pair of directed contacts (if any) between two records: hitboxes
/// touch when their centre distance is within the radius sum.
pub open spec fn contact(a: EntityRecord, b: EntityRecord) -> Seq<Collision> {
    if a.position is Some && a.hitbox is Some && b.position is Some && b.hitbox is Some {
        let pa = a.position.unwrap().point;
        let pb = b.position.unwrap().point;
        let rsum = a.hitbox.unwrap().radius + b.hitbox.unwrap().radius;
        let dsq = sq(pb.x - pa.x) + sq(pb.y - pa.y);
        if dsq <= rsum * rsum {
            let c = Collision {
                obj1: a.id,
                obj2: b.id,
                normal: Vector { x: (pb.x - pa.x) as i64, y: (pb.y - pa.y) as i64 },
                depth: (rsum - sqrt_ceil_spec(dsq)) as i64,
            };
            seq![c, flip_spec(c)]
        } else {
            Seq::<Collision>::empty()
        }
    } else {
        Seq::<Collision>::empty()
    }
}

pub open spec fn cp_inner(w: WorldSnap, i: int, j: int) -> Seq<Collision>
    decreases w.entities.len() - j,
{
    if j < 0 || j >= w.entities.len() {
        Seq::<Collision>::empty()
    } else {
        contact(w.entities[i], w.entities[j]) + cp_inner(w, i, j + 1)
    }
}

pub open spec fn cp_outer(w: WorldSnap, i: int) -> Seq<Collision>
    decreases w.entities.len() - i,
{
    if i < 0 || i >= w.entities.len() {
        Seq::<Collision>::empty()
    } else {
        cp_inner(w, i, i + 1) + cp_outer(w, i + 1)
    }
}

/// Every intersecting unordered pair of hitboxes this tick, each recorded
/// in both directions; self-pairs are excluded.
pub open spec fn collision_pairs(w: WorldSnap) -> Seq<Collision> {
    cp_outer(w, 0)
}

/// Collision stage: rebuild the contact set from scratch for this tick.
pub struct CollisionSystem;

impl CollisionSystem {
    pub fn run(&self, game: &crate::game::Game, ctx: &mut Context)
        requires
            game.wf(),
        ensures
            final(ctx).collisions@ == old(ctx).collisions@ + collision_pairs(game.snap()),
            final(ctx).events == old(ctx).events,
            final(ctx).time == old(ctx).time,
            final(ctx).next_id == old(ctx).next_id,
            old(ctx).wf() ==> final(ctx).wf(),
    {
        let ghost w = game.snap();
        let ghost cols0 = ctx.collisions@;
        let n = game.entities.len();
        let mut i: usize = 0;
        while i < n
            invariant
                i <= n,
                n == game.entities@.len(),
                w == game.snap(),
                game.wf(),
                ctx.collisions@ + cp_outer(w, i as int) == cols0 + cp_outer(w, 0),
                ctx.events == old(ctx).events,
                ctx.time == old(ctx).time,
                ctx.next_id == old(ctx).next_id,
                old(ctx).wf() ==> ctx.wf(),
            decreases n - i,
        {
            let mut j: usize = i + 1;
            while j < n
                invariant
                    i < j <= n,
                    n == game.entities@.len(),
                    w == game.snap(),
                    game.wf(),
                    ctx.collisions@ + cp_inner(w, i as int, j as int) + cp_outer(w, i as int + 1)
                        == cols0 + cp_outer(w, 0),
                    ctx.events == old(ctx).events,
                    ctx.time == old(ctx).time,
                    ctx.next_id == old(ctx).next_id,
                    old(ctx).wf() ==> ctx.wf(),
                decreases n - j,
            {
                let ghost cols_before = ctx.collisions@;
                let a_pos = game.entities[i].position;
                let a_hb = game.entities[i].hitbox;
                let b_pos = game.entities[j].position;
                let b_hb = game.entities[j].hitbox;
                match (a_pos, a_hb, b_pos, b_hb) {
                    (Some(pa), Some(ha), Some(pb), Some(hb)) => {
                        let delta = pa.point.vector_to(pb.point);
                        let dsq: i64 = delta.norm_sq();
                        let rsum: i64 = ha.radius + hb.radius;
                        proof {
                            assert(rsum * rsum <= 4_000_000_000_000int && rsum * rsum >= 0)
                                by (nonlinear_arith)
                                requires
                                    0 <= rsum <= 2_000_000int,
                            ;
                        }
                        let rsq: i64 = rsum * rsum;
                        if dsq <= rsq {
                            let dist: u64 = sqrt_ceil(dsq as u64);
                            proof {
                                crate::vector::lemma_sqrt_ceil_le(dsq as int, rsum as int);
                            }
                            let c = Collision {
                                obj1: game.entities[i].id,
                                obj2: game.entities[j].id,
                                normal: delta,
                                depth: rsum - (dist as i64),
                            };
                            ctx.push_collision(c);
                            proof {
                                assert(ctx.collisions@ =~= cols_before + contact(
                                    w.entities[i as int],
                                    w.entities[j as int],
                                ));
                            }
                        }
                    },
                    _ => {},
                }
                proof {
                    assert(ctx.collisions@ =~= cols_before + contact(
                        w.entities[i as int],
                        w.entities[j as int],
                    ));
                    assert(cols_before + contact(w.entities[i as int], w.entities[j as int])
                        + cp_inner(w, i as int, j as int + 1) =~= cols_before + (contact(
                        w.entities[i as int],
                        w.entities[j as int],
                    ) + cp_inner(w, i as int, j as int + 1)));
                }
                j = j + 1;
            }
            proof {
                assert(ctx.collisions@ + cp_inner(w, i as int, n as int) =~= ctx.collisions@);
                assert(ctx.collisions@ + cp_outer(w, i as int + 1) == cols0 + cp_outer(w, 0));
            }
            i = i + 1;
        }
        proof {
            assert(ctx.collisions@ + cp_outer(w, n as int) =~= ctx.collisions@);
        }
    }
}

/// One entity's basic-attack bookkeeping for a tick: tick the cooldown
/// down (stopping at zero, without attacking), or, if ready and aiming at
/// an entity, fire a projectile at it and rewind the cooldown to one full
/// attack period. A rate of zero never fires.
pub open spec fn attacker_step(r: EntityRecord, time: u32, nid: int) -> (EntityRecord, Seq<Event>, int) {
    if r.basic_attacker is Some && r.position is Some && r.unit is Some {
        let a = r.basic_attacker.unwrap();
        if a.attack_speed == 0 {
            (r, Seq::<Event>::empty(), nid)
        } else if a.time_until_next_attack > 0 {
            let cd = if a.time_until_next_attack > time {
                (a.time_until_next_attack - time) as u32
            } else {
                0u32
            };
            (
                EntityRecord {
                    basic_attacker: Some(
                        crate::component::BasicAttacker {
                            attack_speed: a.attack_speed,
                            time_until_next_attack: cd,
                        },
                    ),
                    ..r
                },
                Seq::<Event>::empty(),
                nid,
            )
        } else {
            match r.unit.unwrap().target {
                crate::component::Target::Entity(e) => (
                    EntityRecord {
                        basic_attacker: Some(
                            crate::component::BasicAttacker {
                                attack_speed: a.attack_speed,
                                time_until_next_attack: (60000int / a.attack_speed as int) as u32,
                            },
                        ),
                        ..r
                    },
                    seq![
                        Event::AddProjectile {
                            id: EntityID(nid as u32),
                            position: r.position.unwrap().point,
                            target: crate::component::Target::Entity(e),
                            damage: 5,
                            team: r.team,
                            owner: r.id,
                        },
                    ],
                    nid + 1,
                ),
                _ => (r, Seq::<Event>::empty(), nid),
            }
        }
    } else {
        (r, Seq::<Event>::empty(), nid)
    }
}

/// The attack stage folded from entity `i` on: the updated records, the
/// projectile events in entity order, and the advanced id counter.
pub open spec fn attacker_from(s: Seq<EntityRecord>, time: u32, nid: int, i: int) -> (
    Seq<EntityRecord>,
    Seq<Event>,
    int,
)
    decreases s.len() - i,
{
    if i < 0 || i >= s.len() {
        (s, Seq::<Event>::empty(), nid)
    } else {
        let step = attacker_step(s[i], time, nid);
        let rest = attacker_from(s.update(i, step.0), time, step.2, i + 1);
        (rest.0, step.1 + rest.1, rest.2)
    }
}

/// The attack stage leaves identities and well-formedness intact and
/// advances the id counter by at most one per entity.
pub proof fn lemma_attacker_from_shape(s: Seq<EntityRecord>, time: u32, nid: int, i: int)
    requires
        0 <= i <= s.len(),
    ensures
        ({
            let res = attacker_from(s, time, nid, i);
            &&& res.0.len() == s.len()
            &&& forall|j: int| 0 <= j < s.len() ==> (#[trigger] res.0[j]).id == s[j].id
            &&& forall|j: int| 0 <= j < s.len() ==> (#[trigger] res.0[j]).kind == s[j].kind
            &&& forall|j: int| 0 <= j < s.len() ==> (#[trigger] res.0[j]).position == s[j].position
            &&& forall|j: int| 0 <= j < s.len() ==> (#[trigger] res.0[j]).hitpoints == s[j].hitpoints
            &&& forall|j: int| 0 <= j < s.len() ==> (#[trigger] res.0[j]).team == s[j].team
            &&& forall|j: int|
                0 <= j < s.len() && crate::game::wf_record(s[j]) ==> crate::game::wf_record(
                    #[trigger] res.0[j],
                )
            &&& nid <= res.2 <= nid + (s.len() - i)
        }),
    decreases s.len() - i,
{
    if i < s.len() {
        let step = attacker_step(s[i], time, nid);
        assert(step.0.id == s[i].id);
        assert(crate::game::wf_record(s[i]) ==> crate::game::wf_record(step.0));
        lemma_attacker_from_shape(s.update(i, step.0), time, step.2, i + 1);
    }
}

/// Every event the attack stage emits is well-formed, provided the
/// records are and the id counter has room for one id per entity.
pub proof fn lemma_attacker_from_events_wf(s: Seq<EntityRecord>, time: u32, nid: int, i: int)
    requires
        0 <= i <= s.len(),
        0 <= nid,
        nid + (s.len() - i) <= u32::MAX,
        forall|j: int| 0 <= j < s.len() ==> crate::game::wf_record(#[trigger] s[j]),
    ensures
        crate::event::wf_events(attacker_from(s, time, nid, i).1),
    decreases s.len() - i,
{
    if i < s.len() {
        let step = attacker_step(s[i], time, nid);
        let s2 = s.update(i, step.0);
        assert(forall|j: int| 0 <= j < s2.len() ==> crate::game::wf_record(#[trigger] s2[j]));
        lemma_attacker_from_events_wf(s2, time, step.2, i + 1);
        let res = attacker_from(s, time, nid, i);
        let rest = attacker_from(s2, time, step.2, i + 1);
        assert(crate::event::wf_events(step.1));
        assert(forall|k: int|
            0 <= k < res.1.len() ==> res.1[k] == (if k < step.1.len() {
                step.1[k]
            } else {
                rest.1[k - step.1.len()]
            }));
    }
}

/// Basic-attack stage: tick cooldowns and spawn projectiles at entity
/// targets.
pub struct BasicAttackerSystem;

impl BasicAttackerSystem {
    pub fn run(&self, game: &mut crate::game::Game, ctx: &mut Context)
        requires
            old(game).wf(),
            old(ctx).next_id as int + old(game).entities@.len() <= u32::MAX,
        ensures
            ({
                let res = attacker_from(
                    old(game).entities@,
                    old(ctx).time,
                    old(ctx).next_id as int,
                    0,
                );
                &&& final(game).entities@ == res.0
                &&& final(game).next_id == old(game).next_id
                &&& final(game).wf()
                &&& final(ctx).events@ == old(ctx).events@ + res.1
                &&& final(ctx).next_id as int == res.2
                &&& final(ctx).time == old(ctx).time
                &&& final(ctx).collisions == old(ctx).collisions
            }),
    {
        let ghost s0 = game.entities@;
        let ghost nid0 = ctx.next_id as int;
        let ghost evs0 = ctx.events@;
        let ghost res0 = attacker_from(s0, ctx.time, nid0, 0);
        let n = game.entities.len();
        let mut i: usize = 0;
        while i < n
            invariant
                i <= n,
                n == game.entities@.len(),
                n == s0.len(),
                game.next_id == old(game).next_id,
                ctx.time == old(ctx).time,
                ctx.collisions == old(ctx).collisions,
                ctx.next_id as int + (n - i) <= u32::MAX,
                forall|j: int|
                    0 <= j < n ==> crate::game::wf_record(#[trigger] game.entities@[j]),
                forall|j: int| 0 <= j < n ==> (#[trigger] game.entities@[j]).id == s0[j].id,
                forall|j: int, k: int|
                    0 <= j < n && 0 <= k < n && j != k ==> (#[trigger] game.entities@[j]).id.0 != (
                    #[trigger] game.entities@[k].id.0),
                forall|j: int|
                    0 <= j < n ==> (#[trigger] game.entities@[j]).id.0 < game.next_id,
                res0 == ({
                    let rest = attacker_from(
                        game.entities@,
                        ctx.time,
                        ctx.next_id as int,
                        i as int,
                    );
                    (rest.0, ctx.events@.skip(evs0.len() as int) + rest.1, rest.2)
                }),
                ctx.events@.take(evs0.len() as int) == evs0,
                ctx.events@.len() >= evs0.len(),
            decreases n - i,
        {
            let ghost cur = game.entities@;
            let ghost nid_cur = ctx.next_id as int;
            let ghost evs_cur = ctx.events@;
            let ghost step = attacker_step(cur[i as int], ctx.time, nid_cur);
            let a_opt = game.entities[i].basic_attacker;
            let pos_opt = game.entities[i].position;
            let unit_opt = game.entities[i].unit;
            match (a_opt, pos_opt, unit_opt) {
                (Some(a), Some(pos), Some(u)) => {
                    if a.attack_speed == 0 {
                    } else if a.time_until_next_attack > 0 {
                        let cd: u32 = if a.time_until_next_attack > ctx.time {
                            a.time_until_next_attack - ctx.time
                        } else {
                            0
                        };
                        let r = crate::game::rec_mut(&mut game.entities, i);
                        r.basic_attacker = Some(
                            crate::component::BasicAttacker {
                                attack_speed: a.attack_speed,
                                time_until_next_attack: cd,
                            },
                        );
                    } else {
                        match u.target {
                            crate::component::Target::Entity(e) => {
                                let period: u32 = crate::component::attack_period(a.attack_speed);
                                let team = game.entities[i].team;
                                let id_self = game.entities[i].id;
                                let r = crate::game::rec_mut(&mut game.entities, i);
                                r.basic_attacker = Some(
                                    crate::component::BasicAttacker {
                                        attack_speed: a.attack_speed,
                                        time_until_next_attack: period,
                                    },
                                );
                                let pid = ctx.next_entity_id();
                                ctx.push_event(
                                    Event::AddProjectile {
                                        id: pid,
                                        position: pos.point,
                                        target: crate::component::Target::Entity(e),
                                        damage: 5,
                                        team,
                                        owner: id_self,
                                    },
                                );
                            },
                            _ => {},
                        }
                    }
                },
                _ => {},
            }
            proof {
                let l = evs0.len() as int;
                assert(game.entities@ =~= cur.update(i as int, step.0));
                assert(ctx.events@ =~= evs_cur + step.1);
                assert(ctx.events@.take(l) =~= evs0);
                assert(ctx.events@.skip(l) =~= evs_cur.skip(l) + step.1);
                let rest_next = attacker_from(
                    game.entities@,
                    ctx.time,
                    ctx.next_id as int,
                    i as int + 1,
                );
                assert((evs_cur.skip(l) + step.1) + rest_next.1 =~= evs_cur.skip(l) + (step.1
                    + rest_next.1));
            }
            i = i + 1;
        }
        proof {
            let l = evs0.len() as int;
            assert(ctx.events@ =~= ctx.events@.take(l) + ctx.events@.skip(l));
            assert(ctx.events@.skip(l) + attacker_from(
                game.entities@,
                ctx.time,
                ctx.next_id as int,
                n as int,
            ).1 =~= ctx.events@.skip(l));
        }
    }
}

/// The team of the entity with the given id, if it is live and has one.
pub open spec fn team_of(s: Seq<EntityRecord>, id: u32) -> Option<Team> {
    let i = find_index(s, id);
    if i >= 0 {
        s[i].team
    } else {
        None
    }
}

/// Whether the entity with the given id is live and damageable.
pub open spec fn has_hitpoints_of(s: Seq<EntityRecord>, id: u32) -> bool {
    let i = find_index(s, id);
    i >= 0 && s[i].hitpoints is Some
}

/// Attack permission: only damageable entities can be attacked, and a
/// shared non-zero team forbids it. Team 0 means unaligned — attackable
/// by everyone — so a shared team 0 never blocks damage, and neither
/// does a missing team on either side.
pub open spec fn can_attack_spec(
    this_team: Option<Team>,
    other_team: Option<Team>,
    other_has_hitpoints: bool,
) -> bool {
    let same_nonzero_team = match (this_team, other_team) {
        (Some(a), Some(b)) => a.0 == b.0 && a.0 != 0,
        _ => false,
    };
    !same_nonzero_team && other_has_hitpoints
}

/// The damage-and-expire pair for the first collision partner this
/// projectile may lawfully damage: never its own owner, never an entity
/// sharing its non-zero team, at most one hit per tick.
pub open spec fn first_hit(
    s: Seq<EntityRecord>,
    self_id: EntityID,
    owner: EntityID,
    damage: u16,
    my_team: Option<Team>,
    cs: Seq<Collision>,
    k: int,
) -> Seq<Event>
    decreases cs.len() - k,
{
    if k < 0 || k >= cs.len() {
        Seq::<Event>::empty()
    } else {
        let other = cs[k].obj2;
        if owner.0 == other.0 {
            first_hit(s, self_id, owner, damage, my_team, cs, k + 1)
        } else if can_attack_spec(my_team, team_of(s, other.0), has_hitpoints_of(s, other.0)) {
            seq![
                Event::DamageEntity { id: other, damage },
                Event::RemoveEntity(self_id),
            ]
        } else {
            first_hit(s, self_id, owner, damage, my_team, cs, k + 1)
        }
    }
}

/// The events one projectile record contributes: its collisions this
/// tick, restricted to its target when it has an entity target, scanned
/// for the first lawful hit.
pub open spec fn proj_events_for(
    s: Seq<EntityRecord>,
    cols: Seq<Collision>,
    r: EntityRecord,
) -> Seq<Event> {
    if r.unit is Some && r.projectile is Some {
        let tid = match r.unit.unwrap().target {
            crate::component::Target::Entity(e) => Some(e),
            _ => None::<EntityID>,
        };
        first_hit(
            s,
            r.id,
            r.projectile.unwrap().owner,
            r.projectile.unwrap().damage,
            r.team,
            get_collisions_spec(cols, r.id, tid),
            0,
        )
    } else {
        Seq::<Event>::empty()
    }
}

pub open spec fn pe_from(s: Seq<EntityRecord>, cols: Seq<Collision>, i: int) -> Seq<Event>
    decreases s.len() - i,
{
    if i < 0 || i >= s.len() {
        Seq::<Event>::empty()
    } else {
        proj_events_for(s, cols, s[i]) + pe_from(s, cols, i + 1)
    }
}

/// All damage and expiry events of the projectile stage, in entity order.
pub open spec fn projectile_events(s: Seq<EntityRecord>, cols: Seq<Collision>) -> Seq<Event> {
    pe_from(s, cols, 0)
}

/// Damage and removal events are always well-formed.
pub proof fn lemma_first_hit_wf(
    s: Seq<EntityRecord>,
    self_id: EntityID,
    owner: EntityID,
    damage: u16,
    my_team: Option<Team>,
    cs: Seq<Collision>,
    k: int,
)
    ensures
        crate::event::wf_events(first_hit(s, self_id, owner, damage, my_team, cs, k)),
    decreases cs.len() - k,
{
    if 0 <= k < cs.len() {
        lemma_first_hit_wf(s, self_id, owner, damage, my_team, cs, k + 1);
    }
}

pub proof fn lemma_pe_from_wf(s: Seq<EntityRecord>, cols: Seq<Collision>, i: int)
    ensures
        crate::event::wf_events(pe_from(s, cols, i)),
    decreases s.len() - i,
{
    if 0 <= i < s.len() {
        lemma_pe_from_wf(s, cols, i + 1);
        let r = s[i];
        if r.unit is Some && r.projectile is Some {
            let tid = match r.unit.unwrap().target {
                crate::component::Target::Entity(e) => Some(e),
                _ => None::<EntityID>,
            };
            lemma_first_hit_wf(
                s,
                r.id,
                r.projectile.unwrap().owner,
                r.projectile.unwrap().damage,
                r.team,
                get_collisions_spec(cols, r.id, tid),
                0,
            );
        }
        let es = pe_from(s, cols, i);
        let head = proj_events_for(s, cols, r);
        assert(forall|k: int|
            0 <= k < es.len() ==> es[k] == (if k < head.len() {
                head[k]
            } else {
                pe_from(s, cols, i + 1)[k - head.len()]
            }));
    }
}

proof fn lemma_first_hit_lawful(
    s: Seq<EntityRecord>,
    self_id: EntityID,
    owner: EntityID,
    damage: u16,
    my_team: Option<Team>,
    cs: Seq<Collision>,
    k: int,
)
    ensures
        forall|t: int|
            0 <= t < first_hit(s, self_id, owner, damage, my_team, cs, k).len() ==> (#[trigger] first_hit(
                s,
                self_id,
                owner,
                damage,
                my_team,
                cs,
                k,
            )[t] matches Event::DamageEntity { id: victim, damage: d } ==> victim.0 != owner.0 && d
                == damage && can_attack_spec(my_team, team_of(s, victim.0), has_hitpoints_of(
                s,
                victim.0,
            ))),
    decreases cs.len() - k,
{
    if 0 <= k < cs.len() {
        lemma_first_hit_lawful(s, self_id, owner, damage, my_team, cs, k + 1);
    }
}

/// A projectile never emits a damage event against its own owner, and
/// never against an entity sharing a non-zero team with it: every damage
/// event of the projectile stage names a victim some live projectile was
/// permitted to hit.
pub proof fn lemma_projectile_stage_lawful(s: Seq<EntityRecord>, cols: Seq<Collision>)
    ensures
        forall|t: int|
            0 <= t < projectile_events(s, cols).len() ==> (#[trigger] projectile_events(
                s,
                cols,
            )[t] matches Event::DamageEntity { id: victim, damage: d } ==> exists|j: int|
                0 <= j < s.len() && (#[trigger] s[j].projectile) is Some && victim.0
                    != s[j].projectile.unwrap().owner.0 && d == s[j].projectile.unwrap().damage
                    && can_attack_spec(s[j].team, team_of(s, victim.0), has_hitpoints_of(
                    s,
                    victim.0,
                ))),
{
    lemma_pe_from_lawful(s, cols, 0);
}

proof fn lemma_pe_from_lawful(s: Seq<EntityRecord>, cols: Seq<Collision>, i: int)
    ensures
        forall|t: int|
            0 <= t < pe_from(s, cols, i).len() ==> (#[trigger] pe_from(
                s,
                cols,
                i,
            )[t] matches Event::DamageEntity { id: victim, damage: d } ==> exists|j: int|
                0 <= j < s.len() && (#[trigger] s[j].projectile) is Some && victim.0
                    != s[j].projectile.unwrap().owner.0 && d == s[j].projectile.unwrap().damage
                    && can_attack_spec(s[j].team, team_of(s, victim.0), has_hitpoints_of(
                    s,
                    victim.0,
                ))),
    decreases s.len() - i,
{
    if 0 <= i < s.len() {
        lemma_pe_from_lawful(s, cols, i + 1);
        let r = s[i];
        let head = proj_events_for(s, cols, r);
        let tail = pe_from(s, cols, i + 1);
        if r.unit is Some && r.projectile is Some {
            let tid = match r.unit.unwrap().target {
                crate::component::Target::Entity(e) => Some(e),
                _ => None::<EntityID>,
            };
            lemma_first_hit_lawful(
                s,
                r.id,
                r.projectile.unwrap().owner,
                r.projectile.unwrap().damage,
                r.team,
                get_collisions_spec(cols, r.id, tid),
                0,
            );
        }
        assert forall|t: int|
            0 <= t < pe_from(s, cols, i).len() implies (#[trigger] pe_from(
            s,
            cols,
            i,
        )[t] matches Event::DamageEntity { id: victim, damage: d } ==> exists|j: int|
            0 <= j < s.len() && (#[trigger] s[j].projectile) is Some && victim.0
                != s[j].projectile.unwrap().owner.0 && d == s[j].projectile.unwrap().damage
                && can_attack_spec(s[j].team, team_of(s, victim.0), has_hitpoints_of(
                s,
                victim.0,
            ))) by {
            if t < head.len() {
                assert(pe_from(s, cols, i)[t] == head[t]);
                match pe_from(s, cols, i)[t] {
                    Event::DamageEntity { id: victim, damage: d } => {
                        assert(0 <= i < s.len() && s[i].projectile is Some && victim.0
                            != s[i].projectile.unwrap().owner.0 && d
                            == s[i].projectile.unwrap().damage && can_attack_spec(
                            s[i].team,
                            team_of(s, victim.0),
                            has_hitpoints_of(s, victim.0),
                        ));
                    },
                    _ => {},
                }
            } else {
                assert(pe_from(s, cols, i)[t] == tail[t - head.len()]);
            }
        }
    }
}

fn lookup_team(game: &crate::game::Game, id: EntityID) -> (r: Option<Team>)
    ensures
        r == team_of(game.entities@, id.0),
{
    match game.get_entity(id) {
        Some(i) => game.entities[i].team,
        None => None,
    }
}

fn lookup_damageable(game: &crate::game::Game, id: EntityID) -> (r: bool)
    ensures
        r == has_hitpoints_of(game.entities@, id.0),
{
    match game.get_entity(id) {
        Some(i) => game.entities[i].hitpoints.is_some(),
        None => false,
    }
}

/// Scan this projectile's collisions in order for its first lawful hit.
fn scan_hits(
    game: &crate::game::Game,
    self_id: EntityID,
    owner: EntityID,
    damage: u16,
    my_team: Option<Team>,
    cols: &Vec<Collision>,
) -> (r: Vec<Event>)
    ensures
        r@ == first_hit(game.entities@, self_id, owner, damage, my_team, cols@, 0),
{
    let m = cols.len();
    let mut k: usize = 0;
    while k < m
        invariant
            k <= m,
            m == cols@.len(),
            first_hit(game.entities@, self_id, owner, damage, my_team, cols@, 0) == first_hit(
                game.entities@,
                self_id,
                owner,
                damage,
                my_team,
                cols@,
                k as int,
            ),
        decreases m - k,
    {
        let other = cols[k].obj2;
        if owner.0 != other.0 {
            let other_team = lookup_team(game, other);
            let other_damageable = lookup_damageable(game, other);
            if crate::logic::can_attack(my_team, other_team, other_damageable) {
                let mut out: Vec<Event> = Vec::new();
                out.push(Event::DamageEntity { id: other, damage });
                out.push(Event::RemoveEntity(self_id));
                proof {
                    assert(out@ =~= first_hit(
                        game.entities@,
                        self_id,
                        owner,
                        damage,
                        my_team,
                        cols@,
                        k as int,
                    ));
                }
                return out;
            }
        }
        k = k + 1;
    }
    let out: Vec<Event> = Vec::new();
    proof {
        assert(out@ =~= Seq::<Event>::empty());
    }
    out
}

/// Projectile stage: resolve each projectile's collisions into at most
/// one damage event and its own removal.
pub struct ProjectileSystem;

impl ProjectileSystem {
    pub fn run(&self, game: &crate::game::Game, ctx: &mut Context)
        ensures
            final(ctx).events@ == old(ctx).events@ + projectile_events(
                game.entities@,
                old(ctx).collisions@,
            ),
            final(ctx).collisions == old(ctx).collisions,
            final(ctx).time == old(ctx).time,
            final(ctx).next_id == old(ctx).next_id,
    {
        let ghost s = game.entities@;
        let ghost cols0 = old(ctx).collisions@;
        let ghost evs0 = ctx.events@;
        let n = game.entities.len();
        let mut i: usize = 0;
        proof {
            assert(evs0 + pe_from(s, cols0, 0) =~= evs0 + pe_from(s, cols0, 0));
        }
        while i < n
            invariant
                i <= n,
                n == game.entities@.len(),
                s == game.entities@,
                cols0 == ctx.collisions@,
                ctx.events@ + pe_from(s, cols0, i as int) == evs0 + pe_from(s, cols0, 0),
                ctx.collisions == old(ctx).collisions,
                ctx.time == old(ctx).time,
                ctx.next_id == old(ctx).next_id,
            decreases n - i,
        {
            let ghost evs_before = ctx.events@;
            let unit_opt = game.entities[i].unit;
            let proj_opt = game.entities[i].projectile;
            match (unit_opt, proj_opt) {
                (Some(u), Some(proj)) => {
                    let self_id = game.entities[i].id;
                    let my_team = game.entities[i].team;
                    let tid: Option<EntityID> = match u.target {
                        crate::component::Target::Entity(e) => Some(e),
                        _ => None,
                    };
                    let cols = ctx.get_collisions(self_id, tid);
                    let hits = scan_hits(game, self_id, proj.owner, proj.damage, my_team, &cols);
                    let hn = hits.len();
                    let mut t: usize = 0;
                    while t < hn
                        invariant
                            t <= hn,
                            hn == hits@.len(),
                            ctx.events@ =~= evs_before + hits@.take(t as int),
                            ctx.collisions == old(ctx).collisions,
                            ctx.time == old(ctx).time,
                            ctx.next_id == old(ctx).next_id,
                        decreases hn - t,
                    {
                        ctx.push_event(crate::event::clone_event(&hits[t]));
                        proof {
                            assert(ctx.events@ =~= evs_before + hits@.take(t as int + 1));
                        }
                        t = t + 1;
                    }
                    proof {
                        assert(hits@.take(hn as int) =~= hits@);
                    }
                },
                _ => {},
            }
            proof {
                assert(ctx.events@ =~= evs_before + proj_events_for(s, cols0, s[i as int]));
                assert(evs_before + proj_events_for(s, cols0, s[i as int]) + pe_from(
                    s,
                    cols0,
                    i as int + 1,
                ) =~= evs_before + (proj_events_for(s, cols0, s[i as int]) + pe_from(
                    s,
                    cols0,
                    i as int + 1,
                )));
            }
            i = i + 1;
        }
        proof {
            assert(ctx.events@ + pe_from(s, cols0, n as int) =~= ctx.events@);
        }
    }
}

/// One whole tick of the pipeline: the post-tick world and the events it
/// emits (motion, then attacks, then projectile hits), with those events
/// already applied to the post-stage world — so the emitted batch alone
/// carries every observable change of the tick.
pub open spec fn spec_tick(w: WorldSnap, time: u32) -> (WorldSnap, Seq<Event>) {
    let s1 = WorldSnap { entities: velocity_stage(w, time), next_id: w.next_id };
    let evs_m = motion_events(s1, time);
    let cols = collision_pairs(s1);
    let att = attacker_from(s1.entities, time, w.next_id, 0);
    let s2 = WorldSnap { entities: att.0, next_id: att.2 };
    let evs = evs_m + att.1 + projectile_events(s2.entities, cols);
    (crate::game::apply_events(s2, evs), evs)
}

impl crate::game::Game {
    /// Advance the world one tick of `time` time units: run the stage
    /// pipeline over the frozen pre-tick state, apply every emitted event
    /// to the store in emission order, and return that batch for
    /// broadcast. The id-counter headroom leaves each attacker room to
    /// spawn one projectile.
    pub fn tick(&mut self, time: u32) -> (events: Vec<Event>)
        requires
            old(self).wf(),
            1 <= time <= DT_MAX,
            old(self).next_id as int + old(self).entities@.len() <= u32::MAX,
        ensures
            final(self).snap() == spec_tick(old(self).snap(), time).0,
            events@ == spec_tick(old(self).snap(), time).1,
            final(self).wf(),
            crate::event::wf_events(events@),
    {
        let ghost w = self.snap();
        let mut ctx = Context::new(time, self.next_id);
        let uvs = UpdateVelocitySystem;
        uvs.run(self, &ctx);
        let ghost s1 = self.snap();
        let msys = MotionSystem;
        msys.run(self, &mut ctx);
        let csys = CollisionSystem;
        csys.run(self, &mut ctx);
        proof {
            assert(ctx.collisions@ =~= collision_pairs(s1));
            assert(ctx.events@ =~= motion_events(s1, time));
        }
        let asys = BasicAttackerSystem;
        asys.run(self, &mut ctx);
        let ghost att = attacker_from(s1.entities, time, w.next_id, 0);
        let psys = ProjectileSystem;
        psys.run(self, &mut ctx);
        proof {
            assert(ctx.events@ =~= (motion_events(s1, time) + att.1) + projectile_events(
                att.0,
                collision_pairs(s1),
            ));
            assert((motion_events(s1, time) + att.1) + projectile_events(att.0, collision_pairs(s1))
                =~= motion_events(s1, time) + att.1 + projectile_events(att.0, collision_pairs(s1)));
        }
        self.next_id = ctx.next_id;
        let events = ctx.events;
        proof {
            // the emitted batch is well-formed ...
            lemma_motion_from_wf(s1, time, 0);
            lemma_attacker_from_shape(s1.entities, time, w.next_id, 0);
            lemma_attacker_from_events_wf(s1.entities, time, w.next_id, 0);
            lemma_pe_from_wf(att.0, collision_pairs(s1), 0);
            let evs_m = motion_events(s1, time);
            let evs_p = projectile_events(att.0, collision_pairs(s1));
            assert(forall|k: int|
                0 <= k < events@.len() ==> events@[k] == (if k < evs_m.len() {
                    evs_m[k]
                } else if k < evs_m.len() + att.1.len() {
                    att.1[k - evs_m.len()]
                } else {
                    evs_p[k - evs_m.len() - att.1.len()]
                }));
            assert(crate::event::wf_events(events@));
            // ... and the store after the stages is a well-formed world
            assert(crate::game::wf_snap(self.snap()));
        }
        self.run_events(&events);
        events
    }
}

/// Each velocity component is bounded by the unit's speed.
pub proof fn lemma_velocity_in_speed(source: Point, target: Point, speed: i64, time: u32, range: i64)
    requires
        wf_point(source),
        wf_point(target),
        0 <= speed,
        1 <= time,
        0 <= range,
    ensures
        ({
            let v = spec_calculate_velocity(source, target, speed, time, range);
            iabs(v.vector.x as int) <= speed && iabs(v.vector.y as int) <= speed
        }),
{
    lemma_velocity_bounds(source, target, speed, time, range);
    let v = spec_calculate_velocity(source, target, speed, time, range);
    let vx = v.vector.x as int;
    let vy = v.vector.y as int;
    assert(iabs(vx) <= speed && iabs(vy) <= speed) by (nonlinear_arith)
        requires
            sq(vx) + sq(vy) <= sq(speed as int),
            sq(vx) == vx * vx,
            sq(vy) == vy * vy,
            sq(speed as int) == speed * speed,
            speed >= 0,
    ;
}

} // verus!
