//! The authoritative entity/component store and the event semantics.
//!
//! The world is a vector of entity records in insertion order plus a
//! monotone id counter; `WorldSnap` is its mathematical snapshot. Every
//! observable change goes through `run_event`, whose meaning is the spec
//! function `apply_event`, so the event log broadcast to clients fully
//! determines how the authoritative state evolves.

use vstd::prelude::*;

use crate::component::{
    hp_damage_spec, hp_wf, wf_hitbox, wf_target, wf_unit, BasicAttacker, Colour, EntityID,
    EntityKind, HeroKind, Hitbox, Hitpoints, Player, Position, Projectile, Renderable, Target,
    Team, Unit, Velocity,
};
use crate::command::{wf_command, Command};
use crate::event::{clone_event, wf_event, wf_events, Event};
use crate::vector::{wf_point, Point, Vector};

verus! {

/// Movement speed of every projectile, in subunits per second
/// (800 world units per second).
pub const PROJECTILE_SPEED: i64 = 24000;

/// Hitbox and drawing radius of every projectile, in subunits
/// (5 world units).
pub const PROJECTILE_RADIUS: i64 = 150;

/// Hitpoints every hero spawns with.
pub const HERO_HITPOINTS: u16 = 50;

/// One live entity: its identity, kind tag, and the subset of components
/// it carries.
#[derive(Clone, Debug, PartialEq, Eq)]
pub struct EntityRecord {
    pub id: EntityID,
    pub kind: EntityKind,
    pub position: Option<Position>,
    pub velocity: Option<Velocity>,
    pub renderable: Option<Renderable>,
    pub hitbox: Option<Hitbox>,
    pub hitpoints: Option<Hitpoints>,
    pub team: Option<Team>,
    pub player: Option<Player>,
    pub unit: Option<Unit>,
    pub basic_attacker: Option<BasicAttacker>,
    pub projectile: Option<Projectile>,
}

/// Mathematical snapshot of the world: the records in insertion order and
/// the next fresh entity id.
pub struct WorldSnap {
    pub entities: Seq<EntityRecord>,
    pub next_id: int,
}

/// Index of the first record with the given id, or -1.
pub open spec fn find_from(s: Seq<EntityRecord>, id: u32, i: int) -> int
    decreases s.len() - i,
{
    if i < 0 || i >= s.len() {
        -1
    } else if s[i].id.0 == id {
        i
    } else {
        find_from(s, id, i + 1)
    }
}

pub open spec fn find_index(s: Seq<EntityRecord>, id: u32) -> int {
    find_from(s, id, 0)
}

pub proof fn lemma_find_from(s: Seq<EntityRecord>, id: u32, i: int)
    requires
        0 <= i <= s.len(),
    ensures
        find_from(s, id, i) == -1 ==> forall|j: int| i <= j < s.len() ==> s[j].id.0 != id,
        find_from(s, id, i) != -1 ==> i <= find_from(s, id, i) < s.len() && s[find_from(
            s,
            id,
            i,
        )].id.0 == id,
    decreases s.len() - i,
{
    if i < s.len() {
        lemma_find_from(s, id, i + 1);
    }
}

/// The characteristic facts of `find_index`.
pub proof fn lemma_find_index(s: Seq<EntityRecord>, id: u32)
    ensures
        find_index(s, id) == -1 ==> forall|j: int| 0 <= j < s.len() ==> s[j].id.0 != id,
        find_index(s, id) != -1 ==> 0 <= find_index(s, id) < s.len() && s[find_index(
            s,
            id,
        )].id.0 == id,
{
    lemma_find_from(s, id, 0);
}

pub open spec fn has_id(s: Seq<EntityRecord>, id: u32) -> bool {
    find_index(s, id) >= 0
}

/// The record a newly joined hero starts from.
pub open spec fn hero_record(
    id: EntityID,
    hero: HeroKind,
    name: String,
    position: Point,
    team: Option<Team>,
) -> EntityRecord {
    EntityRecord {
        id,
        kind: EntityKind::Hero,
        position: Some(Position { point: position }),
        velocity: Some(Velocity { vector: Vector { x: 0, y: 0 } }),
        renderable: Some(
            Renderable {
                radius: hero.radius(),
                colour: Colour { red: 0, green: 255, blue: 0, alpha: 255 },
            },
        ),
        hitbox: Some(Hitbox { radius: hero.radius() }),
        hitpoints: Some(Hitpoints { max: HERO_HITPOINTS, current: HERO_HITPOINTS }),
        team,
        player: Some(Player { hero, name }),
        unit: Some(Unit { speed: hero.speed(), target: Target::Nothing }),
        basic_attacker: Some(
            BasicAttacker { attack_speed: hero.attack_speed(), time_until_next_attack: 0 },
        ),
        projectile: None,
    }
}

/// The record a newly spawned projectile starts from.
pub open spec fn projectile_record(
    id: EntityID,
    position: Point,
    target: Target,
    damage: u16,
    team: Option<Team>,
    owner: EntityID,
) -> EntityRecord {
    EntityRecord {
        id,
        kind: EntityKind::Projectile,
        position: Some(Position { point: position }),
        velocity: Some(Velocity { vector: Vector { x: 0, y: 0 } }),
        renderable: Some(
            Renderable {
                radius: PROJECTILE_RADIUS,
                colour: Colour { red: 255, green: 0, blue: 0, alpha: 255 },
            },
        ),
        hitbox: Some(Hitbox { radius: PROJECTILE_RADIUS }),
        hitpoints: None,
        team,
        player: None,
        unit: Some(Unit { speed: PROJECTILE_SPEED, target }),
        basic_attacker: None,
        projectile: Some(Projectile { damage, owner }),
    }
}

/// Component well-formedness plus the completeness each kind guarantees.
pub open spec fn wf_record(r: EntityRecord) -> bool {
    &&& (match r.position {
        Some(p) => wf_point(p.point),
        None => true,
    })
    &&& (match r.unit {
        Some(u) => wf_unit(u),
        None => true,
    })
    &&& (match r.hitbox {
        Some(h) => wf_hitbox(h),
        None => true,
    })
    &&& (match r.velocity {
        Some(v) => crate::vector::iabs(v.vector.x as int) <= crate::vector::MAX_SPEED
            && crate::vector::iabs(v.vector.y as int) <= crate::vector::MAX_SPEED,
        None => true,
    })
    &&& (match r.hitpoints {
        Some(hp) => hp_wf(hp),
        None => true,
    })
    &&& (match r.kind {
        EntityKind::Hero => r.position is Some && r.player is Some && r.unit is Some
            && r.velocity is Some && r.basic_attacker is Some && r.hitpoints is Some
            && r.hitbox is Some && r.renderable is Some,
        EntityKind::Projectile => r.position is Some && r.projectile is Some && r.unit is Some
            && r.velocity is Some && r.hitbox is Some && r.renderable is Some,
    })
}

/// The world invariant: well-formed records, unique live ids, and every
/// live id strictly below the id counter.
pub open spec fn wf_snap(w: WorldSnap) -> bool {
    &&& 0 <= w.next_id <= u32::MAX
    &&& (forall|i: int| 0 <= i < w.entities.len() ==> wf_record(#[trigger] w.entities[i]))
    &&& (forall|i: int|
        0 <= i < w.entities.len() ==> (#[trigger] w.entities[i].id.0) < w.next_id)
    &&& (forall|i: int, j: int|
        0 <= i < w.entities.len() && 0 <= j < w.entities.len() && i != j
            ==> (#[trigger] w.entities[i].id.0) != (#[trigger] w.entities[j].id.0))
}

pub open spec fn int_max(a: int, b: int) -> int {
    if a >= b {
        a
    } else {
        b
    }
}

/// What one event means: how it transforms a world snapshot. Events that
/// reference absent entities or components are benign no-ops, and adding
/// an id that is already live is skipped, so replay can never corrupt
/// the store.
pub open spec fn apply_event(w: WorldSnap, e: Event) -> WorldSnap {
    match e {
        Event::EntityMove(id, p) => {
            let i = find_index(w.entities, id.0);
            if i >= 0 && w.entities[i].position is Some {
                WorldSnap {
                    entities: w.entities.update(
                        i,
                        EntityRecord { position: Some(Position { point: p }), ..w.entities[i] },
                    ),
                    ..w
                }
            } else {
                w
            }
        },
        Event::AddHero { id, position, hero, name, team } => {
            if has_id(w.entities, id.0) {
                w
            } else {
                WorldSnap {
                    entities: w.entities.push(hero_record(id, hero, name, position, team)),
                    next_id: int_max(w.next_id, id.0 + 1),
                }
            }
        },
        Event::AddProjectile { id, position, target, damage, team, owner } => {
            if has_id(w.entities, id.0) {
                w
            } else {
                WorldSnap {
                    entities: w.entities.push(
                        projectile_record(id, position, target, damage, team, owner),
                    ),
                    next_id: int_max(w.next_id, id.0 + 1),
                }
            }
        },
        Event::DamageEntity { id, damage } => {
            let i = find_index(w.entities, id.0);
            if i >= 0 && w.entities[i].hitpoints is Some {
                WorldSnap {
                    entities: w.entities.update(
                        i,
                        EntityRecord {
                            hitpoints: Some(
                                hp_damage_spec(w.entities[i].hitpoints.unwrap(), damage),
                            ),
                            ..w.entities[i]
                        },
                    ),
                    ..w
                }
            } else {
                w
            }
        },
        Event::RemoveEntity(id) => {
            let i = find_index(w.entities, id.0);
            if i >= 0 {
                WorldSnap { entities: w.entities.remove(i), ..w }
            } else {
                w
            }
        },
    }
}

/// Fold of `apply_event` over an event sequence, in order.
pub open spec fn apply_events(w: WorldSnap, es: Seq<Event>) -> WorldSnap
    decreases es.len(),
{
    if es.len() == 0 {
        w
    } else {
        apply_events(apply_event(w, es[0]), es.skip(1))
    }
}

/// What one command means: the transformed snapshot and the events it
/// emits. A `SetTarget` mutates the origin's unit directly (there is no
/// retarget event in the vocabulary); a `UseAbility` only allocates an id
/// and emits the projectile event, which is applied through the event path.
pub open spec fn apply_command(w: WorldSnap, c: Command, origin: EntityID) -> (WorldSnap, Seq<
    Event,
>) {
    match c {
        Command::SetTarget(t) => {
            let i = find_index(w.entities, origin.0);
            if i >= 0 && w.entities[i].unit is Some {
                let t2 = if t == Target::Entity(origin) {
                    Target::Nothing
                } else {
                    t
                };
                (
                    WorldSnap {
                        entities: w.entities.update(
                            i,
                            EntityRecord {
                                unit: Some(Unit { speed: w.entities[i].unit.unwrap().speed, target: t2 }),
                                ..w.entities[i]
                            },
                        ),
                        ..w
                    },
                    Seq::<Event>::empty(),
                )
            } else {
                (w, Seq::<Event>::empty())
            }
        },
        Command::UseAbility { ability_id: _, mouse_position } => {
            match mouse_position {
                Some(m) => {
                    let i = find_index(w.entities, origin.0);
                    if i >= 0 && w.entities[i].position is Some && w.next_id < u32::MAX {
                        (
                            WorldSnap { next_id: w.next_id + 1, ..w },
                            seq![
                                Event::AddProjectile {
                                    id: EntityID(w.next_id as u32),
                                    position: w.entities[i].position.unwrap().point,
                                    target: Target::Position(m),
                                    damage: 10,
                                    team: w.entities[i].team,
                                    owner: origin,
                                },
                            ],
                        )
                    } else {
                        (w, Seq::<Event>::empty())
                    }
                },
                None => (w, Seq::<Event>::empty()),
            }
        },
    }
}

/// The add-event (if any) that reconstructs one record for a late joiner.
pub open spec fn load_event(r: EntityRecord) -> Seq<Event> {
    match r.kind {
        EntityKind::Hero => if r.player is Some && r.position is Some {
            seq![
                Event::AddHero {
                    id: r.id,
                    position: r.position.unwrap().point,
                    hero: r.player.unwrap().hero,
                    name: r.player.unwrap().name,
                    team: r.team,
                },
            ]
        } else {
            Seq::<Event>::empty()
        },
        EntityKind::Projectile => if r.position is Some && r.unit is Some
            && r.projectile is Some {
            seq![
                Event::AddProjectile {
                    id: r.id,
                    position: r.position.unwrap().point,
                    target: r.unit.unwrap().target,
                    damage: r.projectile.unwrap().damage,
                    team: r.team,
                    owner: r.projectile.unwrap().owner,
                },
            ]
        } else {
            Seq::<Event>::empty()
        },
    }
}

pub open spec fn loading_from(s: Seq<EntityRecord>, i: int) -> Seq<Event>
    decreases s.len() - i,
{
    if i < 0 || i >= s.len() {
        Seq::<Event>::empty()
    } else {
        load_event(s[i]) + loading_from(s, i + 1)
    }
}

/// The full snapshot a late joiner replays to reconstruct the world.
pub open spec fn loading_events(s: Seq<EntityRecord>) -> Seq<Event> {
    loading_from(s, 0)
}

pub open spec fn players_from(s: Seq<EntityRecord>, i: int) -> Seq<EntityID>
    decreases s.len() - i,
{
    if i < 0 || i >= s.len() {
        Seq::<EntityID>::empty()
    } else if s[i].kind is Hero {
        seq![s[i].id] + players_from(s, i + 1)
    } else {
        players_from(s, i + 1)
    }
}

/// The hero entity ids, in insertion order.
pub open spec fn players_of(s: Seq<EntityRecord>) -> Seq<EntityID> {
    players_from(s, 0)
}

/// Whether the entity's hitbox, centred at its position, contains `(x, y)`.
pub open spec fn entity_contains_point_spec(
    s: Seq<EntityRecord>,
    e: EntityID,
    x: i64,
    y: i64,
) -> bool {
    let i = find_index(s, e.0);
    if i >= 0 && s[i].hitbox is Some && s[i].position is Some {
        crate::vector::sqrt_ceil_spec(
            crate::vector::sq(x - s[i].position.unwrap().point.x) + crate::vector::sq(
                y - s[i].position.unwrap().point.y,
            ),
        ) <= s[i].hitbox.unwrap().radius
    } else {
        false
    }
}

/// Applying a well-formed event preserves the world invariant.
pub proof fn lemma_apply_event_wf(w: WorldSnap, e: Event)
    requires
        wf_snap(w),
        wf_event(e),
    ensures
        wf_snap(apply_event(w, e)),
{
    match e {
        Event::EntityMove(id, p) => {
            lemma_find_index(w.entities, id.0);
        },
        Event::AddHero { id, position, hero, name, team } => {
            lemma_find_index(w.entities, id.0);
            if !has_id(w.entities, id.0) {
                let w2 = apply_event(w, e);
                assert(w2.entities.last() == hero_record(id, hero, name, position, team));
                assert(wf_record(hero_record(id, hero, name, position, team)));
                assert(forall|i: int|
                    0 <= i < w.entities.len() ==> w2.entities[i] == #[trigger] w.entities[i]);
            }
        },
        Event::AddProjectile { id, position, target, damage, team, owner } => {
            lemma_find_index(w.entities, id.0);
            if !has_id(w.entities, id.0) {
                let w2 = apply_event(w, e);
                assert(w2.entities.last() == projectile_record(
                    id,
                    position,
                    target,
                    damage,
                    team,
                    owner,
                ));
                assert(wf_record(projectile_record(id, position, target, damage, team, owner)));
                assert(forall|i: int|
                    0 <= i < w.entities.len() ==> w2.entities[i] == #[trigger] w.entities[i]);
            }
        },
        Event::DamageEntity { id, damage } => {
            lemma_find_index(w.entities, id.0);
        },
        Event::RemoveEntity(id) => {
            lemma_find_index(w.entities, id.0);
            let i = find_index(w.entities, id.0);
            if i >= 0 {
                let w2 = apply_event(w, e);
                assert(forall|j: int|
                    0 <= j < w2.entities.len() ==> #[trigger] w2.entities[j] == (if j < i {
                        w.entities[j]
                    } else {
                        w.entities[j + 1]
                    }));
            }
        },
    }
}

/// Applying a sequence of well-formed events preserves the invariant.
pub proof fn lemma_apply_events_wf(w: WorldSnap, es: Seq<Event>)
    requires
        wf_snap(w),
        wf_events(es),
    ensures
        wf_snap(apply_events(w, es)),
    decreases es.len(),
{
    if es.len() > 0 {
        lemma_apply_event_wf(w, es[0]);
        assert(wf_events(es.skip(1)));
        lemma_apply_events_wf(apply_event(w, es[0]), es.skip(1));
    }
}

/// The authoritative world state.
pub struct Game {
    pub entities: Vec<EntityRecord>,
    pub next_id: u32,
}

/// Mutable access to one record, exposing the vector update to callers.
pub(crate) fn rec_mut(v: &mut Vec<EntityRecord>, i: usize) -> (r: &mut EntityRecord)
    requires
        i < old(v)@.len(),
    ensures
        *r == old(v)@[i as int],
        final(v)@ == old(v)@.update(i as int, *final(r)),
{
    &mut v[i]
}

impl Game {
    pub open spec fn snap(&self) -> WorldSnap {
        WorldSnap { entities: self.entities@, next_id: self.next_id as int }
    }

    pub open spec fn wf(&self) -> bool {
        wf_snap(self.snap())
    }

    /// An empty world with the id counter at zero.
    pub fn new() -> (g: Game)
        ensures
            g.snap() == (WorldSnap { entities: Seq::<EntityRecord>::empty(), next_id: 0int }),
            g.wf(),
    {
        let g = Game { entities: Vec::new(), next_id: 0 };
        proof {
            assert(g.entities@ =~= Seq::<EntityRecord>::empty());
        }
        g
    }

    /// Allocate a fresh entity id; ids are never reused while live.
    pub fn next_entity_id(&mut self) -> (r: EntityID)
        requires
            old(self).next_id < u32::MAX,
        ensures
            r.0 == old(self).next_id,
            final(self).next_id == old(self).next_id + 1,
            final(self).entities == old(self).entities,
            old(self).wf() ==> final(self).wf(),
    {
        let t = self.next_id;
        self.next_id = self.next_id + 1;
        EntityID(t)
    }

    /// Resolve an id to its store handle (the index of its record).
    pub fn get_entity(&self, id: EntityID) -> (r: Option<usize>)
        ensures
            match r {
                Some(i) => find_index(self.entities@, id.0) == i as int && i < self.entities@.len(),
                None => find_index(self.entities@, id.0) == -1,
            },
    {
        let n = self.entities.len();
        let mut i: usize = 0;
        while i < n
            invariant
                i <= n,
                n == self.entities@.len(),
                find_index(self.entities@, id.0) == find_from(self.entities@, id.0, i as int),
            decreases n - i,
        {
            if self.entities[i].id.0 == id.0 {
                return Some(i);
            }
            i = i + 1;
        }
        None
    }

    /// Add a freshly joined hero under an id the caller allocated.
    pub fn add_player(
        &mut self,
        id: EntityID,
        hero: HeroKind,
        name: String,
        position: Point,
        team: Option<Team>,
    ) -> (r: EntityID)
        requires
            old(self).wf(),
            wf_point(position),
            !has_id(old(self).entities@, id.0),
            id.0 < old(self).next_id,
        ensures
            r == id,
            final(self).entities@ == old(self).entities@.push(
                hero_record(id, hero, name, position, team),
            ),
            final(self).next_id == old(self).next_id,
            final(self).wf(),
    {
        let rec = EntityRecord {
            id,
            kind: EntityKind::Hero,
            position: Some(Position { point: position }),
            velocity: Some(Velocity { vector: Vector { x: 0, y: 0 } }),
            renderable: Some(
                Renderable {
                    radius: hero.radius(),
                    colour: Colour { red: 0, green: 255, blue: 0, alpha: 255 },
                },
            ),
            hitbox: Some(Hitbox { radius: hero.radius() }),
            hitpoints: Some(Hitpoints { max: HERO_HITPOINTS, current: HERO_HITPOINTS }),
            team,
            player: Some(Player { hero, name }),
            unit: Some(Unit { speed: hero.speed(), target: Target::Nothing }),
            basic_attacker: Some(
                BasicAttacker { attack_speed: hero.attack_speed(), time_until_next_attack: 0 },
            ),
            projectile: None,
        };
        proof {
            lemma_find_index(old(self).entities@, id.0);
        }
        self.entities.push(rec);
        id
    }

    /// Add a freshly spawned projectile under an id the caller allocated.
    pub fn add_projectile(
        &mut self,
        id: EntityID,
        position: Point,
        target: Target,
        damage: u16,
        team: Option<Team>,
        owner: EntityID,
    ) -> (r: EntityID)
        requires
            old(self).wf(),
            wf_point(position),
            wf_target(target),
            !has_id(old(self).entities@, id.0),
            id.0 < old(self).next_id,
        ensures
            r == id,
            final(self).entities@ == old(self).entities@.push(
                projectile_record(id, position, target, damage, team, owner),
            ),
            final(self).next_id == old(self).next_id,
            final(self).wf(),
    {
        let rec = EntityRecord {
            id,
            kind: EntityKind::Projectile,
            position: Some(Position { point: position }),
            velocity: Some(Velocity { vector: Vector { x: 0, y: 0 } }),
            renderable: Some(
                Renderable {
                    radius: PROJECTILE_RADIUS,
                    colour: Colour { red: 255, green: 0, blue: 0, alpha: 255 },
                },
            ),
            hitbox: Some(Hitbox { radius: PROJECTILE_RADIUS }),
            hitpoints: None,
            team,
            player: None,
            unit: Some(Unit { speed: PROJECTILE_SPEED, target }),
            basic_attacker: None,
            projectile: Some(Projectile { damage, owner }),
        };
        proof {
            lemma_find_index(old(self).entities@, id.0);
        }
        self.entities.push(rec);
        id
    }

    /// Remove a live entity from the store.
    pub fn remove_entity(&mut self, id: EntityID)
        requires
            old(self).wf(),
            has_id(old(self).entities@, id.0),
        ensures
            final(self).snap() == apply_event(old(self).snap(), Event::RemoveEntity(id)),
            final(self).wf(),
    {
        proof {
            lemma_find_index(self.entities@, id.0);
            lemma_apply_event_wf(self.snap(), Event::RemoveEntity(id));
        }
        match self.get_entity(id) {
            Some(i) => {
                self.entities.remove(i);
            },
            None => {},
        }
    }

    /// Apply one event to the authoritative store; its meaning is exactly
    /// `apply_event`.
    pub fn run_event(&mut self, event: Event)
        requires
            old(self).wf(),
            wf_event(event),
        ensures
            final(self).snap() == apply_event(old(self).snap(), event),
            final(self).wf(),
    {
        proof {
            lemma_apply_event_wf(self.snap(), event);
        }
        match event {
            Event::EntityMove(id, p) => {
                match self.get_entity(id) {
                    Some(i) => {
                        if self.entities[i].position.is_some() {
                            let r = rec_mut(&mut self.entities, i);
                            r.position = Some(Position { point: p });
                        }
                    },
                    None => {},
                }
            },
            Event::AddHero { id, position, hero, name, team } => {
                match self.get_entity(id) {
                    Some(_) => {},
                    None => {
                        let rec = EntityRecord {
                            id,
                            kind: EntityKind::Hero,
                            position: Some(Position { point: position }),
                            velocity: Some(Velocity { vector: Vector { x: 0, y: 0 } }),
                            renderable: Some(
                                Renderable {
                                    radius: hero.radius(),
                                    colour: Colour { red: 0, green: 255, blue: 0, alpha: 255 },
                                },
                            ),
                            hitbox: Some(Hitbox { radius: hero.radius() }),
                            hitpoints: Some(
                                Hitpoints { max: HERO_HITPOINTS, current: HERO_HITPOINTS },
                            ),
                            team,
                            player: Some(Player { hero, name }),
                            unit: Some(Unit { speed: hero.speed(), target: Target::Nothing }),
                            basic_attacker: Some(
                                BasicAttacker {
                                    attack_speed: hero.attack_speed(),
                                    time_until_next_attack: 0,
                                },
                            ),
                            projectile: None,
                        };
                        self.entities.push(rec);
                        if id.0 + 1 > self.next_id {
                            self.next_id = id.0 + 1;
                        }
                    },
                }
            },
            Event::AddProjectile { id, position, target, damage, team, owner } => {
                match self.get_entity(id) {
                    Some(_) => {},
                    None => {
                        let rec = EntityRecord {
                            id,
                            kind: EntityKind::Projectile,
                            position: Some(Position { point: position }),
                            velocity: Some(Velocity { vector: Vector { x: 0, y: 0 } }),
                            renderable: Some(
                                Renderable {
                                    radius: PROJECTILE_RADIUS,
                                    colour: Colour { red: 255, green: 0, blue: 0, alpha: 255 },
                                },
                            ),
                            hitbox: Some(Hitbox { radius: PROJECTILE_RADIUS }),
                            hitpoints: None,
                            team,
                            player: None,
                            unit: Some(Unit { speed: PROJECTILE_SPEED, target }),
                            basic_attacker: None,
                            projectile: Some(Projectile { damage, owner }),
                        };
                        self.entities.push(rec);
                        if id.0 + 1 > self.next_id {
                            self.next_id = id.0 + 1;
                        }
                    },
                }
            },
            Event::DamageEntity { id, damage } => {
                match self.get_entity(id) {
                    Some(i) => {
                        match self.entities[i].hitpoints {
                            Some(hp) => {
                                let mut h = hp;
                                h.damage(damage);
                                let r = rec_mut(&mut self.entities, i);
                                r.hitpoints = Some(h);
                            },
                            None => {},
                        }
                    },
                    None => {},
                }
            },
            Event::RemoveEntity(id) => {
                match self.get_entity(id) {
                    Some(i) => {
                        self.entities.remove(i);
                    },
                    None => {},
                }
            },
        }
    }

    /// Apply a client command issued by `origin`, returning the events it
    /// produces; its meaning is exactly `apply_command`. A command whose
    /// origin is not live, or that lacks its needed datum, is rejected as
    /// a no-op rather than queued.
    pub fn run_command(&mut self, command: Command, origin: EntityID) -> (events: Vec<Event>)
        requires
            old(self).wf(),
            wf_command(command),
            old(self).next_id < u32::MAX,
        ensures
            final(self).snap() == apply_command(old(self).snap(), command, origin).0,
            events@ == apply_command(old(self).snap(), command, origin).1,
            final(self).wf(),
            wf_events(events@),
    {
        proof {
            lemma_find_index(self.entities@, origin.0);
        }
        match command {
            Command::SetTarget(t) => {
                match self.get_entity(origin) {
                    Some(i) => {
                        let unit_opt = self.entities[i].unit;
                        match unit_opt {
                            Some(u) => {
                                let t2 = crate::component::normalize_target(t, origin);
                                let r = rec_mut(&mut self.entities, i);
                                r.unit = Some(Unit { speed: u.speed, target: t2 });
                            },
                            None => {},
                        }
                    },
                    None => {},
                }
                Vec::new()
            },
            Command::UseAbility { ability_id: _, mouse_position } => {
                let mut events: Vec<Event> = Vec::new();
                match mouse_position {
                    Some(m) => {
                        match self.get_entity(origin) {
                            Some(i) => {
                                let pos_opt = self.entities[i].position;
                                match pos_opt {
                                    Some(p) => {
                                        let team = self.entities[i].team;
                                        let eid = self.next_entity_id();
                                        events.push(
                                            Event::AddProjectile {
                                                id: eid,
                                                position: p.point,
                                                target: Target::Position(m),
                                                damage: 10,
                                                team,
                                                owner: origin,
                                            },
                                        );
                                        proof {
                                            assert(events@ =~= apply_command(
                                                old(self).snap(),
                                                command,
                                                origin,
                                            ).1);
                                        }
                                    },
                                    None => {},
                                }
                            },
                            None => {},
                        }
                    },
                    None => {},
                }
                events
            },
        }
    }

    /// The add-events that rebuild the current world for a late joiner,
    /// in insertion order.
    pub fn events_for_loading(&mut self) -> (events: Vec<Event>)
        ensures
            *final(self) == *old(self),
            events@ == loading_events(old(self).entities@),
    {
        let ghost s = self.entities@;
        let mut events: Vec<Event> = Vec::new();
        let n = self.entities.len();
        let mut i: usize = 0;
        proof {
            assert(events@ + loading_from(s, 0) =~= loading_from(s, 0));
        }
        while i < n
            invariant
                i <= n,
                n == self.entities@.len(),
                s == self.entities@,
                loading_from(s, 0) == events@ + loading_from(s, i as int),
            decreases n - i,
        {
            let rec = &self.entities[i];
            let ghost evs_before = events@;
            match rec.kind {
                EntityKind::Hero => {
                    match (&rec.player, &rec.position) {
                        (Some(player), Some(position)) => {
                            events.push(
                                Event::AddHero {
                                    id: rec.id,
                                    position: position.point,
                                    hero: player.hero,
                                    name: player.name.clone(),
                                    team: rec.team,
                                },
                            );
                        },
                        _ => {},
                    }
                },
                EntityKind::Projectile => {
                    match (&rec.position, &rec.unit, &rec.projectile) {
                        (Some(position), Some(unit), Some(projectile)) => {
                            events.push(
                                Event::AddProjectile {
                                    id: rec.id,
                                    position: position.point,
                                    target: unit.target,
                                    damage: projectile.damage,
                                    team: rec.team,
                                    owner: projectile.owner,
                                },
                            );
                        },
                        _ => {},
                    }
                },
            }
            proof {
                assert(events@ =~= evs_before + load_event(s[i as int]));
                assert(evs_before + load_event(s[i as int]) + loading_from(s, i as int + 1)
                    =~= evs_before + (load_event(s[i as int]) + loading_from(s, i as int + 1)));
            }
            i = i + 1;
        }
        events
    }

    /// The ids of the hero entities, in insertion order.
    pub fn players(&self) -> (r: Vec<EntityID>)
        ensures
            r@ == players_of(self.entities@),
    {
        let ghost s = self.entities@;
        let mut out: Vec<EntityID> = Vec::new();
        let n = self.entities.len();
        let mut i: usize = 0;
        proof {
            assert(out@ + players_from(s, 0) =~= players_from(s, 0));
        }
        while i < n
            invariant
                i <= n,
                n == self.entities@.len(),
                s == self.entities@,
                players_from(s, 0) == out@ + players_from(s, i as int),
            decreases n - i,
        {
            let ghost out_before = out@;
            let rec = &self.entities[i];
            match rec.kind {
                EntityKind::Hero => {
                    out.push(rec.id);
                },
                EntityKind::Projectile => {},
            }
            proof {
                if s[i as int].kind is Hero {
                    assert(out@ =~= out_before + seq![s[i as int].id]);
                    assert(out_before + seq![s[i as int].id] + players_from(s, i as int + 1)
                        =~= out_before + (seq![s[i as int].id] + players_from(s, i as int + 1)));
                }
            }
            i = i + 1;
        }
        out
    }

    /// The ids of all live entities, in insertion order.
    pub fn entity_ids(&self) -> (r: Vec<EntityID>)
        ensures
            r@.len() == self.entities@.len(),
            forall|i: int| 0 <= i < r@.len() ==> r@[i] == #[trigger] self.entities@[i].id,
    {
        let mut out: Vec<EntityID> = Vec::new();
        let n = self.entities.len();
        let mut i: usize = 0;
        while i < n
            invariant
                i <= n,
                n == self.entities@.len(),
                out@.len() == i,
                forall|j: int| 0 <= j < i ==> out@[j] == #[trigger] self.entities@[j].id,
            decreases n - i,
        {
            out.push(self.entities[i].id);
            i = i + 1;
        }
        out
    }

    /// Whether the entity's hitbox, centred at its position, contains the
    /// query point.
    pub fn entity_contains_point(&mut self, e: EntityID, x: i64, y: i64) -> (r: bool)
        requires
            old(self).wf(),
            crate::vector::in_coord_range(x as int),
            crate::vector::in_coord_range(y as int),
        ensures
            *final(self) == *old(self),
            r == entity_contains_point_spec(old(self).entities@, e, x, y),
    {
        proof {
            lemma_find_index(self.entities@, e.0);
        }
        match self.get_entity(e) {
            Some(i) => {
                let hb_opt = self.entities[i].hitbox;
                let pos_opt = self.entities[i].position;
                match (hb_opt, pos_opt) {
                    (Some(hb), Some(pos)) => hb.contains_point(
                        pos.point.x,
                        pos.point.y,
                        Point { x, y },
                    ),
                    _ => false,
                }
            },
            None => false,
        }
    }

    /// Where the entity is, if it is live and occupies space.
    pub fn position_of(&self, id: EntityID) -> (r: Option<Point>)
        ensures
            ({
                let i = find_index(self.entities@, id.0);
                if i >= 0 {
                    r == (match self.entities@[i].position {
                        Some(p) => Some(p.point),
                        None => None::<Point>,
                    })
                } else {
                    r is None
                }
            }),
    {
        match self.get_entity(id) {
            Some(i) => match self.entities[i].position {
                Some(p) => Some(p.point),
                None => None,
            },
            None => None,
        }
    }

    /// The entity's hitpoints, if it is live and damageable.
    pub fn hitpoints_of(&self, id: EntityID) -> (r: Option<Hitpoints>)
        ensures
            ({
                let i = find_index(self.entities@, id.0);
                if i >= 0 {
                    r == self.entities@[i].hitpoints
                } else {
                    r is None
                }
            }),
    {
        match self.get_entity(id) {
            Some(i) => self.entities[i].hitpoints,
            None => None,
        }
    }

    /// What sort of entity the id names, if it is live.
    pub fn kind_of(&self, id: EntityID) -> (r: Option<EntityKind>)
        ensures
            ({
                let i = find_index(self.entities@, id.0);
                if i >= 0 {
                    r == Some(self.entities@[i].kind)
                } else {
                    r is None
                }
            }),
    {
        match self.get_entity(id) {
            Some(i) => Some(self.entities[i].kind),
            None => None,
        }
    }

    /// Apply a batch of events in emission order.
    pub fn run_events(&mut self, events: &Vec<Event>)
        requires
            old(self).wf(),
            wf_events(events@),
        ensures
            final(self).snap() == apply_events(old(self).snap(), events@),
            final(self).wf(),
    {
        let n = events.len();
        let mut i: usize = 0;
        proof {
            assert(events@.skip(0) =~= events@);
        }
        while i < n
            invariant
                i <= n,
                n == events@.len(),
                self.wf(),
                wf_events(events@),
                apply_events(old(self).snap(), events@) == apply_events(
                    self.snap(),
                    events@.skip(i as int),
                ),
            decreases n - i,
        {
            let e = clone_event(&events[i]);
            proof {
                assert(wf_event(events@[i as int]));
                assert(events@.skip(i as int)[0] == events@[i as int]);
                assert(events@.skip(i as int).skip(1) =~= events@.skip(i as int + 1));
            }
            self.run_event(e);
            i = i + 1;
        }
        proof {
            assert(events@.skip(n as int) =~= Seq::<Event>::empty());
        }
    }
}

} // verus!
