//! Observational replay guarantees.
//!
//! A client that starts from an empty world and applies the server's
//! event batches in order sees the same entities, positions and
//! hitpoints as the authoritative store: applying an event changes the
//! observable world the same way on any two observably equal worlds, and
//! a tick's emitted batch replays the tick's whole observable effect.

use vstd::prelude::*;

use crate::component::{hp_damage_spec, EntityID, EntityKind, Hitpoints};
use crate::event::{wf_event, wf_events, Event};
use crate::game::{
    apply_event, apply_events, find_from, find_index, lemma_apply_event_wf, lemma_find_index,
    wf_record, wf_snap, EntityRecord, WorldSnap,
};
use crate::vector::Point;

verus! {

/// What clients can observe of one entity: its kind, where it is, and
/// its hitpoints.
pub struct Obs {
    pub kind: EntityKind,
    pub position: Option<Point>,
    pub hitpoints: Option<Hitpoints>,
}

pub open spec fn obs_of(r: EntityRecord) -> Obs {
    Obs {
        kind: r.kind,
        position: match r.position {
            Some(p) => Some(p.point),
            None => None::<Point>,
        },
        hitpoints: r.hitpoints,
    }
}

pub open spec fn observe_from(s: Seq<EntityRecord>, i: int) -> Map<u32, Obs>
    decreases s.len() - i,
{
    if i < 0 || i >= s.len() {
        Map::<u32, Obs>::empty()
    } else {
        observe_from(s, i + 1).insert(s[i].id.0, obs_of(s[i]))
    }
}

/// The observable world: each live id mapped to what clients see of it.
pub open spec fn observe(s: Seq<EntityRecord>) -> Map<u32, Obs> {
    observe_from(s, 0)
}

proof fn lemma_observe_from_char(s: Seq<EntityRecord>, i: int)
    requires
        0 <= i <= s.len(),
    ensures
        forall|id: u32|
            #[trigger] observe_from(s, i).dom().contains(id) <==> find_from(s, id, i) >= 0,
        forall|id: u32|
            find_from(s, id, i) >= 0 ==> #[trigger] observe_from(s, i)[id] == obs_of(
                s[find_from(s, id, i)],
            ),
    decreases s.len() - i,
{
    if i < s.len() {
        lemma_observe_from_char(s, i + 1);
    }
}

/// Membership and value of the observable world, in terms of the store's
/// id resolution.
pub proof fn lemma_observe_char(s: Seq<EntityRecord>)
    ensures
        forall|id: u32| #[trigger] observe(s).dom().contains(id) <==> find_index(s, id) >= 0,
        forall|id: u32|
            find_index(s, id) >= 0 ==> #[trigger] observe(s)[id] == obs_of(s[find_index(s, id)]),
{
    lemma_observe_from_char(s, 0);
}

/// Two stores whose records agree on identity and observation have the
/// same observable world.
pub proof fn lemma_observe_pointwise(s1: Seq<EntityRecord>, s2: Seq<EntityRecord>)
    requires
        s1.len() == s2.len(),
        forall|j: int| 0 <= j < s1.len() ==> (#[trigger] s1[j]).id == s2[j].id,
        forall|j: int| 0 <= j < s1.len() ==> obs_of(#[trigger] s1[j]) == obs_of(s2[j]),
    ensures
        observe(s1) == observe(s2),
{
    lemma_observe_pointwise_from(s1, s2, 0);
}

proof fn lemma_observe_pointwise_from(s1: Seq<EntityRecord>, s2: Seq<EntityRecord>, i: int)
    requires
        0 <= i <= s1.len(),
        s1.len() == s2.len(),
        forall|j: int| 0 <= j < s1.len() ==> (#[trigger] s1[j]).id == s2[j].id,
        forall|j: int| 0 <= j < s1.len() ==> obs_of(#[trigger] s1[j]) == obs_of(s2[j]),
    ensures
        observe_from(s1, i) == observe_from(s2, i),
    decreases s1.len() - i,
{
    if i < s1.len() {
        lemma_observe_pointwise_from(s1, s2, i + 1);
    }
}

proof fn lemma_find_ids_equal_from(s1: Seq<EntityRecord>, s2: Seq<EntityRecord>, id: u32, i: int)
    requires
        s1.len() == s2.len(),
        forall|j: int| 0 <= j < s1.len() ==> (#[trigger] s1[j]).id == s2[j].id,
        0 <= i <= s1.len(),
    ensures
        find_from(s1, id, i) == find_from(s2, id, i),
    decreases s1.len() - i,
{
    if i < s1.len() {
        lemma_find_ids_equal_from(s1, s2, id, i + 1);
    }
}

/// Id resolution depends only on the records' identities.
pub proof fn lemma_find_ids_equal(s1: Seq<EntityRecord>, s2: Seq<EntityRecord>, id: u32)
    requires
        s1.len() == s2.len(),
        forall|j: int| 0 <= j < s1.len() ==> (#[trigger] s1[j]).id == s2[j].id,
    ensures
        find_index(s1, id) == find_index(s2, id),
{
    lemma_find_ids_equal_from(s1, s2, id, 0);
}

pub open spec fn unique_ids(s: Seq<EntityRecord>) -> bool {
    forall|a: int, b: int|
        0 <= a < s.len() && 0 <= b < s.len() && a != b ==> (#[trigger] s[a].id.0) != (
        #[trigger] s[b].id.0)
}

proof fn lemma_find_push_from(s: Seq<EntityRecord>, r: EntityRecord, id: u32, i: int)
    requires
        0 <= i <= s.len(),
    ensures
        find_from(s.push(r), id, i) == (if find_from(s, id, i) >= 0 {
            find_from(s, id, i)
        } else if r.id.0 == id {
            s.len() as int
        } else {
            -1
        }),
    decreases s.len() - i,
{
    let t = s.push(r);
    assert(t.len() == s.len() + 1);
    if i < s.len() {
        assert(t[i] == s[i]);
        lemma_find_push_from(s, r, id, i + 1);
        if s[i].id.0 == id {
            assert(find_from(t, id, i) == i);
            assert(find_from(s, id, i) == i);
        } else {
            assert(find_from(t, id, i) == find_from(t, id, i + 1));
            assert(find_from(s, id, i) == find_from(s, id, i + 1));
        }
    } else {
        assert(t[s.len() as int] == r);
        assert(find_from(s, id, i) == -1);
        if r.id.0 == id {
            assert(find_from(t, id, i) == s.len());
        } else {
            assert(find_from(t, id, i) == find_from(t, id, s.len() as int + 1));
            assert(find_from(t, id, s.len() as int + 1) == -1);
        }
    }
}

/// Id resolution in a store with one appended record.
pub proof fn lemma_find_push(s: Seq<EntityRecord>, r: EntityRecord, id: u32)
    ensures
        find_index(s.push(r), id) == (if find_index(s, id) >= 0 {
            find_index(s, id)
        } else if r.id.0 == id {
            s.len() as int
        } else {
            -1
        }),
{
    lemma_find_push_from(s, r, id, 0);
}

/// Id resolution in a store with one record removed, when ids are unique.
pub proof fn lemma_find_remove(s: Seq<EntityRecord>, rm: int, id: u32)
    requires
        unique_ids(s),
        0 <= rm < s.len(),
    ensures
        find_index(s.remove(rm), id) >= 0 <==> (find_index(s, id) >= 0 && find_index(s, id) != rm),
        find_index(s.remove(rm), id) >= 0 ==> s.remove(rm)[find_index(s.remove(rm), id)]
            == s[find_index(s, id)],
{
    let s2 = s.remove(rm);
    lemma_find_index(s, id);
    lemma_find_index(s2, id);
    assert(forall|j: int| 0 <= j < rm ==> #[trigger] s2[j] == s[j]);
    assert(forall|j: int| rm <= j < s2.len() ==> #[trigger] s2[j] == s[j + 1]);
    let f2 = find_index(s2, id);
    let f1 = find_index(s, id);
    if f2 >= 0 {
        let orig = if f2 < rm {
            f2
        } else {
            f2 + 1
        };
        assert(s2[f2] == s[orig]);
        assert(s[orig].id.0 == id);
        assert(f1 >= 0);
        assert(s[f1].id.0 == id);
        assert(f1 == orig);
    } else {
        if f1 >= 0 && f1 != rm {
            let back = if f1 < rm {
                f1
            } else {
                f1 - 1
            };
            assert(s2[back] == s[f1]);
            assert(s2[back].id.0 == id);
        }
    }
}

/// The find-level facts that observable equality of two stores yields.
proof fn lemma_observe_gives_find(s1: Seq<EntityRecord>, s2: Seq<EntityRecord>)
    requires
        observe(s1) == observe(s2),
    ensures
        forall|k: u32|
            #![trigger find_index(s1, k), find_index(s2, k)]
            (find_index(s1, k) >= 0 <==> find_index(s2, k) >= 0) && ((find_index(s1, k) >= 0
                && find_index(s2, k) >= 0) ==> obs_of(s1[find_index(s1, k)]) == obs_of(
                s2[find_index(s2, k)],
            )),
{
    lemma_observe_char(s1);
    lemma_observe_char(s2);
    assert forall|k: u32|
        #![trigger find_index(s1, k), find_index(s2, k)]
        (find_index(s1, k) >= 0 <==> find_index(s2, k) >= 0) && ((find_index(s1, k) >= 0
            && find_index(s2, k) >= 0) ==> obs_of(s1[find_index(s1, k)]) == obs_of(
            s2[find_index(s2, k)],
        )) by {
        assert(observe(s1).dom().contains(k) <==> find_index(s1, k) >= 0);
        assert(observe(s2).dom().contains(k) <==> find_index(s2, k) >= 0);
        if find_index(s1, k) >= 0 && find_index(s2, k) >= 0 {
            assert(observe(s1)[k] == obs_of(s1[find_index(s1, k)]));
            assert(observe(s2)[k] == obs_of(s2[find_index(s2, k)]));
        }
    }
}

/// Observable equality of two stores follows from matching id resolution
/// and matching observations at each resolved id.
proof fn lemma_find_gives_observe(t1: Seq<EntityRecord>, t2: Seq<EntityRecord>)
    requires
        forall|k: u32|
            #![trigger find_index(t1, k), find_index(t2, k)]
            (find_index(t1, k) >= 0 <==> find_index(t2, k) >= 0) && ((find_index(t1, k) >= 0
                && find_index(t2, k) >= 0) ==> obs_of(t1[find_index(t1, k)]) == obs_of(
                t2[find_index(t2, k)],
            )),
    ensures
        observe(t1) == observe(t2),
{
    lemma_observe_char(t1);
    lemma_observe_char(t2);
    assert forall|k: u32| #[trigger]
        observe(t1).dom().contains(k) <==> observe(t2).dom().contains(k) by {
        assert(find_index(t1, k) >= 0 <==> find_index(t2, k) >= 0);
    }
    assert(observe(t1).dom() =~= observe(t2).dom());
    assert forall|k: u32| observe(t1).dom().contains(k) implies #[trigger] observe(t1)[k]
        == observe(t2)[k] by {
        assert(find_index(t1, k) >= 0 && find_index(t2, k) >= 0);
        assert(observe(t1)[k] == obs_of(t1[find_index(t1, k)]));
        assert(observe(t2)[k] == obs_of(t2[find_index(t2, k)]));
    }
    assert(observe(t1) =~= observe(t2));
}

/// Applying one well-formed event preserves observable equality: two
/// observably equal well-formed worlds stay observably equal.
pub proof fn lemma_apply_event_observational(w1: WorldSnap, w2: WorldSnap, e: Event)
    requires
        wf_snap(w1),
        wf_snap(w2),
        wf_event(e),
        observe(w1.entities) == observe(w2.entities),
    ensures
        observe(apply_event(w1, e).entities) == observe(apply_event(w2, e).entities),
{
    let s1 = w1.entities;
    let s2 = w2.entities;
    lemma_observe_gives_find(s1, s2);
    match e {
        Event::EntityMove(id, p) => {
            lemma_find_index(s1, id.0);
            lemma_find_index(s2, id.0);
            let i1 = find_index(s1, id.0);
            let i2 = find_index(s2, id.0);
            if i1 >= 0 && i2 >= 0 && s1[i1].position is Some {
                let r1 = EntityRecord {
                    position: Some(crate::component::Position { point: p }),
                    ..s1[i1]
                };
                let r2 = EntityRecord {
                    position: Some(crate::component::Position { point: p }),
                    ..s2[i2]
                };
                let t1 = s1.update(i1, r1);
                let t2 = s2.update(i2, r2);
                assert forall|k: u32|
                    #![trigger find_index(t1, k), find_index(t2, k)]
                    (find_index(t1, k) >= 0 <==> find_index(t2, k) >= 0) && ((find_index(t1, k)
                        >= 0 && find_index(t2, k) >= 0) ==> obs_of(t1[find_index(t1, k)])
                        == obs_of(t2[find_index(t2, k)])) by {
                    lemma_find_ids_equal(t1, s1, k);
                    lemma_find_ids_equal(t2, s2, k);
                    lemma_find_index(s1, k);
                    lemma_find_index(s2, k);
                    if find_index(s1, k) >= 0 && find_index(s2, k) >= 0 {
                        if k == id.0 {
                            assert(find_index(s1, k) == i1);
                            assert(find_index(s2, k) == i2);
                            assert(t1[i1] == r1 && t2[i2] == r2);
                        } else {
                            assert(find_index(s1, k) != i1);
                            assert(find_index(s2, k) != i2);
                            assert(t1[find_index(s1, k)] == s1[find_index(s1, k)]);
                            assert(t2[find_index(s2, k)] == s2[find_index(s2, k)]);
                        }
                    }
                }
                lemma_find_gives_observe(t1, t2);
            }
        },
        Event::AddHero { id, position, hero, name, team } => {
            lemma_find_index(s1, id.0);
            lemma_find_index(s2, id.0);
            if find_index(s1, id.0) < 0 && find_index(s2, id.0) < 0 {
                let r = crate::game::hero_record(id, hero, name, position, team);
                lemma_observe_add(s1, s2, r);
            }
        },
        Event::AddProjectile { id, position, target, damage, team, owner } => {
            lemma_find_index(s1, id.0);
            lemma_find_index(s2, id.0);
            if find_index(s1, id.0) < 0 && find_index(s2, id.0) < 0 {
                let r = crate::game::projectile_record(id, position, target, damage, team, owner);
                lemma_observe_add(s1, s2, r);
            }
        },
        Event::DamageEntity { id, damage } => {
            lemma_find_index(s1, id.0);
            lemma_find_index(s2, id.0);
            let i1 = find_index(s1, id.0);
            let i2 = find_index(s2, id.0);
            if i1 >= 0 && i2 >= 0 {
                assert(obs_of(s1[i1]) == obs_of(s2[i2]));
                assert(s1[i1].hitpoints == s2[i2].hitpoints);
                if s1[i1].hitpoints is Some {
                    let nh = hp_damage_spec(s1[i1].hitpoints.unwrap(), damage);
                    let r1 = EntityRecord { hitpoints: Some(nh), ..s1[i1] };
                    let r2 = EntityRecord { hitpoints: Some(nh), ..s2[i2] };
                    let t1 = s1.update(i1, r1);
                    let t2 = s2.update(i2, r2);
                    assert forall|k: u32|
                        #![trigger find_index(t1, k), find_index(t2, k)]
                        (find_index(t1, k) >= 0 <==> find_index(t2, k) >= 0) && ((find_index(
                            t1,
                            k,
                        ) >= 0 && find_index(t2, k) >= 0) ==> obs_of(t1[find_index(t1, k)])
                            == obs_of(t2[find_index(t2, k)])) by {
                        lemma_find_ids_equal(t1, s1, k);
                        lemma_find_ids_equal(t2, s2, k);
                        lemma_find_index(s1, k);
                        lemma_find_index(s2, k);
                        if find_index(s1, k) >= 0 && find_index(s2, k) >= 0 {
                            if k == id.0 {
                                assert(find_index(s1, k) == i1);
                                assert(find_index(s2, k) == i2);
                                assert(t1[i1] == r1 && t2[i2] == r2);
                            } else {
                                assert(find_index(s1, k) != i1);
                                assert(find_index(s2, k) != i2);
                                assert(t1[find_index(s1, k)] == s1[find_index(s1, k)]);
                                assert(t2[find_index(s2, k)] == s2[find_index(s2, k)]);
                            }
                        }
                    }
                    lemma_find_gives_observe(t1, t2);
                }
            }
        },
        Event::RemoveEntity(id) => {
            lemma_find_index(s1, id.0);
            lemma_find_index(s2, id.0);
            let i1 = find_index(s1, id.0);
            let i2 = find_index(s2, id.0);
            if i1 >= 0 && i2 >= 0 {
                let t1 = s1.remove(i1);
                let t2 = s2.remove(i2);
                assert forall|k: u32|
                    #![trigger find_index(t1, k), find_index(t2, k)]
                    (find_index(t1, k) >= 0 <==> find_index(t2, k) >= 0) && ((find_index(t1, k)
                        >= 0 && find_index(t2, k) >= 0) ==> obs_of(t1[find_index(t1, k)])
                        == obs_of(t2[find_index(t2, k)])) by {
                    lemma_find_remove(s1, i1, k);
                    lemma_find_remove(s2, i2, k);
                    lemma_find_index(s1, k);
                    lemma_find_index(s2, k);
                    if find_index(s1, k) >= 0 && find_index(s1, k) != i1 {
                        assert(k != id.0);
                        assert(find_index(s2, k) != i2);
                        assert(t1[find_index(t1, k)] == s1[find_index(s1, k)]);
                        assert(t2[find_index(t2, k)] == s2[find_index(s2, k)]);
                    }
                    if find_index(s1, k) == i1 {
                        assert(k == id.0);
                        assert(find_index(s2, k) == i2);
                    }
                }
                lemma_find_gives_observe(t1, t2);
            }
        },
    }
}

/// Pushing the same fresh record onto observably equal stores keeps them
/// observably equal.
proof fn lemma_observe_add(s1: Seq<EntityRecord>, s2: Seq<EntityRecord>, r: EntityRecord)
    requires
        observe(s1) == observe(s2),
        find_index(s1, r.id.0) == -1,
        find_index(s2, r.id.0) == -1,
    ensures
        observe(s1.push(r)) == observe(s2.push(r)),
{
    let t1 = s1.push(r);
    let t2 = s2.push(r);
    lemma_observe_gives_find(s1, s2);
    assert forall|k: u32|
        #![trigger find_index(t1, k), find_index(t2, k)]
        (find_index(t1, k) >= 0 <==> find_index(t2, k) >= 0) && ((find_index(t1, k) >= 0
            && find_index(t2, k) >= 0) ==> obs_of(t1[find_index(t1, k)]) == obs_of(
            t2[find_index(t2, k)],
        )) by {
        lemma_find_push(s1, r, k);
        lemma_find_push(s2, r, k);
        lemma_find_index(s1, k);
        lemma_find_index(s2, k);
        if k == r.id.0 {
            assert(t1[find_index(t1, k)] == r);
            assert(t2[find_index(t2, k)] == r);
        } else if find_index(s1, k) >= 0 && find_index(s2, k) >= 0 {
            assert(t1[find_index(t1, k)] == s1[find_index(s1, k)]);
            assert(t2[find_index(t2, k)] == s2[find_index(s2, k)]);
        }
    }
    lemma_find_gives_observe(t1, t2);
}

/// Replaying any well-formed event sequence preserves observable
/// equality between two well-formed worlds: the ordered event log fully
/// determines the observable world it builds.
pub proof fn lemma_apply_events_observational(w1: WorldSnap, w2: WorldSnap, es: Seq<Event>)
    requires
        wf_snap(w1),
        wf_snap(w2),
        wf_events(es),
        observe(w1.entities) == observe(w2.entities),
    ensures
        observe(apply_events(w1, es).entities) == observe(apply_events(w2, es).entities),
    decreases es.len(),
{
    if es.len() > 0 {
        lemma_apply_event_observational(w1, w2, es[0]);
        lemma_apply_event_wf(w1, es[0]);
        lemma_apply_event_wf(w2, es[0]);
        assert(wf_events(es.skip(1)));
        lemma_apply_events_observational(apply_event(w1, es[0]), apply_event(w2, es[0]), es.skip(1));
    }
}

/// The targeting stage neither adds, removes, moves nor damages
/// anything: its output is observably the pre-stage world, its records
/// keep their identities, and it stays well-formed.
proof fn lemma_velocity_stage_obs_wf(w: WorldSnap, time: u32)
    requires
        wf_snap(w),
        1 <= time <= crate::system::DT_MAX,
    ensures
        observe(crate::system::velocity_stage(w, time)) == observe(w.entities),
        crate::system::velocity_stage(w, time).len() == w.entities.len(),
        forall|j: int|
            0 <= j < w.entities.len() ==> (#[trigger] crate::system::velocity_stage(w, time)[j]).id
                == w.entities[j].id,
        wf_snap(WorldSnap { entities: crate::system::velocity_stage(w, time), next_id: w.next_id }),
{
    let vs = crate::system::velocity_stage(w, time);
    assert(vs.len() == w.entities.len());
    assert forall|j: int| 0 <= j < vs.len() implies (#[trigger] vs[j]) == crate::system::velocity_updated(
        w,
        w.entities[j],
        time,
    ) by {}
    assert forall|j: int| 0 <= j < vs.len() implies obs_of(#[trigger] vs[j]) == obs_of(
        w.entities[j],
    ) && vs[j].id == w.entities[j].id by {}
    lemma_observe_pointwise(vs, w.entities);
    assert forall|j: int| 0 <= j < vs.len() implies wf_record(#[trigger] vs[j]) by {
        let r = w.entities[j];
        assert(wf_record(r));
        if r.unit is Some && r.position is Some && r.velocity is Some {
            let u = r.unit.unwrap();
            match u.target {
                crate::component::Target::Nothing => {},
                crate::component::Target::Position(p) => {
                    crate::system::lemma_velocity_in_speed(
                        r.position.unwrap().point,
                        p,
                        u.speed,
                        time,
                        0,
                    );
                },
                crate::component::Target::Entity(e) => {
                    let k = find_index(w.entities, e.0);
                    lemma_find_index(w.entities, e.0);
                    if k >= 0 && w.entities[k].position is Some {
                        assert(wf_record(w.entities[k]));
                        crate::system::lemma_velocity_in_speed(
                            r.position.unwrap().point,
                            w.entities[k].position.unwrap().point,
                            u.speed,
                            time,
                            crate::system::chase_range(r, w.entities[k]),
                        );
                    }
                },
            }
        }
    }
}

/// The batch a tick emits replays the tick's whole observable effect:
/// applying the tick's events to the pre-tick world yields a world
/// observably equal to the post-tick authoritative state.
pub proof fn lemma_tick_observational(w: WorldSnap, time: u32)
    requires
        wf_snap(w),
        1 <= time <= crate::system::DT_MAX,
        w.next_id + w.entities.len() <= u32::MAX,
    ensures
        observe(crate::system::spec_tick(w, time).0.entities) == observe(
            apply_events(w, crate::system::spec_tick(w, time).1).entities,
        ),
{
    let s1 = WorldSnap { entities: crate::system::velocity_stage(w, time), next_id: w.next_id };
    lemma_velocity_stage_obs_wf(w, time);
    let att = crate::system::attacker_from(s1.entities, time, w.next_id, 0);
    crate::system::lemma_attacker_from_shape(s1.entities, time, w.next_id, 0);
    assert forall|j: int| 0 <= j < att.0.len() implies obs_of(#[trigger] att.0[j]) == obs_of(
        s1.entities[j],
    ) by {}
    lemma_observe_pointwise(att.0, s1.entities);
    let s2 = WorldSnap { entities: att.0, next_id: att.2 };
    assert(wf_snap(s2));
    let cols = crate::system::collision_pairs(s1);
    let evs_m = crate::system::motion_events(s1, time);
    let evs_p = crate::system::projectile_events(att.0, cols);
    let evs = evs_m + att.1 + evs_p;
    crate::system::lemma_motion_from_wf(s1, time, 0);
    crate::system::lemma_attacker_from_events_wf(s1.entities, time, w.next_id, 0);
    crate::system::lemma_pe_from_wf(att.0, cols, 0);
    assert(forall|k: int|
        0 <= k < evs.len() ==> #[trigger] evs[k] == (if k < evs_m.len() {
            evs_m[k]
        } else if k < evs_m.len() + att.1.len() {
            att.1[k - evs_m.len()]
        } else {
            evs_p[k - evs_m.len() - att.1.len()]
        }));
    assert(wf_events(evs));
    assert(observe(s2.entities) == observe(w.entities));
    lemma_apply_events_observational(s2, w, evs);
    assert(crate::system::spec_tick(w, time).0 == apply_events(s2, evs));
    assert(crate::system::spec_tick(w, time).1 == evs);
}

/// Applying `RemoveEntity` twice is the same as applying it once: the
/// second application is a benign no-op.
pub proof fn lemma_remove_idempotent(w: WorldSnap, id: EntityID)
    requires
        wf_snap(w),
    ensures
        apply_event(apply_event(w, Event::RemoveEntity(id)), Event::RemoveEntity(id))
            == apply_event(w, Event::RemoveEntity(id)),
{
    let s = w.entities;
    lemma_find_index(s, id.0);
    let i = find_index(s, id.0);
    if i >= 0 {
        lemma_find_remove(s, i, id.0);
        assert(find_index(s.remove(i), id.0) < 0);
    }
}

} // verus!
