//! The per-tick decisions of the server's fixed-rate scheduler.
//!
//! The surrounding process owns the sockets: it parks new connections in
//! a join queue, drains each connection's decoded messages into an inbox,
//! and performs the sends this module decides on. Everything the tick
//! decides — ids for joiners, their world snapshots, ping replies,
//! disconnections, command effects and the broadcast event batch — is
//! computed here against the authoritative store.

use vstd::prelude::*;

use crate::command::{command_is_wf, wf_command, Command};
use crate::component::{EntityID, HeroKind, Team};
use crate::event::{clone_event, wf_event, Event};
use crate::game::{
    apply_command, apply_event, apply_events, loading_events, wf_snap, Game,
    WorldSnap,
};
use crate::stream::Message;
use crate::system::{spec_tick, DT_MAX};
use crate::vector::Point;
use vstd::string::StringExecFns;

verus! {

/// A connection that finished its handshake and waits for the next tick.
pub struct JoinRequest {
    pub name: String,
    pub team: Option<Team>,
}

/// What the scheduler decides for one joiner: its entity id, the
/// messages only the joiner receives (its id, then the world snapshot),
/// and the spawn events broadcast to everyone — the joiner included, so
/// it never misses nor duplicates its own spawn.
pub struct JoinOutcome {
    pub id: EntityID,
    pub to_joiner: Vec<Message>,
    pub announce: Vec<Event>,
}

/// One decoded item from a connection's reader: a message, or the
/// terminal read failure.
pub enum InboxItem {
    Message(Message),
    ReadError,
}

/// The messages one connection delivered since the last tick.
pub struct PlayerInbox {
    pub player: EntityID,
    pub items: Vec<InboxItem>,
}

/// Everything one tick asks the process to do on the network.
pub struct TickOutcome {
    pub joins: Vec<JoinOutcome>,
    pub chats: Vec<Message>,
    pub replies: Vec<(EntityID, Message)>,
    pub removed: Vec<EntityID>,
    pub broadcast: Vec<Event>,
}

/// The spawn event a join produces in the given world.
pub open spec fn join_event(w: WorldSnap, jr: JoinRequest) -> Event {
    Event::AddHero {
        id: EntityID(w.next_id as u32),
        position: Point { x: 0, y: 0 },
        hero: HeroKind::John,
        name: jr.name,
        team: jr.team,
    }
}

/// The world after the first `k` joins.
pub open spec fn joins_applied(w: WorldSnap, joins: Seq<JoinRequest>, k: int) -> WorldSnap
    decreases k,
{
    if k <= 0 {
        w
    } else {
        let prev = joins_applied(w, joins, k - 1);
        apply_event(prev, join_event(prev, joins[k - 1]))
    }
}

/// Replies, commands and the disconnect decision that draining one inbox
/// from position `i` yields: pings are answered, commands collected, and
/// a quit or read failure ends the connection, discarding the rest.
pub open spec fn drain_items(player: EntityID, items: Seq<InboxItem>, i: int) -> (
    Seq<(EntityID, Message)>,
    Seq<(Command, EntityID)>,
    bool,
)
    decreases items.len() - i,
{
    if i < 0 || i >= items.len() {
        (Seq::<(EntityID, Message)>::empty(), Seq::<(Command, EntityID)>::empty(), false)
    } else {
        match items[i] {
            InboxItem::ReadError => (
                Seq::<(EntityID, Message)>::empty(),
                Seq::<(Command, EntityID)>::empty(),
                true,
            ),
            InboxItem::Message(m) => match m {
                Message::Quit => (
                    Seq::<(EntityID, Message)>::empty(),
                    Seq::<(Command, EntityID)>::empty(),
                    true,
                ),
                Message::Ping { id } => {
                    let rest = drain_items(player, items, i + 1);
                    (seq![(player, Message::ReturnPing { id })] + rest.0, rest.1, rest.2)
                },
                Message::Command(c) => {
                    let rest = drain_items(player, items, i + 1);
                    (rest.0, seq![(c, player)] + rest.1, rest.2)
                },
                _ => drain_items(player, items, i + 1),
            },
        }
    }
}

/// Draining all inboxes in order: replies and commands in arrival order,
/// and the players whose connection ended.
pub open spec fn drain_all(inboxes: Seq<PlayerInbox>, k: int) -> (
    Seq<(EntityID, Message)>,
    Seq<(Command, EntityID)>,
    Seq<EntityID>,
)
    decreases inboxes.len() - k,
{
    if k < 0 || k >= inboxes.len() {
        (Seq::<(EntityID, Message)>::empty(), Seq::<(Command, EntityID)>::empty(), Seq::<
            EntityID,
        >::empty())
    } else {
        let one = drain_items(inboxes[k].player, inboxes[k].items@, 0);
        let rest = drain_all(inboxes, k + 1);
        (
            one.0 + rest.0,
            one.1 + rest.1,
            (if one.2 {
                seq![inboxes[k].player]
            } else {
                Seq::<EntityID>::empty()
            }) + rest.2,
        )
    }
}

pub open spec fn removal_events_from(removed: Seq<EntityID>, i: int) -> Seq<Event>
    decreases removed.len() - i,
{
    if i < 0 || i >= removed.len() {
        Seq::<Event>::empty()
    } else {
        seq![Event::RemoveEntity(removed[i])] + removal_events_from(removed, i + 1)
    }
}

/// The removal events of the disconnected players, in order.
pub open spec fn removal_events(removed: Seq<EntityID>) -> Seq<Event> {
    removal_events_from(removed, 0)
}

/// The world and emitted events after running the collected commands in
/// order: each well-formed command is applied and its events are run
/// against the store at once; an ill-formed one is rejected outright.
pub open spec fn commands_applied(w: WorldSnap, cmds: Seq<(Command, EntityID)>, k: int) -> (
    WorldSnap,
    Seq<Event>,
)
    decreases k,
{
    if k <= 0 {
        (w, Seq::<Event>::empty())
    } else {
        let prev = commands_applied(w, cmds, k - 1);
        if wf_command(cmds[k - 1].0) {
            let step = apply_command(prev.0, cmds[k - 1].0, cmds[k - 1].1);
            (apply_events(step.0, step.1), prev.1 + step.1)
        } else {
            prev
        }
    }
}

/// Answer a connection's first message: only `Connect` is accepted, and
/// is answered with the welcome; anything else drops the connection
/// without touching world state.
pub fn handshake(first: &Message) -> (r: Option<(String, Option<Team>, Message)>)
    ensures
        match *first {
            Message::Connect { name, team } => match r {
                Some(t) => t.0@ == name@ && t.1 == team && (match t.2 {
                    Message::AcceptConnection { message } => message@
                        == "Welcome to moba alpha."@,
                    _ => false,
                }),
                None => false,
            },
            _ => r is None,
        },
{
    match first {
        Message::Connect { name, team } => Some(
            (
                name.clone(),
                *team,
                Message::AcceptConnection { message: String::from_str("Welcome to moba alpha.") },
            ),
        ),
        _ => None,
    }
}

/// How many inbox items remain from inbox `k` on.
pub open spec fn inbox_total_from(inboxes: Seq<PlayerInbox>, k: int) -> int
    decreases inboxes.len() - k,
{
    if k < 0 || k >= inboxes.len() {
        0
    } else {
        inboxes[k].items@.len() + inbox_total_from(inboxes, k + 1)
    }
}

proof fn lemma_inbox_total_nonneg(inboxes: Seq<PlayerInbox>, k: int)
    ensures
        inbox_total_from(inboxes, k) >= 0,
    decreases inboxes.len() - k,
{
    if 0 <= k < inboxes.len() {
        lemma_inbox_total_nonneg(inboxes, k + 1);
    }
}

proof fn lemma_drain_items_counts(player: EntityID, items: Seq<InboxItem>, i: int)
    requires
        0 <= i <= items.len(),
    ensures
        drain_items(player, items, i).1.len() <= items.len() - i,
    decreases items.len() - i,
{
    if i < items.len() {
        lemma_drain_items_counts(player, items, i + 1);
    }
}

proof fn lemma_drain_all_counts(inboxes: Seq<PlayerInbox>, k: int)
    ensures
        drain_all(inboxes, k).1.len() <= inbox_total_from(inboxes, k),
    decreases inboxes.len() - k,
{
    if 0 <= k < inboxes.len() {
        lemma_drain_all_counts(inboxes, k + 1);
        lemma_drain_items_counts(inboxes[k].player, inboxes[k].items@, 0);
    }
}

/// What the scheduler owes the `j`-th joiner: the id allocated in the
/// world the earlier joins built, its own id first, then the snapshot of
/// that world, and the spawn event announced to everyone.
pub open spec fn join_outcome_ok(
    w0: WorldSnap,
    joins: Seq<JoinRequest>,
    j: int,
    jo: JoinOutcome,
) -> bool {
    let prev = joins_applied(w0, joins, j);
    &&& jo.id == EntityID(prev.next_id as u32)
    &&& jo.announce@ == seq![join_event(prev, joins[j])]
    &&& jo.to_joiner@.len() == 2
    &&& jo.to_joiner@[0] == Message::SetPlayerEntityID(jo.id)
    &&& (match jo.to_joiner@[1] {
        Message::Events(v) => v@ == loading_events(prev.entities),
        _ => false,
    })
}

/// The connection chat announced for the `j`-th joiner.
pub open spec fn chat_ok(joins: Seq<JoinRequest>, j: int, m: Message) -> bool {
    match m {
        Message::ReceiveChat { user, message } => user@ == Seq::<char>::empty() && message@
            == joins[j].name@ + " has connected!"@,
        _ => false,
    }
}

/// One tick of the scheduler's decisions: admit the parked joiners (id,
/// snapshot, spawn announcement, connection chat), drain every inbox
/// (answer pings, collect commands, note quits and dead connections),
/// run the commands, remove the disconnected, then run the simulation
/// pipeline. The returned batch holds the command, removal and pipeline
/// events in that order — the order they were applied to the store, so
/// replicas never diverge; a command from a player who disconnected in
/// the same tick still applies. The id-counter headroom in the
/// precondition leaves every join and every inbox item room to allocate
/// an id.
pub fn server_tick(
    game: &mut Game,
    joins: &Vec<JoinRequest>,
    inboxes: &Vec<PlayerInbox>,
    time: u32,
) -> (outcome: TickOutcome)
    requires
        old(game).wf(),
        1 <= time <= DT_MAX,
        old(game).next_id as int + old(game).entities@.len() + 2 * joins@.len() + 2
            * inbox_total_from(inboxes@, 0) <= u32::MAX,
    ensures
        ({
            let w0 = old(game).snap();
            let w1 = joins_applied(w0, joins@, joins@.len() as int);
            let dr = drain_all(inboxes@, 0);
            let ca = commands_applied(w1, dr.1, dr.1.len() as int);
            let rem_evs = removal_events(dr.2);
            let w3 = apply_events(ca.0, rem_evs);
            let tk = spec_tick(w3, time);
            &&& final(game).snap() == tk.0
            &&& final(game).wf()
            &&& outcome.broadcast@ == ca.1 + rem_evs + tk.1
            &&& outcome.replies@ == dr.0
            &&& outcome.removed@ == dr.2
            &&& outcome.joins@.len() == joins@.len()
            &&& outcome.chats@.len() == joins@.len()
            &&& (forall|j: int|
                0 <= j < joins@.len() ==> join_outcome_ok(w0, joins@, j, #[trigger] outcome.joins@[j]))
            &&& (forall|j: int|
                0 <= j < joins@.len() ==> chat_ok(joins@, j, #[trigger] outcome.chats@[j]))
        }),
{
    let ghost w0 = old(game).snap();
    let ghost dr = drain_all(inboxes@, 0);
    let ghost total = inbox_total_from(inboxes@, 0);
    proof {
        lemma_inbox_total_nonneg(inboxes@, 0);
    }

    // admit the parked joiners
    let mut joins_out: Vec<JoinOutcome> = Vec::new();
    let mut chats: Vec<Message> = Vec::new();
    let nj = joins.len();
    let mut k: usize = 0;
    while k < nj
        invariant
            k <= nj,
            nj == joins@.len(),
            game.wf(),
            game.snap() == joins_applied(w0, joins@, k as int),
            game.next_id as int + game.entities@.len() + 2 * ((nj - k) as int) + 2 * total
                <= u32::MAX,
            total == inbox_total_from(inboxes@, 0),
            total >= 0,
            joins_out@.len() == k as int,
            chats@.len() == k as int,
            forall|j: int| 0 <= j < k ==> join_outcome_ok(w0, joins@, j, #[trigger] joins_out@[j]),
            forall|j: int| 0 <= j < k ==> chat_ok(joins@, j, #[trigger] chats@[j]),
        decreases nj - k,
    {
        let ghost prev = game.snap();
        let snapshot = game.events_for_loading();
        let id = game.next_entity_id();
        proof {
            crate::game::lemma_find_index(game.entities@, id.0);
        }
        let mut tj: Vec<Message> = Vec::new();
        tj.push(Message::SetPlayerEntityID(id));
        tj.push(Message::Events(snapshot));
        let ev = Event::AddHero {
            id,
            position: Point { x: 0, y: 0 },
            hero: HeroKind::John,
            name: joins[k].name.clone(),
            team: joins[k].team,
        };
        proof {
            assert(ev == join_event(prev, joins@[k as int]));
            assert(wf_event(ev));
            assert(!crate::game::has_id(game.entities@, id.0));
        }
        game.run_event(clone_event(&ev));
        proof {
            assert(game.snap() == apply_event(prev, join_event(prev, joins@[k as int])));
            assert(game.snap() == joins_applied(w0, joins@, k as int + 1));
        }
        let mut ann: Vec<Event> = Vec::new();
        ann.push(ev);
        joins_out.push(JoinOutcome { id, to_joiner: tj, announce: ann });
        chats.push(
            Message::ReceiveChat {
                user: String::new(),
                message: joins[k].name.clone().concat(" has connected!"),
            },
        );
        proof {
            assert(join_outcome_ok(w0, joins@, k as int, joins_out@[k as int]));
            assert(chat_ok(joins@, k as int, chats@[k as int]));
        }
        k = k + 1;
    }

    // drain every connection's inbox
    let mut replies: Vec<(EntityID, Message)> = Vec::new();
    let mut cmds: Vec<(Command, EntityID)> = Vec::new();
    let mut removed: Vec<EntityID> = Vec::new();
    let np = inboxes.len();
    let mut p: usize = 0;
    proof {
        lemma_drain_all_counts(inboxes@, 0);
        assert(drain_all(inboxes@, p as int) == dr);
    }
    while p < np
        invariant
            p <= np,
            np == inboxes@.len(),
            dr == drain_all(inboxes@, 0),
            dr.0 == replies@ + drain_all(inboxes@, p as int).0,
            dr.1 == cmds@ + drain_all(inboxes@, p as int).1,
            dr.2 == removed@ + drain_all(inboxes@, p as int).2,
        decreases np - p,
    {
        let pl: EntityID = inboxes[p].player;
        let ghost items = inboxes@[p as int].items@;
        let ghost one = drain_items(pl, items, 0);
        let m_items = inboxes[p].items.len();
        let mut i: usize = 0;
        let mut done: bool = false;
        proof {
            assert(drain_all(inboxes@, p as int).0 == one.0 + drain_all(inboxes@, p as int + 1).0);
            assert(drain_all(inboxes@, p as int).1 == one.1 + drain_all(inboxes@, p as int + 1).1);
            assert(drain_all(inboxes@, p as int).2 == (if one.2 {
                seq![pl]
            } else {
                Seq::<EntityID>::empty()
            }) + drain_all(inboxes@, p as int + 1).2);
            assert(dr.0 == replies@ + (drain_items(pl, items, 0).0 + drain_all(
                inboxes@,
                p as int + 1,
            ).0));
            assert(dr.1 == cmds@ + (drain_items(pl, items, 0).1 + drain_all(
                inboxes@,
                p as int + 1,
            ).1));
        }
        while i < m_items && !done
            invariant
                i <= m_items,
                m_items == items.len(),
                items == inboxes@[p as int].items@,
                pl == inboxes@[p as int].player,
                p < np,
                np == inboxes@.len(),
                dr == drain_all(inboxes@, 0),
                one == drain_items(pl, items, 0),
                !done ==> dr.0 == replies@ + (drain_items(pl, items, i as int).0 + drain_all(
                    inboxes@,
                    p as int + 1,
                ).0),
                !done ==> dr.1 == cmds@ + (drain_items(pl, items, i as int).1 + drain_all(
                    inboxes@,
                    p as int + 1,
                ).1),
                !done ==> one.2 == drain_items(pl, items, i as int).2,
                done ==> dr.0 == replies@ + drain_all(inboxes@, p as int + 1).0,
                done ==> dr.1 == cmds@ + drain_all(inboxes@, p as int + 1).1,
                done ==> one.2 == true,
                dr.2 == removed@ + (if one.2 {
                    seq![pl]
                } else {
                    Seq::<EntityID>::empty()
                }) + drain_all(inboxes@, p as int + 1).2,
            decreases (m_items - i) + (if done {
                0int
            } else {
                1int
            }),
        {
            let ghost r_pre = replies@;
            let ghost c_pre = cmds@;
            let mut advance: bool = true;
            match &inboxes[p].items[i] {
                InboxItem::ReadError => {
                    done = true;
                    advance = false;
                },
                InboxItem::Message(m) => match m {
                    Message::Quit => {
                        done = true;
                        advance = false;
                    },
                    Message::Ping { id } => {
                        replies.push((pl, Message::ReturnPing { id: *id }));
                    },
                    Message::Command(c) => {
                        cmds.push((*c, pl));
                    },
                    _ => {},
                },
            }
            proof {
                let ii = i as int;
                let rest0 = drain_items(pl, items, ii + 1);
                match items[ii] {
                    InboxItem::ReadError => {},
                    InboxItem::Message(m) => match m {
                        Message::Quit => {},
                        Message::Ping { id } => {
                            assert(replies@ =~= r_pre + seq![
                                (pl, Message::ReturnPing { id }),
                            ]);
                            assert(drain_items(pl, items, ii).0 == seq![
                                (pl, Message::ReturnPing { id }),
                            ] + rest0.0);
                            assert(r_pre + (drain_items(pl, items, ii).0 + drain_all(
                                inboxes@,
                                p as int + 1,
                            ).0) =~= replies@ + (rest0.0 + drain_all(inboxes@, p as int + 1).0));
                        },
                        Message::Command(c) => {
                            assert(cmds@ =~= c_pre + seq![(c, pl)]);
                            assert(drain_items(pl, items, ii).1 == seq![(c, pl)] + rest0.1);
                            assert(c_pre + (drain_items(pl, items, ii).1 + drain_all(
                                inboxes@,
                                p as int + 1,
                            ).1) =~= cmds@ + (rest0.1 + drain_all(inboxes@, p as int + 1).1));
                        },
                        _ => {},
                    },
                }
            }
            if advance {
                i = i + 1;
            }
        }
        let ghost rm_pre = removed@;
        if done {
            removed.push(pl);
        }
        proof {
            if done {
                assert(removed@ =~= rm_pre + seq![pl]);
                assert(rm_pre + seq![pl] + drain_all(inboxes@, p as int + 1).2 =~= removed@
                    + drain_all(inboxes@, p as int + 1).2);
            }
            if !done {
                assert(drain_items(pl, items, i as int).0 =~= Seq::<(EntityID, Message)>::empty());
                assert(drain_items(pl, items, i as int).1 =~= Seq::<(Command, EntityID)>::empty());
                assert(replies@ + (drain_items(pl, items, i as int).0 + drain_all(
                    inboxes@,
                    p as int + 1,
                ).0) =~= replies@ + drain_all(inboxes@, p as int + 1).0);
                assert(cmds@ + (drain_items(pl, items, i as int).1 + drain_all(
                    inboxes@,
                    p as int + 1,
                ).1) =~= cmds@ + drain_all(inboxes@, p as int + 1).1);
                assert(one.2 == false);
                assert(dr.2 == removed@ + (Seq::<EntityID>::empty() + drain_all(
                    inboxes@,
                    p as int + 1,
                ).2));
                assert(removed@ + (Seq::<EntityID>::empty() + drain_all(inboxes@, p as int + 1).2)
                    =~= removed@ + drain_all(inboxes@, p as int + 1).2);
            }
        }
        p = p + 1;
    }
    proof {
        assert(drain_all(inboxes@, np as int).0 =~= Seq::<(EntityID, Message)>::empty());
        assert(dr.0 =~= replies@);
        assert(dr.1 =~= cmds@);
        assert(dr.2 =~= removed@);
    }

    // run the collected commands
    let ghost w1 = game.snap();
    let mut broadcast: Vec<Event> = Vec::new();
    let nc = cmds.len();
    let mut t2: usize = 0;
    proof {
        assert(dr.1.len() <= total);
        assert(broadcast@ =~= commands_applied(w1, dr.1, 0).1);
    }
    while t2 < nc
        invariant
            t2 <= nc,
            nc == cmds@.len(),
            cmds@ == dr.1,
            game.wf(),
            game.snap() == commands_applied(w1, dr.1, t2 as int).0,
            broadcast@ == commands_applied(w1, dr.1, t2 as int).1,
            game.next_id as int + game.entities@.len() + 2 * ((nc - t2) as int) <= u32::MAX,
        decreases nc - t2,
    {
        let pair = cmds[t2];
        let c = pair.0;
        let pl = pair.1;
        let ghost snap_pre = game.snap();
        let ghost b_pre = broadcast@;
        if command_is_wf(&c) {
            let es = game.run_command(c, pl);
            game.run_events(&es);
            let ne = es.len();
            let mut q: usize = 0;
            let ghost b_mid = broadcast@;
            while q < ne
                invariant
                    q <= ne,
                    ne == es@.len(),
                    broadcast@ =~= b_mid + es@.take(q as int),
                decreases ne - q,
            {
                broadcast.push(clone_event(&es[q]));
                proof {
                    assert(broadcast@ =~= b_mid + es@.take(q as int + 1));
                }
                q = q + 1;
            }
            proof {
                assert(es@.take(ne as int) =~= es@);
                assert(broadcast@ =~= b_pre + es@);
            }
        }
        proof {
            if wf_command(c) {
                assert(wf_snap(snap_pre));
                crate::game::lemma_find_index(snap_pre.entities, pl.0);
                let stepc = apply_command(snap_pre, c, pl);
                assert(stepc.0.next_id <= snap_pre.next_id + 1);
                assert(stepc.0.entities.len() == snap_pre.entities.len());
                assert(stepc.1.len() <= 1);
                if stepc.1.len() > 0 {
                    assert(stepc.1.len() == 1);
                    let ev0 = stepc.1[0];
                    assert(apply_events(stepc.0, stepc.1) == apply_events(
                        apply_event(stepc.0, ev0),
                        stepc.1.skip(1),
                    ));
                    assert(stepc.1.skip(1) =~= Seq::<Event>::empty());
                    assert(apply_events(stepc.0, stepc.1) == apply_event(stepc.0, ev0));
                    assert(apply_event(stepc.0, ev0).entities.len() <= stepc.0.entities.len() + 1);
                    assert(apply_event(stepc.0, ev0).next_id <= stepc.0.next_id);
                    assert(game.entities@.len() <= snap_pre.entities.len() + 1);
                    assert(game.next_id as int <= snap_pre.next_id + 1);
                } else {
                    assert(stepc.1 =~= Seq::<Event>::empty());
                    assert(apply_events(stepc.0, stepc.1) == stepc.0);
                }
            }
            let step = commands_applied(w1, dr.1, t2 as int + 1);
            assert(broadcast@ =~= step.1);
        }
        t2 = t2 + 1;
    }

    // remove the disconnected
    let ghost ca1 = commands_applied(w1, dr.1, dr.1.len() as int).1;
    let ghost w2 = game.snap();
    let nr = removed.len();
    let mut t: usize = 0;
    while t < nr
        invariant
            t <= nr,
            nr == removed@.len(),
            game.wf(),
            apply_events(w2, removal_events_from(removed@, 0)) == apply_events(
                game.snap(),
                removal_events_from(removed@, t as int),
            ),
            ca1 + removal_events_from(removed@, 0) == broadcast@ + removal_events_from(
                removed@,
                t as int,
            ),
            game.next_id as int + game.entities@.len() <= w2.next_id + w2.entities.len(),
        decreases nr - t,
    {
        let ghost b_pre = broadcast@;
        let ghost snap_pre = game.snap();
        let pl = removed[t];
        game.run_event(Event::RemoveEntity(pl));
        broadcast.push(Event::RemoveEntity(pl));
        proof {
            assert(game.snap() == apply_event(snap_pre, Event::RemoveEntity(pl)));
            crate::game::lemma_find_index(snap_pre.entities, pl.0);
            let fi = crate::game::find_index(snap_pre.entities, pl.0);
            if fi >= 0 {
                assert(game.snap().entities == snap_pre.entities.remove(fi));
                assert(snap_pre.entities.remove(fi).len() == snap_pre.entities.len() - 1);
            } else {
                assert(game.snap() == snap_pre);
            }
            let tt = t as int;
            assert(removal_events_from(removed@, tt) == seq![Event::RemoveEntity(pl)]
                + removal_events_from(removed@, tt + 1));
            assert(removal_events_from(removed@, tt)[0] == Event::RemoveEntity(pl));
            assert(removal_events_from(removed@, tt).skip(1) =~= removal_events_from(
                removed@,
                tt + 1,
            ));
            assert(apply_events(snap_pre, removal_events_from(removed@, tt)) == apply_events(
                game.snap(),
                removal_events_from(removed@, tt + 1),
            ));
            assert(broadcast@ =~= b_pre + seq![Event::RemoveEntity(pl)]);
            assert(b_pre + (seq![Event::RemoveEntity(pl)] + removal_events_from(removed@, tt + 1))
                =~= broadcast@ + removal_events_from(removed@, tt + 1));
        }
        t = t + 1;
    }
    let ghost rem_evs = removal_events(dr.2);
    proof {
        assert(removal_events_from(removed@, nr as int) =~= Seq::<Event>::empty());
        assert(broadcast@ + Seq::<Event>::empty() =~= broadcast@);
        assert(broadcast@ == ca1 + rem_evs);
        assert(game.snap() == apply_events(w2, rem_evs));
    }

    // advance the simulation
    let ghost w3 = game.snap();
    let tick_events = game.tick(time);
    let ghost b3 = broadcast@;
    let nt = tick_events.len();
    let mut t3: usize = 0;
    while t3 < nt
        invariant
            t3 <= nt,
            nt == tick_events@.len(),
            broadcast@ =~= b3 + tick_events@.take(t3 as int),
        decreases nt - t3,
    {
        broadcast.push(clone_event(&tick_events[t3]));
        proof {
            assert(broadcast@ =~= b3 + tick_events@.take(t3 as int + 1));
        }
        t3 = t3 + 1;
    }
    proof {
        assert(tick_events@.take(nt as int) =~= tick_events@);
        assert(broadcast@ =~= (ca1 + rem_evs) + tick_events@);
        assert((ca1 + rem_evs) + tick_events@ =~= ca1 + rem_evs + tick_events@);
    }

    TickOutcome { joins: joins_out, chats, replies, removed, broadcast }
}

} // verus!
