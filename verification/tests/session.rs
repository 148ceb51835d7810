use moba::component::{EntityID, HeroKind, Hitpoints, Team};
use moba::event::Event;
use moba::game::Game;
use moba::ping::PingStore;
use moba::server::{handshake, server_tick, InboxItem, JoinRequest, PlayerInbox};
use moba::stream::Message;
use moba::vector::Point;

#[test]
fn handshake_accepts_only_connect() {
    let r = handshake(&Message::Connect { name: "Ann".to_string(), team: None }).unwrap();
    assert_eq!(r.0, "Ann".to_string());
    assert_eq!(r.1, None);
    assert_eq!(
        r.2,
        Message::AcceptConnection { message: "Welcome to moba alpha.".to_string() }
    );
    assert!(handshake(&Message::Quit).is_none());
    assert!(handshake(&Message::Ping { id: 3 }).is_none());
}

#[test]
fn joining_an_empty_world() {
    // one joining connection named "Ann": she receives her id and an empty
    // snapshot, and everyone is told about her spawn
    let mut game = Game::new();
    let joins = vec![JoinRequest { name: "Ann".to_string(), team: None }];
    let inboxes: Vec<PlayerInbox> = Vec::new();
    let outcome = server_tick(&mut game, &joins, &inboxes, 1);

    assert_eq!(outcome.joins.len(), 1);
    let jo = &outcome.joins[0];
    assert_eq!(jo.id, EntityID(0));
    assert_eq!(jo.to_joiner.len(), 2);
    assert_eq!(jo.to_joiner[0], Message::SetPlayerEntityID(EntityID(0)));
    assert_eq!(jo.to_joiner[1], Message::Events(Vec::new()));
    assert_eq!(
        jo.announce,
        vec![Event::AddHero {
            id: EntityID(0),
            position: Point { x: 0, y: 0 },
            hero: HeroKind::John,
            name: "Ann".to_string(),
            team: None,
        }]
    );
    assert_eq!(
        outcome.chats,
        vec![Message::ReceiveChat {
            user: "".to_string(),
            message: "Ann has connected!".to_string(),
        }]
    );
    assert_eq!(outcome.replies, Vec::<(EntityID, Message)>::new());
    assert_eq!(outcome.removed, Vec::<EntityID>::new());
    assert_eq!(outcome.broadcast, Vec::<Event>::new());
    assert_eq!(game.players(), vec![EntityID(0)]);
}

#[test]
fn second_joiner_receives_the_world_so_far() {
    let mut game = Game::new();
    let joins = vec![
        JoinRequest { name: "Ann".to_string(), team: None },
        JoinRequest { name: "Bob".to_string(), team: Some(Team(2)) },
    ];
    let inboxes: Vec<PlayerInbox> = Vec::new();
    let outcome = server_tick(&mut game, &joins, &inboxes, 1);
    assert_eq!(outcome.joins.len(), 2);
    assert_eq!(outcome.joins[1].id, EntityID(1));
    // Bob's snapshot already holds Ann
    assert_eq!(
        outcome.joins[1].to_joiner[1],
        Message::Events(vec![Event::AddHero {
            id: EntityID(0),
            position: Point { x: 0, y: 0 },
            hero: HeroKind::John,
            name: "Ann".to_string(),
            team: None,
        }])
    );
}

#[test]
fn pings_are_answered_and_quits_disconnect() {
    let mut game = Game::new();
    let joins = vec![JoinRequest { name: "Ann".to_string(), team: None }];
    server_tick(&mut game, &joins, &Vec::new(), 1);

    let inboxes = vec![PlayerInbox {
        player: EntityID(0),
        items: vec![
            InboxItem::Message(Message::Ping { id: 7 }),
            InboxItem::Message(Message::SendChat { message: "hi".to_string() }),
            InboxItem::Message(Message::Quit),
            InboxItem::Message(Message::Ping { id: 8 }),
        ],
    }];
    let outcome = server_tick(&mut game, &Vec::new(), &inboxes, 1);
    assert_eq!(outcome.replies, vec![(EntityID(0), Message::ReturnPing { id: 7 })]);
    assert_eq!(outcome.removed, vec![EntityID(0)]);
    assert_eq!(outcome.broadcast, vec![Event::RemoveEntity(EntityID(0))]);
    assert_eq!(game.players(), Vec::<EntityID>::new());
}

#[test]
fn commands_apply_before_same_tick_disconnects() {
    // a command sent just before quitting still applies, and the batch
    // lists its events before the disconnect removal
    let mut game = Game::new();
    let joins = vec![JoinRequest { name: "Ann".to_string(), team: None }];
    server_tick(&mut game, &joins, &Vec::new(), 1);

    let inboxes = vec![PlayerInbox {
        player: EntityID(0),
        items: vec![
            InboxItem::Message(Message::Command(moba::command::Command::UseAbility {
                ability_id: 0,
                mouse_position: Some(Point { x: 3000, y: 0 }),
            })),
            InboxItem::Message(Message::Quit),
        ],
    }];
    let outcome = server_tick(&mut game, &Vec::new(), &inboxes, 1);
    assert_eq!(
        outcome.broadcast,
        vec![
            Event::AddProjectile {
                id: EntityID(1),
                position: Point { x: 0, y: 0 },
                target: moba::component::Target::Position(Point { x: 3000, y: 0 }),
                damage: 10,
                team: None,
                owner: EntityID(0),
            },
            Event::RemoveEntity(EntityID(0)),
            Event::EntityMove(EntityID(1), Point { x: 400, y: 0 }),
        ]
    );
    assert_eq!(outcome.removed, vec![EntityID(0)]);
    assert_eq!(game.entity_ids(), vec![EntityID(1)]);
    assert_eq!(game.position_of(EntityID(1)), Some(Point { x: 400, y: 0 }));
}

#[test]
fn read_errors_disconnect() {
    let mut game = Game::new();
    let joins = vec![JoinRequest { name: "Ann".to_string(), team: None }];
    server_tick(&mut game, &joins, &Vec::new(), 1);
    let inboxes = vec![PlayerInbox { player: EntityID(0), items: vec![InboxItem::ReadError] }];
    let outcome = server_tick(&mut game, &Vec::new(), &inboxes, 1);
    assert_eq!(outcome.removed, vec![EntityID(0)]);
    assert_eq!(game.players(), Vec::<EntityID>::new());
}

#[test]
fn replaying_the_full_log_rebuilds_the_observable_world() {
    // drive a server world through joins, a command and several ticks,
    // collecting the full ordered event log a client would receive
    let mut server = Game::new();
    let mut log: Vec<Event> = Vec::new();

    let joins = vec![
        JoinRequest { name: "Ann".to_string(), team: Some(Team(1)) },
        JoinRequest { name: "Bob".to_string(), team: Some(Team(2)) },
    ];
    let outcome = server_tick(&mut server, &joins, &Vec::new(), 1);
    for jo in &outcome.joins {
        for ev in &jo.announce {
            log.push(ev.clone());
        }
    }
    for ev in &outcome.broadcast {
        log.push(ev.clone());
    }

    let inboxes = vec![PlayerInbox {
        player: EntityID(0),
        items: vec![InboxItem::Message(Message::Command(moba::command::Command::SetTarget(
            moba::component::Target::Position(Point { x: 3000, y: 0 }),
        )))],
    }];
    for _ in 0..3 {
        let outcome = server_tick(&mut server, &Vec::new(), &inboxes, 1);
        for ev in &outcome.broadcast {
            log.push(ev.clone());
        }
    }

    // a replica built purely from the ordered log observes the same world
    let mut replica = Game::new();
    replica.run_events(&log);

    assert_eq!(replica.entity_ids(), server.entity_ids());
    for id in server.entity_ids() {
        assert_eq!(replica.kind_of(id), server.kind_of(id));
        assert_eq!(replica.position_of(id), server.position_of(id));
        assert_eq!(replica.hitpoints_of(id), server.hitpoints_of(id));
    }
    // and Ann really moved
    assert_eq!(server.position_of(EntityID(0)), Some(Point { x: 300, y: 0 }));
}

#[test]
fn ping_store_measures_round_trips() {
    let mut store = PingStore::new();
    let id0 = store.start_ping(1000);
    assert_eq!(id0, 0);
    let id1 = store.start_ping(1500);
    assert_eq!(id1, 1);
    assert_eq!(store.end_ping(0, 1350), Some(350));
    // answering the same ping twice yields nothing the second time
    assert_eq!(store.end_ping(0, 1400), None);
    assert_eq!(store.end_ping(9, 1400), None);
    // a clock that went backwards counts as zero
    assert_eq!(store.end_ping(1, 1400), Some(0));
}

#[test]
fn damage_reaches_the_replica_through_the_log() {
    let mut server = Game::new();
    let mut log: Vec<Event> = Vec::new();
    let joins = vec![JoinRequest { name: "A".to_string(), team: Some(Team(1)) }];
    let outcome = server_tick(&mut server, &joins, &Vec::new(), 1);
    for jo in &outcome.joins {
        for ev in &jo.announce {
            log.push(ev.clone());
        }
    }
    for ev in &outcome.broadcast {
        log.push(ev.clone());
    }
    // a hostile projectile arrives by event and hits on the next tick
    let proj = Event::AddProjectile {
        id: EntityID(1),
        position: Point { x: 0, y: 0 },
        target: moba::component::Target::Entity(EntityID(0)),
        damage: 5,
        team: Some(Team(2)),
        owner: EntityID(7),
    };
    server.run_event(proj.clone());
    log.push(proj);
    let events = server.tick(1);
    for ev in &events {
        log.push(ev.clone());
    }

    let mut replica = Game::new();
    replica.run_events(&log);
    assert_eq!(
        replica.hitpoints_of(EntityID(0)),
        Some(Hitpoints { max: 50, current: 45 })
    );
    assert_eq!(replica.hitpoints_of(EntityID(0)), server.hitpoints_of(EntityID(0)));
    assert_eq!(replica.entity_ids(), server.entity_ids());
}
