use moba::command::Command;
use moba::component::{EntityID, EntityKind, HeroKind, Hitpoints, Target, Team};
use moba::event::Event;
use moba::game::Game;
use moba::system::calculate_velocity;
use moba::vector::Point;

fn add_hero(game: &mut Game, id: u32, name: &str, team: Option<Team>) {
    game.run_event(Event::AddHero {
        id: EntityID(id),
        position: Point { x: 0, y: 0 },
        hero: HeroKind::John,
        name: name.to_string(),
        team,
    });
}

#[test]
fn new_world_is_empty() {
    let game = Game::new();
    assert_eq!(game.entity_ids(), Vec::<EntityID>::new());
    assert_eq!(game.players(), Vec::<EntityID>::new());
}

#[test]
fn added_heroes_are_live_players() {
    let mut game = Game::new();
    add_hero(&mut game, 0, "Ann", None);
    add_hero(&mut game, 1, "Bob", Some(Team(2)));
    assert_eq!(game.entity_ids(), vec![EntityID(0), EntityID(1)]);
    assert_eq!(game.players(), vec![EntityID(0), EntityID(1)]);
    assert_eq!(game.kind_of(EntityID(0)), Some(EntityKind::Hero));
    assert_eq!(game.position_of(EntityID(1)), Some(Point { x: 0, y: 0 }));
    assert_eq!(game.hitpoints_of(EntityID(0)), Some(Hitpoints { max: 50, current: 50 }));
}

#[test]
fn adding_a_live_id_again_is_skipped() {
    let mut game = Game::new();
    add_hero(&mut game, 0, "Ann", None);
    add_hero(&mut game, 0, "Imp", None);
    assert_eq!(game.entity_ids(), vec![EntityID(0)]);
}

#[test]
fn removing_twice_is_a_no_op() {
    let mut game = Game::new();
    add_hero(&mut game, 0, "Ann", None);
    game.run_event(Event::RemoveEntity(EntityID(0)));
    assert_eq!(game.entity_ids(), Vec::<EntityID>::new());
    // the second application must change nothing and not fault
    game.run_event(Event::RemoveEntity(EntityID(0)));
    assert_eq!(game.entity_ids(), Vec::<EntityID>::new());
}

#[test]
fn stale_events_are_benign() {
    let mut game = Game::new();
    add_hero(&mut game, 0, "Ann", None);
    game.run_event(Event::DamageEntity { id: EntityID(9), damage: 5 });
    game.run_event(Event::EntityMove(EntityID(9), Point { x: 1, y: 1 }));
    assert_eq!(game.hitpoints_of(EntityID(0)), Some(Hitpoints { max: 50, current: 50 }));
    assert_eq!(game.position_of(EntityID(0)), Some(Point { x: 0, y: 0 }));
}

#[test]
fn damage_event_lowers_hitpoints() {
    let mut game = Game::new();
    add_hero(&mut game, 0, "Ann", None);
    game.run_event(Event::DamageEntity { id: EntityID(0), damage: 12 });
    assert_eq!(game.hitpoints_of(EntityID(0)), Some(Hitpoints { max: 50, current: 38 }));
}

#[test]
fn move_event_relocates() {
    let mut game = Game::new();
    add_hero(&mut game, 0, "Ann", None);
    game.run_event(Event::EntityMove(EntityID(0), Point { x: 90, y: -30 }));
    assert_eq!(game.position_of(EntityID(0)), Some(Point { x: 90, y: -30 }));
}

#[test]
fn snapshot_rebuilds_world_for_late_joiner() {
    let mut game = Game::new();
    add_hero(&mut game, 0, "Ann", Some(Team(1)));
    game.run_event(Event::AddProjectile {
        id: EntityID(1),
        position: Point { x: 5, y: 6 },
        target: Target::Position(Point { x: 100, y: 0 }),
        damage: 10,
        team: None,
        owner: EntityID(0),
    });
    let snapshot = game.events_for_loading();
    assert_eq!(snapshot.len(), 2);
    assert_eq!(
        snapshot[0],
        Event::AddHero {
            id: EntityID(0),
            position: Point { x: 0, y: 0 },
            hero: HeroKind::John,
            name: "Ann".to_string(),
            team: Some(Team(1)),
        }
    );
    assert_eq!(
        snapshot[1],
        Event::AddProjectile {
            id: EntityID(1),
            position: Point { x: 5, y: 6 },
            target: Target::Position(Point { x: 100, y: 0 }),
            damage: 10,
            team: None,
            owner: EntityID(0),
        }
    );
}

#[test]
fn hit_point_query_respects_hitboxes() {
    let mut game = Game::new();
    add_hero(&mut game, 0, "Ann", None);
    assert!(game.entity_contains_point(EntityID(0), 1500, 0));
    assert!(!game.entity_contains_point(EntityID(0), 1501, 0));
    assert!(!game.entity_contains_point(EntityID(7), 0, 0));
}

#[test]
fn use_ability_spawns_projectile_event() {
    let mut game = Game::new();
    add_hero(&mut game, 0, "Ann", Some(Team(1)));
    // the world's id counter continues after replayed ids
    let events = game.run_command(
        Command::UseAbility { ability_id: 0, mouse_position: Some(Point { x: 300, y: 0 }) },
        EntityID(0),
    );
    assert_eq!(events.len(), 1);
    assert_eq!(
        events[0],
        Event::AddProjectile {
            id: EntityID(1),
            position: Point { x: 0, y: 0 },
            target: Target::Position(Point { x: 300, y: 0 }),
            damage: 10,
            team: Some(Team(1)),
            owner: EntityID(0),
        }
    );
    game.run_events(&events);
    assert_eq!(game.kind_of(EntityID(1)), Some(EntityKind::Projectile));
}

#[test]
fn use_ability_without_cursor_is_rejected() {
    let mut game = Game::new();
    add_hero(&mut game, 0, "Ann", None);
    let events = game.run_command(
        Command::UseAbility { ability_id: 0, mouse_position: None },
        EntityID(0),
    );
    assert_eq!(events, Vec::<Event>::new());
    assert_eq!(game.entity_ids(), vec![EntityID(0)]);
}

#[test]
fn commands_from_unknown_entities_are_rejected() {
    let mut game = Game::new();
    let events = game.run_command(Command::SetTarget(Target::Nothing), EntityID(5));
    assert_eq!(events, Vec::<Event>::new());
    assert_eq!(game.entity_ids(), Vec::<EntityID>::new());
}

#[test]
fn velocity_is_capped_by_speed() {
    // a far target: full speed along the axis
    let v = calculate_velocity(
        Point { x: 0, y: 0 },
        Point { x: 3000, y: 0 },
        6000,
        1,
        0,
    );
    assert_eq!((v.vector.x, v.vector.y), (6000, 0));
}

#[test]
fn velocity_is_capped_by_remaining_distance() {
    // a near target: capped so one second of travel lands exactly on it
    let v = calculate_velocity(Point { x: 0, y: 0 }, Point { x: 30, y: 40 }, 6000, 60, 0);
    assert_eq!((v.vector.x, v.vector.y), (30, 40));
}

#[test]
fn velocity_is_zero_within_range() {
    let v = calculate_velocity(Point { x: 0, y: 0 }, Point { x: 500, y: 0 }, 6000, 1, 500);
    assert_eq!((v.vector.x, v.vector.y), (0, 0));
    let w = calculate_velocity(Point { x: 0, y: 0 }, Point { x: 0, y: 0 }, 6000, 1, 0);
    assert_eq!((w.vector.x, w.vector.y), (0, 0));
}

#[test]
fn tick_moves_a_unit_toward_its_goal_without_overshoot() {
    // 100 world units away, 200 units/s, dt = 1/60 s: one tick covers
    // 200/60 units = 100 subunits, far short of the goal
    let mut game = Game::new();
    add_hero(&mut game, 0, "Ann", None);
    let events = game.run_command(
        Command::SetTarget(Target::Position(Point { x: 3000, y: 0 })),
        EntityID(0),
    );
    assert_eq!(events, Vec::<Event>::new());
    let tick_events = game.tick(1);
    assert_eq!(tick_events, vec![Event::EntityMove(EntityID(0), Point { x: 100, y: 0 })]);
    assert_eq!(game.position_of(EntityID(0)), Some(Point { x: 100, y: 0 }));
}

#[test]
fn projectile_hits_its_colliding_target() {
    // entity A (team 1, 50 hp) and projectile P (damage 5, owner B) collide
    let mut game = Game::new();
    add_hero(&mut game, 1, "A", Some(Team(1)));
    game.run_event(Event::AddProjectile {
        id: EntityID(2),
        position: Point { x: 0, y: 0 },
        target: Target::Entity(EntityID(1)),
        damage: 5,
        team: None,
        owner: EntityID(9),
    });
    let events = game.tick(1);
    assert_eq!(
        events,
        vec![
            Event::DamageEntity { id: EntityID(1), damage: 5 },
            Event::RemoveEntity(EntityID(2)),
        ]
    );
    assert_eq!(game.hitpoints_of(EntityID(1)), Some(Hitpoints { max: 50, current: 45 }));
    assert_eq!(game.entity_ids(), vec![EntityID(1)]);
}

#[test]
fn shared_team_zero_does_not_block_damage() {
    // both carry team 0: unaligned, so the projectile still hits
    let mut game = Game::new();
    add_hero(&mut game, 1, "A", Some(Team(0)));
    game.run_event(Event::AddProjectile {
        id: EntityID(2),
        position: Point { x: 0, y: 0 },
        target: Target::Entity(EntityID(1)),
        damage: 5,
        team: Some(Team(0)),
        owner: EntityID(9),
    });
    let events = game.tick(1);
    assert_eq!(
        events,
        vec![
            Event::DamageEntity { id: EntityID(1), damage: 5 },
            Event::RemoveEntity(EntityID(2)),
        ]
    );
    assert_eq!(game.hitpoints_of(EntityID(1)), Some(Hitpoints { max: 50, current: 45 }));
}

#[test]
fn projectile_never_hits_its_own_team() {
    let mut game = Game::new();
    add_hero(&mut game, 1, "A", Some(Team(1)));
    game.run_event(Event::AddProjectile {
        id: EntityID(2),
        position: Point { x: 0, y: 0 },
        target: Target::Entity(EntityID(1)),
        damage: 5,
        team: Some(Team(1)),
        owner: EntityID(9),
    });
    let events = game.tick(1);
    assert_eq!(events, Vec::<Event>::new());
    assert_eq!(game.hitpoints_of(EntityID(1)), Some(Hitpoints { max: 50, current: 50 }));
}

#[test]
fn projectile_never_hits_its_owner() {
    let mut game = Game::new();
    add_hero(&mut game, 1, "A", None);
    game.run_event(Event::AddProjectile {
        id: EntityID(2),
        position: Point { x: 0, y: 0 },
        target: Target::Entity(EntityID(1)),
        damage: 5,
        team: None,
        owner: EntityID(1),
    });
    let events = game.tick(1);
    assert_eq!(events, Vec::<Event>::new());
    assert_eq!(game.hitpoints_of(EntityID(1)), Some(Hitpoints { max: 50, current: 50 }));
}

#[test]
fn attacker_fires_at_entity_target_when_ready() {
    let mut game = Game::new();
    add_hero(&mut game, 0, "Ann", Some(Team(1)));
    add_hero(&mut game, 1, "Bob", Some(Team(2)));
    game.run_event(Event::EntityMove(EntityID(1), Point { x: 900000, y: 0 }));
    let events = game.run_command(Command::SetTarget(Target::Entity(EntityID(1))), EntityID(0));
    assert_eq!(events, Vec::<Event>::new());
    let tick_events = game.tick(1);
    // Ann closes in on Bob and fires one projectile at him
    assert!(tick_events.contains(&Event::AddProjectile {
        id: EntityID(2),
        position: Point { x: 0, y: 0 },
        target: Target::Entity(EntityID(1)),
        damage: 5,
        team: Some(Team(1)),
        owner: EntityID(0),
    }));
}
