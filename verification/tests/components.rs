use moba::component::{
    attack_period, normalize_target, EntityID, HeroKind, Hitbox, Hitpoints, Target, Team,
};
use moba::logic::{can_attack, shortest_distance_between};
use moba::vector::Point;

#[test]
fn hitpoints_start_at_max() {
    let hp = Hitpoints::new_at_max(50);
    assert_eq!(hp.max(), 50);
    assert_eq!(hp.current(), 50);
}

#[test]
fn hitpoints_damage_subtracts() {
    let mut hp = Hitpoints::new_at_max(50);
    hp.damage(5);
    assert_eq!(hp.current(), 45);
    assert_eq!(hp.max(), 50);
}

#[test]
fn hitpoints_damage_floors_at_zero() {
    let mut hp = Hitpoints::new_at_max(50);
    hp.damage(60);
    assert_eq!(hp.current(), 0);
}

#[test]
fn hitpoints_raising_max_preserves_deficit() {
    let mut hp = Hitpoints::new_at_max(50);
    hp.damage(5);
    hp.set_max(100);
    assert_eq!(hp.max(), 100);
    assert_eq!(hp.current(), 95);
}

#[test]
fn hitpoints_lowering_max_reclamps() {
    let mut hp = Hitpoints::new_at_max(100);
    hp.set_max(10);
    assert_eq!(hp.max(), 10);
    assert_eq!(hp.current(), 10);
}

#[test]
fn hitpoints_set_current_clamps_to_max() {
    let mut hp = Hitpoints::new_at_max(50);
    hp.set_current(200);
    assert_eq!(hp.current(), 50);
    hp.set_current(7);
    assert_eq!(hp.current(), 7);
}

#[test]
fn hitpoints_stay_in_range_over_sequences() {
    let mut hp = Hitpoints::new_at_max(30);
    let blows = vec![3u16, 40, 0, 12];
    for d in blows {
        hp.damage(d);
        assert!(hp.current() <= hp.max());
    }
    hp.set_max(5);
    assert!(hp.current() <= hp.max());
    hp.set_max(500);
    assert!(hp.current() <= hp.max());
    hp.set_current(1000);
    assert!(hp.current() <= hp.max());
}

#[test]
fn self_target_normalizes_to_nothing() {
    let own = EntityID(3);
    assert_eq!(normalize_target(Target::Entity(EntityID(3)), own), Target::Nothing);
}

#[test]
fn other_targets_survive_normalization() {
    let own = EntityID(3);
    assert_eq!(
        normalize_target(Target::Entity(EntityID(2)), own),
        Target::Entity(EntityID(2))
    );
    let p = Point { x: 7, y: -9 };
    assert_eq!(normalize_target(Target::Position(p), own), Target::Position(p));
    assert_eq!(normalize_target(Target::Nothing, own), Target::Nothing);
}

#[test]
fn hero_stats_are_exact() {
    let john = HeroKind::John;
    assert_eq!(john.radius(), 1500);
    assert_eq!(john.speed(), 6000);
    assert_eq!(john.range(), 6000);
    assert_eq!(john.attack_speed(), 800);
}

#[test]
fn attack_period_of_standard_rate() {
    // 0.8 attacks per second means one attack every 1.25 s = 75 time units
    assert_eq!(attack_period(800), 75);
    // one attack per second
    assert_eq!(attack_period(1000), 60);
}

#[test]
fn can_attack_forbids_shared_nonzero_team() {
    assert!(!can_attack(Some(Team(1)), Some(Team(1)), true));
    assert!(can_attack(Some(Team(1)), Some(Team(2)), true));
    assert!(can_attack(None, Some(Team(1)), true));
    assert!(can_attack(Some(Team(1)), None, true));
    assert!(can_attack(None, None, true));
}

#[test]
fn team_zero_is_unaligned_and_attackable() {
    // a shared team 0 never blocks damage: both sides are unaligned
    assert!(can_attack(Some(Team(0)), Some(Team(0)), true));
    assert!(can_attack(Some(Team(0)), Some(Team(1)), true));
    assert!(can_attack(Some(Team(1)), Some(Team(0)), true));
}

#[test]
fn can_attack_requires_hitpoints() {
    assert!(!can_attack(None, None, false));
    assert!(!can_attack(Some(Team(1)), Some(Team(2)), false));
}

#[test]
fn surface_distance_between_hitboxes() {
    let a = Point { x: 0, y: 0 };
    let b = Point { x: 300, y: 400 };
    assert_eq!(shortest_distance_between(a, b, None, None), 500);
    assert_eq!(
        shortest_distance_between(a, b, Some(Hitbox::new_ball(100)), Some(Hitbox::new_ball(150))),
        250
    );
    // overlapping shapes are at distance zero, never negative
    assert_eq!(
        shortest_distance_between(a, b, Some(Hitbox::new_ball(400)), Some(Hitbox::new_ball(400))),
        0
    );
}

#[test]
fn hitbox_point_membership() {
    let hb = Hitbox::new_ball(1500);
    assert!(hb.contains_point(0, 0, Point { x: 1500, y: 0 }));
    assert!(!hb.contains_point(0, 0, Point { x: 1501, y: 0 }));
    assert!(hb.contains_point(100, 100, Point { x: 100, y: 100 }));
}
