use rand::SeedableRng;
use steel::goal::GoalFlag;
use steel::target::{
    HurtByTargetGoal, MeleeAttackGoal, NearestAttackableTargetGoal, TargetGoal, TargetState, TargetType,
    TargetTypeIds, ATTACK_INTERVAL, DEFAULT_UNSEEN_MEMORY_TICKS,
};

#[test]
fn target_goal_keeps_a_target_in_range_and_sight() {
    let mut g = TargetGoal::new(true, false);
    let mut s = TargetState::new();
    assert!(g.flags().contains(GoalFlag::Target));
    assert!(!g.flags().contains(GoalFlag::Move));
    assert!(!g.can_use());
    assert!(g.must_see() && !g.must_reach());
    assert!(g.can_continue_to_use(Some(true), &s));
    assert!(!g.can_continue_to_use(Some(false), &s));
    assert!(!g.can_continue_to_use(None, &s));
    s.unseen_target_ticks = DEFAULT_UNSEEN_MEMORY_TICKS;
    assert!(g.can_continue_to_use(Some(true), &s));
    g.tick(&mut s, false);
    assert_eq!(s.unseen_target_ticks, 61);
    assert!(!g.can_continue_to_use(Some(true), &s));
    // A goal that need not see its target keeps it.
    let mut blind = TargetGoal::new(false, false).with_unseen_memory_ticks(5);
    assert!(blind.can_continue_to_use(Some(true), &s));
    g.tick(&mut s, true);
    assert_eq!(s.unseen_target_ticks, 0);
    s.target_entity_id = Some(3);
    s.unseen_target_ticks = 9;
    g.start(&mut s);
    assert_eq!((s.target_entity_id, s.unseen_target_ticks), (Some(3), 0));
    g.stop(&mut s);
    assert_eq!(s.target_entity_id, None);
    assert!(g.can_attack(true) && !g.can_attack(false));
}

#[test]
fn hurt_by_targets_the_attacker_once_per_hurt() {
    let mut g = HurtByTargetGoal::new().alert_others().ignore_types(vec!["minecraft:creeper".to_string()]);
    let mut s = TargetState::new();
    assert!(!g.can_use(&s));
    s.last_hurt_time = 100;
    assert!(!g.can_use(&s));
    s.last_hurt_by = Some(77);
    assert!(g.can_use(&s));
    g.start(&mut s);
    assert_eq!(s.target_entity_id, Some(77));
    // The same hurt does not start it again.
    assert!(!g.can_use(&s));
    s.unseen_target_ticks = 300;
    assert!(g.can_continue_to_use(Some(true), &s));
    s.unseen_target_ticks = 301;
    assert!(!g.can_continue_to_use(Some(true), &s));
    g.stop(&mut s);
    assert_eq!(s.target_entity_id, None);
    s.last_hurt_time = 140;
    assert!(g.can_use(&s));
}

#[test]
fn nearest_attackable_searches_every_so_often() {
    let mut rng = rand::rngs::StdRng::seed_from_u64(7);
    let mut g = NearestAttackableTargetGoal::new(TargetType::Player, true);
    // The first search is due at once.
    assert!(g.can_use(&mut rng, Some(12)));
    let mut s = TargetState::new();
    g.start(&mut s);
    assert_eq!(s.target_entity_id, Some(12));
    g.stop(&mut s);
    assert_eq!(s.target_entity_id, None);
    // Without an interval, every tick searches.
    let mut every = NearestAttackableTargetGoal::with_interval(TargetType::AnyMob, 0, false).unseen_memory_ticks(5);
    assert!(!every.can_use(&mut rng, None));
    assert!(every.can_use(&mut rng, Some(4)));
    let mut searches = 0;
    for _ in 0..40 {
        if g.can_use(&mut rng, Some(1)) {
            searches += 1;
        }
    }
    assert!(searches >= 4);
    let ids = TargetTypeIds { player: 155, villager: 139, iron_golem: 67, turtle: 130 };
    assert_eq!(TargetType::Villager.entity_type_id(&ids), Some(139));
    assert_eq!(TargetType::AnyMob.entity_type_id(&ids), None);
}

#[test]
fn melee_attack_timing() {
    let mut g = MeleeAttackGoal::default_speed(false);
    assert_eq!(g.speed_modifier(), 1.0f64.to_bits());
    assert!(g.flags().contains(GoalFlag::Move) && g.flags().contains(GoalFlag::Look));
    assert!(g.requires_update_every_tick());
    // The check runs at most every 20 ticks.
    assert!(!g.can_use(5, Some(true)));
    assert!(g.can_use(20, Some(true)));
    assert!(!g.can_use(30, Some(true)));
    assert!(!g.can_use(40, Some(false)));
    assert!(g.can_continue_to_use(Some(true)));
    assert!(!g.can_continue_to_use(Some(false)));
    assert!(MeleeAttackGoal::new(0, true).can_continue_to_use(Some(false)));
    let mut s = TargetState::new();
    g.start(&mut s);
    assert!(s.is_aggressive);
    s.ticks_since_attack = 9;
    assert!(g.tick(&mut s, Some(true)));
    assert_eq!(s.ticks_since_attack, 0);
    let mut waited = 0;
    while !g.tick(&mut s, Some(true)) {
        waited += 1;
    }
    assert_eq!(waited, ATTACK_INTERVAL - 1);
    assert!(!g.tick(&mut s, None));
    g.stop(&mut s);
    assert!(!s.is_aggressive);
}
