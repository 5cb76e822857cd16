use steel::difficulty::Difficulty;
use steel::entity::Vec3Bits;
use steel::goal::{adjusted_tick_delay, reduced_tick_delay, GoalFlag, GoalFlags};
use steel::goal_selector::{Goal, GoalSelector};
use steel::path::{Path, PathNodeType, PathWaypoint};
use steel::registry::{Item, ItemRegistry, Registry};
use steel::selector::{full_entity_type_key, EntitySelector, EntitySelectorArgument, EntityTypeArgument};
use steel::tracking::{ChangePlan, MovementPacket, TrackedEntity};

struct TestGoal {
    name: &'static str,
    flags: GoalFlags,
    usable: bool,
    ticks: u32,
}

impl Goal<Vec<String>> for TestGoal {
    fn flags(&self) -> GoalFlags {
        self.flags
    }
    fn can_use(&mut self, ctx: &mut Vec<String>) -> bool {
        self.usable || ctx.contains(&format!("enable {}", self.name))
    }
    fn can_continue_to_use(&mut self, ctx: &mut Vec<String>) -> bool {
        self.usable || ctx.contains(&format!("enable {}", self.name))
    }
    fn is_interruptable(&self) -> bool {
        true
    }
    fn requires_update_every_tick(&self) -> bool {
        false
    }
    fn start(&mut self, ctx: &mut Vec<String>) {
        ctx.push(format!("start {}", self.name));
    }
    fn stop(&mut self, ctx: &mut Vec<String>) {
        ctx.push(format!("stop {}", self.name));
    }
    fn tick(&mut self, _ctx: &mut Vec<String>) {
        self.ticks += 1;
    }
}

fn goal(name: &'static str, flags: &[GoalFlag]) -> TestGoal {
    TestGoal { name, flags: GoalFlags::from_flags(flags), usable: true, ticks: 0 }
}

#[test]
fn goal_flag_sets() {
    let mut f = GoalFlags::empty();
    assert!(f.is_empty());
    f.insert(GoalFlag::Move);
    f.insert(GoalFlag::Target);
    assert!(f.contains(GoalFlag::Move) && f.contains(GoalFlag::Target) && !f.contains(GoalFlag::Look));
    assert_eq!(f.bits(), 0b1001);
    assert!(f.intersects(&GoalFlags::from_flag(GoalFlag::Target)));
    assert!(!f.intersects(&GoalFlags::from_flags(&[GoalFlag::Look, GoalFlag::Jump])));
    f.remove(GoalFlag::Move);
    assert_eq!(f.to_vec(), vec![GoalFlag::Target]);
    f.clear();
    assert!(f.is_empty());
    assert_eq!(GoalFlags::default().bits(), 0);
    assert_eq!(GoalFlag::Jump.index(), 2);
    assert_eq!(GoalFlag::from_index(3), Some(GoalFlag::Target));
    assert_eq!(GoalFlag::from_index(4), None);
    let s = GoalFlags::from_flags(&[GoalFlag::Look, GoalFlag::Move, GoalFlag::Look]);
    assert_eq!(s.bits(), 0b0011);
    assert!(s.contains(GoalFlag::Move) && s.contains(GoalFlag::Look));
    assert!(!s.contains(GoalFlag::Jump) && !s.contains(GoalFlag::Target));
}

#[test]
fn tick_delays() {
    assert_eq!(reduced_tick_delay(0), 0);
    assert_eq!(reduced_tick_delay(4), 2);
    assert_eq!(reduced_tick_delay(5), 3);
    assert_eq!(reduced_tick_delay(u32::MAX), 2147483648);
    assert_eq!(adjusted_tick_delay(5, true), 5);
    assert_eq!(adjusted_tick_delay(5, false), 3);
}

#[test]
fn higher_priority_goal_wins_a_shared_flag() {
    let mut s: GoalSelector<TestGoal> = GoalSelector::new();
    s.add_goal::<Vec<String>>(5, goal("stroll", &[GoalFlag::Move]));
    s.add_goal::<Vec<String>>(2, goal("attack", &[GoalFlag::Move, GoalFlag::Look]));
    s.add_goal::<Vec<String>>(8, goal("look", &[GoalFlag::Look]));
    s.add_goal::<Vec<String>>(8, goal("jump", &[GoalFlag::Jump]));
    assert_eq!(s.goal_count(), 4);
    assert_eq!(s.goal_state(0).0, 2);
    assert_eq!(s.goal_at(2).name, "look");
    assert_eq!(s.goal_at(3).name, "jump");
    let mut log = Vec::new();
    s.tick(&mut log);
    assert_eq!(log, vec!["start attack", "start jump"]);
    assert_eq!(s.running_count(), 2);
    assert!(s.goal_state(0).1 && !s.goal_state(1).1 && !s.goal_state(2).1 && s.goal_state(3).1);
    assert_eq!(s.goal_at(0).ticks, 1);
}

#[test]
fn preemption_follows_priority() {
    let mut s: GoalSelector<TestGoal> = GoalSelector::new();
    s.add_goal::<Vec<String>>(5, goal("wander", &[GoalFlag::Move]));
    let flee = TestGoal { name: "flee", flags: GoalFlags::from_flag(GoalFlag::Move), usable: false, ticks: 0 };
    s.add_goal::<Vec<String>>(1, flee);
    let mut log = Vec::new();
    s.tick(&mut log);
    assert_eq!(log, vec!["start wander"]);
    assert!(!s.goal_state(0).1 && s.goal_state(1).1);
    log.push("enable flee".to_string());
    s.tick(&mut log);
    assert_eq!(log, vec!["start wander", "enable flee", "stop wander", "start flee"]);
    assert!(s.goal_state(0).1 && !s.goal_state(1).1);
    s.tick(&mut log);
    assert_eq!(log.len(), 4);
    assert!(s.goal_state(0).1 && !s.goal_state(1).1);
    assert_eq!(s.running_count(), 1);
}

#[test]
fn disabled_flags_stop_goals() {
    let mut s: GoalSelector<TestGoal> = GoalSelector::new();
    s.add_goal::<Vec<String>>(1, goal("walk", &[GoalFlag::Move]));
    let mut log = Vec::new();
    s.tick(&mut log);
    assert_eq!(s.running_count(), 1);
    s.disable_flag(GoalFlag::Move);
    s.tick(&mut log);
    assert_eq!(log, vec!["start walk", "stop walk"]);
    assert_eq!(s.running_count(), 0);
    s.set_flag(GoalFlag::Move, true);
    s.tick(&mut log);
    assert_eq!(s.running_count(), 1);
    s.remove_goals_if(|g: &TestGoal| g.name == "walk", &mut log);
    assert_eq!(s.goal_count(), 0);
    assert_eq!(log.last().map(|l| l.as_str()), Some("stop walk"));
}

#[test]
fn goals_change_while_others_run() {
    let mut s: GoalSelector<TestGoal> = GoalSelector::new();
    s.add_goal::<Vec<String>>(5, goal("wander", &[GoalFlag::Move]));
    s.add_goal::<Vec<String>>(6, goal("look", &[GoalFlag::Look]));
    let mut log = Vec::new();
    s.tick(&mut log);
    assert_eq!(s.running_count(), 2);
    // A goal added before the running ones: the running goals keep their flags.
    let flee = TestGoal { name: "flee", flags: GoalFlags::from_flag(GoalFlag::Move), usable: false, ticks: 0 };
    s.add_goal::<Vec<String>>(1, flee);
    s.tick(&mut log);
    assert!(!s.goal_state(0).1 && s.goal_state(1).1 && s.goal_state(2).1);
    // Removing a running goal stops it and frees its flag for another goal.
    s.remove_goals_if(|g: &TestGoal| g.name == "wander", &mut log);
    assert_eq!(log, vec!["start wander", "start look", "stop wander"]);
    assert_eq!(s.goal_count(), 2);
    assert_eq!(s.running_count(), 1);
    log.push("enable flee".to_string());
    s.tick(&mut log);
    assert_eq!(log.last().map(|l| l.as_str()), Some("start flee"));
    assert!(s.goal_state(0).1 && s.goal_state(1).1);
}

#[test]
fn path_progress() {
    let w = |x: u64| PathWaypoint { position: Vec3Bits { x, y: 0, z: 0 }, node_type: PathNodeType::Open };
    let target = Vec3Bits { x: 9, y: 9, z: 9 };
    let mut p = Path::new(vec![w(1), w(2)], target);
    assert_eq!(p.target(), target);
    assert!(p.has_nodes() && !p.is_done());
    assert_eq!((p.node_count(), p.remaining_nodes()), (2, 2));
    assert_eq!(p.next_position().map(|v| v.x), Some(1));
    p.advance();
    assert_eq!(p.current_node().map(|n| n.position.x), Some(2));
    assert_eq!(p.remaining_path().len(), 1);
    p.advance();
    p.advance();
    assert!(p.is_done());
    assert_eq!(p.remaining_nodes(), 0);
    assert!(p.next_position().is_none());
    assert!(p.remaining_path().is_empty());
    let c = p.clone();
    assert!(c.is_done() && c.node_count() == 2);
    let e = Path::empty(target);
    assert!(e.is_done() && !e.has_nodes());
}

#[test]
fn node_types() {
    assert!(!PathNodeType::Blocked.is_passable());
    assert!(!PathNodeType::Lava.is_passable());
    assert!(!PathNodeType::Fence.is_passable());
    assert!(PathNodeType::Water.is_passable());
    assert_eq!(PathNodeType::Water.malus_value(), Some(8));
    assert_eq!(PathNodeType::Damage.malus_value(), Some(16));
    assert_eq!(PathNodeType::Lava.malus_value(), None);
    assert_eq!(PathNodeType::default(), PathNodeType::Open);
}

#[test]
fn difficulties() {
    assert!(Difficulty::Peaceful.is_peaceful());
    assert!(!Difficulty::Hard.is_peaceful());
    assert_eq!(Difficulty::default(), Difficulty::Normal);
    assert_eq!(Difficulty::Easy.id(), 1);
}

#[test]
fn tracked_entity_viewers() {
    let mut t = TrackedEntity::new(1_000_000, 7, 64);
    assert_eq!(t.tracking_range_blocks(), 64);
    assert!(t.add_player(1));
    assert!(!t.add_player(1));
    assert!(t.add_player(2));
    assert_eq!(t.tracking_player_count(), 2);
    assert!(t.is_seen_by(2));
    assert!(t.remove_player(1));
    assert!(!t.remove_player(1));
    assert_eq!(t.seen_by_players(), vec![2]);
}

#[test]
fn tracking_tick_plans() {
    let mut t = TrackedEntity::new(1_000_000, 7, 64);
    let p = t.send_changes(true, true, false);
    assert_eq!(p, ChangePlan { movement: None, head_rotation: false, update_last: true, send_data: false });
    t.add_player(5);
    let p = t.send_changes(true, true, false);
    assert_eq!(p.movement, Some(MovementPacket::PosRot));
    assert!(p.head_rotation && p.update_last && p.send_data);
    assert_eq!(t.send_changes(true, false, true).movement, Some(MovementPacket::Teleport));
    assert_eq!(t.send_changes(true, false, false).movement, Some(MovementPacket::Pos));
    let p = t.send_changes(false, true, true);
    assert_eq!((p.movement, p.head_rotation), (Some(MovementPacket::Rot), true));
    let p = t.send_changes(false, false, false);
    assert_eq!(p, ChangePlan { movement: None, head_rotation: false, update_last: false, send_data: true });
}

#[test]
fn registries() {
    let a: &'static Item = Box::leak(Box::new(Item { key: "minecraft:stone".to_string() }));
    let b: &'static Item = Box::leak(Box::new(Item { key: "minecraft:dirt".to_string() }));
    let a2: &'static Item = Box::leak(Box::new(Item { key: "minecraft:stone".to_string() }));
    let mut r = ItemRegistry::new();
    assert_eq!(r.register(a), 0);
    assert_eq!(r.register(b), 1);
    assert!(std::ptr::eq(r.by_id(1).unwrap(), b));
    assert!(r.by_id(2).is_none());
    assert!(std::ptr::eq(r.by_key("minecraft:stone").unwrap(), a));
    assert_eq!(r.get_id(a), 0);
    assert_eq!(r.register(a2), 2);
    assert!(std::ptr::eq(r.by_key("minecraft:stone").unwrap(), a2));
    assert_eq!(r.get_id(a), 2);
    assert!(r.by_key("minecraft:air").is_none());
    r.freeze();
    let mut g: Registry<Item> = Registry::new();
    assert_eq!(g.register(b), 0);
    g.freeze();
    assert!(g.by_key("minecraft:dirt").is_some());
}

#[test]
fn entity_selectors() {
    let p = |s: &str| EntitySelectorArgument.parse(&[s, "next"]).map(|(rest, sel)| (rest.len(), sel));
    assert!(matches!(p("@s"), Some((1, EntitySelector::CurrentEntity))));
    assert!(matches!(p("@p"), Some((1, EntitySelector::NearestPlayer))));
    assert!(matches!(p("@a"), Some((1, EntitySelector::AllPlayers))));
    assert!(matches!(p("@r"), Some((1, EntitySelector::RandomPlayer))));
    assert!(matches!(p("@e[type=zombie]"), Some((1, EntitySelector::AllEntities))));
    assert!(matches!(p("@n"), Some((1, EntitySelector::NearestEntity))));
    assert!(p("@x").is_none());
    assert!(p("@").is_none());
    match p("67e55044-10b1-426f-9247-bb680e5fe0c8") {
        Some((1, EntitySelector::Uuid(u))) => assert_eq!(u, 0x67e55044_10b1_426f_9247_bb680e5fe0c8),
        _ => panic!("a uuid"),
    }
    assert!(matches!(p("Steve"), Some((1, EntitySelector::PlayerName(n))) if n == "Steve"));
    assert!(matches!(p("abcdefghijklmnop"), Some((1, EntitySelector::PlayerName(_)))));
    assert!(p("abcdefghijklmnopq").is_none());
    assert!(p("").is_none());
    let none: [&str; 0] = [];
    assert!(EntitySelectorArgument.parse(&none).is_none());
}

#[test]
fn entity_type_keys() {
    assert_eq!(full_entity_type_key("zombie"), "minecraft:zombie");
    assert_eq!(full_entity_type_key("mod:thing"), "mod:thing");
    let keys = vec!["minecraft:cow".to_string(), "minecraft:zombie".to_string()];
    let r = EntityTypeArgument.parse(&["zombie", "x"], &keys).unwrap();
    assert_eq!((r.0.len(), r.1), (1, 1));
    assert!(EntityTypeArgument.parse(&["minecraft:pig"], &keys).is_none());
    let none: [&str; 0] = [];
    assert!(EntityTypeArgument.parse(&none, &keys).is_none());
}

#[test]
fn items_from_blocks() {
    assert_eq!(Item::from_block("minecraft:stone").key, "minecraft:stone");
    assert_eq!(Item::from_block_custom_name("wheat_seeds").key, "minecraft:wheat_seeds");
}

#[test]
fn goal_steps_take_the_answers() {
    let mut s: GoalSelector<TestGoal> = GoalSelector::new();
    s.add_goal::<Vec<String>>(1, goal("a", &[GoalFlag::Move]));
    s.add_goal::<Vec<String>>(2, goal("b", &[GoalFlag::Move, GoalFlag::Look]));
    let mut log = Vec::new();
    s.start_goal(1, false, &mut log);
    assert_eq!(s.running_count(), 0);
    s.start_goal(1, true, &mut log);
    assert!(s.goal_state(1).1);
    s.start_goal(0, true, &mut log);
    assert!(s.goal_state(0).1 && !s.goal_state(1).1);
    assert_eq!(log, vec!["start b", "stop b", "start a"]);
    s.cleanup_goal(0, true, &mut log);
    assert!(s.goal_state(0).1);
    s.cleanup_goal(0, false, &mut log);
    assert!(!s.goal_state(0).1);
    assert_eq!(log.last().map(|l| l.as_str()), Some("stop a"));
    s.start_goal(1, true, &mut log);
    let info = s.debug_info();
    assert_eq!(info.len(), 1);
    assert_eq!((info[0].0, info[0].1.name), (2, "b"));
}
