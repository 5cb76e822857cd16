use steel::behaviour_registry::{Behaviour, BehaviourTypeIds, EntityBehaviourRegistry};
use steel::clientbound::GameProfileProperty;
use steel::commands::kill::{self, KillExecutor, KillSelfExecutor, KillTargetExecutor};
use steel::commands::summon::{self, summon_entity, SummonExecutor};
use steel::commands::{ArgumentKind, CommandError, CommandPlayer};
use steel::difficulty::Difficulty;
use steel::entity::Vec3Bits;
use steel::entity_types::{EntityType, EntityTypeRegistry};
use steel::navigation::{get_neighbors, get_node_type, heuristic, is_diagonal, BlockPos};
use steel::path::PathNodeType;
use steel::selector::EntitySelector;
use steel::snbt::parse_snbt_compound;
use steel::tracker::{EntityTracker, VisibilityChange, DEFAULT_ENTITY_TRACKING_RANGE_BLOCKS, FIRST_ENTITY_ID};
use steel::world::{OnlinePlayer, World};

fn sorted<T: Ord>(mut v: Vec<T>) -> Vec<T> {
    v.sort();
    v
}

fn paired(entity_id: i32) -> VisibilityChange {
    VisibilityChange { entity_id, paired: true }
}

fn unpaired(entity_id: i32) -> VisibilityChange {
    VisibilityChange { entity_id, paired: false }
}

#[test]
fn entity_ids_count_up_from_a_million() {
    let mut t = EntityTracker::new();
    assert_eq!(FIRST_ENTITY_ID, 1_000_000);
    assert_eq!(t.allocate_entity_id(), 1_000_000);
    assert_eq!(t.allocate_entity_id(), 1_000_001);
    assert_eq!(t.allocate_entity_id(), 1_000_002);
    assert_eq!(t.entity_count(), 0);
}

#[test]
fn add_and_look_up_entities() {
    let mut t = EntityTracker::new();
    t.add_entity(10, 0xaa, None);
    t.add_entity(11, 0xbb, Some(128));
    assert_eq!(t.entity_count(), 2);
    assert_eq!(t.entity_ids(), vec![10, 11]);
    assert_eq!(t.get_entity(10).unwrap().tracking_range_blocks(), DEFAULT_ENTITY_TRACKING_RANGE_BLOCKS);
    assert_eq!(t.get_entity(11).unwrap().tracking_range_blocks(), 128);
    assert!(t.get_entity(12).is_none());
    assert_eq!(t.get_entity_by_uuid(0xbb).unwrap().entity_id(), 11);
    assert!(t.get_entity_by_uuid(0xcc).is_none());
    // A second entity under a tracked id replaces the first.
    t.add_entity(10, 0xdd, Some(32));
    assert_eq!(t.entity_count(), 2);
    assert_eq!(t.get_entity(10).unwrap().entity_uuid(), 0xdd);
}

#[test]
fn tracking_pairs_and_unpairs() {
    let mut t = EntityTracker::new();
    t.add_entity(1, 0x10, None);
    t.add_entity(2, 0x20, None);
    t.add_entity(3, 0x30, None);
    // Player 0x20 owns entity 2; it is never paired with it.
    let changes = t.update_tracking(0x20, &[true, true, false]);
    assert_eq!(changes, vec![paired(1)]);
    assert_eq!(sorted(t.visible_to(0x20)), vec![1]);
    assert!(t.get_entity(1).unwrap().is_seen_by(0x20));
    assert!(!t.get_entity(2).unwrap().is_seen_by(0x20));
    // The same decisions again change nothing.
    assert_eq!(t.update_tracking(0x20, &[true, true, false]), vec![]);
    // Entity 1 goes out of range, entity 3 comes in.
    let changes = t.update_tracking(0x20, &[false, true, true]);
    assert_eq!(changes, vec![unpaired(1), paired(3)]);
    assert_eq!(sorted(t.visible_to(0x20)), vec![3]);
    assert_eq!(t.get_entity(3).unwrap().seen_by_players(), vec![0x20]);
    assert_eq!(t.get_entity(1).unwrap().tracking_player_count(), 0);
}

#[test]
fn joining_only_pairs() {
    let mut t = EntityTracker::new();
    t.add_entity(1, 0x10, None);
    t.add_entity(2, 0x20, None);
    assert_eq!(t.update_player_visibility(0x99, &[true, false]), vec![paired(1)]);
    // Unlike a tracking tick, a join never unpairs.
    assert_eq!(t.update_player_visibility(0x99, &[false, false]), vec![]);
    assert_eq!(sorted(t.visible_to(0x99)), vec![1]);
    assert_eq!(t.update_player_visibility(0x99, &[true, true]), vec![paired(2)]);
    assert_eq!(sorted(t.visible_to(0x99)), vec![1, 2]);
}

#[test]
fn removing_an_entity_unpairs_everyone() {
    let mut t = EntityTracker::new();
    t.add_entity(1, 0x10, None);
    t.add_entity(2, 0x20, None);
    t.update_tracking(0xa, &[true, true]);
    t.update_tracking(0xb, &[true, false]);
    assert_eq!(sorted(t.remove_entity(1)), vec![0xa, 0xb]);
    assert_eq!(t.entity_ids(), vec![2]);
    assert_eq!(t.visible_to(0xa), vec![2]);
    assert_eq!(t.visible_to(0xb), Vec::<i32>::new());
    // Removing an id that is not tracked does nothing.
    assert_eq!(t.remove_entity(1), Vec::<u128>::new());
    assert_eq!(t.remove_entity_by_uuid(0x20), Some(vec![0xa]));
    assert_eq!(t.remove_entity_by_uuid(0x20), None);
    assert_eq!(t.entity_count(), 0);
    assert_eq!(t.visible_to(0xa), Vec::<i32>::new());
}

#[test]
fn removing_a_player_forgets_it() {
    let mut t = EntityTracker::new();
    t.add_entity(1, 0x10, None);
    t.add_entity(2, 0x20, None);
    t.add_entity(3, 0x30, None);
    t.update_tracking(0xa, &[true, false, true]);
    assert_eq!(t.remove_player(0xa), vec![1, 3]);
    assert!(!t.get_entity(1).unwrap().is_seen_by(0xa));
    assert!(!t.get_entity(3).unwrap().is_seen_by(0xa));
    assert_eq!(t.visible_to(0xa), Vec::<i32>::new());
    assert_eq!(t.remove_player(0xa), Vec::<i32>::new());
}

#[test]
fn tracker_change_plans() {
    let mut t = EntityTracker::new();
    t.add_entity(1, 0x10, None);
    let p = t.send_changes(0, true, false, false);
    assert!(p.movement.is_none() && p.update_last && !p.send_data);
    t.update_tracking(0xa, &[true]);
    let p = t.send_changes(0, true, false, true);
    assert!(p.send_data);
    assert_eq!(t.entity_at(0).entity_id(), 1);
}

fn player(uuid: u128, name: &str, session: Option<Vec<u8>>, entity_id: i32) -> OnlinePlayer {
    OnlinePlayer {
        uuid,
        name: name.to_string(),
        properties: vec![GameProfileProperty { name: "textures".to_string(), value: "abc".to_string(), signature: None }],
        chat_session: session,
        entity_id: Some(entity_id),
    }
}

#[test]
fn join_and_leave() {
    let mut w = World::new();
    let plan = w.add_player(player(1, "alice", Some(vec![9, 9]), 1_000_000), 160).unwrap();
    assert!(plan.to_new_player.is_empty());
    assert_eq!(plan.recipients, vec![1]);
    assert_eq!(plan.announcement.actions, 0x1f);
    assert_eq!(plan.announcement.entries[0].name.as_deref(), Some("alice"));

    let plan = w.add_player(player(2, "bob", None, 1_000_001), 160).unwrap();
    assert_eq!(plan.to_new_player.len(), 2);
    assert_eq!(plan.to_new_player[0].entries[0].uuid, 1);
    assert_eq!(plan.to_new_player[0].entries[0].name.as_deref(), Some("alice"));
    assert_eq!(plan.to_new_player[1].entries[0].chat_session, Some(vec![9, 9]));
    assert_eq!(plan.recipients, vec![1, 2]);
    assert_eq!(w.player_count(), 2);
    assert_eq!(w.entity_tracker().entity_ids(), vec![1_000_000, 1_000_001]);
    assert_eq!(w.entity_tracker().get_entity(1_000_001).unwrap().tracking_range_blocks(), 160);

    // The same UUID cannot join twice, with an entity id or without one.
    assert!(w.has_player(2) && !w.has_player(3));
    assert!(w.add_player(player(2, "bob", None, 1_000_002), 160).is_none());
    let mut again = player(2, "bob", None, 0);
    again.entity_id = None;
    assert!(w.add_player(again, 160).is_none());

    w.entity_tracker_mut().update_tracking(1, &[false, true]);
    let plan = w.remove_player(2).unwrap();
    assert_eq!(plan.recipients, vec![1]);
    assert_eq!(plan.removal.uuids, vec![2]);
    assert_eq!(plan.name, "bob");
    assert_eq!(plan.entity_removed, Some((1_000_001, vec![1])));
    assert_eq!(w.entity_tracker().entity_ids(), vec![1_000_000]);
    assert!(w.remove_player(2).is_none());
}

fn killer() -> CommandPlayer {
    CommandPlayer { uuid: 0x42, name: "steve".to_string() }
}

fn failure(r: Result<kill::Killed, CommandError>) -> String {
    match r {
        Err(CommandError::CommandFailed(m)) => m,
        _ => panic!("expected a failure"),
    }
}

#[test]
fn kill_self() {
    let mut t = EntityTracker::new();
    t.add_entity(5, 0x42, None);
    t.update_tracking(0x7, &[true]);
    assert!(matches!(KillSelfExecutor.execute(&mut t, None), Err(CommandError::InvalidRequirement)));
    let k = KillSelfExecutor.execute(&mut t, Some(&killer())).unwrap();
    assert_eq!(k.message, "Killed steve");
    assert_eq!(k.removed_for, vec![0x7]);
    assert_eq!(t.entity_count(), 0);
    assert_eq!(failure(KillSelfExecutor.execute(&mut t, Some(&killer()))), "Failed to kill entity");
}

#[test]
fn kill_targets() {
    let target: u128 = 0x123e4567_e89b_12d3_a456_426614174000;
    let mut t = EntityTracker::new();
    t.add_entity(5, target, None);
    t.add_entity(6, 0x42, None);
    let k = KillTargetExecutor.execute(&mut t, EntitySelector::Uuid(target), Some(&killer())).unwrap();
    assert_eq!(k.message, "Killed entity 123e4567-e89b-12d3-a456-426614174000");
    assert_eq!(t.entity_ids(), vec![6]);
    assert_eq!(
        failure(KillTargetExecutor.execute(&mut t, EntitySelector::Uuid(target), Some(&killer()))),
        "No entity found with UUID 123e4567-e89b-12d3-a456-426614174000"
    );
    let k = KillTargetExecutor.execute(&mut t, EntitySelector::CurrentEntity, Some(&killer())).unwrap();
    assert_eq!(k.message, "Killed steve");
    assert_eq!(
        failure(KillTargetExecutor.execute(&mut t, EntitySelector::AllEntities, Some(&killer()))),
        "This selector is not yet implemented"
    );
    assert_eq!(
        failure(KillTargetExecutor.execute(&mut t, EntitySelector::PlayerName("alex".to_string()), Some(&killer()))),
        "Player lookup by name not yet implemented: alex"
    );
    assert!(matches!(
        KillTargetExecutor.execute(&mut t, EntitySelector::CurrentEntity, None),
        Err(CommandError::InvalidRequirement)
    ));
}

fn zombie() -> EntityType {
    EntityType {
        id: 2,
        key: "minecraft:zombie".to_string(),
        summonable: true,
        allowed_in_peaceful: false,
        tracking_range_blocks: 128,
    }
}

fn behaviours() -> EntityBehaviourRegistry {
    EntityBehaviourRegistry::new(
        8,
        BehaviourTypeIds { slime: 3, magma_cube: 4, block_display: 5, item_display: 6, text_display: 7 },
    )
}

fn summon_failure(r: Result<summon::Summoned, CommandError>) -> String {
    match r {
        Err(CommandError::CommandFailed(m)) => m,
        _ => panic!("expected a failure"),
    }
}

#[test]
fn summon_checks_in_order() {
    let mut t = EntityTracker::new();
    let b = behaviours();
    let at = Vec3Bits { x: 0, y: 0, z: 0 };
    let p = killer();
    let mut marker = zombie();
    marker.summonable = false;
    marker.key = "minecraft:marker".to_string();
    assert_eq!(
        summon_failure(summon_entity(&mut t, &b, &marker, at, false, false, None, None, Difficulty::Peaceful, None)),
        "Entity minecraft:marker cannot be summoned"
    );
    assert_eq!(
        summon_failure(summon_entity(&mut t, &b, &zombie(), at, false, false, None, None, Difficulty::Peaceful, None)),
        "Monsters cannot be summoned in Peaceful difficulty"
    );
    assert!(matches!(
        summon_entity(&mut t, &b, &zombie(), at, false, false, None, None, Difficulty::Normal, None),
        Err(CommandError::InvalidRequirement)
    ));
    assert_eq!(
        summon_failure(summon_entity(&mut t, &b, &zombie(), at, false, true, None, None, Difficulty::Normal, Some(&p))),
        "Cannot summon entity outside of world bounds"
    );
    assert_eq!(
        summon_failure(summon_entity(&mut t, &b, &zombie(), at, true, false, None, None, Difficulty::Normal, Some(&p))),
        "Cannot summon entity outside of world border"
    );
    assert_eq!(t.entity_count(), 0);
    assert_eq!(t.allocate_entity_id(), 1_000_000);
}

#[test]
fn summon_creates_a_tracked_mob() {
    let mut t = EntityTracker::new();
    let b = behaviours();
    let at = Vec3Bits { x: 1, y: 2, z: 3 };
    let p = killer();
    let s = summon_entity(&mut t, &b, &zombie(), at, true, true, None, Some((0x42b4_0000, 7)), Difficulty::Normal, Some(&p))
        .unwrap();
    assert_eq!(s.message, "Summoned new zombie");
    let base = s.entity.base();
    assert_eq!(base.entity_id, 1_000_000);
    assert_eq!(base.entity_type_id, 2);
    assert_eq!(base.position, at);
    assert_eq!(base.rotation, (0x42b4_0000, 0));
    assert_eq!((base.uuid >> 76) & 0xf, 4);
    assert_eq!(t.entity_ids(), vec![1_000_000]);
    assert_eq!(t.get_entity(1_000_000).unwrap().entity_uuid(), base.uuid);
    assert_eq!(t.get_entity(1_000_000).unwrap().tracking_range_blocks(), 128);

    let mut slime = zombie();
    slime.id = 3;
    slime.key = "custom:blob".to_string();
    slime.allowed_in_peaceful = true;
    let nbt = parse_snbt_compound("{Glowing:1b,Size:2}").unwrap();
    let s = summon_entity(&mut t, &b, &slime, at, true, true, Some(&nbt), None, Difficulty::Peaceful, Some(&p)).unwrap();
    assert_eq!(s.message, "Summoned new custom:blob");
    assert_eq!(s.entity.base().entity_id, 1_000_001);
    assert_eq!(s.entity.base().shared_flags, 0x40);
    assert_eq!(s.entity.base().rotation, (0, 0));
}

#[test]
fn command_trees() {
    let k = kill::command_handler();
    assert_eq!(k.names, vec!["kill".to_string()]);
    assert_eq!(k.description, "Kills entities.");
    assert_eq!(k.permission, "minecraft:command.kill");
    assert_eq!(k.routes.len(), 2);
    assert!(k.routes[0].arguments.is_empty());
    assert_eq!(k.routes[0].executor, KillExecutor::KillSelf);
    assert_eq!(k.routes[1].arguments[0].name, "target");
    assert_eq!(k.routes[1].arguments[0].kind, ArgumentKind::EntitySelector);
    let s = summon::command_handler();
    assert_eq!(s.names, vec!["summon".to_string()]);
    assert_eq!(s.permission, "minecraft:command.summon");
    assert_eq!(s.routes.len(), 3);
    assert_eq!(s.routes[2].executor, SummonExecutor::WithNbt);
    let kinds: Vec<ArgumentKind> = s.routes[2].arguments.iter().map(|a| a.kind).collect();
    assert_eq!(kinds, vec![ArgumentKind::EntityType, ArgumentKind::Vector3, ArgumentKind::Nbt]);
}

#[test]
fn entity_type_registry() {
    let cow = EntityType { id: 0, key: "minecraft:cow".to_string(), summonable: true, allowed_in_peaceful: true, tracking_range_blocks: 160 };
    let pig = EntityType { id: 1, key: "minecraft:pig".to_string(), summonable: true, allowed_in_peaceful: true, tracking_range_blocks: 160 };
    let r = EntityTypeRegistry::new(vec![cow, pig]);
    assert_eq!(r.len(), 2);
    assert!(!r.is_empty());
    assert_eq!(r.by_id(1).unwrap().key, "minecraft:pig");
    assert!(r.by_id(2).is_none());
    assert!(r.by_id(-1).is_none());
    assert_eq!(r.by_key("minecraft:cow").unwrap().id, 0);
    assert!(r.by_key("cow").is_none());
    assert_eq!(r.get_id(r.by_id(1).unwrap()), 1);
    let ids: Vec<i32> = r.iter().iter().map(|(i, _)| *i).collect();
    assert_eq!(ids, vec![0, 1]);
    assert!(EntityTypeRegistry::new(vec![]).is_empty());
}

#[test]
fn behaviour_registry() {
    let b = behaviours();
    assert_eq!(b.get_behavior(0), Behaviour::Default);
    assert_eq!(b.get_behavior(3), Behaviour::Slime);
    assert_eq!(b.get_behavior(4), Behaviour::Slime);
    assert_eq!(b.get_behavior(6), Behaviour::Display);
    assert_eq!(b.get_behavior(8), Behaviour::Default);
    assert_eq!(b.get_behavior(-1), Behaviour::Default);
}

#[test]
fn walkable_positions() {
    assert_eq!(get_node_type(Some(1), Some(0), Some(0)), PathNodeType::Open);
    assert_eq!(get_node_type(Some(0), Some(0), Some(0)), PathNodeType::Blocked);
    assert_eq!(get_node_type(Some(1), Some(1), Some(0)), PathNodeType::Blocked);
    assert_eq!(get_node_type(Some(1), Some(0), Some(9)), PathNodeType::Blocked);
    assert_eq!(get_node_type(None, Some(0), Some(0)), PathNodeType::Blocked);
    assert_eq!(get_node_type(Some(1), Some(0), None), PathNodeType::Blocked);
}

#[test]
fn neighbours_and_distances() {
    let p = BlockPos { x: 0, y: 64, z: 0 };
    let n = get_neighbors(p);
    assert_eq!(n[0], BlockPos { x: 1, y: 64, z: 0 });
    assert_eq!(n[5], BlockPos { x: 0, y: 63, z: 0 });
    assert_eq!(n[9], BlockPos { x: -1, y: 64, z: -1 });
    assert_eq!(heuristic(p, BlockPos { x: -3, y: 60, z: 5 }), 12);
    assert_eq!(heuristic(BlockPos { x: i32::MIN, y: 0, z: 0 }, BlockPos { x: i32::MAX, y: 0, z: 0 }), u32::MAX as u64);
    assert!(is_diagonal(p, n[6]));
    assert!(!is_diagonal(p, n[0]));
}

#[test]
fn a_whole_tracking_tick() {
    let mut t = EntityTracker::new();
    t.add_entity(1, 0x10, None);
    t.add_entity(2, 0x20, None);
    let (pairings, plans) = t.tick(
        &[0xa, 0x10],
        &[vec![true, true], vec![true, true]],
        &[(true, false, false), (false, false, false)],
    );
    // Player 0x10 owns entity 1.
    assert_eq!(pairings, vec![(0xa, paired(1)), (0xa, paired(2)), (0x10, paired(2))]);
    assert_eq!(plans.len(), 2);
    assert_eq!(plans[0].movement, Some(steel::tracking::MovementPacket::Pos));
    assert!(plans[0].send_data && plans[1].send_data);
    assert_eq!(plans[1].movement, None);
    let (pairings, _) = t.tick(&[0xa], &[vec![false, true]], &[(false, false, false), (false, false, false)]);
    assert_eq!(pairings, vec![(0xa, unpaired(1))]);
    let plans = t.send_all_changes(&[(false, true, false), (false, true, false)]);
    // Nobody sees entity 1 any more: it only remembers the new rotation.
    assert_eq!(plans[0].movement, None);
    assert!(plans[0].update_last && !plans[0].send_data && !plans[0].head_rotation);
    assert_eq!(plans[1].movement, Some(steel::tracking::MovementPacket::Rot));
    assert!(plans[1].head_rotation);
    assert_eq!(t.entity_at(0).tick_count(), 3);
}

#[test]
fn removing_a_fresh_entity_restores_the_tracker() {
    let mut t = EntityTracker::new();
    t.add_entity(1, 0x10, None);
    t.update_tracking(0xa, &[true]);
    let before_ids = t.entity_ids();
    let before_visible = sorted(t.visible_to(0xa));
    t.add_entity(2, 0x20, Some(32));
    assert_eq!(t.remove_entity(2), Vec::<u128>::new());
    assert_eq!(t.entity_ids(), before_ids);
    assert_eq!(sorted(t.visible_to(0xa)), before_visible);
}

#[test]
fn leaving_undoes_joining() {
    let mut w = World::new();
    w.add_player(player(1, "alice", None, 1_000_000), 160).unwrap();
    w.add_player(player(3, "carol", None, 1_000_001), 160).unwrap();
    w.remove_player(3).unwrap();
    assert_eq!(w.player_count(), 1);
    let plan = w.add_player(player(4, "dave", None, 1_000_002), 160).unwrap();
    assert_eq!(plan.recipients, vec![1, 4]);
}
