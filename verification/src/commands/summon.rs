//! The `/summon` command: the mob that comes, and what the sender is told.
//!
//! The bounds checks on a summon position compare floats; the caller makes
//! them and hands over the two answers.

use vstd::prelude::*;

use crate::behaviour::EntityBehaviour;
use crate::behaviour_registry::EntityBehaviourRegistry;
use crate::commands::{argument, chars_then, failed, join3, Argument, ArgumentKind, CommandError, CommandHandler, CommandPlayer, Route};
use crate::difficulty::Difficulty;
use crate::entity::{base_fields, fields_after_nbt, flags_after_nbt, MobEntity, Vec3Bits};
use crate::entity_types::EntityType;
use crate::snbt::NbtCompound;
use crate::text::{chars_of, string_of};
use crate::tracker::{is_fresh, same_state, EntityTracker};

verus! {

/// A summon that happened.
pub struct Summoned {
    /// The new mob, now tracked.
    pub entity: MobEntity,
    /// The text the sender is told.
    pub message: String,
}

/// A registry key without the `minecraft:` namespace, if it has it.
pub open spec fn strip_namespace(key: Seq<char>) -> Seq<char> {
    if key.len() >= 10 && key.take(10) == "minecraft:"@ {
        key.skip(10)
    } else {
        key
    }
}

/// The name of an entity type in messages: its key without `minecraft:`.
fn entity_name(key: &str) -> (r: Vec<char>)
    ensures
        r@ == strip_namespace(key@),
{
    proof {
        reveal_strlit("minecraft:");
    }
    let cs = chars_of(key);
    let prefix = chars_of("minecraft:");
    let mut prefixed = cs.len() >= 10;
    let mut i: usize = 0;
    while i < 10 && prefixed
        invariant
            i <= 10,
            prefix@ == "minecraft:"@,
            prefix@.len() == 10,
            prefixed ==> cs@.len() >= 10,
            prefixed ==> forall|j: int| 0 <= j < i ==> cs@[j] == prefix@[j],
            !prefixed ==> !(cs@.len() >= 10 && cs@.take(10) == "minecraft:"@),
        decreases 10 - i,
    {
        if cs[i] != prefix[i] {
            proof {
                if cs@.len() >= 10 && cs@.take(10) == "minecraft:"@ {
                    assert(cs@.take(10)[i as int] == cs@[i as int]);
                }
            }
            prefixed = false;
        }
        i += 1;
    }
    if prefixed {
        assert(cs@.take(10) =~= "minecraft:"@);
        let mut rest: Vec<char> = Vec::new();
        let mut j: usize = 10;
        while j < cs.len()
            invariant
                10 <= j <= cs@.len(),
                rest@ == cs@.subrange(10, j as int),
            decreases cs@.len() - j,
        {
            rest.push(cs[j]);
            assert(cs@.subrange(10, j + 1) == cs@.subrange(10, j as int).push(cs@[j as int]));
            j += 1;
        }
        assert(cs@.skip(10) =~= cs@.subrange(10, cs@.len() as int));
        rest
    } else {
        cs
    }
}

/// Summons a mob of a type at a position for the player that sent the
/// command. In order, it fails when the type cannot be summoned, when it is
/// hostile on Peaceful difficulty, when no player sent the command, when
/// the position is above or below the world (`within_height` is `false`:
/// its y is outside -64 to 320) and when it lies beyond the world border
/// (`within_border` is `false`: its x or z is beyond 29,999,984 either way).
/// Else the mob gets the next network id, a random UUID, the fields of its
/// behaviour, the NBT tags if any, the sender's yaw if it has one, and is
/// tracked with its type's range; the sender is told its type's name.
/// (The caller then pairs it with the players that should see it.)
pub fn summon_entity(
    tracker: &mut EntityTracker,
    behaviours: &EntityBehaviourRegistry,
    entity_type: &EntityType,
    position: Vec3Bits,
    within_height: bool,
    within_border: bool,
    nbt: Option<&NbtCompound>,
    rotation: Option<(u32, u32)>,
    difficulty: Difficulty,
    player: Option<&CommandPlayer>,
) -> (r: Result<Summoned, CommandError>)
    requires
        old(tracker).wf(),
        entity_type.summonable && !(difficulty == Difficulty::Peaceful && !entity_type.allowed_in_peaceful)
            && player is Some && within_height && within_border ==> old(tracker).next_id() < i32::MAX,
    ensures
        final(tracker).wf(),
        if !entity_type.summonable {
            same_state(*old(tracker), *final(tracker)) && (r matches Err(CommandError::CommandFailed(m))
                && m@ == "Entity "@ + entity_type.key@ + " cannot be summoned"@)
        } else if difficulty == Difficulty::Peaceful && !entity_type.allowed_in_peaceful {
            same_state(*old(tracker), *final(tracker)) && (r matches Err(CommandError::CommandFailed(m))
                && m@ == "Monsters cannot be summoned in Peaceful difficulty"@)
        } else if player is None {
            same_state(*old(tracker), *final(tracker)) && r matches Err(CommandError::InvalidRequirement)
        } else if !within_height {
            same_state(*old(tracker), *final(tracker)) && (r matches Err(CommandError::CommandFailed(m))
                && m@ == "Cannot summon entity outside of world bounds"@)
        } else if !within_border {
            same_state(*old(tracker), *final(tracker)) && (r matches Err(CommandError::CommandFailed(m))
                && m@ == "Cannot summon entity outside of world border"@)
        } else {
            &&& r is Ok
            &&& ({
                let s = r->Ok_0;
                let id = old(tracker).next_id();
                let base = s.entity.base_state();
                &&& s.message@ == "Summoned new "@ + strip_namespace(entity_type.key@)
                &&& s.entity.wf()
                &&& base.entity_id == id
                &&& base.entity_type_id == entity_type.id
                &&& base.position == position
                &&& (base.uuid >> 76u128) & 0xf == 4
                &&& base.rotation == match rotation {
                    Some((yaw, _)) => (yaw, 0u32),
                    None => (0u32, 0u32),
                }
                &&& base.flags() == match nbt {
                    Some(n) => flags_after_nbt(0, *n),
                    None => 0u8,
                }
                &&& base.data().fields() == ({
                    let beh = behaviours.get_behavior_spec(entity_type.id);
                    let defined = beh.defined_fields(base_fields());
                    match nbt {
                        Some(n) => beh.read_fields(fields_after_nbt(defined, 0, *n), *n),
                        None => defined,
                    }
                })
                &&& behaviours.get_behavior_spec(entity_type.id).can_write(base.data())
                &&& final(tracker).next_id() == id + 1
                &&& final(tracker).tracking() == old(tracker).tracking()
                &&& final(tracker).ids() == if old(tracker).ids().contains(id) {
                    old(tracker).ids()
                } else {
                    old(tracker).ids().push(id)
                }
                &&& forall|i: int|
                    0 <= i < final(tracker).entities().len() ==> if final(tracker).ids()[i] == id {
                        is_fresh(final(tracker).entities()[i], id, base.uuid, entity_type.tracking_range_blocks)
                    } else {
                        final(tracker).entities()[i] == old(tracker).entities()[i]
                    }
                &&& old(tracker).consistent() && !old(tracker).ids().contains(id) ==> final(tracker).consistent()
                &&& old(tracker).ids_allocated() ==> final(tracker).ids() == old(tracker).ids().push(id)
                    && final(tracker).ids_allocated()
            })
        },
{
    proof {
        reveal_strlit(" cannot be summoned");
        reveal_strlit("Entity ");
    }
    if !entity_type.can_summon() {
        let m = join3("Entity ", entity_type.key.as_str(), " cannot be summoned");
        return Err(CommandError::CommandFailed(m));
    }
    if difficulty.is_peaceful() && !entity_type.is_allowed_in_peaceful() {
        return Err(failed("Monsters cannot be summoned in Peaceful difficulty"));
    }
    if player.is_none() {
        return Err(CommandError::InvalidRequirement);
    }
    if !within_height {
        return Err(failed("Cannot summon entity outside of world bounds"));
    }
    if !within_border {
        return Err(failed("Cannot summon entity outside of world border"));
    }
    let entity_id = tracker.allocate_entity_id();
    let behaviour = behaviours.get_behavior(entity_type.id);
    let mut mob = MobEntity::new(entity_id, entity_type.id, position, &behaviour);
    match nbt {
        Some(n) => mob.apply_nbt(n, &behaviour),
        None => {},
    }
    match rotation {
        Some((yaw, _pitch)) => mob.set_rotation(yaw, 0),
        None => {},
    }
    let uuid = mob.base().uuid;
    tracker.add_entity(entity_id, uuid, Some(entity_type.tracking_range_blocks()));
    proof {
        if old(tracker).ids_allocated() {
            if old(tracker).ids().contains(entity_id) {
                let k = choose|k: int| 0 <= k < old(tracker).ids().len() && old(tracker).ids()[k] == entity_id;
                assert(old(tracker).ids()[k] < old(tracker).next_id());
            }
        }
    }
    let name = entity_name(entity_type.key.as_str());
    let all = chars_then("Summoned new ", name.as_slice());
    let message = string_of(all.as_slice());
    Ok(Summoned { entity: mob, message })
}

/// The executor a `/summon` route runs.
#[derive(Debug, Clone, Copy, PartialEq, Eq, Structural)]
pub enum SummonExecutor {
    /// At the sender's position.
    AtSender,
    /// At a given position.
    AtPos,
    /// At a given position, with NBT data.
    WithNbt,
}

/// Handler for the "summon" command: `/summon <entity>` at the sender's
/// position, `/summon <entity> <pos>` at a position, `/summon <entity>
/// <pos> <nbt>` with NBT data.
pub fn command_handler() -> (r: CommandHandler<SummonExecutor>)
    ensures
        r.names@.len() == 1 && r.names@[0]@ == "summon"@,
        r.description@ == "Summons an entity."@,
        r.permission@ == "minecraft:command.summon"@,
        r.routes@.len() == 3,
        r.routes@[0].executor == SummonExecutor::AtSender,
        r.routes@[1].executor == SummonExecutor::AtPos,
        r.routes@[2].executor == SummonExecutor::WithNbt,
        forall|i: int| 0 <= i < 3 ==> (#[trigger] r.routes@[i]).arguments@.len() == i + 1,
        forall|i: int| 0 <= i < 3 ==> (#[trigger] r.routes@[i]).arguments@[0].name@ == "entity"@
            && r.routes@[i].arguments@[0].kind == ArgumentKind::EntityType,
        forall|i: int| 1 <= i < 3 ==> (#[trigger] r.routes@[i]).arguments@[1].name@ == "pos"@
            && r.routes@[i].arguments@[1].kind == ArgumentKind::Vector3,
        r.routes@[2].arguments@[2].name@ == "nbt"@,
        r.routes@[2].arguments@[2].kind == ArgumentKind::Nbt,
{
    let mut names: Vec<String> = Vec::new();
    names.push("summon".to_owned());
    let mut at_sender: Vec<Argument> = Vec::new();
    at_sender.push(argument("entity", ArgumentKind::EntityType));
    let mut at_pos: Vec<Argument> = Vec::new();
    at_pos.push(argument("entity", ArgumentKind::EntityType));
    at_pos.push(argument("pos", ArgumentKind::Vector3));
    let mut with_nbt: Vec<Argument> = Vec::new();
    with_nbt.push(argument("entity", ArgumentKind::EntityType));
    with_nbt.push(argument("pos", ArgumentKind::Vector3));
    with_nbt.push(argument("nbt", ArgumentKind::Nbt));
    let mut routes: Vec<Route<SummonExecutor>> = Vec::new();
    routes.push(Route { arguments: at_sender, executor: SummonExecutor::AtSender });
    routes.push(Route { arguments: at_pos, executor: SummonExecutor::AtPos });
    routes.push(Route { arguments: with_nbt, executor: SummonExecutor::WithNbt });
    CommandHandler {
        names,
        description: "Summons an entity.".to_owned(),
        permission: "minecraft:command.summon".to_owned(),
        routes,
    }
}

} // verus!
