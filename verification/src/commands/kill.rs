//! The `/kill` command: the entity that goes, and what the sender is told.

use vstd::prelude::*;
use vstd::arithmetic::power::pow;

use crate::commands::{argument, failed, join, Argument, ArgumentKind, CommandError, CommandHandler, CommandPlayer, Route};
use crate::selector::EntitySelector;
use crate::tracker::{removes_first_with_uuid, same_state, tracks_uuid, EntityTracker};

verus! {

/// A kill that happened.
#[derive(Debug)]
pub struct Killed {
    /// The text the sender is told.
    pub message: String,
    /// The players that saw the entity, to which its removal packet goes.
    pub removed_for: Vec<u128>,
}

/// The lowercase hex digit of a value below 16.
pub open spec fn hex_digit(n: int) -> char {
    if n < 10 {
        (48 + n) as char
    } else {
        (87 + n) as char
    }
}

/// The `k`-th hex digit (from the most significant) of a 128-bit value.
pub open spec fn uuid_nibble(u: u128, k: int) -> int {
    (u as int / pow(16, (31 - k) as nat)) % 16
}

/// The hyphenated form of a UUID: 32 lowercase hex digits, most significant
/// first, in groups of 8, 4, 4, 4 and 12 joined by `-`.
pub open spec fn hyphenated_uuid(u: u128) -> Seq<char> {
    Seq::new(
        36,
        |i: int|
            if i == 8 || i == 13 || i == 18 || i == 23 {
                '-'
            } else {
                hex_digit(
                    uuid_nibble(
                        u,
                        if i < 8 {
                            i
                        } else if i < 13 {
                            i - 1
                        } else if i < 18 {
                            i - 2
                        } else if i < 23 {
                            i - 3
                        } else {
                            i - 4
                        },
                    ),
                )
            },
    )
}

/// `uuid::Uuid::from_u128(u).to_string()`: the UUID's `Display`, which is its
/// hyphenated lowercase form.
#[verifier::external_body]
fn uuid_text(u: u128) -> (r: String)
    ensures
        r@ == hyphenated_uuid(u),
{
    uuid::Uuid::from_u128(u).to_string()
}

/// What killing the first entity with a UUID gives: the kill with `ok` as
/// its message when such an entity is tracked, else the failure `err` and
/// no change.
pub open spec fn kill_outcome(
    a: EntityTracker,
    b: EntityTracker,
    uuid: u128,
    r: Result<Killed, CommandError>,
    ok: Seq<char>,
    err: Seq<char>,
) -> bool {
    if tracks_uuid(a, uuid) {
        match r {
            Ok(k) => k.message@ == ok && removes_first_with_uuid(a, b, uuid, k.removed_for@),
            Err(_) => false,
        }
    } else {
        match r {
            Err(CommandError::CommandFailed(m)) => m@ == err && same_state(a, b),
            _ => false,
        }
    }
}

/// Kills the first tracked entity with a UUID.
fn kill_uuid(tracker: &mut EntityTracker, uuid: u128, ok: String, err: String) -> (r: Result<Killed, CommandError>)
    requires
        old(tracker).wf(),
    ensures
        final(tracker).wf(),
        kill_outcome(*old(tracker), *final(tracker), uuid, r, ok@, err@),
        old(tracker).consistent() ==> final(tracker).consistent(),
{
    match tracker.remove_entity_by_uuid(uuid) {
        Some(viewers) => Ok(Killed { message: ok, removed_for: viewers }),
        None => Err(CommandError::CommandFailed(err)),
    }
}

/// `Killed ` and the player's name.
pub open spec fn killed_player_text(name: Seq<char>) -> Seq<char> {
    "Killed "@ + name
}

/// The failure of killing a player that has no tracked entity.
pub open spec fn kill_failed_text() -> Seq<char> {
    "Failed to kill entity"@
}

/// Executor for `/kill`: the sender kills itself.
pub struct KillSelfExecutor;

impl KillSelfExecutor {
    /// Kills the entity of the player that sent the command; a sender that is
    /// not a player gets `InvalidRequirement`.
    pub fn execute(&self, tracker: &mut EntityTracker, player: Option<&CommandPlayer>) -> (r: Result<Killed, CommandError>)
        requires
            old(tracker).wf(),
        ensures
            final(tracker).wf(),
            old(tracker).consistent() ==> final(tracker).consistent(),
            match player {
                None => r matches Err(CommandError::InvalidRequirement) && same_state(*old(tracker), *final(tracker)),
                Some(p) => kill_outcome(
                    *old(tracker),
                    *final(tracker),
                    p.uuid,
                    r,
                    killed_player_text(p.name@),
                    kill_failed_text(),
                ),
            },
    {
        match player {
            None => Err(CommandError::InvalidRequirement),
            Some(p) => {
                proof {
                    reveal_strlit("Killed ");
                    reveal_strlit("Failed to kill entity");
                    reveal_strlit("");
                }
                let ok = join("Killed ", p.name.as_str());
                let err = join("Failed to kill entity", "");
                kill_uuid(tracker, p.uuid, ok, err)
            },
        }
    }
}

/// The outcome of `/kill <target>` for a selector, sent by a player: `@s`
/// kills the player's own entity, a UUID the first entity with it; a player
/// name and the other selectors are not supported yet.
pub open spec fn kill_target_outcome(
    a: EntityTracker,
    b: EntityTracker,
    selector: EntitySelector,
    player: CommandPlayer,
    r: Result<Killed, CommandError>,
) -> bool {
    match selector {
        EntitySelector::CurrentEntity => kill_outcome(a, b, player.uuid, r, killed_player_text(player.name@), kill_failed_text()),
        EntitySelector::Uuid(u) => kill_outcome(
            a,
            b,
            u,
            r,
            "Killed entity "@ + hyphenated_uuid(u),
            "No entity found with UUID "@ + hyphenated_uuid(u),
        ),
        EntitySelector::PlayerName(name) => same_state(a, b) && (r matches Err(CommandError::CommandFailed(m))
            && m@ == "Player lookup by name not yet implemented: "@ + name@),
        _ => same_state(a, b) && (r matches Err(CommandError::CommandFailed(m)) && m@
            == "This selector is not yet implemented"@),
    }
}

/// Executor for `/kill <target>`.
pub struct KillTargetExecutor;

impl KillTargetExecutor {
    /// Kills the target a selector names; a sender that is not a player gets
    /// `InvalidRequirement`.
    pub fn execute(&self, tracker: &mut EntityTracker, selector: EntitySelector, player: Option<&CommandPlayer>) -> (r: Result<Killed, CommandError>)
        requires
            old(tracker).wf(),
        ensures
            final(tracker).wf(),
            old(tracker).consistent() ==> final(tracker).consistent(),
            match player {
                None => r matches Err(CommandError::InvalidRequirement) && same_state(*old(tracker), *final(tracker)),
                Some(p) => kill_target_outcome(*old(tracker), *final(tracker), selector, *p, r),
            },
    {
        let p = match player {
            None => {
                return Err(CommandError::InvalidRequirement);
            },
            Some(p) => p,
        };
        match selector {
            EntitySelector::CurrentEntity => {
                proof {
                    reveal_strlit("Killed ");
                    reveal_strlit("Failed to kill entity");
                    reveal_strlit("");
                }
                let ok = join("Killed ", p.name.as_str());
                let err = join("Failed to kill entity", "");
                kill_uuid(tracker, p.uuid, ok, err)
            },
            EntitySelector::Uuid(u) => {
                let text = uuid_text(u);
                let ok = join("Killed entity ", text.as_str());
                let err = join("No entity found with UUID ", text.as_str());
                kill_uuid(tracker, u, ok, err)
            },
            EntitySelector::PlayerName(name) => {
                let m = join("Player lookup by name not yet implemented: ", name.as_str());
                Err(CommandError::CommandFailed(m))
            },
            _ => Err(failed("This selector is not yet implemented")),
        }
    }
}

/// The executor a `/kill` route runs.
#[derive(Debug, Clone, Copy, PartialEq, Eq, Structural)]
pub enum KillExecutor {
    /// [`KillSelfExecutor`]
    KillSelf,
    /// [`KillTargetExecutor`]
    KillTarget,
}

/// Handler for the "kill" command: `/kill` kills the sender, `/kill
/// <target>` the entity the selector names.
pub fn command_handler() -> (r: CommandHandler<KillExecutor>)
    ensures
        r.names@.len() == 1 && r.names@[0]@ == "kill"@,
        r.description@ == "Kills entities."@,
        r.permission@ == "minecraft:command.kill"@,
        r.routes@.len() == 2,
        r.routes@[0].arguments@.len() == 0,
        r.routes@[0].executor == KillExecutor::KillSelf,
        r.routes@[1].arguments@.len() == 1,
        r.routes@[1].arguments@[0].name@ == "target"@,
        r.routes@[1].arguments@[0].kind == ArgumentKind::EntitySelector,
        r.routes@[1].executor == KillExecutor::KillTarget,
{
    let mut names: Vec<String> = Vec::new();
    names.push("kill".to_owned());
    let mut routes: Vec<Route<KillExecutor>> = Vec::new();
    routes.push(Route { arguments: Vec::new(), executor: KillExecutor::KillSelf });
    let mut target: Vec<Argument> = Vec::new();
    target.push(argument("target", ArgumentKind::EntitySelector));
    routes.push(Route { arguments: target, executor: KillExecutor::KillTarget });
    CommandHandler {
        names,
        description: "Kills entities.".to_owned(),
        permission: "minecraft:command.kill".to_owned(),
        routes,
    }
}

} // verus!
