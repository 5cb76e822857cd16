//! Target selection of mob AI: the rules of the target goals and of the
//! melee attack on their integer state.
//!
//! Whether a target is within the follow range (35 blocks) or the melee
//! range (2 blocks), and which entity is nearest, are float questions; the
//! caller answers them and hands over the answers.

use vstd::prelude::*;

use rand::RngExt;

use crate::goal::{GoalFlag, GoalFlags};

verus! {

#[verifier::external_type_specification]
#[verifier::external_body]
pub struct ExStdRng(rand::rngs::StdRng);

/// `rng.random_range(0..n)` with rand's `StdRng`: some number below `n`.
///
/// Which one is up to the generator; only the range is stated.
#[verifier::external_body]
fn random_below(rng: &mut rand::rngs::StdRng, n: u32) -> (r: u32)
    requires
        n > 0,
    ensures
        r < n,
{
    rng.random_range(0..n)
}

/// How long a target may stay out of sight before it is given up.
pub const DEFAULT_UNSEEN_MEMORY_TICKS: u32 = 60;

/// The target part of a mob's AI state.
#[derive(Debug, Clone, Copy, PartialEq, Eq, Structural)]
pub struct TargetState {
    /// The entity the mob targets.
    pub target_entity_id: Option<i32>,
    /// How many ticks the target has been out of sight.
    pub unseen_target_ticks: u32,
    /// Whether the mob is attacking.
    pub is_aggressive: bool,
    /// Ticks since the last attack.
    pub ticks_since_attack: u32,
    /// When the mob was last hurt (0: never).
    pub last_hurt_time: u64,
    /// Who last hurt the mob.
    pub last_hurt_by: Option<i32>,
}

impl TargetState {
    /// No target, never hurt.
    pub fn new() -> (r: Self)
        ensures
            r == (TargetState {
                target_entity_id: None,
                unseen_target_ticks: 0,
                is_aggressive: false,
                ticks_since_attack: 0,
                last_hurt_time: 0,
                last_hurt_by: None,
            }),
    {
        TargetState {
            target_entity_id: None,
            unseen_target_ticks: 0,
            is_aggressive: false,
            ticks_since_attack: 0,
            last_hurt_time: 0,
            last_hurt_by: None,
        }
    }
}

/// The state after a tick of a target goal: the unseen count starts over
/// when the target is in sight and grows by one when it is not.
pub open spec fn after_sight(s: TargetState, can_see: bool) -> TargetState {
    TargetState {
        unseen_target_ticks: if can_see { 0 } else { (s.unseen_target_ticks + 1) as u32 },
        ..s
    }
}

/// Counts the ticks the target has been out of sight (a target that exists
/// counts as seen).
fn track_sight(state: &mut TargetState, can_see: bool)
    requires
        can_see || old(state).unseen_target_ticks < u32::MAX,
    ensures
        *final(state) == after_sight(*old(state), can_see),
{
    if can_see {
        state.unseen_target_ticks = 0;
    } else {
        state.unseen_target_ticks = state.unseen_target_ticks + 1;
    }
}

/// Whether a target may still be followed: there is one, it is within the
/// follow range, and, for a goal that must see it, it has not been out of
/// sight for longer than the memory.
pub open spec fn keeps_target(target: Option<bool>, must_see: bool, memory: u32, state: TargetState) -> bool {
    match target {
        None => false,
        Some(in_range) => in_range && (!must_see || state.unseen_target_ticks <= memory),
    }
}

/// Base target goal that other target goals build on.
#[derive(Debug)]
pub struct TargetGoal {
    must_see: bool,
    must_reach: bool,
    unseen_memory_ticks: u32,
}

impl TargetGoal {
    /// Whether the target must stay in sight.
    pub closed spec fn sees(&self) -> bool {
        self.must_see
    }

    /// Whether the target must be reachable.
    pub closed spec fn reaches(&self) -> bool {
        self.must_reach
    }

    /// How long the target may stay out of sight.
    pub closed spec fn memory(&self) -> u32 {
        self.unseen_memory_ticks
    }

    /// Creates a target goal that remembers an unseen target for 60 ticks.
    pub fn new(must_see: bool, must_reach: bool) -> (r: Self)
        ensures
            r.sees() == must_see,
            r.reaches() == must_reach,
            r.memory() == DEFAULT_UNSEEN_MEMORY_TICKS,
    {
        TargetGoal { must_see, must_reach, unseen_memory_ticks: DEFAULT_UNSEEN_MEMORY_TICKS }
    }

    /// The same goal with another memory for unseen targets.
    pub fn with_unseen_memory_ticks(self, ticks: u32) -> (r: Self)
        ensures
            r.sees() == self.sees(),
            r.reaches() == self.reaches(),
            r.memory() == ticks,
    {
        TargetGoal { unseen_memory_ticks: ticks, ..self }
    }

    /// The goal's flags: only `Target`.
    pub fn flags(&self) -> (r: GoalFlags)
        ensures
            forall|f: GoalFlag| #[trigger] r.has(f) <==> f == GoalFlag::Target,
    {
        GoalFlags::from_flag(GoalFlag::Target)
    }

    /// Whether the current target may still be followed; `target` is `None`
    /// without a target, else whether it is within the follow range.
    pub fn can_continue_to_use_base(&self, target: Option<bool>, state: &TargetState) -> (r: bool)
        ensures
            r == keeps_target(target, self.sees(), self.memory(), *state),
    {
        let in_range = match target {
            Some(b) => b,
            None => {
                return false;
            },
        };
        if !in_range {
            return false;
        }
        if self.must_see {
            let unseen_ticks = state.unseen_target_ticks;
            if unseen_ticks > self.unseen_memory_ticks {
                return false;
            }
        }
        true
    }

    /// Whether an entity may be attacked: it is within the follow range.
    pub fn can_attack(&self, within_follow_range: bool) -> (r: bool)
        ensures
            r == within_follow_range,
    {
        within_follow_range
    }

    /// Whether the target must stay in sight.
    pub fn must_see(&self) -> (r: bool)
        ensures
            r == self.sees(),
    {
        self.must_see
    }

    /// Whether the target must be reachable.
    pub fn must_reach(&self) -> (r: bool)
        ensures
            r == self.reaches(),
    {
        self.must_reach
    }

    /// The base goal never starts by itself.
    pub fn can_use(&mut self) -> (r: bool)
        ensures
            !r,
    {
        false
    }

    /// Continues while the target may be followed.
    pub fn can_continue_to_use(&mut self, target: Option<bool>, state: &TargetState) -> (r: bool)
        ensures
            r == keeps_target(target, old(self).sees(), old(self).memory(), *state),
    {
        self.can_continue_to_use_base(target, state)
    }

    /// Starting forgets how long the target was unseen.
    pub fn start(&mut self, state: &mut TargetState)
        ensures
            *final(state) == (TargetState { unseen_target_ticks: 0, ..*old(state) }),
    {
        state.unseen_target_ticks = 0;
    }

    /// Stopping drops the target.
    pub fn stop(&mut self, state: &mut TargetState)
        ensures
            *final(state) == (TargetState { target_entity_id: None, unseen_target_ticks: 0, ..*old(state) }),
    {
        state.target_entity_id = None;
        state.unseen_target_ticks = 0;
    }

    /// Counts the ticks the target is out of sight.
    pub fn tick(&mut self, state: &mut TargetState, can_see: bool)
        requires
            can_see || old(state).unseen_target_ticks < u32::MAX,
        ensures
            *final(state) == after_sight(*old(state), can_see),
    {
        track_sight(state, can_see);
    }
}

/// Goal that targets the entity that last hurt the mob.
#[derive(Debug)]
pub struct HurtByTargetGoal {
    alert_same_type: bool,
    ignore_entity_types: Vec<String>,
    exclude_from_alert: Vec<String>,
    last_hurt_timestamp: u64,
    attacker_id: Option<i32>,
    unseen_memory_ticks: u32,
}

impl HurtByTargetGoal {
    /// Whether mobs of the same type are alerted too.
    pub closed spec fn alerts(&self) -> bool {
        self.alert_same_type
    }

    /// When the mob was hurt by the attacker it targets.
    pub closed spec fn last_hurt(&self) -> u64 {
        self.last_hurt_timestamp
    }

    /// The attacker the goal targets.
    pub closed spec fn attacker(&self) -> Option<i32> {
        self.attacker_id
    }

    /// How long the attacker may stay out of sight.
    pub closed spec fn memory(&self) -> u32 {
        self.unseen_memory_ticks
    }

    /// The entity types that are not targeted.
    pub closed spec fn ignored(&self) -> Seq<String> {
        self.ignore_entity_types@
    }

    /// The entity types that are not alerted.
    pub closed spec fn excluded(&self) -> Seq<String> {
        self.exclude_from_alert@
    }

    /// Creates the goal: no attacker yet, and an attacker out of sight is
    /// given up after 300 ticks (15 seconds).
    pub fn new() -> (r: Self)
        ensures
            !r.alerts(),
            r.last_hurt() == 0,
            r.attacker() is None,
            r.memory() == 300,
            r.ignored().len() == 0,
            r.excluded().len() == 0,
    {
        HurtByTargetGoal {
            alert_same_type: false,
            ignore_entity_types: Vec::new(),
            exclude_from_alert: Vec::new(),
            last_hurt_timestamp: 0,
            attacker_id: None,
            unseen_memory_ticks: 300,
        }
    }

    /// The same goal, alerting mobs of the same type.
    pub fn alert_others(self) -> (r: Self)
        ensures
            r.alerts(),
            r.last_hurt() == self.last_hurt(),
            r.attacker() == self.attacker(),
            r.memory() == self.memory(),
            r.ignored() == self.ignored(),
            r.excluded() == self.excluded(),
    {
        HurtByTargetGoal { alert_same_type: true, ..self }
    }

    /// The same goal, not alerting the given types.
    pub fn exclude_from_alert(self, types: Vec<String>) -> (r: Self)
        ensures
            r.alerts() == self.alerts(),
            r.last_hurt() == self.last_hurt(),
            r.attacker() == self.attacker(),
            r.memory() == self.memory(),
            r.ignored() == self.ignored(),
            r.excluded() == types@,
    {
        HurtByTargetGoal { exclude_from_alert: types, ..self }
    }

    /// The same goal, not targeting the given types.
    pub fn ignore_types(self, types: Vec<String>) -> (r: Self)
        ensures
            r.alerts() == self.alerts(),
            r.last_hurt() == self.last_hurt(),
            r.attacker() == self.attacker(),
            r.memory() == self.memory(),
            r.ignored() == types@,
            r.excluded() == self.excluded(),
    {
        HurtByTargetGoal { ignore_entity_types: types, ..self }
    }

    /// The goal's flags: only `Target`.
    pub fn flags(&self) -> (r: GoalFlags)
        ensures
            forall|f: GoalFlag| #[trigger] r.has(f) <==> f == GoalFlag::Target,
    {
        GoalFlags::from_flag(GoalFlag::Target)
    }

    /// Starts when the mob was hurt since the goal last took an attacker
    /// (and at all), by an attacker it knows; it takes that attacker and the
    /// time of the hurt.
    pub fn can_use(&mut self, state: &TargetState) -> (r: bool)
        ensures
            r == (state.last_hurt_time != 0 && state.last_hurt_time != old(self).last_hurt()
                && state.last_hurt_by is Some),
            r ==> final(self).attacker() == state.last_hurt_by && final(self).last_hurt() == state.last_hurt_time,
            !r ==> final(self).attacker() == old(self).attacker() && final(self).last_hurt() == old(self).last_hurt(),
            final(self).memory() == old(self).memory(),
            final(self).alerts() == old(self).alerts(),
    {
        let last_hurt = state.last_hurt_time;
        if last_hurt == 0 || last_hurt == self.last_hurt_timestamp {
            return false;
        }
        let attacker = match state.last_hurt_by {
            Some(id) => id,
            None => {
                return false;
            },
        };
        self.attacker_id = Some(attacker);
        self.last_hurt_timestamp = last_hurt;
        true
    }

    /// Continues while the attacker is within the follow range and has not
    /// been out of sight for longer than the memory.
    pub fn can_continue_to_use(&mut self, target: Option<bool>, state: &TargetState) -> (r: bool)
        ensures
            r == keeps_target(target, true, old(self).memory(), *state),
    {
        let in_range = match target {
            Some(b) => b,
            None => {
                return false;
            },
        };
        if !in_range {
            return false;
        }
        if state.unseen_target_ticks > self.unseen_memory_ticks {
            return false;
        }
        true
    }

    /// Starting targets the attacker.
    pub fn start(&mut self, state: &mut TargetState)
        ensures
            *final(state) == (TargetState {
                target_entity_id: old(self).attacker(),
                unseen_target_ticks: 0,
                ..*old(state)
            }),
    {
        state.target_entity_id = self.attacker_id;
        state.unseen_target_ticks = 0;
    }

    /// Stopping drops the target and the attacker.
    pub fn stop(&mut self, state: &mut TargetState)
        ensures
            *final(state) == (TargetState { target_entity_id: None, ..*old(state) }),
            final(self).attacker() is None,
            final(self).last_hurt() == old(self).last_hurt(),
            final(self).memory() == old(self).memory(),
    {
        state.target_entity_id = None;
        self.attacker_id = None;
    }

    /// Counts the ticks the attacker is out of sight.
    pub fn tick(&mut self, state: &mut TargetState, can_see: bool)
        requires
            can_see || old(state).unseen_target_ticks < u32::MAX,
        ensures
            *final(state) == after_sight(*old(state), can_see),
    {
        track_sight(state, can_see);
    }
}

/// The kind of entity a mob hunts.
#[derive(Debug, Clone, Copy, PartialEq, Eq, Structural)]
pub enum TargetType {
    /// Players
    Player,
    /// Villagers
    Villager,
    /// Iron golems
    IronGolem,
    /// Turtles
    Turtle,
    /// Any mob
    AnyMob,
}

/// The entity type ids of the hunted kinds.
#[derive(Debug, Clone, Copy)]
pub struct TargetTypeIds {
    pub player: i32,
    pub villager: i32,
    pub iron_golem: i32,
    pub turtle: i32,
}

impl TargetType {
    /// The entity type a kind names; any mob names none.
    pub fn entity_type_id(&self, ids: &TargetTypeIds) -> (r: Option<i32>)
        ensures
            r == match *self {
                TargetType::Player => Some(ids.player),
                TargetType::Villager => Some(ids.villager),
                TargetType::IronGolem => Some(ids.iron_golem),
                TargetType::Turtle => Some(ids.turtle),
                TargetType::AnyMob => None,
            },
    {
        match self {
            TargetType::Player => Some(ids.player),
            TargetType::Villager => Some(ids.villager),
            TargetType::IronGolem => Some(ids.iron_golem),
            TargetType::Turtle => Some(ids.turtle),
            TargetType::AnyMob => None,
        }
    }
}

/// Goal that targets the nearest entity of a kind.
#[derive(Debug)]
pub struct NearestAttackableTargetGoal {
    target_type: TargetType,
    random_interval: u32,
    must_see: bool,
    must_reach: bool,
    unseen_memory_ticks: u32,
    ticks_until_search: u32,
    found_target: Option<i32>,
}

impl NearestAttackableTargetGoal {
    /// The kind hunted.
    pub closed spec fn kind(&self) -> TargetType {
        self.target_type
    }

    /// The searches come at most every this many ticks (0: every tick).
    pub closed spec fn interval(&self) -> u32 {
        self.random_interval
    }

    /// Whether the target must stay in sight.
    pub closed spec fn sees(&self) -> bool {
        self.must_see
    }

    /// Whether the target must be reachable.
    pub closed spec fn reaches(&self) -> bool {
        self.must_reach
    }

    /// How long the target may stay out of sight.
    pub closed spec fn memory(&self) -> u32 {
        self.unseen_memory_ticks
    }

    /// Ticks left before the next search.
    pub closed spec fn wait(&self) -> u32 {
        self.ticks_until_search
    }

    /// The target the last search found.
    pub closed spec fn found(&self) -> Option<i32> {
        self.found_target
    }

    /// The kind hunted.
    pub fn target_type(&self) -> (r: TargetType)
        ensures
            r == self.kind(),
    {
        self.target_type
    }

    /// Creates the goal, searching about every 10 ticks and remembering an
    /// unseen target for 60 ticks.
    pub fn new(target_type: TargetType, must_see: bool) -> (r: Self)
        ensures
            r.kind() == target_type,
            r.interval() == 10,
            r.sees() == must_see,
            !r.reaches(),
            r.memory() == 60,
            r.wait() == 0,
            r.found() is None,
    {
        NearestAttackableTargetGoal {
            target_type,
            random_interval: 10,
            must_see,
            must_reach: false,
            unseen_memory_ticks: 60,
            ticks_until_search: 0,
            found_target: None,
        }
    }

    /// Creates the goal with another search interval.
    pub fn with_interval(target_type: TargetType, random_interval: u32, must_see: bool) -> (r: Self)
        ensures
            r.kind() == target_type,
            r.interval() == random_interval,
            r.sees() == must_see,
            !r.reaches(),
            r.memory() == 60,
            r.wait() == 0,
            r.found() is None,
    {
        NearestAttackableTargetGoal {
            target_type,
            random_interval,
            must_see,
            must_reach: false,
            unseen_memory_ticks: 60,
            ticks_until_search: 0,
            found_target: None,
        }
    }

    /// The same goal, requiring the target to be reachable or not.
    pub fn must_reach(self, must_reach: bool) -> (r: Self)
        ensures
            r.reaches() == must_reach,
            r.kind() == self.kind(),
            r.interval() == self.interval(),
            r.sees() == self.sees(),
            r.memory() == self.memory(),
            r.wait() == self.wait(),
            r.found() == self.found(),
    {
        NearestAttackableTargetGoal { must_reach, ..self }
    }

    /// The same goal with another memory for unseen targets.
    pub fn unseen_memory_ticks(self, ticks: u32) -> (r: Self)
        ensures
            r.memory() == ticks,
            r.kind() == self.kind(),
            r.interval() == self.interval(),
            r.sees() == self.sees(),
            r.reaches() == self.reaches(),
            r.wait() == self.wait(),
            r.found() == self.found(),
    {
        NearestAttackableTargetGoal { unseen_memory_ticks: ticks, ..self }
    }

    /// The goal's flags: only `Target`.
    pub fn flags(&self) -> (r: GoalFlags)
        ensures
            forall|f: GoalFlag| #[trigger] r.has(f) <==> f == GoalFlag::Target,
    {
        GoalFlags::from_flag(GoalFlag::Target)
    }

    /// Searches for a target when a search is due, `nearest` being the
    /// nearest entity of the kind within the follow range (the caller's
    /// query). With an interval, the wait counts down and a search is due
    /// when it reaches zero; then the next wait is drawn below the interval.
    /// Starts when the search found something.
    pub fn can_use(&mut self, rng: &mut rand::rngs::StdRng, nearest: Option<i32>) -> (r: bool)
        ensures
            final(self).kind() == old(self).kind(),
            final(self).interval() == old(self).interval(),
            final(self).sees() == old(self).sees(),
            final(self).memory() == old(self).memory(),
            ({
                let waited = if old(self).wait() > 0 { (old(self).wait() - 1) as u32 } else { 0u32 };
                if old(self).interval() > 0 && waited > 0 {
                    !r && final(self).wait() == waited && final(self).found() == old(self).found()
                } else {
                    &&& r == nearest is Some
                    &&& final(self).found() == nearest
                    &&& old(self).interval() > 0 ==> final(self).wait() < old(self).interval()
                    &&& old(self).interval() == 0 ==> final(self).wait() == old(self).wait()
                }
            }),
    {
        if self.random_interval > 0 {
            self.ticks_until_search = if self.ticks_until_search > 0 {
                self.ticks_until_search - 1
            } else {
                0
            };
            if self.ticks_until_search > 0 {
                return false;
            }
            self.ticks_until_search = random_below(rng, self.random_interval);
        }
        self.found_target = nearest;
        self.found_target.is_some()
    }

    /// Whether the target may still be followed.
    fn is_valid_target(&self, target: Option<bool>, state: &TargetState) -> (r: bool)
        ensures
            r == keeps_target(target, self.sees(), self.memory(), *state),
    {
        let in_range = match target {
            Some(b) => b,
            None => {
                return false;
            },
        };
        if !in_range {
            return false;
        }
        if self.must_see {
            let unseen = state.unseen_target_ticks;
            if unseen > self.unseen_memory_ticks {
                return false;
            }
        }
        true
    }

    /// Continues while the target may be followed.
    pub fn can_continue_to_use(&mut self, target: Option<bool>, state: &TargetState) -> (r: bool)
        ensures
            r == keeps_target(target, old(self).sees(), old(self).memory(), *state),
    {
        self.is_valid_target(target, state)
    }

    /// Starting targets what the search found.
    pub fn start(&mut self, state: &mut TargetState)
        ensures
            *final(state) == (TargetState {
                target_entity_id: if old(self).found() is Some {
                    old(self).found()
                } else {
                    old(state).target_entity_id
                },
                unseen_target_ticks: 0,
                ..*old(state)
            }),
    {
        if let Some(target_id) = self.found_target {
            state.target_entity_id = Some(target_id);
        }
        state.unseen_target_ticks = 0;
    }

    /// Stopping drops the target and what the search found.
    pub fn stop(&mut self, state: &mut TargetState)
        ensures
            *final(state) == (TargetState { target_entity_id: None, ..*old(state) }),
            final(self).found() is None,
            final(self).wait() == old(self).wait(),
    {
        state.target_entity_id = None;
        self.found_target = None;
    }

    /// Counts the ticks the target is out of sight.
    pub fn tick(&mut self, state: &mut TargetState, can_see: bool)
        requires
            can_see || old(state).unseen_target_ticks < u32::MAX,
        ensures
            *final(state) == after_sight(*old(state), can_see),
    {
        track_sight(state, can_see);
    }
}

/// Ticks between two melee attacks.
pub const ATTACK_INTERVAL: u32 = 20;

/// Ticks between two checks of whether the attack may start.
pub const CAN_USE_COOLDOWN: u64 = 20;

/// Goal for melee attacking a target: its timing and its decisions (the
/// walking towards the target is the caller's, with floats).
#[derive(Debug)]
pub struct MeleeAttackGoal {
    speed_modifier: u64,
    follow_even_if_not_seen: bool,
    ticks_until_next_attack: u32,
    last_can_use_check: u64,
}

impl MeleeAttackGoal {
    /// The walking speed modifier (IEEE-754 bits of an `f64`).
    pub closed spec fn speed(&self) -> u64 {
        self.speed_modifier
    }

    /// Whether the target is followed even out of range.
    pub closed spec fn follows_unseen(&self) -> bool {
        self.follow_even_if_not_seen
    }

    /// Ticks left before the next attack.
    pub closed spec fn cooldown(&self) -> u32 {
        self.ticks_until_next_attack
    }

    /// The tick of the last check of whether the attack may start.
    pub closed spec fn last_check(&self) -> u64 {
        self.last_can_use_check
    }

    /// Creates the goal, ready to attack.
    pub fn new(speed_modifier: u64, follow_even_if_not_seen: bool) -> (r: Self)
        ensures
            r.speed() == speed_modifier,
            r.follows_unseen() == follow_even_if_not_seen,
            r.cooldown() == 0,
            r.last_check() == 0,
    {
        MeleeAttackGoal { speed_modifier, follow_even_if_not_seen, ticks_until_next_attack: 0, last_can_use_check: 0 }
    }

    /// Creates the goal with the normal speed (1.0).
    pub fn default_speed(follow_even_if_not_seen: bool) -> (r: Self)
        ensures
            r.speed() == 0x3ff0_0000_0000_0000u64,
            r.follows_unseen() == follow_even_if_not_seen,
            r.cooldown() == 0,
            r.last_check() == 0,
    {
        Self::new(0x3ff0_0000_0000_0000u64, follow_even_if_not_seen)
    }

    /// The walking speed modifier (IEEE-754 bits of an `f64`).
    pub fn speed_modifier(&self) -> (r: u64)
        ensures
            r == self.speed(),
    {
        self.speed_modifier
    }

    /// The tick of the last check of whether the attack may start.
    pub fn last_can_use_check(&self) -> (r: u64)
        ensures
            r == self.last_check(),
    {
        self.last_can_use_check
    }

    /// The goal's flags: `Move` and `Look`.
    pub fn flags(&self) -> (r: GoalFlags)
        ensures
            forall|f: GoalFlag| #[trigger] r.has(f) <==> (f == GoalFlag::Move || f == GoalFlag::Look),
    {
        let flags = [GoalFlag::Move, GoalFlag::Look];
        let r = GoalFlags::from_flags(&flags);
        assert forall|f: GoalFlag| #[trigger] r.has(f) <==> (f == GoalFlag::Move || f == GoalFlag::Look) by {
            if f == GoalFlag::Move {
                assert(flags@[0] == f);
            }
            if f == GoalFlag::Look {
                assert(flags@[1] == f);
            }
        }
        r
    }

    /// Checks at most once every 20 ticks whether the attack may start:
    /// there is a target within the follow range.
    pub fn can_use(&mut self, tick: u64, target: Option<bool>) -> (r: bool)
        requires
            tick >= old(self).last_check(),
        ensures
            tick - old(self).last_check() < CAN_USE_COOLDOWN ==> !r && final(self).last_check() == old(self).last_check(),
            tick - old(self).last_check() >= CAN_USE_COOLDOWN ==> final(self).last_check() == tick
                && r == (target == Some(true)),
            final(self).cooldown() == old(self).cooldown(),
            final(self).speed() == old(self).speed(),
            final(self).follows_unseen() == old(self).follows_unseen(),
    {
        if tick - self.last_can_use_check < CAN_USE_COOLDOWN {
            return false;
        }
        self.last_can_use_check = tick;
        let in_range = match target {
            Some(b) => b,
            None => {
                return false;
            },
        };
        if !in_range {
            return false;
        }
        true
    }

    /// Continues while there is a target, within the follow range unless
    /// the goal follows it anyway.
    pub fn can_continue_to_use(&mut self, target: Option<bool>) -> (r: bool)
        ensures
            r == match target {
                None => false,
                Some(in_range) => old(self).follows_unseen() || in_range,
            },
    {
        let in_range = match target {
            Some(b) => b,
            None => {
                return false;
            },
        };
        if !self.follow_even_if_not_seen {
            if !in_range {
                return false;
            }
        }
        true
    }

    /// The attack is timed every tick.
    pub fn requires_update_every_tick(&self) -> (r: bool)
        ensures
            r,
    {
        true
    }

    /// Starting makes the mob aggressive and ready to attack.
    pub fn start(&mut self, state: &mut TargetState)
        ensures
            *final(state) == (TargetState { is_aggressive: true, ..*old(state) }),
            final(self).cooldown() == 0,
            final(self).last_check() == old(self).last_check(),
            final(self).speed() == old(self).speed(),
            final(self).follows_unseen() == old(self).follows_unseen(),
    {
        state.is_aggressive = true;
        self.ticks_until_next_attack = 0;
    }

    /// Stopping calms the mob.
    pub fn stop(&mut self, state: &mut TargetState)
        ensures
            *final(state) == (TargetState { is_aggressive: false, ..*old(state) }),
    {
        state.is_aggressive = false;
    }

    /// Times the attack for a tick with a target (`None`: no target, and
    /// nothing happens; else whether it is within melee range): the wait
    /// goes down by one, and when it is over and the target is within
    /// reach the mob attacks (`true`) and waits 20 ticks again.
    pub fn tick(&mut self, state: &mut TargetState, target: Option<bool>) -> (r: bool)
        ensures
            target is None ==> !r && *final(state) == *old(state) && final(self).cooldown() == old(self).cooldown(),
            target matches Some(in_melee) ==> {
                let waited = if old(self).cooldown() > 0 { (old(self).cooldown() - 1) as u32 } else { 0u32 };
                &&& r == (waited == 0 && in_melee)
                &&& r ==> final(self).cooldown() == ATTACK_INTERVAL && *final(state) == (TargetState {
                    ticks_since_attack: 0,
                    ..*old(state)
                })
                &&& !r ==> final(self).cooldown() == waited && *final(state) == *old(state)
            },
            final(self).last_check() == old(self).last_check(),
            final(self).speed() == old(self).speed(),
            final(self).follows_unseen() == old(self).follows_unseen(),
    {
        let in_melee = match target {
            Some(b) => b,
            None => {
                return false;
            },
        };
        self.ticks_until_next_attack = if self.ticks_until_next_attack > 0 {
            self.ticks_until_next_attack - 1
        } else {
            0
        };
        if self.ticks_until_next_attack == 0 && in_melee {
            self.ticks_until_next_attack = crate::goal::adjusted_tick_delay(ATTACK_INTERVAL, true);
            state.ticks_since_attack = 0;
            return true;
        }
        false
    }
}

} // verus!
