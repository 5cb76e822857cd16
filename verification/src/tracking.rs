//! Tracking of who sees an entity, and the decisions of each tracking tick:
//! which movement packet to send, whether to send the head rotation and the
//! changed data, and whether to remember the new position.
//!
//! Whether the position or rotation changed, and whether a move is too large
//! for a relative packet, are float comparisons that the caller makes.

use vstd::prelude::*;

verus! {

/// The movement packet a tracking tick sends.
#[derive(Debug, Clone, Copy, PartialEq, Eq, Structural)]
pub enum MovementPacket {
    /// An absolute teleport (the move is too large for a relative one).
    Teleport,
    /// A relative move with a new rotation.
    PosRot,
    /// A relative move.
    Pos,
    /// A new rotation.
    Rot,
}

/// What a tracking tick does.
#[derive(Debug, Clone, Copy, PartialEq, Eq, Structural)]
pub struct ChangePlan {
    /// The movement packet to send to every viewer, if any.
    pub movement: Option<MovementPacket>,
    /// Whether to send the head rotation to every viewer.
    pub head_rotation: bool,
    /// Whether to remember the current position and rotation as the last sent.
    pub update_last: bool,
    /// Whether to pack the dirty entity data and send it to every viewer.
    pub send_data: bool,
}

/// The plan of a tracking tick that is due.
pub open spec fn plan_of(has_viewers: bool, pos_changed: bool, rot_changed: bool, large_move: bool) -> ChangePlan {
    if !has_viewers {
        ChangePlan {
            movement: None,
            head_rotation: false,
            update_last: pos_changed || rot_changed,
            send_data: false,
        }
    } else {
        ChangePlan {
            movement: if pos_changed && large_move {
                Some(MovementPacket::Teleport)
            } else if pos_changed && rot_changed {
                Some(MovementPacket::PosRot)
            } else if pos_changed {
                Some(MovementPacket::Pos)
            } else if rot_changed {
                Some(MovementPacket::Rot)
            } else {
                None
            },
            head_rotation: rot_changed,
            update_last: pos_changed || rot_changed,
            send_data: true,
        }
    }
}

/// The plan of a tracking tick that is not due: nothing.
pub open spec fn idle_plan() -> ChangePlan {
    ChangePlan { movement: None, head_rotation: false, update_last: false, send_data: false }
}

/// Wrapper state of a tracked entity: the players that see it and the tick
/// counter of its updates.
pub struct TrackedEntity {
    entity_id: i32,
    entity_uuid: u128,
    seen_by: Vec<u128>,
    tracking_range_blocks: i32,
    update_interval: u8,
    tick_count: u64,
}

impl TrackedEntity {
    /// The UUIDs of the players that see the entity.
    pub closed spec fn viewers(&self) -> Set<u128> {
        self.seen_by@.to_set()
    }

    /// The network id of the tracked entity.
    pub closed spec fn id(&self) -> i32 {
        self.entity_id
    }

    /// The UUID of the tracked entity.
    pub closed spec fn uuid(&self) -> u128 {
        self.entity_uuid
    }

    /// The network id of the tracked entity.
    pub fn entity_id(&self) -> (r: i32)
        ensures
            r == self.id(),
    {
        self.entity_id
    }

    /// The UUID of the tracked entity.
    pub fn entity_uuid(&self) -> (r: u128)
        ensures
            r == self.uuid(),
    {
        self.entity_uuid
    }

    /// The number of tracking ticks so far.
    pub closed spec fn ticks(&self) -> u64 {
        self.tick_count
    }

    /// The number of tracking ticks so far.
    pub fn tick_count(&self) -> (r: u64)
        ensures
            r == self.ticks(),
    {
        self.tick_count
    }

    /// Every how many ticks updates are sent.
    pub closed spec fn interval(&self) -> u8 {
        self.update_interval
    }

    /// Tracking range in blocks.
    pub closed spec fn range(&self) -> i32 {
        self.tracking_range_blocks
    }

    /// Tracking range in blocks.
    pub fn tracking_range_blocks(&self) -> (r: i32)
        ensures
            r == self.range(),
    {
        self.tracking_range_blocks
    }

    /// No viewer is listed twice.
    pub closed spec fn wf(&self) -> bool {
        self.seen_by@.no_duplicates()
    }

    /// Creates a tracked entity that nobody sees yet, updated every tick.
    pub fn new(entity_id: i32, entity_uuid: u128, tracking_range_blocks: i32) -> (r: Self)
        ensures
            r.wf(),
            r.id() == entity_id,
            r.uuid() == entity_uuid,
            r.viewers() == Set::<u128>::empty(),
            r.ticks() == 0,
            r.interval() == 1,
            r.range() == tracking_range_blocks,
    {
        let r = TrackedEntity {
            entity_id,
            entity_uuid,
            seen_by: Vec::new(),
            tracking_range_blocks,
            update_interval: 1,
            tick_count: 0,
        };
        assert(r.seen_by@.to_set() =~= Set::<u128>::empty());
        r
    }

    /// The position of a viewer in the list, if it is listed.
    fn position_of(&self, player: u128) -> (r: Option<usize>)
        ensures
            match r {
                Some(i) => i < self.seen_by@.len() && self.seen_by@[i as int] == player,
                None => !self.viewers().contains(player),
            },
    {
        let mut i: usize = 0;
        while i < self.seen_by.len()
            invariant
                i <= self.seen_by@.len(),
                forall|j: int| 0 <= j < i ==> self.seen_by@[j] != player,
            decreases self.seen_by@.len() - i,
        {
            if self.seen_by[i] == player {
                return Some(i);
            }
            i += 1;
        }
        proof {
            if self.seen_by@.to_set().contains(player) {
                let j = choose|j: int| 0 <= j < self.seen_by@.len() && self.seen_by@[j] == player;
                assert(self.seen_by@[j] == player);
            }
        }
        None
    }

    /// Whether a player sees the entity.
    pub fn is_seen_by(&self, player: u128) -> (r: bool)
        ensures
            r == self.viewers().contains(player),
    {
        match self.position_of(player) {
            Some(i) => {
                assert(self.seen_by@.to_set().contains(self.seen_by@[i as int]));
                true
            },
            None => false,
        }
    }

    /// Adds a player to those that see the entity; `true` when it was not one
    /// already (the caller then sends the spawn packets).
    pub fn add_player(&mut self, player: u128) -> (r: bool)
        requires
            old(self).wf(),
        ensures
            final(self).wf(),
            r == !old(self).viewers().contains(player),
            final(self).viewers() == old(self).viewers().insert(player),
            final(self).viewers().finite(),
            final(self).viewers().len() == old(self).viewers().len() + if r { 1int } else { 0int },
            final(self).id() == old(self).id(),
            final(self).uuid() == old(self).uuid(),
            final(self).ticks() == old(self).ticks(),
            final(self).interval() == old(self).interval(),
            final(self).range() == old(self).range(),
    {
        proof {
            vstd::seq_lib::seq_to_set_is_finite(self.seen_by@);
            self.seen_by@.unique_seq_to_set();
        }
        if self.is_seen_by(player) {
            assert(self.viewers() =~= old(self).viewers().insert(player));
            return false;
        }
        let ghost before = self.seen_by@;
        self.seen_by.push(player);
        proof {
            assert forall|i: int, j: int|
                0 <= i < self.seen_by@.len() && 0 <= j < self.seen_by@.len() && i != j implies self.seen_by@[i]
                != self.seen_by@[j] by {
                if i < before.len() && j < before.len() {
                } else if i < before.len() {
                    assert(before.to_set().contains(before[i]));
                } else if j < before.len() {
                    assert(before.to_set().contains(before[j]));
                }
            }
            assert forall|x: u128| #[trigger] self.seen_by@.to_set().contains(x)
                == before.to_set().insert(player).contains(x) by {
                if self.seen_by@.to_set().contains(x) {
                    let k = choose|k: int| 0 <= k < self.seen_by@.len() && self.seen_by@[k] == x;
                    if k < before.len() {
                        assert(before[k] == x);
                    }
                }
                if before.to_set().contains(x) {
                    let k = choose|k: int| 0 <= k < before.len() && before[k] == x;
                    assert(self.seen_by@[k] == x);
                }
                if x == player {
                    assert(self.seen_by@[before.len() as int] == x);
                }
            }
            assert(self.seen_by@.to_set() =~= before.to_set().insert(player));
            vstd::seq_lib::seq_to_set_is_finite(self.seen_by@);
            self.seen_by@.unique_seq_to_set();
        }
        true
    }

    /// Removes a player from those that see the entity; `true` when it was one
    /// (the caller then sends the removal packet).
    pub fn remove_player(&mut self, player: u128) -> (r: bool)
        requires
            old(self).wf(),
        ensures
            final(self).wf(),
            r == old(self).viewers().contains(player),
            final(self).viewers() == old(self).viewers().remove(player),
            final(self).viewers().finite(),
            final(self).viewers().len() == old(self).viewers().len() - if r { 1int } else { 0int },
            final(self).id() == old(self).id(),
            final(self).uuid() == old(self).uuid(),
            final(self).ticks() == old(self).ticks(),
            final(self).interval() == old(self).interval(),
            final(self).range() == old(self).range(),
    {
        proof {
            vstd::seq_lib::seq_to_set_is_finite(self.seen_by@);
            self.seen_by@.unique_seq_to_set();
        }
        match self.position_of(player) {
            None => {
                assert(self.viewers() =~= old(self).viewers().remove(player));
                false
            },
            Some(i) => {
                let ghost before = self.seen_by@;
                self.seen_by.remove(i);
                proof {
                    assert(self.seen_by@ == before.remove(i as int));
                    assert forall|a: int, b: int|
                        0 <= a < self.seen_by@.len() && 0 <= b < self.seen_by@.len() && a != b implies self.seen_by@[a]
                        != self.seen_by@[b] by {
                        let a2 = if a < i { a } else { a + 1 };
                        let b2 = if b < i { b } else { b + 1 };
                        assert(self.seen_by@[a] == before[a2] && self.seen_by@[b] == before[b2]);
                    }
                    assert forall|x: u128| #[trigger] self.seen_by@.to_set().contains(x)
                        == before.to_set().remove(player).contains(x) by {
                        if self.seen_by@.to_set().contains(x) {
                            let k = choose|k: int| 0 <= k < self.seen_by@.len() && self.seen_by@[k] == x;
                            let k2 = if k < i { k } else { k + 1 };
                            assert(before[k2] == x);
                            assert(k2 != i);
                        }
                        if before.to_set().remove(player).contains(x) {
                            let k = choose|k: int| 0 <= k < before.len() && before[k] == x;
                            assert(k != i);
                            if k < i {
                                assert(self.seen_by@[k] == x);
                            } else {
                                assert(self.seen_by@[k - 1] == x);
                            }
                        }
                    }
                    assert(self.seen_by@.to_set() =~= before.to_set().remove(player));
                    assert(before.to_set().contains(before[i as int]));
                    vstd::seq_lib::seq_to_set_is_finite(self.seen_by@);
                    self.seen_by@.unique_seq_to_set();
                }
                true
            },
        }
    }

    /// Gets the number of players tracking this entity
    pub fn tracking_player_count(&self) -> (r: usize)
        requires
            self.wf(),
        ensures
            r == self.viewers().len(),
    {
        proof {
            self.seen_by@.unique_seq_to_set();
        }
        self.seen_by.len()
    }

    /// The players that see the entity (each once, in no particular order).
    pub fn seen_by_players(&self) -> (r: Vec<u128>)
        requires
            self.wf(),
        ensures
            r@.to_set() == self.viewers(),
            r@.no_duplicates(),
    {
        self.seen_by.clone()
    }

    /// Counts a tracking tick and decides what it does: nothing unless the
    /// tick count (after counting this one) is a multiple of the update
    /// interval; then, with nobody watching, only remember a changed
    /// position; else send one movement packet (a teleport for a large move),
    /// the head rotation when the rotation changed, and the changed data.
    pub fn send_changes(&mut self, pos_changed: bool, rot_changed: bool, large_move: bool) -> (r:
        ChangePlan)
        requires
            old(self).ticks() < u64::MAX,
        ensures
            final(self).ticks() == old(self).ticks() + 1,
            final(self).viewers() == old(self).viewers(),
            final(self).id() == old(self).id(),
            final(self).uuid() == old(self).uuid(),
            final(self).interval() == old(self).interval(),
            final(self).wf() == old(self).wf(),
            final(self).range() == old(self).range(),
            r == if old(self).interval() != 0 && (final(self).ticks() as int) % (old(self).interval() as int)
                == 0 {
                plan_of(old(self).viewers().len() > 0, pos_changed, rot_changed, large_move)
            } else {
                idle_plan()
            },
    {
        self.tick_count = self.tick_count + 1;
        let due = self.update_interval != 0 && self.tick_count % (self.update_interval as u64) == 0;
        if !due {
            return ChangePlan {
                movement: None,
                head_rotation: false,
                update_last: false,
                send_data: false,
            };
        }
        let has_viewers = self.seen_by.len() > 0;
        proof {
            if self.seen_by@.len() > 0 {
                assert(self.seen_by@.to_set().contains(self.seen_by@[0]));
            } else {
                assert(self.seen_by@.to_set() =~= Set::<u128>::empty());
            }
        }
        if !has_viewers {
            return ChangePlan {
                movement: None,
                head_rotation: false,
                update_last: pos_changed || rot_changed,
                send_data: false,
            };
        }
        let movement = if pos_changed && large_move {
            Some(MovementPacket::Teleport)
        } else if pos_changed && rot_changed {
            Some(MovementPacket::PosRot)
        } else if pos_changed {
            Some(MovementPacket::Pos)
        } else if rot_changed {
            Some(MovementPacket::Rot)
        } else {
            None
        };
        ChangePlan {
            movement,
            head_rotation: rot_changed,
            update_last: pos_changed || rot_changed,
            send_data: true,
        }
    }
}

/// A tracking tick sends at most one movement packet, and nothing at all to
/// nobody. To viewers, a changed position goes as a teleport exactly when the
/// move is too large for a relative packet (whatever the rotation did), else
/// as a relative move with or without the rotation; a rotation alone goes as a
/// rotation packet; the head rotation goes with every rotation change, and the
/// changed data is sent. The last sent position is remembered whenever
/// something moved.
pub proof fn law_plan(has_viewers: bool, pos_changed: bool, rot_changed: bool, large_move: bool)
    ensures
        ({
            let p = plan_of(has_viewers, pos_changed, rot_changed, large_move);
            &&& !has_viewers ==> p.movement is None && !p.head_rotation && !p.send_data
            &&& p.movement == Some(MovementPacket::Teleport) ==> pos_changed && large_move
            &&& (p.movement is Some || p.head_rotation) ==> p.update_last
            &&& has_viewers ==> (p.head_rotation <==> rot_changed)
            &&& has_viewers ==> (p.movement is None <==> !pos_changed && !rot_changed)
            &&& has_viewers && pos_changed && large_move ==> p.movement == Some(MovementPacket::Teleport)
            &&& has_viewers && pos_changed && !large_move && rot_changed ==> p.movement == Some(MovementPacket::PosRot)
            &&& has_viewers && pos_changed && !large_move && !rot_changed ==> p.movement == Some(MovementPacket::Pos)
            &&& has_viewers && !pos_changed && rot_changed ==> p.movement == Some(MovementPacket::Rot)
            &&& p.update_last <==> (pos_changed || rot_changed)
            &&& has_viewers ==> p.send_data
        }),
{
}

} // verus!
