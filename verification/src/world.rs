//! The world's players: who is online, what a joining player is told about
//! the others and they about it, and what a leaving player takes with it.
//!
//! Sending the packets, the chat messages and the chunk loading are the
//! caller's; so is pairing players with the entities they should see, which
//! depends on positions.

use vstd::prelude::*;

use crate::clientbound::{action_bit, CPlayerInfoUpdate, CRemovePlayerInfo, GameProfileProperty, PlayerInfoAction};
use crate::tracker::{adds_entity, forgets_player, removes_entity, EntityTracker};

verus! {

/// A player in the world, as the logic reads it.
#[derive(Debug)]
pub struct OnlinePlayer {
    /// The player's UUID.
    pub uuid: u128,
    /// The player's name.
    pub name: String,
    /// The properties of the player's game profile.
    pub properties: Vec<GameProfileProperty>,
    /// The player's chat session in wire form, when it has one that converts.
    pub chat_session: Option<Vec<u8>>,
    /// The network id of the player's entity, once it has one.
    pub entity_id: Option<i32>,
}

/// `pkt` puts a player on the tab list (see `CPlayerInfoUpdate::add_player`).
pub open spec fn is_add_player(pkt: CPlayerInfoUpdate, uuid: u128, name: String, props: Seq<GameProfileProperty>) -> bool {
    &&& pkt.actions == 0x1f
    &&& pkt.entries@.len() == 1
    &&& pkt.entries@[0].uuid == uuid
    &&& pkt.entries@[0].name == Some(name)
    &&& pkt.entries@[0].properties matches Some(ps) && ps@ == props
    &&& pkt.entries@[0].chat_session is None
    &&& pkt.entries@[0].game_mode == Some(1i32)
    &&& pkt.entries@[0].listed == Some(true)
    &&& pkt.entries@[0].latency == Some(0i32)
}

/// `pkt` hands over a player's chat session (see
/// `CPlayerInfoUpdate::update_chat_session`).
pub open spec fn is_chat_session(pkt: CPlayerInfoUpdate, uuid: u128, data: Seq<u8>) -> bool {
    &&& pkt.actions == action_bit(PlayerInfoAction::InitializeChat)
    &&& pkt.entries@.len() == 1
    &&& pkt.entries@[0].uuid == uuid
    &&& pkt.entries@[0].name is None
    &&& pkt.entries@[0].properties is None
    &&& pkt.entries@[0].chat_session matches Some(d) && d@ == data
    &&& pkt.entries@[0].game_mode is None
    &&& pkt.entries@[0].listed is None
    &&& pkt.entries@[0].latency is None
}

/// `pkts` is what a joining player is told about the players `ps`, in
/// order: each one's tab-list entry, followed by its chat session when it
/// has one.
pub open spec fn catch_up(ps: Seq<OnlinePlayer>, pkts: Seq<CPlayerInfoUpdate>) -> bool
    decreases ps.len(),
{
    if ps.len() == 0 {
        pkts.len() == 0
    } else {
        let p = ps.last();
        match p.chat_session {
            Some(d) => {
                &&& pkts.len() >= 2
                &&& catch_up(ps.drop_last(), pkts.take(pkts.len() - 2))
                &&& is_add_player(pkts[pkts.len() - 2], p.uuid, p.name, p.properties@)
                &&& is_chat_session(pkts.last(), p.uuid, d@)
            },
            None => {
                &&& pkts.len() >= 1
                &&& catch_up(ps.drop_last(), pkts.drop_last())
                &&& is_add_player(pkts.last(), p.uuid, p.name, p.properties@)
            },
        }
    }
}

/// The UUIDs of players, in order.
pub open spec fn uuids_of(ps: Seq<OnlinePlayer>) -> Seq<u128> {
    ps.map_values(|p: OnlinePlayer| p.uuid)
}

/// What a join sends.
pub struct JoinPlan {
    /// To the joining player: each other player's tab-list entry, followed by
    /// its chat session when it has one.
    pub to_new_player: Vec<CPlayerInfoUpdate>,
    /// The joining player's tab-list entry, for every player online.
    pub announcement: CPlayerInfoUpdate,
    /// The players online (the joining one last), which get the announcement
    /// and the join message.
    pub recipients: Vec<u128>,
}

/// What a leave sends.
pub struct LeavePlan {
    /// The players still online, which get `removal` and the leave message.
    pub recipients: Vec<u128>,
    /// Takes the leaving player off the tab list.
    pub removal: CRemovePlayerInfo,
    /// The leaving player's entity, if it had one, and the players that saw
    /// it (they get its removal packet).
    pub entity_removed: Option<(i32, Vec<u128>)>,
    /// The leaving player's name, for the leave message.
    pub name: String,
}

/// The players of a world and its entity tracker.
pub struct World {
    players: Vec<OnlinePlayer>,
    tracker: EntityTracker,
}

impl World {
    /// The players online, in the order they joined.
    pub closed spec fn players(&self) -> Seq<OnlinePlayer> {
        self.players@
    }

    /// The world's entity tracker.
    pub closed spec fn tracker(&self) -> EntityTracker {
        self.tracker
    }

    /// No two players share a UUID, and the tracker is well formed.
    pub open spec fn wf(&self) -> bool {
        &&& uuids_of(self.players()).no_duplicates()
        &&& self.tracker().wf()
    }

    /// A world with nobody in it and no tracked entity.
    pub fn new() -> (r: Self)
        ensures
            r.wf(),
            r.players() == Seq::<OnlinePlayer>::empty(),
            r.tracker().entities().len() == 0,
            r.tracker().tracking() == Map::<u128, Set<i32>>::empty(),
            r.tracker().consistent(),
    {
        World { players: Vec::new(), tracker: EntityTracker::new() }
    }

    /// The world's entity tracker.
    pub fn entity_tracker(&self) -> (r: &EntityTracker)
        ensures
            *r == self.tracker(),
    {
        &self.tracker
    }

    /// The world's entity tracker, to change.
    pub fn entity_tracker_mut(&mut self) -> (r: &mut EntityTracker)
        ensures
            *r == old(self).tracker(),
            final(self).tracker() == *final(r),
            final(self).players() == old(self).players(),
    {
        &mut self.tracker
    }

    /// The number of players online.
    pub fn player_count(&self) -> (r: usize)
        ensures
            r == self.players().len(),
    {
        self.players.len()
    }

    /// The position of the player with a UUID, if it is online.
    /// Whether a player with this UUID is online.
    pub fn has_player(&self, uuid: u128) -> (r: bool)
        ensures
            r == uuids_of(self.players()).contains(uuid),
    {
        match self.find(uuid) {
            Some(k) => {
                assert(uuids_of(self.players())[k as int] == uuid);
                true
            },
            None => false,
        }
    }

    fn find(&self, uuid: u128) -> (r: Option<usize>)
        ensures
            match r {
                Some(k) => k < self.players().len() && self.players()[k as int].uuid == uuid,
                None => !uuids_of(self.players()).contains(uuid),
            },
    {
        let mut i: usize = 0;
        while i < self.players.len()
            invariant
                i <= self.players@.len(),
                forall|j: int| 0 <= j < i ==> self.players@[j].uuid != uuid,
            decreases self.players@.len() - i,
        {
            if self.players[i].uuid == uuid {
                return Some(i);
            }
            i += 1;
        }
        proof {
            if uuids_of(self.players@).contains(uuid) {
                let j = choose|j: int| 0 <= j < uuids_of(self.players@).len() && uuids_of(self.players@)[j] == uuid;
                assert(self.players@[j].uuid == uuid);
            }
        }
        None
    }

    /// The UUIDs of the players online, in order.
    fn player_uuids(&self) -> (r: Vec<u128>)
        ensures
            r@ == uuids_of(self.players()),
    {
        let mut out: Vec<u128> = Vec::new();
        let mut i: usize = 0;
        while i < self.players.len()
            invariant
                i <= self.players@.len(),
                out@ == uuids_of(self.players@.take(i as int)),
            decreases self.players@.len() - i,
        {
            out.push(self.players[i].uuid);
            assert(uuids_of(self.players@.take(i + 1)) =~= uuids_of(self.players@.take(i as int)).push(self.players@[i as int].uuid));
            i += 1;
        }
        assert(self.players@.take(i as int) =~= self.players@);
        out
    }

    /// Adds a player to the world. A player whose UUID is already online is
    /// refused (`None`; the caller closes its connection). Else the joining
    /// player is told about every other player, everybody (the joining player
    /// too) is told about it, and its entity is tracked with the given range.
    pub fn add_player(&mut self, player: OnlinePlayer, tracking_range_blocks: i32) -> (r: Option<JoinPlan>)
        requires
            old(self).wf(),
            !uuids_of(old(self).players()).contains(player.uuid) ==> player.entity_id is Some,
        ensures
            final(self).wf(),
            uuids_of(old(self).players()).contains(player.uuid) ==> r is None && *final(self) == *old(self),
            !uuids_of(old(self).players()).contains(player.uuid) ==> (r matches Some(plan) && {
                &&& final(self).players() == old(self).players().push(player)
                &&& catch_up(old(self).players(), plan.to_new_player@)
                &&& is_add_player(plan.announcement, player.uuid, player.name, player.properties@)
                &&& plan.recipients@ == uuids_of(final(self).players())
                &&& adds_entity(
                    old(self).tracker(),
                    final(self).tracker(),
                    player.entity_id->Some_0,
                    player.uuid,
                    tracking_range_blocks,
                )
            }),
            old(self).tracker().consistent() && !old(self).tracker().ids().contains(player.entity_id->Some_0)
                ==> final(self).tracker().consistent(),
    {
        match self.find(player.uuid) {
            Some(k) => {
                assert(uuids_of(self.players@)[k as int] == player.uuid);
                return None;
            },
            None => {},
        }
        let mut to_new_player: Vec<CPlayerInfoUpdate> = Vec::new();
        let mut i: usize = 0;
        while i < self.players.len()
            invariant
                i <= self.players@.len(),
                catch_up(self.players@.take(i as int), to_new_player@),
            decreases self.players@.len() - i,
        {
            let ghost before = to_new_player@;
            let p = &self.players[i];
            assert(self.players@.take(i + 1).drop_last() =~= self.players@.take(i as int));
            to_new_player.push(CPlayerInfoUpdate::add_player(p.uuid, p.name.clone(), p.properties.clone()));
            match &p.chat_session {
                Some(data) => {
                    to_new_player.push(CPlayerInfoUpdate::update_chat_session(p.uuid, data.clone()));
                    assert(to_new_player@.take(to_new_player@.len() - 2) =~= before);
                },
                None => {
                    assert(to_new_player@.drop_last() =~= before);
                },
            }
            i += 1;
        }
        assert(self.players@.take(i as int) =~= self.players@);
        let announcement = CPlayerInfoUpdate::add_player(player.uuid, player.name.clone(), player.properties.clone());
        let entity_id = match player.entity_id {
            Some(id) => id,
            None => 0,
        };
        let uuid = player.uuid;
        let ghost players0 = self.players@;
        self.players.push(player);
        proof {
            assert(uuids_of(self.players@) =~= uuids_of(players0).push(uuid));
            let us = uuids_of(self.players@);
            assert forall|a: int, b: int| 0 <= a < us.len() && 0 <= b < us.len() && a != b implies us[a] != us[b] by {
                if a == players0.len() {
                    assert(us[b] == uuids_of(players0)[b]);
                } else if b == players0.len() {
                    assert(us[a] == uuids_of(players0)[a]);
                } else {
                    assert(us[a] == uuids_of(players0)[a] && us[b] == uuids_of(players0)[b]);
                }
            }
        }
        self.tracker.add_entity(entity_id, uuid, Some(tracking_range_blocks));
        let recipients = self.player_uuids();
        Some(JoinPlan { to_new_player, announcement, recipients })
    }

    /// Removes a player from the world. Nothing happens for a UUID that is
    /// not online (`None`). Else its entity, if it has one, stops being
    /// tracked and the player is forgotten by the tracker; the players still
    /// online are told it left.
    pub fn remove_player(&mut self, uuid: u128) -> (r: Option<LeavePlan>)
        requires
            old(self).wf(),
        ensures
            final(self).wf(),
            !uuids_of(old(self).players()).contains(uuid) ==> r is None && *final(self) == *old(self),
            uuids_of(old(self).players()).contains(uuid) ==> (r matches Some(plan) && exists|k: int| {
                let p = #[trigger] old(self).players()[k];
                &&& 0 <= k < old(self).players().len()
                &&& p.uuid == uuid
                &&& final(self).players() == old(self).players().remove(k)
                &&& plan.recipients@ == uuids_of(final(self).players())
                &&& plan.removal.uuids@ == seq![uuid]
                &&& plan.name == p.name
                &&& match p.entity_id {
                    Some(id) => plan.entity_removed matches Some((rid, viewers)) && rid == id && exists|mid: EntityTracker, seen: Seq<i32>|
                        removes_entity(old(self).tracker(), mid, id, viewers@) && forgets_player(mid, final(self).tracker(), uuid, seen),
                    None => plan.entity_removed is None && final(self).tracker() == old(self).tracker(),
                }
            }),
            old(self).tracker().consistent() ==> final(self).tracker().consistent(),
    {
        let k = match self.find(uuid) {
            None => {
                return None;
            },
            Some(k) => k,
        };
        assert(uuids_of(self.players@)[k as int] == uuid);
        let ghost players0 = self.players@;
        let p = self.players.remove(k);
        proof {
            assert(self.players@ == players0.remove(k as int));
            assert(uuids_of(self.players@) =~= uuids_of(players0).remove(k as int));
            let us = uuids_of(self.players@);
            assert forall|a: int, b: int| 0 <= a < us.len() && 0 <= b < us.len() && a != b implies us[a] != us[b] by {
                let a2 = if a < k { a } else { a + 1 };
                let b2 = if b < k { b } else { b + 1 };
                assert(us[a] == uuids_of(players0)[a2] && us[b] == uuids_of(players0)[b2]);
            }
        }
        let ghost mut mid_g: EntityTracker = self.tracker;
        let ghost mut seen_g: Seq<i32> = Seq::empty();
        let entity_removed = match p.entity_id {
            Some(id) => {
                let viewers = self.tracker.remove_entity(id);
                proof {
                    mid_g = self.tracker;
                }
                let seen = self.tracker.remove_player(uuid);
                proof {
                    seen_g = seen@;
                }
                Some((id, viewers))
            },
            None => None,
        };
        let recipients = self.player_uuids();
        let mut uuids: Vec<u128> = Vec::new();
        uuids.push(uuid);
        let removal = CRemovePlayerInfo { uuids };
        assert(removal.uuids@ =~= seq![uuid]);
        let r = Some(LeavePlan { recipients, removal, entity_removed, name: p.name });
        assert(p == players0[k as int]);
        assert(old(self).players()[k as int] == players0[k as int]);
        assert(self.players() == old(self).players().remove(k as int));
        assert(r->Some_0.recipients@ == uuids_of(self.players()));
        assert(r->Some_0.removal.uuids@ == seq![uuid]);
        assert(r->Some_0.name == players0[k as int].name);
        assert(match players0[k as int].entity_id {
                    Some(id) => r->Some_0.entity_removed matches Some((rid, viewers)) && rid == id &&
                        removes_entity(old(self).tracker(), mid_g, id, viewers@) && forgets_player(mid_g, self.tracker(), uuid, seen_g),
                    None => true,
                });
        assert(match players0[k as int].entity_id {
                    Some(id) => r->Some_0.entity_removed matches Some((rid, viewers)) && rid == id && exists|mid: EntityTracker, seen: Seq<i32>|
                        removes_entity(old(self).tracker(), mid, id, viewers@) && forgets_player(mid, self.tracker(), uuid, seen),
                    None => r->Some_0.entity_removed is None && self.tracker() == old(self).tracker(),
                });
        r
    }
}

/// A leave undoes a join: when a player that was not online joins (and is
/// added last) and then the player with its UUID leaves, the players online
/// are those before the join.
pub proof fn law_leave_undoes_join(before: Seq<OnlinePlayer>, player: OnlinePlayer, k: int)
    requires
        uuids_of(before).no_duplicates(),
        !uuids_of(before).contains(player.uuid),
        0 <= k < before.len() + 1,
        before.push(player)[k].uuid == player.uuid,
    ensures
        before.push(player).remove(k) == before,
{
    if k < before.len() {
        assert(uuids_of(before)[k] == player.uuid);
    }
    assert(k == before.len());
    assert(before.push(player).remove(k) =~= before);
}

} // verus!
