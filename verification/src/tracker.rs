//! The entity tracker: the tracked entities under their network ids, and for
//! each player the ids of the entities that player sees.
//!
//! Whether a player should see an entity depends on distances and on the
//! player's chunk view, which the caller works out from positions; the
//! tracker keeps both sides of every pairing (the entity's viewers and the
//! player's visible set) and says which pairings start or end, so that the
//! caller sends the spawn and removal packets.

use vstd::prelude::*;
use crate::tracking::{ChangePlan, TrackedEntity, idle_plan, plan_of};

verus! {

/// Tracking range in blocks of an entity type that names none (four chunks).
pub const DEFAULT_ENTITY_TRACKING_RANGE_BLOCKS: i32 = 64;

/// The first network id that the tracker hands out.
pub const FIRST_ENTITY_ID: i32 = 1_000_000;

/// A pairing that started or ended: the caller sends the entity's spawn
/// packets (or its removal packet) to the player.
#[derive(Debug, Clone, Copy, PartialEq, Eq, Structural)]
pub struct VisibilityChange {
    /// The network id of the entity.
    pub entity_id: i32,
    /// `true` when the player starts seeing the entity, `false` when it stops.
    pub paired: bool,
}

/// The network ids of a sequence of tracked entities, in order.
pub open spec fn ids_of(s: Seq<TrackedEntity>) -> Seq<i32> {
    s.map_values(|e: TrackedEntity| e.id())
}

/// A tracked entity as it is created: nobody sees it, no tick has passed,
/// and it is updated every tick.
pub open spec fn is_fresh(e: TrackedEntity, entity_id: i32, uuid: u128, range: i32) -> bool {
    &&& e.wf()
    &&& e.id() == entity_id
    &&& e.uuid() == uuid
    &&& e.range() == range
    &&& e.viewers() == Set::<u128>::empty()
    &&& e.ticks() == 0
    &&& e.interval() == 1
}

/// Two tracked entities that differ at most in who sees them.
pub open spec fn same_but_viewers(a: TrackedEntity, b: TrackedEntity) -> bool {
    &&& a.id() == b.id()
    &&& a.uuid() == b.uuid()
    &&& a.range() == b.range()
    &&& a.ticks() == b.ticks()
    &&& a.interval() == b.interval()
    &&& a.wf() == b.wf()
}

/// Every player's visible set without one entity id.
pub open spec fn without_id(m: Map<u128, Set<i32>>, entity_id: i32) -> Map<u128, Set<i32>> {
    Map::new(|p: u128| m.dom().contains(p), |p: u128| m[p].remove(entity_id))
}

/// The ids of the entities, in order, that a player sees.
pub open spec fn ids_seen_by(s: Seq<TrackedEntity>, player: u128) -> Seq<i32>
    decreases s.len(),
{
    if s.len() == 0 {
        Seq::empty()
    } else {
        let rest = ids_seen_by(s.drop_last(), player);
        if s.last().viewers().contains(player) {
            rest.push(s.last().id())
        } else {
            rest
        }
    }
}

proof fn lemma_ids_remove(s: Seq<TrackedEntity>, i: int)
    requires
        0 <= i < s.len(),
        ids_of(s).no_duplicates(),
    ensures
        ids_of(s.remove(i)) == ids_of(s).remove(i),
        ids_of(s.remove(i)).no_duplicates(),
        !ids_of(s.remove(i)).contains(s[i].id()),
{
    assert(ids_of(s.remove(i)) =~= ids_of(s).remove(i));
    let t = ids_of(s.remove(i));
    assert forall|a: int, b: int| 0 <= a < t.len() && 0 <= b < t.len() && a != b implies t[a] != t[b] by {
        let a2 = if a < i { a } else { a + 1 };
        let b2 = if b < i { b } else { b + 1 };
        assert(t[a] == ids_of(s)[a2] && t[b] == ids_of(s)[b2]);
    }
    if t.contains(s[i].id()) {
        let a = choose|a: int| 0 <= a < t.len() && t[a] == s[i].id();
        let a2 = if a < i { a } else { a + 1 };
        assert(t[a] == ids_of(s)[a2]);
        assert(ids_of(s)[i] == s[i].id());
    }
}

/// Finds an id in a vector of ids.
fn find_id(v: &Vec<i32>, x: i32) -> (r: Option<usize>)
    ensures
        match r {
            Some(k) => k < v@.len() && v@[k as int] == x,
            None => !v@.contains(x),
        },
{
    let mut i: usize = 0;
    while i < v.len()
        invariant
            i <= v@.len(),
            forall|j: int| 0 <= j < i ==> v@[j] != x,
        decreases v@.len() - i,
    {
        if v[i] == x {
            return Some(i);
        }
        i += 1;
    }
    None
}

/// Adds an id to a vector of distinct ids, unless it is there.
fn insert_id(v: &mut Vec<i32>, x: i32)
    requires
        old(v)@.no_duplicates(),
    ensures
        final(v)@.no_duplicates(),
        final(v)@.to_set() == old(v)@.to_set().insert(x),
{
    match find_id(v, x) {
        Some(k) => {
            assert(v@.to_set().contains(v@[k as int]));
            assert(v@.to_set() =~= old(v)@.to_set().insert(x));
        },
        None => {
            let ghost before = v@;
            v.push(x);
            proof {
                assert forall|a: int, b: int|
                    0 <= a < v@.len() && 0 <= b < v@.len() && a != b implies v@[a] != v@[b] by {
                    if a == before.len() {
                        assert(v@[b] == before[b]);
                    } else if b == before.len() {
                        assert(v@[a] == before[a]);
                    } else {
                        assert(v@[a] == before[a] && v@[b] == before[b]);
                    }
                }
                assert forall|y: i32| #[trigger] v@.to_set().contains(y) == before.to_set().insert(
                    x,
                ).contains(y) by {
                    if v@.to_set().contains(y) {
                        let k = choose|k: int| 0 <= k < v@.len() && v@[k] == y;
                        if k < before.len() {
                            assert(before[k] == y);
                        }
                    }
                    if before.to_set().contains(y) {
                        let k = choose|k: int| 0 <= k < before.len() && before[k] == y;
                        assert(v@[k] == y);
                    }
                    if y == x {
                        assert(v@[before.len() as int] == y);
                    }
                }
                assert(v@.to_set() =~= before.to_set().insert(x));
            }
        },
    }
}

/// Removes an id from a vector of distinct ids, if it is there.
fn remove_id(v: &mut Vec<i32>, x: i32)
    requires
        old(v)@.no_duplicates(),
    ensures
        final(v)@.no_duplicates(),
        final(v)@.to_set() == old(v)@.to_set().remove(x),
{
    match find_id(v, x) {
        None => {
            assert(v@.to_set() =~= old(v)@.to_set().remove(x));
        },
        Some(i) => {
            let ghost before = v@;
            v.remove(i);
            proof {
                assert(v@ == before.remove(i as int));
                assert forall|a: int, b: int|
                    0 <= a < v@.len() && 0 <= b < v@.len() && a != b implies v@[a] != v@[b] by {
                    let a2 = if a < i { a } else { a + 1 };
                    let b2 = if b < i { b } else { b + 1 };
                    assert(v@[a] == before[a2] && v@[b] == before[b2]);
                }
                assert forall|y: i32| #[trigger] v@.to_set().contains(y) == before.to_set().remove(
                    x,
                ).contains(y) by {
                    if v@.to_set().contains(y) {
                        let k = choose|k: int| 0 <= k < v@.len() && v@[k] == y;
                        let k2 = if k < i { k } else { k + 1 };
                        assert(before[k2] == y);
                        assert(k2 != i);
                    }
                    if before.to_set().remove(x).contains(y) {
                        let k = choose|k: int| 0 <= k < before.len() && before[k] == y;
                        assert(k != i);
                        if k < i {
                            assert(v@[k] == y);
                        } else {
                            assert(v@[k - 1] == y);
                        }
                    }
                }
                assert(v@.to_set() =~= before.to_set().remove(x));
            }
        },
    }
}

/// Whether an update pairs a player with an entity: not its own entity,
/// one it should see, and (in a tracking tick) one not in its visible set.
pub open spec fn starts(e: TrackedEntity, player: u128, vis: Set<i32>, should: bool, tick: bool) -> bool {
    e.uuid() != player && should && (!tick || !vis.contains(e.id()))
}

/// Whether an update (only a tracking tick) unpairs a player from an entity:
/// not its own entity, one it should not see and has in its visible set.
pub open spec fn stops(e: TrackedEntity, player: u128, vis: Set<i32>, should: bool, tick: bool) -> bool {
    tick && e.uuid() != player && !should && vis.contains(e.id())
}

/// Who sees an entity after an update for a player.
pub open spec fn viewers_after(e: TrackedEntity, player: u128, vis: Set<i32>, should: bool, tick: bool) -> Set<u128> {
    if starts(e, player, vis, should, tick) {
        e.viewers().insert(player)
    } else if stops(e, player, vis, should, tick) {
        e.viewers().remove(player)
    } else {
        e.viewers()
    }
}

/// The change that an update reports for an entity: a pairing that starts
/// and was not there, or one that ends and was there.
pub open spec fn step_event(e: TrackedEntity, player: u128, vis: Set<i32>, should: bool, tick: bool) -> Option<VisibilityChange> {
    if starts(e, player, vis, should, tick) && !e.viewers().contains(player) {
        Some(VisibilityChange { entity_id: e.id(), paired: true })
    } else if stops(e, player, vis, should, tick) && e.viewers().contains(player) {
        Some(VisibilityChange { entity_id: e.id(), paired: false })
    } else {
        None
    }
}

/// The changes an update reports for the first `n` entities, in order.
pub open spec fn events_upto(s: Seq<TrackedEntity>, player: u128, vis: Set<i32>, should: Seq<bool>, tick: bool, n: nat) -> Seq<VisibilityChange>
    decreases n,
{
    if n == 0 {
        Seq::empty()
    } else {
        let rest = events_upto(s, player, vis, should, tick, (n - 1) as nat);
        match step_event(s[n - 1], player, vis, should[n - 1], tick) {
            Some(ev) => rest.push(ev),
            None => rest,
        }
    }
}

/// The player's visible set after an update has gone through the first `n`
/// entities: the ids it starts seeing join it, those it stops seeing leave.
pub open spec fn visible_upto(s: Seq<TrackedEntity>, player: u128, vis: Set<i32>, should: Seq<bool>, tick: bool, n: int) -> Set<i32> {
    Set::new(|x: i32|
        (vis.contains(x) && !(exists|j: int| 0 <= j < n && #[trigger] s[j].id() == x && stops(s[j], player, vis, should[j], tick)))
        || (exists|j: int| 0 <= j < n && #[trigger] s[j].id() == x && starts(s[j], player, vis, should[j], tick)))
}

/// The visible set that a map gives a player, empty for a player it lacks.
pub open spec fn visible_of(m: Map<u128, Set<i32>>, player: u128) -> Set<i32> {
    if m.dom().contains(player) {
        m[player]
    } else {
        Set::empty()
    }
}

/// Finds a player in a vector of player UUIDs.
fn find_player(v: &Vec<u128>, x: u128) -> (r: Option<usize>)
    ensures
        match r {
            Some(k) => k < v@.len() && v@[k as int] == x,
            None => !v@.contains(x),
        },
{
    let mut i: usize = 0;
    while i < v.len()
        invariant
            i <= v@.len(),
            forall|j: int| 0 <= j < i ==> v@[j] != x,
        decreases v@.len() - i,
    {
        if v[i] == x {
            return Some(i);
        }
        i += 1;
    }
    None
}

/// Entity tracker that manages visibility between entities and players.
pub struct EntityTracker {
    entities: Vec<TrackedEntity>,
    players: Vec<u128>,
    visible: Vec<Vec<i32>>,
    next_entity_id: i32,
}

impl EntityTracker {
    /// The tracked entities, in the order in which they were added.
    pub closed spec fn entities(&self) -> Seq<TrackedEntity> {
        self.entities@
    }

    /// The network ids of the tracked entities, in the same order.
    pub open spec fn ids(&self) -> Seq<i32> {
        ids_of(self.entities())
    }

    /// Every tracked entity has an id handed out before the next one.
    pub open spec fn ids_allocated(&self) -> bool {
        forall|i: int| 0 <= i < self.ids().len() ==> #[trigger] self.ids()[i] < self.next_id()
    }

    /// The network id that the tracker hands out next.
    pub closed spec fn next_id(&self) -> i32 {
        self.next_entity_id
    }

    /// For each player the tracker knows, the ids of the entities it sees.
    pub closed spec fn tracking(&self) -> Map<u128, Set<i32>> {
        Map::new(
            |p: u128| self.players@.contains(p),
            |p: u128| self.visible@[self.players@.index_of(p)]@.to_set(),
        )
    }

    /// No id is tracked twice, each tracked entity is well formed, and each
    /// player has one visible set without repeats.
    pub closed spec fn wf(&self) -> bool {
        &&& self.ids().no_duplicates()
        &&& forall|i: int| 0 <= i < self.entities@.len() ==> (#[trigger] self.entities@[i]).wf()
        &&& self.players@.len() == self.visible@.len()
        &&& self.players@.no_duplicates()
        &&& forall|k: int| 0 <= k < self.visible@.len() ==> (#[trigger] self.visible@[k])@.no_duplicates()
    }

    proof fn lemma_index_of(&self, k: int)
        requires
            self.wf(),
            0 <= k < self.players@.len(),
        ensures
            self.players@.index_of(self.players@[k]) == k,
            self.tracking().dom().contains(self.players@[k]),
            self.tracking()[self.players@[k]] == self.visible@[k]@.to_set(),
    {
        let p = self.players@[k];
        assert(self.players@.contains(p));
        let j = self.players@.index_of(p);
        assert(0 <= j < self.players@.len() && self.players@[j] == p);
    }

    /// Every pairing is known to both sides (a player sees an entity exactly
    /// when the entity's id is in the player's visible set), and visible sets
    /// hold only tracked ids.
    pub open spec fn consistent(&self) -> bool {
        &&& forall|i: int, p: u128|
            #![trigger self.entities()[i].viewers().contains(p)]
            #![trigger self.tracking()[p].contains(self.entities()[i].id())]
            0 <= i < self.entities().len() ==> (self.entities()[i].viewers().contains(p) <==> (
            self.tracking().dom().contains(p) && self.tracking()[p].contains(self.entities()[i].id())))
        &&& forall|p: u128, x: i32|
            self.tracking().dom().contains(p) && #[trigger] self.tracking()[p].contains(x) ==> self.ids().contains(x)
    }

    proof fn lemma_update_consistent(a: Self, b: Self, player: u128, should: Seq<bool>, tick: bool)
        requires
            a.wf(),
            a.consistent(),
            should.len() == a.entities().len(),
            b.entities().len() == a.entities().len(),
            forall|i: int| 0 <= i < a.entities().len() ==> same_but_viewers(
                #[trigger] b.entities()[i],
                a.entities()[i],
            ) && b.entities()[i].viewers() == viewers_after(
                a.entities()[i],
                player,
                visible_of(a.tracking(), player),
                should[i],
                tick,
            ),
            b.tracking() == a.tracking().insert(
                player,
                visible_upto(a.entities(), player, visible_of(a.tracking(), player), should, tick, a.entities().len() as int),
            ),
        ensures
            b.consistent(),
    {
        let vis0 = visible_of(a.tracking(), player);
        let n = a.entities().len() as int;
        let ents = a.entities();
        assert(b.ids() =~= a.ids());
        assert forall|i: int, q: u128| 0 <= i < b.entities().len() implies (b.entities()[i].viewers().contains(q) <==> (
            b.tracking().dom().contains(q) && b.tracking()[q].contains(b.entities()[i].id()))) by {
            let e = ents[i];
            assert(a.ids()[i] == e.id());
            if q == player {
                assert(e.viewers().contains(player) == vis0.contains(e.id()));
                let vu = visible_upto(ents, player, vis0, should, tick, n);
                if exists|j: int| 0 <= j < n && #[trigger] ents[j].id() == e.id() && stops(ents[j], player, vis0, should[j], tick) {
                    let j = choose|j: int| 0 <= j < n && #[trigger] ents[j].id() == e.id() && stops(ents[j], player, vis0, should[j], tick);
                    assert(a.ids()[j] == a.ids()[i]);
                }
                if exists|j: int| 0 <= j < n && #[trigger] ents[j].id() == e.id() && starts(ents[j], player, vis0, should[j], tick) {
                    let j = choose|j: int| 0 <= j < n && #[trigger] ents[j].id() == e.id() && starts(ents[j], player, vis0, should[j], tick);
                    assert(a.ids()[j] == a.ids()[i]);
                }
                if starts(e, player, vis0, should[i], tick) {
                    assert(ents[i].id() == e.id());
                    assert(vu.contains(e.id()));
                }
                if stops(e, player, vis0, should[i], tick) {
                    assert(ents[i].id() == e.id());
                }
            } else {
                assert(b.entities()[i].viewers().contains(q) == e.viewers().contains(q));
                assert(a.entities()[i].viewers().contains(q) <==> (a.tracking().dom().contains(q) && a.tracking()[q].contains(e.id())));
            }
        }
        assert forall|p: u128, x: i32| b.tracking().dom().contains(p) && #[trigger] b.tracking()[p].contains(x) implies b.ids().contains(x) by {
            if p == player {
                if exists|j: int| 0 <= j < n && #[trigger] ents[j].id() == x && starts(ents[j], player, vis0, should[j], tick) {
                    let j = choose|j: int| 0 <= j < n && #[trigger] ents[j].id() == x && starts(ents[j], player, vis0, should[j], tick);
                    assert(b.ids()[j] == x);
                } else {
                    assert(vis0.contains(x));
                    assert(a.tracking()[player].contains(x));
                }
            } else {
                assert(a.tracking()[p].contains(x));
            }
        }
    }

    proof fn lemma_remove_consistent(a: Self, b: Self, k: int)
        requires
            a.wf(),
            a.consistent(),
            0 <= k < a.entities().len(),
            b.entities() == a.entities().remove(k),
            b.tracking() == without_id(a.tracking(), a.entities()[k].id()),
        ensures
            b.consistent(),
    {
        let id = a.entities()[k].id();
        lemma_ids_remove(a.entities(), k);
        assert forall|i: int, q: u128| 0 <= i < b.entities().len() implies (b.entities()[i].viewers().contains(q) <==> (
            b.tracking().dom().contains(q) && b.tracking()[q].contains(b.entities()[i].id()))) by {
            let i2 = if i < k { i } else { i + 1 };
            assert(b.entities()[i] == a.entities()[i2]);
            assert(a.ids()[i2] != a.ids()[k]);
            assert(a.entities()[i2].viewers().contains(q) <==> (a.tracking().dom().contains(q) && a.tracking()[q].contains(a.entities()[i2].id())));
        }
        assert forall|p: u128, x: i32| b.tracking().dom().contains(p) && #[trigger] b.tracking()[p].contains(x) implies b.ids().contains(x) by {
            assert(a.tracking()[p].contains(x));
            assert(a.ids().contains(x));
            let j = choose|j: int| 0 <= j < a.ids().len() && a.ids()[j] == x;
            assert(j != k);
            let j2 = if j < k { j } else { j - 1 };
            assert(b.ids()[j2] == x);
        }
    }

    proof fn lemma_forget_player_consistent(a: Self, b: Self, player: u128)
        requires
            a.wf(),
            a.consistent(),
            b.entities().len() == a.entities().len(),
            forall|i: int| 0 <= i < a.entities().len() ==> same_but_viewers(
                #[trigger] b.entities()[i],
                a.entities()[i],
            ) && b.entities()[i].viewers() == a.entities()[i].viewers().remove(player),
            b.tracking() == a.tracking().remove(player),
        ensures
            b.consistent(),
    {
        assert(b.ids() =~= a.ids());
        assert forall|i: int, q: u128| 0 <= i < b.entities().len() implies (b.entities()[i].viewers().contains(q) <==> (
            b.tracking().dom().contains(q) && b.tracking()[q].contains(b.entities()[i].id()))) by {
            assert(a.entities()[i].viewers().contains(q) <==> (a.tracking().dom().contains(q) && a.tracking()[q].contains(a.entities()[i].id())));
        }
        assert forall|p: u128, x: i32| b.tracking().dom().contains(p) && #[trigger] b.tracking()[p].contains(x) implies b.ids().contains(x) by {
            assert(a.tracking()[p].contains(x));
        }
    }

    proof fn lemma_add_fresh_consistent(a: Self, b: Self, entity_id: i32)
        requires
            a.wf(),
            a.consistent(),
            !a.ids().contains(entity_id),
            b.ids() == a.ids().push(entity_id),
            forall|i: int| 0 <= i < b.entities().len() ==> if b.ids()[i] == entity_id {
                (#[trigger] b.entities()[i]).viewers() == Set::<u128>::empty()
            } else {
                b.entities()[i] == a.entities()[i]
            },
            b.tracking() == a.tracking(),
        ensures
            b.consistent(),
    {
        assert forall|i: int, q: u128| 0 <= i < b.entities().len() implies (b.entities()[i].viewers().contains(q) <==> (
            b.tracking().dom().contains(q) && b.tracking()[q].contains(b.entities()[i].id()))) by {
            assert(b.ids()[i] == b.entities()[i].id());
            if b.ids()[i] == entity_id {
                if b.tracking().dom().contains(q) && b.tracking()[q].contains(entity_id) {
                    assert(a.ids().contains(entity_id));
                }
            } else {
                assert(b.ids().len() == b.entities().len());
                assert(a.ids().len() == a.entities().len());
                assert(b.ids().len() == a.ids().len() + 1);
                assert(b.ids()[a.ids().len() as int] == entity_id);
                assert(i != a.ids().len());
                assert(i < a.entities().len());
                assert(a.entities()[i].viewers().contains(q) <==> (a.tracking().dom().contains(q) && a.tracking()[q].contains(a.entities()[i].id())));
            }
        }
        assert forall|p: u128, x: i32| b.tracking().dom().contains(p) && #[trigger] b.tracking()[p].contains(x) implies b.ids().contains(x) by {
            assert(a.ids().contains(x));
            let j = choose|j: int| 0 <= j < a.ids().len() && a.ids()[j] == x;
            assert(b.ids()[j] == x);
        }
    }

    /// Creates a tracker with no entities and no players.
    pub fn new() -> (r: Self)
        ensures
            r.wf(),
            r.entities() == Seq::<TrackedEntity>::empty(),
            r.tracking() == Map::<u128, Set<i32>>::empty(),
            r.next_id() == FIRST_ENTITY_ID,
            r.consistent(),
    {
        let r = EntityTracker {
            entities: Vec::new(),
            players: Vec::new(),
            visible: Vec::new(),
            next_entity_id: FIRST_ENTITY_ID,
        };
        assert(r.tracking() =~= Map::<u128, Set<i32>>::empty());
        r
    }

    /// Hands out a new network id: each call gives the next one.
    pub fn allocate_entity_id(&mut self) -> (r: i32)
        requires
            old(self).next_id() < i32::MAX,
        ensures
            r == old(self).next_id(),
            final(self).next_id() == old(self).next_id() + 1,
            final(self).entities() == old(self).entities(),
            final(self).tracking() == old(self).tracking(),
            final(self).wf() == old(self).wf(),
            final(self).consistent() == old(self).consistent(),
    {
        let id = self.next_entity_id;
        self.next_entity_id = id + 1;
        assert(self.entities() == old(self).entities());
        assert(self.tracking() =~= old(self).tracking());
        id
    }

    /// The network id that `allocate_entity_id` hands out next.
    pub fn next_entity_id(&self) -> (r: i32)
        ensures
            r == self.next_id(),
    {
        self.next_entity_id
    }

    /// The number of tracked entities.
    pub fn entity_count(&self) -> (r: usize)
        ensures
            r == self.entities().len(),
    {
        self.entities.len()
    }

    /// The network ids of the tracked entities, in tracking order (the order
    /// of the decision flags of `update_tracking`).
    pub fn entity_ids(&self) -> (r: Vec<i32>)
        ensures
            r@ == self.ids(),
    {
        let mut out: Vec<i32> = Vec::new();
        let mut i: usize = 0;
        while i < self.entities.len()
            invariant
                i <= self.entities@.len(),
                out@ == ids_of(self.entities@.take(i as int)),
            decreases self.entities@.len() - i,
        {
            out.push(self.entities[i].entity_id());
            assert(ids_of(self.entities@.take(i + 1)) =~= ids_of(self.entities@.take(i as int)).push(self.entities@[i as int].id()));
            i += 1;
        }
        assert(self.entities@.take(i as int) =~= self.entities@);
        out
    }

    /// The tracked entity at a position in tracking order.
    pub fn entity_at(&self, index: usize) -> (r: &TrackedEntity)
        requires
            index < self.entities().len(),
        ensures
            *r == self.entities()[index as int],
    {
        &self.entities[index]
    }

    /// The ids of the entities a player sees (none for a player the tracker
    /// does not know), each once.
    pub fn visible_to(&self, player: u128) -> (r: Vec<i32>)
        requires
            self.wf(),
        ensures
            r@.to_set() == visible_of(self.tracking(), player),
            r@.no_duplicates(),
    {
        match find_player(&self.players, player) {
            Some(k) => {
                proof {
                    self.lemma_index_of(k as int);
                }
                self.visible[k].clone()
            },
            None => {
                let r: Vec<i32> = Vec::new();
                assert(r@.to_set() =~= Set::<i32>::empty());
                r
            },
        }
    }

    /// The position of the entity with an id, if it is tracked.
    fn index_of_id(&self, entity_id: i32) -> (r: Option<usize>)
        ensures
            match r {
                Some(i) => i < self.entities().len() && self.entities()[i as int].id() == entity_id,
                None => !self.ids().contains(entity_id),
            },
    {
        let mut i: usize = 0;
        while i < self.entities.len()
            invariant
                i <= self.entities@.len(),
                forall|j: int| 0 <= j < i ==> self.entities@[j].id() != entity_id,
            decreases self.entities@.len() - i,
        {
            if self.entities[i].entity_id() == entity_id {
                return Some(i);
            }
            i += 1;
        }
        proof {
            if self.ids().contains(entity_id) {
                let j = choose|j: int| 0 <= j < self.ids().len() && self.ids()[j] == entity_id;
                assert(self.entities@[j].id() == entity_id);
            }
        }
        None
    }

    /// The position of the first entity with a UUID, if any is tracked.
    fn index_of_uuid(&self, uuid: u128) -> (r: Option<usize>)
        ensures
            match r {
                Some(i) => i < self.entities().len() && self.entities()[i as int].uuid() == uuid
                    && forall|j: int| 0 <= j < i ==> self.entities()[j].uuid() != uuid,
                None => forall|j: int| 0 <= j < self.entities().len() ==> self.entities()[j].uuid() != uuid,
            },
    {
        let mut i: usize = 0;
        while i < self.entities.len()
            invariant
                i <= self.entities@.len(),
                forall|j: int| 0 <= j < i ==> self.entities@[j].uuid() != uuid,
            decreases self.entities@.len() - i,
        {
            if self.entities[i].entity_uuid() == uuid {
                return Some(i);
            }
            i += 1;
        }
        None
    }

    /// The tracked entity with a network id, if there is one.
    pub fn get_entity(&self, entity_id: i32) -> (r: Option<&TrackedEntity>)
        ensures
            match r {
                Some(e) => self.ids().contains(entity_id) && e.id() == entity_id && self.entities().contains(*e),
                None => !self.ids().contains(entity_id),
            },
    {
        match self.index_of_id(entity_id) {
            Some(i) => {
                assert(self.ids()[i as int] == entity_id);
                assert(self.entities@[i as int] == self.entities@[i as int]);
                Some(&self.entities[i])
            },
            None => None,
        }
    }

    /// The first tracked entity with a UUID, if there is one.
    pub fn get_entity_by_uuid(&self, uuid: u128) -> (r: Option<&TrackedEntity>)
        ensures
            match r {
                Some(e) => exists|i: int|
                    0 <= i < self.entities().len() && self.entities()[i] == *e && e.uuid() == uuid
                        && forall|j: int| 0 <= j < i ==> self.entities()[j].uuid() != uuid,
                None => forall|j: int| 0 <= j < self.entities().len() ==> self.entities()[j].uuid() != uuid,
            },
    {
        match self.index_of_uuid(uuid) {
            Some(i) => Some(&self.entities[i]),
            None => None,
        }
    }

    /// Starts tracking an entity with a range in blocks (64 when none is
    /// given). An entity already tracked under the id is replaced by the new
    /// one, which nobody sees yet.
    pub fn add_entity(&mut self, entity_id: i32, uuid: u128, tracking_range_blocks: Option<i32>)
        requires
            old(self).wf(),
        ensures
            final(self).wf(),
            adds_entity(
                *old(self),
                *final(self),
                entity_id,
                uuid,
                match tracking_range_blocks {
                    Some(r) => r,
                    None => DEFAULT_ENTITY_TRACKING_RANGE_BLOCKS,
                },
            ),
            old(self).consistent() && !old(self).ids().contains(entity_id) ==> final(self).consistent(),
    {
        let range = match tracking_range_blocks {
            Some(r) => r,
            None => DEFAULT_ENTITY_TRACKING_RANGE_BLOCKS,
        };
        let fresh = TrackedEntity::new(entity_id, uuid, range);
        let ghost before = self.entities@;
        match self.index_of_id(entity_id) {
            Some(i) => {
                self.entities.set(i, fresh);
                proof {
                    assert(ids_of(before)[i as int] == entity_id);
                    assert(ids_of(self.entities@) =~= ids_of(before));
                    assert forall|j: int| 0 <= j < self.entities@.len() && self.ids()[j] == entity_id
                        implies j == i by {
                        assert(ids_of(before)[j] == ids_of(before)[i as int]);
                    }
                }
            },
            None => {
                self.entities.push(fresh);
                proof {
                    assert(ids_of(self.entities@) =~= ids_of(before).push(entity_id));
                    assert forall|a: int, b: int|
                        0 <= a < self.entities@.len() && 0 <= b < self.entities@.len() && a != b
                        implies self.ids()[a] != self.ids()[b] by {
                        if a == before.len() {
                            assert(self.ids()[b] == ids_of(before)[b]);
                        } else if b == before.len() {
                            assert(self.ids()[a] == ids_of(before)[a]);
                        } else {
                            assert(self.ids()[a] == ids_of(before)[a]);
                            assert(self.ids()[b] == ids_of(before)[b]);
                        }
                    }
                }
            },
        }
        assert(self.tracking() =~= old(self).tracking());
        proof {
            if old(self).consistent() && !old(self).ids().contains(entity_id) {
                Self::lemma_add_fresh_consistent(*old(self), *self, entity_id);
            }
        }
    }

    /// Removes every id from the visible set of every player.
    fn forget_id(&mut self, entity_id: i32)
        requires
            old(self).wf(),
        ensures
            final(self).wf(),
            final(self).entities() == old(self).entities(),
            final(self).next_id() == old(self).next_id(),
            final(self).tracking() == without_id(old(self).tracking(), entity_id),
    {
        let ghost before = self.visible@;
        let mut k: usize = 0;
        while k < self.visible.len()
            invariant
                self.wf(),
                self.entities@ == old(self).entities@,
                self.players@ == old(self).players@,
                self.next_entity_id == old(self).next_entity_id,
                before == old(self).visible@,
                self.visible@.len() == before.len(),
                k <= self.visible@.len(),
                forall|j: int| 0 <= j < k ==> (#[trigger] self.visible@[j])@.to_set() == before[j]@.to_set().remove(entity_id),
                forall|j: int| k <= j < self.visible@.len() ==> #[trigger] self.visible@[j] == before[j],
            decreases self.visible@.len() - k,
        {
            remove_id(&mut self.visible[k], entity_id);
            k += 1;
        }
        proof {
            assert forall|p: u128| #[trigger] self.tracking().dom().contains(p) implies self.tracking()[p]
                == without_id(old(self).tracking(), entity_id)[p] by {
                let j = self.players@.index_of(p);
                self.lemma_index_of(j);
                old(self).lemma_index_of(j);
            }
            assert(self.tracking().dom() =~= without_id(old(self).tracking(), entity_id).dom());
            assert(self.tracking() =~= without_id(old(self).tracking(), entity_id));
        }
    }

    /// Stops tracking the entity with a network id and takes its id out of
    /// every player's visible set. Returns the players that saw it, to which
    /// the caller sends the removal packet; none when the id is not tracked.
    pub fn remove_entity(&mut self, entity_id: i32) -> (r: Vec<u128>)
        requires
            old(self).wf(),
        ensures
            final(self).wf(),
            removes_entity(*old(self), *final(self), entity_id, r@),
            old(self).consistent() ==> final(self).consistent(),
    {
        match self.index_of_id(entity_id) {
            None => Vec::new(),
            Some(i) => {
                let viewers = self.entities[i].seen_by_players();
                let ghost before = self.entities@;
                self.entities.remove(i);
                proof {
                    assert(ids_of(before)[i as int] == entity_id);
                    lemma_ids_remove(before, i as int);
                    assert forall|j: int| 0 <= j < self.entities@.len() implies (#[trigger] self.entities@[j]).wf() by {
                        let j2 = if j < i { j } else { j + 1 };
                        assert(self.entities@[j] == before[j2]);
                    }
                }
                self.forget_id(entity_id);
                proof {
                    if old(self).consistent() {
                        Self::lemma_remove_consistent(*old(self), *self, i as int);
                    }
                }
                viewers
            },
        }
    }

    /// Stops tracking the first entity with a UUID, as `remove_entity` does.
    /// Returns the players that saw it, or `None` when no tracked entity has
    /// the UUID.
    pub fn remove_entity_by_uuid(&mut self, uuid: u128) -> (r: Option<Vec<u128>>)
        requires
            old(self).wf(),
        ensures
            final(self).wf(),
            final(self).next_id() == old(self).next_id(),
            match r {
                Some(viewers) => tracks_uuid(*old(self), uuid) && removes_first_with_uuid(*old(self), *final(self), uuid, viewers@),
                None => !tracks_uuid(*old(self), uuid) && same_state(*old(self), *final(self)),
            },
            old(self).consistent() ==> final(self).consistent(),
    {
        match self.index_of_uuid(uuid) {
            None => None,
            Some(i) => {
                let entity_id = self.entities[i].entity_id();
                proof {
                    assert(self.ids()[i as int] == entity_id);
                    assert forall|j: int| 0 <= j < self.entities@.len() && self.entities@[j].id() == entity_id implies j == i by {
                        assert(self.ids()[j] == self.ids()[i as int]);
                    }
                }
                let viewers = self.remove_entity(entity_id);
                Some(viewers)
            },
        }
    }

    /// Forgets a player: it no longer sees any entity and has no visible
    /// set. Returns the ids, in tracking order, of the entities it saw, whose
    /// removal packets the caller sends it.
    pub fn remove_player(&mut self, player: u128) -> (r: Vec<i32>)
        requires
            old(self).wf(),
        ensures
            final(self).wf(),
            forgets_player(*old(self), *final(self), player, r@),
            old(self).consistent() ==> final(self).consistent(),
    {
        let mut seen: Vec<i32> = Vec::new();
        let mut i: usize = 0;
        while i < self.entities.len()
            invariant
                self.wf(),
                old(self).wf(),
                self.players@ == old(self).players@,
                self.visible@ == old(self).visible@,
                self.next_entity_id == old(self).next_entity_id,
                self.entities@.len() == old(self).entities@.len(),
                i <= self.entities@.len(),
                forall|j: int| 0 <= j < self.entities@.len() ==> same_but_viewers(
                    #[trigger] self.entities@[j],
                    old(self).entities@[j],
                ),
                forall|j: int| 0 <= j < i ==> (#[trigger] self.entities@[j]).viewers() == old(self).entities@[j].viewers().remove(player),
                forall|j: int| i <= j < self.entities@.len() ==> #[trigger] self.entities@[j] == old(self).entities@[j],
                seen@ == ids_seen_by(old(self).entities@.take(i as int), player),
            decreases self.entities@.len() - i,
        {
            let ghost prefix = old(self).entities@.take(i as int + 1);
            assert(prefix.drop_last() =~= old(self).entities@.take(i as int));
            let ghost mid = self.entities@;
            assert(mid[i as int].wf());
            let had = self.entities[i].remove_player(player);
            if had {
                let id = self.entities[i].entity_id();
                seen.push(id);
            }
            proof {
                assert(self.entities@ == mid.update(i as int, self.entities@[i as int]));
                assert forall|j: int| 0 <= j < self.entities@.len() implies (#[trigger] self.entities@[j]).wf() by {
                    if j != i {
                        assert(self.entities@[j] == mid[j]);
                    }
                }
                assert(ids_of(self.entities@) =~= ids_of(old(self).entities@));
            }
            i += 1;
        }
        proof {
            assert(old(self).entities@.take(i as int) =~= old(self).entities@);
        }
        match find_player(&self.players, player) {
            None => {
                assert(self.tracking() =~= old(self).tracking().remove(player));
            },
            Some(kp) => {
                let ghost players0 = self.players@;
                let ghost visible0 = self.visible@;
                self.players.remove(kp);
                self.visible.remove(kp);
                proof {
                    assert(self.players@ == players0.remove(kp as int));
                    assert forall|a: int, b: int|
                        0 <= a < self.players@.len() && 0 <= b < self.players@.len() && a != b implies self.players@[a]
                        != self.players@[b] by {
                        let a2 = if a < kp { a } else { a + 1 };
                        let b2 = if b < kp { b } else { b + 1 };
                        assert(self.players@[a] == players0[a2] && self.players@[b] == players0[b2]);
                    }
                    assert forall|k: int| 0 <= k < self.visible@.len() implies (#[trigger] self.visible@[k])@.no_duplicates() by {
                        let k2 = if k < kp { k } else { k + 1 };
                        assert(self.visible@[k] == visible0[k2]);
                    }
                    assert forall|p: u128| #[trigger] self.players@.contains(p) == old(self).tracking().remove(player).dom().contains(p) by {
                        if self.players@.contains(p) {
                            let a = choose|a: int| 0 <= a < self.players@.len() && self.players@[a] == p;
                            let a2 = if a < kp { a } else { a + 1 };
                            assert(players0[a2] == p);
                            assert(a2 != kp);
                        }
                        if old(self).tracking().remove(player).dom().contains(p) {
                            let a = choose|a: int| 0 <= a < players0.len() && players0[a] == p;
                            assert(a != kp);
                            if a < kp {
                                assert(self.players@[a] == p);
                            } else {
                                assert(self.players@[a - 1] == p);
                            }
                        }
                    }
                    assert forall|p: u128| #[trigger] self.tracking().dom().contains(p) implies self.tracking()[p]
                        == old(self).tracking()[p] by {
                        let a = self.players@.index_of(p);
                        self.lemma_index_of(a);
                        let a2 = if a < kp { a } else { a + 1 };
                        assert(players0[a2] == p);
                        old(self).lemma_index_of(a2);
                    }
                    assert(self.tracking().dom() =~= old(self).tracking().remove(player).dom());
                    assert(self.tracking() =~= old(self).tracking().remove(player));
                }
            },
        }
        proof {
            if old(self).consistent() {
                Self::lemma_forget_player_consistent(*old(self), *self, player);
            }
        }
        seen
    }

    /// Brings a player's pairings in line with whether it should see each
    /// entity, one flag per tracked entity in tracking order.
    fn update_visibility(&mut self, player: u128, should_track: &[bool], tick: bool) -> (r: Vec<VisibilityChange>)
        requires
            old(self).wf(),
            should_track@.len() == old(self).entities().len(),
        ensures
            final(self).wf(),
            update_step(*old(self), *final(self), player, should_track@, tick, r@),
            old(self).consistent() ==> final(self).consistent(),
    {
        let ghost vis0 = visible_of(old(self).tracking(), player);
        let ghost ents0 = old(self).entities@;
        let kp: usize = match find_player(&self.players, player) {
            Some(k) => {
                proof {
                    self.lemma_index_of(k as int);
                }
                k
            },
            None => {
                let ghost players0 = self.players@;
                self.players.push(player);
                self.visible.push(Vec::new());
                proof {
                    assert forall|a: int, b: int|
                        0 <= a < self.players@.len() && 0 <= b < self.players@.len() && a != b implies self.players@[a]
                        != self.players@[b] by {
                        if a == players0.len() {
                            assert(self.players@[b] == players0[b]);
                        } else if b == players0.len() {
                            assert(self.players@[a] == players0[a]);
                        } else {
                            assert(self.players@[a] == players0[a] && self.players@[b] == players0[b]);
                        }
                    }
                    assert(self.visible@.last()@.to_set() =~= Set::<i32>::empty());
                }
                self.players.len() - 1
            },
        };
        let ghost players1 = self.players@;
        let ghost visible1 = self.visible@;
        proof {
            assert(self.visible@[kp as int]@.to_set() =~= visible_upto(ents0, player, vis0, should_track@, tick, 0));
        }
        let mut events: Vec<VisibilityChange> = Vec::new();
        let mut i: usize = 0;
        while i < self.entities.len()
            invariant
                self.wf(),
                old(self).wf(),
                ents0 == old(self).entities@,
                vis0 == visible_of(old(self).tracking(), player),
                should_track@.len() == ents0.len(),
                self.players@ == players1,
                self.visible@.len() == visible1.len(),
                kp < players1.len(),
                players1[kp as int] == player,
                forall|k: int| 0 <= k < visible1.len() && k != kp ==> #[trigger] self.visible@[k] == visible1[k],
                self.visible@[kp as int]@.to_set() == visible_upto(ents0, player, vis0, should_track@, tick, i as int),
                self.next_entity_id == old(self).next_entity_id,
                self.entities@.len() == ents0.len(),
                i <= self.entities@.len(),
                forall|j: int| 0 <= j < self.entities@.len() ==> same_but_viewers(#[trigger] self.entities@[j], ents0[j]),
                forall|j: int| 0 <= j < i ==> (#[trigger] self.entities@[j]).viewers() == viewers_after(
                    ents0[j],
                    player,
                    vis0,
                    should_track@[j],
                    tick,
                ),
                forall|j: int| i <= j < self.entities@.len() ==> #[trigger] self.entities@[j] == ents0[j],
                events@ == events_upto(ents0, player, vis0, should_track@, tick, i as nat),
            decreases self.entities@.len() - i,
        {
            let ghost cur = self.visible@[kp as int]@.to_set();
            let ghost mid = self.entities@;
            let ghost e = ents0[i as int];
            proof {
                assert(mid[i as int] == e);
                assert(mid[i as int].wf());
                assert(ids_of(ents0)[i as int] == e.id());
                assert forall|j: int| 0 <= j < i as int && #[trigger] ents0[j].id() == e.id() implies false by {
                    assert(ids_of(ents0)[j] == ids_of(ents0)[i as int]);
                }
                assert(cur.contains(e.id()) == vis0.contains(e.id()));
            }
            let e_uuid = self.entities[i].entity_uuid();
            if e_uuid != player {
                let id = self.entities[i].entity_id();
                let currently = match find_id(&self.visible[kp], id) {
                    Some(_) => true,
                    None => false,
                };
                proof {
                    if currently {
                        let k = choose|k: int| 0 <= k < self.visible@[kp as int]@.len() && self.visible@[kp as int]@[k] == id;
                        assert(cur.contains(self.visible@[kp as int]@[k]));
                    }
                }
                if should_track[i] && (!tick || !currently) {
                    insert_id(&mut self.visible[kp], id);
                    let newly = self.entities[i].add_player(player);
                    if newly {
                        events.push(VisibilityChange { entity_id: id, paired: true });
                    }
                } else if tick && !should_track[i] && currently {
                    remove_id(&mut self.visible[kp], id);
                    let was = self.entities[i].remove_player(player);
                    if was {
                        events.push(VisibilityChange { entity_id: id, paired: false });
                    }
                }
            }
            proof {
                let next = visible_upto(ents0, player, vis0, should_track@, tick, i as int + 1);
                assert forall|x: i32| #[trigger] self.visible@[kp as int]@.to_set().contains(x) == next.contains(x) by {
                    if x == e.id() {
                        if exists|j: int| 0 <= j < i as int + 1 && #[trigger] ents0[j].id() == x && stops(ents0[j], player, vis0, should_track@[j], tick) {
                            let j = choose|j: int| 0 <= j < i as int + 1 && #[trigger] ents0[j].id() == x && stops(ents0[j], player, vis0, should_track@[j], tick);
                            assert(j == i);
                        }
                        if exists|j: int| 0 <= j < i as int + 1 && #[trigger] ents0[j].id() == x && starts(ents0[j], player, vis0, should_track@[j], tick) {
                            let j = choose|j: int| 0 <= j < i as int + 1 && #[trigger] ents0[j].id() == x && starts(ents0[j], player, vis0, should_track@[j], tick);
                            assert(j == i);
                        }
                        if starts(e, player, vis0, should_track@[i as int], tick) {
                            assert(ents0[i as int].id() == x);
                        }
                        if stops(e, player, vis0, should_track@[i as int], tick) {
                            assert(ents0[i as int].id() == x);
                        }
                    } else {
                        if exists|j: int| 0 <= j < i as int + 1 && #[trigger] ents0[j].id() == x && stops(ents0[j], player, vis0, should_track@[j], tick) {
                            let j = choose|j: int| 0 <= j < i as int + 1 && #[trigger] ents0[j].id() == x && stops(ents0[j], player, vis0, should_track@[j], tick);
                            assert(j != i);
                        }
                        if exists|j: int| 0 <= j < i as int + 1 && #[trigger] ents0[j].id() == x && starts(ents0[j], player, vis0, should_track@[j], tick) {
                            let j = choose|j: int| 0 <= j < i as int + 1 && #[trigger] ents0[j].id() == x && starts(ents0[j], player, vis0, should_track@[j], tick);
                            assert(j != i);
                        }
                    }
                }
                assert(self.visible@[kp as int]@.to_set() =~= next);
                assert(self.entities@ == mid.update(i as int, self.entities@[i as int]));
                assert forall|j: int| 0 <= j < self.entities@.len() implies (#[trigger] self.entities@[j]).wf() by {
                    if j != i {
                        assert(self.entities@[j] == mid[j]);
                    }
                }
                assert(ids_of(self.entities@) =~= ids_of(ents0));
                assert forall|k: int| 0 <= k < self.visible@.len() implies (#[trigger] self.visible@[k])@.no_duplicates() by {
                    if k != kp {
                        assert(self.visible@[k] == visible1[k]);
                    }
                }
            }
            i += 1;
        }
        proof {
            let n = ents0.len() as int;
            let target = old(self).tracking().insert(player, visible_upto(ents0, player, vis0, should_track@, tick, n));
            assert forall|p: u128| #[trigger] self.players@.contains(p) == target.dom().contains(p) by {
                if p != player && self.players@.contains(p) {
                    let a = choose|a: int| 0 <= a < self.players@.len() && self.players@[a] == p;
                    if a < old(self).players@.len() {
                        assert(old(self).players@[a] == p);
                    }
                }
                if p != player && old(self).players@.contains(p) {
                    let a = choose|a: int| 0 <= a < old(self).players@.len() && old(self).players@[a] == p;
                    assert(self.players@[a] == p);
                }
                if p == player {
                    assert(self.players@[kp as int] == p);
                }
            }
            assert forall|p: u128| #[trigger] self.tracking().dom().contains(p) implies self.tracking()[p] == target[p] by {
                let a = self.players@.index_of(p);
                self.lemma_index_of(a);
                if p == player {
                    assert(self.players@[kp as int] == player);
                } else {
                    assert(a != kp);
                    assert(a < old(self).players@.len());
                    assert(old(self).players@[a] == p);
                    old(self).lemma_index_of(a);
                    assert(self.visible@[a] == visible1[a]);
                }
            }
            assert(self.tracking().dom() =~= target.dom());
            assert(self.tracking() =~= target);
            if old(self).consistent() {
                Self::lemma_update_consistent(*old(self), *self, player, should_track@, tick);
            }
        }
        events
    }

    /// The tracking-tick update for one player, with one flag per tracked
    /// entity (in tracking order) that says whether the player should see it
    /// (it is within the entity's range and in the player's chunk view).
    /// Pairs the player with each entity it should see and does not have in
    /// its visible set, and unpairs it from each one it has but should no
    /// longer see; its own entity is left alone. Returns the pairings that
    /// started or ended, in tracking order.
    pub fn update_tracking(&mut self, player: u128, should_track: &[bool]) -> (r: Vec<VisibilityChange>)
        requires
            old(self).wf(),
            should_track@.len() == old(self).entities().len(),
        ensures
            final(self).wf(),
            update_step(*old(self), *final(self), player, should_track@, true, r@),
            old(self).consistent() ==> final(self).consistent(),
    {
        self.update_visibility(player, should_track, true)
    }

    /// The update right after a player joins or an entity is added: pairs the
    /// player with each entity (but its own) that it should see, one flag per
    /// tracked entity in tracking order, and unpairs nothing. Returns the
    /// pairings that started, in tracking order.
    pub fn update_player_visibility(&mut self, player: u128, should_track: &[bool]) -> (r: Vec<VisibilityChange>)
        requires
            old(self).wf(),
            should_track@.len() == old(self).entities().len(),
        ensures
            final(self).wf(),
            update_step(*old(self), *final(self), player, should_track@, false, r@),
            old(self).consistent() ==> final(self).consistent(),
    {
        self.update_visibility(player, should_track, false)
    }

    /// Counts a tracking tick for every tracked entity and decides what each
    /// sends, with one change triple (position changed, rotation changed,
    /// move too large) per entity in tracking order.
    pub fn send_all_changes(&mut self, changes: &[(bool, bool, bool)]) -> (r: Vec<ChangePlan>)
        requires
            old(self).wf(),
            changes@.len() == old(self).entities().len(),
            forall|i: int| 0 <= i < old(self).entities().len() ==> (#[trigger] old(self).entities()[i]).ticks() < u64::MAX,
        ensures
            final(self).wf(),
            changes_step(*old(self), *final(self), changes@, r@),
            old(self).consistent() ==> final(self).consistent(),
    {
        let mut plans: Vec<ChangePlan> = Vec::new();
        let mut i: usize = 0;
        while i < self.entities.len()
            invariant
                self.wf(),
                old(self).wf(),
                changes@.len() == old(self).entities().len(),
                forall|j: int| 0 <= j < old(self).entities().len() ==> (#[trigger] old(self).entities()[j]).ticks() < u64::MAX,
                self.next_id() == old(self).next_id(),
                self.tracking() == old(self).tracking(),
                self.entities().len() == old(self).entities().len(),
                i <= self.entities().len(),
                plans@.len() == i,
                forall|j: int| 0 <= j < i ==> entity_tick(
                    old(self).entities()[j],
                    #[trigger] self.entities()[j],
                    changes@[j],
                    plans@[j],
                ),
                forall|j: int| i <= j < self.entities().len() ==> #[trigger] self.entities()[j] == old(self).entities()[j],
                old(self).consistent() ==> self.consistent(),
            decreases self.entities@.len() - i,
        {
            let (pos_changed, rot_changed, large_move) = changes[i];
            let ghost before = *self;
            let plan = self.send_changes(i, pos_changed, rot_changed, large_move);
            plans.push(plan);
            proof {
                assert forall|j: int| 0 <= j < i + 1 implies entity_tick(
                    old(self).entities()[j],
                    #[trigger] self.entities()[j],
                    changes@[j],
                    plans@[j],
                ) by {
                    if j < i {
                        assert(self.entities()[j] == before.entities()[j]);
                    }
                }
            }
            i += 1;
        }
        plans
    }

    /// A tracking tick: the pairings of every player, one after the other,
    /// with one row of decisions per player (one flag per tracked entity, in
    /// tracking order), as `update_tracking` makes them; then every entity's
    /// update, as `send_all_changes` decides it. Returns the pairings that
    /// started or ended, tagged with their player, and the plans.
    pub fn tick(
        &mut self,
        players: &[u128],
        should_track: &[Vec<bool>],
        changes: &[(bool, bool, bool)],
    ) -> (r: (Vec<(u128, VisibilityChange)>, Vec<ChangePlan>))
        requires
            old(self).wf(),
            should_track@.len() == players@.len(),
            forall|k: int| 0 <= k < players@.len() ==> (#[trigger] should_track@[k])@.len() == old(self).entities().len(),
            changes@.len() == old(self).entities().len(),
            forall|i: int| 0 <= i < old(self).entities().len() ==> (#[trigger] old(self).entities()[i]).ticks() < u64::MAX,
        ensures
            final(self).wf(),
            exists|states: Seq<EntityTracker>, events: Seq<Seq<VisibilityChange>>| {
                &&& states.len() == players@.len() + 1
                &&& events.len() == players@.len()
                &&& states[0] == *old(self)
                &&& forall|k: int| 0 <= k < players@.len() ==> #[trigger] update_step(
                    states[k],
                    states[k + 1],
                    players@[k],
                    should_track@[k]@,
                    true,
                    events[k],
                )
                &&& r.0@ == tagged_all(players@, events)
                &&& changes_step(states.last(), *final(self), changes@, r.1@)
            },
            old(self).consistent() ==> final(self).consistent(),
    {
        let ghost mut states: Seq<EntityTracker> = seq![*self];
        let ghost mut events: Seq<Seq<VisibilityChange>> = Seq::empty();
        let mut pairings: Vec<(u128, VisibilityChange)> = Vec::new();
        let mut k: usize = 0;
        while k < players.len()
            invariant
                self.wf(),
                old(self).wf(),
                should_track@.len() == players@.len(),
                forall|j: int| 0 <= j < players@.len() ==> (#[trigger] should_track@[j])@.len() == old(self).entities().len(),
                self.entities().len() == old(self).entities().len(),
                forall|i: int| 0 <= i < self.entities().len() ==> (#[trigger] self.entities()[i]).ticks() == old(self).entities()[i].ticks(),
                k <= players@.len(),
                states.len() == k + 1,
                events.len() == k,
                states[0] == *old(self),
                states.last() == *self,
                forall|j: int| 0 <= j < k ==> #[trigger] update_step(
                    states[j],
                    states[j + 1],
                    players@[j],
                    should_track@[j]@,
                    true,
                    events[j],
                ),
                pairings@ == tagged_all(players@.take(k as int), events),
                old(self).consistent() ==> self.consistent(),
            decreases players@.len() - k,
        {
            let player = players[k];
            let ghost before = *self;
            let changed = self.update_tracking(player, should_track[k].as_slice());
            let ghost tail = pairings@;
            let mut j: usize = 0;
            while j < changed.len()
                invariant
                    j <= changed@.len(),
                    pairings@ == tail + tagged(player, changed@.take(j as int)),
                decreases changed@.len() - j,
            {
                pairings.push((player, changed[j]));
                assert(tagged(player, changed@.take(j + 1)) =~= tagged(player, changed@.take(j as int)).push((player, changed@[j as int])));
                j += 1;
            }
            proof {
                assert(changed@.take(changed@.len() as int) =~= changed@);
                assert forall|i: int| 0 <= i < self.entities().len() implies (#[trigger] self.entities()[i]).ticks() == old(self).entities()[i].ticks() by {
                    assert(same_but_viewers(self.entities()[i], before.entities()[i]));
                }
                let old_states = states;
                let old_events = events;
                states = states.push(*self);
                events = events.push(changed@);
                assert forall|j2: int| 0 <= j2 < k + 1 implies #[trigger] update_step(
                    states[j2],
                    states[j2 + 1],
                    players@[j2],
                    should_track@[j2]@,
                    true,
                    events[j2],
                ) by {
                    if j2 < k {
                        assert(states[j2] == old_states[j2] && states[j2 + 1] == old_states[j2 + 1]);
                        assert(events[j2] == old_events[j2]);
                    } else {
                        assert(states[j2] == before);
                    }
                }
                assert(players@.take(k + 1).drop_last() =~= players@.take(k as int));
                assert(events.drop_last() =~= old_events);
            }
            k += 1;
        }
        proof {
            assert(players@.take(k as int) =~= players@);
        }
        let ghost mid = *self;
        let plans = self.send_all_changes(changes);
        let r = (pairings, plans);
        assert({
            &&& states.len() == players@.len() + 1
            &&& events.len() == players@.len()
            &&& states[0] == *old(self)
            &&& forall|k2: int| 0 <= k2 < players@.len() ==> #[trigger] update_step(
                states[k2],
                states[k2 + 1],
                players@[k2],
                should_track@[k2]@,
                true,
                events[k2],
            )
            &&& r.0@ == tagged_all(players@, events)
            &&& changes_step(states.last(), *self, changes@, r.1@)
        });
        r
    }

    /// Counts a tracking tick for the entity at a position in tracking order
    /// and decides what it sends, as `TrackedEntity::send_changes` does.
    pub fn send_changes(&mut self, index: usize, pos_changed: bool, rot_changed: bool, large_move: bool) -> (r: ChangePlan)
        requires
            old(self).wf(),
            index < old(self).entities().len(),
            old(self).entities()[index as int].ticks() < u64::MAX,
        ensures
            final(self).wf(),
            final(self).next_id() == old(self).next_id(),
            final(self).tracking() == old(self).tracking(),
            final(self).entities().len() == old(self).entities().len(),
            forall|i: int| 0 <= i < old(self).entities().len() && i != index ==> #[trigger] final(self).entities()[i]
                == old(self).entities()[i],
            ({
                let e0 = old(self).entities()[index as int];
                let e1 = final(self).entities()[index as int];
                &&& e1.ticks() == e0.ticks() + 1
                &&& e1.viewers() == e0.viewers()
                &&& e1.id() == e0.id()
                &&& e1.uuid() == e0.uuid()
                &&& e1.interval() == e0.interval()
                &&& e1.range() == e0.range()
                &&& r == if e0.interval() != 0 && (e1.ticks() as int) % (e0.interval() as int) == 0 {
                    plan_of(e0.viewers().len() > 0, pos_changed, rot_changed, large_move)
                } else {
                    idle_plan()
                }
            }),
            old(self).consistent() ==> final(self).consistent(),
    {
        let ghost before = self.entities@;
        assert(before[index as int].wf());
        let r = self.entities[index].send_changes(pos_changed, rot_changed, large_move);
        proof {
            assert(self.entities@ == before.update(index as int, self.entities@[index as int]));
            assert forall|j: int| 0 <= j < self.entities@.len() implies (#[trigger] self.entities@[j]).wf() by {
                if j != index {
                    assert(self.entities@[j] == before[j]);
                }
            }
            assert(ids_of(self.entities@) =~= ids_of(before));
            assert(self.tracking() =~= old(self).tracking());
            if old(self).consistent() {
                assert forall|i: int, q: u128| 0 <= i < self.entities().len() implies (self.entities()[i].viewers().contains(q) <==> (
                    self.tracking().dom().contains(q) && self.tracking()[q].contains(self.entities()[i].id()))) by {
                    assert(old(self).entities()[i].viewers().contains(q) <==> (old(self).tracking().dom().contains(q)
                        && old(self).tracking()[q].contains(old(self).entities()[i].id())));
                }
                assert forall|p: u128, x: i32| self.tracking().dom().contains(p) && #[trigger] self.tracking()[p].contains(x) implies self.ids().contains(x) by {
                    assert(old(self).tracking()[p].contains(x));
                }
            }
        }
        r
    }
}

/// Whether some tracked entity has a UUID.
pub open spec fn tracks_uuid(t: EntityTracker, uuid: u128) -> bool {
    exists|j: int| 0 <= j < t.entities().len() && #[trigger] t.entities()[j].uuid() == uuid
}

/// `b` is `a` after the first entity with a UUID stopped being tracked,
/// as `remove_entity` does, with `viewers` the players that saw it.
pub open spec fn removes_first_with_uuid(a: EntityTracker, b: EntityTracker, uuid: u128, viewers: Seq<u128>) -> bool {
    exists|k: int|
        0 <= k < a.entities().len() && a.entities()[k].uuid() == uuid
            && (forall|j: int| 0 <= j < k ==> a.entities()[j].uuid() != uuid)
            && b.entities() == a.entities().remove(k)
            && viewers.to_set() == a.entities()[k].viewers()
            && viewers.no_duplicates()
            && b.tracking() == without_id(a.tracking(), a.entities()[k].id())
            && b.next_id() == a.next_id()
}

/// Two trackers that track the same entities, the same way, and hand out
/// the same next id.
pub open spec fn same_state(a: EntityTracker, b: EntityTracker) -> bool {
    &&& a.entities() == b.entities()
    &&& a.tracking() == b.tracking()
    &&& a.next_id() == b.next_id()
}

/// `b` is `a` after an entity was tracked under an id, as `add_entity`
/// does: a fresh entity with the UUID and range takes the id's place (or is
/// added last), and nothing else changes.
pub open spec fn adds_entity(a: EntityTracker, b: EntityTracker, entity_id: i32, uuid: u128, range: i32) -> bool {
    &&& b.ids() == if a.ids().contains(entity_id) {
        a.ids()
    } else {
        a.ids().push(entity_id)
    }
    &&& forall|i: int|
        0 <= i < b.entities().len() ==> if b.ids()[i] == entity_id {
            is_fresh(#[trigger] b.entities()[i], entity_id, uuid, range)
        } else {
            b.entities()[i] == a.entities()[i]
        }
    &&& b.tracking() == a.tracking()
    &&& b.next_id() == a.next_id()
}

/// `b` is `a` after the entity with an id stopped being tracked, as
/// `remove_entity` does, with `viewers` the players that saw it (none when
/// the id was not tracked, and then nothing changes).
pub open spec fn removes_entity(a: EntityTracker, b: EntityTracker, entity_id: i32, viewers: Seq<u128>) -> bool {
    &&& if a.ids().contains(entity_id) {
        exists|k: int|
            0 <= k < a.entities().len() && a.entities()[k].id() == entity_id && b.entities()
                == a.entities().remove(k) && viewers.to_set() == a.entities()[k].viewers()
    } else {
        b.entities() == a.entities() && viewers.len() == 0
    }
    &&& viewers.no_duplicates()
    &&& b.tracking() == if a.ids().contains(entity_id) {
        without_id(a.tracking(), entity_id)
    } else {
        a.tracking()
    }
    &&& b.next_id() == a.next_id()
}

/// `b` is `a` after a player was forgotten, as `remove_player` does, with
/// `seen` the ids of the entities it saw.
pub open spec fn forgets_player(a: EntityTracker, b: EntityTracker, player: u128, seen: Seq<i32>) -> bool {
    &&& b.entities().len() == a.entities().len()
    &&& forall|i: int| 0 <= i < a.entities().len() ==> same_but_viewers(
        #[trigger] b.entities()[i],
        a.entities()[i],
    ) && b.entities()[i].viewers() == a.entities()[i].viewers().remove(player)
    &&& seen == ids_seen_by(a.entities(), player)
    &&& b.tracking() == a.tracking().remove(player)
    &&& b.next_id() == a.next_id()
}

proof fn lemma_no_events(s: Seq<TrackedEntity>, player: u128, vis: Set<i32>, should: Seq<bool>, tick: bool, n: nat)
    requires
        n <= s.len(),
        forall|i: int| 0 <= i < n ==> !starts(#[trigger] s[i], player, vis, should[i], tick) && !stops(s[i], player, vis, should[i], tick),
    ensures
        events_upto(s, player, vis, should, tick, n) == Seq::<VisibilityChange>::empty(),
    decreases n,
{
    if n > 0 {
        lemma_no_events(s, player, vis, should, tick, (n - 1) as nat);
        assert(!starts(s[n - 1], player, vis, should[n - 1], tick));
    }
}

/// After a tracking tick for a player, the player's visible set holds the
/// id of each other entity exactly when it was told it should see it.
pub proof fn law_tracking_follows_decisions(a: EntityTracker, player: u128, should: Seq<bool>, i: int)
    requires
        a.wf(),
        should.len() == a.entities().len(),
        0 <= i < a.entities().len(),
        a.entities()[i].uuid() != player,
    ensures
        visible_upto(
            a.entities(),
            player,
            visible_of(a.tracking(), player),
            should,
            true,
            a.entities().len() as int,
        ).contains(a.entities()[i].id()) == should[i],
{
    let ents = a.entities();
    let vis0 = visible_of(a.tracking(), player);
    let n = ents.len() as int;
    let x = ents[i].id();
    assert(a.ids()[i] == x);
    if exists|j: int| 0 <= j < n && #[trigger] ents[j].id() == x && stops(ents[j], player, vis0, should[j], true) {
        let j = choose|j: int| 0 <= j < n && #[trigger] ents[j].id() == x && stops(ents[j], player, vis0, should[j], true);
        assert(a.ids()[j] == a.ids()[i]);
    }
    if exists|j: int| 0 <= j < n && #[trigger] ents[j].id() == x && starts(ents[j], player, vis0, should[j], true) {
        let j = choose|j: int| 0 <= j < n && #[trigger] ents[j].id() == x && starts(ents[j], player, vis0, should[j], true);
        assert(a.ids()[j] == a.ids()[i]);
    }
    if starts(ents[i], player, vis0, should[i], true) {
        assert(ents[i].id() == x);
    }
    if stops(ents[i], player, vis0, should[i], true) {
        assert(ents[i].id() == x);
    }
}

/// A second tracking tick for a player with the same decisions pairs and
/// unpairs nothing: it reports no change and leaves every viewer set and
/// the player's visible set as they are.
pub proof fn law_tracking_update_settles(a: EntityTracker, b: EntityTracker, player: u128, should: Seq<bool>)
    requires
        a.wf(),
        should.len() == a.entities().len(),
        b.entities().len() == a.entities().len(),
        forall|i: int| 0 <= i < a.entities().len() ==> same_but_viewers(#[trigger] b.entities()[i], a.entities()[i]),
        b.tracking() == a.tracking().insert(
            player,
            visible_upto(a.entities(), player, visible_of(a.tracking(), player), should, true, a.entities().len() as int),
        ),
    ensures
        events_upto(b.entities(), player, visible_of(b.tracking(), player), should, true, b.entities().len())
            == Seq::<VisibilityChange>::empty(),
        forall|i: int| 0 <= i < b.entities().len() ==> viewers_after(
            #[trigger] b.entities()[i],
            player,
            visible_of(b.tracking(), player),
            should[i],
            true,
        ) == b.entities()[i].viewers(),
        visible_upto(b.entities(), player, visible_of(b.tracking(), player), should, true, b.entities().len() as int)
            == visible_of(b.tracking(), player),
{
    let vb = visible_of(b.tracking(), player);
    let n = b.entities().len() as int;
    assert forall|i: int| 0 <= i < n implies !starts(#[trigger] b.entities()[i], player, vb, should[i], true)
        && !stops(b.entities()[i], player, vb, should[i], true) by {
        assert(same_but_viewers(b.entities()[i], a.entities()[i]));
        if b.entities()[i].uuid() != player {
            law_tracking_follows_decisions(a, player, should, i);
        }
    }
    lemma_no_events(b.entities(), player, vb, should, true, n as nat);
    assert forall|x: i32| #[trigger] visible_upto(b.entities(), player, vb, should, true, n).contains(x) == vb.contains(x) by {
        if exists|j: int| 0 <= j < n && #[trigger] b.entities()[j].id() == x && stops(b.entities()[j], player, vb, should[j], true) {
            let j = choose|j: int| 0 <= j < n && #[trigger] b.entities()[j].id() == x && stops(b.entities()[j], player, vb, should[j], true);
            assert(!stops(b.entities()[j], player, vb, should[j], true));
        }
        if exists|j: int| 0 <= j < n && #[trigger] b.entities()[j].id() == x && starts(b.entities()[j], player, vb, should[j], true) {
            let j = choose|j: int| 0 <= j < n && #[trigger] b.entities()[j].id() == x && starts(b.entities()[j], player, vb, should[j], true);
            assert(!starts(b.entities()[j], player, vb, should[j], true));
        }
    }
    assert(visible_upto(b.entities(), player, vb, should, true, n) =~= vb);
}

/// Once a tracked entity stops being tracked, nobody sees it: its id is in
/// no player's visible set and no longer tracked.
pub proof fn law_removed_entity_unseen(a: EntityTracker, b: EntityTracker, entity_id: i32, viewers: Seq<u128>)
    requires
        a.wf(),
        a.ids().contains(entity_id),
        removes_entity(a, b, entity_id, viewers),
    ensures
        forall|p: u128| b.tracking().dom().contains(p) ==> !(#[trigger] b.tracking()[p]).contains(entity_id),
        !b.ids().contains(entity_id),
{
    let k = choose|k: int|
        0 <= k < a.entities().len() && a.entities()[k].id() == entity_id && b.entities()
            == a.entities().remove(k) && viewers.to_set() == a.entities()[k].viewers();
    lemma_ids_remove(a.entities(), k);
}

/// Once a player is forgotten, it has no visible set and no tracked entity
/// counts it among its viewers.
pub proof fn law_forgotten_player_sees_nothing(a: EntityTracker, b: EntityTracker, player: u128, seen: Seq<i32>)
    requires
        forgets_player(a, b, player, seen),
    ensures
        !b.tracking().dom().contains(player),
        forall|i: int| 0 <= i < b.entities().len() ==> !(#[trigger] b.entities()[i]).viewers().contains(player),
{
    assert forall|i: int| 0 <= i < b.entities().len() implies !(#[trigger] b.entities()[i]).viewers().contains(player) by {
        assert(b.entities()[i].viewers() == a.entities()[i].viewers().remove(player));
    }
}

/// `b` is `a` after an update of a player's pairings, with one decision
/// per tracked entity (a tracking tick when `tick`, else a join), and
/// `events` the pairings that started or ended.
pub open spec fn update_step(
    a: EntityTracker,
    b: EntityTracker,
    player: u128,
    should: Seq<bool>,
    tick: bool,
    events: Seq<VisibilityChange>,
) -> bool {
    &&& b.next_id() == a.next_id()
    &&& b.entities().len() == a.entities().len()
    &&& forall|i: int| 0 <= i < a.entities().len() ==> same_but_viewers(
        #[trigger] b.entities()[i],
        a.entities()[i],
    ) && b.entities()[i].viewers() == viewers_after(
        a.entities()[i],
        player,
        visible_of(a.tracking(), player),
        should[i],
        tick,
    )
    &&& b.tracking() == a.tracking().insert(
        player,
        visible_upto(a.entities(), player, visible_of(a.tracking(), player), should, tick, a.entities().len() as int),
    )
    &&& events == events_upto(a.entities(), player, visible_of(a.tracking(), player), should, tick, a.entities().len())
}

/// Each change of a sequence tagged with a player.
pub open spec fn tagged(player: u128, events: Seq<VisibilityChange>) -> Seq<(u128, VisibilityChange)> {
    events.map_values(|e: VisibilityChange| (player, e))
}

/// The changes of the players' updates, player after player, each tagged
/// with its player.
pub open spec fn tagged_all(players: Seq<u128>, events: Seq<Seq<VisibilityChange>>) -> Seq<(u128, VisibilityChange)>
    decreases players.len(),
{
    if players.len() == 0 || events.len() == 0 {
        Seq::empty()
    } else {
        tagged_all(players.drop_last(), events.drop_last()) + tagged(players.last(), events.last())
    }
}

/// The plan of one entity's tracking tick, as `TrackedEntity::send_changes`
/// decides it: `e1` is `e0` one tick later.
pub open spec fn entity_tick(e0: TrackedEntity, e1: TrackedEntity, change: (bool, bool, bool), plan: ChangePlan) -> bool {
    &&& e1.ticks() == e0.ticks() + 1
    &&& e1.viewers() == e0.viewers()
    &&& e1.id() == e0.id()
    &&& e1.uuid() == e0.uuid()
    &&& e1.interval() == e0.interval()
    &&& e1.range() == e0.range()
    &&& e1.wf() == e0.wf()
    &&& plan == if e0.interval() != 0 && (e1.ticks() as int) % (e0.interval() as int) == 0 {
        plan_of(e0.viewers().len() > 0, change.0, change.1, change.2)
    } else {
        idle_plan()
    }
}

/// `b` is `a` after every tracked entity's tracking tick, with one change
/// triple (position changed, rotation changed, move too large) and one plan
/// per entity.
pub open spec fn changes_step(a: EntityTracker, b: EntityTracker, changes: Seq<(bool, bool, bool)>, plans: Seq<ChangePlan>) -> bool {
    &&& b.next_id() == a.next_id()
    &&& b.tracking() == a.tracking()
    &&& b.entities().len() == a.entities().len()
    &&& plans.len() == a.entities().len()
    &&& forall|i: int| 0 <= i < a.entities().len() ==> entity_tick(
        a.entities()[i],
        #[trigger] b.entities()[i],
        changes[i],
        plans[i],
    )
}

/// Removing an entity right after adding it under a fresh id undoes the
/// add: the same entities are tracked, every player sees the same ids, and
/// nobody is sent a removal packet.
pub proof fn law_remove_undoes_add(
    a: EntityTracker,
    b: EntityTracker,
    c: EntityTracker,
    entity_id: i32,
    uuid: u128,
    range: i32,
    viewers: Seq<u128>,
)
    requires
        a.wf(),
        a.consistent(),
        !a.ids().contains(entity_id),
        adds_entity(a, b, entity_id, uuid, range),
        b.wf(),
        removes_entity(b, c, entity_id, viewers),
    ensures
        c.entities() == a.entities(),
        c.tracking() == a.tracking(),
        viewers.len() == 0,
{
    let n = a.entities().len();
    assert(b.ids().len() == n + 1);
    assert(b.ids()[n as int] == entity_id);
    assert(b.ids().contains(entity_id));
    let k = choose|k: int|
        0 <= k < b.entities().len() && b.entities()[k].id() == entity_id && c.entities()
            == b.entities().remove(k) && viewers.to_set() == b.entities()[k].viewers();
    assert(b.ids()[k] == b.ids()[n as int]);
    assert(k == n);
    assert(is_fresh(b.entities()[k], entity_id, uuid, range));
    assert forall|i: int| 0 <= i < n implies #[trigger] b.entities()[i] == a.entities()[i] by {
        assert(b.ids()[i] == a.ids()[i]);
        if b.ids()[i] == entity_id {
            assert(a.ids().contains(entity_id));
        }
    }
    assert(c.entities() =~= a.entities());
    assert(viewers.no_duplicates());
    assert(viewers.to_set() =~= Set::<u128>::empty());
    viewers.unique_seq_to_set();
    assert forall|p: u128| #[trigger] c.tracking().dom().contains(p) implies c.tracking()[p] == a.tracking()[p] by {
        if a.tracking()[p].contains(entity_id) {
            assert(a.ids().contains(entity_id));
        }
        assert(a.tracking()[p].remove(entity_id) =~= a.tracking()[p]);
    }
    assert(c.tracking() =~= a.tracking());
}

proof fn lemma_next_ids(states: Seq<EntityTracker>, m: int)
    requires
        0 <= m < states.len(),
        states[0].next_id() == FIRST_ENTITY_ID,
        forall|k: int| 0 <= k < states.len() - 1 ==> #[trigger] states[k + 1].next_id() == states[k].next_id() + 1,
    ensures
        states[m].next_id() == FIRST_ENTITY_ID + m,
    decreases m,
{
    if m > 0 {
        lemma_next_ids(states, m - 1);
        assert(states[(m - 1) + 1].next_id() == states[m - 1].next_id() + 1);
    }
}

/// Entity ids are handed out in order from the first one: on a new tracker
/// the `k`-th `allocate_entity_id` gives `FIRST_ENTITY_ID + k`, so every id
/// it gives is fresh and larger than all earlier ones. `states` are the
/// trackers before and after each call and `ids` what the calls returned, as
/// `new` and `allocate_entity_id` state them.
pub proof fn law_allocation_counts_up(states: Seq<EntityTracker>, ids: Seq<i32>)
    requires
        states.len() == ids.len() + 1,
        states[0].next_id() == FIRST_ENTITY_ID,
        forall|k: int| 0 <= k < ids.len() ==> #[trigger] ids[k] == states[k].next_id(),
        forall|k: int| 0 <= k < ids.len() ==> #[trigger] states[k + 1].next_id() == states[k].next_id() + 1,
    ensures
        forall|k: int| 0 <= k < ids.len() ==> #[trigger] ids[k] == FIRST_ENTITY_ID + k,
        forall|a: int, b: int| 0 <= a < b < ids.len() ==> ids[a] < ids[b],
{
    assert forall|k: int| 0 <= k < ids.len() implies #[trigger] ids[k] == FIRST_ENTITY_ID + k by {
        lemma_next_ids(states, k);
    }
    assert forall|a: int, b: int| 0 <= a < b < ids.len() implies ids[a] < ids[b] by {
        assert(ids[a] == FIRST_ENTITY_ID + a);
        assert(ids[b] == FIRST_ENTITY_ID + b);
    }
}

} // verus!
