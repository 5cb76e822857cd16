//! Entity types and their registry, looked up by network id or by registry
//! key.

use vstd::prelude::*;

verus! {

/// An entity type as the logic reads it.
#[derive(Debug, Clone)]
pub struct EntityType {
    /// The network id, also its position in the registry.
    pub id: i32,
    /// The registry key, such as `minecraft:zombie`.
    pub key: String,
    /// Whether `/summon` may create it.
    pub summonable: bool,
    /// Whether it may exist on Peaceful difficulty.
    pub allowed_in_peaceful: bool,
    /// How far away, in blocks, players see it.
    pub tracking_range_blocks: i32,
}

impl EntityType {
    /// Whether `/summon` may create the type.
    pub fn can_summon(&self) -> (r: bool)
        ensures
            r == self.summonable,
    {
        self.summonable
    }

    /// Whether the type may exist on Peaceful difficulty.
    pub fn is_allowed_in_peaceful(&self) -> (r: bool)
        ensures
            r == self.allowed_in_peaceful,
    {
        self.allowed_in_peaceful
    }

    /// How far away, in blocks, players see entities of the type.
    pub fn tracking_range_blocks(&self) -> (r: i32)
        ensures
            r == self.tracking_range_blocks,
    {
        self.tracking_range_blocks
    }
}

/// The position of the last type with a key, if any (a later registration
/// under a key shadows an earlier one).
pub open spec fn last_index_with_key(types: Seq<EntityType>, key: Seq<char>) -> Option<int>
    decreases types.len(),
{
    if types.len() == 0 {
        None
    } else if types.last().key@ == key {
        Some(types.len() - 1)
    } else {
        last_index_with_key(types.drop_last(), key)
    }
}

/// Registry for entity types with lookup by id and key.
pub struct EntityTypeRegistry {
    types: Vec<EntityType>,
}

impl EntityTypeRegistry {
    /// The registered types, in id order.
    pub closed spec fn types(&self) -> Seq<EntityType> {
        self.types@
    }

    /// Each type's id is its position, and the positions fit an `i32`.
    pub open spec fn wf(&self) -> bool {
        &&& self.types().len() <= i32::MAX as nat + 1
        &&& forall|i: int| 0 <= i < self.types().len() ==> (#[trigger] self.types()[i]).id == i
    }

    /// Creates a registry of all the given types; each type's id must be its
    /// position in the list.
    pub fn new(all: Vec<EntityType>) -> (r: Self)
        requires
            all@.len() <= i32::MAX as nat + 1,
            forall|i: int| 0 <= i < all@.len() ==> (#[trigger] all@[i]).id == i,
        ensures
            r.types() == all@,
            r.wf(),
    {
        EntityTypeRegistry { types: all }
    }

    /// The type with a network id, if there is one.
    pub fn by_id(&self, id: i32) -> (r: Option<&EntityType>)
        ensures
            match r {
                Some(t) => 0 <= id < self.types().len() && *t == self.types()[id as int],
                None => !(0 <= id < self.types().len()),
            },
    {
        if id >= 0 && (id as usize) < self.types.len() {
            Some(&self.types[id as usize])
        } else {
            None
        }
    }

    /// The type registered under a key (the last one, should two share it).
    pub fn by_key(&self, key: &str) -> (r: Option<&EntityType>)
        ensures
            match last_index_with_key(self.types(), key@) {
                Some(k) => r == Some(&self.types()[k]),
                None => r is None,
            },
    {
        let wanted = key.to_owned();
        let mut i: usize = self.types.len();
        assert(self.types@.take(i as int) =~= self.types@);
        while i > 0
            invariant
                i <= self.types@.len(),
                wanted@ == key@,
                last_index_with_key(self.types@, key@) == last_index_with_key(self.types@.take(i as int), key@),
            decreases i,
        {
            let ghost prefix = self.types@.take(i as int);
            assert(prefix.drop_last() =~= self.types@.take(i - 1));
            assert(prefix.last() == self.types@[i - 1]);
            if self.types[i - 1].key == wanted {
                return Some(&self.types[i - 1]);
            }
            i -= 1;
        }
        assert(self.types@.take(0) =~= Seq::<EntityType>::empty());
        None
    }

    /// The network id of a type.
    pub fn get_id(&self, entity_type: &EntityType) -> (r: i32)
        ensures
            r == entity_type.id,
    {
        entity_type.id
    }

    /// The registered types with their ids, in id order.
    pub fn iter(&self) -> (r: Vec<(i32, &EntityType)>)
        requires
            self.wf(),
        ensures
            r@.len() == self.types().len(),
            forall|i: int| 0 <= i < r@.len() ==> (#[trigger] r@[i]).0 == i && *r@[i].1 == self.types()[i],
    {
        let mut out: Vec<(i32, &EntityType)> = Vec::new();
        let mut i: usize = 0;
        while i < self.types.len()
            invariant
                self.wf(),
                i <= self.types@.len(),
                out@.len() == i,
                forall|j: int| 0 <= j < i ==> (#[trigger] out@[j]).0 == j && *out@[j].1 == self.types@[j],
            decreases self.types@.len() - i,
        {
            assert(self.types@[i as int].id == i);
            out.push((i as i32, &self.types[i]));
            i += 1;
        }
        out
    }

    /// The number of registered types.
    pub fn len(&self) -> (r: usize)
        ensures
            r == self.types().len(),
    {
        self.types.len()
    }

    /// Whether no type is registered.
    pub fn is_empty(&self) -> (r: bool)
        ensures
            r == (self.types().len() == 0),
    {
        self.types.len() == 0
    }
}

} // verus!
