//! Entity behaviour registry for looking up behaviours by entity type id.

use vstd::prelude::*;

use crate::behaviour::{DefaultEntityBehaviour, DisplayBehaviour, EntityBehaviour, SlimeBehaviour};
use crate::entity_data::{EntityData, EntityDataValue};
use crate::snbt::{NbtCompound, NbtTag};

verus! {

/// The behaviour an entity type is given.
#[derive(Debug, Clone, Copy, PartialEq, Eq, Structural)]
pub enum Behaviour {
    /// Nothing beyond the common entity data.
    Default,
    /// Slimes and magma cubes: the size field.
    Slime,
    /// Block, item and text displays.
    Display,
}

impl EntityBehaviour for Behaviour {
    open spec fn can_write(&self, data: EntityData) -> bool {
        match self {
            Behaviour::Default => DefaultEntityBehaviour.can_write(data),
            Behaviour::Slime => SlimeBehaviour.can_write(data),
            Behaviour::Display => DisplayBehaviour.can_write(data),
        }
    }

    proof fn lemma_can_write_frame(&self, a: EntityData, b: EntityData) {
        match self {
            Behaviour::Default => DefaultEntityBehaviour.lemma_can_write_frame(a, b),
            Behaviour::Slime => SlimeBehaviour.lemma_can_write_frame(a, b),
            Behaviour::Display => DisplayBehaviour.lemma_can_write_frame(a, b),
        }
    }

    open spec fn defined_fields(&self, before: Map<u8, (EntityDataValue, bool)>) -> Map<u8, (EntityDataValue, bool)> {
        match self {
            Behaviour::Default => DefaultEntityBehaviour.defined_fields(before),
            Behaviour::Slime => SlimeBehaviour.defined_fields(before),
            Behaviour::Display => DisplayBehaviour.defined_fields(before),
        }
    }

    /// Defines the fields of the behaviour's kind.
    fn define_entity_data(&self, data: &mut EntityData) {
        match self {
            Behaviour::Default => DefaultEntityBehaviour.define_entity_data(data),
            Behaviour::Slime => SlimeBehaviour.define_entity_data(data),
            Behaviour::Display => DisplayBehaviour.define_entity_data(data),
        }
    }

    open spec fn read_fields(&self, before: Map<u8, (EntityDataValue, bool)>, nbt: NbtCompound) -> Map<u8, (EntityDataValue, bool)> {
        match self {
            Behaviour::Default => DefaultEntityBehaviour.read_fields(before, nbt),
            Behaviour::Slime => SlimeBehaviour.read_fields(before, nbt),
            Behaviour::Display => DisplayBehaviour.read_fields(before, nbt),
        }
    }

    /// Reads the tags of the behaviour's kind.
    fn read_nbt(&self, data: &mut EntityData, nbt: &NbtCompound) {
        match self {
            Behaviour::Default => DefaultEntityBehaviour.read_nbt(data, nbt),
            Behaviour::Slime => SlimeBehaviour.read_nbt(data, nbt),
            Behaviour::Display => DisplayBehaviour.read_nbt(data, nbt),
        }
    }

    /// Writes the tags of the behaviour's kind: nothing, or for slimes the
    /// `Size` tag (the size field less one) appended.
    fn write_nbt(&self, data: &EntityData, nbt: &mut NbtCompound)
        ensures
            match self {
                Behaviour::Slime => {
                    let v = data.fields()[16].0->Int_0;
                    &&& final(nbt).entries@.len() == old(nbt).entries@.len() + 1
                    &&& final(nbt).entries@.drop_last() == old(nbt).entries@
                    &&& final(nbt).entries@.last().0@ == seq!['S', 'i', 'z', 'e']
                    &&& final(nbt).entries@.last().1 == NbtTag::Int((v - 1) as i32)
                },
                _ => final(nbt).entries@ == old(nbt).entries@,
            },
    {
        match self {
            Behaviour::Default => DefaultEntityBehaviour.write_nbt(data, nbt),
            Behaviour::Slime => SlimeBehaviour.write_nbt(data, nbt),
            Behaviour::Display => DisplayBehaviour.write_nbt(data, nbt),
        }
    }
}

/// The ids of the entity types that get a behaviour of their own.
#[derive(Debug, Clone, Copy)]
pub struct BehaviourTypeIds {
    /// `minecraft:slime`
    pub slime: usize,
    /// `minecraft:magma_cube`
    pub magma_cube: usize,
    /// `minecraft:block_display`
    pub block_display: usize,
    /// `minecraft:item_display`
    pub item_display: usize,
    /// `minecraft:text_display`
    pub text_display: usize,
}

/// The behaviour that registration gives an entity type id: slimes and
/// magma cubes the slime behaviour, the three displays the display
/// behaviour, every other type the default one.
pub open spec fn assigned_behaviour(ids: BehaviourTypeIds, i: int) -> Behaviour {
    if i == ids.text_display || i == ids.item_display || i == ids.block_display {
        Behaviour::Display
    } else if i == ids.magma_cube || i == ids.slime {
        Behaviour::Slime
    } else {
        Behaviour::Default
    }
}

/// Registry for entity behaviours, indexed by entity type id.
pub struct EntityBehaviourRegistry {
    behaviors: Vec<Behaviour>,
}

impl EntityBehaviourRegistry {
    /// The behaviour of each entity type, by id.
    pub closed spec fn behaviours(&self) -> Seq<Behaviour> {
        self.behaviors@
    }

    /// Creates the registry for `type_count` entity types: every type gets
    /// the default behaviour, then the slime, magma cube and display types
    /// get theirs.
    pub fn new(type_count: usize, ids: BehaviourTypeIds) -> (r: Self)
        requires
            ids.slime < type_count,
            ids.magma_cube < type_count,
            ids.block_display < type_count,
            ids.item_display < type_count,
            ids.text_display < type_count,
        ensures
            r.behaviours().len() == type_count,
            forall|i: int| 0 <= i < type_count ==> #[trigger] r.behaviours()[i] == assigned_behaviour(ids, i),
    {
        let mut behaviors: Vec<Behaviour> = Vec::new();
        let mut i: usize = 0;
        while i < type_count
            invariant
                i <= type_count,
                behaviors@.len() == i,
                forall|j: int| 0 <= j < i ==> #[trigger] behaviors@[j] == Behaviour::Default,
            decreases type_count - i,
        {
            behaviors.push(Behaviour::Default);
            i += 1;
        }
        Self::assign_behaviour(&mut behaviors, ids.slime, Behaviour::Slime);
        Self::assign_behaviour(&mut behaviors, ids.magma_cube, Behaviour::Slime);
        Self::assign_behaviour(&mut behaviors, ids.block_display, Behaviour::Display);
        Self::assign_behaviour(&mut behaviors, ids.item_display, Behaviour::Display);
        Self::assign_behaviour(&mut behaviors, ids.text_display, Behaviour::Display);
        EntityBehaviourRegistry { behaviors }
    }

    /// Helper to assign a behaviour to an entity type.
    fn assign_behaviour(behaviors: &mut Vec<Behaviour>, entity_type_id: usize, behaviour: Behaviour)
        requires
            entity_type_id < old(behaviors)@.len(),
        ensures
            final(behaviors)@ == old(behaviors)@.update(entity_type_id as int, behaviour),
    {
        behaviors.set(entity_type_id, behaviour);
    }

    /// The behaviour for an entity type id; the default one for an id that
    /// names no type.
    pub open spec fn get_behavior_spec(&self, entity_type_id: i32) -> Behaviour {
        if 0 <= entity_type_id < self.behaviours().len() {
            self.behaviours()[entity_type_id as int]
        } else {
            Behaviour::Default
        }
    }

    /// The behaviour for an entity type id; the default one for an id that
    /// names no type.
    pub fn get_behavior(&self, entity_type_id: i32) -> (r: Behaviour)
        ensures
            r == self.get_behavior_spec(entity_type_id),
    {
        if entity_type_id >= 0 && (entity_type_id as usize) < self.behaviors.len() {
            self.behaviors[entity_type_id as usize]
        } else {
            Behaviour::Default
        }
    }
}

} // verus!
