//! Entity-type-specific behaviour: which synced data fields a type has and
//! how it reads and writes its own NBT.

use vstd::prelude::*;

use crate::entity_data::{
    EntityBlockState, EntityData, EntityDataAccessor, EntityDataValue, Float32, IntoEntityData,
    ONE_BITS, Quaternionf, Vector3f,
};
use crate::snbt::{NbtCompound, NbtTag};

verus! {

/// A boolean as NBT holds it: a byte or an int, non-zero meaning `true`.
pub open spec fn bool_of_tag(tag: NbtTag) -> Option<bool> {
    match tag {
        NbtTag::Byte(b) => Some(b != 0),
        NbtTag::Int(i) => Some(i != 0),
        _ => None,
    }
}

/// An int as NBT holds it: a byte, a short or an int.
pub open spec fn i32_of_tag(tag: NbtTag) -> Option<i32> {
    match tag {
        NbtTag::Byte(b) => Some(b as i32),
        NbtTag::Short(s) => Some(s as i32),
        NbtTag::Int(i) => Some(i),
        _ => None,
    }
}

/// Helper to parse boolean from NBT (accepts Byte or Int)
pub fn nbt_bool(tag: &NbtTag) -> (r: Option<bool>)
    ensures
        r == bool_of_tag(*tag),
{
    match tag {
        NbtTag::Byte(b) => Some(*b != 0),
        NbtTag::Int(i) => Some(*i != 0),
        _ => None,
    }
}

/// Helper to parse i32 from NBT
pub fn nbt_i32(tag: &NbtTag) -> (r: Option<i32>)
    ensures
        r == i32_of_tag(*tag),
{
    match tag {
        NbtTag::Byte(b) => Some(*b as i32),
        NbtTag::Short(s) => Some(*s as i32),
        NbtTag::Int(i) => Some(*i),
        _ => None,
    }
}

/// The value of the first entry of a compound whose key is `key`, if any.
pub open spec fn nbt_lookup(c: NbtCompound, key: Seq<char>) -> Option<NbtTag> {
    if exists|i: int| 0 <= i < c.entries@.len() && c.entries@[i].0@ == key {
        let i = choose|i: int|
            0 <= i < c.entries@.len() && c.entries@[i].0@ == key && forall|j: int|
                0 <= j < i ==> c.entries@[j].0@ != key;
        Some(c.entries@[i].1)
    } else {
        None
    }
}

/// Looks a key up in a compound (the first entry with that key).
pub fn lookup<'a>(c: &'a NbtCompound, key: &str) -> (r: Option<&'a NbtTag>)
    ensures
        match r {
            Some(t) => nbt_lookup(*c, key@) == Some(*t),
            None => nbt_lookup(*c, key@) is None,
        },
{
    let r = c.get(key);
    proof {
        if let Some(t) = r {
            let i = choose|i: int|
                0 <= i < c.entries@.len() && c.entries@[i].0@ == key@ && *t == c.entries@[i].1
                    && forall|j: int| 0 <= j < i ==> c.entries@[j].0@ != key@;
            let i2 = choose|i2: int|
                0 <= i2 < c.entries@.len() && c.entries@[i2].0@ == key@ && forall|j: int|
                    0 <= j < i2 ==> c.entries@[j].0@ != key@;
            if i < i2 {
                assert(c.entries@[i].0@ != key@);
            } else if i2 < i {
                assert(c.entries@[i2].0@ != key@);
            }
        }
    }
    r
}

/// The fields below 8 (those every entity has) are as they were.
pub open spec fn keeps_base_fields(before: EntityData, after: EntityData) -> bool {
    &&& forall|id: u8|
        id < 8 ==> (#[trigger] after.fields().contains_key(id)) == before.fields().contains_key(id)
    &&& forall|id: u8| id < 8 ==> (#[trigger] after.fields()[id]) == before.fields()[id]
}

/// The fields from 8 on (those of an entity type) are the same in both.
pub open spec fn same_type_fields(a: EntityData, b: EntityData) -> bool {
    forall|id: u8|
        id >= 8 ==> (#[trigger] b.fields().contains_key(id) == a.fields().contains_key(id)
            && b.fields()[id] == a.fields()[id])
}

/// Entity-type-specific behaviour.
///
/// Each entity type can have a behaviour that defines its synced data fields
/// and how it reads and writes its own NBT.
pub trait EntityBehaviour {
    /// Whether the data holds what `write_nbt` reads.
    spec fn can_write(&self, data: EntityData) -> bool;

    /// What `write_nbt` needs lies in the fields of the type (8 and above).
    proof fn lemma_can_write_frame(&self, a: EntityData, b: EntityData)
        requires
            self.can_write(a),
            same_type_fields(a, b),
        ensures
            self.can_write(b),
    ;

    /// The fields after `define_entity_data`, given those before.
    spec fn defined_fields(&self, before: Map<u8, (EntityDataValue, bool)>) -> Map<u8, (EntityDataValue, bool)>;

    /// Define entity-type-specific synched data.
    /// Called once when entity is created.
    fn define_entity_data(&self, data: &mut EntityData)
        requires
            old(data).wf(),
        ensures
            final(data).wf(),
            final(data).fields() == self.defined_fields(old(data).fields()),
            final(data).owner() == old(data).owner(),
            final(data).dirty_flag() == old(data).dirty_flag(),
            keeps_base_fields(*old(data), *final(data)),
            self.can_write(*final(data)),
    ;

    /// The fields after `read_nbt` of a compound, given those before.
    spec fn read_fields(&self, before: Map<u8, (EntityDataValue, bool)>, nbt: NbtCompound) -> Map<u8, (EntityDataValue, bool)>;

    /// Read entity-type-specific NBT.
    /// Called after common NBT (position, rotation, flags) is applied.
    fn read_nbt(&self, data: &mut EntityData, nbt: &NbtCompound)
        requires
            old(data).wf(),
            self.can_write(*old(data)),
        ensures
            final(data).wf(),
            final(data).fields() == self.read_fields(old(data).fields(), *nbt),
            final(data).owner() == old(data).owner(),
            keeps_base_fields(*old(data), *final(data)),
            self.can_write(*final(data)),
    ;

    /// Write entity-type-specific NBT.
    fn write_nbt(&self, data: &EntityData, nbt: &mut NbtCompound)
        requires
            data.wf(),
            self.can_write(*data),
    ;
}

/// Default behaviour for entities without custom implementation.
pub struct DefaultEntityBehaviour;

impl EntityBehaviour for DefaultEntityBehaviour {
    open spec fn can_write(&self, data: EntityData) -> bool {
        true
    }

    proof fn lemma_can_write_frame(&self, a: EntityData, b: EntityData) {
    }

    open spec fn defined_fields(&self, before: Map<u8, (EntityDataValue, bool)>) -> Map<u8, (EntityDataValue, bool)> {
        before
    }

    /// Defines nothing.
    fn define_entity_data(&self, data: &mut EntityData) {
    }

    open spec fn read_fields(&self, before: Map<u8, (EntityDataValue, bool)>, nbt: NbtCompound) -> Map<u8, (EntityDataValue, bool)> {
        before
    }

    /// Reads nothing.
    fn read_nbt(&self, data: &mut EntityData, nbt: &NbtCompound)
        ensures
            final(data).fields() == old(data).fields(),
            final(data).dirty_flag() == old(data).dirty_flag(),
    {
    }

    /// Writes nothing.
    fn write_nbt(&self, data: &EntityData, nbt: &mut NbtCompound)
        ensures
            final(nbt).entries@ == old(nbt).entries@,
    {
    }
}

/// The slime size a `Size` tag gives: one more than the tag, within `1..=127`.
pub open spec fn slime_size_of(size: i32) -> i32 {
    if size + 1 < 1 {
        1
    } else if size + 1 > 127 {
        127
    } else {
        (size + 1) as i32
    }
}

/// Behaviour for Slime and Magma Cube entities.
///
/// Handles the `Size` NBT tag (0-indexed) and `SLIME_SIZE` entity data (1-indexed).
pub struct SlimeBehaviour;

impl EntityBehaviour for SlimeBehaviour {
    /// The size field holds an int that one can be taken from.
    open spec fn can_write(&self, data: EntityData) -> bool {
        &&& data.fields().contains_key(16)
        &&& data.fields()[16].0 matches EntityDataValue::Int(v)
        &&& v > i32::MIN
    }

    proof fn lemma_can_write_frame(&self, a: EntityData, b: EntityData) {
        assert(b.fields().contains_key(16) == a.fields().contains_key(16));
    }

    open spec fn defined_fields(&self, before: Map<u8, (EntityDataValue, bool)>) -> Map<u8, (EntityDataValue, bool)> {
        before.insert(16, (EntityDataValue::Int(1), true))
    }

    /// Defines the size field, at 1.
    fn define_entity_data(&self, data: &mut EntityData) {
        data.define(EntityDataAccessor::slime_size(), 1i32);
    }

    open spec fn read_fields(&self, before: Map<u8, (EntityDataValue, bool)>, nbt: NbtCompound) -> Map<u8, (EntityDataValue, bool)> {
        match nbt_lookup(nbt, seq!['S', 'i', 'z', 'e']) {
            Some(tag) => match i32_of_tag(tag) {
                Some(size) => before.insert(16, (EntityDataValue::Int(slime_size_of(size)), true)),
                None => before,
            },
            None => before,
        }
    }

    /// Sets the size field from a `Size` tag that holds an int.
    fn read_nbt(&self, data: &mut EntityData, nbt: &NbtCompound)
        ensures
            match nbt_lookup(*nbt, seq!['S', 'i', 'z', 'e']) {
                Some(tag) => match i32_of_tag(tag) {
                    Some(size) => final(data).fields() == old(data).fields().insert(
                        16,
                        (EntityDataValue::Int(slime_size_of(size)), true),
                    ) && final(data).dirty_flag(),
                    None => final(data).fields() == old(data).fields() && final(data).dirty_flag()
                        == old(data).dirty_flag(),
                },
                None => final(data).fields() == old(data).fields() && final(data).dirty_flag()
                    == old(data).dirty_flag(),
            },
    {
        let key = "Size";
        proof {
            reveal_strlit("Size");
        }
        assert(key@ =~= seq!['S', 'i', 'z', 'e']);
        if let Some(tag) = lookup(nbt, key) {
            if let Some(size) = nbt_i32(tag) {
                let clamped: i32 = if size >= 126 {
                    127
                } else if size < 0 {
                    1
                } else {
                    size + 1
                };
                data.set(EntityDataAccessor::slime_size(), clamped);
            }
        }
    }

    /// Writes the `Size` tag: the size field less one.
    fn write_nbt(&self, data: &EntityData, nbt: &mut NbtCompound)
        ensures
            ({
                let v = data.fields()[16].0->Int_0;
                final(nbt).entries@.len() == old(nbt).entries@.len() + 1
                    && final(nbt).entries@.drop_last() == old(nbt).entries@
                    && final(nbt).entries@.last().0@ == seq!['S', 'i', 'z', 'e']
                    && final(nbt).entries@.last().1 == NbtTag::Int((v - 1) as i32)
            }),
    {
        let size: i32 = data.get(EntityDataAccessor::slime_size());
        let key = String::from_str("Size");
        proof {
            reveal_strlit("Size");
        }
        nbt.insert(key, NbtTag::Int(size - 1));
    }
}

/// Behaviour for Display entities (`block_display`, `item_display`, `text_display`).
///
/// Handles the display-specific entity data fields.
pub struct DisplayBehaviour;

impl EntityBehaviour for DisplayBehaviour {
    open spec fn can_write(&self, data: EntityData) -> bool {
        true
    }

    proof fn lemma_can_write_frame(&self, a: EntityData, b: EntityData) {
    }

    open spec fn defined_fields(&self, before: Map<u8, (EntityDataValue, bool)>) -> Map<u8, (EntityDataValue, bool)> {
        before.insert(
            8,
            (EntityDataValue::Int(0), true),
        ).insert(9, (EntityDataValue::Int(0), true)).insert(
            10,
            (EntityDataValue::Int(0), true),
        ).insert(11, (EntityDataValue::Vector3(Vector3f(0, 0, 0)), true)).insert(
            12,
            (EntityDataValue::Vector3(Vector3f(ONE_BITS, ONE_BITS, ONE_BITS)), true),
        ).insert(13, (EntityDataValue::Quaternion(Quaternionf(0, 0, 0, ONE_BITS)), true)).insert(
            14,
            (EntityDataValue::Quaternion(Quaternionf(0, 0, 0, ONE_BITS)), true),
        ).insert(15, (EntityDataValue::Byte(0), true)).insert(
            16,
            (EntityDataValue::Int(-1i32), true),
        ).insert(17, (EntityDataValue::Float(ONE_BITS), true)).insert(
            18,
            (EntityDataValue::Float(0), true),
        ).insert(19, (EntityDataValue::Float(ONE_BITS), true)).insert(
            20,
            (EntityDataValue::Float(0), true),
        ).insert(21, (EntityDataValue::Float(0), true)).insert(
            22,
            (EntityDataValue::Int(-1i32), true),
        ).insert(23, (EntityDataValue::BlockState(EntityBlockState(0)), true))
    }

    /// Defines the display fields with their vanilla defaults.
    fn define_entity_data(&self, data: &mut EntityData) {
        data.define(EntityDataAccessor::display_interpolation_start(), 0i32);
        data.define(EntityDataAccessor::display_interpolation_duration(), 0i32);
        data.define(EntityDataAccessor::display_pos_rot_interpolation(), 0i32);
        data.define(EntityDataAccessor::display_translation(), Vector3f::default());
        data.define(EntityDataAccessor::display_scale(), Vector3f(ONE_BITS, ONE_BITS, ONE_BITS));
        data.define(EntityDataAccessor::display_left_rotation(), Quaternionf::default());
        data.define(EntityDataAccessor::display_right_rotation(), Quaternionf::default());
        data.define(EntityDataAccessor::display_billboard(), 0u8);
        data.define(EntityDataAccessor::display_brightness(), -1i32);
        data.define(EntityDataAccessor::display_view_range(), Float32(ONE_BITS));
        data.define(EntityDataAccessor::display_shadow_radius(), Float32(0));
        data.define(EntityDataAccessor::display_shadow_strength(), Float32(ONE_BITS));
        data.define(EntityDataAccessor::display_width(), Float32(0));
        data.define(EntityDataAccessor::display_height(), Float32(0));
        data.define(EntityDataAccessor::display_glow_color(), -1i32);
        data.define(EntityDataAccessor::block_display_state(), EntityBlockState(0));
    }

    open spec fn read_fields(&self, before: Map<u8, (EntityDataValue, bool)>, nbt: NbtCompound) -> Map<u8, (EntityDataValue, bool)> {
        before
    }

    /// Reads nothing here (the block state needs the block registry).
    fn read_nbt(&self, data: &mut EntityData, nbt: &NbtCompound)
        ensures
            final(data).fields() == old(data).fields(),
            final(data).dirty_flag() == old(data).dirty_flag(),
    {
    }

    /// Writes nothing.
    fn write_nbt(&self, data: &EntityData, nbt: &mut NbtCompound)
        ensures
            final(nbt).entries@ == old(nbt).entries@,
    {
    }
}

/// Zombie entity behaviour (its synced data and NBT).
pub struct ZombieBehaviour;

impl EntityBehaviour for ZombieBehaviour {
    /// The is-baby field holds a boolean.
    open spec fn can_write(&self, data: EntityData) -> bool {
        &&& data.fields().contains_key(16)
        &&& data.fields()[16].0 is Boolean
    }

    proof fn lemma_can_write_frame(&self, a: EntityData, b: EntityData) {
        assert(b.fields().contains_key(16) == a.fields().contains_key(16));
    }

    open spec fn defined_fields(&self, before: Map<u8, (EntityDataValue, bool)>) -> Map<u8, (EntityDataValue, bool)> {
        before.insert(
            16,
            (EntityDataValue::Boolean(false), true),
        ).insert(17, (EntityDataValue::Int(0), true)).insert(
            18,
            (EntityDataValue::Boolean(false), true),
        )
    }

    /// Defines is-baby (false), the special type (0) and drowned conversion (false).
    fn define_entity_data(&self, data: &mut EntityData) {
        data.define(EntityDataAccessor::zombie_is_baby(), false);
        data.define(EntityDataAccessor::zombie_special_type(), 0i32);
        data.define(EntityDataAccessor::zombie_drowned_conversion(), false);
    }

    open spec fn read_fields(&self, before: Map<u8, (EntityDataValue, bool)>, nbt: NbtCompound) -> Map<u8, (EntityDataValue, bool)> {
        let m1 = match nbt_lookup(nbt, seq!['I', 's', 'B', 'a', 'b', 'y']) {
            Some(tag) => match bool_of_tag(tag) {
                Some(v) => before.insert(16, (EntityDataValue::Boolean(v), true)),
                None => before,
            },
            None => before,
        };
        if nbt_lookup(
            nbt,
            seq![
                'D', 'r', 'o', 'w', 'n', 'e', 'd', 'C', 'o', 'n', 'v', 'e', 'r', 's', 'i', 'o', 'n',
                'T', 'i', 'm', 'e',
            ],
        ) is Some {
            m1.insert(18, (EntityDataValue::Boolean(true), true))
        } else {
            m1
        }
    }

    /// Sets is-baby from an `IsBaby` tag that holds a boolean, and drowned
    /// conversion when a `DrownedConversionTime` tag is present.
    fn read_nbt(&self, data: &mut EntityData, nbt: &NbtCompound)
        ensures
            ({
                let baby = match nbt_lookup(*nbt, seq!['I', 's', 'B', 'a', 'b', 'y']) {
                    Some(tag) => bool_of_tag(tag),
                    None => None,
                };
                let m1 = match baby {
                    Some(v) => old(data).fields().insert(16, (EntityDataValue::Boolean(v), true)),
                    None => old(data).fields(),
                };
                let converting = nbt_lookup(
                    *nbt,
                    seq![
                        'D', 'r', 'o', 'w', 'n', 'e', 'd', 'C', 'o', 'n', 'v', 'e', 'r', 's', 'i',
                        'o', 'n', 'T', 'i', 'm', 'e',
                    ],
                ) is Some;
                &&& final(data).fields() == if converting {
                    m1.insert(18, (EntityDataValue::Boolean(true), true))
                } else {
                    m1
                }
                &&& final(data).dirty_flag() == (old(data).dirty_flag() || baby is Some
                    || converting)
            }),
    {
        let baby_key = "IsBaby";
        let conversion_key = "DrownedConversionTime";
        proof {
            reveal_strlit("IsBaby");
            reveal_strlit("DrownedConversionTime");
        }
        assert(baby_key@ =~= seq!['I', 's', 'B', 'a', 'b', 'y']);
        assert(conversion_key@ =~= seq![
            'D', 'r', 'o', 'w', 'n', 'e', 'd', 'C', 'o', 'n', 'v', 'e', 'r', 's', 'i',
            'o', 'n', 'T', 'i', 'm', 'e',
        ]);
        if let Some(tag) = lookup(nbt, baby_key) {
            if let Some(v) = nbt_bool(tag) {
                data.set(EntityDataAccessor::zombie_is_baby(), v);
            }
        }
        if lookup(nbt, conversion_key).is_some() {
            data.set(EntityDataAccessor::zombie_drowned_conversion(), true);
        }
    }

    /// Writes the `IsBaby` tag as a byte.
    fn write_nbt(&self, data: &EntityData, nbt: &mut NbtCompound)
        ensures
            ({
                let baby = data.fields()[16].0->Boolean_0;
                final(nbt).entries@.len() == old(nbt).entries@.len() + 1
                    && final(nbt).entries@.drop_last() == old(nbt).entries@
                    && final(nbt).entries@.last().0@ == seq!['I', 's', 'B', 'a', 'b', 'y']
                    && final(nbt).entries@.last().1 == NbtTag::Byte(if baby { 1 } else { 0 })
            }),
    {
        let is_baby: bool = data.get(EntityDataAccessor::zombie_is_baby());
        let key = String::from_str("IsBaby");
        proof {
            reveal_strlit("IsBaby");
        }
        nbt.insert(key, NbtTag::Byte(if is_baby { 1 } else { 0 }));
    }
}

/// The properties of a block state compound that are strings, in order.
pub open spec fn string_properties(entries: Seq<(String, NbtTag)>) -> Seq<(String, String)>
    decreases entries.len(),
{
    if entries.len() == 0 {
        Seq::empty()
    } else {
        let rest = string_properties(entries.drop_last());
        match entries.last().1 {
            NbtTag::String(v) => rest.push((entries.last().0, v)),
            _ => rest,
        }
    }
}

/// What a block state compound asks the block registry for: its `Name` (a
/// string tag) and its string `Properties`, if it has a compound of them.
pub open spec fn block_state_request(c: NbtCompound) -> Option<(String, Seq<(String, String)>)> {
    match nbt_lookup(c, "Name"@) {
        Some(NbtTag::String(name)) => Some((
            name,
            match nbt_lookup(c, "Properties"@) {
                Some(NbtTag::Compound(props)) => string_properties(props.entries@),
                _ => Seq::empty(),
            },
        )),
        _ => None,
    }
}

/// The string properties of a compound, in order.
fn string_properties_of(props: &NbtCompound) -> (r: Vec<(String, String)>)
    ensures
        r@ == string_properties(props.entries@),
{
    let mut out: Vec<(String, String)> = Vec::new();
    let mut i: usize = 0;
    while i < props.entries.len()
        invariant
            i <= props.entries@.len(),
            out@ == string_properties(props.entries@.take(i as int)),
        decreases props.entries@.len() - i,
    {
        assert(props.entries@.take(i + 1).drop_last() =~= props.entries@.take(i as int));
        let (k, v) = &props.entries[i];
        match v {
            NbtTag::String(s) => {
                out.push((k.clone(), s.clone()));
            },
            _ => {},
        }
        i += 1;
    }
    assert(props.entries@.take(i as int) =~= props.entries@);
    out
}

/// Reads a block state compound (as `block_state` tags hold it) into what
/// the block registry resolves to a state id: the block's name and its
/// string properties.
pub fn block_state_query(block_state: &NbtCompound) -> (r: Option<(String, Vec<(String, String)>)>)
    ensures
        match block_state_request(*block_state) {
            Some((name, props)) => r matches Some((n, ps)) && n == name && ps@ == props,
            None => r is None,
        },
{
    proof {
        reveal_strlit("Name");
        reveal_strlit("Properties");
    }
    let name = match lookup(block_state, "Name") {
        Some(NbtTag::String(s)) => s.clone(),
        _ => {
            return None;
        },
    };
    let properties = match lookup(block_state, "Properties") {
        Some(NbtTag::Compound(props)) => string_properties_of(props),
        _ => Vec::new(),
    };
    Some((name, properties))
}

} // verus!
