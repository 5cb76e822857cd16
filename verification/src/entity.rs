//! Entities: the base state every entity has (ids, shared flags, pose and
//! synced data) and generic mobs built from NBT.
//!
//! Positions, rotations and velocities are carried as IEEE-754 bits.

use vstd::prelude::*;

use crate::behaviour::{
    EntityBehaviour, bool_of_tag, keeps_base_fields, lookup, nbt_bool, nbt_lookup,
    same_type_fields,
};
use crate::entity_data::{
    EntityData, EntityDataAccessor, EntityDataValue, IntoEntityData, Pose,
};
use crate::snbt::{NbtCompound, NbtTag};

verus! {

/// A position or velocity: the bits of three 64-bit floats.
#[derive(Debug, Clone, Copy, PartialEq, Eq, Structural)]
pub struct Vec3Bits {
    pub x: u64,
    pub y: u64,
    pub z: u64,
}

/// The shared-flags byte with flag `bit` set to `value`.
pub open spec fn flag_set(flags: u8, bit: u8, value: bool) -> u8 {
    if value {
        flags | (1u8 << bit)
    } else {
        flags & !(1u8 << bit)
    }
}

/// Flag `bit` of the shared-flags byte.
pub open spec fn flag_of(flags: u8, bit: u8) -> bool {
    flags & (1u8 << bit) != 0
}

/// Setting a shared flag is read back: the flag set has the value given, and
/// every other flag keeps its value.
pub proof fn law_flag_set(flags: u8, bit: u8, other: u8, value: bool)
    requires
        bit < 8,
        other < 8,
    ensures
        flag_of(flag_set(flags, bit, value), bit) == value,
        other != bit ==> flag_of(flag_set(flags, bit, value), other) == flag_of(flags, other),
{
    if value {
        assert((flags | (1u8 << bit)) & (1u8 << bit) != 0) by (bit_vector)
            requires
                bit < 8,
        ;
        assert(other != bit ==> ((flags | (1u8 << bit)) & (1u8 << other) != 0) == (flags & (1u8
            << other) != 0)) by (bit_vector)
            requires
                bit < 8,
                other < 8,
        ;
    } else {
        assert((flags & !(1u8 << bit)) & (1u8 << bit) == 0) by (bit_vector)
            requires
                bit < 8,
        ;
        assert(other != bit ==> ((flags & !(1u8 << bit)) & (1u8 << other) != 0) == (flags & (1u8
            << other) != 0)) by (bit_vector)
            requires
                bit < 8,
                other < 8,
        ;
    }
}

/// Base entity state shared by players and other entities
pub struct BaseEntity {
    /// Unique entity ID (incremental)
    pub entity_id: i32,
    /// Entity type registry ID
    pub entity_type_id: i32,
    /// Entity UUID (as a 128-bit value)
    pub uuid: u128,
    /// Entity position (IEEE-754 bits)
    pub position: Vec3Bits,
    /// Entity rotation (yaw, pitch in degrees; IEEE-754 bits)
    pub rotation: (u32, u32),
    /// Entity velocity (IEEE-754 bits)
    pub delta_movement: Vec3Bits,
    /// Synchronized entity data
    pub entity_data: EntityData,
    /// Shared flags byte (fire, crouch, sprint, ...)
    pub shared_flags: u8,
}

/// The synced fields every entity starts with: shared flags `0`, air supply
/// `300`, no custom name (hidden), not silent, with gravity, standing, not
/// frozen; each marked dirty.
pub open spec fn base_fields() -> Map<u8, (EntityDataValue, bool)> {
    Map::<u8, (EntityDataValue, bool)>::empty().insert(0, (EntityDataValue::Byte(0), true)).insert(
        1,
        (EntityDataValue::Int(300), true),
    ).insert(2, (EntityDataValue::OptionalTextComponent(None), true)).insert(
        3,
        (EntityDataValue::Boolean(false), true),
    ).insert(4, (EntityDataValue::Boolean(false), true)).insert(
        5,
        (EntityDataValue::Boolean(false), true),
    ).insert(6, (EntityDataValue::Pose(Pose::Standing), true)).insert(
        7,
        (EntityDataValue::Int(0), true),
    )
}

impl BaseEntity {
    /// The synced data of the entity.
    pub open spec fn data(&self) -> EntityData {
        self.entity_data
    }

    /// The shared-flags byte (fire, crouch, sprint, ...).
    pub open spec fn flags(&self) -> u8 {
        self.shared_flags
    }

    /// The synced data is well formed, its shared-flags field mirrors the
    /// flags byte, and its pose field holds a pose.
    pub open spec fn wf(&self) -> bool {
        &&& self.entity_data.wf()
        &&& self.entity_data.owner() == self.entity_id
        &&& self.entity_data.fields().contains_key(0)
        &&& self.entity_data.fields()[0].0 == EntityDataValue::Byte(self.shared_flags)
        &&& self.entity_data.fields().contains_key(6)
        &&& self.entity_data.fields()[6].0 is Pose
    }

    /// Everything but the synced data and the flags is as in `other`.
    pub open spec fn same_identity(&self, other: BaseEntity) -> bool {
        &&& self.entity_id == other.entity_id
        &&& self.entity_type_id == other.entity_type_id
        &&& self.uuid == other.uuid
        &&& self.position == other.position
        &&& self.rotation == other.rotation
        &&& self.delta_movement == other.delta_movement
    }

    /// The pose the entity is in.
    pub open spec fn pose_of(&self) -> Pose {
        self.data().fields()[6].0->Pose_0
    }

    /// Creates an entity with the standard synced fields: shared flags `0`,
    /// air supply `300`, no custom name (hidden), not silent, with gravity,
    /// standing, not frozen.
    pub fn new(entity_id: i32, entity_type_id: i32, uuid: u128, position: Vec3Bits) -> (r: Self)
        ensures
            r.wf(),
            r.entity_id == entity_id,
            r.entity_type_id == entity_type_id,
            r.uuid == uuid,
            r.position == position,
            r.rotation == (0u32, 0u32),
            r.delta_movement == (Vec3Bits { x: 0, y: 0, z: 0 }),
            r.flags() == 0,
            r.pose_of() == Pose::Standing,
            r.data().fields() == base_fields(),
            !r.data().dirty_flag(),
            r.data().owner() == entity_id,
    {
        let mut entity_data = EntityData::new(entity_id);
        entity_data.define(EntityDataAccessor::shared_flags(), 0u8);
        entity_data.define(EntityDataAccessor::air_supply(), 300i32);
        entity_data.define(EntityDataAccessor::custom_name(), None);
        entity_data.define(EntityDataAccessor::custom_name_visible(), false);
        entity_data.define(EntityDataAccessor::silent(), false);
        entity_data.define(EntityDataAccessor::no_gravity(), false);
        entity_data.define(EntityDataAccessor::pose(), Pose::Standing);
        entity_data.define(EntityDataAccessor::frozen_ticks(), 0i32);
        BaseEntity {
            entity_id,
            entity_type_id,
            uuid,
            position,
            rotation: (0, 0),
            delta_movement: Vec3Bits { x: 0, y: 0, z: 0 },
            entity_data,
            shared_flags: 0,
        }
    }

    /// The synced data of the entity.
    pub fn entity_data(&self) -> (r: &EntityData)
        ensures
            *r == self.data(),
    {
        &self.entity_data
    }

    /// Sets a synced field other than the shared flags; the pose field only to a pose.
    pub fn set_data<T: IntoEntityData>(&mut self, accessor: EntityDataAccessor<T>, value: T)
        requires
            old(self).wf(),
            accessor.field() != 0,
            accessor.field() == 6 ==> value.to_data() is Pose,
        ensures
            final(self).wf(),
            final(self).same_identity(*old(self)),
            final(self).data().fields() == old(self).data().fields().insert(
                accessor.field(),
                (value.to_data(), true),
            ),
            final(self).data().dirty_flag(),
            final(self).flags() == old(self).flags(),
            final(self).entity_id == old(self).entity_id,
    {
        self.entity_data.set(accessor, value);
    }

    /// Packs the dirty synced fields (see [`EntityData::pack_dirty`]).
    pub fn pack_dirty_data(&mut self) -> (r: Option<Vec<(u8, EntityDataValue)>>)
        requires
            old(self).wf(),
        ensures
            final(self).wf(),
            final(self).same_identity(*old(self)),
            final(self).flags() == old(self).flags(),
            final(self).entity_id == old(self).entity_id,
            !final(self).data().dirty_flag(),
            !old(self).data().dirty_flag() ==> r is None && final(self).data().fields() == old(
                self,
            ).data().fields(),
            old(self).data().dirty_flag() ==> final(self).data().fields()
                == crate::entity_data::all_clean(old(self).data().fields()),
            old(self).data().dirty_flag() ==> match r {
                Some(v) => crate::entity_data::packed_map(v@) == crate::entity_data::dirty_fields(
                    old(self).data().fields(),
                ) && crate::entity_data::pair_ids(v@).no_duplicates() && v@.len() > 0,
                None => crate::entity_data::dirty_fields(old(self).data().fields()) == Map::<
                    u8,
                    EntityDataValue,
                >::empty(),
            },
    {
        self.entity_data.pack_dirty()
    }

    /// Packs every synced field (see [`EntityData::pack_all`]).
    pub fn pack_all_data(&mut self) -> (r: Vec<(u8, EntityDataValue)>)
        requires
            old(self).wf(),
        ensures
            final(self).wf(),
            final(self).same_identity(*old(self)),
            final(self).flags() == old(self).flags(),
            final(self).entity_id == old(self).entity_id,
            final(self).data().dirty_flag() == old(self).data().dirty_flag(),
            final(self).data().fields() == crate::entity_data::all_clean(old(self).data().fields()),
            crate::entity_data::packed_map(r@) == crate::entity_data::all_fields(
                old(self).data().fields(),
            ),
            crate::entity_data::pair_ids(r@).no_duplicates(),
    {
        self.entity_data.pack_all()
    }

    /// Sets flag `bit` of the shared flags and syncs the flags field.
    pub fn set_shared_flag(&mut self, bit: u8, value: bool)
        requires
            old(self).wf(),
            bit < 8,
        ensures
            final(self).wf(),
            final(self).same_identity(*old(self)),
            final(self).flags() == flag_set(old(self).flags(), bit, value),
            final(self).data().fields() == old(self).data().fields().insert(
                0,
                (EntityDataValue::Byte(flag_set(old(self).flags(), bit, value)), true),
            ),
            final(self).data().dirty_flag(),
            final(self).entity_id == old(self).entity_id,
    {
        let mut flags = self.shared_flags;
        if value {
            flags |= 1 << bit;
        } else {
            flags &= !(1 << bit);
        }
        self.shared_flags = flags;
        self.entity_data.set(EntityDataAccessor::shared_flags(), flags);
    }

    /// Flag `bit` of the shared flags.
    pub fn get_shared_flag(&self, bit: u8) -> (r: bool)
        requires
            bit < 8,
        ensures
            r == flag_of(self.flags(), bit),
    {
        (self.shared_flags & (1 << bit)) != 0
    }

    /// Sets the on-fire flag (bit 0).
    pub fn set_on_fire(&mut self, on_fire: bool)
        requires
            old(self).wf(),
        ensures
            final(self).wf(),
            final(self).same_identity(*old(self)),
            final(self).flags() == flag_set(old(self).flags(), 0, on_fire),
            final(self).data().fields() == old(self).data().fields().insert(
                0,
                (EntityDataValue::Byte(final(self).flags()), true),
            ),
            final(self).entity_id == old(self).entity_id,
    {
        self.set_shared_flag(0, on_fire);
    }

    /// Sets the crouching flag (bit 1).
    pub fn set_shift_key_down(&mut self, crouching: bool)
        requires
            old(self).wf(),
        ensures
            final(self).wf(),
            final(self).same_identity(*old(self)),
            final(self).flags() == flag_set(old(self).flags(), 1, crouching),
            final(self).data().fields() == old(self).data().fields().insert(
                0,
                (EntityDataValue::Byte(final(self).flags()), true),
            ),
    {
        self.set_shared_flag(1, crouching);
    }

    /// Whether the crouching flag (bit 1) is set.
    pub fn is_shift_key_down(&self) -> (r: bool)
        ensures
            r == flag_of(self.flags(), 1),
    {
        self.get_shared_flag(1)
    }

    /// Sets the sprinting flag (bit 3).
    pub fn set_sprinting(&mut self, sprinting: bool)
        requires
            old(self).wf(),
        ensures
            final(self).wf(),
            final(self).same_identity(*old(self)),
            final(self).flags() == flag_set(old(self).flags(), 3, sprinting),
            final(self).data().fields() == old(self).data().fields().insert(
                0,
                (EntityDataValue::Byte(final(self).flags()), true),
            ),
    {
        self.set_shared_flag(3, sprinting);
    }

    /// Whether the sprinting flag (bit 3) is set.
    pub fn is_sprinting(&self) -> (r: bool)
        ensures
            r == flag_of(self.flags(), 3),
    {
        self.get_shared_flag(3)
    }

    /// Sets the swimming flag (bit 4).
    pub fn set_swimming(&mut self, swimming: bool)
        requires
            old(self).wf(),
        ensures
            final(self).wf(),
            final(self).same_identity(*old(self)),
            final(self).flags() == flag_set(old(self).flags(), 4, swimming),
            final(self).data().fields() == old(self).data().fields().insert(
                0,
                (EntityDataValue::Byte(final(self).flags()), true),
            ),
    {
        self.set_shared_flag(4, swimming);
    }

    /// Sets the invisible flag (bit 5).
    pub fn set_invisible(&mut self, invisible: bool)
        requires
            old(self).wf(),
        ensures
            final(self).wf(),
            final(self).same_identity(*old(self)),
            final(self).flags() == flag_set(old(self).flags(), 5, invisible),
            final(self).data().fields() == old(self).data().fields().insert(
                0,
                (EntityDataValue::Byte(final(self).flags()), true),
            ),
            final(self).entity_id == old(self).entity_id,
    {
        self.set_shared_flag(5, invisible);
    }

    /// Sets the glowing flag (bit 6).
    pub fn set_glowing(&mut self, glowing: bool)
        requires
            old(self).wf(),
        ensures
            final(self).wf(),
            final(self).same_identity(*old(self)),
            final(self).flags() == flag_set(old(self).flags(), 6, glowing),
            final(self).data().fields() == old(self).data().fields().insert(
                0,
                (EntityDataValue::Byte(final(self).flags()), true),
            ),
            final(self).entity_id == old(self).entity_id,
    {
        self.set_shared_flag(6, glowing);
    }

    /// Sets the elytra-flying flag (bit 7).
    pub fn set_fall_flying(&mut self, flying: bool)
        requires
            old(self).wf(),
        ensures
            final(self).wf(),
            final(self).same_identity(*old(self)),
            final(self).flags() == flag_set(old(self).flags(), 7, flying),
            final(self).data().fields() == old(self).data().fields().insert(
                0,
                (EntityDataValue::Byte(final(self).flags()), true),
            ),
    {
        self.set_shared_flag(7, flying);
    }

    /// Sets the pose.
    pub fn set_pose(&mut self, pose: Pose)
        requires
            old(self).wf(),
        ensures
            final(self).wf(),
            final(self).same_identity(*old(self)),
            final(self).pose_of() == pose,
            final(self).flags() == old(self).flags(),
            final(self).data().fields() == old(self).data().fields().insert(
                6,
                (EntityDataValue::Pose(pose), true),
            ),
    {
        self.entity_data.set(EntityDataAccessor::pose(), pose);
    }

    /// The pose.
    pub fn pose(&self) -> (r: Pose)
        requires
            self.wf(),
        ensures
            r == self.pose_of(),
    {
        self.entity_data.get(EntityDataAccessor::pose())
    }

    /// Whether the entity is in `pose`.
    pub fn has_pose(&self, pose: Pose) -> (r: bool)
        requires
            self.wf(),
        ensures
            r == (self.pose_of() == pose),
    {
        self.pose() == pose
    }

    /// Whether the entity is crouching.
    pub fn is_crouching(&self) -> (r: bool)
        requires
            self.wf(),
        ensures
            r == (self.pose_of() == Pose::Crouching),
    {
        self.has_pose(Pose::Crouching)
    }
}

/// A random UUID from `uuid::Uuid::new_v4`, as a 128-bit value.
///
/// The value is random; what the source shows of every outcome is that it
/// carries version 4 (bits 76..80) and the RFC 4122 variant (bits 62..64).
#[verifier::external_body]
fn new_v4_uuid() -> (r: u128)
    ensures
        (r >> 76u128) & 0xf == 4,
        (r >> 62u128) & 0x3 == 2,
{
    uuid::Uuid::new_v4().as_u128()
}

/// The keys of the NBT tags that a mob reads its flags from.
pub open spec fn custom_name_key() -> Seq<char> {
    seq!['C', 'u', 's', 't', 'o', 'm', 'N', 'a', 'm', 'e']
}

pub open spec fn custom_name_visible_key() -> Seq<char> {
    seq!['C', 'u', 's', 't', 'o', 'm', 'N', 'a', 'm', 'e', 'V', 'i', 's', 'i', 'b', 'l', 'e']
}

pub open spec fn silent_key() -> Seq<char> {
    seq!['S', 'i', 'l', 'e', 'n', 't']
}

pub open spec fn no_gravity_key() -> Seq<char> {
    seq!['N', 'o', 'G', 'r', 'a', 'v', 'i', 't', 'y']
}

pub open spec fn glowing_key() -> Seq<char> {
    seq!['G', 'l', 'o', 'w', 'i', 'n', 'g']
}

pub open spec fn invisible_key() -> Seq<char> {
    seq!['I', 'n', 'v', 'i', 's', 'i', 'b', 'l', 'e']
}

pub open spec fn fire_key() -> Seq<char> {
    seq!['F', 'i', 'r', 'e']
}

/// A boolean NBT tag under `key`, if there is one.
pub open spec fn nbt_flag(nbt: NbtCompound, key: Seq<char>) -> Option<bool> {
    match nbt_lookup(nbt, key) {
        Some(tag) => bool_of_tag(tag),
        None => None,
    }
}

/// A field map with `id` set to a boolean, when there is one.
pub open spec fn with_bool(m: Map<u8, (EntityDataValue, bool)>, id: u8, v: Option<bool>) -> Map<
    u8,
    (EntityDataValue, bool),
> {
    match v {
        Some(b) => m.insert(id, (EntityDataValue::Boolean(b), true)),
        None => m,
    }
}

/// Whether a `Fire` tag means burning: a short or an int above zero.
pub open spec fn fire_of_tag(tag: NbtTag) -> bool {
    match tag {
        NbtTag::Short(s) => s > 0,
        NbtTag::Int(i) => i > 0,
        _ => false,
    }
}

/// The shared flags after a mob's flag tags: `Glowing` (bit 6), `Invisible`
/// (bit 5) and `Fire` (bit 0), each applied when present.
pub open spec fn flags_after_nbt(flags: u8, nbt: NbtCompound) -> u8 {
    let f1 = match nbt_flag(nbt, glowing_key()) {
        Some(v) => flag_set(flags, 6, v),
        None => flags,
    };
    let f2 = match nbt_flag(nbt, invisible_key()) {
        Some(v) => flag_set(f1, 5, v),
        None => f1,
    };
    match nbt_lookup(nbt, fire_key()) {
        Some(tag) => flag_set(f2, 0, fire_of_tag(tag)),
        None => f2,
    }
}

/// Whether any of the flag tags is present.
pub open spec fn any_flag_tag(nbt: NbtCompound) -> bool {
    nbt_flag(nbt, glowing_key()) is Some || nbt_flag(nbt, invisible_key()) is Some || nbt_lookup(
        nbt,
        fire_key(),
    ) is Some
}

/// The synced fields after a mob's data tags: the custom name (a string
/// tag), custom-name visibility, silence and no-gravity (boolean tags).
pub open spec fn data_tags_fields(m: Map<u8, (EntityDataValue, bool)>, nbt: NbtCompound) -> Map<
    u8,
    (EntityDataValue, bool),
> {
    let m1 = match nbt_lookup(nbt, custom_name_key()) {
        Some(NbtTag::String(name)) => m.insert(
            2,
            (EntityDataValue::OptionalTextComponent(Some(name)), true),
        ),
        _ => m,
    };
    let m2 = with_bool(m1, 3, nbt_flag(nbt, custom_name_visible_key()));
    let m3 = with_bool(m2, 4, nbt_flag(nbt, silent_key()));
    with_bool(m3, 5, nbt_flag(nbt, no_gravity_key()))
}

/// The synced fields after a mob's flag tags: its data tags, and the
/// shared-flags field when a flag tag is present.
pub open spec fn fields_after_nbt(
    m: Map<u8, (EntityDataValue, bool)>,
    flags: u8,
    nbt: NbtCompound,
) -> Map<u8, (EntityDataValue, bool)> {
    let m4 = data_tags_fields(m, nbt);
    if any_flag_tag(nbt) {
        m4.insert(0, (EntityDataValue::Byte(flags_after_nbt(flags, nbt)), true))
    } else {
        m4
    }
}

proof fn lemma_base_field_kept(before: EntityData, after: EntityData, id: u8)
    requires
        keeps_base_fields(before, after),
        id < 8,
    ensures
        after.fields().contains_key(id) == before.fields().contains_key(id),
        after.fields()[id] == before.fields()[id],
{
}

/// A generic mob entity
pub struct MobEntity {
    base: BaseEntity,
}

impl MobEntity {
    /// The base state of the mob.
    pub closed spec fn base_state(&self) -> BaseEntity {
        self.base
    }

    /// The base state is well formed.
    pub open spec fn wf(&self) -> bool {
        self.base_state().wf()
    }

    /// Creates a mob with a random UUID and the standard synced fields, then
    /// lets the behaviour of its type define its own fields.
    pub fn new<B: EntityBehaviour>(
        entity_id: i32,
        entity_type_id: i32,
        position: Vec3Bits,
        behaviour: &B,
    ) -> (r: Self)
        ensures
            r.wf(),
            r.base_state().entity_id == entity_id,
            r.base_state().entity_type_id == entity_type_id,
            r.base_state().position == position,
            r.base_state().rotation == (0u32, 0u32),
            r.base_state().delta_movement == (Vec3Bits { x: 0, y: 0, z: 0 }),
            r.base_state().flags() == 0,
            (r.base_state().uuid >> 76u128) & 0xf == 4,
            (r.base_state().uuid >> 62u128) & 0x3 == 2,
            r.base_state().data().fields() == behaviour.defined_fields(base_fields()),
            !r.base_state().data().dirty_flag(),
            behaviour.can_write(r.base_state().data()),
    {
        let uuid = new_v4_uuid();
        let mut base = BaseEntity::new(entity_id, entity_type_id, uuid, position);
        let ghost before = base.entity_data;
        behaviour.define_entity_data(&mut base.entity_data);
        proof {
            lemma_base_field_kept(before, base.entity_data, 0);
            lemma_base_field_kept(before, base.entity_data, 6);
        }
        MobEntity { base }
    }

    /// Sets the custom name from a string tag.
    fn apply_custom_name(&mut self, nbt: &NbtCompound)
        requires
            old(self).wf(),
        ensures
            final(self).wf(),
            final(self).base_state().data().fields() == match nbt_lookup(*nbt, custom_name_key()) {
                Some(NbtTag::String(name)) => old(self).base_state().data().fields().insert(
                    2,
                    (EntityDataValue::OptionalTextComponent(Some(name)), true),
                ),
                _ => old(self).base_state().data().fields(),
            },
            final(self).base_state().flags() == old(self).base_state().flags(),
            final(self).base_state().entity_id == old(self).base_state().entity_id,
            final(self).base_state().entity_type_id == old(self).base_state().entity_type_id,
            final(self).base_state().same_identity(old(self).base_state()),
    {
        let key = "CustomName";
        proof {
            reveal_strlit("CustomName");
        }
        assert(key@ =~= custom_name_key());
        if let Some(NbtTag::String(name)) = lookup(nbt, key) {
            self.base.set_data(EntityDataAccessor::custom_name(), Some(name.clone()));
        }
    }

    /// Sets a boolean field (custom-name visibility, silence or no-gravity) from a boolean tag.
    fn apply_bool_tag(&mut self, nbt: &NbtCompound, key: &str, accessor: EntityDataAccessor<bool>)
        requires
            old(self).wf(),
            3 <= accessor.field() <= 5,
        ensures
            final(self).wf(),
            final(self).base_state().data().fields() == with_bool(
                old(self).base_state().data().fields(),
                accessor.field(),
                nbt_flag(*nbt, key@),
            ),
            final(self).base_state().flags() == old(self).base_state().flags(),
            final(self).base_state().entity_id == old(self).base_state().entity_id,
            final(self).base_state().entity_type_id == old(self).base_state().entity_type_id,
            final(self).base_state().same_identity(old(self).base_state()),
    {
        if let Some(tag) = lookup(nbt, key) {
            if let Some(v) = nbt_bool(tag) {
                self.base.set_data(accessor, v);
            }
        }
    }

    /// Applies the data tags of an NBT compound (see [`data_tags_fields`]).
    fn apply_data_tags(&mut self, nbt: &NbtCompound)
        requires
            old(self).wf(),
        ensures
            final(self).wf(),
            final(self).base_state().data().fields() == data_tags_fields(
                old(self).base_state().data().fields(),
                *nbt,
            ),
            final(self).base_state().flags() == old(self).base_state().flags(),
            final(self).base_state().entity_id == old(self).base_state().entity_id,
            final(self).base_state().entity_type_id == old(self).base_state().entity_type_id,
            final(self).base_state().same_identity(old(self).base_state()),
    {
        let k_visible = "CustomNameVisible";
        let k_silent = "Silent";
        let k_gravity = "NoGravity";
        proof {
            reveal_strlit("CustomNameVisible");
            reveal_strlit("Silent");
            reveal_strlit("NoGravity");
        }
        assert(k_visible@ =~= custom_name_visible_key());
        assert(k_silent@ =~= silent_key());
        assert(k_gravity@ =~= no_gravity_key());
        self.apply_custom_name(nbt);
        self.apply_bool_tag(nbt, k_visible, EntityDataAccessor::custom_name_visible());
        self.apply_bool_tag(nbt, k_silent, EntityDataAccessor::silent());
        self.apply_bool_tag(nbt, k_gravity, EntityDataAccessor::no_gravity());
    }

    /// Sets a shared flag (glowing or invisible) from a boolean tag.
    fn apply_flag_tag(&mut self, nbt: &NbtCompound, key: &str, bit: u8)
        requires
            old(self).wf(),
            bit == 5 || bit == 6,
        ensures
            final(self).wf(),
            final(self).base_state().flags() == match nbt_flag(*nbt, key@) {
                Some(v) => flag_set(old(self).base_state().flags(), bit, v),
                None => old(self).base_state().flags(),
            },
            final(self).base_state().data().fields() == match nbt_flag(*nbt, key@) {
                Some(v) => old(self).base_state().data().fields().insert(
                    0,
                    (EntityDataValue::Byte(flag_set(old(self).base_state().flags(), bit, v)), true),
                ),
                None => old(self).base_state().data().fields(),
            },
            final(self).base_state().entity_id == old(self).base_state().entity_id,
            final(self).base_state().entity_type_id == old(self).base_state().entity_type_id,
            final(self).base_state().same_identity(old(self).base_state()),
    {
        if let Some(tag) = lookup(nbt, key) {
            if let Some(v) = nbt_bool(tag) {
                self.base.set_shared_flag(bit, v);
            }
        }
    }

    /// Sets the on-fire flag from a `Fire` tag.
    fn apply_fire_tag(&mut self, nbt: &NbtCompound)
        requires
            old(self).wf(),
        ensures
            final(self).wf(),
            final(self).base_state().flags() == match nbt_lookup(*nbt, fire_key()) {
                Some(tag) => flag_set(old(self).base_state().flags(), 0, fire_of_tag(tag)),
                None => old(self).base_state().flags(),
            },
            final(self).base_state().data().fields() == match nbt_lookup(*nbt, fire_key()) {
                Some(tag) => old(self).base_state().data().fields().insert(
                    0,
                    (
                        EntityDataValue::Byte(
                            flag_set(old(self).base_state().flags(), 0, fire_of_tag(tag)),
                        ),
                        true,
                    ),
                ),
                None => old(self).base_state().data().fields(),
            },
            final(self).base_state().entity_id == old(self).base_state().entity_id,
            final(self).base_state().entity_type_id == old(self).base_state().entity_type_id,
            final(self).base_state().same_identity(old(self).base_state()),
    {
        let key = "Fire";
        proof {
            reveal_strlit("Fire");
        }
        assert(key@ =~= fire_key());
        if let Some(tag) = lookup(nbt, key) {
            let on_fire = match tag {
                NbtTag::Short(s) => *s > 0,
                NbtTag::Int(i) => *i > 0,
                _ => false,
            };
            self.base.set_shared_flag(0, on_fire);
        }
    }

    /// Applies the flag tags of an NBT compound (see [`flags_after_nbt`]).
    #[verifier::rlimit(40)]
    fn apply_flag_tags(&mut self, nbt: &NbtCompound)
        requires
            old(self).wf(),
        ensures
            final(self).wf(),
            final(self).base_state().flags() == flags_after_nbt(old(self).base_state().flags(), *nbt),
            final(self).base_state().data().fields() == if any_flag_tag(*nbt) {
                old(self).base_state().data().fields().insert(
                    0,
                    (EntityDataValue::Byte(flags_after_nbt(old(self).base_state().flags(), *nbt)), true),
                )
            } else {
                old(self).base_state().data().fields()
            },
            final(self).base_state().entity_id == old(self).base_state().entity_id,
            final(self).base_state().entity_type_id == old(self).base_state().entity_type_id,
            final(self).base_state().same_identity(old(self).base_state()),
    {
        let k_glowing = "Glowing";
        let k_invisible = "Invisible";
        proof {
            reveal_strlit("Glowing");
            reveal_strlit("Invisible");
        }
        assert(k_glowing@ =~= glowing_key());
        assert(k_invisible@ =~= invisible_key());
        self.apply_flag_tag(nbt, k_glowing, 6);
        self.apply_flag_tag(nbt, k_invisible, 5);
        self.apply_fire_tag(nbt);
        proof {
            if any_flag_tag(*nbt) {
                assert(self.base.entity_data.fields() =~= old(self).base.entity_data.fields().insert(
                    0,
                    (EntityDataValue::Byte(flags_after_nbt(old(self).base.shared_flags, *nbt)), true),
                ));
            }
        }
    }

    /// Applies the data and flag tags of an NBT compound (see
    /// [`fields_after_nbt`] and [`flags_after_nbt`]).
    fn apply_flags_nbt(&mut self, nbt: &NbtCompound)
        requires
            old(self).wf(),
        ensures
            final(self).wf(),
            final(self).base_state().data().fields() == fields_after_nbt(
                old(self).base_state().data().fields(),
                old(self).base_state().flags(),
                *nbt,
            ),
            final(self).base_state().flags() == flags_after_nbt(old(self).base_state().flags(), *nbt),
            final(self).base_state().entity_id == old(self).base_state().entity_id,
            final(self).base_state().entity_type_id == old(self).base_state().entity_type_id,
            final(self).base_state().same_identity(old(self).base_state()),
    {
        self.apply_data_tags(nbt);
        self.apply_flag_tags(nbt);
    }

    /// Applies an NBT compound's flag tags, then the tags the behaviour of
    /// the mob's type reads. (Position, rotation and motion tags hold floats
    /// and are applied by the caller.)
    pub fn apply_nbt<B: EntityBehaviour>(&mut self, nbt: &NbtCompound, behaviour: &B)
        requires
            old(self).wf(),
            behaviour.can_write(old(self).base_state().data()),
        ensures
            final(self).wf(),
            final(self).base_state().flags() == flags_after_nbt(old(self).base_state().flags(), *nbt),
            final(self).base_state().data().fields() == behaviour.read_fields(
                fields_after_nbt(old(self).base_state().data().fields(), old(self).base_state().flags(), *nbt),
                *nbt,
            ),
            final(self).base_state().same_identity(old(self).base_state()),
            behaviour.can_write(final(self).base_state().data()),
    {
        let ghost start = self.base.entity_data;
        self.apply_flags_nbt(nbt);
        proof {
            assert(same_type_fields(start, self.base.entity_data));
            behaviour.lemma_can_write_frame(start, self.base.entity_data);
        }
        let ghost before = self.base.entity_data;
        behaviour.read_nbt(&mut self.base.entity_data, nbt);
        proof {
            lemma_base_field_kept(before, self.base.entity_data, 0);
            lemma_base_field_kept(before, self.base.entity_data, 6);
        }
    }

    /// Sets the rotation (yaw, pitch; IEEE-754 bits).
    pub fn set_rotation(&mut self, yaw: u32, pitch: u32)
        ensures
            final(self).base_state().rotation == (yaw, pitch),
            final(self).base_state().position == old(self).base_state().position,
            final(self).base_state().data() == old(self).base_state().data(),
            final(self).base_state().flags() == old(self).base_state().flags(),
            final(self).base_state().entity_id == old(self).base_state().entity_id,
            final(self).base_state().entity_type_id == old(self).base_state().entity_type_id,
            final(self).base_state().uuid == old(self).base_state().uuid,
            final(self).base_state().delta_movement == old(self).base_state().delta_movement,
            final(self).wf() == old(self).wf(),
    {
        self.base.rotation = (yaw, pitch);
    }

    /// The base state of the mob.
    pub fn base(&self) -> (r: &BaseEntity)
        ensures
            *r == self.base_state(),
    {
        &self.base
    }

    /// The base state of the mob, to change.
    pub fn base_mut(&mut self) -> (r: &mut BaseEntity)
        ensures
            *r == old(self).base_state(),
            final(self).base_state() == *final(r),
    {
        &mut self.base
    }
}

} // verus!
