//! Synced entity data: typed values by field id, with dirty tracking so that
//! only changed values are broadcast, and the bytes each value is sent as.
//!
//! Floating-point values are carried as their IEEE-754 bits.

use std::marker::PhantomData;

use vstd::prelude::*;
use vstd::utf8::encode_utf8;

use crate::codec::{
    be32, be64, bool_byte, lemma_be32_roundtrip, prefixed_bytes, u32_at, varint_bytes, write_bool,
    write_string, write_u32, write_u64, write_u8, write_varint, ReadError,
};
use crate::text::{chars_of, push_char};

verus! {

/// Represents an entity's pose (standing, crouching, etc.)
#[derive(Debug, Clone, Copy, PartialEq, Eq, Structural, Hash)]
pub enum Pose {
    /// Standing normally
    Standing,
    /// Flying with elytra
    FallFlying,
    /// Sleeping in a bed
    Sleeping,
    /// Swimming in water
    Swimming,
    /// Performing spin attack
    SpinAttack,
    /// Crouching/sneaking
    Crouching,
    /// Long jumping (goat)
    LongJumping,
    /// Dying animation
    Dying,
    /// Croaking (frog)
    Croaking,
    /// Using tongue (frog)
    UsingTongue,
    /// Sitting (cat/wolf)
    Sitting,
    /// Roaring (warden)
    Roaring,
    /// Sniffing (sniffer)
    Sniffing,
    /// Emerging (warden)
    Emerging,
    /// Digging (sniffer/warden)
    Digging,
    /// Sliding (powder snow)
    Sliding,
    /// Shooting (crossbow)
    Shooting,
    /// Inhaling (breath attack)
    Inhaling,
}

/// The id of a pose on the wire.
pub open spec fn pose_id(p: Pose) -> u8 {
    match p {
        Pose::Standing => 0,
        Pose::FallFlying => 1,
        Pose::Sleeping => 2,
        Pose::Swimming => 3,
        Pose::SpinAttack => 4,
        Pose::Crouching => 5,
        Pose::LongJumping => 6,
        Pose::Dying => 7,
        Pose::Croaking => 8,
        Pose::UsingTongue => 9,
        Pose::Sitting => 10,
        Pose::Roaring => 11,
        Pose::Sniffing => 12,
        Pose::Emerging => 13,
        Pose::Digging => 14,
        Pose::Sliding => 15,
        Pose::Shooting => 16,
        Pose::Inhaling => 17,
    }
}

impl Pose {
    /// The id of this pose on the wire.
    pub fn id(self) -> (r: u8)
        ensures
            r == pose_id(self),
    {
        match self {
            Pose::Standing => 0,
            Pose::FallFlying => 1,
            Pose::Sleeping => 2,
            Pose::Swimming => 3,
            Pose::SpinAttack => 4,
            Pose::Crouching => 5,
            Pose::LongJumping => 6,
            Pose::Dying => 7,
            Pose::Croaking => 8,
            Pose::UsingTongue => 9,
            Pose::Sitting => 10,
            Pose::Roaring => 11,
            Pose::Sniffing => 12,
            Pose::Emerging => 13,
            Pose::Digging => 14,
            Pose::Sliding => 15,
            Pose::Shooting => 16,
            Pose::Inhaling => 17,
        }
    }
}

impl Default for Pose {
    fn default() -> (r: Self)
        ensures
            r == Pose::Standing,
    {
        Pose::Standing
    }
}

/// A 32-bit float carried by its IEEE-754 bits.
#[derive(Debug, Clone, Copy, PartialEq, Eq, Structural)]
pub struct Float32(pub u32);

/// 3D vector for Display entity transformations (x, y, z; IEEE-754 bits)
#[derive(Debug, Clone, Copy, PartialEq, Eq, Structural)]
pub struct Vector3f(pub u32, pub u32, pub u32);

impl Default for Vector3f {
    /// The zero vector.
    fn default() -> (r: Self)
        ensures
            r == Vector3f(0, 0, 0),
    {
        Vector3f(0, 0, 0)
    }
}

/// Quaternion for Display entity rotations (x, y, z, w; IEEE-754 bits)
#[derive(Debug, Clone, Copy, PartialEq, Eq, Structural)]
pub struct Quaternionf(pub u32, pub u32, pub u32, pub u32);

/// The bits of the float `1.0`.
pub const ONE_BITS: u32 = 0x3f80_0000;

impl Default for Quaternionf {
    /// The identity rotation `(0, 0, 0, 1)`.
    fn default() -> (r: Self)
        ensures
            r == Quaternionf(0, 0, 0, ONE_BITS),
    {
        Quaternionf(0, 0, 0, ONE_BITS)
    }
}

/// Block state ID for entity data (Display entities use i32/VarInt)
#[derive(Debug, Clone, Copy, PartialEq, Eq, Structural)]
pub struct EntityBlockState(pub i32);

impl Default for EntityBlockState {
    fn default() -> (r: Self)
        ensures
            r == EntityBlockState(0),
    {
        EntityBlockState(0)
    }
}

/// Entity data value - a strongly typed enum for all possible entity metadata values
#[derive(Debug)]
pub enum EntityDataValue {
    /// Byte value (u8)
    Byte(u8),
    /// Integer value (i32, sent as `VarInt`)
    Int(i32),
    /// Long value (i64)
    Long(i64),
    /// Float value (IEEE-754 bits)
    Float(u32),
    /// String value
    String(String),
    /// Boolean value
    Boolean(bool),
    /// Entity pose
    Pose(Pose),
    /// Optional string (for custom names etc)
    OptionalString(Option<String>),
    /// Optional text component (for custom names with formatting)
    OptionalTextComponent(Option<String>),
    /// 3D vector (for Display entity transformations)
    Vector3(Vector3f),
    /// Quaternion (for Display entity rotations)
    Quaternion(Quaternionf),
    /// Block state ID (for Block Display entities)
    BlockState(EntityBlockState),
}

impl Clone for EntityDataValue {
    fn clone(&self) -> (r: Self)
        ensures
            r == *self,
    {
        match self {
            EntityDataValue::Byte(v) => EntityDataValue::Byte(*v),
            EntityDataValue::Int(v) => EntityDataValue::Int(*v),
            EntityDataValue::Long(v) => EntityDataValue::Long(*v),
            EntityDataValue::Float(v) => EntityDataValue::Float(*v),
            EntityDataValue::String(v) => EntityDataValue::String(v.clone()),
            EntityDataValue::Boolean(v) => EntityDataValue::Boolean(*v),
            EntityDataValue::Pose(v) => EntityDataValue::Pose(*v),
            EntityDataValue::OptionalString(v) => EntityDataValue::OptionalString(
                match v {
                    Some(s) => Some(s.clone()),
                    None => None,
                },
            ),
            EntityDataValue::OptionalTextComponent(v) => EntityDataValue::OptionalTextComponent(
                match v {
                    Some(s) => Some(s.clone()),
                    None => None,
                },
            ),
            EntityDataValue::Vector3(v) => EntityDataValue::Vector3(*v),
            EntityDataValue::Quaternion(v) => EntityDataValue::Quaternion(*v),
            EntityDataValue::BlockState(v) => EntityDataValue::BlockState(*v),
        }
    }
}

impl EntityDataValue {
    /// Gets the value as a byte, if it is one
    pub fn as_byte(&self) -> (r: Option<u8>)
        ensures
            r == match *self {
                EntityDataValue::Byte(v) => Some(v),
                _ => None::<u8>,
            },
    {
        match self {
            Self::Byte(v) => Some(*v),
            _ => None,
        }
    }

    /// Gets the value as an int, if it is one
    pub fn as_int(&self) -> (r: Option<i32>)
        ensures
            r == match *self {
                EntityDataValue::Int(v) => Some(v),
                _ => None::<i32>,
            },
    {
        match self {
            Self::Int(v) => Some(*v),
            _ => None,
        }
    }

    /// Gets the value as a long, if it is one
    pub fn as_long(&self) -> (r: Option<i64>)
        ensures
            r == match *self {
                EntityDataValue::Long(v) => Some(v),
                _ => None::<i64>,
            },
    {
        match self {
            Self::Long(v) => Some(*v),
            _ => None,
        }
    }

    /// Gets the value as a float (its bits), if it is one
    pub fn as_float(&self) -> (r: Option<u32>)
        ensures
            r == match *self {
                EntityDataValue::Float(v) => Some(v),
                _ => None::<u32>,
            },
    {
        match self {
            Self::Float(v) => Some(*v),
            _ => None,
        }
    }

    /// Gets the value as a string, if it is one
    pub fn as_string(&self) -> (r: Option<&str>)
        ensures
            match *self {
                EntityDataValue::String(v) => r matches Some(s) && s@ == v@,
                _ => r is None,
            },
    {
        match self {
            Self::String(v) => Some(v.as_str()),
            _ => None,
        }
    }

    /// Gets the value as a boolean, if it is one
    pub fn as_boolean(&self) -> (r: Option<bool>)
        ensures
            r == match *self {
                EntityDataValue::Boolean(v) => Some(v),
                _ => None::<bool>,
            },
    {
        match self {
            Self::Boolean(v) => Some(*v),
            _ => None,
        }
    }

    /// Gets the value as a pose, if it is one
    pub fn as_pose(&self) -> (r: Option<Pose>)
        ensures
            r == match *self {
                EntityDataValue::Pose(v) => Some(v),
                _ => None::<Pose>,
            },
    {
        match self {
            Self::Pose(v) => Some(*v),
            _ => None,
        }
    }

    /// Gets the value as an optional string, if it is one (plain or text component)
    pub fn as_optional_string(&self) -> (r: Option<&Option<String>>)
        ensures
            match *self {
                EntityDataValue::OptionalString(v) => r == Some(&v),
                EntityDataValue::OptionalTextComponent(v) => r == Some(&v),
                _ => r is None,
            },
    {
        match self {
            Self::OptionalString(v) | Self::OptionalTextComponent(v) => Some(v),
            _ => None,
        }
    }
}

/// Types that can be stored in entity data
pub trait IntoEntityData: Sized {
    /// The value this stands for.
    spec fn to_data(self) -> EntityDataValue;

    /// What a stored value stands for, when it has this type.
    spec fn from_data(value: EntityDataValue) -> Option<Self>;

    /// A value read back from the stored form is the value stored.
    proof fn lemma_roundtrip(self)
        ensures
            Self::from_data(self.to_data()) == Some(self),
    ;

    /// Converts this value into an `EntityDataValue`
    fn into_entity_data(self) -> (r: EntityDataValue)
        ensures
            r == self.to_data(),
    ;

    /// Extracts this value from an `EntityDataValue`
    fn from_entity_data(value: &EntityDataValue) -> (r: Option<Self>)
        ensures
            r == Self::from_data(*value),
    ;
}

impl IntoEntityData for u8 {
    open spec fn to_data(self) -> EntityDataValue {
        EntityDataValue::Byte(self)
    }

    open spec fn from_data(value: EntityDataValue) -> Option<Self> {
        match value {
            EntityDataValue::Byte(v) => Some(v),
            _ => None,
        }
    }

    proof fn lemma_roundtrip(self) {
    }

    fn into_entity_data(self) -> (r: EntityDataValue) {
        EntityDataValue::Byte(self)
    }

    fn from_entity_data(value: &EntityDataValue) -> (r: Option<Self>) {
        value.as_byte()
    }
}

impl IntoEntityData for i32 {
    open spec fn to_data(self) -> EntityDataValue {
        EntityDataValue::Int(self)
    }

    open spec fn from_data(value: EntityDataValue) -> Option<Self> {
        match value {
            EntityDataValue::Int(v) => Some(v),
            _ => None,
        }
    }

    proof fn lemma_roundtrip(self) {
    }

    fn into_entity_data(self) -> (r: EntityDataValue) {
        EntityDataValue::Int(self)
    }

    fn from_entity_data(value: &EntityDataValue) -> (r: Option<Self>) {
        value.as_int()
    }
}

impl IntoEntityData for i64 {
    open spec fn to_data(self) -> EntityDataValue {
        EntityDataValue::Long(self)
    }

    open spec fn from_data(value: EntityDataValue) -> Option<Self> {
        match value {
            EntityDataValue::Long(v) => Some(v),
            _ => None,
        }
    }

    proof fn lemma_roundtrip(self) {
    }

    fn into_entity_data(self) -> (r: EntityDataValue) {
        EntityDataValue::Long(self)
    }

    fn from_entity_data(value: &EntityDataValue) -> (r: Option<Self>) {
        value.as_long()
    }
}

impl IntoEntityData for Float32 {
    open spec fn to_data(self) -> EntityDataValue {
        EntityDataValue::Float(self.0)
    }

    open spec fn from_data(value: EntityDataValue) -> Option<Self> {
        match value {
            EntityDataValue::Float(v) => Some(Float32(v)),
            _ => None,
        }
    }

    proof fn lemma_roundtrip(self) {
    }

    fn into_entity_data(self) -> (r: EntityDataValue) {
        EntityDataValue::Float(self.0)
    }

    fn from_entity_data(value: &EntityDataValue) -> (r: Option<Self>) {
        match value.as_float() {
            Some(v) => Some(Float32(v)),
            None => None,
        }
    }
}

impl IntoEntityData for String {
    open spec fn to_data(self) -> EntityDataValue {
        EntityDataValue::String(self)
    }

    open spec fn from_data(value: EntityDataValue) -> Option<Self> {
        match value {
            EntityDataValue::String(v) => Some(v),
            _ => None,
        }
    }

    proof fn lemma_roundtrip(self) {
    }

    fn into_entity_data(self) -> (r: EntityDataValue) {
        EntityDataValue::String(self)
    }

    fn from_entity_data(value: &EntityDataValue) -> (r: Option<Self>) {
        match value {
            EntityDataValue::String(v) => Some(v.clone()),
            _ => None,
        }
    }
}

impl IntoEntityData for bool {
    open spec fn to_data(self) -> EntityDataValue {
        EntityDataValue::Boolean(self)
    }

    open spec fn from_data(value: EntityDataValue) -> Option<Self> {
        match value {
            EntityDataValue::Boolean(v) => Some(v),
            _ => None,
        }
    }

    proof fn lemma_roundtrip(self) {
    }

    fn into_entity_data(self) -> (r: EntityDataValue) {
        EntityDataValue::Boolean(self)
    }

    fn from_entity_data(value: &EntityDataValue) -> (r: Option<Self>) {
        value.as_boolean()
    }
}

impl IntoEntityData for Pose {
    open spec fn to_data(self) -> EntityDataValue {
        EntityDataValue::Pose(self)
    }

    open spec fn from_data(value: EntityDataValue) -> Option<Self> {
        match value {
            EntityDataValue::Pose(v) => Some(v),
            _ => None,
        }
    }

    proof fn lemma_roundtrip(self) {
    }

    fn into_entity_data(self) -> (r: EntityDataValue) {
        EntityDataValue::Pose(self)
    }

    fn from_entity_data(value: &EntityDataValue) -> (r: Option<Self>) {
        value.as_pose()
    }
}

impl IntoEntityData for Option<String> {
    open spec fn to_data(self) -> EntityDataValue {
        EntityDataValue::OptionalTextComponent(self)
    }

    open spec fn from_data(value: EntityDataValue) -> Option<Self> {
        match value {
            EntityDataValue::OptionalString(v) => Some(v),
            EntityDataValue::OptionalTextComponent(v) => Some(v),
            _ => None,
        }
    }

    proof fn lemma_roundtrip(self) {
    }

    fn into_entity_data(self) -> (r: EntityDataValue) {
        EntityDataValue::OptionalTextComponent(self)
    }

    fn from_entity_data(value: &EntityDataValue) -> (r: Option<Self>) {
        match value {
            EntityDataValue::OptionalString(v) | EntityDataValue::OptionalTextComponent(v) => {
                Some(
                    match v {
                        Some(s) => Some(s.clone()),
                        None => None,
                    },
                )
            },
            _ => None,
        }
    }
}

impl IntoEntityData for Vector3f {
    open spec fn to_data(self) -> EntityDataValue {
        EntityDataValue::Vector3(self)
    }

    open spec fn from_data(value: EntityDataValue) -> Option<Self> {
        match value {
            EntityDataValue::Vector3(v) => Some(v),
            _ => None,
        }
    }

    proof fn lemma_roundtrip(self) {
    }

    fn into_entity_data(self) -> (r: EntityDataValue) {
        EntityDataValue::Vector3(self)
    }

    fn from_entity_data(value: &EntityDataValue) -> (r: Option<Self>) {
        match value {
            EntityDataValue::Vector3(v) => Some(*v),
            _ => None,
        }
    }
}

impl IntoEntityData for Quaternionf {
    open spec fn to_data(self) -> EntityDataValue {
        EntityDataValue::Quaternion(self)
    }

    open spec fn from_data(value: EntityDataValue) -> Option<Self> {
        match value {
            EntityDataValue::Quaternion(v) => Some(v),
            _ => None,
        }
    }

    proof fn lemma_roundtrip(self) {
    }

    fn into_entity_data(self) -> (r: EntityDataValue) {
        EntityDataValue::Quaternion(self)
    }

    fn from_entity_data(value: &EntityDataValue) -> (r: Option<Self>) {
        match value {
            EntityDataValue::Quaternion(q) => Some(*q),
            _ => None,
        }
    }
}

impl IntoEntityData for EntityBlockState {
    open spec fn to_data(self) -> EntityDataValue {
        EntityDataValue::BlockState(self)
    }

    open spec fn from_data(value: EntityDataValue) -> Option<Self> {
        match value {
            EntityDataValue::BlockState(v) => Some(v),
            _ => None,
        }
    }

    proof fn lemma_roundtrip(self) {
    }

    fn into_entity_data(self) -> (r: EntityDataValue) {
        EntityDataValue::BlockState(self)
    }

    fn from_entity_data(value: &EntityDataValue) -> (r: Option<Self>) {
        match value {
            EntityDataValue::BlockState(b) => Some(*b),
            _ => None,
        }
    }
}

/// Type-safe accessor for entity data fields
pub struct EntityDataAccessor<T> {
    id: u8,
    _phantom: PhantomData<T>,
}

impl<T> EntityDataAccessor<T> {
    /// The field id this accessor reads and writes.
    pub closed spec fn field(&self) -> u8 {
        self.id
    }

    /// Creates a new data accessor
    pub fn new(id: u8) -> (r: Self)
        ensures
            r.field() == id,
    {
        EntityDataAccessor { id, _phantom: PhantomData }
    }

    /// Gets the data field ID
    pub fn id(&self) -> (r: u8)
        ensures
            r == self.field(),
    {
        self.id
    }
}

impl<T> Clone for EntityDataAccessor<T> {
    fn clone(&self) -> (r: Self)
        ensures
            r.field() == self.field(),
    {
        EntityDataAccessor { id: self.id, _phantom: PhantomData }
    }
}

impl<T> Copy for EntityDataAccessor<T> {

}

/// Standard entity data accessors
impl EntityDataAccessor<u8> {
    /// Shared flags (fire, crouch, sprint, etc.)
    pub fn shared_flags() -> (r: Self)
        ensures
            r.field() == 0,
    {
        Self::new(0)
    }

    /// Display: billboard constraints
    pub fn display_billboard() -> (r: Self)
        ensures
            r.field() == 15,
    {
        Self::new(15)
    }

    /// Player model parts
    pub fn player_model_parts() -> (r: Self)
        ensures
            r.field() == 18,
    {
        Self::new(18)
    }
}

impl EntityDataAccessor<Float32> {
    /// Display: view range
    pub fn display_view_range() -> (r: Self)
        ensures
            r.field() == 17,
    {
        Self::new(17)
    }

    /// Display: shadow radius
    pub fn display_shadow_radius() -> (r: Self)
        ensures
            r.field() == 18,
    {
        Self::new(18)
    }

    /// Display: shadow strength
    pub fn display_shadow_strength() -> (r: Self)
        ensures
            r.field() == 19,
    {
        Self::new(19)
    }

    /// Display: width
    pub fn display_width() -> (r: Self)
        ensures
            r.field() == 20,
    {
        Self::new(20)
    }

    /// Display: height
    pub fn display_height() -> (r: Self)
        ensures
            r.field() == 21,
    {
        Self::new(21)
    }
}

impl EntityDataAccessor<i32> {
    /// Air supply (for drowning)
    pub fn air_supply() -> (r: Self)
        ensures
            r.field() == 1,
    {
        Self::new(1)
    }

    /// Frozen ticks (for powder snow)
    pub fn frozen_ticks() -> (r: Self)
        ensures
            r.field() == 7,
    {
        Self::new(7)
    }

    /// Display: transformation interpolation start delay
    pub fn display_interpolation_start() -> (r: Self)
        ensures
            r.field() == 8,
    {
        Self::new(8)
    }

    /// Display: transformation interpolation duration
    pub fn display_interpolation_duration() -> (r: Self)
        ensures
            r.field() == 9,
    {
        Self::new(9)
    }

    /// Display: pos/rot interpolation duration
    pub fn display_pos_rot_interpolation() -> (r: Self)
        ensures
            r.field() == 10,
    {
        Self::new(10)
    }

    /// Display: brightness override (-1 for none)
    pub fn display_brightness() -> (r: Self)
        ensures
            r.field() == 16,
    {
        Self::new(16)
    }

    /// Display: glow color override (-1 for none)
    pub fn display_glow_color() -> (r: Self)
        ensures
            r.field() == 22,
    {
        Self::new(22)
    }

    /// Slime/Magma cube size (index 16 in Mob entity hierarchy)
    pub fn slime_size() -> (r: Self)
        ensures
            r.field() == 16,
    {
        Self::new(16)
    }

    /// Zombie: special type (unused in modern versions)
    pub fn zombie_special_type() -> (r: Self)
        ensures
            r.field() == 17,
    {
        Self::new(17)
    }
}

impl EntityDataAccessor<Option<String>> {
    /// Custom name (optional text component)
    pub fn custom_name() -> (r: Self)
        ensures
            r.field() == 2,
    {
        Self::new(2)
    }
}

impl EntityDataAccessor<bool> {
    /// Whether custom name is visible
    pub fn custom_name_visible() -> (r: Self)
        ensures
            r.field() == 3,
    {
        Self::new(3)
    }

    /// Whether entity is silent
    pub fn silent() -> (r: Self)
        ensures
            r.field() == 4,
    {
        Self::new(4)
    }

    /// Whether entity has no gravity
    pub fn no_gravity() -> (r: Self)
        ensures
            r.field() == 5,
    {
        Self::new(5)
    }

    /// Zombie: whether it is a baby
    pub fn zombie_is_baby() -> (r: Self)
        ensures
            r.field() == 16,
    {
        Self::new(16)
    }

    /// Zombie: whether it is converting to a drowned
    pub fn zombie_drowned_conversion() -> (r: Self)
        ensures
            r.field() == 18,
    {
        Self::new(18)
    }
}

impl EntityDataAccessor<Pose> {
    /// Entity pose (standing, crouching, etc.)
    pub fn pose() -> (r: Self)
        ensures
            r.field() == 6,
    {
        Self::new(6)
    }
}

impl EntityDataAccessor<Vector3f> {
    /// Display entity translation
    pub fn display_translation() -> (r: Self)
        ensures
            r.field() == 11,
    {
        Self::new(11)
    }

    /// Display entity scale
    pub fn display_scale() -> (r: Self)
        ensures
            r.field() == 12,
    {
        Self::new(12)
    }
}

impl EntityDataAccessor<Quaternionf> {
    /// Display entity left rotation
    pub fn display_left_rotation() -> (r: Self)
        ensures
            r.field() == 13,
    {
        Self::new(13)
    }

    /// Display entity right rotation
    pub fn display_right_rotation() -> (r: Self)
        ensures
            r.field() == 14,
    {
        Self::new(14)
    }
}

impl EntityDataAccessor<EntityBlockState> {
    /// Block Display block state (index 23)
    pub fn block_display_state() -> (r: Self)
        ensures
            r.field() == 23,
    {
        Self::new(23)
    }
}

/// A data item that tracks its dirty state
pub struct DataItem {
    pub id: u8,
    pub value: EntityDataValue,
    pub dirty: bool,
}

/// Entity data storage with dirty tracking
pub struct EntityData {
    entity_id: i32,
    items: Vec<DataItem>,
    is_dirty: bool,
}

/// The ids of a sequence of items.
pub open spec fn item_ids(items: Seq<DataItem>) -> Seq<u8> {
    items.map_values(|it: DataItem| it.id)
}

/// The fields of a sequence of items, by id: each id's value and whether it is dirty.
pub open spec fn items_map(items: Seq<DataItem>) -> Map<u8, (EntityDataValue, bool)> {
    Map::new(
        |id: u8| exists|i: int| 0 <= i < items.len() && items[i].id == id,
        |id: u8|
            {
                let i = choose|i: int| 0 <= i < items.len() && items[i].id == id;
                (items[i].value, items[i].dirty)
            },
    )
}

/// The pairs of a packing: each listed id with its value.
pub open spec fn packed_map(pairs: Seq<(u8, EntityDataValue)>) -> Map<u8, EntityDataValue> {
    Map::new(
        |id: u8| exists|i: int| 0 <= i < pairs.len() && pairs[i].0 == id,
        |id: u8|
            {
                let i = choose|i: int| 0 <= i < pairs.len() && pairs[i].0 == id;
                pairs[i].1
            },
    )
}

/// The fields of a map that are dirty, with their values.
pub open spec fn dirty_fields(m: Map<u8, (EntityDataValue, bool)>) -> Map<u8, EntityDataValue> {
    Map::new(|id: u8| m.contains_key(id) && m[id].1, |id: u8| m[id].0)
}

/// All fields of a map with their values.
pub open spec fn all_fields(m: Map<u8, (EntityDataValue, bool)>) -> Map<u8, EntityDataValue> {
    Map::new(|id: u8| m.contains_key(id), |id: u8| m[id].0)
}

/// A map with every field marked clean.
pub open spec fn all_clean(m: Map<u8, (EntityDataValue, bool)>) -> Map<u8, (EntityDataValue, bool)> {
    Map::new(|id: u8| m.contains_key(id), |id: u8| (m[id].0, false))
}

impl EntityData {
    /// The fields, by id: each one's value and whether it is dirty.
    pub closed spec fn fields(&self) -> Map<u8, (EntityDataValue, bool)> {
        items_map(self.items@)
    }

    /// Whether the data as a whole is marked as changed.
    pub closed spec fn dirty_flag(&self) -> bool {
        self.is_dirty
    }

    /// The entity this data belongs to.
    pub closed spec fn owner(&self) -> i32 {
        self.entity_id
    }

    /// No field id occurs twice.
    pub closed spec fn wf(&self) -> bool {
        item_ids(self.items@).no_duplicates()
    }

    proof fn lemma_lookup(&self, i: int)
        requires
            self.wf(),
            0 <= i < self.items@.len(),
        ensures
            self.fields().contains_key(self.items@[i].id),
            self.fields()[self.items@[i].id] == (self.items@[i].value, self.items@[i].dirty),
    {
        let id = self.items@[i].id;
        let j = choose|j: int| 0 <= j < self.items@.len() && self.items@[j].id == id;
        assert(item_ids(self.items@)[i] == id && item_ids(self.items@)[j] == id);
    }

    /// Creates a new entity data storage
    pub fn new(entity_id: i32) -> (r: Self)
        ensures
            r.wf(),
            r.fields() == Map::<u8, (EntityDataValue, bool)>::empty(),
            !r.dirty_flag(),
            r.owner() == entity_id,
    {
        let r = EntityData { entity_id, items: Vec::new(), is_dirty: false };
        assert(r.fields() =~= Map::<u8, (EntityDataValue, bool)>::empty());
        assert(item_ids(r.items@) =~= Seq::<u8>::empty());
        r
    }

    /// The position of the item with `id`, if there is one.
    fn find(&self, id: u8) -> (r: Option<usize>)
        requires
            self.wf(),
        ensures
            match r {
                Some(i) => i < self.items@.len() && self.items@[i as int].id == id,
                None => !self.fields().contains_key(id),
            },
    {
        let mut i: usize = 0;
        while i < self.items.len()
            invariant
                i <= self.items@.len(),
                forall|j: int| 0 <= j < i ==> self.items@[j].id != id,
            decreases self.items@.len() - i,
        {
            if self.items[i].id == id {
                return Some(i);
            }
            i += 1;
        }
        None
    }

    /// Puts a value in a field, marking the field dirty; the flag of the
    /// whole data is left as it is.
    fn put(&mut self, id: u8, value: EntityDataValue)
        requires
            old(self).wf(),
        ensures
            final(self).wf(),
            final(self).fields() == old(self).fields().insert(id, (value, true)),
            final(self).dirty_flag() == old(self).dirty_flag(),
            final(self).owner() == old(self).owner(),
    {
        let ghost before = self.items@;
        match self.find(id) {
            Some(i) => {
                let ghost v = value;
                self.items.set(i, DataItem { id, value, dirty: true });
                proof {
                    assert(item_ids(self.items@) =~= item_ids(before));
                    assert forall|k: u8| #[trigger]
                        self.fields().contains_key(k) == old(self).fields().insert(
                            id,
                            (v, true),
                        ).contains_key(k) by {
                        if k != id && old(self).fields().contains_key(k) {
                            let j = choose|j: int| 0 <= j < before.len() && before[j].id == k;
                            assert(self.items@[j].id == k);
                        }
                        if k != id && self.fields().contains_key(k) {
                            let j = choose|j: int|
                                0 <= j < self.items@.len() && self.items@[j].id == k;
                            assert(before[j].id == k);
                        }
                        if k == id {
                            assert(self.items@[i as int].id == id);
                        }
                    }
                    assert forall|k: u8| #[trigger] self.fields().contains_key(k) implies self.fields()[k]
                        == old(self).fields().insert(id, (v, true))[k] by {
                        let j = choose|j: int| 0 <= j < self.items@.len() && self.items@[j].id == k;
                        self.lemma_lookup(j);
                        if k != id {
                            old(self).lemma_lookup(j);
                        } else {
                            self.lemma_lookup(i as int);
                        }
                    }
                    assert(self.fields() =~= old(self).fields().insert(id, (v, true)));
                }
            },
            None => {
                let ghost v = value;
                self.items.push(DataItem { id, value, dirty: true });
                proof {
                    assert(item_ids(self.items@) =~= item_ids(before).push(id));
                    assert forall|k: u8| #[trigger]
                        self.fields().contains_key(k) == old(self).fields().insert(
                            id,
                            (v, true),
                        ).contains_key(k) by {
                        if k != id && old(self).fields().contains_key(k) {
                            let j = choose|j: int| 0 <= j < before.len() && before[j].id == k;
                            assert(self.items@[j].id == k);
                        }
                        if k != id && self.fields().contains_key(k) {
                            let j = choose|j: int|
                                0 <= j < self.items@.len() && self.items@[j].id == k;
                            assert(before[j].id == k);
                        }
                        if k == id {
                            assert(self.items@[before.len() as int].id == id);
                        }
                    }
                    assert forall|k: u8| #[trigger] self.fields().contains_key(k) implies self.fields()[k]
                        == old(self).fields().insert(id, (v, true))[k] by {
                        let j = choose|j: int| 0 <= j < self.items@.len() && self.items@[j].id == k;
                        self.lemma_lookup(j);
                        if k != id {
                            old(self).lemma_lookup(j);
                        } else {
                            self.lemma_lookup(before.len() as int);
                        }
                    }
                    assert(self.fields() =~= old(self).fields().insert(id, (v, true)));
                }
            },
        }
    }

    /// Defines a data field with an initial value (replacing any earlier one);
    /// the field starts dirty so that a first spawn sends it.
    pub fn define<T: IntoEntityData>(&mut self, accessor: EntityDataAccessor<T>, initial_value: T)
        requires
            old(self).wf(),
        ensures
            final(self).wf(),
            final(self).fields() == old(self).fields().insert(
                accessor.field(),
                (initial_value.to_data(), true),
            ),
            final(self).dirty_flag() == old(self).dirty_flag(),
            final(self).owner() == old(self).owner(),
    {
        let value = initial_value.into_entity_data();
        self.put(accessor.id(), value);
    }

    /// Sets a data field value (defining the field if it was not), marking
    /// the field and the data dirty.
    pub fn set<T: IntoEntityData>(&mut self, accessor: EntityDataAccessor<T>, value: T)
        requires
            old(self).wf(),
        ensures
            final(self).wf(),
            final(self).fields() == old(self).fields().insert(accessor.field(), (value.to_data(), true)),
            final(self).dirty_flag(),
            final(self).owner() == old(self).owner(),
    {
        let new_value = value.into_entity_data();
        self.put(accessor.id(), new_value);
        self.is_dirty = true;
    }

    /// Gets a data field value; the field must be defined with a value of this type.
    pub fn get<T: IntoEntityData>(&self, accessor: EntityDataAccessor<T>) -> (r: T)
        requires
            self.wf(),
            self.fields().contains_key(accessor.field()),
            T::from_data(self.fields()[accessor.field()].0) is Some,
        ensures
            Some(r) == T::from_data(self.fields()[accessor.field()].0),
    {
        let i = self.find(accessor.id()).unwrap();
        proof {
            self.lemma_lookup(i as int);
        }
        T::from_entity_data(&self.items[i].value).unwrap()
    }

    /// Checks if any data has been modified
    pub fn is_dirty(&self) -> (r: bool)
        ensures
            r == self.dirty_flag(),
    {
        self.is_dirty
    }

    /// Gets the entity ID this data belongs to
    pub fn entity_id(&self) -> (r: i32)
        ensures
            r == self.owner(),
    {
        self.entity_id
    }
}

/// The dirty items of a sequence, as id and value pairs.
pub open spec fn dirty_pairs(items: Seq<DataItem>) -> Seq<(u8, EntityDataValue)>
    decreases items.len(),
{
    if items.len() == 0 {
        Seq::empty()
    } else {
        let r = dirty_pairs(items.drop_last());
        if items.last().dirty {
            r.push((items.last().id, items.last().value))
        } else {
            r
        }
    }
}

/// All items of a sequence, as id and value pairs.
pub open spec fn all_pairs(items: Seq<DataItem>) -> Seq<(u8, EntityDataValue)>
    decreases items.len(),
{
    if items.len() == 0 {
        Seq::empty()
    } else {
        all_pairs(items.drop_last()).push((items.last().id, items.last().value))
    }
}

/// The ids of a sequence of pairs.
pub open spec fn pair_ids(ps: Seq<(u8, EntityDataValue)>) -> Seq<u8> {
    ps.map_values(|p: (u8, EntityDataValue)| p.0)
}

proof fn lemma_push_no_dup(s: Seq<u8>, x: u8)
    requires
        s.no_duplicates(),
        !s.contains(x),
    ensures
        s.push(x).no_duplicates(),
{
    let t = s.push(x);
    assert forall|i: int, j: int| 0 <= i < t.len() && 0 <= j < t.len() && i != j implies t[i]
        != t[j] by {
        if i < s.len() && j < s.len() {
            assert(t[i] == s[i] && t[j] == s[j]);
        } else if i < s.len() {
            assert(t[i] == s[i]);
        } else if j < s.len() {
            assert(t[j] == s[j]);
        }
    }
}

proof fn lemma_items_map_push(prefix: Seq<DataItem>, last: DataItem)
    requires
        item_ids(prefix).no_duplicates(),
        !item_ids(prefix).contains(last.id),
    ensures
        items_map(prefix.push(last)) == items_map(prefix).insert(last.id, (last.value, last.dirty)),
{
    let items = prefix.push(last);
    assert forall|k: u8| #[trigger] items_map(items).contains_key(k) == items_map(prefix).insert(
        last.id,
        (last.value, last.dirty),
    ).contains_key(k) by {
        if k == last.id {
            assert(items[prefix.len() as int].id == k);
        } else if items_map(prefix).contains_key(k) {
            let j = choose|j: int| 0 <= j < prefix.len() && prefix[j].id == k;
            assert(items[j].id == k);
        } else if items_map(items).contains_key(k) {
            let j = choose|j: int| 0 <= j < items.len() && items[j].id == k;
            assert(prefix[j].id == k);
        }
    }
    assert forall|k: u8| #[trigger] items_map(items).contains_key(k) implies items_map(items)[k]
        == items_map(prefix).insert(last.id, (last.value, last.dirty))[k] by {
        let j = choose|j: int| 0 <= j < items.len() && items[j].id == k;
        if k == last.id {
            if j < prefix.len() {
                assert(item_ids(prefix)[j] == k);
                assert(item_ids(prefix).contains(k));
            }
        } else {
            assert(items[prefix.len() as int].id == last.id);
            let j2 = choose|j2: int| 0 <= j2 < prefix.len() && prefix[j2].id == k;
            assert(items[j2].id == k);
            assert(item_ids(prefix)[j] == k && item_ids(prefix)[j2] == k);
        }
    }
    assert(items_map(items) =~= items_map(prefix).insert(last.id, (last.value, last.dirty)));
}

proof fn lemma_packed_map_push(prefix: Seq<(u8, EntityDataValue)>, id: u8, v: EntityDataValue)
    requires
        pair_ids(prefix).no_duplicates(),
        !pair_ids(prefix).contains(id),
    ensures
        packed_map(prefix.push((id, v))) == packed_map(prefix).insert(id, v),
{
    let ps = prefix.push((id, v));
    assert forall|k: u8| #[trigger] packed_map(ps).contains_key(k) == packed_map(prefix).insert(
        id,
        v,
    ).contains_key(k) by {
        if k == id {
            assert(ps[prefix.len() as int].0 == k);
        } else if packed_map(prefix).contains_key(k) {
            let j = choose|j: int| 0 <= j < prefix.len() && prefix[j].0 == k;
            assert(ps[j].0 == k);
        } else if packed_map(ps).contains_key(k) {
            let j = choose|j: int| 0 <= j < ps.len() && ps[j].0 == k;
            assert(prefix[j].0 == k);
        }
    }
    assert forall|k: u8| #[trigger] packed_map(ps).contains_key(k) implies packed_map(ps)[k]
        == packed_map(prefix).insert(id, v)[k] by {
        let j = choose|j: int| 0 <= j < ps.len() && ps[j].0 == k;
        if k == id {
            if j < prefix.len() {
                assert(pair_ids(prefix)[j] == k);
                assert(pair_ids(prefix).contains(k));
            }
        } else {
            assert(ps[prefix.len() as int].0 == id);
            let j2 = choose|j2: int| 0 <= j2 < prefix.len() && prefix[j2].0 == k;
            assert(ps[j2].0 == k);
            assert(pair_ids(prefix)[j] == k && pair_ids(prefix)[j2] == k);
        }
    }
    assert(packed_map(ps) =~= packed_map(prefix).insert(id, v));
}

/// Packing the dirty items gives each dirty field once, with its value.
proof fn lemma_dirty_pairs(items: Seq<DataItem>)
    requires
        item_ids(items).no_duplicates(),
    ensures
        packed_map(dirty_pairs(items)) == dirty_fields(items_map(items)),
        pair_ids(dirty_pairs(items)).no_duplicates(),
        forall|k: u8| #[trigger] pair_ids(dirty_pairs(items)).contains(k) ==> item_ids(items).contains(k),
    decreases items.len(),
{
    if items.len() == 0 {
        assert(packed_map(dirty_pairs(items)) =~= dirty_fields(items_map(items)));
        assert(pair_ids(dirty_pairs(items)) =~= Seq::<u8>::empty());
    } else {
        let prefix = items.drop_last();
        let last = items.last();
        assert(items == prefix.push(last));
        assert(item_ids(prefix) =~= item_ids(items).drop_last());
        assert(!item_ids(prefix).contains(last.id)) by {
            if item_ids(prefix).contains(last.id) {
                let j = choose|j: int| 0 <= j < item_ids(prefix).len() && item_ids(prefix)[j] == last.id;
                assert(item_ids(items)[j] == item_ids(items)[items.len() - 1]);
            }
        }
        lemma_dirty_pairs(prefix);
        lemma_items_map_push(prefix, last);
        assert(!items_map(prefix).contains_key(last.id)) by {
            if items_map(prefix).contains_key(last.id) {
                let j = choose|j: int| 0 <= j < prefix.len() && prefix[j].id == last.id;
                assert(item_ids(prefix)[j] == last.id);
            }
        }
        let r = dirty_pairs(prefix);
        assert(!pair_ids(r).contains(last.id));
        if last.dirty {
            assert(dirty_pairs(items) == r.push((last.id, last.value)));
            assert(pair_ids(r.push((last.id, last.value))) =~= pair_ids(r).push(last.id));
            lemma_push_no_dup(pair_ids(r), last.id);
            lemma_packed_map_push(r, last.id, last.value);
            assert forall|k: u8| pair_ids(dirty_pairs(items)).contains(k) implies item_ids(
                items,
            ).contains(k) by {
                let idx = choose|idx: int|
                    0 <= idx < pair_ids(dirty_pairs(items)).len() && pair_ids(dirty_pairs(items))[idx]
                        == k;
                if idx < r.len() {
                    assert(pair_ids(r)[idx] == k);
                    assert(pair_ids(r).contains(k));
                    let j = choose|j: int| 0 <= j < item_ids(prefix).len() && item_ids(prefix)[j] == k;
                    assert(item_ids(items)[j] == k);
                } else {
                    assert(item_ids(items)[items.len() - 1] == k);
                }
            }
        } else {
            assert(dirty_pairs(items) == r);
            assert forall|k: u8| pair_ids(dirty_pairs(items)).contains(k) implies item_ids(
                items,
            ).contains(k) by {
                assert(pair_ids(r).contains(k));
                let j = choose|j: int| 0 <= j < item_ids(prefix).len() && item_ids(prefix)[j] == k;
                assert(item_ids(items)[j] == k);
            }
        }
        assert(packed_map(dirty_pairs(items)) =~= dirty_fields(items_map(items)));
    }
}

/// Packing all items gives each field once, with its value.
proof fn lemma_all_pairs(items: Seq<DataItem>)
    requires
        item_ids(items).no_duplicates(),
    ensures
        packed_map(all_pairs(items)) == all_fields(items_map(items)),
        pair_ids(all_pairs(items)) == item_ids(items),
    decreases items.len(),
{
    if items.len() == 0 {
        assert(packed_map(all_pairs(items)) =~= all_fields(items_map(items)));
        assert(pair_ids(all_pairs(items)) =~= item_ids(items));
    } else {
        let prefix = items.drop_last();
        let last = items.last();
        assert(items == prefix.push(last));
        assert(item_ids(prefix) =~= item_ids(items).drop_last());
        assert(!item_ids(prefix).contains(last.id)) by {
            if item_ids(prefix).contains(last.id) {
                let j = choose|j: int| 0 <= j < item_ids(prefix).len() && item_ids(prefix)[j] == last.id;
                assert(item_ids(items)[j] == item_ids(items)[items.len() - 1]);
            }
        }
        lemma_all_pairs(prefix);
        lemma_items_map_push(prefix, last);
        let r = all_pairs(prefix);
        assert(pair_ids(r.push((last.id, last.value))) =~= pair_ids(r).push(last.id));
        lemma_packed_map_push(r, last.id, last.value);
        assert(packed_map(all_pairs(items)) =~= all_fields(items_map(items)));
        assert(pair_ids(all_pairs(items)) =~= item_ids(items));
    }
}

/// Items with the same ids and values, all clean, have every field clean.
proof fn lemma_cleaned(before: Seq<DataItem>, after: Seq<DataItem>)
    requires
        item_ids(before).no_duplicates(),
        before.len() == after.len(),
        forall|j: int|
            0 <= j < after.len() ==> #[trigger] after[j].id == before[j].id && after[j].value
                == before[j].value && !after[j].dirty,
    ensures
        item_ids(after).no_duplicates(),
        items_map(after) == all_clean(items_map(before)),
{
    assert(item_ids(after) =~= item_ids(before)) by {
        assert forall|j: int| 0 <= j < after.len() implies item_ids(after)[j] == item_ids(before)[j] by {
            assert(after[j].id == before[j].id);
        }
    }
    assert forall|k: u8| #[trigger] items_map(after).contains_key(k) == all_clean(
        items_map(before),
    ).contains_key(k) by {
        if items_map(after).contains_key(k) {
            let j = choose|j: int| 0 <= j < after.len() && after[j].id == k;
            assert(before[j].id == k);
        }
        if items_map(before).contains_key(k) {
            let j = choose|j: int| 0 <= j < before.len() && before[j].id == k;
            assert(after[j].id == k);
        }
    }
    assert forall|k: u8| #[trigger] items_map(after).contains_key(k) implies items_map(after)[k]
        == all_clean(items_map(before))[k] by {
        let j = choose|j: int| 0 <= j < after.len() && after[j].id == k;
        let j2 = choose|j2: int| 0 <= j2 < before.len() && before[j2].id == k;
        assert(after[j].id == before[j].id);
        assert(item_ids(before)[j] == item_ids(before)[j2]);
    }
    assert(items_map(after) =~= all_clean(items_map(before)));
}

impl EntityData {
    /// Takes the items out as pairs (only the dirty ones, or all) and marks
    /// every item clean.
    fn take_pairs(&mut self, only_dirty: bool) -> (r: Vec<(u8, EntityDataValue)>)
        requires
            old(self).wf(),
        ensures
            final(self).wf(),
            final(self).fields() == all_clean(old(self).fields()),
            final(self).dirty_flag() == old(self).dirty_flag(),
            final(self).owner() == old(self).owner(),
            r@ == if only_dirty {
                dirty_pairs(old(self).items@)
            } else {
                all_pairs(old(self).items@)
            },
    {
        let ghost src = self.items@;
        let mut out: Vec<(u8, EntityDataValue)> = Vec::new();
        let mut i: usize = 0;
        while i < self.items.len()
            invariant
                src == old(self).items@,
                self.entity_id == old(self).entity_id,
                self.is_dirty == old(self).is_dirty,
                self.items@.len() == src.len(),
                i <= src.len(),
                forall|j: int| 0 <= j < src.len() ==> #[trigger] self.items@[j].id == src[j].id,
                forall|j: int| 0 <= j < src.len() ==> #[trigger] self.items@[j].value == src[j].value,
                forall|j: int| 0 <= j < i ==> !(#[trigger] self.items@[j].dirty),
                forall|j: int| i <= j < src.len() ==> #[trigger] self.items@[j].dirty == src[j].dirty,
                out@ == if only_dirty {
                    dirty_pairs(src.take(i as int))
                } else {
                    all_pairs(src.take(i as int))
                },
            decreases src.len() - i,
        {
            assert(src.take(i + 1).drop_last() == src.take(i as int));
            assert(src.take(i + 1).last() == src[i as int]);
            let id = self.items[i].id;
            let value = self.items[i].value.clone();
            assert(self.items@[i as int].id == src[i as int].id);
            if !only_dirty || self.items[i].dirty {
                out.push((id, self.items[i].value.clone()));
            }
            assert(value == src[i as int].value);
            self.items.set(i, DataItem { id, value, dirty: false });
            i += 1;
        }
        assert(src.take(src.len() as int) == src);
        proof {
            lemma_cleaned(src, self.items@);
        }
        out
    }

    /// Packs the dirty fields with their values and marks every field clean,
    /// when the data is marked as changed; nothing when it is not.
    ///
    /// The pairs come in no particular order; each dirty field comes once.
    pub fn pack_dirty(&mut self) -> (r: Option<Vec<(u8, EntityDataValue)>>)
        requires
            old(self).wf(),
        ensures
            final(self).wf(),
            final(self).owner() == old(self).owner(),
            !final(self).dirty_flag(),
            !old(self).dirty_flag() ==> r is None && final(self).fields() == old(self).fields(),
            old(self).dirty_flag() ==> final(self).fields() == all_clean(old(self).fields()),
            old(self).dirty_flag() ==> match r {
                Some(v) => packed_map(v@) == dirty_fields(old(self).fields()) && pair_ids(
                    v@,
                ).no_duplicates() && v@.len() > 0,
                None => dirty_fields(old(self).fields()) == Map::<u8, EntityDataValue>::empty(),
            },
    {
        if !self.is_dirty {
            return None;
        }
        proof {
            lemma_dirty_pairs(self.items@);
        }
        let pairs = self.take_pairs(true);
        self.is_dirty = false;
        if pairs.len() == 0 {
            assert(packed_map(pairs@) =~= Map::<u8, EntityDataValue>::empty());
            None
        } else {
            Some(pairs)
        }
    }

    /// Packs every field with its value (for a first spawn) and marks every
    /// field clean; the mark of the data as a whole is left as it is.
    ///
    /// The pairs come in no particular order; each field comes once.
    pub fn pack_all(&mut self) -> (r: Vec<(u8, EntityDataValue)>)
        requires
            old(self).wf(),
        ensures
            final(self).wf(),
            final(self).owner() == old(self).owner(),
            final(self).dirty_flag() == old(self).dirty_flag(),
            final(self).fields() == all_clean(old(self).fields()),
            packed_map(r@) == all_fields(old(self).fields()),
            pair_ids(r@).no_duplicates(),
    {
        proof {
            lemma_all_pairs(self.items@);
        }
        self.take_pairs(false)
    }
}

/// A field that is set reads back as the value set: after a `set` (or a
/// `define`) of a field, `get` on it gives that value.
pub proof fn law_get_after_set<T: IntoEntityData>(
    before: EntityData,
    after: EntityData,
    accessor: EntityDataAccessor<T>,
    value: T,
)
    requires
        after.fields() == before.fields().insert(accessor.field(), (value.to_data(), true)),
    ensures
        after.fields().contains_key(accessor.field()),
        T::from_data(after.fields()[accessor.field()].0) == Some(value),
{
    value.lemma_roundtrip();
}

/// Once packed, nothing is dirty: after `pack_dirty` or `pack_all`, no field
/// is left dirty, and every field keeps its value.
pub proof fn law_packed_is_clean(m: Map<u8, (EntityDataValue, bool)>)
    ensures
        dirty_fields(all_clean(m)) == Map::<u8, EntityDataValue>::empty(),
        all_fields(all_clean(m)) == all_fields(m),
{
    assert(dirty_fields(all_clean(m)) =~= Map::<u8, EntityDataValue>::empty());
    assert(all_fields(all_clean(m)) =~= all_fields(m));
}

/// A text with `\\` and `"` escaped by a backslash, for a JSON string.
pub open spec fn escape_json(s: Seq<char>) -> Seq<char>
    decreases s.len(),
{
    if s.len() == 0 {
        Seq::empty()
    } else {
        escape_json(s.drop_last()) + if s.last() == '\\' {
            seq!['\\', '\\']
        } else if s.last() == '"' {
            seq!['\\', '"']
        } else {
            seq![s.last()]
        }
    }
}

/// A plain text component in JSON: `{"text":"…"}`.
pub open spec fn text_json(s: Seq<char>) -> Seq<char> {
    seq!['{', '"', 't', 'e', 'x', 't', '"', ':', '"'] + escape_json(s) + seq!['"', '}']
}

/// The bytes an entity data value is sent as.
pub open spec fn data_value_bytes(v: EntityDataValue) -> Seq<u8> {
    match v {
        EntityDataValue::Byte(b) => seq![b],
        EntityDataValue::Int(i) => varint_bytes(i),
        EntityDataValue::Long(l) => be64(l as u64),
        EntityDataValue::Float(f) => be32(f),
        EntityDataValue::String(s) => prefixed_bytes(encode_utf8(s@)),
        EntityDataValue::Boolean(b) => seq![bool_byte(b)],
        EntityDataValue::Pose(p) => varint_bytes(pose_id(p) as i32),
        EntityDataValue::OptionalString(o) => match o {
            Some(s) => seq![1u8] + prefixed_bytes(encode_utf8(s@)),
            None => seq![0u8],
        },
        EntityDataValue::OptionalTextComponent(o) => match o {
            Some(s) => seq![1u8] + prefixed_bytes(encode_utf8(text_json(s@))),
            None => seq![0u8],
        },
        EntityDataValue::Vector3(v) => be32(v.0) + be32(v.1) + be32(v.2),
        EntityDataValue::Quaternion(q) => be32(q.0) + be32(q.1) + be32(q.2) + be32(q.3),
        EntityDataValue::BlockState(b) => varint_bytes(b.0),
    }
}

/// A vector is sent as twelve bytes: read as big-endian 32-bit values, bytes
/// 0..4 give its x, bytes 4..8 its y and bytes 8..12 its z.
pub proof fn law_vector3_bytes(v: Vector3f)
    ensures
        data_value_bytes(EntityDataValue::Vector3(v)).len() == 12,
        u32_at(data_value_bytes(EntityDataValue::Vector3(v)), 0) == Ok::<(u32, int), ReadError>(
            (v.0, 4),
        ),
        u32_at(data_value_bytes(EntityDataValue::Vector3(v)), 4) == Ok::<(u32, int), ReadError>(
            (v.1, 8),
        ),
        u32_at(data_value_bytes(EntityDataValue::Vector3(v)), 8) == Ok::<(u32, int), ReadError>(
            (v.2, 12),
        ),
{
    let b = data_value_bytes(EntityDataValue::Vector3(v));
    let e = Seq::<u8>::empty();
    lemma_be32_roundtrip(v.0, e, be32(v.1) + be32(v.2));
    lemma_be32_roundtrip(v.1, be32(v.0), be32(v.2));
    lemma_be32_roundtrip(v.2, be32(v.0) + be32(v.1), e);
    assert(e + be32(v.0) + (be32(v.1) + be32(v.2)) == b);
    assert(be32(v.0) + be32(v.1) + be32(v.2) == b);
    assert(be32(v.0) + be32(v.1) + be32(v.2) + e == b);
}

/// A quaternion is sent as sixteen bytes: read as big-endian 32-bit values,
/// bytes 0..4 give its x, 4..8 its y, 8..12 its z and 12..16 its w.
pub proof fn law_quaternion_bytes(q: Quaternionf)
    ensures
        data_value_bytes(EntityDataValue::Quaternion(q)).len() == 16,
        u32_at(data_value_bytes(EntityDataValue::Quaternion(q)), 0) == Ok::<(u32, int), ReadError>(
            (q.0, 4),
        ),
        u32_at(data_value_bytes(EntityDataValue::Quaternion(q)), 4) == Ok::<(u32, int), ReadError>(
            (q.1, 8),
        ),
        u32_at(data_value_bytes(EntityDataValue::Quaternion(q)), 8) == Ok::<(u32, int), ReadError>(
            (q.2, 12),
        ),
        u32_at(data_value_bytes(EntityDataValue::Quaternion(q)), 12)
            == Ok::<(u32, int), ReadError>((q.3, 16)),
{
    let b = data_value_bytes(EntityDataValue::Quaternion(q));
    let e = Seq::<u8>::empty();
    lemma_be32_roundtrip(q.0, e, be32(q.1) + be32(q.2) + be32(q.3));
    lemma_be32_roundtrip(q.1, be32(q.0), be32(q.2) + be32(q.3));
    lemma_be32_roundtrip(q.2, be32(q.0) + be32(q.1), be32(q.3));
    lemma_be32_roundtrip(q.3, be32(q.0) + be32(q.1) + be32(q.2), e);
    assert(e + be32(q.0) + (be32(q.1) + be32(q.2) + be32(q.3)) == b);
    assert(be32(q.0) + be32(q.1) + (be32(q.2) + be32(q.3)) == b);
    assert(be32(q.0) + be32(q.1) + be32(q.2) + be32(q.3) == b);
    assert(be32(q.0) + be32(q.1) + be32(q.2) + be32(q.3) + e == b);
}

/// The JSON of a plain text component holding `s`.
pub fn text_component_json(s: &str) -> (r: String)
    ensures
        r@ == text_json(s@),
{
    let cs = chars_of(s);
    let mut out = String::new();
    let head = ['{', '"', 't', 'e', 'x', 't', '"', ':', '"'];
    let mut k: usize = 0;
    while k < 9
        invariant
            k <= 9,
            head@ == seq!['{', '"', 't', 'e', 'x', 't', '"', ':', '"'],
            out@ == head@.take(k as int),
        decreases 9 - k,
    {
        push_char(&mut out, head[k]);
        assert(head@.take(k + 1) == head@.take(k as int).push(head@[k as int]));
        k += 1;
    }
    assert(head@.take(9) == head@);
    let ghost start = out@;
    let mut i: usize = 0;
    while i < cs.len()
        invariant
            i <= cs@.len(),
            out@ == start + escape_json(cs@.take(i as int)),
        decreases cs@.len() - i,
    {
        let c = cs[i];
        assert(cs@.take(i + 1).drop_last() == cs@.take(i as int));
        assert(cs@.take(i + 1).last() == c);
        if c == '\\' {
            push_char(&mut out, '\\');
            push_char(&mut out, '\\');
        } else if c == '"' {
            push_char(&mut out, '\\');
            push_char(&mut out, '"');
        } else {
            push_char(&mut out, c);
        }
        i += 1;
    }
    assert(cs@.take(cs@.len() as int) == s@);
    push_char(&mut out, '"');
    push_char(&mut out, '}');
    assert(out@ == text_json(s@));
    out
}

/// Converts an entity data value to the bytes it is sent as.
pub fn serialize_entity_data_value(value: &EntityDataValue) -> (r: Vec<u8>)
    ensures
        r@ == data_value_bytes(*value),
{
    let mut bytes: Vec<u8> = Vec::new();
    match value {
        EntityDataValue::Byte(v) => {
            write_u8(&mut bytes, *v);
        },
        EntityDataValue::Int(v) => {
            write_varint(&mut bytes, *v);
        },
        EntityDataValue::Long(v) => {
            write_u64(&mut bytes, *v as u64);
        },
        EntityDataValue::Float(v) => {
            write_u32(&mut bytes, *v);
        },
        EntityDataValue::String(v) => {
            write_string(&mut bytes, v.as_str());
        },
        EntityDataValue::Boolean(v) => {
            write_bool(&mut bytes, *v);
        },
        EntityDataValue::Pose(v) => {
            write_varint(&mut bytes, v.id() as i32);
        },
        EntityDataValue::OptionalString(v) => {
            if let Some(s) = v {
                write_bool(&mut bytes, true);
                write_string(&mut bytes, s.as_str());
            } else {
                write_bool(&mut bytes, false);
            }
        },
        EntityDataValue::OptionalTextComponent(v) => {
            if let Some(s) = v {
                write_bool(&mut bytes, true);
                let json = text_component_json(s.as_str());
                write_string(&mut bytes, json.as_str());
            } else {
                write_bool(&mut bytes, false);
            }
        },
        EntityDataValue::Vector3(v) => {
            write_u32(&mut bytes, v.0);
            write_u32(&mut bytes, v.1);
            write_u32(&mut bytes, v.2);
        },
        EntityDataValue::Quaternion(q) => {
            write_u32(&mut bytes, q.0);
            write_u32(&mut bytes, q.1);
            write_u32(&mut bytes, q.2);
            write_u32(&mut bytes, q.3);
        },
        EntityDataValue::BlockState(b) => {
            write_varint(&mut bytes, b.0);
        },
    }
    assert(bytes@ == data_value_bytes(*value));
    bytes
}

/// The serializer ids of the entity data kinds (the protocol's registry of
/// entity data serializers).
#[derive(Debug, Clone, Copy)]
pub struct SerializerIds {
    pub byte: u8,
    pub int: u8,
    pub long: u8,
    pub float: u8,
    pub string: u8,
    pub boolean: u8,
    pub pose: u8,
    pub optional_component: u8,
    pub vector3: u8,
    pub quaternion: u8,
    pub block_state: u8,
}

/// The serializer id of a value's kind; both optional kinds go as an
/// optional component.
pub open spec fn serializer_of(v: EntityDataValue, ids: SerializerIds) -> u8 {
    match v {
        EntityDataValue::Byte(_) => ids.byte,
        EntityDataValue::Int(_) => ids.int,
        EntityDataValue::Long(_) => ids.long,
        EntityDataValue::Float(_) => ids.float,
        EntityDataValue::String(_) => ids.string,
        EntityDataValue::Boolean(_) => ids.boolean,
        EntityDataValue::Pose(_) => ids.pose,
        EntityDataValue::OptionalString(_) => ids.optional_component,
        EntityDataValue::OptionalTextComponent(_) => ids.optional_component,
        EntityDataValue::Vector3(_) => ids.vector3,
        EntityDataValue::Quaternion(_) => ids.quaternion,
        EntityDataValue::BlockState(_) => ids.block_state,
    }
}

impl EntityDataValue {
    /// Gets the serializer id for this value type.
    pub fn serializer_id(&self, ids: &SerializerIds) -> (r: u8)
        ensures
            r == serializer_of(*self, *ids),
    {
        match self {
            EntityDataValue::Byte(_) => ids.byte,
            EntityDataValue::Int(_) => ids.int,
            EntityDataValue::Long(_) => ids.long,
            EntityDataValue::Float(_) => ids.float,
            EntityDataValue::String(_) => ids.string,
            EntityDataValue::Boolean(_) => ids.boolean,
            EntityDataValue::Pose(_) => ids.pose,
            EntityDataValue::OptionalString(_) => ids.optional_component,
            EntityDataValue::OptionalTextComponent(_) => ids.optional_component,
            EntityDataValue::Vector3(_) => ids.vector3,
            EntityDataValue::Quaternion(_) => ids.quaternion,
            EntityDataValue::BlockState(_) => ids.block_state,
        }
    }
}

/// One entry of an entity data packet.
#[derive(Debug, Clone, PartialEq, Eq)]
pub struct EntityDataEntry {
    /// The field.
    pub field_id: u8,
    /// The serializer of the value's kind.
    pub serializer_id: u8,
    /// The value in wire form.
    pub value_bytes: Vec<u8>,
}

/// Converts a vec of entity data values to packet entries, in order: each
/// field with its kind's serializer id and its value in wire form.
pub fn entity_data_to_packet_entries(data: Vec<(u8, EntityDataValue)>, ids: &SerializerIds) -> (r: Vec<EntityDataEntry>)
    ensures
        r@.len() == data@.len(),
        forall|i: int| 0 <= i < r@.len() ==> {
            &&& (#[trigger] r@[i]).field_id == data@[i].0
            &&& r@[i].serializer_id == serializer_of(data@[i].1, *ids)
            &&& r@[i].value_bytes@ == data_value_bytes(data@[i].1)
        },
{
    let mut out: Vec<EntityDataEntry> = Vec::new();
    let mut i: usize = 0;
    while i < data.len()
        invariant
            i <= data@.len(),
            out@.len() == i,
            forall|j: int| 0 <= j < i ==> {
                &&& (#[trigger] out@[j]).field_id == data@[j].0
                &&& out@[j].serializer_id == serializer_of(data@[j].1, *ids)
                &&& out@[j].value_bytes@ == data_value_bytes(data@[j].1)
            },
        decreases data@.len() - i,
    {
        let (field_id, value) = &data[i];
        let serializer_id = value.serializer_id(ids);
        let value_bytes = serialize_entity_data_value(value);
        out.push(EntityDataEntry { field_id: *field_id, serializer_id, value_bytes });
        i += 1;
    }
    out
}

} // verus!
