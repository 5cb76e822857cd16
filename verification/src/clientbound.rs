//! Clientbound play packets about entities and players, and their bytes.
//!
//! Each packet's `write` appends its body (without packet id or length) to a
//! buffer; `encoding` states those bytes. Floating-point fields are carried
//! as their IEEE-754 bits, which is how they go on the wire.

use vstd::prelude::*;
use vstd::utf8::encode_utf8;

use crate::codec::{
    be128, be16, be32, be64, bool_byte, prefixed_bytes, varint_bytes, write_bool, write_bytes,
    write_i16, write_i32, write_i8, write_u128, write_u32, write_u64, write_u8, write_varint,
    write_string,
};

verus! {

/// Animation types
#[derive(Debug, Clone, Copy, PartialEq, Eq, Structural)]
pub enum AnimationType {
    SwingMainArm,
    Hurt,
    LeaveBed,
    SwingOffhand,
    CriticalHit,
    MagicCriticalHit,
}

/// The id of an animation on the wire.
pub open spec fn animation_id(a: AnimationType) -> u8 {
    match a {
        AnimationType::SwingMainArm => 0,
        AnimationType::Hurt => 1,
        AnimationType::LeaveBed => 2,
        AnimationType::SwingOffhand => 3,
        AnimationType::CriticalHit => 4,
        AnimationType::MagicCriticalHit => 5,
    }
}

impl AnimationType {
    /// The id of this animation on the wire.
    pub fn id(self) -> (r: u8)
        ensures
            r == animation_id(self),
    {
        match self {
            AnimationType::SwingMainArm => 0,
            AnimationType::Hurt => 1,
            AnimationType::LeaveBed => 2,
            AnimationType::SwingOffhand => 3,
            AnimationType::CriticalHit => 4,
            AnimationType::MagicCriticalHit => 5,
        }
    }
}

/// Broadcasts an entity animation to nearby players
#[derive(Debug, Clone, Copy)]
pub struct CAnimate {
    /// The entity performing the animation
    pub entity_id: i32,
    /// The animation type
    pub animation: u8,
}

impl CAnimate {
    /// Creates a new animate packet
    pub fn new(entity_id: i32, animation: AnimationType) -> (r: Self)
        ensures
            r.entity_id == entity_id,
            r.animation == animation_id(animation),
    {
        CAnimate { entity_id, animation: animation.id() }
    }

    /// Creates a main hand swing animation
    pub fn swing_main_hand(entity_id: i32) -> (r: Self)
        ensures
            r.entity_id == entity_id,
            r.animation == animation_id(AnimationType::SwingMainArm),
    {
        Self::new(entity_id, AnimationType::SwingMainArm)
    }

    /// Creates an offhand swing animation
    pub fn swing_offhand(entity_id: i32) -> (r: Self)
        ensures
            r.entity_id == entity_id,
            r.animation == animation_id(AnimationType::SwingOffhand),
    {
        Self::new(entity_id, AnimationType::SwingOffhand)
    }

    /// The bytes of the packet body.
    pub open spec fn encoding(self) -> Seq<u8> {
        varint_bytes(self.entity_id).push(self.animation)
    }

    /// Appends the packet body.
    pub fn write(&self, buf: &mut Vec<u8>)
        ensures
            final(buf)@ == old(buf)@ + self.encoding(),
    {
        write_varint(buf, self.entity_id);
        write_u8(buf, self.animation);
    }
}

/// Moves an entity by a relative position delta
#[derive(Debug, Clone, Copy)]
pub struct CMoveEntityPos {
    /// The entity ID
    pub entity_id: i32,
    /// Delta X (in 1/4096 blocks)
    pub delta_x: i16,
    /// Delta Y (in 1/4096 blocks)
    pub delta_y: i16,
    /// Delta Z (in 1/4096 blocks)
    pub delta_z: i16,
    /// Whether the entity is on ground
    pub on_ground: bool,
}

impl CMoveEntityPos {
    /// The bytes of the packet body.
    pub open spec fn encoding(self) -> Seq<u8> {
        varint_bytes(self.entity_id) + be16(self.delta_x as u16) + be16(self.delta_y as u16) + be16(
            self.delta_z as u16,
        ).push(bool_byte(self.on_ground))
    }

    /// Appends the packet body.
    pub fn write(&self, buf: &mut Vec<u8>)
        ensures
            final(buf)@ == old(buf)@ + self.encoding(),
    {
        write_varint(buf, self.entity_id);
        write_i16(buf, self.delta_x);
        write_i16(buf, self.delta_y);
        write_i16(buf, self.delta_z);
        write_bool(buf, self.on_ground);
        assert(buf@ == old(buf)@ + self.encoding());
    }
}

/// Moves an entity by a relative position delta and updates rotation
#[derive(Debug, Clone, Copy)]
pub struct CMoveEntityPosRot {
    /// The entity ID
    pub entity_id: i32,
    /// Delta X (in 1/4096 blocks)
    pub delta_x: i16,
    /// Delta Y (in 1/4096 blocks)
    pub delta_y: i16,
    /// Delta Z (in 1/4096 blocks)
    pub delta_z: i16,
    /// Yaw (256 = 360 degrees)
    pub yaw: i8,
    /// Pitch (256 = 360 degrees)
    pub pitch: i8,
    /// Whether the entity is on ground
    pub on_ground: bool,
}

impl CMoveEntityPosRot {
    /// The bytes of the packet body.
    pub open spec fn encoding(self) -> Seq<u8> {
        (varint_bytes(self.entity_id) + be16(self.delta_x as u16) + be16(self.delta_y as u16) + be16(
            self.delta_z as u16,
        )).push(self.yaw as u8).push(self.pitch as u8).push(bool_byte(self.on_ground))
    }

    /// Appends the packet body.
    pub fn write(&self, buf: &mut Vec<u8>)
        ensures
            final(buf)@ == old(buf)@ + self.encoding(),
    {
        write_varint(buf, self.entity_id);
        write_i16(buf, self.delta_x);
        write_i16(buf, self.delta_y);
        write_i16(buf, self.delta_z);
        write_i8(buf, self.yaw);
        write_i8(buf, self.pitch);
        write_bool(buf, self.on_ground);
        assert(buf@ == old(buf)@ + self.encoding());
    }
}

/// Where each field of a relative move stands: after the entity id's VarInt
/// come the x, y and z deltas as two big-endian bytes each, in that order, and
/// last the on-ground byte.
pub proof fn law_move_pos_layout(p: CMoveEntityPos)
    ensures
        ({
            let e = p.encoding();
            let v = varint_bytes(p.entity_id).len() as int;
            &&& e.len() == v + 7
            &&& e.subrange(0, v) == varint_bytes(p.entity_id)
            &&& e.subrange(v, v + 2) == be16(p.delta_x as u16)
            &&& e.subrange(v + 2, v + 4) == be16(p.delta_y as u16)
            &&& e.subrange(v + 4, v + 6) == be16(p.delta_z as u16)
            &&& e[v + 6] == bool_byte(p.on_ground)
        }),
{
    let e = p.encoding();
    let v = varint_bytes(p.entity_id).len() as int;
    assert(e.subrange(0, v) =~= varint_bytes(p.entity_id));
    assert(e.subrange(v, v + 2) =~= be16(p.delta_x as u16));
    assert(e.subrange(v + 2, v + 4) =~= be16(p.delta_y as u16));
    assert(e.subrange(v + 4, v + 6) =~= be16(p.delta_z as u16));
}

/// Where each field of a relative move with rotation stands: after the entity
/// id's VarInt come the x, y and z deltas as two big-endian bytes each, in that
/// order, then the yaw byte, the pitch byte and the on-ground byte.
pub proof fn law_move_pos_rot_layout(p: CMoveEntityPosRot)
    ensures
        ({
            let e = p.encoding();
            let v = varint_bytes(p.entity_id).len() as int;
            &&& e.len() == v + 9
            &&& e.subrange(0, v) == varint_bytes(p.entity_id)
            &&& e.subrange(v, v + 2) == be16(p.delta_x as u16)
            &&& e.subrange(v + 2, v + 4) == be16(p.delta_y as u16)
            &&& e.subrange(v + 4, v + 6) == be16(p.delta_z as u16)
            &&& e[v + 6] == p.yaw as u8
            &&& e[v + 7] == p.pitch as u8
            &&& e[v + 8] == bool_byte(p.on_ground)
        }),
{
    let e = p.encoding();
    let v = varint_bytes(p.entity_id).len() as int;
    assert(e.subrange(0, v) =~= varint_bytes(p.entity_id));
    assert(e.subrange(v, v + 2) =~= be16(p.delta_x as u16));
    assert(e.subrange(v + 2, v + 4) =~= be16(p.delta_y as u16));
    assert(e.subrange(v + 4, v + 6) =~= be16(p.delta_z as u16));
}

/// Updates only an entity's rotation
#[derive(Debug, Clone, Copy)]
pub struct CMoveEntityRot {
    /// The entity ID
    pub entity_id: i32,
    /// Yaw (256 = 360 degrees)
    pub yaw: i8,
    /// Pitch (256 = 360 degrees)
    pub pitch: i8,
    /// Whether the entity is on ground
    pub on_ground: bool,
}

impl CMoveEntityRot {
    /// The bytes of the packet body.
    pub open spec fn encoding(self) -> Seq<u8> {
        varint_bytes(self.entity_id).push(self.yaw as u8).push(self.pitch as u8).push(
            bool_byte(self.on_ground),
        )
    }

    /// Appends the packet body.
    pub fn write(&self, buf: &mut Vec<u8>)
        ensures
            final(buf)@ == old(buf)@ + self.encoding(),
    {
        write_varint(buf, self.entity_id);
        write_i8(buf, self.yaw);
        write_i8(buf, self.pitch);
        write_bool(buf, self.on_ground);
    }
}

/// Where each field of a rotation packet stands: after the entity id's VarInt
/// come the yaw byte, the pitch byte and the on-ground byte.
pub proof fn law_move_rot_layout(p: CMoveEntityRot)
    ensures
        ({
            let e = p.encoding();
            let v = varint_bytes(p.entity_id).len() as int;
            &&& e.len() == v + 3
            &&& e.subrange(0, v) == varint_bytes(p.entity_id)
            &&& e[v] == p.yaw as u8
            &&& e[v + 1] == p.pitch as u8
            &&& e[v + 2] == bool_byte(p.on_ground)
        }),
{
    let e = p.encoding();
    let v = varint_bytes(p.entity_id).len() as int;
    assert(e.subrange(0, v) =~= varint_bytes(p.entity_id));
}

/// Sets the head rotation of an entity
#[derive(Debug, Clone, Copy)]
pub struct CRotateHead {
    /// The entity ID
    pub entity_id: i32,
    /// Head yaw (256 = 360 degrees)
    pub head_yaw: i8,
}

impl CRotateHead {
    /// The bytes of the packet body.
    pub open spec fn encoding(self) -> Seq<u8> {
        varint_bytes(self.entity_id).push(self.head_yaw as u8)
    }

    /// Appends the packet body.
    pub fn write(&self, buf: &mut Vec<u8>)
        ensures
            final(buf)@ == old(buf)@ + self.encoding(),
    {
        write_varint(buf, self.entity_id);
        write_i8(buf, self.head_yaw);
    }
}

/// The bytes of a sequence of VarInts.
pub open spec fn varints_bytes(ids: Seq<i32>) -> Seq<u8>
    decreases ids.len(),
{
    if ids.len() == 0 {
        Seq::empty()
    } else {
        varints_bytes(ids.drop_last()) + varint_bytes(ids.last())
    }
}

/// The bytes of a sequence of UUIDs.
pub open spec fn uuids_bytes(ids: Seq<u128>) -> Seq<u8>
    decreases ids.len(),
{
    if ids.len() == 0 {
        Seq::empty()
    } else {
        uuids_bytes(ids.drop_last()) + be128(ids.last())
    }
}

/// Removes/despawns entities on the client
#[derive(Debug, Clone)]
pub struct CRemoveEntities {
    /// List of entity IDs to remove
    pub entity_ids: Vec<i32>,
}

impl CRemoveEntities {
    /// The bytes of the packet body: the count (as a 32-bit VarInt) and the ids.
    pub open spec fn encoding(self) -> Seq<u8> {
        varint_bytes(self.entity_ids@.len() as i32) + varints_bytes(self.entity_ids@)
    }

    /// Appends the packet body.
    pub fn write(&self, buf: &mut Vec<u8>)
        ensures
            final(buf)@ == old(buf)@ + self.encoding(),
    {
        write_varint(buf, self.entity_ids.len() as i32);
        let ghost start = buf@;
        let mut i: usize = 0;
        while i < self.entity_ids.len()
            invariant
                i <= self.entity_ids@.len(),
                buf@ == start + varints_bytes(self.entity_ids@.take(i as int)),
            decreases self.entity_ids@.len() - i,
        {
            write_varint(buf, self.entity_ids[i]);
            assert(self.entity_ids@.take(i + 1).drop_last() == self.entity_ids@.take(i as int));
            i += 1;
        }
        assert(self.entity_ids@.take(self.entity_ids@.len() as int) == self.entity_ids@);
    }
}

/// Removes players from the tab list
#[derive(Debug, Clone)]
pub struct CRemovePlayerInfo {
    /// The UUIDs of the players (as 128-bit values)
    pub uuids: Vec<u128>,
}

impl CRemovePlayerInfo {
    /// The bytes of the packet body: the count (as a 32-bit VarInt) and the UUIDs.
    pub open spec fn encoding(self) -> Seq<u8> {
        varint_bytes(self.uuids@.len() as i32) + uuids_bytes(self.uuids@)
    }

    /// Appends the packet body.
    pub fn write(&self, buf: &mut Vec<u8>)
        ensures
            final(buf)@ == old(buf)@ + self.encoding(),
    {
        write_varint(buf, self.uuids.len() as i32);
        let ghost start = buf@;
        let mut i: usize = 0;
        while i < self.uuids.len()
            invariant
                i <= self.uuids@.len(),
                buf@ == start + uuids_bytes(self.uuids@.take(i as int)),
            decreases self.uuids@.len() - i,
        {
            write_u128(buf, self.uuids[i]);
            assert(self.uuids@.take(i + 1).drop_last() == self.uuids@.take(i as int));
            i += 1;
        }
        assert(self.uuids@.take(self.uuids@.len() as int) == self.uuids@);
    }
}

/// Spawns an entity on the client
#[derive(Debug, Clone, Copy)]
pub struct CAddEntity {
    /// The entity ID
    pub entity_id: i32,
    /// The entity UUID (as a 128-bit value)
    pub uuid: u128,
    /// The entity type id
    pub entity_type: i32,
    /// X position (IEEE-754 bits)
    pub x: u64,
    /// Y position (IEEE-754 bits)
    pub y: u64,
    /// Z position (IEEE-754 bits)
    pub z: u64,
    /// Pitch (256 = 360 degrees)
    pub pitch: i8,
    /// Yaw (256 = 360 degrees)
    pub yaw: i8,
    /// Head yaw (256 = 360 degrees)
    pub head_yaw: i8,
    /// Entity-specific data
    pub data: i32,
}

impl CAddEntity {
    /// The bytes of the packet body; the velocity is written as a single zero byte.
    pub open spec fn encoding(self) -> Seq<u8> {
        ((varint_bytes(self.entity_id) + be128(self.uuid) + varint_bytes(self.entity_type) + be64(
            self.x,
        ) + be64(self.y) + be64(self.z)).push(0u8).push(self.pitch as u8).push(self.yaw as u8).push(
            self.head_yaw as u8,
        )) + varint_bytes(self.data)
    }

    /// Appends the packet body.
    pub fn write(&self, buf: &mut Vec<u8>)
        ensures
            final(buf)@ == old(buf)@ + self.encoding(),
    {
        write_varint(buf, self.entity_id);
        write_u128(buf, self.uuid);
        write_varint(buf, self.entity_type);
        write_u64(buf, self.x);
        write_u64(buf, self.y);
        write_u64(buf, self.z);
        write_u8(buf, 0u8);
        write_i8(buf, self.pitch);
        write_i8(buf, self.yaw);
        write_i8(buf, self.head_yaw);
        write_varint(buf, self.data);
        assert(buf@ == old(buf)@ + self.encoding());
    }
}

/// Where each field of the spawn packet stands: after the entity id's VarInt,
/// the sixteen UUID bytes and the type's VarInt come x, y and z as eight
/// big-endian bytes each, in that order, then a zero velocity byte, pitch,
/// yaw and head yaw, and last the data's VarInt.
pub proof fn law_add_entity_layout(p: CAddEntity)
    ensures
        ({
            let e = p.encoding();
            let v = varint_bytes(p.entity_id).len() as int;
            let q = v + 16 + varint_bytes(p.entity_type).len();
            &&& e.len() == q + 28 + varint_bytes(p.data).len()
            &&& e.subrange(0, v) == varint_bytes(p.entity_id)
            &&& e.subrange(v, v + 16) == be128(p.uuid)
            &&& e.subrange(v + 16, q) == varint_bytes(p.entity_type)
            &&& e.subrange(q, q + 8) == be64(p.x)
            &&& e.subrange(q + 8, q + 16) == be64(p.y)
            &&& e.subrange(q + 16, q + 24) == be64(p.z)
            &&& e[q + 24] == 0u8
            &&& e[q + 25] == p.pitch as u8
            &&& e[q + 26] == p.yaw as u8
            &&& e[q + 27] == p.head_yaw as u8
            &&& e.subrange(q + 28, e.len() as int) == varint_bytes(p.data)
        }),
{
    let e = p.encoding();
    let a = varint_bytes(p.entity_id);
    let c = varint_bytes(p.entity_type);
    let v = a.len() as int;
    let q = v + 16 + c.len();
    let head = a + be128(p.uuid) + c + be64(p.x) + be64(p.y) + be64(p.z);
    let mid = head.push(0u8).push(p.pitch as u8).push(p.yaw as u8).push(p.head_yaw as u8);
    assert(head.len() == q + 24);
    assert(e == mid + varint_bytes(p.data));
    assert(e.subrange(0, v) =~= a);
    assert(e.subrange(v, v + 16) =~= be128(p.uuid));
    assert(e.subrange(v + 16, q) =~= c);
    assert(e.subrange(q, q + 8) =~= be64(p.x));
    assert(e.subrange(q + 8, q + 16) =~= be64(p.y));
    assert(e.subrange(q + 16, q + 24) =~= be64(p.z));
    assert(e.subrange(q + 28, e.len() as int) =~= varint_bytes(p.data));
}

/// Teleports an entity to an absolute position
#[derive(Debug, Clone, Copy)]
pub struct CTeleportEntity {
    /// The entity ID
    pub entity_id: i32,
    /// X position (IEEE-754 bits)
    pub x: u64,
    /// Y position (IEEE-754 bits)
    pub y: u64,
    /// Z position (IEEE-754 bits)
    pub z: u64,
    /// X velocity (IEEE-754 bits)
    pub delta_x: u64,
    /// Y velocity (IEEE-754 bits)
    pub delta_y: u64,
    /// Z velocity (IEEE-754 bits)
    pub delta_z: u64,
    /// Yaw in degrees (IEEE-754 bits)
    pub yaw: u32,
    /// Pitch in degrees (IEEE-754 bits)
    pub pitch: u32,
    /// Relative movement flags
    pub relatives: i32,
    /// Whether the entity is on ground
    pub on_ground: bool,
}

impl CTeleportEntity {
    /// The bytes of the packet body.
    pub open spec fn encoding(self) -> Seq<u8> {
        (varint_bytes(self.entity_id) + be64(self.x) + be64(self.y) + be64(self.z) + be64(
            self.delta_x,
        ) + be64(self.delta_y) + be64(self.delta_z) + be32(self.yaw) + be32(self.pitch) + be32(
            self.relatives as u32,
        )).push(bool_byte(self.on_ground))
    }

    /// Appends the packet body.
    pub fn write(&self, buf: &mut Vec<u8>)
        ensures
            final(buf)@ == old(buf)@ + self.encoding(),
    {
        write_varint(buf, self.entity_id);
        write_u64(buf, self.x);
        write_u64(buf, self.y);
        write_u64(buf, self.z);
        write_u64(buf, self.delta_x);
        write_u64(buf, self.delta_y);
        write_u64(buf, self.delta_z);
        write_u32(buf, self.yaw);
        write_u32(buf, self.pitch);
        write_i32(buf, self.relatives);
        write_bool(buf, self.on_ground);
        assert(buf@ == old(buf)@ + self.encoding());
    }
}

/// Where each field of a teleport stands: after the entity id's VarInt come
/// x, y and z, then the x, y and z velocity, as eight big-endian bytes each,
/// in that order; then yaw, pitch and the relative flags as four big-endian
/// bytes each, and last the on-ground byte.
pub proof fn law_teleport_layout(p: CTeleportEntity)
    ensures
        ({
            let e = p.encoding();
            let v = varint_bytes(p.entity_id).len() as int;
            &&& e.len() == v + 61
            &&& e.subrange(0, v) == varint_bytes(p.entity_id)
            &&& e.subrange(v, v + 8) == be64(p.x)
            &&& e.subrange(v + 8, v + 16) == be64(p.y)
            &&& e.subrange(v + 16, v + 24) == be64(p.z)
            &&& e.subrange(v + 24, v + 32) == be64(p.delta_x)
            &&& e.subrange(v + 32, v + 40) == be64(p.delta_y)
            &&& e.subrange(v + 40, v + 48) == be64(p.delta_z)
            &&& e.subrange(v + 48, v + 52) == be32(p.yaw)
            &&& e.subrange(v + 52, v + 56) == be32(p.pitch)
            &&& e.subrange(v + 56, v + 60) == be32(p.relatives as u32)
            &&& e[v + 60] == bool_byte(p.on_ground)
        }),
{
    let e = p.encoding();
    let v = varint_bytes(p.entity_id).len() as int;
    assert(e.subrange(0, v) =~= varint_bytes(p.entity_id));
    assert(e.subrange(v, v + 8) =~= be64(p.x));
    assert(e.subrange(v + 8, v + 16) =~= be64(p.y));
    assert(e.subrange(v + 16, v + 24) =~= be64(p.z));
    assert(e.subrange(v + 24, v + 32) =~= be64(p.delta_x));
    assert(e.subrange(v + 32, v + 40) =~= be64(p.delta_y));
    assert(e.subrange(v + 40, v + 48) =~= be64(p.delta_z));
    assert(e.subrange(v + 48, v + 52) =~= be32(p.yaw));
    assert(e.subrange(v + 52, v + 56) =~= be32(p.pitch));
    assert(e.subrange(v + 56, v + 60) =~= be32(p.relatives as u32));
}

/// Synchronizes the player's own position
#[derive(Debug, Clone, Copy)]
pub struct CPlayerPosition {
    /// X position (IEEE-754 bits)
    pub x: u64,
    /// Y position (IEEE-754 bits)
    pub y: u64,
    /// Z position (IEEE-754 bits)
    pub z: u64,
    /// X velocity (IEEE-754 bits)
    pub delta_x: u64,
    /// Y velocity (IEEE-754 bits)
    pub delta_y: u64,
    /// Z velocity (IEEE-754 bits)
    pub delta_z: u64,
    /// Yaw in degrees (IEEE-754 bits)
    pub yaw: u32,
    /// Pitch in degrees (IEEE-754 bits)
    pub pitch: u32,
    /// Relative movement flags
    pub relatives: i32,
    /// The id the client confirms the teleport with
    pub teleport_id: i32,
}

impl CPlayerPosition {
    /// The bytes of the packet body.
    pub open spec fn encoding(self) -> Seq<u8> {
        varint_bytes(self.teleport_id) + be64(self.x) + be64(self.y) + be64(self.z) + be64(
            self.delta_x,
        ) + be64(self.delta_y) + be64(self.delta_z) + be32(self.yaw) + be32(self.pitch) + be32(
            self.relatives as u32,
        )
    }

    /// Appends the packet body.
    pub fn write(&self, buf: &mut Vec<u8>)
        ensures
            final(buf)@ == old(buf)@ + self.encoding(),
    {
        write_varint(buf, self.teleport_id);
        write_u64(buf, self.x);
        write_u64(buf, self.y);
        write_u64(buf, self.z);
        write_u64(buf, self.delta_x);
        write_u64(buf, self.delta_y);
        write_u64(buf, self.delta_z);
        write_u32(buf, self.yaw);
        write_u32(buf, self.pitch);
        write_i32(buf, self.relatives);
        assert(buf@ == old(buf)@ + self.encoding());
    }
}

/// Where each field of the player's position packet stands: after the
/// teleport id's VarInt come x, y and z, then the x, y and z velocity, as
/// eight big-endian bytes each, in that order; and last yaw, pitch and the
/// relative flags as four big-endian bytes each.
pub proof fn law_player_position_layout(p: CPlayerPosition)
    ensures
        ({
            let e = p.encoding();
            let v = varint_bytes(p.teleport_id).len() as int;
            &&& e.len() == v + 60
            &&& e.subrange(0, v) == varint_bytes(p.teleport_id)
            &&& e.subrange(v, v + 8) == be64(p.x)
            &&& e.subrange(v + 8, v + 16) == be64(p.y)
            &&& e.subrange(v + 16, v + 24) == be64(p.z)
            &&& e.subrange(v + 24, v + 32) == be64(p.delta_x)
            &&& e.subrange(v + 32, v + 40) == be64(p.delta_y)
            &&& e.subrange(v + 40, v + 48) == be64(p.delta_z)
            &&& e.subrange(v + 48, v + 52) == be32(p.yaw)
            &&& e.subrange(v + 52, v + 56) == be32(p.pitch)
            &&& e.subrange(v + 56, v + 60) == be32(p.relatives as u32)
        }),
{
    let e = p.encoding();
    let v = varint_bytes(p.teleport_id).len() as int;
    assert(e.subrange(0, v) =~= varint_bytes(p.teleport_id));
    assert(e.subrange(v, v + 8) =~= be64(p.x));
    assert(e.subrange(v + 8, v + 16) =~= be64(p.y));
    assert(e.subrange(v + 16, v + 24) =~= be64(p.z));
    assert(e.subrange(v + 24, v + 32) =~= be64(p.delta_x));
    assert(e.subrange(v + 32, v + 40) =~= be64(p.delta_y));
    assert(e.subrange(v + 40, v + 48) =~= be64(p.delta_z));
    assert(e.subrange(v + 48, v + 52) =~= be32(p.yaw));
    assert(e.subrange(v + 52, v + 56) =~= be32(p.pitch));
    assert(e.subrange(v + 56, v + 60) =~= be32(p.relatives as u32));
}

/// The parts of a player-info update packet; the packet's `actions` byte is
/// a set of these bits.
#[derive(Debug, Clone, Copy, PartialEq, Eq, Structural)]
pub enum PlayerInfoAction {
    AddPlayer,
    InitializeChat,
    UpdateGameMode,
    UpdateListed,
    UpdateLatency,
}

/// The bit of an action in the `actions` byte.
pub open spec fn action_bit(a: PlayerInfoAction) -> u8 {
    match a {
        PlayerInfoAction::AddPlayer => 0x01,
        PlayerInfoAction::InitializeChat => 0x02,
        PlayerInfoAction::UpdateGameMode => 0x04,
        PlayerInfoAction::UpdateListed => 0x08,
        PlayerInfoAction::UpdateLatency => 0x10,
    }
}

impl PlayerInfoAction {
    /// The bit of this action in the `actions` byte.
    pub fn bit(self) -> (r: u8)
        ensures
            r == action_bit(self),
    {
        match self {
            PlayerInfoAction::AddPlayer => 0x01,
            PlayerInfoAction::InitializeChat => 0x02,
            PlayerInfoAction::UpdateGameMode => 0x04,
            PlayerInfoAction::UpdateListed => 0x08,
            PlayerInfoAction::UpdateLatency => 0x10,
        }
    }
}

/// A property of a game profile, such as the skin texture.
#[derive(Debug)]
pub struct GameProfileProperty {
    pub name: String,
    pub value: String,
    pub signature: Option<String>,
}

impl Clone for GameProfileProperty {
    fn clone(&self) -> (r: Self)
        ensures
            r == *self,
    {
        let signature = match &self.signature {
            Some(sig) => Some(sig.clone()),
            None => None,
        };
        GameProfileProperty { name: self.name.clone(), value: self.value.clone(), signature }
    }
}

/// One player's part of a player-info update.
#[derive(Debug, Clone)]
pub struct PlayerInfoEntry {
    /// The player's UUID (as a 128-bit value)
    pub uuid: u128,
    pub name: Option<String>,
    pub properties: Option<Vec<GameProfileProperty>>,
    /// The player's chat session, already in its wire form
    pub chat_session: Option<Vec<u8>>,
    pub game_mode: Option<i32>,
    pub listed: Option<bool>,
    pub latency: Option<i32>,
}

/// Adds players to or updates players in the tab list
#[derive(Debug, Clone)]
pub struct CPlayerInfoUpdate {
    /// Bitmask of [`PlayerInfoAction`]s
    pub actions: u8,
    pub entries: Vec<PlayerInfoEntry>,
}

/// The bytes of a string: the count of its UTF-8 bytes, then the bytes.
pub open spec fn string_bytes(s: String) -> Seq<u8> {
    prefixed_bytes(encode_utf8(s@))
}

/// The bytes of a game-profile property.
pub open spec fn property_bytes(p: GameProfileProperty) -> Seq<u8> {
    string_bytes(p.name) + string_bytes(p.value) + match p.signature {
        Some(sig) => seq![1u8] + string_bytes(sig),
        None => seq![0u8],
    }
}

/// The bytes of a sequence of game-profile properties.
pub open spec fn properties_bytes(ps: Seq<GameProfileProperty>) -> Seq<u8>
    decreases ps.len(),
{
    if ps.len() == 0 {
        Seq::empty()
    } else {
        properties_bytes(ps.drop_last()) + property_bytes(ps.last())
    }
}

/// Whether the `actions` byte holds an action's bit.
pub open spec fn has_action(actions: u8, a: PlayerInfoAction) -> bool {
    actions & action_bit(a) != 0
}

/// The add-player part of an entry: the name if there is one, then the
/// properties (a zero count if there are none).
pub open spec fn add_part(actions: u8, e: PlayerInfoEntry) -> Seq<u8> {
    if has_action(actions, PlayerInfoAction::AddPlayer) {
        (match e.name {
            Some(n) => string_bytes(n),
            None => Seq::empty(),
        }) + match e.properties {
            Some(ps) => varint_bytes(ps@.len() as i32) + properties_bytes(ps@),
            None => varint_bytes(0),
        }
    } else {
        Seq::empty()
    }
}

/// The chat part of an entry: a presence byte, then the session.
pub open spec fn chat_part(actions: u8, e: PlayerInfoEntry) -> Seq<u8> {
    if has_action(actions, PlayerInfoAction::InitializeChat) {
        match e.chat_session {
            Some(d) => seq![1u8] + d@,
            None => seq![0u8],
        }
    } else {
        Seq::empty()
    }
}

/// The game-mode, listed and latency parts of an entry: each value if there is one.
pub open spec fn status_part(actions: u8, e: PlayerInfoEntry) -> Seq<u8> {
    (if has_action(actions, PlayerInfoAction::UpdateGameMode) && e.game_mode is Some {
        varint_bytes(e.game_mode->0)
    } else {
        Seq::empty()
    }) + (if has_action(actions, PlayerInfoAction::UpdateListed) && e.listed is Some {
        seq![bool_byte(e.listed->0)]
    } else {
        Seq::empty()
    }) + (if has_action(actions, PlayerInfoAction::UpdateLatency) && e.latency is Some {
        varint_bytes(e.latency->0)
    } else {
        Seq::empty()
    })
}

/// The bytes of an entry under the `actions` byte: the UUID, then for each
/// action in the byte, in bit order, that action's part.
pub open spec fn entry_bytes(actions: u8, e: PlayerInfoEntry) -> Seq<u8> {
    be128(e.uuid) + add_part(actions, e) + chat_part(actions, e) + status_part(actions, e)
}

/// The bytes of a sequence of entries under the `actions` byte.
pub open spec fn entries_bytes(actions: u8, es: Seq<PlayerInfoEntry>) -> Seq<u8>
    decreases es.len(),
{
    if es.len() == 0 {
        Seq::empty()
    } else {
        entries_bytes(actions, es.drop_last()) + entry_bytes(actions, es.last())
    }
}

/// Appends a string: the count of its UTF-8 bytes, then the bytes.
fn write_owned_string(buf: &mut Vec<u8>, s: &String)
    ensures
        final(buf)@ == old(buf)@ + string_bytes(*s),
{
    write_string(buf, s.as_str());
}

/// Appends a game-profile property.
fn write_property(buf: &mut Vec<u8>, p: &GameProfileProperty)
    ensures
        final(buf)@ == old(buf)@ + property_bytes(*p),
{
    write_owned_string(buf, &p.name);
    write_owned_string(buf, &p.value);
    match &p.signature {
        Some(sig) => {
            write_bool(buf, true);
            write_owned_string(buf, sig);
        },
        None => {
            write_bool(buf, false);
        },
    }
    assert(buf@ == old(buf)@ + property_bytes(*p));
}

/// Appends the add-player part of an entry.
fn write_add_part(buf: &mut Vec<u8>, actions: u8, e: &PlayerInfoEntry)
    ensures
        final(buf)@ == old(buf)@ + add_part(actions, *e),
{
    if actions & PlayerInfoAction::AddPlayer.bit() != 0 {
        if let Some(name) = &e.name {
            write_owned_string(buf, name);
        }
        let ghost after_name = buf@;
        if let Some(properties) = &e.properties {
            write_varint(buf, properties.len() as i32);
            let ghost start = buf@;
            let mut i: usize = 0;
            while i < properties.len()
                invariant
                    i <= properties@.len(),
                    buf@ == start + properties_bytes(properties@.take(i as int)),
                decreases properties@.len() - i,
            {
                write_property(buf, &properties[i]);
                assert(properties@.take(i + 1).drop_last() == properties@.take(i as int));
                i += 1;
            }
            assert(properties@.take(properties@.len() as int) == properties@);
        } else {
            write_varint(buf, 0);
        }
    }
}

/// Appends the chat part of an entry.
fn write_chat_part(buf: &mut Vec<u8>, actions: u8, e: &PlayerInfoEntry)
    ensures
        final(buf)@ == old(buf)@ + chat_part(actions, *e),
{
    if actions & PlayerInfoAction::InitializeChat.bit() != 0 {
        if let Some(session) = &e.chat_session {
            write_bool(buf, true);
            write_bytes(buf, session.as_slice());
        } else {
            write_bool(buf, false);
        }
    }
}

/// Appends the game-mode, listed and latency parts of an entry.
fn write_status_part(buf: &mut Vec<u8>, actions: u8, e: &PlayerInfoEntry)
    ensures
        final(buf)@ == old(buf)@ + status_part(actions, *e),
{
    if actions & PlayerInfoAction::UpdateGameMode.bit() != 0 {
        if let Some(game_mode) = e.game_mode {
            write_varint(buf, game_mode);
        }
    }
    let ghost after_mode = buf@;
    if actions & PlayerInfoAction::UpdateListed.bit() != 0 {
        if let Some(listed) = e.listed {
            write_bool(buf, listed);
        }
    }
    let ghost after_listed = buf@;
    if actions & PlayerInfoAction::UpdateLatency.bit() != 0 {
        if let Some(latency) = e.latency {
            write_varint(buf, latency);
        }
    }
    assert(buf@ == old(buf)@ + status_part(actions, *e));
}

/// Appends one entry under the `actions` byte.
fn write_entry(buf: &mut Vec<u8>, actions: u8, e: &PlayerInfoEntry)
    ensures
        final(buf)@ == old(buf)@ + entry_bytes(actions, *e),
{
    write_u128(buf, e.uuid);
    write_add_part(buf, actions, e);
    write_chat_part(buf, actions, e);
    write_status_part(buf, actions, e);
    assert(buf@ == old(buf)@ + entry_bytes(actions, *e));
}

impl CPlayerInfoUpdate {
    /// Adds a player to the tab list, in creative mode, listed, with no latency.
    pub fn add_player(uuid: u128, name: String, properties: Vec<GameProfileProperty>) -> (r: Self)
        ensures
            r.actions == 0x1f,
            r.entries@.len() == 1,
            r.entries@[0].uuid == uuid,
            r.entries@[0].name == Some(name),
            r.entries@[0].properties == Some(properties),
            r.entries@[0].chat_session is None,
            r.entries@[0].game_mode == Some(1i32),
            r.entries@[0].listed == Some(true),
            r.entries@[0].latency == Some(0i32),
    {
        let actions = PlayerInfoAction::AddPlayer.bit() | PlayerInfoAction::InitializeChat.bit()
            | PlayerInfoAction::UpdateGameMode.bit() | PlayerInfoAction::UpdateListed.bit()
            | PlayerInfoAction::UpdateLatency.bit();
        assert(0x01u8 | 0x02u8 | 0x04u8 | 0x08u8 | 0x10u8 == 0x1fu8) by (bit_vector);
        let mut entries: Vec<PlayerInfoEntry> = Vec::new();
        entries.push(
            PlayerInfoEntry {
                uuid,
                name: Some(name),
                properties: Some(properties),
                chat_session: None,
                game_mode: Some(1),
                listed: Some(true),
                latency: Some(0),
            },
        );
        CPlayerInfoUpdate { actions, entries }
    }

    /// Sends a player's chat session (already in its wire form).
    pub fn update_chat_session(uuid: u128, chat_session: Vec<u8>) -> (r: Self)
        ensures
            r.actions == action_bit(PlayerInfoAction::InitializeChat),
            r.entries@.len() == 1,
            r.entries@[0].uuid == uuid,
            r.entries@[0].name is None,
            r.entries@[0].properties is None,
            r.entries@[0].chat_session == Some(chat_session),
            r.entries@[0].game_mode is None,
            r.entries@[0].listed is None,
            r.entries@[0].latency is None,
    {
        let mut entries: Vec<PlayerInfoEntry> = Vec::new();
        entries.push(
            PlayerInfoEntry {
                uuid,
                name: None,
                properties: None,
                chat_session: Some(chat_session),
                game_mode: None,
                listed: None,
                latency: None,
            },
        );
        CPlayerInfoUpdate { actions: PlayerInfoAction::InitializeChat.bit(), entries }
    }

    /// The bytes of the packet body: the actions byte, the count of entries
    /// (as a 32-bit VarInt) and each entry.
    pub open spec fn encoding(self) -> Seq<u8> {
        seq![self.actions] + varint_bytes(self.entries@.len() as i32) + entries_bytes(
            self.actions,
            self.entries@,
        )
    }

    /// Appends the packet body.
    pub fn write(&self, buf: &mut Vec<u8>)
        ensures
            final(buf)@ == old(buf)@ + self.encoding(),
    {
        write_u8(buf, self.actions);
        write_varint(buf, self.entries.len() as i32);
        let ghost start = buf@;
        let mut i: usize = 0;
        while i < self.entries.len()
            invariant
                i <= self.entries@.len(),
                buf@ == start + entries_bytes(self.actions, self.entries@.take(i as int)),
            decreases self.entries@.len() - i,
        {
            write_entry(buf, self.actions, &self.entries[i]);
            assert(self.entries@.take(i + 1).drop_last() == self.entries@.take(i as int));
            i += 1;
        }
        assert(self.entries@.take(self.entries@.len() as int) == self.entries@);
        assert(buf@ == old(buf)@ + self.encoding());
    }
}

} // verus!
