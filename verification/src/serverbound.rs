//! Serverbound play packets about the player's own actions, read from bytes.
//!
//! Each packet's `read` takes a buffer and the position of the packet body and
//! gives the packet and the position after it, or why the bytes are not one.

use vstd::prelude::*;

use crate::codec::{
    read_bool, read_u32, read_u8, read_varint, u32_at, varint_at, varint_bytes, write_varint,
    lemma_varint_roundtrip, ReadError,
};

verus! {

/// The hand the player is swinging
#[derive(Debug, Clone, Copy, PartialEq, Eq, Structural)]
pub enum InteractionHand {
    MainHand,
    OffHand,
}

/// The id of a hand on the wire.
pub open spec fn hand_id(h: InteractionHand) -> i32 {
    match h {
        InteractionHand::MainHand => 0,
        InteractionHand::OffHand => 1,
    }
}

/// The hand an id names, if any.
pub open spec fn hand_of(v: i32) -> Option<InteractionHand> {
    if v == 0 {
        Some(InteractionHand::MainHand)
    } else if v == 1 {
        Some(InteractionHand::OffHand)
    } else {
        None
    }
}

/// The hand at `pos`: a VarInt id.
pub open spec fn hand_at(buf: Seq<u8>, pos: int) -> Result<(InteractionHand, int), ReadError> {
    match varint_at(buf, pos) {
        Ok((v, e)) => match hand_of(v) {
            Some(h) => Ok((h, e)),
            None => Err(ReadError::InvalidValue(v)),
        },
        Err(er) => Err(er),
    }
}

impl InteractionHand {
    /// Reads a hand at `pos`.
    pub fn read(buf: &[u8], pos: usize) -> (r: Result<(InteractionHand, usize), ReadError>)
        ensures
            match hand_at(buf@, pos as int) {
                Ok((h, e)) => r == Ok::<(InteractionHand, usize), ReadError>((h, e as usize)) && pos
                    < e <= buf@.len(),
                Err(er) => r == Err::<(InteractionHand, usize), ReadError>(er),
            },
    {
        let _len = buf.len();
        let (v, e) = match read_varint(buf, pos) {
            Ok(x) => x,
            Err(er) => {
                return Err(er);
            },
        };
        if v == 0 {
            Ok((InteractionHand::MainHand, e))
        } else if v == 1 {
            Ok((InteractionHand::OffHand, e))
        } else {
            Err(ReadError::InvalidValue(v))
        }
    }

    /// Appends the hand's id as a VarInt.
    pub fn write(&self, buf: &mut Vec<u8>)
        ensures
            final(buf)@ == old(buf)@ + varint_bytes(hand_id(*self)),
    {
        let id: i32 = match self {
            InteractionHand::MainHand => 0,
            InteractionHand::OffHand => 1,
        };
        write_varint(buf, id);
    }
}

/// A hand written into a buffer is read back as the same hand, and the reading
/// ends right after its bytes.
pub proof fn lemma_hand_roundtrip(h: InteractionHand, prefix: Seq<u8>, rest: Seq<u8>)
    ensures
        hand_at(prefix + varint_bytes(hand_id(h)) + rest, prefix.len() as int) == Ok::<
            (InteractionHand, int),
            ReadError,
        >((h, prefix.len() + varint_bytes(hand_id(h)).len() as int)),
{
    lemma_varint_roundtrip(hand_id(h), prefix, rest);
}

/// Sent when the player swings their arm
#[derive(Debug, Clone, Copy)]
pub struct SSwing {
    /// The hand being swung
    pub hand: InteractionHand,
}

impl SSwing {
    /// Reads the packet body at `pos`.
    pub fn read(buf: &[u8], pos: usize) -> (r: Result<(SSwing, usize), ReadError>)
        ensures
            match hand_at(buf@, pos as int) {
                Ok((h, e)) => r matches Ok((p, q)) && p.hand == h && q == e,
                Err(er) => r == Err::<(SSwing, usize), ReadError>(er),
            },
    {
        let _len = buf.len();
        let (hand, e) = match InteractionHand::read(buf, pos) {
            Ok(x) => x,
            Err(er) => {
                return Err(er);
            },
        };
        Ok((SSwing { hand }, e))
    }
}

/// Type of interaction
#[derive(Debug, Clone, Copy, PartialEq, Eq, Structural)]
pub enum InteractionType {
    Interact,
    Attack,
    InteractAt,
}

/// The interaction type an id names, if any.
pub open spec fn interaction_of(v: i32) -> Option<InteractionType> {
    if v == 0 {
        Some(InteractionType::Interact)
    } else if v == 1 {
        Some(InteractionType::Attack)
    } else if v == 2 {
        Some(InteractionType::InteractAt)
    } else {
        None
    }
}

/// Sent when the player interacts with an entity
#[derive(Debug, Clone, Copy)]
pub struct SInteract {
    /// The entity ID being interacted with
    pub entity_id: i32,
    /// The type of interaction
    pub interaction_type: InteractionType,
    /// Target position for `InteractAt` (x, y, z; IEEE-754 bits)
    pub target_pos: Option<(u32, u32, u32)>,
    /// Hand used for interaction
    pub hand: Option<InteractionHand>,
    /// Whether the player is sneaking
    pub sneaking: bool,
}

/// The sneaking byte at `pos` closes an interact packet read so far.
pub open spec fn interact_end(
    buf: Seq<u8>,
    pos: int,
    entity_id: i32,
    t: InteractionType,
    target_pos: Option<(u32, u32, u32)>,
    hand: Option<InteractionHand>,
) -> Result<(SInteract, int), ReadError> {
    if 0 <= pos < buf.len() {
        Ok(
            (
                SInteract {
                    entity_id,
                    interaction_type: t,
                    target_pos,
                    hand,
                    sneaking: buf[pos] != 0,
                },
                pos + 1,
            ),
        )
    } else {
        Err(ReadError::UnexpectedEnd)
    }
}

/// The interact packet at `pos`: the entity id and type id (VarInts); for
/// `Interact` a hand, for `InteractAt` three floats and a hand; then the
/// sneaking byte.
pub open spec fn interact_at(buf: Seq<u8>, pos: int) -> Result<(SInteract, int), ReadError> {
    match varint_at(buf, pos) {
        Err(er) => Err(er),
        Ok((id, p1)) => match varint_at(buf, p1) {
            Err(er) => Err(er),
            Ok((tid, p2)) => match interaction_of(tid) {
                None => Err(ReadError::InvalidValue(tid)),
                Some(InteractionType::Interact) => match hand_at(buf, p2) {
                    Err(er) => Err(er),
                    Ok((h, p3)) => interact_end(
                        buf,
                        p3,
                        id,
                        InteractionType::Interact,
                        None,
                        Some(h),
                    ),
                },
                Some(InteractionType::Attack) => interact_end(
                    buf,
                    p2,
                    id,
                    InteractionType::Attack,
                    None,
                    None,
                ),
                Some(InteractionType::InteractAt) => match u32_at(buf, p2) {
                    Err(er) => Err(er),
                    Ok((x, p3)) => match u32_at(buf, p3) {
                        Err(er) => Err(er),
                        Ok((y, p4)) => match u32_at(buf, p4) {
                            Err(er) => Err(er),
                            Ok((z, p5)) => match hand_at(buf, p5) {
                                Err(er) => Err(er),
                                Ok((h, p6)) => interact_end(
                                    buf,
                                    p6,
                                    id,
                                    InteractionType::InteractAt,
                                    Some((x, y, z)),
                                    Some(h),
                                ),
                            },
                        },
                    },
                },
            },
        },
    }
}

impl SInteract {
    /// Reads the packet body at `pos`.
    pub fn read(buf: &[u8], pos: usize) -> (r: Result<(SInteract, usize), ReadError>)
        ensures
            match interact_at(buf@, pos as int) {
                Ok((p, e)) => r == Ok::<(SInteract, usize), ReadError>((p, e as usize)),
                Err(er) => r == Err::<(SInteract, usize), ReadError>(er),
            },
    {
        let _len = buf.len();
        let (entity_id, p1) = match read_varint(buf, pos) {
            Ok(x) => x,
            Err(er) => {
                return Err(er);
            },
        };
        let (type_id, p2) = match read_varint(buf, p1) {
            Ok(x) => x,
            Err(er) => {
                return Err(er);
            },
        };
        let (interaction_type, target_pos, hand, p3) = if type_id == 0 {
            let (h, q) = match InteractionHand::read(buf, p2) {
                Ok(x) => x,
                Err(er) => {
                    return Err(er);
                },
            };
            (InteractionType::Interact, None, Some(h), q)
        } else if type_id == 1 {
            (InteractionType::Attack, None, None, p2)
        } else if type_id == 2 {
            let (x, q1) = match read_u32(buf, p2) {
                Ok(x) => x,
                Err(er) => {
                    return Err(er);
                },
            };
            let (y, q2) = match read_u32(buf, q1) {
                Ok(x) => x,
                Err(er) => {
                    return Err(er);
                },
            };
            let (z, q3) = match read_u32(buf, q2) {
                Ok(x) => x,
                Err(er) => {
                    return Err(er);
                },
            };
            let (h, q4) = match InteractionHand::read(buf, q3) {
                Ok(x) => x,
                Err(er) => {
                    return Err(er);
                },
            };
            (InteractionType::InteractAt, Some((x, y, z)), Some(h), q4)
        } else {
            return Err(ReadError::InvalidValue(type_id));
        };
        let (sneaking, end) = match read_bool(buf, p3) {
            Ok(x) => x,
            Err(er) => {
                return Err(er);
            },
        };
        Ok((SInteract { entity_id, interaction_type, target_pos, hand, sneaking }, end))
    }
}

/// Player command actions
#[derive(Debug, Clone, Copy, PartialEq, Eq, Structural)]
pub enum PlayerCommandAction {
    StartSneaking,
    StopSneaking,
    LeaveBed,
    StartSprinting,
    StopSprinting,
    StartJumpWithHorse,
    StopJumpWithHorse,
    OpenHorseInventory,
    StartFlyingWithElytra,
}

/// The id of a player command on the wire.
pub open spec fn command_id(a: PlayerCommandAction) -> i32 {
    match a {
        PlayerCommandAction::StartSneaking => 0,
        PlayerCommandAction::StopSneaking => 1,
        PlayerCommandAction::LeaveBed => 2,
        PlayerCommandAction::StartSprinting => 3,
        PlayerCommandAction::StopSprinting => 4,
        PlayerCommandAction::StartJumpWithHorse => 5,
        PlayerCommandAction::StopJumpWithHorse => 6,
        PlayerCommandAction::OpenHorseInventory => 7,
        PlayerCommandAction::StartFlyingWithElytra => 8,
    }
}

/// The player command an id names, if any.
pub open spec fn command_of(v: i32) -> Option<PlayerCommandAction> {
    if v == 0 {
        Some(PlayerCommandAction::StartSneaking)
    } else if v == 1 {
        Some(PlayerCommandAction::StopSneaking)
    } else if v == 2 {
        Some(PlayerCommandAction::LeaveBed)
    } else if v == 3 {
        Some(PlayerCommandAction::StartSprinting)
    } else if v == 4 {
        Some(PlayerCommandAction::StopSprinting)
    } else if v == 5 {
        Some(PlayerCommandAction::StartJumpWithHorse)
    } else if v == 6 {
        Some(PlayerCommandAction::StopJumpWithHorse)
    } else if v == 7 {
        Some(PlayerCommandAction::OpenHorseInventory)
    } else if v == 8 {
        Some(PlayerCommandAction::StartFlyingWithElytra)
    } else {
        None
    }
}

/// The player command at `pos`: a VarInt id.
pub open spec fn command_at(buf: Seq<u8>, pos: int) -> Result<(PlayerCommandAction, int), ReadError> {
    match varint_at(buf, pos) {
        Ok((v, e)) => match command_of(v) {
            Some(a) => Ok((a, e)),
            None => Err(ReadError::InvalidValue(v)),
        },
        Err(er) => Err(er),
    }
}

impl PlayerCommandAction {
    /// The id of this command on the wire.
    pub fn id(self) -> (r: i32)
        ensures
            r == command_id(self),
    {
        match self {
            PlayerCommandAction::StartSneaking => 0,
            PlayerCommandAction::StopSneaking => 1,
            PlayerCommandAction::LeaveBed => 2,
            PlayerCommandAction::StartSprinting => 3,
            PlayerCommandAction::StopSprinting => 4,
            PlayerCommandAction::StartJumpWithHorse => 5,
            PlayerCommandAction::StopJumpWithHorse => 6,
            PlayerCommandAction::OpenHorseInventory => 7,
            PlayerCommandAction::StartFlyingWithElytra => 8,
        }
    }

    /// Reads a player command at `pos`.
    pub fn read(buf: &[u8], pos: usize) -> (r: Result<(PlayerCommandAction, usize), ReadError>)
        ensures
            match command_at(buf@, pos as int) {
                Ok((a, e)) => r == Ok::<(PlayerCommandAction, usize), ReadError>((a, e as usize))
                    && pos < e <= buf@.len(),
                Err(er) => r == Err::<(PlayerCommandAction, usize), ReadError>(er),
            },
    {
        let _len = buf.len();
        let (v, e) = match read_varint(buf, pos) {
            Ok(x) => x,
            Err(er) => {
                return Err(er);
            },
        };
        let a = if v == 0 {
            PlayerCommandAction::StartSneaking
        } else if v == 1 {
            PlayerCommandAction::StopSneaking
        } else if v == 2 {
            PlayerCommandAction::LeaveBed
        } else if v == 3 {
            PlayerCommandAction::StartSprinting
        } else if v == 4 {
            PlayerCommandAction::StopSprinting
        } else if v == 5 {
            PlayerCommandAction::StartJumpWithHorse
        } else if v == 6 {
            PlayerCommandAction::StopJumpWithHorse
        } else if v == 7 {
            PlayerCommandAction::OpenHorseInventory
        } else if v == 8 {
            PlayerCommandAction::StartFlyingWithElytra
        } else {
            return Err(ReadError::InvalidValue(v));
        };
        Ok((a, e))
    }

    /// Appends the command's id as a VarInt.
    pub fn write(&self, buf: &mut Vec<u8>)
        ensures
            final(buf)@ == old(buf)@ + varint_bytes(command_id(*self)),
    {
        write_varint(buf, self.id());
    }
}

/// A player command written into a buffer is read back as the same command,
/// and the reading ends right after its bytes.
pub proof fn lemma_command_roundtrip(a: PlayerCommandAction, prefix: Seq<u8>, rest: Seq<u8>)
    ensures
        command_at(prefix + varint_bytes(command_id(a)) + rest, prefix.len() as int) == Ok::<
            (PlayerCommandAction, int),
            ReadError,
        >((a, prefix.len() + varint_bytes(command_id(a)).len() as int)),
{
    lemma_varint_roundtrip(command_id(a), prefix, rest);
}

/// Sent when the player performs a command (sprint, sneak, etc.)
#[derive(Debug, Clone, Copy)]
pub struct SPlayerCommand {
    /// The entity ID (should be player's own ID)
    pub entity_id: i32,
    /// The action being performed
    pub action: PlayerCommandAction,
    /// Additional data (for horse jumps)
    pub data: i32,
}

/// The player-command packet at `pos`: entity id, command, data.
pub open spec fn player_command_at(buf: Seq<u8>, pos: int) -> Result<(SPlayerCommand, int), ReadError> {
    match varint_at(buf, pos) {
        Err(er) => Err(er),
        Ok((id, p1)) => match command_at(buf, p1) {
            Err(er) => Err(er),
            Ok((a, p2)) => match varint_at(buf, p2) {
                Err(er) => Err(er),
                Ok((d, p3)) => Ok((SPlayerCommand { entity_id: id, action: a, data: d }, p3)),
            },
        },
    }
}

impl SPlayerCommand {
    /// Reads the packet body at `pos`.
    pub fn read(buf: &[u8], pos: usize) -> (r: Result<(SPlayerCommand, usize), ReadError>)
        ensures
            match player_command_at(buf@, pos as int) {
                Ok((p, e)) => r == Ok::<(SPlayerCommand, usize), ReadError>((p, e as usize)),
                Err(er) => r == Err::<(SPlayerCommand, usize), ReadError>(er),
            },
    {
        let _len = buf.len();
        let (entity_id, p1) = match read_varint(buf, pos) {
            Ok(x) => x,
            Err(er) => {
                return Err(er);
            },
        };
        let (action, p2) = match PlayerCommandAction::read(buf, p1) {
            Ok(x) => x,
            Err(er) => {
                return Err(er);
            },
        };
        let (data, p3) = match read_varint(buf, p2) {
            Ok(x) => x,
            Err(er) => {
                return Err(er);
            },
        };
        Ok((SPlayerCommand { entity_id, action, data }, p3))
    }
}

/// Sent when the player confirms a teleport
#[derive(Debug, Clone, Copy)]
pub struct SAcceptTeleportation {
    /// The id of the teleport being confirmed
    pub teleport_id: i32,
}

impl SAcceptTeleportation {
    /// Reads the packet body at `pos`: a VarInt teleport id.
    pub fn read(buf: &[u8], pos: usize) -> (r: Result<(SAcceptTeleportation, usize), ReadError>)
        ensures
            match varint_at(buf@, pos as int) {
                Ok((v, e)) => r matches Ok((p, q)) && p.teleport_id == v && q == e,
                Err(er) => r == Err::<(SAcceptTeleportation, usize), ReadError>(er),
            },
    {
        let _len = buf.len();
        let (teleport_id, e) = match read_varint(buf, pos) {
            Ok(x) => x,
            Err(er) => {
                return Err(er);
            },
        };
        Ok((SAcceptTeleportation { teleport_id }, e))
    }
}

/// Player input flags
#[derive(Debug, Clone, Copy, PartialEq, Eq, Structural)]
pub struct PlayerInputFlags {
    pub forward: bool,
    pub backward: bool,
    pub left: bool,
    pub right: bool,
    pub jump: bool,
    pub sneak: bool,
    pub sprint: bool,
}

/// The flags a byte holds: bits `0x01` forward, `0x02` backward, `0x04` left,
/// `0x08` right, `0x10` jump, `0x20` sneak, `0x40` sprint.
pub open spec fn flags_of(byte: u8) -> PlayerInputFlags {
    PlayerInputFlags {
        forward: byte & 0x01 != 0,
        backward: byte & 0x02 != 0,
        left: byte & 0x04 != 0,
        right: byte & 0x08 != 0,
        jump: byte & 0x10 != 0,
        sneak: byte & 0x20 != 0,
        sprint: byte & 0x40 != 0,
    }
}

/// The byte of a set of flags.
pub open spec fn flags_byte(f: PlayerInputFlags) -> u8 {
    (if f.forward { 0x01u8 } else { 0u8 }) | (if f.backward { 0x02u8 } else { 0u8 }) | (if f.left {
        0x04u8
    } else {
        0u8
    }) | (if f.right { 0x08u8 } else { 0u8 }) | (if f.jump { 0x10u8 } else { 0u8 }) | (if f.sneak {
        0x20u8
    } else {
        0u8
    }) | (if f.sprint { 0x40u8 } else { 0u8 })
}

impl PlayerInputFlags {
    const FORWARD: u8 = 0x01;
    const BACKWARD: u8 = 0x02;
    const LEFT: u8 = 0x04;
    const RIGHT: u8 = 0x08;
    const JUMP: u8 = 0x10;
    const SNEAK: u8 = 0x20;
    const SPRINT: u8 = 0x40;

    /// Creates flags from a byte
    pub fn from_byte(byte: u8) -> (r: Self)
        ensures
            r == flags_of(byte),
    {
        Self {
            forward: (byte & Self::FORWARD) != 0,
            backward: (byte & Self::BACKWARD) != 0,
            left: (byte & Self::LEFT) != 0,
            right: (byte & Self::RIGHT) != 0,
            jump: (byte & Self::JUMP) != 0,
            sneak: (byte & Self::SNEAK) != 0,
            sprint: (byte & Self::SPRINT) != 0,
        }
    }

    /// Converts flags to a byte
    pub fn to_byte(&self) -> (r: u8)
        ensures
            r == flags_byte(*self),
    {
        let mut byte = 0u8;
        byte |= if self.forward { Self::FORWARD } else { 0 };
        byte |= if self.backward { Self::BACKWARD } else { 0 };
        byte |= if self.left { Self::LEFT } else { 0 };
        byte |= if self.right { Self::RIGHT } else { 0 };
        byte |= if self.jump { Self::JUMP } else { 0 };
        byte |= if self.sneak { Self::SNEAK } else { 0 };
        byte |= if self.sprint { Self::SPRINT } else { 0 };
        proof {
            let (f, b, l, r, j, s, p) = (
                self.forward,
                self.backward,
                self.left,
                self.right,
                self.jump,
                self.sneak,
                self.sprint,
            );
            assert(byte == (if f { 0x01u8 } else { 0u8 }) | (if b { 0x02u8 } else { 0u8 }) | (if l {
                0x04u8
            } else {
                0u8
            }) | (if r { 0x08u8 } else { 0u8 }) | (if j { 0x10u8 } else { 0u8 }) | (if s {
                0x20u8
            } else {
                0u8
            }) | (if p { 0x40u8 } else { 0u8 })) by (bit_vector)
                requires
                    byte == (((((((0u8 | (if f { 0x01u8 } else { 0u8 })) | (if b {
                        0x02u8
                    } else {
                        0u8
                    })) | (if l { 0x04u8 } else { 0u8 })) | (if r { 0x08u8 } else { 0u8 })) | (if j {
                        0x10u8
                    } else {
                        0u8
                    })) | (if s { 0x20u8 } else { 0u8 })) | (if p { 0x40u8 } else { 0u8 })),
            ;
        }
        byte
    }
}

/// Reading the byte of a set of flags gives the same flags back.
pub proof fn lemma_flags_roundtrip(f: PlayerInputFlags)
    ensures
        flags_of(flags_byte(f)) == f,
{
    let (a, b, l, r, j, s, p) = (f.forward, f.backward, f.left, f.right, f.jump, f.sneak, f.sprint);
    let x = flags_byte(f);
    assert(x == (if a { 0x01u8 } else { 0u8 }) | (if b { 0x02u8 } else { 0u8 }) | (if l {
        0x04u8
    } else {
        0u8
    }) | (if r { 0x08u8 } else { 0u8 }) | (if j { 0x10u8 } else { 0u8 }) | (if s {
        0x20u8
    } else {
        0u8
    }) | (if p { 0x40u8 } else { 0u8 }));
    assert((x & 0x01 != 0) == a && (x & 0x02 != 0) == b && (x & 0x04 != 0) == l && (x & 0x08 != 0)
        == r && (x & 0x10 != 0) == j && (x & 0x20 != 0) == s && (x & 0x40 != 0) == p) by (bit_vector)
        requires
            x == (if a { 0x01u8 } else { 0u8 }) | (if b { 0x02u8 } else { 0u8 }) | (if l {
                0x04u8
            } else {
                0u8
            }) | (if r { 0x08u8 } else { 0u8 }) | (if j { 0x10u8 } else { 0u8 }) | (if s {
                0x20u8
            } else {
                0u8
            }) | (if p { 0x40u8 } else { 0u8 }),
    ;
}

/// The byte of the flags read from a byte is that byte without its high bit.
pub proof fn lemma_byte_roundtrip(byte: u8)
    ensures
        flags_byte(flags_of(byte)) == byte & 0x7f,
{
    let f = flags_of(byte);
    assert((if byte & 0x01 != 0 { 0x01u8 } else { 0u8 }) | (if byte & 0x02 != 0 { 0x02u8 } else {
        0u8
    }) | (if byte & 0x04 != 0 { 0x04u8 } else { 0u8 }) | (if byte & 0x08 != 0 { 0x08u8 } else {
        0u8
    }) | (if byte & 0x10 != 0 { 0x10u8 } else { 0u8 }) | (if byte & 0x20 != 0 { 0x20u8 } else {
        0u8
    }) | (if byte & 0x40 != 0 { 0x40u8 } else { 0u8 }) == byte & 0x7f) by (bit_vector);
}

/// Sent when the player presses or releases movement/action keys
#[derive(Debug, Clone, Copy)]
pub struct SPlayerInput {
    /// Input flags (bit mask)
    pub flags: PlayerInputFlags,
}

impl SPlayerInput {
    /// Reads the packet body at `pos`: one byte of flags.
    pub fn read(buf: &[u8], pos: usize) -> (r: Result<(SPlayerInput, usize), ReadError>)
        ensures
            pos < buf@.len() ==> (r matches Ok((p, e)) && p.flags == flags_of(buf@[pos as int]) && e
                == pos + 1),
            pos >= buf@.len() ==> r == Err::<(SPlayerInput, usize), ReadError>(
                ReadError::UnexpectedEnd,
            ),
    {
        let _len = buf.len();
        let (byte, e) = match read_u8(buf, pos) {
            Ok(x) => x,
            Err(er) => {
                return Err(er);
            },
        };
        Ok((SPlayerInput { flags: PlayerInputFlags::from_byte(byte) }, e))
    }
}

} // verus!
