use steel::clientbound::{
    AnimationType, CAddEntity, CAnimate, CMoveEntityPos, CMoveEntityPosRot, CMoveEntityRot,
    CPlayerInfoUpdate, CPlayerPosition, CRemoveEntities, CRemovePlayerInfo, CRotateHead,
    CTeleportEntity, GameProfileProperty, PlayerInfoAction,
};
use steel::codec::{read_bool, read_u32, read_varint, write_string, write_varint, ReadError};
use steel::serverbound::{
    InteractionHand, InteractionType, PlayerCommandAction, PlayerInputFlags, SAcceptTeleportation,
    SInteract, SPlayerCommand, SPlayerInput, SSwing,
};

fn varint(v: i32) -> Vec<u8> {
    let mut b = Vec::new();
    write_varint(&mut b, v);
    b
}

#[test]
fn varint_bytes() {
    assert_eq!(varint(0), vec![0]);
    assert_eq!(varint(1), vec![1]);
    assert_eq!(varint(127), vec![0x7f]);
    assert_eq!(varint(128), vec![0x80, 0x01]);
    assert_eq!(varint(300), vec![0xac, 0x02]);
    assert_eq!(varint(2097151), vec![0xff, 0xff, 0x7f]);
    assert_eq!(varint(i32::MAX), vec![0xff, 0xff, 0xff, 0xff, 0x07]);
    assert_eq!(varint(-1), vec![0xff, 0xff, 0xff, 0xff, 0x0f]);
    assert_eq!(varint(i32::MIN), vec![0x80, 0x80, 0x80, 0x80, 0x08]);
}

#[test]
fn varint_roundtrip() {
    for v in [0, 1, -1, 127, 128, 255, 25565, i32::MAX, i32::MIN, -12345678] {
        let mut buf = vec![9u8, 9];
        buf.extend(varint(v));
        let end = buf.len();
        buf.push(42);
        assert_eq!(read_varint(&buf, 2), Ok((v, end)));
    }
}

#[test]
fn varint_errors() {
    assert_eq!(read_varint(&[], 0), Err(ReadError::UnexpectedEnd));
    assert_eq!(read_varint(&[0x80], 0), Err(ReadError::UnexpectedEnd));
    assert_eq!(read_varint(&[0x80, 0x80, 0x80, 0x80, 0x80, 0x01], 0), Err(ReadError::VarIntTooLong));
    assert_eq!(read_varint(&[1, 2], 5), Err(ReadError::UnexpectedEnd));
}

#[test]
fn plain_fields() {
    assert_eq!(read_bool(&[0, 1, 7], 0), Ok((false, 1)));
    assert_eq!(read_bool(&[0, 1, 7], 2), Ok((true, 3)));
    assert_eq!(read_bool(&[0], 1), Err(ReadError::UnexpectedEnd));
    assert_eq!(read_u32(&[0x3f, 0x80, 0, 0], 0), Ok((1.0f32.to_bits(), 4)));
    assert_eq!(read_u32(&[0x3f, 0x80, 0], 0), Err(ReadError::UnexpectedEnd));
    let mut b = Vec::new();
    write_string(&mut b, "hé");
    assert_eq!(b, vec![3, b'h', 0xc3, 0xa9]);
}

#[test]
fn move_entity_packets() {
    let mut b = Vec::new();
    CMoveEntityPos { entity_id: 5, delta_x: 1, delta_y: -1, delta_z: 256, on_ground: true }.write(&mut b);
    assert_eq!(b, vec![5, 0, 1, 0xff, 0xff, 1, 0, 1]);

    let mut b = Vec::new();
    CMoveEntityPosRot {
        entity_id: 300,
        delta_x: 0,
        delta_y: 0,
        delta_z: 0,
        yaw: -128,
        pitch: 64,
        on_ground: false,
    }
    .write(&mut b);
    assert_eq!(b, vec![0xac, 0x02, 0, 0, 0, 0, 0, 0, 0x80, 64, 0]);

    let mut b = Vec::new();
    CMoveEntityRot { entity_id: 1, yaw: 1, pitch: -1, on_ground: true }.write(&mut b);
    assert_eq!(b, vec![1, 1, 0xff, 1]);

    let mut b = Vec::new();
    CRotateHead { entity_id: 2, head_yaw: 3 }.write(&mut b);
    assert_eq!(b, vec![2, 3]);
}

#[test]
fn remove_packets() {
    let mut b = Vec::new();
    CRemoveEntities { entity_ids: vec![1, 300] }.write(&mut b);
    assert_eq!(b, vec![2, 1, 0xac, 0x02]);

    let mut b = Vec::new();
    CRemovePlayerInfo { uuids: vec![0x0102_0304_0506_0708_090a_0b0c_0d0e_0f10] }.write(&mut b);
    assert_eq!(b, vec![1, 1, 2, 3, 4, 5, 6, 7, 8, 9, 10, 11, 12, 13, 14, 15, 16]);
}

#[test]
fn animate_packets() {
    let a = CAnimate::swing_main_hand(7);
    assert_eq!((a.entity_id, a.animation), (7, 0));
    let a = CAnimate::swing_offhand(7);
    assert_eq!(a.animation, 3);
    let a = CAnimate::new(9, AnimationType::MagicCriticalHit);
    assert_eq!(a.animation, 5);
    let mut b = Vec::new();
    a.write(&mut b);
    assert_eq!(b, vec![9, 5]);
    assert_eq!(AnimationType::Hurt.id(), 1);
}

#[test]
fn absolute_position_packets() {
    let one = 1.0f64.to_bits();
    let mut b = Vec::new();
    CTeleportEntity {
        entity_id: 1,
        x: one,
        y: 0,
        z: 0,
        delta_x: 0,
        delta_y: 0,
        delta_z: 0,
        yaw: 1.0f32.to_bits(),
        pitch: 0,
        relatives: -1,
        on_ground: true,
    }
    .write(&mut b);
    let mut expected = vec![1];
    expected.extend(1.0f64.to_be_bytes());
    expected.extend([0u8; 40]);
    expected.extend(1.0f32.to_be_bytes());
    expected.extend([0u8; 4]);
    expected.extend([0xff; 4]);
    expected.push(1);
    assert_eq!(b, expected);

    let mut b = Vec::new();
    CPlayerPosition {
        x: 0,
        y: 0,
        z: 0,
        delta_x: 0,
        delta_y: 0,
        delta_z: 0,
        yaw: 0,
        pitch: 0,
        relatives: 1,
        teleport_id: 128,
    }
    .write(&mut b);
    let mut expected = vec![0x80, 0x01];
    expected.extend([0u8; 56]);
    expected.extend([0, 0, 0, 1]);
    assert_eq!(b, expected);

    let mut b = Vec::new();
    CAddEntity {
        entity_id: 1,
        uuid: 2,
        entity_type: 3,
        x: 0,
        y: 0,
        z: 0,
        pitch: 4,
        yaw: 5,
        head_yaw: 6,
        data: 7,
    }
    .write(&mut b);
    let mut expected = vec![1];
    expected.extend([0u8; 15]);
    expected.push(2);
    expected.push(3);
    expected.extend([0u8; 24]);
    expected.extend([0, 4, 5, 6, 7]);
    assert_eq!(b, expected);
}

#[test]
fn player_info_update_packets() {
    let p = CPlayerInfoUpdate::add_player(
        1,
        "Al".to_string(),
        vec![GameProfileProperty {
            name: "t".to_string(),
            value: "v".to_string(),
            signature: Some("s".to_string()),
        }],
    );
    assert_eq!(p.actions, 0x1f);
    assert_eq!(PlayerInfoAction::UpdateListed.bit(), 0x08);
    let mut b = Vec::new();
    p.write(&mut b);
    let mut expected = vec![0x1f, 1];
    expected.extend([0u8; 15]);
    expected.push(1);
    expected.extend([2, b'A', b'l']);
    expected.extend([1, 1, b't', 1, b'v', 1, 1, b's']);
    expected.push(0);
    expected.push(1);
    expected.push(1);
    expected.push(0);
    assert_eq!(b, expected);

    let p = CPlayerInfoUpdate::update_chat_session(1, vec![9, 9]);
    let mut b = Vec::new();
    p.write(&mut b);
    let mut expected = vec![0x02, 1];
    expected.extend([0u8; 15]);
    expected.push(1);
    expected.extend([1, 9, 9]);
    assert_eq!(b, expected);
}

#[test]
fn interaction_hand_roundtrip() {
    for h in [InteractionHand::MainHand, InteractionHand::OffHand] {
        let mut b = vec![0xaa];
        h.write(&mut b);
        assert_eq!(InteractionHand::read(&b, 1), Ok((h, 2)));
    }
    assert_eq!(InteractionHand::read(&[2], 0), Err(ReadError::InvalidValue(2)));
    assert_eq!(SSwing::read(&[1], 0).map(|(p, e)| (p.hand, e)), Ok((InteractionHand::OffHand, 1)));
}

#[test]
fn interact_packets() {
    let (p, e) = SInteract::read(&[5, 1, 1], 0).unwrap();
    assert_eq!((p.entity_id, p.interaction_type, p.target_pos, p.hand, p.sneaking, e), (5, InteractionType::Attack, None, None, true, 3));

    let (p, e) = SInteract::read(&[5, 0, 1, 0], 0).unwrap();
    assert_eq!((p.interaction_type, p.hand, p.sneaking, e), (InteractionType::Interact, Some(InteractionHand::OffHand), false, 4));

    let mut b = vec![5, 2];
    b.extend(1.0f32.to_be_bytes());
    b.extend(2.0f32.to_be_bytes());
    b.extend(3.0f32.to_be_bytes());
    b.extend([0, 1]);
    let (p, e) = SInteract::read(&b, 0).unwrap();
    assert_eq!(p.target_pos, Some((1.0f32.to_bits(), 2.0f32.to_bits(), 3.0f32.to_bits())));
    assert_eq!((p.hand, p.sneaking, e), (Some(InteractionHand::MainHand), true, 16));

    assert_eq!(SInteract::read(&[5, 3, 0], 0).map(|_| ()), Err(ReadError::InvalidValue(3)));
    assert_eq!(SInteract::read(&[5, 1], 0).map(|_| ()), Err(ReadError::UnexpectedEnd));
    assert_eq!(SInteract::read(&[5, 0, 7, 0], 0).map(|_| ()), Err(ReadError::InvalidValue(7)));
}

#[test]
fn player_command_roundtrip() {
    let all = [
        PlayerCommandAction::StartSneaking,
        PlayerCommandAction::StopSneaking,
        PlayerCommandAction::LeaveBed,
        PlayerCommandAction::StartSprinting,
        PlayerCommandAction::StopSprinting,
        PlayerCommandAction::StartJumpWithHorse,
        PlayerCommandAction::StopJumpWithHorse,
        PlayerCommandAction::OpenHorseInventory,
        PlayerCommandAction::StartFlyingWithElytra,
    ];
    for (i, a) in all.iter().enumerate() {
        assert_eq!(a.id(), i as i32);
        let mut b = Vec::new();
        a.write(&mut b);
        assert_eq!(PlayerCommandAction::read(&b, 0), Ok((*a, 1)));
    }
    assert_eq!(PlayerCommandAction::read(&[9], 0), Err(ReadError::InvalidValue(9)));
    let (p, e) = SPlayerCommand::read(&[7, 3, 0x80, 0x01], 0).unwrap();
    assert_eq!((p.entity_id, p.action, p.data, e), (7, PlayerCommandAction::StartSprinting, 128, 4));
    assert_eq!(SPlayerCommand::read(&[7, 3], 0).map(|_| ()), Err(ReadError::UnexpectedEnd));
}

#[test]
fn player_input_flags() {
    let f = PlayerInputFlags::from_byte(0x01 | 0x10 | 0x40);
    assert!(f.forward && f.jump && f.sprint);
    assert!(!f.backward && !f.left && !f.right && !f.sneak);
    assert_eq!(f.to_byte(), 0x51);
    for b in 0..=255u8 {
        assert_eq!(PlayerInputFlags::from_byte(b).to_byte(), b & 0x7f);
    }
    let all = PlayerInputFlags {
        forward: true,
        backward: true,
        left: true,
        right: true,
        jump: true,
        sneak: true,
        sprint: true,
    };
    assert_eq!(PlayerInputFlags::from_byte(all.to_byte()), all);
    let (p, e) = SPlayerInput::read(&[0, 0x20], 1).unwrap();
    assert!(p.flags.sneak && e == 2);
    assert!(SPlayerInput::read(&[], 0).is_err());
}

#[test]
fn accept_teleportation() {
    let (p, e) = SAcceptTeleportation::read(&[0xac, 0x02], 0).unwrap();
    assert_eq!((p.teleport_id, e), (300, 2));
}
