use steel::behaviour::{
    nbt_bool, nbt_i32, DefaultEntityBehaviour, DisplayBehaviour, EntityBehaviour, SlimeBehaviour,
    ZombieBehaviour,
};
use steel::entity::{BaseEntity, MobEntity, Vec3Bits};
use steel::entity_data::{
    serialize_entity_data_value, text_component_json, EntityBlockState, EntityData,
    EntityDataAccessor, EntityDataValue, Float32, IntoEntityData, Pose, Quaternionf, Vector3f,
    ONE_BITS,
};
use steel::snbt::{parse_snbt_compound, NbtCompound, NbtTag};

fn origin() -> Vec3Bits {
    Vec3Bits { x: 0, y: 0, z: 0 }
}

fn sorted(mut v: Vec<(u8, EntityDataValue)>) -> Vec<u8> {
    v.sort_by_key(|p| p.0);
    v.into_iter().map(|p| p.0).collect()
}

#[test]
fn entity_data_set_then_get() {
    let mut d = EntityData::new(7);
    assert_eq!(d.entity_id(), 7);
    assert!(!d.is_dirty());
    d.define(EntityDataAccessor::air_supply(), 300i32);
    assert!(!d.is_dirty());
    assert_eq!(d.get(EntityDataAccessor::air_supply()), 300);
    d.set(EntityDataAccessor::air_supply(), 12i32);
    assert!(d.is_dirty());
    assert_eq!(d.get(EntityDataAccessor::air_supply()), 12);
    d.set(EntityDataAccessor::custom_name(), Some("Rex".to_string()));
    assert_eq!(d.get(EntityDataAccessor::custom_name()), Some("Rex".to_string()));
    d.set(EntityDataAccessor::pose(), Pose::Sleeping);
    assert_eq!(d.get(EntityDataAccessor::pose()), Pose::Sleeping);
}

#[test]
fn pack_dirty_sends_changes_once() {
    let mut d = EntityData::new(1);
    d.define(EntityDataAccessor::shared_flags(), 0u8);
    d.define(EntityDataAccessor::silent(), false);
    // Defined fields are dirty, but the data as a whole is not marked changed.
    assert!(d.pack_dirty().is_none());
    d.set(EntityDataAccessor::silent(), true);
    let packed = d.pack_dirty().unwrap();
    assert_eq!(sorted(packed), vec![0, 4]);
    assert!(!d.is_dirty());
    assert!(d.pack_dirty().is_none());
    d.set(EntityDataAccessor::silent(), false);
    let packed = d.pack_dirty().unwrap();
    assert_eq!(packed.len(), 1);
    assert!(matches!(packed[0], (4, EntityDataValue::Boolean(false))));
}

#[test]
fn pack_all_sends_everything_and_marks_clean() {
    let mut d = EntityData::new(1);
    d.define(EntityDataAccessor::shared_flags(), 3u8);
    d.define(EntityDataAccessor::frozen_ticks(), 9i32);
    d.set(EntityDataAccessor::frozen_ticks(), 10i32);
    let all = d.pack_all();
    assert_eq!(sorted(all), vec![0, 7]);
    assert!(d.is_dirty());
    assert!(d.pack_dirty().is_none());
}

#[test]
fn into_entity_data_roundtrips() {
    assert_eq!(u8::from_entity_data(&7u8.into_entity_data()), Some(7));
    assert_eq!(i64::from_entity_data(&(-5i64).into_entity_data()), Some(-5));
    assert_eq!(Float32::from_entity_data(&Float32(ONE_BITS).into_entity_data()), Some(Float32(ONE_BITS)));
    assert_eq!(String::from_entity_data(&"x".to_string().into_entity_data()), Some("x".to_string()));
    assert_eq!(bool::from_entity_data(&true.into_entity_data()), Some(true));
    assert_eq!(Vector3f::from_entity_data(&Vector3f(1, 2, 3).into_entity_data()), Some(Vector3f(1, 2, 3)));
    assert_eq!(Quaternionf::from_entity_data(&Quaternionf::default().into_entity_data()), Some(Quaternionf(0, 0, 0, ONE_BITS)));
    assert_eq!(EntityBlockState::from_entity_data(&EntityBlockState(4).into_entity_data()), Some(EntityBlockState(4)));
    assert_eq!(
        Option::<String>::from_entity_data(&EntityDataValue::OptionalString(Some("a".to_string()))),
        Some(Some("a".to_string()))
    );
    assert_eq!(i32::from_entity_data(&EntityDataValue::Byte(1)), None);
    assert_eq!(EntityDataValue::Int(3).as_int(), Some(3));
    assert_eq!(EntityDataValue::Int(3).as_byte(), None);
    assert_eq!(EntityDataValue::String("s".to_string()).as_string(), Some("s"));
    assert_eq!(EntityDataValue::Float(5).as_float(), Some(5));
    assert_eq!(EntityDataValue::Long(5).as_long(), Some(5));
    assert_eq!(EntityDataValue::Boolean(true).as_boolean(), Some(true));
    assert_eq!(EntityDataValue::Pose(Pose::Dying).as_pose(), Some(Pose::Dying));
    assert_eq!(
        EntityDataValue::OptionalTextComponent(None).as_optional_string(),
        Some(&None)
    );
}

#[test]
fn accessor_ids() {
    assert_eq!(EntityDataAccessor::shared_flags().id(), 0);
    assert_eq!(EntityDataAccessor::air_supply().id(), 1);
    assert_eq!(EntityDataAccessor::custom_name().id(), 2);
    assert_eq!(EntityDataAccessor::pose().id(), 6);
    assert_eq!(EntityDataAccessor::slime_size().id(), 16);
    assert_eq!(EntityDataAccessor::block_display_state().id(), 23);
    assert_eq!(EntityDataAccessor::<u8>::new(42).id(), 42);
}

#[test]
fn serialized_values() {
    let s = |v: EntityDataValue| serialize_entity_data_value(&v);
    assert_eq!(s(EntityDataValue::Byte(7)), vec![7]);
    assert_eq!(s(EntityDataValue::Int(300)), vec![0xac, 0x02]);
    assert_eq!(s(EntityDataValue::Long(-2)), vec![0xff, 0xff, 0xff, 0xff, 0xff, 0xff, 0xff, 0xfe]);
    assert_eq!(s(EntityDataValue::Float(1.5f32.to_bits())), 1.5f32.to_be_bytes().to_vec());
    assert_eq!(s(EntityDataValue::String("ab".to_string())), vec![2, b'a', b'b']);
    assert_eq!(s(EntityDataValue::Boolean(true)), vec![1]);
    assert_eq!(s(EntityDataValue::Pose(Pose::Crouching)), vec![5]);
    assert_eq!(s(EntityDataValue::OptionalString(None)), vec![0]);
    assert_eq!(s(EntityDataValue::OptionalString(Some("a".to_string()))), vec![1, 1, b'a']);
    let json = "{\"text\":\"a\\\"b\\\\c\"}";
    let mut expected = vec![1, json.len() as u8];
    expected.extend(json.bytes());
    assert_eq!(s(EntityDataValue::OptionalTextComponent(Some("a\"b\\c".to_string()))), expected);
    assert_eq!(s(EntityDataValue::Vector3(Vector3f(0, 0, ONE_BITS))).len(), 12);
    assert_eq!(s(EntityDataValue::Quaternion(Quaternionf::default()))[12..], [0x3f, 0x80, 0, 0]);
    assert_eq!(s(EntityDataValue::BlockState(EntityBlockState(128))), vec![0x80, 0x01]);
}

#[test]
fn text_component_escapes() {
    assert_eq!(text_component_json("hi"), "{\"text\":\"hi\"}");
    assert_eq!(text_component_json("\"\\"), "{\"text\":\"\\\"\\\\\"}");
}

#[test]
fn base_entity_flags_and_pose() {
    let mut e = BaseEntity::new(3, 4, 99, origin());
    assert_eq!(e.entity_data().get(EntityDataAccessor::air_supply()), 300);
    assert!(!e.is_sprinting());
    e.set_sprinting(true);
    assert!(e.is_sprinting());
    assert!(e.get_shared_flag(3));
    assert_eq!(e.entity_data().get(EntityDataAccessor::shared_flags()), 0b1000);
    e.set_shift_key_down(true);
    e.set_glowing(true);
    e.set_sprinting(false);
    assert!(e.is_shift_key_down() && e.get_shared_flag(6) && !e.is_sprinting());
    assert_eq!(e.entity_data().get(EntityDataAccessor::shared_flags()), 0b0100_0010);
    assert_eq!(e.pose(), Pose::Standing);
    assert!(!e.is_crouching());
    e.set_pose(Pose::Crouching);
    assert!(e.is_crouching() && e.has_pose(Pose::Crouching));
    // The fields defined at creation are still dirty: the first packing sends them all.
    let packed = e.pack_dirty_data().unwrap();
    assert_eq!(sorted(packed), vec![0, 1, 2, 3, 4, 5, 6, 7]);
    e.set_pose(Pose::Swimming);
    let packed = e.pack_dirty_data().unwrap();
    assert_eq!(sorted(packed), vec![6]);
    let all = e.pack_all_data();
    assert_eq!(all.len(), 8);
}

#[test]
fn mob_new_has_a_version_4_uuid_and_type_fields() {
    let m = MobEntity::new(1, 2, origin(), &SlimeBehaviour);
    let uuid = m.base().uuid;
    assert_eq!((uuid >> 76) & 0xf, 4);
    assert_eq!((uuid >> 62) & 0x3, 2);
    assert_eq!(m.base().entity_data().get(EntityDataAccessor::slime_size()), 1);
    let other = MobEntity::new(1, 2, origin(), &SlimeBehaviour);
    assert_ne!(uuid, other.base().uuid);
}

#[test]
fn mob_reads_its_flags_from_nbt() {
    let mut m = MobEntity::new(1, 2, origin(), &SlimeBehaviour);
    let nbt = parse_snbt_compound(
        "{CustomName:\"Gloop\",Silent:1b,NoGravity:0,Glowing:1b,Fire:5s,Size:3,Invisible:true}",
    )
    .unwrap();
    m.apply_nbt(&nbt, &SlimeBehaviour);
    let d = m.base().entity_data();
    assert_eq!(d.get(EntityDataAccessor::custom_name()), Some("Gloop".to_string()));
    assert!(d.get(EntityDataAccessor::silent()));
    assert!(!d.get(EntityDataAccessor::no_gravity()));
    assert!(!d.get(EntityDataAccessor::custom_name_visible()));
    assert_eq!(d.get(EntityDataAccessor::slime_size()), 4);
    let base = m.base();
    assert!(base.get_shared_flag(0) && base.get_shared_flag(5) && base.get_shared_flag(6));
    assert_eq!(d.get(EntityDataAccessor::shared_flags()), 0b0110_0001);

    let nbt = parse_snbt_compound("{Fire:0,Size:1000}").unwrap();
    m.apply_nbt(&nbt, &SlimeBehaviour);
    assert!(!m.base().get_shared_flag(0));
    assert_eq!(m.base().entity_data().get(EntityDataAccessor::slime_size()), 127);
    let nbt = parse_snbt_compound("{Fire:\"x\",Size:-9}").unwrap();
    m.apply_nbt(&nbt, &SlimeBehaviour);
    assert_eq!(m.base().entity_data().get(EntityDataAccessor::slime_size()), 1);
    m.set_rotation(1, 2);
    assert_eq!(m.base().rotation, (1, 2));
}

#[test]
fn slime_writes_its_size() {
    let mut d = EntityData::new(1);
    SlimeBehaviour.define_entity_data(&mut d);
    d.set(EntityDataAccessor::slime_size(), 5i32);
    let mut nbt = NbtCompound::new();
    SlimeBehaviour.write_nbt(&d, &mut nbt);
    assert!(matches!(nbt.get("Size"), Some(NbtTag::Int(4))));
}

#[test]
fn zombie_nbt() {
    let mut d = EntityData::new(1);
    ZombieBehaviour.define_entity_data(&mut d);
    let nbt = parse_snbt_compound("{IsBaby:1b,DrownedConversionTime:20}").unwrap();
    ZombieBehaviour.read_nbt(&mut d, &nbt);
    assert!(d.get(EntityDataAccessor::zombie_is_baby()));
    assert!(d.get(EntityDataAccessor::zombie_drowned_conversion()));
    let mut out = NbtCompound::new();
    ZombieBehaviour.write_nbt(&d, &mut out);
    assert!(matches!(out.get("IsBaby"), Some(NbtTag::Byte(1))));
}

#[test]
fn display_and_default_behaviours() {
    let mut d = EntityData::new(1);
    DisplayBehaviour.define_entity_data(&mut d);
    assert_eq!(d.pack_all().len(), 16);
    assert_eq!(d.get(EntityDataAccessor::display_scale()), Vector3f(ONE_BITS, ONE_BITS, ONE_BITS));
    assert_eq!(d.get(EntityDataAccessor::display_brightness()), -1);
    assert_eq!(d.get(EntityDataAccessor::display_view_range()), Float32(ONE_BITS));
    let mut d = EntityData::new(1);
    DefaultEntityBehaviour.define_entity_data(&mut d);
    assert!(d.pack_all().is_empty());
}

#[test]
fn nbt_helpers() {
    assert_eq!(nbt_bool(&NbtTag::Byte(2)), Some(true));
    assert_eq!(nbt_bool(&NbtTag::Int(0)), Some(false));
    assert_eq!(nbt_bool(&NbtTag::Short(1)), None);
    assert_eq!(nbt_i32(&NbtTag::Short(-3)), Some(-3));
    assert_eq!(nbt_i32(&NbtTag::Byte(4)), Some(4));
    assert_eq!(nbt_i32(&NbtTag::Long(4)), None);
}

fn serializer_ids() -> steel::entity_data::SerializerIds {
    steel::entity_data::SerializerIds {
        byte: 0,
        int: 1,
        long: 2,
        float: 3,
        string: 4,
        boolean: 8,
        pose: 20,
        optional_component: 6,
        vector3: 11,
        quaternion: 12,
        block_state: 14,
    }
}

#[test]
fn data_entries_carry_serializer_and_bytes() {
    let ids = serializer_ids();
    assert_eq!(EntityDataValue::Boolean(true).serializer_id(&ids), 8);
    assert_eq!(EntityDataValue::OptionalString(None).serializer_id(&ids), 6);
    assert_eq!(EntityDataValue::OptionalTextComponent(None).serializer_id(&ids), 6);
    let entries = steel::entity_data::entity_data_to_packet_entries(
        vec![(0, EntityDataValue::Byte(0x20)), (1, EntityDataValue::Int(300)), (6, EntityDataValue::Pose(steel::entity_data::Pose::Sleeping))],
        &ids,
    );
    assert_eq!(entries.len(), 3);
    assert_eq!((entries[0].field_id, entries[0].serializer_id, entries[0].value_bytes.clone()), (0, 0, vec![0x20]));
    assert_eq!((entries[1].field_id, entries[1].serializer_id, entries[1].value_bytes.clone()), (1, 1, vec![0xac, 0x02]));
    assert_eq!((entries[2].field_id, entries[2].serializer_id, entries[2].value_bytes.clone()), (6, 20, vec![2]));
}

#[test]
fn block_state_queries() {
    let nbt = parse_snbt_compound("{Name:\"minecraft:oak_stairs\",Properties:{facing:\"east\",waterlogged:\"false\",x:1}}").unwrap();
    let (name, props) = steel::behaviour::block_state_query(&nbt).unwrap();
    assert_eq!(name, "minecraft:oak_stairs");
    assert_eq!(
        props,
        vec![("facing".to_string(), "east".to_string()), ("waterlogged".to_string(), "false".to_string())]
    );
    let bare = parse_snbt_compound("{Name:\"minecraft:stone\"}").unwrap();
    assert_eq!(steel::behaviour::block_state_query(&bare), Some(("minecraft:stone".to_string(), vec![])));
    let nameless = parse_snbt_compound("{Name:3}").unwrap();
    assert!(steel::behaviour::block_state_query(&nameless).is_none());
}

#[test]
fn shared_flag_setters() {
    let mut e = BaseEntity::new(1, 2, 3, origin());
    e.set_on_fire(true);
    assert_eq!(e.shared_flags, 0x01);
    e.set_swimming(true);
    assert_eq!(e.shared_flags, 0x11);
    e.set_invisible(true);
    assert_eq!(e.shared_flags, 0x31);
    e.set_fall_flying(true);
    assert_eq!(e.shared_flags, 0xb1);
    e.set_on_fire(false);
    e.set_invisible(false);
    assert_eq!(e.shared_flags, 0x90);
    assert!(e.get_shared_flag(7) && e.get_shared_flag(4) && !e.get_shared_flag(0));
    let parts = steel::entity_data::EntityDataAccessor::<u8>::player_model_parts();
    assert_eq!(parts.id(), 18);
}
