use blf_lib::io::bitstream::{c_bitstream_reader, c_bitstream_writer};
use blf_lib::result::BLFLibError;
use blf_lib::blam::common::math::integer_math::int32_point3d;
use blf_lib::blam::haloreach_mcc::v_untracked_25_08_16_1352::saved_games::saved_game_files::{
    c_content_item_metadata, s_content_item_film_metadata, s_content_item_history,
};
use blf_lib::blam::haloreach_mcc::v_untracked_25_08_16_1352::saved_games::scenario_map_variant_h2a::{
    decode_metadata_h2a, decode_metadata_h2a_variant, encode_metadata_h2a, encode_metadata_h2a_variant, H2AMetaSchema,
};
use blf_lib::blam::haloreach_mcc::v_untracked_25_08_16_1352::saved_games::scenario_map_variant::{
    H4H2AAxes, s_h4_h2a_mp_props, s_h4_h2a_mp_props_tail,
};
use blf_lib::blam::haloreach_mcc::v_untracked_25_08_16_1352::saved_games::variant_objects::s_variant_object_datum;
use blf_lib::blam::haloreach_mcc::v_untracked_25_08_16_1352::saved_games::scenario_map_variant_h4::h4_h2a_simulation_read_position;
use blf_lib::blam::haloreach::v12065_11_08_24_1738_tu1actual::simulation::simulation_encoding::{
    simulation_read_position_capture, simulation_write_position, simulation_write_position_with_raw,
};
use blf_lib::blam::haloreach_mcc::v_untracked_25_08_16_1352::cache_compression::{
    try_decompress_mcc_cache_file, MccCacheSection,
};

fn wide(s: &str) -> Vec<u16> {
    s.encode_utf16().collect()
}

fn h2a_metadata() -> c_content_item_metadata {
    let mut m = c_content_item_metadata::default();
    m.general.file_type = 10;
    m.general.size_in_bytes = 0x4000;
    m.general.unique_id = 0x1122_3344_5566_7788;
    m.general.parent_unique_id = 4;
    m.general.root_unique_id = 5;
    m.general.game_id = 6;
    m.general.activity = 1;
    m.general.game_mode = 3;
    m.general.game_engine_type = 4;
    m.general.map_id = 1_000_000;
    m.display.megalo_category_index = -2;
    m.creation_history = s_content_item_history { timestamp: 11, xuid: 22, name: b"Halo2A".to_vec(), is_online: true };
    m.modification_history.timestamp = 33;
    m.modification_history.xuid = 44;
    m.name = wide("Lockout");
    m.description = wide("A forge map");
    m
}

#[test]
fn h2a_metadata_legacy_schema_reads_back_as_written() {
    let m = h2a_metadata();
    let mut w = c_bitstream_writer::new();
    encode_metadata_h2a(&m, &mut w).unwrap();
    // 341 fixed bits with a 3-bit activity, the creation history with the
    // name and its NUL, the modification time and xuid, both wide strings.
    assert_eq!(w.bit_count(), 341 + 128 + 8 * 7 + 1 + 128 + 16 * 8 + 16 * 12);
    let data = w.get_data();
    let mut r = c_bitstream_reader::new(&data);
    let mut back = c_content_item_metadata::default();
    decode_metadata_h2a(&mut back, &mut r).unwrap();
    assert_eq!(back, m);
    assert!(r.bits_remaining() < 8);
}

#[test]
fn h2a_metadata_engine_schema_is_one_bit_shorter_and_reads_back() {
    let m = h2a_metadata();
    let mut legacy = c_bitstream_writer::new();
    encode_metadata_h2a_variant(&m, &mut legacy, H2AMetaSchema::Legacy3BitActivity).unwrap();
    let mut engine = c_bitstream_writer::new();
    encode_metadata_h2a_variant(&m, &mut engine, H2AMetaSchema::EngineActivity2Bit).unwrap();
    assert_eq!(engine.bit_count() + 1, legacy.bit_count());
    let data = engine.get_data();
    let mut r = c_bitstream_reader::new(&data);
    let mut back = c_content_item_metadata::default();
    decode_metadata_h2a_variant(&mut back, &mut r, H2AMetaSchema::EngineActivity2Bit).unwrap();
    assert_eq!(back, m);
}

#[test]
fn h2a_metadata_keeps_what_the_layout_does_not_carry() {
    let m = h2a_metadata();
    let mut w = c_bitstream_writer::new();
    encode_metadata_h2a(&m, &mut w).unwrap();
    let data = w.get_data();
    let mut r = c_bitstream_reader::new(&data);
    let mut back = c_content_item_metadata::default();
    back.film_data = Some(s_content_item_film_metadata { seconds: 12 });
    back.modification_history.name = b"kept".to_vec();
    back.modification_history.is_online = true;
    decode_metadata_h2a(&mut back, &mut r).unwrap();
    assert_eq!(back.film_data, Some(s_content_item_film_metadata { seconds: 12 }));
    assert_eq!(back.modification_history.name, b"kept".to_vec());
    assert!(back.modification_history.is_online);
    assert_eq!(back.modification_history.timestamp, 33);
    assert_eq!(back.name, wide("Lockout"));
}

#[test]
fn h2a_metadata_refuses_an_activity_too_wide_for_the_engine_schema() {
    let mut m = h2a_metadata();
    m.general.activity = 3;
    let mut w = c_bitstream_writer::new();
    assert!(encode_metadata_h2a_variant(&m, &mut w, H2AMetaSchema::EngineActivity2Bit).is_err());
    let mut w = c_bitstream_writer::new();
    assert!(encode_metadata_h2a_variant(&m, &mut w, H2AMetaSchema::Legacy3BitActivity).is_ok());
}

#[test]
fn h2a_metadata_decode_fails_on_short_data() {
    let m = h2a_metadata();
    let mut w = c_bitstream_writer::new();
    encode_metadata_h2a(&m, &mut w).unwrap();
    let data = w.get_data();
    let mut r = c_bitstream_reader::new(&data[..40]);
    let mut back = c_content_item_metadata::default();
    assert!(decode_metadata_h2a(&mut back, &mut r).is_err());
}

fn sample_object() -> s_variant_object_datum {
    let mut o = s_variant_object_datum::default();
    o.flags = 2;
    o.variant_quota_index = 40;
    o.variant_index = 3;
    o.spawn_relative_to = 7;
    o.h4_h2a_position_in_bounds = Some(false);
    o.h4_h2a_position_raw = Some(int32_point3d { x: 1000, y: 2000, z: 4000 });
    o.h4_h2a_axes = Some(H4H2AAxes { is_default: false, forward_angle_raw: 0x12345, up_rotation_raw: 0x1234 });
    o.h4_h2a_extra_quantized_raw = Some(9);
    o.h4_h2a_extra_bool = Some(true);
    o.h4_h2a_mp_props = Some(s_h4_h2a_mp_props {
        boundary: None,
        cached_type: 0x23,
        label_index: 1500,
        tail: s_h4_h2a_mp_props_tail::Empty,
    });
    o
}

#[test]
fn h4_h2a_variant_object_reads_back_as_written() {
    let o = sample_object();
    let counts = int32_point3d { x: 10, y: 11, z: 12 };
    let mut w = c_bitstream_writer::new();
    o.encode_h4_h2a(&mut w, &counts, &int32_point3d::default(), 11).unwrap();
    // exists, 16 head bits, 33 position bits, 35 axes bits, 17 extra bits,
    // then a 2-bit shape, the 6-bit cached type and the 11-bit label.
    assert_eq!(w.bit_count(), 1 + 16 + 33 + 35 + 17 + 2 + 6 + 11);
    let data = w.get_data();
    let mut r = c_bitstream_reader::new(&data);
    let mut back = s_variant_object_datum::default();
    back.decode_h4_h2a(&mut r, &counts, 11).unwrap();
    assert_eq!(back, o);
}

#[test]
fn h4_h2a_default_axes_take_fifteen_bits() {
    let mut o = sample_object();
    o.h4_h2a_axes = Some(H4H2AAxes { is_default: true, forward_angle_raw: 0, up_rotation_raw: 3 });
    // Halo 4 labels are 10 bits wide.
    o.h4_h2a_mp_props = Some(s_h4_h2a_mp_props {
        boundary: None,
        cached_type: 0x23,
        label_index: 700,
        tail: s_h4_h2a_mp_props_tail::Empty,
    });
    let counts = int32_point3d { x: 10, y: 11, z: 12 };
    let mut w = c_bitstream_writer::new();
    o.encode_h4_h2a(&mut w, &counts, &int32_point3d::default(), 10).unwrap();
    assert_eq!(w.bit_count(), 1 + 16 + 33 + 15 + 17 + 2 + 6 + 10);
    let data = w.get_data();
    let mut r = c_bitstream_reader::new(&data);
    let mut back = s_variant_object_datum::default();
    back.decode_h4_h2a(&mut r, &counts, 10).unwrap();
    assert_eq!(back, o);
}

#[test]
fn h4_h2a_absent_object_is_one_clear_bit() {
    let mut o = sample_object();
    o.h4_h2a_mp_props = None;
    let counts = int32_point3d { x: 10, y: 11, z: 12 };
    let mut w = c_bitstream_writer::new();
    o.encode_h4_h2a(&mut w, &counts, &int32_point3d::default(), 11).unwrap();
    assert_eq!(w.bit_count(), 1);
    let data = w.get_data();
    let mut r = c_bitstream_reader::new(&data);
    let prior = sample_object();
    let mut back = prior;
    back.decode_h4_h2a(&mut r, &counts, 11).unwrap();
    assert_eq!(back, prior);
}

#[test]
fn h4_h2a_object_without_a_read_position_writes_the_requantized_one() {
    let mut o = sample_object();
    o.h4_h2a_position_raw = None;
    let counts = int32_point3d { x: 10, y: 11, z: 12 };
    let requantized = int32_point3d { x: 5, y: 6, z: 7 };
    let mut w = c_bitstream_writer::new();
    o.encode_h4_h2a(&mut w, &counts, &requantized, 11).unwrap();
    let data = w.get_data();
    let mut r = c_bitstream_reader::new(&data);
    let mut back = s_variant_object_datum::default();
    back.decode_h4_h2a(&mut r, &counts, 11).unwrap();
    assert_eq!(back.h4_h2a_position_raw, Some(requantized));
}

#[test]
fn h4_h2a_object_refuses_bad_fields() {
    let counts = int32_point3d { x: 10, y: 11, z: 12 };
    let mut o = sample_object();
    o.h4_h2a_position_raw = Some(int32_point3d { x: -1, y: 0, z: 0 });
    let mut w = c_bitstream_writer::new();
    assert!(o.encode_h4_h2a(&mut w, &counts, &int32_point3d::default(), 11).is_err());
    let mut o = sample_object();
    o.h4_h2a_position_raw = Some(int32_point3d { x: 1024, y: 0, z: 0 });
    assert!(o.encode_h4_h2a(&mut c_bitstream_writer::new(), &counts, &int32_point3d::default(), 11).is_err());
    let mut o = sample_object();
    o.variant_quota_index = 255;
    assert!(o.encode_h4_h2a(&mut c_bitstream_writer::new(), &counts, &int32_point3d::default(), 11).is_err());
    let o = sample_object();
    let zero = int32_point3d { x: 0, y: 11, z: 12 };
    assert!(o.encode_h4_h2a(&mut c_bitstream_writer::new(), &zero, &int32_point3d::default(), 11).is_err());
}

#[test]
fn h4_h2a_object_decode_fails_when_bits_run_out() {
    let o = sample_object();
    let counts = int32_point3d { x: 10, y: 11, z: 12 };
    let mut w = c_bitstream_writer::new();
    o.encode_h4_h2a(&mut w, &counts, &int32_point3d::default(), 11).unwrap();
    let data = w.get_data();
    let mut r = c_bitstream_reader::new(&data[..8]);
    let mut back = s_variant_object_datum::default();
    assert!(back.decode_h4_h2a(&mut r, &counts, 11).is_err());
}

#[test]
fn position_round_trips_through_its_raw_point() {
    let counts = int32_point3d { x: 20, y: 20, z: 16 };
    let raw = int32_point3d { x: 0xABCDE, y: 17, z: 0xFFFF };
    let mut w = c_bitstream_writer::new();
    simulation_write_position_with_raw(&mut w, &raw, &counts).unwrap();
    assert_eq!(w.bit_count(), 1 + 20 + 20 + 16);
    let data = w.get_data();
    let mut r = c_bitstream_reader::new(&data);
    assert_eq!(simulation_read_position_capture(&mut r, &counts).unwrap(), raw);
}

#[test]
fn position_outside_bounds_is_refused_both_ways() {
    let counts = int32_point3d { x: 8, y: 8, z: 8 };
    let mut w = c_bitstream_writer::new();
    let e = simulation_write_position(&mut w, false, &int32_point3d::default(), &counts).unwrap_err();
    assert_eq!(w.bit_count(), 1);
    match e {
        BLFLibError::Message(m) => assert_eq!(
            m,
            "Tried to write a position outside of world bounds! Fallback behaviour is only supported in-engine."
        ),
        other => panic!("unexpected error {other:?}"),
    }
    let data = vec![0u8; 4];
    let mut r = c_bitstream_reader::new(&data);
    let e = simulation_read_position_capture(&mut r, &counts).unwrap_err();
    match e {
        BLFLibError::Message(m) => assert_eq!(
            m,
            "Tried to read a position outside of world bounds! Fallback behaviour is only supported in-engine."
        ),
        other => panic!("unexpected error {other:?}"),
    }
}

#[test]
fn h4_h2a_position_is_read_whatever_the_in_bounds_bit() {
    let counts = int32_point3d { x: 4, y: 4, z: 4 };
    // in-bounds bit clear, then 0b0011, 0b0101, 0b1111.
    let mut w = c_bitstream_writer::new();
    w.write_bool(false).unwrap();
    w.write_integer(3, 4).unwrap();
    w.write_integer(5, 4).unwrap();
    w.write_integer(15, 4).unwrap();
    let data = w.get_data();
    let mut r = c_bitstream_reader::new(&data);
    let (in_bounds, q) = h4_h2a_simulation_read_position(&mut r, &counts).unwrap();
    assert!(!in_bounds);
    assert_eq!(q, int32_point3d { x: 3, y: 5, z: 15 });
}

#[test]
fn cache_layout_out_of_range_is_an_error_not_a_panic() {
    let file = vec![0u8; 8];
    let section = |index: usize| MccCacheSection {
        index,
        virtual_address: 0,
        decompressed_size: 1,
        compressed_offset: 4 + index as u32,
        compressed_size: 1,
        compression_type: 0,
    };
    let sections = vec![section(0), section(1), section(2), section(3)];
    let e = try_decompress_mcc_cache_file(&file, 4, &sections, 0).unwrap_err();
    assert_eq!(e, "cache file layout out of range: aligned offset beyond 32 bits or dictionary shift of 32 or more");
    let (out, _) = try_decompress_mcc_cache_file(&file, 4, &sections, 1).unwrap();
    assert_eq!(out.len(), 8);
}

use blf_lib::blam::haloreach_mcc::v_untracked_25_08_16_1352::saved_games::object_properties::s_variant_multiplayer_object_properties_definition;
use blf_lib::blam::haloreach_mcc::v_untracked_25_08_16_1352::saved_games::scenario_map_variant::{
    ReachAxesRaw, e_boundary_shape, s_multiplayer_object_boundary,
    s_variant_multiplayer_object_properties_definition_teleporter_data,
    s_variant_multiplayer_object_properties_definition_weapon_data,
};

fn reach_props() -> s_variant_multiplayer_object_properties_definition {
    let mut p = s_variant_multiplayer_object_properties_definition::default();
    p.boundary = Some(s_multiplayer_object_boundary {
        shape: e_boundary_shape::sphere,
        size: 1234,
        box_length: 0,
        positive_height: 0,
        negative_height: 0,
    });
    p.user_data = 200;
    p.spawn_time = 30;
    p.cached_type = 13;
    p.label_index = -1;
    p.placement_flags = 0x81;
    p.team = 14;
    p.primary_change_color_index = 6;
    p.teleporter_data = Some(s_variant_multiplayer_object_properties_definition_teleporter_data { channel: 31, passability: 4 });
    p
}

#[test]
fn reach_object_properties_read_back_as_written() {
    let p = reach_props();
    let mut w = c_bitstream_writer::new();
    p.encode(&mut w).unwrap();
    // an 18-bit sphere boundary, 44 fixed bits and the teleporter's 10.
    assert_eq!(w.bit_count(), 18 + 44 + 10);
    let data = w.get_data();
    let mut r = c_bitstream_reader::new(&data);
    let mut back = s_variant_multiplayer_object_properties_definition::default();
    back.decode(&mut r).unwrap();
    assert_eq!(back, p);
}

#[test]
fn reach_object_properties_need_their_type_data() {
    let mut p = reach_props();
    p.cached_type = 1;
    let mut w = c_bitstream_writer::new();
    match p.encode(&mut w).unwrap_err() {
        BLFLibError::Message(m) => assert_eq!(m, "Tried to encode a weapon with no weapon data provided."),
        other => panic!("unexpected error {other:?}"),
    }
    p.weapon_data = Some(s_variant_multiplayer_object_properties_definition_weapon_data { spare_clips: 3 });
    let mut w = c_bitstream_writer::new();
    p.encode(&mut w).unwrap();
    // a weapon's properties carry no teleporter data.
    let data = w.get_data();
    let mut r = c_bitstream_reader::new(&data);
    let mut back = s_variant_multiplayer_object_properties_definition::default();
    back.decode(&mut r).unwrap();
    assert_eq!(back.weapon_data, p.weapon_data);
    assert_eq!(back.teleporter_data, None);
}

#[test]
fn reach_object_properties_refuse_out_of_range_fields() {
    let mut p = reach_props();
    p.team = 15;
    assert!(p.encode(&mut c_bitstream_writer::new()).is_err());
    let mut p = reach_props();
    p.primary_change_color_index = 7;
    assert!(p.encode(&mut c_bitstream_writer::new()).is_err());
    let mut p = reach_props();
    p.cached_type = 32;
    assert!(p.encode(&mut c_bitstream_writer::new()).is_err());
}

fn reach_object() -> s_variant_object_datum {
    let mut o = s_variant_object_datum::default();
    o.flags = 1;
    o.variant_quota_index = 12;
    o.variant_index = -1;
    o.spawn_relative_to = -1;
    o.reach_position_raw = Some(int32_point3d { x: 100, y: 200, z: 300 });
    o.reach_axes_raw = Some(ReachAxesRaw { up_is_global: false, raw_up_quantization: 0xABCDE, raw_forward_angle: 0x1FFF });
    o.reach_decoded_exists = Some(true);
    o.multiplayer_game_object_properties = reach_props();
    o
}

#[test]
fn reach_variant_object_reads_back_as_written() {
    let o = reach_object();
    let counts = int32_point3d { x: 12, y: 12, z: 10 };
    let mut w = c_bitstream_writer::new();
    o.encode(&mut w, &counts, &int32_point3d::default(), &ReachAxesRaw::default()).unwrap();
    // exists, 16 head bits, 34 position bits, 35 axes bits, 10 spawn bits, properties.
    assert_eq!(w.bit_count(), 1 + 16 + 34 + 35 + 10 + 72);
    let data = w.get_data();
    let mut r = c_bitstream_reader::new(&data);
    let mut back = s_variant_object_datum::default();
    back.decode(&mut r, &counts).unwrap();
    assert_eq!(back, o);
}

#[test]
fn reach_variant_object_absent_by_flags() {
    let mut o = reach_object();
    o.reach_decoded_exists = None;
    o.flags = 0;
    let mut w = c_bitstream_writer::new();
    o.encode(&mut w, &int32_point3d { x: 1, y: 1, z: 1 }, &int32_point3d::default(), &ReachAxesRaw::default()).unwrap();
    assert_eq!(w.bit_count(), 1);
}

#[test]
fn reach_variant_object_outside_bounds_is_refused() {
    let counts = int32_point3d { x: 4, y: 4, z: 4 };
    let mut w = c_bitstream_writer::new();
    w.write_bool(true).unwrap();
    w.write_integer(0, 16).unwrap();
    w.write_integer(0, 32).unwrap();
    let data = w.get_data();
    let mut r = c_bitstream_reader::new(&data);
    let mut back = s_variant_object_datum::default();
    match back.decode(&mut r, &counts).unwrap_err() {
        BLFLibError::Message(m) => assert_eq!(
            m,
            "Tried to read a position outside of world bounds! Fallback behaviour is only supported in-engine."
        ),
        other => panic!("unexpected error {other:?}"),
    }
}

use blf_lib::blam::haloreach_mcc::v_untracked_25_08_16_1352::saved_games::metadata_h4::{
    decode_metadata_h4, decode_metadata_h4_variant, encode_metadata_h4, encode_metadata_h4_variant, H4MetaSchema,
};

fn h4_metadata() -> c_content_item_metadata {
    let mut m = h2a_metadata();
    m.creation_history.name = b"Halo4Creator".to_vec();
    m.modification_history = s_content_item_history { timestamp: 33, xuid: 44, name: b"Editor".to_vec(), is_online: true };
    m.name = wide("This is Halo 4");
    m.description = wide("This is Halo 4");
    m
}

#[test]
fn h4_metadata_fixed_fifteen_pads_names_and_drops_the_modifier_bit() {
    let m = h4_metadata();
    let mut w = c_bitstream_writer::new();
    encode_metadata_h4(&m, &mut w).unwrap();
    // the name field starts at bit 838 after 341 + 128 + 120 + 1 + 128 + 120 bits.
    assert_eq!(w.bit_count(), 838 + 16 * 15 + 16 * 15);
    let data = w.get_data();
    let mut r = c_bitstream_reader::new(&data);
    let mut back = c_content_item_metadata::default();
    decode_metadata_h4(&mut back, &mut r).unwrap();
    let mut expected = m.clone();
    expected.creation_history.name = b"Halo4Creator\0\0\0".to_vec();
    expected.modification_history.name = b"Editor\0\0\0\0\0\0\0\0\0".to_vec();
    expected.modification_history.is_online = false;
    assert_eq!(back, expected);
}

#[test]
fn h4_metadata_nul_bounded_schemas_read_back_as_written() {
    let m = h4_metadata();
    for schema in [H4MetaSchema::NulBoundedSixteen, H4MetaSchema::EngineActivity2Bit] {
        let mut w = c_bitstream_writer::new();
        encode_metadata_h4_variant(&m, &mut w, schema).unwrap();
        let activity = if schema == H4MetaSchema::EngineActivity2Bit { 2 } else { 3 };
        assert_eq!(w.bit_count(), 338 + activity + 128 + 8 * 13 + 1 + 128 + 8 * 7 + 1 + 16 * 15 + 16 * 15);
        let data = w.get_data();
        let mut r = c_bitstream_reader::new(&data);
        let mut back = c_content_item_metadata::default();
        decode_metadata_h4_variant(&mut back, &mut r, schema).unwrap();
        assert_eq!(back, m);
    }
}

#[test]
fn h4_metadata_nul_bounded_names_are_at_most_sixteen_bytes() {
    let mut m = h4_metadata();
    m.creation_history.name = b"seventeen bytes!!".to_vec();
    let mut w = c_bitstream_writer::new();
    assert!(encode_metadata_h4_variant(&m, &mut w, H4MetaSchema::NulBoundedSixteen).is_err());
    let mut w = c_bitstream_writer::new();
    assert!(encode_metadata_h4_variant(&m, &mut w, H4MetaSchema::FixedFifteen).is_ok());
}
