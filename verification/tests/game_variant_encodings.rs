use blf_lib::io::bitstream::{c_bitstream_reader, c_bitstream_writer};
use blf_lib::blam::haloreach_mcc::v_untracked_25_08_16_1352::game::game_engine_survival::{
    c_ai_traits, s_survival_round_properties, s_survival_wave_properties,
};
use blf_lib::blam::haloreach_mcc::v_untracked_25_08_16_1352::saved_games::scenario_map_variant::{
    s_variant_quota, s_multiplayer_object_boundary, e_boundary_shape, s_h4_h2a_mp_props, s_h4_h2a_mp_props_tail,
    DefaultSubcase,
};
use blf_lib::blam::haloreach::v12065_11_08_24_1738_tu1actual::game::game_engine_loadout_traits::{
    c_loadout_traits, c_loadout_palette_traits, c_game_engine_loadout_traits,
};
use blf_lib::blam::haloreach::v09730_10_04_09_1309_omaha_delta::game::game_engine_loadout_traits::s_loadout_palette_unknown_struct;

#[test]
fn ai_traits_read_back_as_written() {
    let t = c_ai_traits {
        m_vision: 5,
        m_sound: 3,
        m_luck: 7,
        m_weapon: 1,
        m_grenade: 2,
        m_equipment_drop_setting: 0,
        m_assasination_immunity_setting: 1,
        m_headshot_immunity_setting: 2,
        m_damage_resistance: 15,
        m_damage_modifier: 9,
    };
    let mut w = c_bitstream_writer::new();
    t.encode(&mut w).unwrap();
    assert_eq!(w.bit_count(), 26);
    let data = w.get_data();
    let mut back = c_ai_traits::default();
    back.decode(&mut c_bitstream_reader::new(&data)).unwrap();
    assert_eq!(back, t);
}

#[test]
fn ai_traits_field_too_wide_is_refused() {
    let mut t = c_ai_traits::default();
    t.m_sound = 4;
    assert!(t.encode(&mut c_bitstream_writer::new()).is_err());
}

#[test]
fn survival_round_reads_back_as_written() {
    let mut wave = s_survival_wave_properties::default();
    wave.m_wave_flags = 1;
    wave.m_wave_squad_count = 12;
    for i in 0..12 {
        wave.m_squads[i] = (i * 20) as u8;
    }
    let round = s_survival_round_properties {
        m_skull_flags: 0x3FFFF,
        m_initial_wave_options: wave,
        m_main_wave_options: s_survival_wave_properties::default(),
        m_boss_wave_options: wave,
    };
    let mut w = c_bitstream_writer::new();
    round.encode(&mut w).unwrap();
    assert_eq!(w.bit_count(), 18 + 3 * 102);
    let data = w.get_data();
    let mut back = s_survival_round_properties::default();
    back.decode(&mut c_bitstream_reader::new(&data)).unwrap();
    assert_eq!(back, round);
}

#[test]
fn quota_reach_encoding_keeps_the_low_byte() {
    let q = s_variant_quota { minimum_count: 0x1FF, maximum_count: 3, placed_on_map: 256 };
    let mut w = c_bitstream_writer::new();
    q.encode(&mut w).unwrap();
    let data = w.get_data();
    assert_eq!(data, vec![0xFF, 0x03, 0x00]);
    let mut back = s_variant_quota::default();
    back.decode(&mut c_bitstream_reader::new(&data)).unwrap();
    assert_eq!(back, s_variant_quota { minimum_count: 0xFF, maximum_count: 3, placed_on_map: 0 });
}

#[test]
fn quota_h2a_encoding_uses_ten_bits() {
    let q = s_variant_quota { minimum_count: 1023, maximum_count: 512, placed_on_map: 1 };
    let mut w = c_bitstream_writer::new();
    q.encode_h2a(&mut w).unwrap();
    assert_eq!(w.bit_count(), 30);
    let data = w.get_data();
    let mut back = s_variant_quota::default();
    back.decode_h2a(&mut c_bitstream_reader::new(&data)).unwrap();
    assert_eq!(back, q);
    let too_big = s_variant_quota { minimum_count: 1024, maximum_count: 0, placed_on_map: 0 };
    assert!(too_big.encode_h2a(&mut c_bitstream_writer::new()).is_err());
}

#[test]
fn boundary_writes_only_the_dimensions_of_its_shape() {
    let b = s_multiplayer_object_boundary {
        shape: e_boundary_shape::cylinder,
        size: 100,
        box_length: 0,
        positive_height: 65535,
        negative_height: 5,
    };
    let mut w = c_bitstream_writer::new();
    b.encode(&mut w).unwrap();
    assert_eq!(w.bit_count(), 2 + 3 * 16);
    let data = w.get_data();
    let back = s_multiplayer_object_boundary::decode(&mut c_bitstream_reader::new(&data)).unwrap();
    assert_eq!(back, Some(b));
    let mut unused = c_bitstream_writer::new();
    s_multiplayer_object_boundary::default().encode(&mut unused).unwrap();
    assert_eq!(unused.bit_count(), 2);
    assert_eq!(s_multiplayer_object_boundary::decode(&mut c_bitstream_reader::new(&[0])).unwrap(), None);
}

#[test]
fn h4_h2a_object_properties_read_back_as_written() {
    let mut user_data_block = [0i32; 4];
    user_data_block[0] = -1;
    user_data_block[3] = 254;
    let props = s_h4_h2a_mp_props {
        boundary: Some(s_multiplayer_object_boundary {
            shape: e_boundary_shape::sphere,
            size: 1000,
            box_length: 0,
            positive_height: 0,
            negative_height: 0,
        }),
        cached_type: 20,
        label_index: 2000,
        tail: s_h4_h2a_mp_props_tail::Default {
            primary_change_color: -1,
            spawn_time: 30,
            team: 6,
            flags_lo: 0x81,
            flags_hi_signed: -128,
            user_data_block,
            sub: DefaultSubcase::LocationName { location_name_index: 254 },
        },
    };
    let mut w = c_bitstream_writer::new();
    props.encode(&mut w, 11).unwrap();
    assert_eq!(w.bit_count(), 18 + 6 + 11 + 63 + 8);
    // the cached type follows the 2-bit shape and one 16-bit dimension
    let data_bits = w.get_data();
    let mut r = c_bitstream_reader::new(&data_bits);
    assert_eq!(r.read_integer("shape", 2).unwrap(), 1);
    assert_eq!(r.read_integer("size", 16).unwrap(), 1000);
    assert_eq!(r.read_integer("cached-type", 6).unwrap(), 20);
    let data = w.get_data();
    let back = s_h4_h2a_mp_props::decode(&mut c_bitstream_reader::new(&data), 11).unwrap();
    assert_eq!(back, props);
}

#[test]
fn h4_h2a_teleporter_properties_read_back_as_written() {
    let props = s_h4_h2a_mp_props {
        boundary: None,
        cached_type: 0x22,
        label_index: 1023,
        tail: s_h4_h2a_mp_props_tail::Type22Teleporter2 { teleporter_field_bytes: [1, 2, 3, 4, 5, 6, 7, 8, 255] },
    };
    let mut w = c_bitstream_writer::new();
    props.encode(&mut w, 10).unwrap();
    assert_eq!(w.bit_count(), 2 + 6 + 10 + 72);
    let data = w.get_data();
    let back = s_h4_h2a_mp_props::decode(&mut c_bitstream_reader::new(&data), 10).unwrap();
    assert_eq!(back, props);
}

#[test]
fn h4_h2a_properties_with_a_team_out_of_range_are_refused() {
    let props = s_h4_h2a_mp_props {
        boundary: None,
        cached_type: 2,
        label_index: 0,
        tail: s_h4_h2a_mp_props_tail::Default {
            primary_change_color: 0,
            spawn_time: 0,
            team: 7,
            flags_lo: 0,
            flags_hi_signed: 0,
            user_data_block: [0; 4],
            sub: DefaultSubcase::QuotaOther { min_count: 1, max_count: 2 },
        },
    };
    assert!(props.encode(&mut c_bitstream_writer::new(), 10).is_err());
}

#[test]
fn loadout_traits_read_back_as_written() {
    let l = c_loadout_traits {
        m_visible: true,
        m_name: -1,
        m_initial_primary_weapon_absolute_index: -3,
        m_initial_secondary_weapon_absolute_index: 17,
        m_initial_equipment_absolute_index: 127,
        m_initial_grenade_count_setting: 15,
    };
    let mut palette = c_loadout_palette_traits::default();
    palette.m_loadouts[2] = l;
    let mut traits = c_game_engine_loadout_traits::default();
    traits.m_flags = 3;
    traits.m_loadout_palettes[5] = palette;
    let mut w = c_bitstream_writer::new();
    traits.encode(&mut w).unwrap();
    assert_eq!(w.bit_count(), 2 + 6 * 5 * 36);
    let data = w.get_data();
    let mut back = c_game_engine_loadout_traits::default();
    back.decode(&mut c_bitstream_reader::new(&data)).unwrap();
    assert_eq!(back, traits);
}

#[test]
fn loadout_name_index_must_fit() {
    let mut l = c_loadout_traits::default();
    l.m_name = 127;
    assert!(l.encode(&mut c_bitstream_writer::new()).is_err());
}

#[test]
fn loadout_palette_indices_append_on_read() {
    let p = s_loadout_palette_unknown_struct { m_loadouts: vec![4, 9, 250] };
    let mut w = c_bitstream_writer::new();
    p.encode(&mut w).unwrap();
    assert_eq!(w.bit_count(), 3 + 3 * 8);
    let data = w.get_data();
    let mut back = s_loadout_palette_unknown_struct { m_loadouts: vec![1] };
    back.decode(&mut c_bitstream_reader::new(&data)).unwrap();
    assert_eq!(back.m_loadouts, vec![1, 4, 9, 250]);
    let too_many = s_loadout_palette_unknown_struct { m_loadouts: vec![0; 8] };
    assert!(too_many.encode(&mut c_bitstream_writer::new()).is_err());
}
