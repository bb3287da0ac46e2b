use blf_lib::io::bitstream::{c_bitstream_reader, c_bitstream_writer};
use blf_lib::result::BLFLibError;
use blf_lib::blam::haloreach_mcc::v_untracked_25_08_16_1352::saved_games::saved_game_files::{
    c_content_item_metadata, s_content_item_campaign_metadata, s_content_item_film_metadata, s_content_item_history,
    s_content_item_matchmaking_metadata,
};
use blf_lib::blam::haloreach::v09730_10_04_09_1309_omaha_delta::saved_games::saved_game_files::{
    s_content_item_metadata, s_content_item_metadata_firefight_data,
};

fn wide(s: &str) -> Vec<u16> {
    s.encode_utf16().collect()
}

fn sample_metadata() -> c_content_item_metadata {
    let mut m = c_content_item_metadata::default();
    m.general.file_type = 3;
    m.general.size_in_bytes = 0xE000;
    m.general.unique_id = 0x0123_4567_89AB_CDEF;
    m.general.parent_unique_id = 1;
    m.general.root_unique_id = 2;
    m.general.game_id = 3;
    m.general.activity = 2;
    m.general.game_mode = 1;
    m.general.game_engine_type = 5;
    m.general.map_id = -1;
    m.display.megalo_category_index = -3;
    m.creation_history = s_content_item_history { timestamp: 100, xuid: 0x0009_0000_DEAD_BEEF, name: b"Creator".to_vec(), is_online: true };
    m.modification_history = s_content_item_history { timestamp: 200, xuid: 7, name: b"0123456789abcdef".to_vec(), is_online: false };
    m.name = wide("This is Reach");
    m.description = wide("A film");
    m.film_data = Some(s_content_item_film_metadata { seconds: 95 });
    m.matchmaking_data = Some(s_content_item_matchmaking_metadata { hopper_identifier: 1000 });
    m.campaign_data = Some(s_content_item_campaign_metadata {
        campaign_id: 4,
        campaign_difficulty: 3,
        campaign_metagame_scoring: 1,
        campaign_insertion_point: 9,
        campaign_primary_skulls: 0x7FFF,
        campaign_secondary_skulls: 12,
    });
    m
}

#[test]
fn content_item_metadata_reads_back_as_written() {
    let m = sample_metadata();
    let mut w = c_bitstream_writer::new();
    m.encode(&mut w).unwrap();
    // 341 fixed bits, two histories, two wide strings, then film (32),
    // matchmaking (16) and campaign (52) data.
    let expected_bits = 341 + (128 + 8 * 8 + 1) + (128 + 8 * 16 + 1) + 16 * 14 + 16 * 7 + 32 + 16 + 52;
    assert_eq!(w.bit_count(), expected_bits);
    let data = w.get_data();
    let mut r = c_bitstream_reader::new(&data);
    let mut back = c_content_item_metadata::default();
    back.decode(&mut r).unwrap();
    assert_eq!(back, m);
    assert!(r.bits_remaining() < 8);
}

#[test]
fn content_item_metadata_without_its_film_data_is_refused() {
    let mut m = sample_metadata();
    m.film_data = None;
    let mut w = c_bitstream_writer::new();
    match m.encode(&mut w) {
        Err(BLFLibError::Message(s)) => assert_eq!(s, "Tried to serialize film with no film data."),
        _ => panic!("expected a missing-data message"),
    }
}

#[test]
fn content_item_metadata_with_a_long_creator_name_is_refused() {
    let mut m = sample_metadata();
    m.creation_history.name = b"seventeen chars!!".to_vec();
    let mut w = c_bitstream_writer::new();
    assert!(m.encode(&mut w).is_err());
}

#[test]
fn content_item_metadata_decode_keeps_extra_data_not_called_for() {
    let mut m = sample_metadata();
    m.general.file_type = 1;
    m.general.activity = 0;
    m.general.game_mode = 0;
    let mut w = c_bitstream_writer::new();
    m.encode(&mut w).unwrap();
    let data = w.get_data();
    let mut r = c_bitstream_reader::new(&data);
    let mut back = c_content_item_metadata::default();
    back.film_data = Some(s_content_item_film_metadata { seconds: 1 });
    back.decode(&mut r).unwrap();
    assert_eq!(back.film_data, Some(s_content_item_film_metadata { seconds: 1 }));
    assert_eq!(back.campaign_data, None);
    assert_eq!(back.name, m.name);
}

#[test]
fn content_item_metadata_truncated_fails() {
    let m = sample_metadata();
    let mut w = c_bitstream_writer::new();
    m.encode(&mut w).unwrap();
    let data = w.get_data();
    let mut r = c_bitstream_reader::new(&data[..40]);
    let mut back = c_content_item_metadata::default();
    assert!(back.decode(&mut r).is_err());
}

#[test]
fn omaha_metadata_reads_back_as_written() {
    let mut m = s_content_item_metadata::default();
    m.file_type = 6;
    m.size_in_bytes = 512;
    m.activity = -1;
    m.game_mode = 2;
    m.map_id = 1000;
    m.unknown1 = 42;
    m.creator_name = b"Bungie".to_vec();
    m.creator_xuid_is_online = true;
    m.modifier_name = b"Me".to_vec();
    m.name = wide("Slayer");
    m.description = wide("Kill everyone");
    m.firefight_data = Some(s_content_item_metadata_firefight_data { firefight_difficulty: 2, firefight_skull_flags: 0xFFFF_FFFF });
    let mut w = c_bitstream_writer::new();
    m.encode(&mut w).unwrap();
    let data = w.get_data();
    let mut r = c_bitstream_reader::new(&data);
    let mut back = s_content_item_metadata::default();
    back.decode(&mut r).unwrap();
    assert_eq!(back, m);
}

#[test]
fn omaha_metadata_needs_firefight_data_for_firefight() {
    let mut m = s_content_item_metadata::default();
    m.game_mode = 2;
    let mut w = c_bitstream_writer::new();
    match m.encode(&mut w) {
        Err(BLFLibError::Message(s)) => assert_eq!(s, "Tried to serialize firefight file with no firefight data."),
        _ => panic!("expected a missing-data message"),
    }
}
