use std::collections::HashMap;
use blf_lib::blam::haloreach_mcc::v_untracked_25_08_16_1352::forge_stringids::forge_halo_stringid_table;
use blf_lib::blam::haloreach_mcc::v_untracked_25_08_16_1352::friendly_tags::forge_halo_tag_table;

/// Lines in the shape of the forge_halo stringID table, for the stringIDs
/// that the palette's vehicle variants use.
fn stringids() -> String {
    [
    "{\"sid\":854,\"name\":\"banshee\"}\n",
    "{\"sid\":1724,\"name\":\"warthog_default\"}\n",
    "{\"sid\":1725,\"name\":\"warthog_gauss\"}\n",
    "{\"sid\":1726,\"name\":\"warthog_troop\"}\n",
    "{\"sid\":1727,\"name\":\"warthog_rocket\"}\n",
    ].concat()
}

/// Lines in the shape of the forge_halo tag table.
fn tags() -> String {
    [
    "{\"idx\":3913483933,\"grp\":\"vehi\",\"name\":\"objects\\\\vehicles\\\\human\\\\warthog\\\\warthog\"}\n",
    "{\"idx\":3949922366,\"grp\":\"vehi\",\"name\":\"objects\\\\vehicles\\\\human\\\\warthog\\\\weapons\\\\warthog_gauss\\\\warthog_gauss\"}\n",
    "{\"idx\":3983149503,\"grp\":\"vehi\",\"name\":\"objects\\\\vehicles\\\\covenant\\\\banshee\\\\banshee\"}\n",
    "{\"idx\":3983149504,\"grp\":\"weap\",\"name\":\"objects\\\\weapons\\\\rifle\\\\assault_rifle\\\\assault_rifle\"}\n",
    ].concat()
}

fn tag_map(jsonl: &str) -> HashMap<(u32, [u8; 4]), String> {
    forge_halo_tag_table(jsonl).into_iter().collect()
}

#[test]
fn warthog_variant_ids_resolve() {
    let table = forge_halo_stringid_table(&stringids());
    assert_eq!(table.get(&0x356).map(String::as_str), Some("banshee"));
    assert_eq!(table.get(&0x6BC).map(String::as_str), Some("warthog_default"));
    assert_eq!(table.get(&0x6BD).map(String::as_str), Some("warthog_gauss"));
    assert_eq!(table.get(&0x6BF).map(String::as_str), Some("warthog_rocket"));
}

#[test]
fn sanity_warthog_gauss_banshee_resolve() {
    let table = tag_map(&tags());
    assert_eq!(
        table.get(&(0xE943069D, *b"vehi")).map(String::as_str),
        Some("objects\\vehicles\\human\\warthog\\warthog"),
    );
    assert_eq!(
        table.get(&(0xEB6F083E, *b"vehi")).map(String::as_str),
        Some("objects\\vehicles\\human\\warthog\\weapons\\warthog_gauss\\warthog_gauss"),
    );
    assert_eq!(
        table.get(&(0xED6A09BF, *b"vehi")).map(String::as_str),
        Some("objects\\vehicles\\covenant\\banshee\\banshee"),
    );
}

#[test]
fn table_has_thousands_of_entries() {
    let mut text = String::new();
    for i in 0..15_200u32 {
        text.push_str(&format!("{{\"idx\":{},\"grp\":\"bipd\",\"name\":\"objects\\\\tag_{}\"}}\n", 0xE000_0000u32 + i, i));
    }
    let table = forge_halo_tag_table(&text);
    assert!(table.len() > 15_000, "expected 15k+ tags, got {}", table.len());
}

#[test]
fn stringid_table_later_line_wins_and_blank_lines_are_skipped() {
    let text = "{\"sid\":7,\"name\":\"first\"}\n   \n\t\n{\"sid\":7,\"name\":\"second\"}";
    let table = forge_halo_stringid_table(text);
    assert_eq!(table.len(), 1);
    assert_eq!(table.get(&7).map(String::as_str), Some("second"));
}

#[test]
fn stringid_table_unparsed_id_is_zero_and_unnamed_line_is_dropped() {
    let text = "{\"sid\": 12,\"name\":\"spaced\"}\n{\"sid\":13,\"title\":\"none\"}\n{\"sid\":14,\"name\":\"open\n";
    let table = forge_halo_stringid_table(text);
    assert_eq!(table.len(), 1);
    assert_eq!(table.get(&0).map(String::as_str), Some("spaced"));
}

#[test]
fn stringid_table_unescapes_and_handles_crlf() {
    let text = "{\"sid\":1,\"name\":\"a\\\\b\"}\r\n{\"sid\":2,\"name\":\"say \\\"hi\\\"\"}\r\n";
    let table = forge_halo_stringid_table(text);
    assert_eq!(table.get(&1).map(String::as_str), Some("a\\b"));
    assert_eq!(table.get(&2).map(String::as_str), Some("say \"hi\""));
}

#[test]
fn tag_table_keeps_one_entry_per_key() {
    let text = [
        "{\"idx\":5,\"grp\":\"vehi\",\"name\":\"old\"}\n",
        "{\"idx\":5,\"grp\":\"weap\",\"name\":\"other\"}\n",
        "{\"idx\":5,\"grp\":\"vehi\",\"name\":\"new\"}\n",
    ].concat();
    let entries = forge_halo_tag_table(&text);
    assert_eq!(entries.len(), 2);
    let table: HashMap<(u32, [u8; 4]), String> = entries.into_iter().collect();
    assert_eq!(table.get(&(5, *b"vehi")).map(String::as_str), Some("new"));
    assert_eq!(table.get(&(5, *b"weap")).map(String::as_str), Some("other"));
}

#[test]
fn tag_table_group_code_must_be_four_bytes() {
    let text = [
        "{\"idx\":1,\"grp\":\"veh\",\"name\":\"short\"}\n",
        "{\"idx\":2,\"grp\":\"vehic\",\"name\":\"long\"}\n",
        "{\"idx\":3,\"grp\":\"\u{e9}ab\",\"name\":\"two byte letter\"}\n",
        "{\"idx\":4,\"name\":\"no group\",\"grp\":\"vehi\"}\n",
        "{\"idx\":99999999999,\"grp\":\"vehi\",\"name\":\"too large\"}\n",
    ].concat();
    let table = tag_map(&text);
    assert_eq!(table.len(), 2);
    assert_eq!(table.get(&(4, *b"vehi")).map(String::as_str), Some("no group\",\"grp\":\"vehi"));
    let key = (3, [0xC3, 0xA9, b'a', b'b']);
    assert_eq!(table.get(&key).map(String::as_str), Some("two byte letter"));
}
