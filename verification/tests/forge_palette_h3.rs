use blf_lib::blam::halo3::v12070_08_09_05_2031_halo3_ship::forge_palette::{
    H3PaletteRecord, h3_lookup, h3_palette_kind_to_jsonl_pal, h3_split_object_definition_index,
    h3_resolve_object_definition_index, h3_resolve_quota_index, halo3_palettes_by_map,
};

fn record(map: &str, pal: u32, name: &str, entry: u32, class: &str, datum: u32, tag: &str) -> H3PaletteRecord {
    H3PaletteRecord {
        map: map.to_string(),
        pal,
        name: name.to_string(),
        entry,
        class: class.to_string(),
        datum,
        tag: tag.to_string(),
    }
}

/// The sandbox slots the scenarios below speak of, with a few neighbours and
/// a record of another map.
fn fixture() -> Vec<H3PaletteRecord> {
    vec![
        record("sandbox", 0, "Scenery", 0, "scen", 0xE2190000, "objects\\multi\\spawning\\respawn_point"),
        record("sandbox", 0, "Scenery", 1, "scen", 0xE21A0001, "objects\\multi\\spawning\\respawn_zone"),
        record("sandbox", 0, "Scenery", 2, "scen", 0xE21B0002, "objects\\multi\\oddball\\oddball_initial_spawn_point"),
        record("sandbox", 0, "Scenery", 3, "scen", 0xE21C0003, "objects\\multi\\ctf\\ctf_flag_spawn_point"),
        record("sandbox", 12, "MapVariantVehicle", 0, "vehi", 0xE3000004, "objects\\vehicles\\mongoose\\mongoose"),
        record("sandbox", 25, "Crates", 0, "bloc", 0xE3100005, "objects\\multi\\crates\\crate_packing"),
        record("high_ground", 0, "Scenery", 2, "scen", 0xE0000006, "objects\\multi\\spawning\\respawn_point"),
    ]
}

#[test]
fn sandbox_resolves_known_items() {
    let records = fixture();
    let r = h3_lookup(&records, "sandbox", 0, 2).expect("sandbox pal=0 entry=2 should exist");
    assert_eq!(r.class, "scen");
    assert!(r.tag.contains("spawn_point"), "expected spawn_point tag, got {}", r.tag);
}

#[test]
fn kind_to_pal_full_table() {
    assert_eq!(h3_palette_kind_to_jsonl_pal(0), None, "kind 0 = null/unused");
    assert_eq!(h3_palette_kind_to_jsonl_pal(13), None, "kind 13 = out of range");
    assert_eq!(h3_palette_kind_to_jsonl_pal(0xFFFF), None);
    let expect = [
        (1, 12),
        (2, 13),
        (3, 14),
        (4, 15),
        (5, 16),
        (6, 17),
        (7, 18),
        (8, 0),
        (9, 2),
        (10, 4),
        (11, 3),
        (12, 25),
    ];
    for (kind, pal) in expect {
        assert_eq!(h3_palette_kind_to_jsonl_pal(kind), Some(pal), "kind={} should map to pal={}", kind, pal);
    }
}

#[test]
fn split_object_definition_index() {
    assert_eq!(h3_split_object_definition_index(0x00080002), (8, 2));
    assert_eq!(h3_split_object_definition_index(0x000C0000), (12, 0));
    assert_eq!(h3_split_object_definition_index(0x0008FFFF), (8, -1));
    assert_eq!(h3_split_object_definition_index(0x00000005), (0, 5));
}

#[test]
fn sandbox_wire_quota_resolves() {
    let records = fixture();
    let r = h3_resolve_object_definition_index(&records, "sandbox", 0x00080002)
        .expect("sandbox wire-quota 0x00080002 should resolve");
    assert_eq!(r.pal, 0, "Scenery jsonl pal=0");
    assert_eq!(r.entry, 2);
    assert_eq!(r.class, "scen");
    assert!(
        r.tag.contains("oddball_initial_spawn_point"),
        "expected oddball_initial_spawn_point, got {}",
        r.tag
    );
}

#[test]
fn sandbox_mapvariant_vehicle_entry0_resolves() {
    let records = fixture();
    let r = h3_resolve_object_definition_index(&records, "sandbox", 0x00010000)
        .expect("sandbox kind=1 entry=0 should resolve");
    assert_eq!(r.pal, 12, "MapVariantVehicle jsonl pal=12");
    assert_eq!(r.entry, 0);
    assert_eq!(r.class, "vehi");
    assert!(!r.tag.is_empty(), "tag should be resolved");
}

#[test]
fn invalid_wire_quotas_yield_none() {
    let records = fixture();
    assert!(h3_resolve_object_definition_index(&records, "sandbox", 0xFFFFFFFF).is_none());
    assert!(h3_resolve_object_definition_index(&records, "sandbox", 0x00000000).is_none(), "kind=0 -> null");
    assert!(h3_resolve_object_definition_index(&records, "sandbox", 0x000D0000).is_none(), "kind=13 -> oob");
    assert!(h3_resolve_object_definition_index(&records, "sandbox", 0x0008FFFF).is_none(), "entry=-1 -> reject");
}

#[test]
fn two_level_quota_index_resolves() {
    let records = fixture();
    let quotas: Vec<u32> = vec![
        0x00080000,
        0x00080001,
        0x00080003,
        0x000C0000,
        0x00010000,
        0xFFFFFFFF,
        0x00000000,
        0x00080002,
    ];
    let r = h3_resolve_quota_index(&records, "sandbox", 7, &quotas)
        .expect("variant_quota_index=7 should resolve via two-level lookup");
    assert!(r.tag.contains("oddball_initial_spawn_point"), "got {}", r.tag);
    assert!(h3_resolve_quota_index(&records, "sandbox", -1, &quotas).is_none());
    assert!(h3_resolve_quota_index(&records, "sandbox", 99, &quotas).is_none());
    assert!(h3_resolve_quota_index(&records, "sandbox", 5, &quotas).is_none());
    assert!(h3_resolve_quota_index(&records, "sandbox", 6, &quotas).is_none());
}

#[test]
fn crates_kind_resolves_to_palette_25() {
    let records = fixture();
    let r = h3_resolve_object_definition_index(&records, "sandbox", 0x000C0000).expect("crates entry 0");
    assert_eq!(r.pal, 25);
    assert_eq!(r.class, "bloc");
}

#[test]
fn lookup_is_per_map() {
    let records = fixture();
    let r = h3_lookup(&records, "high_ground", 0, 2).expect("high_ground pal=0 entry=2");
    assert!(r.tag.contains("respawn_point"));
    assert!(h3_lookup(&records, "high_ground", 0, 1).is_none());
    assert!(h3_lookup(&records, "nonexistent_map", 0, 2).is_none());
}

#[test]
fn palettes_group_by_map_in_first_appearance_order() {
    let records = fixture();
    let groups = halo3_palettes_by_map(&records);
    assert_eq!(groups.len(), 2);
    assert_eq!(groups[0].0, "sandbox");
    assert_eq!(groups[0].1.len(), 6);
    assert_eq!(groups[1].0, "high_ground");
    assert_eq!(groups[1].1.len(), 1);
}
