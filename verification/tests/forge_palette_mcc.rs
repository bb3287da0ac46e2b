use std::collections::HashMap;
use blf_lib::blam::haloreach_mcc::v_untracked_25_08_16_1352::friendly_tags::forge_halo_tag_table;
use blf_lib::blam::haloreach_mcc::v_untracked_25_08_16_1352::forge_palette::{
    PaletteRecord, forge_halo_quota_entries, resolve_forge_halo_quota,
};
use blf_lib::blam::haloreach_mcc::v_untracked_25_08_16_1352::forge_palette_h2a::{
    H2APaletteRecord, halo2a_palettes_by_map, halo2a_quota_entries_by_map, h2a_lookup, resolve_h2a_quota,
};
use blf_lib::blam::haloreach_mcc::v_untracked_25_08_16_1352::forge_palette_h4::{
    H4PaletteRecord, halo4_quota_entries_by_map, h4_lookup, resolve_halo4_quota,
};

// ---------------------------------------------------------------- Reach

fn reach_record(cat: u32, entry: u32, variant: u32, datum_index: u32) -> PaletteRecord {
    PaletteRecord {
        cat,
        cat_name_id: 0x1000 + cat,
        entry,
        variant,
        variant_name_stringid: 0x2000 + 16 * entry + variant,
        tag_class: "vehi".to_string(),
        datum_index,
        max_allowed: 0,
    }
}

/// A forge_halo-shaped palette: 145 entries over five categories (31 before
/// the vehicles), with a second variant of vehicle entry 7, and the tag table
/// read from JSON lines naming the tags the scenarios below speak of.
fn reach_fixture() -> (Vec<PaletteRecord>, HashMap<(u32, [u8; 4]), String>) {
    let counts = [12u32, 10, 9, 16, 98];
    let mut palette = Vec::new();
    let mut jsonl = String::new();
    let mut datum = 0xE000_0000u32;
    for (cat, count) in counts.iter().enumerate() {
        for entry in 0..*count {
            palette.push(reach_record(cat as u32, entry, 0, datum));
            let name = match (cat, entry) {
                (3, 0) => "objects\\vehicles\\covenant\\banshee\\banshee".to_string(),
                (3, 7) => "objects\\vehicles\\human\\warthog\\warthog".to_string(),
                (4, 7) => "objects\\multi\\generic\\initial_spawn_point".to_string(),
                _ => format!("objects\\levels\\forge_halo\\item_{}_{}", cat, entry),
            };
            jsonl.push_str(&format!("{{\"idx\":{},\"grp\":\"vehi\",\"name\":\"{}\"}}\n", datum, name.replace('\\', "\\\\")));
            datum += 1;
            if cat == 3 && entry == 7 {
                palette.push(reach_record(3, 7, 1, datum - 1));
            }
        }
    }
    let tags = forge_halo_tag_table(&jsonl).into_iter().collect();
    (palette, tags)
}

#[test]
fn user_known_mvar_items_resolve_via_palette_to_friendly_names() {
    let (palette, tags) = reach_fixture();
    let banshee = palette
        .iter()
        .find(|r| r.cat == 3 && r.entry == 0 && r.variant == 0)
        .expect("banshee palette entry not found");
    let warthog = palette
        .iter()
        .find(|r| r.cat == 3 && r.entry == 7 && r.variant == 0)
        .expect("warthog default palette entry not found");
    let warthog_gauss_slot = palette
        .iter()
        .find(|r| r.cat == 3 && r.entry == 7 && r.variant == 1)
        .expect("warthog gauss palette entry not found");

    let banshee_name = tags
        .get(&(banshee.datum_index, [b'v', b'e', b'h', b'i']))
        .expect("banshee datum should resolve");
    let warthog_name = tags
        .get(&(warthog.datum_index, [b'v', b'e', b'h', b'i']))
        .expect("warthog datum should resolve");
    let warthog_gauss_base = tags
        .get(&(warthog_gauss_slot.datum_index, [b'v', b'e', b'h', b'i']))
        .expect("warthog gauss base datum should resolve");

    assert_eq!(banshee_name, "objects\\vehicles\\covenant\\banshee\\banshee");
    assert_eq!(warthog_name, "objects\\vehicles\\human\\warthog\\warthog");
    assert_eq!(warthog_gauss_base, "objects\\vehicles\\human\\warthog\\warthog");
    assert_ne!(
        warthog.variant_name_stringid, warthog_gauss_slot.variant_name_stringid,
        "warthog and warthog_gauss should differ in their sub-variant stringID"
    );
}

#[test]
fn forge_halo_entry_level_indexing_matches_engine() {
    let (palette, tags) = reach_fixture();
    let entries = forge_halo_quota_entries(&palette);
    assert_eq!(entries.len(), 145, "engine reads palette_max=145 quotas for forge_halo, got {}", entries.len());
    let resolve = |idx: u32, want: &str| {
        let r = entries.get(idx as usize).unwrap_or_else(|| panic!("entries[{}] should exist", idx));
        let mut cls_bytes = [0u8; 4];
        let b = r.tag_class.as_bytes();
        for k in 0..b.len().min(4) {
            cls_bytes[k] = b[k];
        }
        let name = tags
            .get(&(r.datum_index, cls_bytes))
            .unwrap_or_else(|| panic!("no tag name for entries[{}] datum 0x{:08X}", idx, r.datum_index));
        assert!(name.contains(want), "entries[{}] should resolve to a tag containing {:?}, got {:?}", idx, want, name);
    };
    resolve(31, "banshee");
    resolve(38, "warthog");
    resolve(54, "initial_spawn_point");
}

#[test]
fn forge_halo_quota_resolves_variant_or_falls_back() {
    let (palette, _) = reach_fixture();
    let base = resolve_forge_halo_quota(&palette, 38, 0).expect("q=38");
    let gauss = resolve_forge_halo_quota(&palette, 38, 1).expect("q=38 v=1");
    let fallback = resolve_forge_halo_quota(&palette, 31, 5).expect("q=31 v=5");
    assert_eq!(base.2, 0x2000 + 16 * 7);
    assert_eq!(gauss.2, 0x2000 + 16 * 7 + 1);
    assert_eq!(fallback.2, 0x2000);
    assert!(resolve_forge_halo_quota(&palette, 145, 0).is_none());
}

// ---------------------------------------------------------------- Halo 2 Anniversary

fn h2a_record(map: &str, cat: u32, entry: u32, variant: u32, class: &str, tag: &str) -> H2APaletteRecord {
    H2APaletteRecord {
        map: map.to_string(),
        cat,
        entry,
        variant,
        variant_name_stringid: 0,
        display_name_stringid: 0,
        class: class.to_string(),
        datum: 0xE100_0000 + 64 * cat + 4 * entry + variant,
        tag: tag.to_string(),
    }
}

/// A ca_ascension-shaped palette: 15 UNSC weapons, 13 Covenant weapons, then
/// four vehicles, two of which have a second variant.
fn h2a_fixture() -> Vec<H2APaletteRecord> {
    let mut v = Vec::new();
    for entry in 0..15 {
        let tag = match entry {
            0 => "objects\\weapons\\pistol\\h2a_magnum\\h2a_magnum".to_string(),
            14 => "objects\\weapons\\turret\\h2a_mounted_turret\\h2a_mounted_turret".to_string(),
            _ => format!("objects\\weapons\\unsc\\weapon_{}", entry),
        };
        v.push(h2a_record("ca_ascension", 0, entry, 0, "weap", &tag));
    }
    for entry in 0..13 {
        let tag = match entry {
            0 => "objects\\weapons\\pistol\\h2a_plasma_pistol\\h2a_plasma_pistol".to_string(),
            12 => "objects\\weapons\\turret\\h2a_covenant_turret\\h2a_covenant_turret".to_string(),
            _ => format!("objects\\weapons\\covenant\\weapon_{}", entry),
        };
        v.push(h2a_record("ca_ascension", 1, entry, 0, "weap", &tag));
    }
    v.push(h2a_record("ca_ascension", 2, 0, 0, "vehi", "objects\\vehicles\\h2a_mongoose\\h2a_mongoose"));
    v.push(h2a_record("ca_ascension", 2, 0, 1, "vehi", "objects\\vehicles\\h2a_mongoose\\h2a_gungoose"));
    v.push(h2a_record("ca_ascension", 2, 1, 0, "vehi", "objects\\vehicles\\h2a_hornet\\h2a_hornet"));
    v.push(h2a_record("ca_ascension", 2, 2, 0, "vehi", "objects\\vehicles\\h2a_warthog\\h2a_warthog"));
    v.push(h2a_record("ca_ascension", 2, 3, 0, "vehi", "objects\\vehicles\\h2a_banshee\\h2a_banshee_mp"));
    v.push(h2a_record("ca_ascension", 2, 3, 1, "vehi", "objects\\vehicles\\h2a_banshee\\banshee_heretic"));
    v.push(h2a_record("ca_zanzibar", 0, 0, 0, "weap", "objects\\weapons\\pistol\\h2a_magnum\\h2a_magnum"));
    v
}

#[test]
fn ascension_has_records() {
    let records = h2a_fixture();
    let by_map = halo2a_palettes_by_map(&records);
    let asc = by_map
        .iter()
        .find(|(m, _)| m == "ca_ascension")
        .map(|(_, rs)| rs)
        .expect("ca_ascension records should exist");
    assert!(!asc.is_empty());
}

#[test]
fn ca_ascension_entry_level_indexing_matches_engine() {
    let records = h2a_fixture();
    let entries = halo2a_quota_entries_by_map(&records);
    let asc = entries
        .iter()
        .find(|(m, _)| m == "ca_ascension")
        .map(|(_, rs)| rs)
        .expect("ca_ascension entry-level enumeration should exist");
    let resolve = |abs_q: usize| -> &H2APaletteRecord {
        asc.get(abs_q)
            .unwrap_or_else(|| panic!("ca_ascension entries[{}] should exist (have {})", abs_q, asc.len()))
    };
    assert!(resolve(0).tag.contains("h2a_magnum"));
    assert_eq!(resolve(0).cat, 0);
    assert_eq!(resolve(0).entry, 0);
    assert!(resolve(14).tag.contains("h2a_mounted_turret"));
    assert_eq!(resolve(14).cat, 0);
    assert!(resolve(15).tag.contains("h2a_plasma_pistol"));
    assert_eq!(resolve(15).cat, 1);
    assert_eq!(resolve(15).entry, 0);
    assert!(resolve(27).tag.contains("h2a_covenant_turret"));
    assert_eq!(resolve(27).cat, 1);
    assert!(resolve(28).tag.contains("h2a_mongoose"));
    assert_eq!(resolve(28).cat, 2);
    assert_eq!(resolve(28).entry, 0);
    assert!(
        resolve(29).tag.contains("h2a_hornet"),
        "q=29 must be hornet under entry-level enumeration, got {:?}",
        resolve(29).tag
    );
    assert_eq!(resolve(29).cat, 2);
    assert_eq!(resolve(29).entry, 1);
    assert!(resolve(31).tag.contains("h2a_banshee"));
    assert!(!resolve(31).tag.contains("heretic"));
    let heretic = h2a_lookup(&records, "ca_ascension", 2, 3, 1).expect("heretic banshee sub-variant should exist");
    assert!(
        heretic.tag.contains("banshee_heretic"),
        "expected heretic banshee at (2,3,1), got {:?}",
        heretic.tag
    );
    let r = resolve_h2a_quota(&records, "ca_ascension", 31, 1).expect("wire (31, 1) should resolve");
    assert!(
        r.tag.contains("banshee_heretic"),
        "wire (q=31, v=1) should resolve to heretic banshee, got {:?}",
        r.tag
    );
    let r = resolve_h2a_quota(&records, "ca_ascension", 29, 1).expect("wire (29, 1) should still resolve via fallback");
    assert!(r.tag.contains("h2a_hornet"));
}

#[test]
fn h2a_quota_past_the_map_is_none() {
    let records = h2a_fixture();
    assert!(resolve_h2a_quota(&records, "ca_ascension", 32, 0).is_none());
    assert!(resolve_h2a_quota(&records, "ca_zanzibar", 1, 0).is_none());
    let z = resolve_h2a_quota(&records, "ca_zanzibar", 0, 0).expect("ca_zanzibar q=0");
    assert_eq!(z.map, "ca_zanzibar");
}

// ---------------------------------------------------------------- Halo 4

fn h4_record(map: &str, cat: u32, entry: u32, variant: u32, class: &str, tag: &str) -> H4PaletteRecord {
    H4PaletteRecord {
        map: map.to_string(),
        cat,
        entry,
        variant,
        variant_name_stringid: 0,
        display_name_stringid: 0,
        class: class.to_string(),
        datum: 0xE200_0000 + 64 * cat + 4 * entry + variant,
        tag: tag.to_string(),
    }
}

/// A ca_basin-shaped palette: twelve categories of 94 entries in all, the
/// first Weapons entry a storm magnum, and three variants of the first entry
/// of category 4.
fn h4_fixture() -> Vec<H4PaletteRecord> {
    let counts = [13u32, 11, 7, 8, 9, 9, 3, 5, 10, 1, 8, 10];
    let mut v = Vec::new();
    for (cat, count) in counts.iter().enumerate() {
        let cat = cat as u32;
        for entry in 0..*count {
            let (class, tag) = match (cat, entry) {
                (0, 0) => ("weap", "objects\\weapons\\pistol\\storm_magnum\\storm_magnum".to_string()),
                (1, 0) => ("weap", "objects\\weapons\\pistol\\storm_plasma_pistol\\storm_plasma_pistol".to_string()),
                (4, 0) => ("scen", "objects\\levels\\dlc\\shared\\dlc_fusion_coil\\dlc_fusion_coil".to_string()),
                _ => ("bloc", format!("objects\\levels\\forge\\item_{}_{}", cat, entry)),
            };
            v.push(h4_record("ca_basin", cat, entry, 0, class, &tag));
            if cat == 4 && entry == 0 {
                v.push(h4_record("ca_basin", 4, 0, 1, "eqip", "objects\\weapons\\multiplayer\\fw_land_mine\\fw_land_mine"));
                v.push(h4_record("ca_basin", 4, 0, 2, "scen", "objects\\props\\fw_unsc_fuel_canister\\fw_unsc_fuel_canister"));
            }
        }
    }
    v
}

#[test]
fn known_h4_weapon_resolves() {
    let records = h4_fixture();
    let r = h4_lookup(&records, "ca_basin", 0, 0, 0).expect("ca_basin (0,0,0)");
    assert_eq!(r.class, "weap");
    assert!(r.tag.contains("storm_magnum"), "expected storm_magnum, got {}", r.tag);
}

#[test]
fn ca_basin_entry_level_indexing_matches_engine() {
    let records = h4_fixture();
    let by_map = halo4_quota_entries_by_map(&records);
    let entries = by_map
        .iter()
        .find(|(m, _)| m == "ca_basin")
        .map(|(_, rs)| rs)
        .expect("ca_basin entries");
    assert_eq!(entries.len(), 94, "ca_basin should produce 94 entry-level quota slots, got {}", entries.len());
    let q0 = &entries[0];
    assert_eq!((q0.cat, q0.entry), (0, 0));
    assert!(q0.tag.contains("storm_magnum"), "q=0 -> {}", q0.tag);
    let q13 = &entries[13];
    assert_eq!((q13.cat, q13.entry), (1, 0), "q=13 should jump to cat=1");
    assert!(q13.tag.contains("storm_plasma_pistol"), "q=13 -> {}", q13.tag);
    let q39 = &entries[39];
    assert_eq!((q39.cat, q39.entry), (4, 0), "q=39 should be cat=4 entry=0");
    assert!(q39.tag.contains("dlc_fusion_coil"), "q=39 -> {}", q39.tag);
}

#[test]
fn ca_basin_variant_resolver_picks_sub_variant() {
    let records = h4_fixture();
    let default = resolve_halo4_quota(&records, "ca_basin", 39, 0).expect("q=39 v=0");
    let variant1 = resolve_halo4_quota(&records, "ca_basin", 39, 1).expect("q=39 v=1");
    let variant2 = resolve_halo4_quota(&records, "ca_basin", 39, 2).expect("q=39 v=2");
    assert!(default.tag.contains("dlc_fusion_coil"), "q=39 v=0 -> {}", default.tag);
    assert!(variant1.tag.contains("fw_land_mine"), "q=39 v=1 -> {}", variant1.tag);
    assert!(variant2.tag.contains("fw_unsc_fuel_canister"), "q=39 v=2 -> {}", variant2.tag);
    let oob = resolve_halo4_quota(&records, "ca_basin", 0, 99).expect("q=0 v=99");
    assert!(oob.tag.contains("storm_magnum"), "out-of-range variant should fall through to default, got {}", oob.tag);
    assert!(resolve_halo4_quota(&records, "ca_basin", 999, 0).is_none());
    assert!(resolve_halo4_quota(&records, "nonexistent_map", 0, 0).is_none());
}
