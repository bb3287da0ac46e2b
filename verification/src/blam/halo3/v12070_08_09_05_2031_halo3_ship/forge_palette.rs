use vstd::prelude::*;
use crate::search::{MapRecord, group_by_map, is_grouping, find_first, lemma_find_first_skip, lemma_find_first_hit, lemma_find_first_end,
    lemma_find_first_spec};

verus! {

/// One slot of a Halo 3 map's Forge palette, with the tag it resolves to.
#[derive(Debug, PartialEq, Eq)]
pub struct H3PaletteRecord {
    /// Map cache name (e.g. `"sandbox"`).
    pub map: String,
    /// Palette category in the historical "Nth scenario palette" numbering, 0..27.
    pub pal: u32,
    /// Category label (`"Scenery"`, `"Vehicle"`, ...).
    pub name: String,
    /// Entry slot within the category.
    pub entry: u32,
    /// Tag class fourcc (`"scen"`, `"weap"`, ...).
    pub class: String,
    /// Tag datum index from the map's tag table.
    pub datum: u32,
    /// Resolved tag path.
    pub tag: String,
}

impl MapRecord for H3PaletteRecord {
    open spec fn map_of(&self) -> Seq<char> {
        self.map@
    }

    fn map_name(&self) -> (m: &String) {
        &self.map
    }

    fn duplicate(&self) -> (r: Self) {
        H3PaletteRecord {
            map: self.map.clone(),
            pal: self.pal,
            name: self.name.clone(),
            entry: self.entry,
            class: self.class.clone(),
            datum: self.datum,
            tag: self.tag.clone(),
        }
    }
}

/// The records grouped by map: one `(map, records)` pair per map, in order of
/// first appearance, each with that map's records in order.
pub fn halo3_palettes_by_map(records: &Vec<H3PaletteRecord>) -> (groups: Vec<(String, Vec<H3PaletteRecord>)>)
    ensures
        is_grouping(records@, groups@),
{
    group_by_map(records)
}

/// Whether a record is the `(map, pal, entry)` slot.
pub open spec fn is_slot(r: H3PaletteRecord, map_name: Seq<char>, pal: u32, entry: u32) -> bool {
    r.map@ == map_name && r.pal == pal && r.entry == entry
}

/// Resolves `(map, pal, entry)` to the first record of that slot. `pal` is the
/// historical palette numbering, not the wire palette kind.
pub fn h3_lookup(
    records: &Vec<H3PaletteRecord>,
    map_name: &str,
    pal: u32,
    entry: u32,
) -> (r: Option<H3PaletteRecord>)
    ensures
        r == find_first(records@, |x: H3PaletteRecord| is_slot(x, map_name@, pal, entry)),
{
    let key = String::from_str(map_name);
    let ghost pred = |x: H3PaletteRecord| is_slot(x, map_name@, pal, entry);
    let mut i: usize = 0;
    assert(records@.skip(0) =~= records@);
    while i < records.len()
        invariant
            i <= records@.len(),
            key@ == map_name@,
            pred == (|x: H3PaletteRecord| is_slot(x, map_name@, pal, entry)),
            find_first(records@, pred) == find_first(records@.skip(i as int), pred),
        decreases records.len() - i,
    {
        let r = &records[i];
        if r.map == key && r.pal == pal && r.entry == entry {
            proof { lemma_find_first_hit(records@, pred, i as int); }
            return Some(r.duplicate());
        }
        proof { lemma_find_first_skip(records@, pred, i as int); }
        i = i + 1;
    }
    proof { lemma_find_first_end(records@, pred); }
    None
}

/// The historical palette number of a wire palette kind (1..=12), or `None`.
pub open spec fn kind_to_pal(kind: u32) -> Option<u32> {
    if kind == 1 { Some(12u32) }
    else if kind == 2 { Some(13u32) }
    else if kind == 3 { Some(14u32) }
    else if kind == 4 { Some(15u32) }
    else if kind == 5 { Some(16u32) }
    else if kind == 6 { Some(17u32) }
    else if kind == 7 { Some(18u32) }
    else if kind == 8 { Some(0u32) }
    else if kind == 9 { Some(2u32) }
    else if kind == 10 { Some(4u32) }
    else if kind == 11 { Some(3u32) }
    else if kind == 12 { Some(25u32) }
    else { None }
}

/// Maps an engine wire palette kind (1..=12, the high 16 bits of an object
/// definition index) to the historical palette number; `None` for kind 0 and
/// every kind outside 1..=12.
pub fn h3_palette_kind_to_jsonl_pal(kind: u32) -> (r: Option<u32>)
    ensures
        r == kind_to_pal(kind),
{
    Some(match kind {
        1 => 12,
        2 => 13,
        3 => 14,
        4 => 15,
        5 => 16,
        6 => 17,
        7 => 18,
        8 => 0,
        9 => 2,
        10 => 4,
        11 => 3,
        12 => 25,
        _ => return None,
    })
}

/// The palette kind of a packed object definition index: its high 16 bits.
pub open spec fn odi_kind(idx: u32) -> u32 {
    idx / 65536
}

/// The entry of a packed object definition index: its low 16 bits read as a
/// signed 16-bit number.
pub open spec fn odi_entry(idx: u32) -> int {
    let low = idx % 65536;
    if low >= 32768 { low - 65536 } else { low as int }
}

/// Splits a wire object definition index into `(palette_kind, entry_index)`:
/// the high 16 bits, and the low 16 bits as a signed number (-1 = no entry).
pub fn h3_split_object_definition_index(idx: u32) -> (r: (u32, i16))
    ensures
        r.0 == odi_kind(idx),
        r.1 == odi_entry(idx),
{
    let kind = idx / 65536;
    let low = idx % 65536;
    let entry: i16 = if low >= 32768 { (low as i32 - 65536) as i16 } else { low as i16 };
    (kind, entry)
}

/// What a packed object definition index resolves to on a map.
pub open spec fn resolved_odi(records: Seq<H3PaletteRecord>, map_name: Seq<char>, idx: u32) -> Option<H3PaletteRecord> {
    match kind_to_pal(odi_kind(idx)) {
        None => None,
        Some(pal) => if odi_entry(idx) < 0 {
            None
        } else {
            find_first(records, |x: H3PaletteRecord| is_slot(x, map_name, pal, odi_entry(idx) as u32))
        },
    }
}

/// Resolves a wire object definition index on a map: split it, map the kind
/// to a palette number, look the slot up. `None` for a kind outside 1..=12, a
/// negative entry, or a slot the map's palette lacks.
pub fn h3_resolve_object_definition_index(
    records: &Vec<H3PaletteRecord>,
    map_name: &str,
    object_definition_index: u32,
) -> (r: Option<H3PaletteRecord>)
    ensures
        r == resolved_odi(records@, map_name@, object_definition_index),
{
    let (kind, entry) = h3_split_object_definition_index(object_definition_index);
    let pal = h3_palette_kind_to_jsonl_pal(kind)?;
    if entry < 0 {
        return None;
    }
    h3_lookup(records, map_name, pal, entry as u32)
}

/// Resolves a placed object's `variant_quota_index` through the map
/// variant's quotas (their object definition indices, in order) to a palette
/// record; `None` for a negative or out-of-range index or an unresolvable quota.
pub fn h3_resolve_quota_index(
    records: &Vec<H3PaletteRecord>,
    map_name: &str,
    variant_quota_index: i32,
    quotas_object_def_indices: &[u32],
) -> (r: Option<H3PaletteRecord>)
    ensures
        r == (if 0 <= variant_quota_index < quotas_object_def_indices@.len() {
            resolved_odi(records@, map_name@, quotas_object_def_indices@[variant_quota_index as int])
        } else {
            None
        }),
{
    if variant_quota_index < 0 {
        return None;
    }
    let i = variant_quota_index as usize;
    if i >= quotas_object_def_indices.len() {
        return None;
    }
    let odi = quotas_object_def_indices[i];
    h3_resolve_object_definition_index(records, map_name, odi)
}

/// The slot lookup, stated over the records: it gives the first record (in
/// order) whose map, palette and entry are the ones asked for, and nothing
/// only when no record has all three.
pub proof fn lemma_h3_lookup_law(records: Seq<H3PaletteRecord>, map_name: Seq<char>, pal: u32, entry: u32)
    ensures
        find_first(records, |x: H3PaletteRecord| is_slot(x, map_name, pal, entry)) matches Some(r) ==> {
            &&& r.map@ == map_name && r.pal == pal && r.entry == entry
            &&& exists|i: int| 0 <= i < records.len() && records[i] == r
                && forall|j: int| 0 <= j < i ==> !(#[trigger] records[j].map@ == map_name && records[j].pal == pal
                    && records[j].entry == entry)
        },
        find_first(records, |x: H3PaletteRecord| is_slot(x, map_name, pal, entry)) is None ==>
            forall|i: int| 0 <= i < records.len() ==> !(#[trigger] records[i].map@ == map_name && records[i].pal == pal
                && records[i].entry == entry),
{
    let pred = |x: H3PaletteRecord| is_slot(x, map_name, pal, entry);
    lemma_find_first_spec(records, pred);
    match find_first(records, pred) {
        Some(x) => {
            let i = choose|i: int| 0 <= i < records.len() && records[i] == x && pred(x)
                && forall|j: int| 0 <= j < i ==> !pred(#[trigger] records[j]);
            assert forall|j: int| 0 <= j < i implies !(#[trigger] records[j].map@ == map_name && records[j].pal == pal
                && records[j].entry == entry) by {
                assert(!pred(records[j]));
            }
        },
        None => {
            assert forall|i: int| 0 <= i < records.len() implies !(#[trigger] records[i].map@ == map_name && records[i].pal == pal
                && records[i].entry == entry) by {
                assert(!pred(records[i]));
            }
        },
    }
}

/// What an object definition index resolves to, stated over its bits: it
/// resolves only when its high 16 bits are a palette kind from 1 to 12 and
/// its low 16 bits, read as a signed number, are not negative; it then
/// resolves to a record of that map whose entry is the low 16 bits.
pub proof fn lemma_resolved_odi_law(records: Seq<H3PaletteRecord>, map_name: Seq<char>, idx: u32)
    ensures
        (idx / 65536 == 0 || idx / 65536 > 12 || idx % 65536 >= 32768) ==> resolved_odi(records, map_name, idx) is None,
        resolved_odi(records, map_name, idx) matches Some(r) ==> {
            &&& 1 <= idx / 65536 <= 12
            &&& idx % 65536 < 32768
            &&& r.map@ == map_name
            &&& r.entry == idx % 65536
            &&& Some(r.pal) == kind_to_pal(idx / 65536)
        },
{
    match kind_to_pal(odi_kind(idx)) {
        None => {},
        Some(pal) => {
            if odi_entry(idx) >= 0 {
                lemma_h3_lookup_law(records, map_name, pal, odi_entry(idx) as u32);
            }
        },
    }
}

} // verus!
