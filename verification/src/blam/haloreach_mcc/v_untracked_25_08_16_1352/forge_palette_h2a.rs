use vstd::prelude::*;
use crate::search::{MapRecord, group_by_map, filter_by_map, is_grouping, records_of_map, lemma_records_of_map_member, find_first,
    lemma_find_first_skip, lemma_find_first_hit, lemma_find_first_end, lemma_find_first_spec, distinct_maps, lemma_map_with_records_is_distinct};

verus! {

/// One (category, entry, variant) record of a Halo 2 Anniversary map's Forge
/// palette, with the tag it resolves to.
#[derive(Debug, PartialEq, Eq)]
pub struct H2APaletteRecord {
    /// Map cache name (e.g. `"ca_ascension"`).
    pub map: String,
    /// Category index within the Map Variant Palettes block.
    pub cat: u32,
    /// Entry slot within the category.
    pub entry: u32,
    /// Variant slot within the entry.
    pub variant: u32,
    /// String ID labelling the variant.
    pub variant_name_stringid: u32,
    /// String ID labelling the entry in the Forge UI.
    pub display_name_stringid: u32,
    /// Tag class fourcc.
    pub class: String,
    /// Tag datum index from the map's tag table.
    pub datum: u32,
    /// Resolved tag path.
    pub tag: String,
}

impl MapRecord for H2APaletteRecord {
    open spec fn map_of(&self) -> Seq<char> {
        self.map@
    }

    fn map_name(&self) -> (m: &String) {
        &self.map
    }

    fn duplicate(&self) -> (r: Self) {
        H2APaletteRecord {
            map: self.map.clone(),
            cat: self.cat,
            entry: self.entry,
            variant: self.variant,
            variant_name_stringid: self.variant_name_stringid,
            display_name_stringid: self.display_name_stringid,
            class: self.class.clone(),
            datum: self.datum,
            tag: self.tag.clone(),
        }
    }
}

/// The variant-0 records, in order: the engine's entry-level enumeration.
pub open spec fn quota_entries(records: Seq<H2APaletteRecord>) -> Seq<H2APaletteRecord> {
    records.filter(|r: H2APaletteRecord| r.variant == 0)
}

/// Whether a record is the `(map, cat, entry, variant)` slot.
pub open spec fn is_slot(r: H2APaletteRecord, map_name: Seq<char>, cat: u32, entry: u32, variant: u32) -> bool {
    r.map@ == map_name && r.cat == cat && r.entry == entry && r.variant == variant
}

fn default_records(records: &Vec<H2APaletteRecord>) -> (out: Vec<H2APaletteRecord>)
    ensures
        out@ == quota_entries(records@),
{
    let mut out: Vec<H2APaletteRecord> = Vec::new();
    let mut i: usize = 0;
    while i < records.len()
        invariant
            i <= records@.len(),
            out@ == records@.take(i as int).filter(|r: H2APaletteRecord| r.variant == 0),
        decreases records.len() - i,
    {
        proof {
            assert(records@.take(i + 1).drop_last() =~= records@.take(i as int));
            reveal(Seq::filter);
        }
        if records[i].variant == 0 {
            out.push(records[i].duplicate());
        }
        i = i + 1;
    }
    assert(records@.take(records@.len() as int) =~= records@);
    out
}

/// The records grouped by map, in order of first appearance.
pub fn halo2a_palettes_by_map(records: &Vec<H2APaletteRecord>) -> (groups: Vec<(String, Vec<H2APaletteRecord>)>)
    ensures
        is_grouping(records@, groups@),
{
    group_by_map(records)
}

/// Each map's entry-level enumeration (variant-0 records, in order), grouped
/// by map. A wire `variant_quota_index` indexes a map's list.
pub fn halo2a_quota_entries_by_map(records: &Vec<H2APaletteRecord>) -> (groups: Vec<(String, Vec<H2APaletteRecord>)>)
    ensures
        is_grouping(quota_entries(records@), groups@),
{
    let entries = default_records(records);
    group_by_map(&entries)
}

/// Resolves `(map, cat, entry, variant)` to the first record of that slot.
pub fn h2a_lookup(
    records: &Vec<H2APaletteRecord>,
    map_name: &str,
    cat: u32,
    entry: u32,
    variant: u32,
) -> (r: Option<H2APaletteRecord>)
    ensures
        r == find_first(records@, |x: H2APaletteRecord| is_slot(x, map_name@, cat, entry, variant)),
{
    let key = String::from_str(map_name);
    let ghost pred = |x: H2APaletteRecord| is_slot(x, map_name@, cat, entry, variant);
    let mut i: usize = 0;
    assert(records@.skip(0) =~= records@);
    while i < records.len()
        invariant
            i <= records@.len(),
            key@ == map_name@,
            pred == (|x: H2APaletteRecord| is_slot(x, map_name@, cat, entry, variant)),
            find_first(records@, pred) == find_first(records@.skip(i as int), pred),
        decreases records.len() - i,
    {
        let r = &records[i];
        if r.map == key && r.cat == cat && r.entry == entry && r.variant == variant {
            proof { lemma_find_first_hit(records@, pred, i as int); }
            return Some(r.duplicate());
        }
        proof { lemma_find_first_skip(records@, pred, i as int); }
        i = i + 1;
    }
    proof { lemma_find_first_end(records@, pred); }
    None
}

/// What a wire `(variant_quota_index, variant_index)` pair resolves to on a
/// map: the map's entry-level record at the quota index; for a nonzero
/// variant index, the first record of the same entry with that variant, else
/// that entry-level record.
pub open spec fn resolved_quota(records: Seq<H2APaletteRecord>, map_name: Seq<char>, quota: u32, variant: u32) -> Option<H2APaletteRecord> {
    let es = records_of_map(quota_entries(records), map_name);
    if quota >= es.len() {
        None
    } else {
        let base = es[quota as int];
        if variant == 0 {
            Some(base)
        } else {
            match find_first(records, |x: H2APaletteRecord| is_slot(x, map_name, base.cat, base.entry, variant)) {
                Some(v) => Some(v),
                None => Some(base),
            }
        }
    }
}

/// Resolves a wire `(variant_quota_index, variant_index)` pair on a map;
/// `None` when the quota index is past the map's entry-level enumeration.
pub fn resolve_h2a_quota(
    records: &Vec<H2APaletteRecord>,
    map_name: &str,
    variant_quota_index: u32,
    variant_index: u32,
) -> (r: Option<H2APaletteRecord>)
    ensures
        r == resolved_quota(records@, map_name@, variant_quota_index, variant_index),
{
    let entries = default_records(records);
    let key = String::from_str(map_name);
    let map_entries = filter_by_map(&entries, &key);
    if variant_quota_index as usize >= map_entries.len() {
        return None;
    }
    let base = &map_entries[variant_quota_index as usize];
    if variant_index == 0 {
        return Some(base.duplicate());
    }
    match h2a_lookup(records, map_name, base.cat, base.entry, variant_index) {
        Some(v) => Some(v),
        None => Some(base.duplicate()),
    }
}

/// Resolving a quota pair goes through the map's list in the per-map
/// entry-level grouping (`halo2a_quota_entries_by_map`): no map in the
/// grouping, or a quota index past its list, resolves to nothing; else the
/// record at the quota index for variant 0, and for another variant the
/// record `h2a_lookup` finds for the same entry and that variant, or the
/// entry-level record when there is none.
pub proof fn lemma_resolve_h2a_quota_via_grouping(
    records: Seq<H2APaletteRecord>,
    groups: Seq<(String, Vec<H2APaletteRecord>)>,
    map_name: Seq<char>,
    quota: u32,
    variant: u32,
)
    requires
        is_grouping(quota_entries(records), groups),
    ensures
        (forall|i: int| 0 <= i < groups.len() ==> (#[trigger] groups[i]).0@ != map_name)
            ==> resolved_quota(records, map_name, quota, variant) is None,
        forall|i: int| 0 <= i < groups.len() && (#[trigger] groups[i]).0@ == map_name ==>
            resolved_quota(records, map_name, quota, variant) == (if quota >= groups[i].1@.len() {
                None
            } else {
                let base = groups[i].1@[quota as int];
                if variant == 0 {
                    Some(base)
                } else {
                    match find_first(records, |x: H2APaletteRecord| is_slot(x, map_name, base.cat, base.entry, variant)) {
                        Some(v) => Some(v),
                        None => Some(base),
                    }
                }
            }),
{
    let qs = quota_entries(records);
    let es = records_of_map(qs, map_name);
    if forall|i: int| 0 <= i < groups.len() ==> (#[trigger] groups[i]).0@ != map_name {
        if es.len() > 0 {
            lemma_map_with_records_is_distinct(qs, map_name);
            let d = distinct_maps(qs);
            let j = choose|j: int| 0 <= j < d.len() && d[j] == map_name;
            assert(groups[j].0@ == map_name);
        }
    }
}

/// The slot lookup, stated over the records: it gives the first record (in
/// order) whose map, category, entry and variant are the ones asked for, and
/// nothing only when no record has all four.
pub proof fn lemma_slot_lookup_law(records: Seq<H2APaletteRecord>, map_name: Seq<char>, cat: u32, entry: u32, variant: u32)
    ensures
        find_first(records, |x: H2APaletteRecord| is_slot(x, map_name, cat, entry, variant)) matches Some(r) ==> {
            &&& r.map@ == map_name && r.cat == cat && r.entry == entry && r.variant == variant
            &&& exists|i: int| 0 <= i < records.len() && records[i] == r
                && forall|j: int| 0 <= j < i ==> !(#[trigger] records[j].map@ == map_name && records[j].cat == cat
                    && records[j].entry == entry && records[j].variant == variant)
        },
        find_first(records, |x: H2APaletteRecord| is_slot(x, map_name, cat, entry, variant)) is None ==>
            forall|i: int| 0 <= i < records.len() ==> !(#[trigger] records[i].map@ == map_name && records[i].cat == cat
                && records[i].entry == entry && records[i].variant == variant),
{
    let pred = |x: H2APaletteRecord| is_slot(x, map_name, cat, entry, variant);
    lemma_find_first_spec(records, pred);
    match find_first(records, pred) {
        Some(x) => {
            let i = choose|i: int| 0 <= i < records.len() && records[i] == x && pred(x)
                && forall|j: int| 0 <= j < i ==> !pred(#[trigger] records[j]);
            assert forall|j: int| 0 <= j < i implies !(#[trigger] records[j].map@ == map_name && records[j].cat == cat
                && records[j].entry == entry && records[j].variant == variant) by {
                assert(!pred(records[j]));
            }
        },
        None => {
            assert forall|i: int| 0 <= i < records.len() implies !(#[trigger] records[i].map@ == map_name && records[i].cat == cat
                && records[i].entry == entry && records[i].variant == variant) by {
                assert(!pred(records[i]));
            }
        },
    }
}

/// What a quota resolves to on a map, stated over the records: the quota
/// index picks the `quota`-th variant-0 record of the map (in order), and the
/// pair resolves to a record of that same map, category and entry: one with
/// the wanted variant, or that variant-0 record itself; never to a record of
/// another map, category or entry.
pub proof fn lemma_resolved_quota_law(records: Seq<H2APaletteRecord>, map_name: Seq<char>, quota: u32, variant: u32)
    ensures
        resolved_quota(records, map_name, quota, variant) is None
            <==> quota >= records_of_map(quota_entries(records), map_name).len(),
        resolved_quota(records, map_name, quota, variant) matches Some(rec) ==> {
            let base = records_of_map(quota_entries(records), map_name)[quota as int];
            &&& base.variant == 0
            &&& base.map@ == map_name
            &&& rec.map@ == map_name
            &&& rec.cat == base.cat
            &&& rec.entry == base.entry
            &&& rec.variant == variant || rec == base
        },
{
    let es = records_of_map(quota_entries(records), map_name);
    if quota < es.len() {
        let base = es[quota as int];
        lemma_records_of_map_member(quota_entries(records), map_name, quota as int);
        let k = choose|k: int| 0 <= k < quota_entries(records).len() && quota_entries(records)[k] == base;
        records.filter_lemma(|r: H2APaletteRecord| r.variant == 0);
        assert(quota_entries(records)[k].variant == 0);
        lemma_slot_lookup_law(records, map_name, base.cat, base.entry, variant);
    }
}

} // verus!
