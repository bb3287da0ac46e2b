use vstd::prelude::*;
use crate::search::{find_first, lemma_find_first_skip, lemma_find_first_hit, lemma_find_first_end, lemma_find_first_spec};

verus! {

/// One (category, entry, variant) record of the Reach Forge palette, with the
/// tag class, datum index and variant name string ID it resolves to.
#[derive(Debug, PartialEq, Eq)]
pub struct PaletteRecord {
    pub cat: u32,
    pub cat_name_id: u32,
    pub entry: u32,
    pub variant: u32,
    pub variant_name_stringid: u32,
    pub tag_class: String,
    pub datum_index: u32,
    pub max_allowed: u32,
}

impl PaletteRecord {
    /// A field-by-field copy.
    pub fn duplicate(&self) -> (r: Self)
        ensures
            r == *self,
    {
        PaletteRecord {
            cat: self.cat,
            cat_name_id: self.cat_name_id,
            entry: self.entry,
            variant: self.variant,
            variant_name_stringid: self.variant_name_stringid,
            tag_class: self.tag_class.clone(),
            datum_index: self.datum_index,
            max_allowed: self.max_allowed,
        }
    }
}

/// Whether a record is the default (variant 0) record of its entry.
pub open spec fn is_entry_default(r: PaletteRecord) -> bool {
    r.variant == 0
}

/// The engine's entry-level enumeration: the variant-0 records, in palette order.
pub open spec fn quota_entries(palette: Seq<PaletteRecord>) -> Seq<PaletteRecord> {
    palette.filter(|r: PaletteRecord| is_entry_default(r))
}

/// The record of `(cat, entry, variant)`.
pub open spec fn is_variant_of(r: PaletteRecord, cat: u32, entry: u32, variant: u32) -> bool {
    r.cat == cat && r.entry == entry && r.variant == variant
}

/// What a wire `(quota_index, variant_index)` pair resolves to: the
/// entry-level record at `quota_index`, replaced by the first record of the
/// same entry with `variant_index` when there is one.
pub open spec fn resolved_record(palette: Seq<PaletteRecord>, quota_index: u32, variant_index: u32) -> Option<PaletteRecord> {
    let entries = quota_entries(palette);
    if quota_index >= entries.len() {
        None
    } else {
        let base = entries[quota_index as int];
        match find_first(palette, |r: PaletteRecord| is_variant_of(r, base.cat, base.entry, variant_index)) {
            Some(v) => Some(v),
            None => Some(base),
        }
    }
}

/// The palette's entry-level enumeration: one record per entry (its variant-0
/// record), in palette order. A wire `variant_quota_index` indexes this list.
pub fn forge_halo_quota_entries(palette: &Vec<PaletteRecord>) -> (entries: Vec<PaletteRecord>)
    ensures
        entries@ == quota_entries(palette@),
{
    let mut out: Vec<PaletteRecord> = Vec::new();
    let mut i: usize = 0;
    while i < palette.len()
        invariant
            i <= palette@.len(),
            out@ == palette@.take(i as int).filter(|r: PaletteRecord| is_entry_default(r)),
        decreases palette.len() - i,
    {
        proof {
            assert(palette@.take(i + 1).drop_last() =~= palette@.take(i as int));
            reveal(Seq::filter);
        }
        if palette[i].variant == 0 {
            out.push(palette[i].duplicate());
        }
        i = i + 1;
    }
    assert(palette@.take(palette@.len() as int) =~= palette@);
    out
}

/// Resolves a wire `(variant_quota_index, variant_index)` pair to the tag
/// class, datum index and variant name string ID of the record it selects;
/// `None` when `quota_index` is past the entry-level enumeration.
pub fn resolve_forge_halo_quota(
    palette: &Vec<PaletteRecord>,
    quota_index: u32,
    variant_index: u32,
) -> (r: Option<(String, u32, u32)>)
    ensures
        match resolved_record(palette@, quota_index, variant_index) {
            None => r is None,
            Some(rec) => r matches Some(t) && t.0@ == rec.tag_class@ && t.1 == rec.datum_index
                && t.2 == rec.variant_name_stringid,
        },
{
    let entries = forge_halo_quota_entries(palette);
    if quota_index as usize >= entries.len() {
        return None;
    }
    let base = &entries[quota_index as usize];
    let ghost pred = |r: PaletteRecord| is_variant_of(r, base.cat, base.entry, variant_index);
    let mut i: usize = 0;
    assert(palette@.skip(0) =~= palette@);
    while i < palette.len()
        invariant
            i <= palette@.len(),
            entries@ == quota_entries(palette@),
            quota_index < entries@.len(),
            *base == entries@[quota_index as int],
            find_first(palette@, pred) == find_first(palette@.skip(i as int), pred),
            pred == (|r: PaletteRecord| is_variant_of(r, base.cat, base.entry, variant_index)),
        decreases palette.len() - i,
    {
        let r = &palette[i];
        if r.cat == base.cat && r.entry == base.entry && r.variant == variant_index {
            proof { lemma_find_first_hit(palette@, pred, i as int); }
            return Some((r.tag_class.clone(), r.datum_index, r.variant_name_stringid));
        }
        proof { lemma_find_first_skip(palette@, pred, i as int); }
        i = i + 1;
    }
    proof { lemma_find_first_end(palette@, pred); }
    Some((base.tag_class.clone(), base.datum_index, base.variant_name_stringid))
}

/// What a quota resolves to, stated over the palette's records: the quota
/// index picks the `quota_index`-th record with variant 0 (in palette order),
/// and the pair resolves to the first record of the palette in that record's
/// category and entry with the wanted variant, or to that variant-0 record
/// itself when the palette has none; never to a record of another category
/// or entry.
pub proof fn lemma_resolved_record_law(palette: Seq<PaletteRecord>, quota_index: u32, variant_index: u32)
    ensures
        resolved_record(palette, quota_index, variant_index) is None
            <==> quota_index >= quota_entries(palette).len(),
        resolved_record(palette, quota_index, variant_index) matches Some(rec) ==> {
            let base = quota_entries(palette)[quota_index as int];
            &&& base.variant == 0
            &&& rec.cat == base.cat
            &&& rec.entry == base.entry
            &&& {
                ||| rec.variant == variant_index && exists|i: int| 0 <= i < palette.len() && palette[i] == rec
                    && forall|j: int| 0 <= j < i ==> !(#[trigger] palette[j].cat == base.cat
                        && palette[j].entry == base.entry && palette[j].variant == variant_index)
                ||| rec == base && forall|i: int| 0 <= i < palette.len() ==> !(#[trigger] palette[i].cat == base.cat
                        && palette[i].entry == base.entry && palette[i].variant == variant_index)
            }
        },
{
    let entries = quota_entries(palette);
    if quota_index < entries.len() {
        let base = entries[quota_index as int];
        let pred = |r: PaletteRecord| is_variant_of(r, base.cat, base.entry, variant_index);
        lemma_find_first_spec(palette, pred);
        palette.filter_lemma(|r: PaletteRecord| is_entry_default(r));
        match find_first(palette, pred) {
            Some(x) => {
                let i = choose|i: int| 0 <= i < palette.len() && palette[i] == x && pred(x)
                    && forall|j: int| 0 <= j < i ==> !pred(#[trigger] palette[j]);
                assert forall|j: int| 0 <= j < i implies !(#[trigger] palette[j].cat == base.cat
                    && palette[j].entry == base.entry && palette[j].variant == variant_index) by {
                    assert(!pred(palette[j]));
                }
            },
            None => {
                assert forall|i: int| 0 <= i < palette.len() implies !(#[trigger] palette[i].cat == base.cat
                    && palette[i].entry == base.entry && palette[i].variant == variant_index) by {
                    assert(!pred(palette[i]));
                }
            },
        }
    }
}

} // verus!
