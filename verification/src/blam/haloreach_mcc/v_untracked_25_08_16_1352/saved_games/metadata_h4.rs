//! The Halo 4 content item metadata, in its three wire schemas. All share
//! the Reach fixed-width fields (with a 3-bit activity, or a 2-bit one in the
//! engine's schema), the creation time and xuid, the creator name, the
//! creator online bit, the modification time and xuid and the modifier name,
//! then the name and description NUL-bounded in at most 8192 UTF-16 units.
//! The names are fixed 15-byte fields in the "fixed fifteen" schema, with no
//! modifier online bit; in the other two they are NUL-bounded in at most 16
//! bytes and a modifier online bit follows the modifier name.

use vstd::prelude::*;
use vstd::arithmetic::power2::*;
use crate::io::bitstream::{
    c_bitstream_writer, c_bitstream_reader, bits_of, field_at, zstring_bits, zstring_parse, units_bits,
    lemma_zstring_parse_len, lemma_zstring_roundtrip, lemma_unsigned_roundtrip, byte_units, wide_units,
    group_bitstream_seq,
};
use crate::io::strings::{units_to_bytes, units_to_wide, lemma_bytes_from_units, lemma_wide_from_units, no_nul_bytes, no_nul_units};
use crate::result::BLFLibResult;
use crate::blam::haloreach_mcc::v_untracked_25_08_16_1352::saved_games::saved_game_files::{
    c_content_item_metadata, s_content_item_history, HistoryModel, MetadataModel,
};
use crate::blam::haloreach_mcc::v_untracked_25_08_16_1352::saved_games::scenario_map_variant_h2a::{
    h2a_general_len, h2a_general_bits, h2a_parse_general, h2a_parse_display, h2a_general_encodable,
    h2a_read_general, h2a_encode_general, lemma_h2a_general_roundtrip, lemma_h2a_text_roundtrip,
};
use crate::blam::haloreach_mcc::v_untracked_25_08_16_1352::saved_games::scenario_map_variant_h4::{
    fixed_field, fixed_raw_bytes, read_fixed_ascii_raw, write_fixed_ascii_raw, lemma_fixed_field_roundtrip,
};

verus! {

broadcast use group_bitstream_seq;

/// Which Halo 4 metadata schema a payload is read or written with.
#[derive(Default, PartialEq, Eq, Debug, Clone, Copy)]
pub enum H4MetaSchema {
    /// Fixed 15-byte names, no modifier online bit, a 3-bit activity.
    #[default]
    FixedFifteen,
    /// NUL-bounded names of at most 16 bytes, a modifier online bit, a
    /// 3-bit activity.
    NulBoundedSixteen,
    /// As `NulBoundedSixteen`, with a 2-bit activity, as the engine reads it.
    EngineActivity2Bit,
}

impl H4MetaSchema {
    /// The width of the activity field under the schema.
    pub open spec fn activity_width(self) -> nat {
        match self {
            H4MetaSchema::EngineActivity2Bit => 2,
            _ => 3,
        }
    }

    /// Whether the names are fixed 15-byte fields.
    pub open spec fn fixed_names(self) -> bool {
        self == H4MetaSchema::FixedFifteen
    }
}

/// Reading a name from the front of `bits` under `schema`: the bytes and the
/// bits they took, or `None` when the bits run out.
pub open spec fn h4_name_parse(bits: Seq<bool>, schema: H4MetaSchema) -> Option<(Seq<u8>, nat)> {
    if schema.fixed_names() {
        if bits.len() >= 120 { Some((fixed_field(bits, 15), 120)) } else { None }
    } else {
        match zstring_parse(bits, 8, 16) {
            None => None,
            Some(p) => Some((units_to_bytes(p.0), p.1)),
        }
    }
}

/// The bits of a name under `schema`: the first 15 bytes, zero-padded, or the
/// bytes NUL-bounded in at most 16.
pub open spec fn h4_name_bits(name: Seq<u8>, schema: H4MetaSchema) -> Seq<bool> {
    if schema.fixed_names() {
        units_bits(byte_units(fixed_raw_bytes(name, 15)), 8)
    } else {
        zstring_bits(byte_units(name), 8, 16)
    }
}

/// Whether a name can be written under `schema`.
pub open spec fn h4_name_ok(name: Seq<u8>, schema: H4MetaSchema) -> bool {
    schema.fixed_names() || name.len() <= 16
}

fn read_h4_name(bitstream: &mut c_bitstream_reader, schema: H4MetaSchema) -> (r: BLFLibResult<Vec<u8>>)
    ensures
        final(bitstream).data() == old(bitstream).data(),
        match h4_name_parse(old(bitstream).remaining(), schema) {
            None => r is Err,
            Some(p) => r matches Ok(v) && v@ == p.0
                && final(bitstream).remaining() == old(bitstream).remaining().skip(p.1 as int),
        },
{
    let ghost rem = bitstream.remaining();
    match schema {
        H4MetaSchema::FixedFifteen => read_fixed_ascii_raw(bitstream, 15),
        _ => {
            let v = bitstream.read_string_extended_ascii(16)?;
            proof { lemma_bytes_from_units(v@, (zstring_parse(rem, 8, 16)->0).0); }
            Ok(v)
        },
    }
}

fn write_h4_name(bitstream: &mut c_bitstream_writer, name: &Vec<u8>, schema: H4MetaSchema) -> (r: BLFLibResult)
    ensures
        r is Ok <==> h4_name_ok(name@, schema),
        r is Ok ==> final(bitstream)@ == old(bitstream)@ + h4_name_bits(name@, schema),
{
    match schema {
        H4MetaSchema::FixedFifteen => write_fixed_ascii_raw(bitstream, name.as_slice(), 15),
        _ => bitstream.write_string_extended_ascii(name.as_slice(), 16),
    }
}

/// What the body of a Halo 4 header holds.
pub struct H4Body {
    pub creation_history: HistoryModel,
    pub modification_history: HistoryModel,
    pub name: Seq<u16>,
    pub description: Seq<u16>,
}

/// The offset of the modifier online bit, or of the name when the schema
/// has none, after a creator name of `c` bits and a modifier name of `m`.
pub open spec fn h4_after_names(c: nat, m: nat) -> nat {
    128 + c + 129 + m
}

/// Reading both histories of a Halo 4 header from the front of `bits` under
/// `schema`: the creation and modification histories and the bits they
/// took; `None` when the bits run out.
pub open spec fn h4_parse_histories(bits: Seq<bool>, schema: H4MetaSchema) -> Option<(HistoryModel, HistoryModel, nat)> {
    if bits.len() < 128 {
        None
    } else {
        match h4_name_parse(bits.skip(128), schema) {
            None => None,
            Some(c) => {
                let o = 128 + c.1;
                if bits.len() < o + 129 {
                    None
                } else {
                    match h4_name_parse(bits.skip((o + 129) as int), schema) {
                        None => None,
                        Some(m) => {
                            let e = h4_after_names(c.1, m.1);
                            let t = if schema.fixed_names() { e } else { e + 1 };
                            if bits.len() < t {
                                None
                            } else {
                                Some((HistoryModel {
                                    timestamp: field_at(bits, 0, 64) as u64,
                                    xuid: field_at(bits, 64, 64) as u64,
                                    name: c.0,
                                    is_online: bits[o as int],
                                }, HistoryModel {
                                    timestamp: field_at(bits, (o + 1) as int, 64) as u64,
                                    xuid: field_at(bits, (o + 65) as int, 64) as u64,
                                    name: m.0,
                                    is_online: if schema.fixed_names() { false } else { bits[e as int] },
                                }, t))
                            }
                        },
                    }
                }
            },
        }
    }
}

/// Reading the body of a Halo 4 header from the front of `bits` under
/// `schema`: both histories, the name and the description; `None` when the
/// bits run out.
pub open spec fn h4_parse_body(bits: Seq<bool>, schema: H4MetaSchema) -> Option<(H4Body, nat)> {
    match h4_parse_histories(bits, schema) {
        None => None,
        Some(h) => match zstring_parse(bits.skip(h.2 as int), 16, 8192) {
            None => None,
            Some(n) => match zstring_parse(bits.skip((h.2 + n.1) as int), 16, 8192) {
                None => None,
                Some(d) => Some((H4Body {
                    creation_history: h.0,
                    modification_history: h.1,
                    name: units_to_wide(n.0),
                    description: units_to_wide(d.0),
                }, h.2 + n.1 + d.1)),
            },
        },
    }
}

/// Reading a Halo 4 header from the front of `bits` over `prior` under
/// `schema`: the header and the bits it took, or `None` when the bits run
/// out. Fields that the layout does not carry keep their prior value.
pub open spec fn parse_h4_metadata(bits: Seq<bool>, schema: H4MetaSchema, prior: MetadataModel) -> Option<(MetadataModel, nat)> {
    let k = schema.activity_width();
    if bits.len() < h2a_general_len(k) {
        None
    } else {
        match h4_parse_body(bits.skip(h2a_general_len(k) as int), schema) {
            None => None,
            Some(b) => Some((MetadataModel {
                general: h2a_parse_general(bits, k),
                display: h2a_parse_display(bits, k),
                creation_history: b.0.creation_history,
                modification_history: b.0.modification_history,
                name: b.0.name,
                description: b.0.description,
                ..prior
            }, h2a_general_len(k) + b.1)),
        }
    }
}

proof fn lemma_h4_name_len(bits: Seq<bool>, schema: H4MetaSchema)
    ensures
        h4_name_parse(bits, schema) matches Some(p) ==> p.1 <= bits.len(),
{
    lemma_zstring_parse_len(bits, 8, 16);
}

proof fn lemma_h4_histories_len(bits: Seq<bool>, schema: H4MetaSchema)
    ensures
        h4_parse_histories(bits, schema) matches Some(p) ==> p.2 <= bits.len(),
{
}

proof fn lemma_h4_body_len(bits: Seq<bool>, schema: H4MetaSchema)
    ensures
        h4_parse_body(bits, schema) matches Some(p) ==> p.1 <= bits.len(),
{
    lemma_h4_histories_len(bits, schema);
    if let Some(h) = h4_parse_histories(bits, schema) {
        lemma_zstring_parse_len(bits.skip(h.2 as int), 16, 8192);
        if let Some(n) = zstring_parse(bits.skip(h.2 as int), 16, 8192) {
            lemma_zstring_parse_len(bits.skip((h.2 + n.1) as int), 16, 8192);
        }
    }
}

#[verifier::spinoff_prover]
#[verifier::rlimit(80)]
fn h4_read_histories(bitstream: &mut c_bitstream_reader, schema: H4MetaSchema) -> (r: BLFLibResult<(s_content_item_history, s_content_item_history)>)
    ensures
        final(bitstream).data() == old(bitstream).data(),
        match h4_parse_histories(old(bitstream).remaining(), schema) {
            None => r is Err,
            Some(p) => r matches Ok(v) && v.0@ == p.0 && v.1@ == p.1
                && final(bitstream).remaining() == old(bitstream).remaining().skip(p.2 as int),
        },
{
    let ghost rem = bitstream.remaining();
    proof { lemma2_to64(); lemma2_to64_rest(); }
    let timestamp = bitstream.read_qword(64)?;
    let xuid = bitstream.read_qword(64)?;
    let name = read_h4_name(bitstream, schema)?;
    let ghost c = h4_name_parse(rem.skip(128), schema)->0;
    proof { lemma_h4_name_len(rem.skip(128), schema); }
    let ghost o = 128 + c.1;
    let is_online = bitstream.read_bool("author-flags")?;
    let modification_timestamp = bitstream.read_qword(64)?;
    let modification_xuid = bitstream.read_qword(64)?;
    proof {
        assert(rem.skip((o + 1) as int).take(64) =~= rem.subrange((o + 1) as int, (o + 65) as int));
        assert(rem.skip((o + 65) as int).take(64) =~= rem.subrange((o + 65) as int, (o + 129) as int));
    }
    let modifier = read_h4_name(bitstream, schema)?;
    let ghost m = h4_name_parse(rem.skip((o + 129) as int), schema)->0;
    proof { lemma_h4_name_len(rem.skip((o + 129) as int), schema); }
    let modifier_online: bool = match schema {
        H4MetaSchema::FixedFifteen => false,
        _ => bitstream.read_bool("author-flags")?,
    };
    assert(rem.take(64) =~= rem.subrange(0, 64));
    assert(rem.skip(64).take(64) =~= rem.subrange(64, 128));
    let creation = s_content_item_history { timestamp, xuid, name, is_online };
    let modification = s_content_item_history {
        timestamp: modification_timestamp,
        xuid: modification_xuid,
        name: modifier,
        is_online: modifier_online,
    };
    Ok((creation, modification))
}

fn h4_read_body(bitstream: &mut c_bitstream_reader, schema: H4MetaSchema) -> (r: BLFLibResult<(s_content_item_history, s_content_item_history, Vec<u16>, Vec<u16>)>)
    ensures
        final(bitstream).data() == old(bitstream).data(),
        match h4_parse_body(old(bitstream).remaining(), schema) {
            None => r is Err,
            Some(p) => r matches Ok(v) && v.0@ == p.0.creation_history && v.1@ == p.0.modification_history
                && v.2@ == p.0.name && v.3@ == p.0.description
                && final(bitstream).remaining() == old(bitstream).remaining().skip(p.1 as int),
        },
{
    let ghost rem = bitstream.remaining();
    let (creation, modification) = h4_read_histories(bitstream, schema)?;
    let ghost t = (h4_parse_histories(rem, schema)->0).2;
    proof { lemma_h4_histories_len(rem, schema); }
    let text = bitstream.read_string_wchar(8192)?;
    let ghost n = zstring_parse(rem.skip(t as int), 16, 8192)->0;
    proof {
        lemma_wide_from_units(text@, n.0);
        lemma_zstring_parse_len(rem.skip(t as int), 16, 8192);
    }
    let description = bitstream.read_string_wchar(8192)?;
    let ghost dd = zstring_parse(rem.skip((t + n.1) as int), 16, 8192)->0;
    proof {
        lemma_wide_from_units(description@, dd.0);
        lemma_zstring_parse_len(rem.skip((t + n.1) as int), 16, 8192);
        assert(bitstream.remaining() == rem.skip((t + n.1 + dd.1) as int));
    }
    Ok((creation, modification, text, description))
}

/// Reads a Halo 4 metadata header under the "fixed fifteen" schema.
pub fn decode_metadata_h4(meta: &mut c_content_item_metadata, bitstream: &mut c_bitstream_reader) -> (r: BLFLibResult)
    ensures
        final(bitstream).data() == old(bitstream).data(),
        match parse_h4_metadata(old(bitstream).remaining(), H4MetaSchema::FixedFifteen, old(meta)@) {
            None => r is Err,
            Some(p) => r is Ok && final(meta)@ == p.0
                && final(bitstream).remaining() == old(bitstream).remaining().skip(p.1 as int),
        },
{
    decode_metadata_h4_variant(meta, bitstream, H4MetaSchema::FixedFifteen)
}

/// Reads a Halo 4 metadata header under `schema`: the fixed-width fields
/// with the schema's activity width, both histories with the schema's name
/// fields (the modifier counts as offline where the schema has no bit for
/// it), the name and the description. Fails when the data runs out.
pub fn decode_metadata_h4_variant(meta: &mut c_content_item_metadata, bitstream: &mut c_bitstream_reader, schema: H4MetaSchema) -> (r: BLFLibResult)
    ensures
        final(bitstream).data() == old(bitstream).data(),
        match parse_h4_metadata(old(bitstream).remaining(), schema, old(meta)@) {
            None => r is Err,
            Some(p) => r is Ok && final(meta)@ == p.0
                && final(bitstream).remaining() == old(bitstream).remaining().skip(p.1 as int),
        },
{
    let ghost rem = bitstream.remaining();
    let k: usize = match schema {
        H4MetaSchema::EngineActivity2Bit => 2,
        _ => 3,
    };
    let (g, d) = h2a_read_general(bitstream, k)?;
    let (creation, modification, name, description) = h4_read_body(bitstream, schema)?;
    meta.general = g;
    meta.display = d;
    meta.creation_history = creation;
    meta.modification_history = modification;
    meta.name = name;
    meta.description = description;
    proof {
        lemma_h4_body_len(rem.skip(h2a_general_len(k as nat) as int), schema);
        let b = h4_parse_body(rem.skip(h2a_general_len(k as nat) as int), schema)->0;
        assert(bitstream.remaining() == rem.skip((h2a_general_len(k as nat) + b.1) as int));
        let parsed = parse_h4_metadata(rem, schema, old(meta)@)->0;
        assert(meta@ == parsed.0);
    }
    Ok(())
}

/// The body bits of a Halo 4 header under `schema`.
pub open spec fn h4_body_bits(m: MetadataModel, schema: H4MetaSchema) -> Seq<bool> {
    bits_of(m.creation_history.timestamp as nat, 64) + bits_of(m.creation_history.xuid as nat, 64)
        + h4_name_bits(m.creation_history.name, schema) + seq![m.creation_history.is_online]
        + bits_of(m.modification_history.timestamp as nat, 64) + bits_of(m.modification_history.xuid as nat, 64)
        + h4_name_bits(m.modification_history.name, schema)
        + (if schema.fixed_names() { Seq::empty() } else { seq![m.modification_history.is_online] })
        + zstring_bits(wide_units(m.name), 16, 8192) + zstring_bits(wide_units(m.description), 16, 8192)
}

/// The encoding of a Halo 4 header under `schema`.
pub open spec fn h4_metadata_bits(m: MetadataModel, schema: H4MetaSchema) -> Seq<bool> {
    h2a_general_bits(m.general, m.display, schema.activity_width()) + h4_body_bits(m, schema)
}

/// Whether a Halo 4 header can be written under `schema`.
pub open spec fn h4_metadata_encodable(m: MetadataModel, schema: H4MetaSchema) -> bool {
    &&& h2a_general_encodable(m.general, schema.activity_width())
    &&& h4_name_ok(m.creation_history.name, schema)
    &&& h4_name_ok(m.modification_history.name, schema)
    &&& m.name.len() <= 8192
    &&& m.description.len() <= 8192
}

#[verifier::spinoff_prover]
#[verifier::rlimit(80)]
fn h4_encode_body(meta: &c_content_item_metadata, bitstream: &mut c_bitstream_writer, schema: H4MetaSchema) -> (r: BLFLibResult)
    ensures
        r is Ok <==> h4_name_ok(meta.creation_history.name@, schema) && h4_name_ok(meta.modification_history.name@, schema)
            && meta.name@.len() <= 8192 && meta.description@.len() <= 8192,
        r is Ok ==> final(bitstream)@ == old(bitstream)@ + h4_body_bits(meta@, schema),
{
    proof { lemma2_to64(); lemma2_to64_rest(); }
    bitstream.write_qword(meta.creation_history.timestamp, 64)?;
    bitstream.write_qword(meta.creation_history.xuid, 64)?;
    write_h4_name(bitstream, &meta.creation_history.name, schema)?;
    bitstream.write_bool(meta.creation_history.is_online)?;
    bitstream.write_qword(meta.modification_history.timestamp, 64)?;
    bitstream.write_qword(meta.modification_history.xuid, 64)?;
    write_h4_name(bitstream, &meta.modification_history.name, schema)?;
    match schema {
        H4MetaSchema::FixedFifteen => {
            assert(bitstream@ =~= bitstream@ + Seq::<bool>::empty());
        },
        _ => {
            bitstream.write_bool(meta.modification_history.is_online)?;
        },
    }
    bitstream.write_string_wchar(meta.name.as_slice(), 8192)?;
    bitstream.write_string_wchar(meta.description.as_slice(), 8192)?;
    assert(bitstream@ =~= old(bitstream)@ + h4_body_bits(meta@, schema));
    Ok(())
}

/// Writes a Halo 4 metadata header under the "fixed fifteen" schema.
pub fn encode_metadata_h4(meta: &c_content_item_metadata, bitstream: &mut c_bitstream_writer) -> (r: BLFLibResult)
    ensures
        r is Ok <==> h4_metadata_encodable(meta@, H4MetaSchema::FixedFifteen),
        r is Ok ==> final(bitstream)@ == old(bitstream)@ + h4_metadata_bits(meta@, H4MetaSchema::FixedFifteen),
{
    encode_metadata_h4_variant(meta, bitstream, H4MetaSchema::FixedFifteen)
}

/// Writes a Halo 4 metadata header under `schema`, in the order
/// `decode_metadata_h4_variant` reads it: fixed names take the first 15 bytes
/// of each name, zero-padded. Fails when a field does not fit its width or a
/// string its bound.
pub fn encode_metadata_h4_variant(meta: &c_content_item_metadata, bitstream: &mut c_bitstream_writer, schema: H4MetaSchema) -> (r: BLFLibResult)
    ensures
        r is Ok <==> h4_metadata_encodable(meta@, schema),
        r is Ok ==> final(bitstream)@ == old(bitstream)@ + h4_metadata_bits(meta@, schema),
{
    let k: usize = match schema {
        H4MetaSchema::EngineActivity2Bit => 2,
        _ => 3,
    };
    h2a_encode_general(&meta.general, &meta.display, k, bitstream)?;
    h4_encode_body(meta, bitstream, schema)?;
    assert(bitstream@ =~= old(bitstream)@ + h4_metadata_bits(meta@, schema));
    Ok(())
}

/// A name as reading gives it back under `schema`: its first 15 bytes,
/// zero-padded, for fixed names; the name itself otherwise.
pub open spec fn h4_name_read_back(name: Seq<u8>, schema: H4MetaSchema) -> Seq<u8> {
    if schema.fixed_names() { fixed_raw_bytes(name, 15) } else { name }
}

/// The header that reading the encoding of `m` under `schema` gives over
/// `prior`: `m` with its names as reading gives them back, the modifier
/// offline where the schema has no bit for it, and the fields the layout does
/// not carry taken from `prior`.
pub open spec fn h4_carried(m: MetadataModel, schema: H4MetaSchema, prior: MetadataModel) -> MetadataModel {
    MetadataModel {
        general: m.general,
        display: m.display,
        creation_history: HistoryModel {
            name: h4_name_read_back(m.creation_history.name, schema),
            ..m.creation_history
        },
        modification_history: HistoryModel {
            name: h4_name_read_back(m.modification_history.name, schema),
            is_online: if schema.fixed_names() { false } else { m.modification_history.is_online },
            ..m.modification_history
        },
        name: m.name,
        description: m.description,
        ..prior
    }
}

proof fn lemma_h4_name_roundtrip(name: Seq<u8>, schema: H4MetaSchema, rest: Seq<bool>)
    requires
        h4_name_ok(name, schema),
        !schema.fixed_names() ==> no_nul_bytes(name),
    ensures
        h4_name_parse(h4_name_bits(name, schema) + rest, schema)
            == Some((h4_name_read_back(name, schema), h4_name_bits(name, schema).len())),
{
    lemma2_to64();
    if schema.fixed_names() {
        lemma_fixed_field_roundtrip(name, 15, rest);
    } else {
        assert forall|i: int| 0 <= i < byte_units(name).len() implies 0 < #[trigger] byte_units(name)[i] < pow2(8) by {
            assert(name[i] != 0);
        }
        lemma_zstring_roundtrip(byte_units(name), 8, 16, rest);
        assert(units_to_bytes(byte_units(name)) =~= name);
    }
}

/// The bits of both histories under `schema`.
pub open spec fn h4_histories_bits(m: MetadataModel, schema: H4MetaSchema) -> Seq<bool> {
    bits_of(m.creation_history.timestamp as nat, 64) + bits_of(m.creation_history.xuid as nat, 64)
        + h4_name_bits(m.creation_history.name, schema) + seq![m.creation_history.is_online]
        + bits_of(m.modification_history.timestamp as nat, 64) + bits_of(m.modification_history.xuid as nat, 64)
        + h4_name_bits(m.modification_history.name, schema)
        + (if schema.fixed_names() { Seq::empty() } else { seq![m.modification_history.is_online] })
}

/// Both histories of a Halo 4 header, as the format lays them out: the
/// creation time in 64 bits at bit 0, the creator's xuid in 64 bits at bit
/// 64, the creator name from bit 128, then the creator online bit; after it,
/// the modification time and the modifier's xuid (64 bits each), the
/// modifier name, and, where the schema has it, the modifier online bit.
/// Writing puts each field there and reading takes each field from there.
pub proof fn lemma_h4_histories_layout(m: MetadataModel, schema: H4MetaSchema, bits: Seq<bool>)
    ensures ({
        let w = h4_histories_bits(m, schema);
        let ch = m.creation_history;
        let mh = m.modification_history;
        let cn = h4_name_bits(ch.name, schema).len() as int;
        let o = 128 + cn;
        &&& w.subrange(0, 64) == bits_of(ch.timestamp as nat, 64)
        &&& w.subrange(64, 128) == bits_of(ch.xuid as nat, 64)
        &&& w.subrange(128, o) == h4_name_bits(ch.name, schema)
        &&& w[o] == ch.is_online
        &&& w.subrange(o + 1, o + 65) == bits_of(mh.timestamp as nat, 64)
        &&& w.subrange(o + 65, o + 129) == bits_of(mh.xuid as nat, 64)
    }),
    h4_parse_histories(bits, schema) matches Some(p) ==> {
        let o = 128 + (h4_name_parse(bits.skip(128), schema)->0).1;
        &&& p.0.timestamp == field_at(bits, 0, 64) as u64
        &&& p.0.xuid == field_at(bits, 64, 64) as u64
        &&& p.0.is_online == bits[o as int]
        &&& p.1.timestamp == field_at(bits, (o + 1) as int, 64) as u64
        &&& p.1.xuid == field_at(bits, (o + 65) as int, 64) as u64
    },
{
    lemma2_to64();
    lemma2_to64_rest();
    let ch = m.creation_history;
    let mh = m.modification_history;
    lemma_unsigned_roundtrip(ch.timestamp as nat, 64);
    lemma_unsigned_roundtrip(ch.xuid as nat, 64);
    lemma_unsigned_roundtrip(mh.timestamp as nat, 64);
    lemma_unsigned_roundtrip(mh.xuid as nat, 64);
    let t1 = bits_of(ch.timestamp as nat, 64);
    let x1 = bits_of(ch.xuid as nat, 64);
    let cn = h4_name_bits(ch.name, schema);
    let t2 = bits_of(mh.timestamp as nat, 64);
    let x2 = bits_of(mh.xuid as nat, 64);
    let mn = h4_name_bits(mh.name, schema);
    let mo: Seq<bool> = if schema.fixed_names() { Seq::empty() } else { seq![mh.is_online] };
    let w = h4_histories_bits(m, schema);
    assert(w =~= t1 + x1 + cn + seq![ch.is_online] + t2 + x2 + mn + mo);
    let o: int = 128 + cn.len() as int;
    assert(w.subrange(0, 64) =~= t1);
    assert(w.subrange(64, 128) =~= x1);
    assert(w.subrange(128, o as int) =~= cn);
    assert(w[o as int] == ch.is_online);
    assert(w.subrange(o + 1, o + 65) =~= t2);
    assert(w.subrange(o + 65, o + 129) =~= x2);
}


#[verifier::spinoff_prover]
#[verifier::rlimit(100)]
proof fn lemma_h4_histories_roundtrip(m: MetadataModel, schema: H4MetaSchema, rest: Seq<bool>)
    requires
        h4_name_ok(m.creation_history.name, schema),
        h4_name_ok(m.modification_history.name, schema),
        !schema.fixed_names() ==> no_nul_bytes(m.creation_history.name) && no_nul_bytes(m.modification_history.name),
    ensures ({
        let c = h4_carried(m, schema, m);
        h4_parse_histories(h4_histories_bits(m, schema) + rest, schema)
            == Some((c.creation_history, c.modification_history, h4_histories_bits(m, schema).len()))
    }),
{
    lemma2_to64();
    lemma2_to64_rest();
    let ch = m.creation_history;
    let mh = m.modification_history;
    let t1 = bits_of(ch.timestamp as nat, 64);
    let x1 = bits_of(ch.xuid as nat, 64);
    let cn = h4_name_bits(ch.name, schema);
    let t2 = bits_of(mh.timestamp as nat, 64);
    let x2 = bits_of(mh.xuid as nat, 64);
    let mn = h4_name_bits(mh.name, schema);
    let mo: Seq<bool> = if schema.fixed_names() { Seq::empty() } else { seq![mh.is_online] };
    let w = h4_histories_bits(m, schema) + rest;
    lemma_unsigned_roundtrip(ch.timestamp as nat, 64);
    lemma_unsigned_roundtrip(ch.xuid as nat, 64);
    lemma_unsigned_roundtrip(mh.timestamp as nat, 64);
    lemma_unsigned_roundtrip(mh.xuid as nat, 64);
    let after_c = seq![ch.is_online] + t2 + x2 + mn + mo + rest;
    lemma_h4_name_roundtrip(ch.name, schema, after_c);
    let after_m = mo + rest;
    lemma_h4_name_roundtrip(mh.name, schema, after_m);
    let o = 128 + cn.len();
    assert(w =~= t1 + x1 + cn + after_c);
    assert(w.skip(128) =~= cn + after_c);
    assert(w.subrange(0, 64) =~= t1);
    assert(w.subrange(64, 128) =~= x1);
    assert(w[o as int] == ch.is_online);
    assert(w.subrange((o + 1) as int, (o + 65) as int) =~= t2);
    assert(w.subrange((o + 65) as int, (o + 129) as int) =~= x2);
    assert(w.skip((o + 129) as int) =~= mn + after_m);
    let e = o + 129 + mn.len();
    if !schema.fixed_names() {
        assert(w[e as int] == mh.is_online);
    }
}

#[verifier::spinoff_prover]
#[verifier::rlimit(100)]
proof fn lemma_h4_body_roundtrip(m: MetadataModel, schema: H4MetaSchema, rest: Seq<bool>)
    requires
        h4_name_ok(m.creation_history.name, schema),
        h4_name_ok(m.modification_history.name, schema),
        m.name.len() <= 8192,
        m.description.len() <= 8192,
        !schema.fixed_names() ==> no_nul_bytes(m.creation_history.name) && no_nul_bytes(m.modification_history.name),
        no_nul_units(m.name),
        no_nul_units(m.description),
    ensures ({
        let c = h4_carried(m, schema, m);
        h4_parse_body(h4_body_bits(m, schema) + rest, schema) == Some((H4Body {
            creation_history: c.creation_history,
            modification_history: c.modification_history,
            name: m.name,
            description: m.description,
        }, h4_body_bits(m, schema).len()))
    }),
{
    let hb = h4_histories_bits(m, schema);
    let zn = zstring_bits(wide_units(m.name), 16, 8192);
    let zd = zstring_bits(wide_units(m.description), 16, 8192);
    let w = h4_body_bits(m, schema) + rest;
    assert(w =~= hb + (zn + zd + rest));
    lemma_h4_histories_roundtrip(m, schema, zn + zd + rest);
    lemma_h2a_text_roundtrip(m.name, zd + rest);
    lemma_h2a_text_roundtrip(m.description, rest);
    assert(w.skip(hb.len() as int) =~= zn + (zd + rest));
    assert(w.skip((hb.len() + zn.len()) as int) =~= zd + rest);
}

/// Reading back what `encode_metadata_h4_variant` wrote under the same schema
/// gives the header back, whatever follows it, as long as no string holds a
/// NUL: fixed names come back as their first 15 bytes, zero-padded, and the
/// modifier as offline where the schema has no bit for it; the fields the
/// layout does not carry keep their prior value.
#[verifier::spinoff_prover]
#[verifier::rlimit(100)]
pub proof fn lemma_h4_metadata_roundtrip(m: MetadataModel, schema: H4MetaSchema, prior: MetadataModel, rest: Seq<bool>)
    requires
        h4_metadata_encodable(m, schema),
        !schema.fixed_names() ==> no_nul_bytes(m.creation_history.name) && no_nul_bytes(m.modification_history.name),
        no_nul_units(m.name),
        no_nul_units(m.description),
    ensures
        parse_h4_metadata(h4_metadata_bits(m, schema) + rest, schema, prior)
            == Some((h4_carried(m, schema, prior), h4_metadata_bits(m, schema).len())),
{
    let k = schema.activity_width();
    let gb = h2a_general_bits(m.general, m.display, k);
    let bb = h4_body_bits(m, schema);
    lemma_h2a_general_roundtrip(m.general, m.display, k, bb + rest);
    lemma_h4_body_roundtrip(m, schema, rest);
    assert(h4_metadata_bits(m, schema) + rest =~= gb + (bb + rest));
    assert((h4_metadata_bits(m, schema) + rest).skip(h2a_general_len(k) as int) =~= bb + rest);
}

} // verus!
