//! The Halo 2 Anniversary content item metadata: the Reach layout up to the
//! creation history, then only the modification time and xuid (no modifier
//! name, no modifier online bit), then the name and description. The creator
//! name is NUL-bounded in at most 64 bytes, the name and description in at
//! most 8192 UTF-16 units. The activity is 3 bits wide in the legacy schema
//! and 2 bits wide in the engine's own.

use vstd::prelude::*;
use vstd::arithmetic::power2::*;
use crate::io::bitstream::{
    c_bitstream_writer, c_bitstream_reader, bits_of, signed_bits_of, field_at, sign_extend, zstring_bits,
    zstring_parse, lemma_zstring_parse_len, lemma_zstring_roundtrip, lemma_unsigned_roundtrip,
    lemma_signed_roundtrip, byte_units, wide_units, group_bitstream_seq,
};
use crate::io::strings::{
    units_to_bytes, units_to_wide, lemma_bytes_from_units, lemma_wide_from_units, no_nul_bytes, no_nul_units,
};
use crate::result::BLFLibResult;
use crate::blam::haloreach_mcc::v_untracked_25_08_16_1352::saved_games::saved_game_files::{
    c_content_item_metadata, s_content_item_general_metadata, s_content_item_display_metadata,
    s_content_item_history, HistoryModel, MetadataModel, read_biased, write_biased,
};

verus! {

broadcast use group_bitstream_seq;

/// Which Halo 2 Anniversary metadata schema a payload is read or written with.
#[derive(Default, PartialEq, Eq, Debug, Clone, Copy)]
pub enum H2AMetaSchema {
    /// The activity in 3 bits.
    #[default]
    Legacy3BitActivity,
    /// The activity in 2 bits, as the engine reads it.
    EngineActivity2Bit,
}

impl H2AMetaSchema {
    /// The width of the activity field under the schema.
    pub open spec fn activity_width(self) -> nat {
        match self {
            H2AMetaSchema::Legacy3BitActivity => 3,
            H2AMetaSchema::EngineActivity2Bit => 2,
        }
    }

    /// The width of the activity field under the schema.
    pub fn activity_bits(&self) -> (n: usize)
        ensures
            n == self.activity_width(),
    {
        match self {
            H2AMetaSchema::Legacy3BitActivity => 3,
            H2AMetaSchema::EngineActivity2Bit => 2,
        }
    }
}

/// The bound of the creator name, in bytes.
pub open spec fn h2a_creator_max() -> nat {
    64
}

/// The bound of the name and the description, in UTF-16 units.
pub open spec fn h2a_text_max() -> nat {
    8192
}

/// The number of bits of the fixed-width part, with a `k`-bit activity.
pub open spec fn h2a_general_len(k: nat) -> nat {
    338 + k
}

/// The bits of the fixed-width part, with a `k`-bit activity.
pub open spec fn h2a_general_bits(g: s_content_item_general_metadata, d: s_content_item_display_metadata, k: nat) -> Seq<bool> {
    bits_of((g.file_type + 1) as nat, 4) + bits_of(g.size_in_bytes as nat, 32)
        + bits_of(g.unique_id as nat, 64) + bits_of(g.parent_unique_id as nat, 64)
        + bits_of(g.root_unique_id as nat, 64) + bits_of(g.game_id as nat, 64)
        + bits_of((g.activity + 1) as nat, k) + bits_of(g.game_mode as nat, 3)
        + bits_of(g.game_engine_type as nat, 3) + signed_bits_of(g.map_id as int, 32)
        + signed_bits_of(d.megalo_category_index as int, 8)
}

/// The general metadata that the first `h2a_general_len(k)` bits encode.
pub open spec fn h2a_parse_general(bits: Seq<bool>, k: nat) -> s_content_item_general_metadata {
    s_content_item_general_metadata {
        file_type: (field_at(bits, 0, 4) - 1) as i8,
        size_in_bytes: field_at(bits, 4, 32) as u32,
        unique_id: field_at(bits, 36, 64) as u64,
        parent_unique_id: field_at(bits, 100, 64) as u64,
        root_unique_id: field_at(bits, 164, 64) as u64,
        game_id: field_at(bits, 228, 64) as u64,
        activity: (field_at(bits, 292, k as int) - 1) as i8,
        game_mode: field_at(bits, 292 + k as int, 3) as u8,
        game_engine_type: field_at(bits, 295 + k as int, 3) as u8,
        map_id: sign_extend(field_at(bits, 298 + k as int, 32), 32) as i32,
    }
}

/// The display metadata that the first `h2a_general_len(k)` bits encode.
pub open spec fn h2a_parse_display(bits: Seq<bool>, k: nat) -> s_content_item_display_metadata {
    s_content_item_display_metadata { megalo_category_index: sign_extend(field_at(bits, 330 + k as int, 8), 8) as i8 }
}

/// Whether the fixed-width fields fit, with a `k`-bit activity.
pub open spec fn h2a_general_encodable(g: s_content_item_general_metadata, k: nat) -> bool {
    &&& -1 <= g.file_type <= 14
    &&& 0 <= g.activity + 1 < pow2(k)
    &&& g.game_mode < 8
    &&& g.game_engine_type < 8
}

/// The bits of everything after the fixed-width part.
pub open spec fn h2a_body_bits(m: MetadataModel) -> Seq<bool> {
    bits_of(m.creation_history.timestamp as nat, 64) + bits_of(m.creation_history.xuid as nat, 64)
        + zstring_bits(byte_units(m.creation_history.name), 8, h2a_creator_max())
        + seq![m.creation_history.is_online]
        + bits_of(m.modification_history.timestamp as nat, 64) + bits_of(m.modification_history.xuid as nat, 64)
        + zstring_bits(wide_units(m.name), 16, h2a_text_max())
        + zstring_bits(wide_units(m.description), 16, h2a_text_max())
}

/// The encoding of a metadata header under a schema with a `k`-bit activity.
pub open spec fn h2a_metadata_bits(m: MetadataModel, k: nat) -> Seq<bool> {
    h2a_general_bits(m.general, m.display, k) + h2a_body_bits(m)
}

/// Whether a header can be written with a `k`-bit activity: every field fits
/// its width and every string its bound.
pub open spec fn h2a_metadata_encodable(m: MetadataModel, k: nat) -> bool {
    &&& h2a_general_encodable(m.general, k)
    &&& m.creation_history.name.len() <= h2a_creator_max()
    &&& m.name.len() <= h2a_text_max()
    &&& m.description.len() <= h2a_text_max()
}

/// The creator name read from the front of `bits` and the bits it took; an
/// empty name taking no bits when that read fails.
pub open spec fn h2a_parse_creator_name(bits: Seq<bool>) -> (Seq<u8>, nat) {
    match zstring_parse(bits, 8, h2a_creator_max()) {
        None => (Seq::empty(), 0),
        Some(p) => (units_to_bytes(p.0), p.1),
    }
}

/// What the body of a header holds.
pub struct H2ABody {
    pub creation_history: HistoryModel,
    pub modification_timestamp: u64,
    pub modification_xuid: u64,
    pub name: Seq<u16>,
    pub description: Seq<u16>,
}

/// Reading the body of a header from the front of `bits`: the creation
/// history, the modification time and xuid, the name and the description,
/// and the bits they took; `None` when the bits run out.
pub open spec fn h2a_parse_body(bits: Seq<bool>) -> Option<(H2ABody, nat)> {
    if bits.len() < 128 {
        None
    } else {
        let c = h2a_parse_creator_name(bits.skip(128));
        let o = 128 + c.1;
        if bits.len() < o + 129 {
            None
        } else {
            match zstring_parse(bits.skip((o + 129) as int), 16, h2a_text_max()) {
                None => None,
                Some(n) => match zstring_parse(bits.skip((o + 129 + n.1) as int), 16, h2a_text_max()) {
                    None => None,
                    Some(d) => Some((H2ABody {
                        creation_history: HistoryModel {
                            timestamp: field_at(bits, 0, 64) as u64,
                            xuid: field_at(bits, 64, 64) as u64,
                            name: c.0,
                            is_online: bits[o as int],
                        },
                        modification_timestamp: field_at(bits, (o + 1) as int, 64) as u64,
                        modification_xuid: field_at(bits, (o + 65) as int, 64) as u64,
                        name: units_to_wide(n.0),
                        description: units_to_wide(d.0),
                    }, o + 129 + n.1 + d.1)),
                },
            }
        }
    }
}

/// The header that reading gives over `prior`: the fields that the Halo 2
/// Anniversary layout carries from `m`, every other field from `prior`.
pub open spec fn h2a_carried(m: MetadataModel, prior: MetadataModel) -> MetadataModel {
    MetadataModel {
        general: m.general,
        display: m.display,
        creation_history: m.creation_history,
        modification_history: HistoryModel {
            timestamp: m.modification_history.timestamp,
            xuid: m.modification_history.xuid,
            ..prior.modification_history
        },
        name: m.name,
        description: m.description,
        ..prior
    }
}

/// Reading a header from the front of `bits` over `prior`, with a `k`-bit
/// activity: the header and the bits it took, or `None` when the bits run
/// out. Fields that the layout does not carry keep their prior value.
pub open spec fn parse_h2a_metadata(bits: Seq<bool>, k: nat, prior: MetadataModel) -> Option<(MetadataModel, nat)> {
    if bits.len() < h2a_general_len(k) {
        None
    } else {
        match h2a_parse_body(bits.skip(h2a_general_len(k) as int)) {
            None => None,
            Some(b) => Some((MetadataModel {
                general: h2a_parse_general(bits, k),
                display: h2a_parse_display(bits, k),
                creation_history: b.0.creation_history,
                modification_history: HistoryModel {
                    timestamp: b.0.modification_timestamp,
                    xuid: b.0.modification_xuid,
                    ..prior.modification_history
                },
                name: b.0.name,
                description: b.0.description,
                ..prior
            }, h2a_general_len(k) + b.1)),
        }
    }
}

pub(crate) fn h2a_read_general(bitstream: &mut c_bitstream_reader, k: usize) -> (r: BLFLibResult<(s_content_item_general_metadata, s_content_item_display_metadata)>)
    requires
        k == 2 || k == 3,
    ensures
        final(bitstream).data() == old(bitstream).data(),
        r is Ok <==> old(bitstream).remaining().len() >= h2a_general_len(k as nat),
        r matches Ok(v) ==> v.0 == h2a_parse_general(old(bitstream).remaining(), k as nat)
            && v.1 == h2a_parse_display(old(bitstream).remaining(), k as nat)
            && final(bitstream).remaining() == old(bitstream).remaining().skip(h2a_general_len(k as nat) as int),
{
    let ghost rem = bitstream.remaining();
    proof { lemma2_to64(); lemma2_to64_rest(); }
    let file_type = read_biased(bitstream, 4)?;
    let size_in_bytes = bitstream.read_integer("file-size", 32)? as u32;
    let unique_id = bitstream.read_qword(64)?;
    let parent_unique_id = bitstream.read_qword(64)?;
    let root_unique_id = bitstream.read_qword(64)?;
    let game_id = bitstream.read_qword(64)?;
    let activity = read_biased(bitstream, k)?;
    let game_mode = bitstream.read_integer("game-mode", 3)? as u8;
    let game_engine_type = bitstream.read_integer("game-engine-type", 3)? as u8;
    let map_id = bitstream.read_signed_integer("map-id", 32)? as i32;
    let megalo_category_index = bitstream.read_signed_integer("megalo-category-index", 8)? as i8;
    let g = s_content_item_general_metadata {
        file_type,
        size_in_bytes,
        unique_id,
        parent_unique_id,
        root_unique_id,
        game_id,
        activity,
        game_mode,
        game_engine_type,
        map_id,
    };
    let d = s_content_item_display_metadata { megalo_category_index };
    Ok((g, d))
}

fn h2a_read_body(bitstream: &mut c_bitstream_reader) -> (r: BLFLibResult<(s_content_item_history, u64, u64, Vec<u16>, Vec<u16>)>)
    ensures
        final(bitstream).data() == old(bitstream).data(),
        match h2a_parse_body(old(bitstream).remaining()) {
            None => r is Err,
            Some(p) => r matches Ok(v) && v.0@ == p.0.creation_history && v.1 == p.0.modification_timestamp
                && v.2 == p.0.modification_xuid && v.3@ == p.0.name && v.4@ == p.0.description
                && final(bitstream).remaining() == old(bitstream).remaining().skip(p.1 as int),
        },
{
    let ghost rem = bitstream.remaining();
    proof { lemma2_to64(); lemma2_to64_rest(); }
    let timestamp = bitstream.read_qword(64)?;
    let xuid = bitstream.read_qword(64)?;
    let ghost at_name = bitstream.remaining();
    assert(at_name == rem.skip(128));
    let name: Vec<u8> = match bitstream.read_string_extended_ascii(64) {
        Ok(v) => v,
        Err(_) => Vec::new(),
    };
    let ghost c = h2a_parse_creator_name(rem.skip(128));
    proof {
        lemma_zstring_parse_len(rem.skip(128), 8, 64);
        if let Some(p) = zstring_parse(rem.skip(128), 8, 64) {
            lemma_bytes_from_units(name@, p.0);
        } else {
            assert(name@ =~= Seq::<u8>::empty());
        }
        assert(name@ == c.0);
        assert(bitstream.remaining() == rem.skip((128 + c.1) as int));
    }
    let ghost o = 128 + c.1;
    let is_online = bitstream.read_bool("author-flags")?;
    let modification_timestamp = bitstream.read_qword(64)?;
    let modification_xuid = bitstream.read_qword(64)?;
    proof {
        assert(rem.skip((o + 1) as int).take(64) =~= rem.subrange((o + 1) as int, (o + 65) as int));
        assert(rem.skip((o + 65) as int).take(64) =~= rem.subrange((o + 65) as int, (o + 129) as int));
    }
    let ghost at_text = bitstream.remaining();
    assert(at_text == rem.skip((o + 129) as int));
    let text = bitstream.read_string_wchar(8192)?;
    let ghost n = zstring_parse(rem.skip((o + 129) as int), 16, 8192)->0;
    proof {
        lemma_wide_from_units(text@, n.0);
        lemma_zstring_parse_len(rem.skip((o + 129) as int), 16, 8192);
    }
    let description = bitstream.read_string_wchar(8192)?;
    let ghost dd = zstring_parse(rem.skip((o + 129 + n.1) as int), 16, 8192)->0;
    proof {
        lemma_wide_from_units(description@, dd.0);
        lemma_zstring_parse_len(rem.skip((o + 129 + n.1) as int), 16, 8192);
    }
    assert(rem.take(64) =~= rem.subrange(0, 64));
    assert(rem.skip(64).take(64) =~= rem.subrange(64, 128));
    assert(is_online == rem[o as int]);
    let history = s_content_item_history { timestamp, xuid, name, is_online };
    proof {
        assert(zstring_parse(rem.skip((o + 129) as int), 16, h2a_text_max()) == Some(n));
        assert(zstring_parse(rem.skip((o + 129 + n.1) as int), 16, h2a_text_max()) == Some(dd));
        let p = h2a_parse_body(rem)->0;
        assert(h2a_parse_body(rem) is Some);
        assert(p.0.creation_history == history@);
        assert(p.0.modification_timestamp == modification_timestamp);
        assert(p.0.modification_xuid == modification_xuid);
        assert(p.0.name == text@);
        assert(p.0.description == description@);
        assert(p.1 == o + 129 + n.1 + dd.1);
        assert(bitstream.remaining() == rem.skip((o + 129 + n.1 + dd.1) as int));
    }
    Ok((history, modification_timestamp, modification_xuid, text, description))
}

/// Reads a Halo 2 Anniversary metadata header with the legacy 3-bit activity.
pub fn decode_metadata_h2a(meta: &mut c_content_item_metadata, bitstream: &mut c_bitstream_reader) -> (r: BLFLibResult)
    ensures
        final(bitstream).data() == old(bitstream).data(),
        match parse_h2a_metadata(old(bitstream).remaining(), 3, old(meta)@) {
            None => r is Err,
            Some(p) => r is Ok && final(meta)@ == p.0
                && final(bitstream).remaining() == old(bitstream).remaining().skip(p.1 as int),
        },
{
    decode_metadata_h2a_variant(meta, bitstream, H2AMetaSchema::Legacy3BitActivity)
}

/// Reads a Halo 2 Anniversary metadata header under `schema`: the fixed-width
/// fields with the schema's activity width, the creation history (an unreadable
/// creator name reads as empty), the modification time and xuid, the name and
/// the description. Fails when the data runs out.
pub fn decode_metadata_h2a_variant(meta: &mut c_content_item_metadata, bitstream: &mut c_bitstream_reader, schema: H2AMetaSchema) -> (r: BLFLibResult)
    ensures
        final(bitstream).data() == old(bitstream).data(),
        match parse_h2a_metadata(old(bitstream).remaining(), schema.activity_width(), old(meta)@) {
            None => r is Err,
            Some(p) => r is Ok && final(meta)@ == p.0
                && final(bitstream).remaining() == old(bitstream).remaining().skip(p.1 as int),
        },
{
    let ghost rem = bitstream.remaining();
    let k = schema.activity_bits();
    let (g, d) = h2a_read_general(bitstream, k)?;
    let (creation, modification_timestamp, modification_xuid, name, description) = h2a_read_body(bitstream)?;
    meta.general = g;
    meta.display = d;
    meta.creation_history = creation;
    meta.modification_history.timestamp = modification_timestamp;
    meta.modification_history.xuid = modification_xuid;
    meta.name = name;
    meta.description = description;
    proof {
        lemma_h2a_body_len(rem.skip(h2a_general_len(k as nat) as int));
        let b = h2a_parse_body(rem.skip(h2a_general_len(k as nat) as int))->0;
        assert(bitstream.remaining() == rem.skip((h2a_general_len(k as nat) + b.1) as int));
        let parsed = parse_h2a_metadata(rem, k as nat, old(meta)@)->0;
        assert(meta@ == parsed.0);
    }
    Ok(())
}

pub(crate) fn h2a_encode_general(g: &s_content_item_general_metadata, d: &s_content_item_display_metadata, k: usize, bitstream: &mut c_bitstream_writer) -> (r: BLFLibResult)
    requires
        k == 2 || k == 3,
    ensures
        r is Ok <==> h2a_general_encodable(*g, k as nat),
        r is Ok ==> final(bitstream)@ == old(bitstream)@ + h2a_general_bits(*g, *d, k as nat),
{
    proof { lemma2_to64(); lemma2_to64_rest(); }
    write_biased(bitstream, g.file_type, 4)?;
    bitstream.write_integer(g.size_in_bytes as u64, 32)?;
    bitstream.write_qword(g.unique_id, 64)?;
    bitstream.write_qword(g.parent_unique_id, 64)?;
    bitstream.write_qword(g.root_unique_id, 64)?;
    bitstream.write_qword(g.game_id, 64)?;
    write_biased(bitstream, g.activity, k)?;
    bitstream.write_integer(g.game_mode as u64, 3)?;
    bitstream.write_integer(g.game_engine_type as u64, 3)?;
    bitstream.write_signed_integer(g.map_id as i64, 32)?;
    bitstream.write_signed_integer(d.megalo_category_index as i64, 8)?;
    assert(bitstream@ =~= old(bitstream)@ + h2a_general_bits(*g, *d, k as nat));
    Ok(())
}

/// Writes a Halo 2 Anniversary metadata header with the legacy 3-bit activity.
pub fn encode_metadata_h2a(meta: &c_content_item_metadata, bitstream: &mut c_bitstream_writer) -> (r: BLFLibResult)
    ensures
        r is Ok <==> h2a_metadata_encodable(meta@, 3),
        r is Ok ==> final(bitstream)@ == old(bitstream)@ + h2a_metadata_bits(meta@, 3),
{
    encode_metadata_h2a_variant(meta, bitstream, H2AMetaSchema::Legacy3BitActivity)
}

/// Writes a Halo 2 Anniversary metadata header under `schema`, in the order
/// `decode_metadata_h2a_variant` reads it. Fails when a field does not fit
/// its width or a string its bound.
pub fn encode_metadata_h2a_variant(meta: &c_content_item_metadata, bitstream: &mut c_bitstream_writer, schema: H2AMetaSchema) -> (r: BLFLibResult)
    ensures
        r is Ok <==> h2a_metadata_encodable(meta@, schema.activity_width()),
        r is Ok ==> final(bitstream)@ == old(bitstream)@ + h2a_metadata_bits(meta@, schema.activity_width()),
{
    let k = schema.activity_bits();
    h2a_encode_general(&meta.general, &meta.display, k, bitstream)?;
    h2a_encode_body(meta, bitstream)?;
    assert(bitstream@ =~= old(bitstream)@ + h2a_metadata_bits(meta@, schema.activity_width()));
    Ok(())
}

fn h2a_encode_body(meta: &c_content_item_metadata, bitstream: &mut c_bitstream_writer) -> (r: BLFLibResult)
    ensures
        r is Ok <==> meta.creation_history.name@.len() <= h2a_creator_max() && meta.name@.len() <= h2a_text_max()
            && meta.description@.len() <= h2a_text_max(),
        r is Ok ==> final(bitstream)@ == old(bitstream)@ + h2a_body_bits(meta@),
{
    proof { lemma2_to64(); lemma2_to64_rest(); }
    bitstream.write_qword(meta.creation_history.timestamp, 64)?;
    bitstream.write_qword(meta.creation_history.xuid, 64)?;
    bitstream.write_string_extended_ascii(meta.creation_history.name.as_slice(), 64)?;
    bitstream.write_bool(meta.creation_history.is_online)?;
    bitstream.write_qword(meta.modification_history.timestamp, 64)?;
    bitstream.write_qword(meta.modification_history.xuid, 64)?;
    bitstream.write_string_wchar(meta.name.as_slice(), 8192)?;
    bitstream.write_string_wchar(meta.description.as_slice(), 8192)?;
    assert(bitstream@ =~= old(bitstream)@ + h2a_body_bits(meta@));
    Ok(())
}

proof fn lemma_h2a_body_len(bits: Seq<bool>)
    ensures
        h2a_parse_body(bits) matches Some(p) ==> p.1 <= bits.len(),
{
    if bits.len() >= 128 {
        lemma_zstring_parse_len(bits.skip(128), 8, 64);
        let c = h2a_parse_creator_name(bits.skip(128));
        let o = 128 + c.1;
        if bits.len() >= o + 129 {
            lemma_zstring_parse_len(bits.skip((o + 129) as int), 16, 8192);
            if let Some(n) = zstring_parse(bits.skip((o + 129) as int), 16, 8192) {
                lemma_zstring_parse_len(bits.skip((o + 129 + n.1) as int), 16, 8192);
            }
        }
    }
}

pub(crate) proof fn lemma_h2a_general_roundtrip(g: s_content_item_general_metadata, d: s_content_item_display_metadata, k: nat, rest: Seq<bool>)
    requires
        k == 2 || k == 3,
        h2a_general_encodable(g, k),
    ensures
        h2a_general_bits(g, d, k).len() == h2a_general_len(k),
        h2a_parse_general(h2a_general_bits(g, d, k) + rest, k) == g,
        h2a_parse_display(h2a_general_bits(g, d, k) + rest, k) == d,
{
    lemma2_to64();
    lemma2_to64_rest();
    lemma_unsigned_roundtrip((g.file_type + 1) as nat, 4);
    lemma_unsigned_roundtrip(g.size_in_bytes as nat, 32);
    lemma_unsigned_roundtrip(g.unique_id as nat, 64);
    lemma_unsigned_roundtrip(g.parent_unique_id as nat, 64);
    lemma_unsigned_roundtrip(g.root_unique_id as nat, 64);
    lemma_unsigned_roundtrip(g.game_id as nat, 64);
    lemma_unsigned_roundtrip((g.activity + 1) as nat, k);
    lemma_unsigned_roundtrip(g.game_mode as nat, 3);
    lemma_unsigned_roundtrip(g.game_engine_type as nat, 3);
    lemma_signed_roundtrip(g.map_id as int, 32);
    lemma_signed_roundtrip(d.megalo_category_index as int, 8);
    let w = h2a_general_bits(g, d, k) + rest;
    let ki = k as int;
    assert(w.subrange(0, 4) =~= bits_of((g.file_type + 1) as nat, 4));
    assert(w.subrange(4, 36) =~= bits_of(g.size_in_bytes as nat, 32));
    assert(w.subrange(36, 100) =~= bits_of(g.unique_id as nat, 64));
    assert(w.subrange(100, 164) =~= bits_of(g.parent_unique_id as nat, 64));
    assert(w.subrange(164, 228) =~= bits_of(g.root_unique_id as nat, 64));
    assert(w.subrange(228, 292) =~= bits_of(g.game_id as nat, 64));
    assert(w.subrange(292, 292 + ki) =~= bits_of((g.activity + 1) as nat, k));
    assert(w.subrange(292 + ki, 295 + ki) =~= bits_of(g.game_mode as nat, 3));
    assert(w.subrange(295 + ki, 298 + ki) =~= bits_of(g.game_engine_type as nat, 3));
    assert(w.subrange(298 + ki, 330 + ki) =~= signed_bits_of(g.map_id as int, 32));
    assert(w.subrange(330 + ki, 338 + ki) =~= signed_bits_of(d.megalo_category_index as int, 8));
}

/// The fixed-width part of a header with a `k`-bit activity, as the format
/// lays it out: the file type plus one in 4 bits at bit 0, the size in 32
/// bits at bit 4, the unique id at 36, the parent's unique id at 100, the
/// root's unique id at 164 and the game id at 228 (64 bits each), the
/// activity plus one in `k` bits at 292, then the game mode and the engine
/// type (3 bits each), the signed map id in 32 bits and the signed megalo
/// category in 8 bits. Writing puts each field there and reading takes each
/// field from there.
pub proof fn lemma_h2a_general_layout(g: s_content_item_general_metadata, d: s_content_item_display_metadata, k: nat, bits: Seq<bool>)
    requires
        k == 2 || k == 3,
        h2a_general_encodable(g, k),
    ensures ({
        let w = h2a_general_bits(g, d, k);
        let ki = k as int;
        &&& w.len() == 338 + k
        &&& w.subrange(0, 4) == bits_of((g.file_type + 1) as nat, 4)
        &&& w.subrange(4, 36) == bits_of(g.size_in_bytes as nat, 32)
        &&& w.subrange(36, 100) == bits_of(g.unique_id as nat, 64)
        &&& w.subrange(100, 164) == bits_of(g.parent_unique_id as nat, 64)
        &&& w.subrange(164, 228) == bits_of(g.root_unique_id as nat, 64)
        &&& w.subrange(228, 292) == bits_of(g.game_id as nat, 64)
        &&& w.subrange(292, 292 + ki) == bits_of((g.activity + 1) as nat, k)
        &&& w.subrange(292 + ki, 295 + ki) == bits_of(g.game_mode as nat, 3)
        &&& w.subrange(295 + ki, 298 + ki) == bits_of(g.game_engine_type as nat, 3)
        &&& w.subrange(298 + ki, 330 + ki) == signed_bits_of(g.map_id as int, 32)
        &&& w.subrange(330 + ki, 338 + ki) == signed_bits_of(d.megalo_category_index as int, 8)
    }),
    ({
        let p = h2a_parse_general(bits, k);
        let ki = k as int;
        &&& p.file_type == (field_at(bits, 0, 4) - 1) as i8
        &&& p.size_in_bytes == field_at(bits, 4, 32) as u32
        &&& p.unique_id == field_at(bits, 36, 64) as u64
        &&& p.parent_unique_id == field_at(bits, 100, 64) as u64
        &&& p.root_unique_id == field_at(bits, 164, 64) as u64
        &&& p.game_id == field_at(bits, 228, 64) as u64
        &&& p.activity == (field_at(bits, 292, ki) - 1) as i8
        &&& p.game_mode == field_at(bits, 292 + ki, 3) as u8
        &&& p.game_engine_type == field_at(bits, 295 + ki, 3) as u8
        &&& p.map_id == sign_extend(field_at(bits, 298 + ki, 32), 32) as i32
        &&& h2a_parse_display(bits, k).megalo_category_index == sign_extend(field_at(bits, 330 + ki, 8), 8) as i8
    }),
{
    lemma2_to64();
    lemma2_to64_rest();
    lemma_unsigned_roundtrip((g.file_type + 1) as nat, 4);
    lemma_unsigned_roundtrip(g.size_in_bytes as nat, 32);
    lemma_unsigned_roundtrip(g.unique_id as nat, 64);
    lemma_unsigned_roundtrip(g.parent_unique_id as nat, 64);
    lemma_unsigned_roundtrip(g.root_unique_id as nat, 64);
    lemma_unsigned_roundtrip(g.game_id as nat, 64);
    lemma_unsigned_roundtrip((g.activity + 1) as nat, k);
    lemma_unsigned_roundtrip(g.game_mode as nat, 3);
    lemma_unsigned_roundtrip(g.game_engine_type as nat, 3);
    lemma_signed_roundtrip(g.map_id as int, 32);
    lemma_signed_roundtrip(d.megalo_category_index as int, 8);
    let w = h2a_general_bits(g, d, k);
    let ki = k as int;
    assert(w.subrange(0, 4) =~= bits_of((g.file_type + 1) as nat, 4));
    assert(w.subrange(4, 36) =~= bits_of(g.size_in_bytes as nat, 32));
    assert(w.subrange(36, 100) =~= bits_of(g.unique_id as nat, 64));
    assert(w.subrange(100, 164) =~= bits_of(g.parent_unique_id as nat, 64));
    assert(w.subrange(164, 228) =~= bits_of(g.root_unique_id as nat, 64));
    assert(w.subrange(228, 292) =~= bits_of(g.game_id as nat, 64));
    assert(w.subrange(292, 292 + ki) =~= bits_of((g.activity + 1) as nat, k));
    assert(w.subrange(292 + ki, 295 + ki) =~= bits_of(g.game_mode as nat, 3));
    assert(w.subrange(295 + ki, 298 + ki) =~= bits_of(g.game_engine_type as nat, 3));
    assert(w.subrange(298 + ki, 330 + ki) =~= signed_bits_of(g.map_id as int, 32));
    assert(w.subrange(330 + ki, 338 + ki) =~= signed_bits_of(d.megalo_category_index as int, 8));
}

pub(crate) proof fn lemma_h2a_text_roundtrip(t: Seq<u16>, rest: Seq<bool>)
    requires
        t.len() <= h2a_text_max(),
        no_nul_units(t),
    ensures
        zstring_parse(zstring_bits(wide_units(t), 16, 8192) + rest, 16, 8192)
            == Some((wide_units(t), zstring_bits(wide_units(t), 16, 8192).len())),
        units_to_wide(wide_units(t)) == t,
{
    lemma2_to64();
    assert forall|i: int| 0 <= i < wide_units(t).len() implies 0 < #[trigger] wide_units(t)[i] < pow2(16) by {
        assert(t[i] != 0);
    }
    lemma_zstring_roundtrip(wide_units(t), 16, 8192, rest);
    assert(units_to_wide(wide_units(t)) =~= t);
}

proof fn lemma_h2a_creator_roundtrip(name: Seq<u8>, rest: Seq<bool>)
    requires
        name.len() <= h2a_creator_max(),
        no_nul_bytes(name),
    ensures
        h2a_parse_creator_name(zstring_bits(byte_units(name), 8, 64) + rest)
            == (name, zstring_bits(byte_units(name), 8, 64).len()),
{
    lemma2_to64();
    assert forall|i: int| 0 <= i < byte_units(name).len() implies 0 < #[trigger] byte_units(name)[i] < pow2(8) by {
        assert(name[i] != 0);
    }
    lemma_zstring_roundtrip(byte_units(name), 8, 64, rest);
    assert(units_to_bytes(byte_units(name)) =~= name);
}

#[verifier::spinoff_prover]
#[verifier::rlimit(50)]
proof fn lemma_h2a_body_roundtrip(m: MetadataModel, rest: Seq<bool>)
    requires
        m.creation_history.name.len() <= h2a_creator_max(),
        m.name.len() <= h2a_text_max(),
        m.description.len() <= h2a_text_max(),
        no_nul_bytes(m.creation_history.name),
        no_nul_units(m.name),
        no_nul_units(m.description),
    ensures
        h2a_parse_body(h2a_body_bits(m) + rest) == Some((H2ABody {
            creation_history: m.creation_history,
            modification_timestamp: m.modification_history.timestamp,
            modification_xuid: m.modification_history.xuid,
            name: m.name,
            description: m.description,
        }, h2a_body_bits(m).len())),
{
    lemma2_to64();
    lemma2_to64_rest();
    let h = m.creation_history;
    let t1 = bits_of(h.timestamp as nat, 64);
    let x1 = bits_of(h.xuid as nat, 64);
    let zc = zstring_bits(byte_units(h.name), 8, 64);
    let t2 = bits_of(m.modification_history.timestamp as nat, 64);
    let x2 = bits_of(m.modification_history.xuid as nat, 64);
    let zn = zstring_bits(wide_units(m.name), 16, 8192);
    let zd = zstring_bits(wide_units(m.description), 16, 8192);
    let w = h2a_body_bits(m) + rest;
    lemma_unsigned_roundtrip(h.timestamp as nat, 64);
    lemma_unsigned_roundtrip(h.xuid as nat, 64);
    lemma_unsigned_roundtrip(m.modification_history.timestamp as nat, 64);
    lemma_unsigned_roundtrip(m.modification_history.xuid as nat, 64);
    let tail = seq![h.is_online] + t2 + x2 + zn + zd + rest;
    lemma_h2a_creator_roundtrip(h.name, tail);
    lemma_h2a_text_roundtrip(m.name, zd + rest);
    lemma_h2a_text_roundtrip(m.description, rest);
    let o = 128 + zc.len();
    assert(w =~= t1 + x1 + zc + tail);
    assert(w.skip(128) =~= zc + tail);
    assert(w.subrange(0, 64) =~= t1);
    assert(w.subrange(64, 128) =~= x1);
    assert(w[o as int] == h.is_online);
    assert(w.subrange((o + 1) as int, (o + 65) as int) =~= t2);
    assert(w.subrange((o + 65) as int, (o + 129) as int) =~= x2);
    assert(w.skip((o + 129) as int) =~= zn + (zd + rest));
    assert(w.skip((o + 129 + zn.len()) as int) =~= zd + rest);
}

/// Reading back what `encode_metadata_h2a_variant` wrote under the same
/// schema gives the header's Halo 2 Anniversary fields, whatever follows it,
/// as long as no string holds a NUL; the fields that the layout does not carry
/// keep their prior value, so over the written header itself the header comes
/// back whole.
pub proof fn lemma_h2a_metadata_roundtrip(m: MetadataModel, schema: H2AMetaSchema, prior: MetadataModel, rest: Seq<bool>)
    requires
        h2a_metadata_encodable(m, schema.activity_width()),
        no_nul_bytes(m.creation_history.name),
        no_nul_units(m.name),
        no_nul_units(m.description),
    ensures
        parse_h2a_metadata(h2a_metadata_bits(m, schema.activity_width()) + rest, schema.activity_width(), prior)
            == Some((h2a_carried(m, prior), h2a_metadata_bits(m, schema.activity_width()).len())),
        h2a_carried(m, m) == m,
{
    let k = schema.activity_width();
    let gb = h2a_general_bits(m.general, m.display, k);
    let bb = h2a_body_bits(m);
    lemma_h2a_general_roundtrip(m.general, m.display, k, bb + rest);
    lemma_h2a_body_roundtrip(m, rest);
    assert(h2a_metadata_bits(m, k) + rest =~= gb + (bb + rest));
    assert((h2a_metadata_bits(m, k) + rest).skip(h2a_general_len(k) as int) =~= bb + rest);
    assert(h2a_carried(m, m).modification_history == m.modification_history);
}

} // verus!
