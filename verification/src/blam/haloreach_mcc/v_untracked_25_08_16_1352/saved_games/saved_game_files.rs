use vstd::prelude::*;
use vstd::arithmetic::power2::*;
use vstd::string::StringExecFns;
use crate::io::bitstream::{
    c_bitstream_writer, c_bitstream_reader, bits_of, signed_bits_of, fits_unsigned, fits_signed,
    field_at, sign_extend, zstring_bits, lemma_zstring_parse_len, lemma_zstring_roundtrip,
    lemma_unsigned_roundtrip, lemma_signed_roundtrip, twos_complement, zstring_parse, byte_units, wide_units, group_bitstream_seq,
};
use crate::result::{BLFLibError, BLFLibResult};
use crate::io::strings::{
    units_to_bytes, units_to_wide, lemma_bytes_from_units, parse_wide, read_wide, lemma_wide_len,
    no_nul_bytes, no_nul_units, lemma_byte_string_roundtrip, lemma_wide_roundtrip,
};

verus! {

broadcast use group_bitstream_seq;

/// Extra data of a film.
#[derive(Default, PartialEq, Eq, Debug, Clone, Copy)]
pub struct s_content_item_film_metadata {
    pub seconds: i32,
}

/// Extra data of a game variant.
#[derive(Default, PartialEq, Eq, Debug, Clone, Copy)]
pub struct s_content_item_game_variant_metadata {
    pub icon_index: i8,
}

/// Extra data of a file made in matchmaking.
#[derive(Default, PartialEq, Eq, Debug, Clone, Copy)]
pub struct s_content_item_matchmaking_metadata {
    pub hopper_identifier: u16,
}

/// Extra data of a campaign file.
#[derive(Default, PartialEq, Eq, Debug, Clone, Copy)]
pub struct s_content_item_campaign_metadata {
    pub campaign_id: i32,
    pub campaign_difficulty: i16,
    pub campaign_metagame_scoring: i16,
    pub campaign_insertion_point: i32,
    pub campaign_primary_skulls: i16,
    pub campaign_secondary_skulls: i16,
}

/// Extra data of a firefight file.
#[derive(Default, PartialEq, Eq, Debug, Clone, Copy)]
pub struct s_content_item_firefight_metadata {
    pub firefight_difficulty: i16,
    pub firefight_primary_skulls: i16,
    pub firefight_secondary_skulls: i16,
}

/// Who made or last changed a file, and when. The name is held as its
/// extended-ASCII bytes.
#[derive(Default, PartialEq, Eq, Debug, Clone)]
pub struct s_content_item_history {
    pub timestamp: u64,
    pub xuid: u64,
    pub name: Vec<u8>,
    pub is_online: bool,
}

/// What a content item is and where it belongs.
#[derive(Default, PartialEq, Eq, Debug, Clone, Copy)]
pub struct s_content_item_general_metadata {
    pub file_type: i8,
    pub size_in_bytes: u32,
    pub unique_id: u64,
    pub parent_unique_id: u64,
    pub root_unique_id: u64,
    pub game_id: u64,
    pub activity: i8,
    pub game_mode: u8,
    pub game_engine_type: u8,
    pub map_id: i32,
}

/// How a content item is shown.
#[derive(Default, PartialEq, Eq, Debug, Clone, Copy)]
pub struct s_content_item_display_metadata {
    pub megalo_category_index: i8,
}

/// The metadata header of a content item (variant, film, screenshot). The
/// name and description are held as their UTF-16 units.
#[derive(Default, PartialEq, Eq, Debug, Clone)]
pub struct c_content_item_metadata {
    pub general: s_content_item_general_metadata,
    pub display: s_content_item_display_metadata,
    pub creation_history: s_content_item_history,
    pub modification_history: s_content_item_history,
    pub name: Vec<u16>,
    pub description: Vec<u16>,
    pub film_data: Option<s_content_item_film_metadata>,
    pub game_variant_data: Option<s_content_item_game_variant_metadata>,
    pub pad1: [u8; 16],
    pub matchmaking_data: Option<s_content_item_matchmaking_metadata>,
    pub pad2: [u8; 16],
    pub campaign_data: Option<s_content_item_campaign_metadata>,
    pub firefight_data: Option<s_content_item_firefight_metadata>,
    pub pad3: [u8; 16],
}

/// The mathematical value of a history entry.
pub struct HistoryModel {
    pub timestamp: u64,
    pub xuid: u64,
    pub name: Seq<u8>,
    pub is_online: bool,
}

impl View for s_content_item_history {
    type V = HistoryModel;

    open spec fn view(&self) -> HistoryModel {
        HistoryModel { timestamp: self.timestamp, xuid: self.xuid, name: self.name@, is_online: self.is_online }
    }
}

/// The mathematical value of a metadata header.
pub struct MetadataModel {
    pub general: s_content_item_general_metadata,
    pub display: s_content_item_display_metadata,
    pub creation_history: HistoryModel,
    pub modification_history: HistoryModel,
    pub name: Seq<u16>,
    pub description: Seq<u16>,
    pub film_data: Option<s_content_item_film_metadata>,
    pub game_variant_data: Option<s_content_item_game_variant_metadata>,
    pub pad1: [u8; 16],
    pub matchmaking_data: Option<s_content_item_matchmaking_metadata>,
    pub pad2: [u8; 16],
    pub campaign_data: Option<s_content_item_campaign_metadata>,
    pub firefight_data: Option<s_content_item_firefight_metadata>,
    pub pad3: [u8; 16],
}

impl View for c_content_item_metadata {
    type V = MetadataModel;

    open spec fn view(&self) -> MetadataModel {
        MetadataModel {
            general: self.general,
            display: self.display,
            creation_history: self.creation_history@,
            modification_history: self.modification_history@,
            name: self.name@,
            description: self.description@,
            film_data: self.film_data,
            game_variant_data: self.game_variant_data,
            pad1: self.pad1,
            matchmaking_data: self.matchmaking_data,
            pad2: self.pad2,
            campaign_data: self.campaign_data,
            firefight_data: self.firefight_data,
            pad3: self.pad3,
        }
    }
}

/// Whether the file type stands for a film (a film or a film clip).
pub open spec fn is_film_type(file_type: i8) -> bool {
    file_type == 3 || file_type == 4
}

/// The bits of a history entry: time, xuid, the name NUL-bounded in 16
/// bytes, and the online flag.
pub open spec fn history_bits(h: HistoryModel) -> Seq<bool> {
    bits_of(h.timestamp as nat, 64) + bits_of(h.xuid as nat, 64)
        + zstring_bits(byte_units(h.name), 8, 16) + seq![h.is_online]
}

/// The bits of the fixed-width part of the header, up to the creation
/// history.
pub open spec fn general_bits(g: s_content_item_general_metadata, d: s_content_item_display_metadata) -> Seq<bool> {
    bits_of((g.file_type + 1) as nat, 4) + bits_of(g.size_in_bytes as nat, 32)
        + bits_of(g.unique_id as nat, 64) + bits_of(g.parent_unique_id as nat, 64)
        + bits_of(g.root_unique_id as nat, 64) + bits_of(g.game_id as nat, 64)
        + bits_of((g.activity + 1) as nat, 3) + bits_of(g.game_mode as nat, 3)
        + bits_of(g.game_engine_type as nat, 3) + signed_bits_of(g.map_id as int, 32)
        + signed_bits_of(d.megalo_category_index as int, 8)
}

/// The bits of the film or game variant data, by file type.
pub open spec fn file_type_bits(m: MetadataModel) -> Seq<bool> {
    if is_film_type(m.general.file_type) {
        signed_bits_of(m.film_data->0.seconds as int, 32)
    } else if m.general.file_type == 6 {
        signed_bits_of(m.game_variant_data->0.icon_index as int, 8)
    } else {
        Seq::empty()
    }
}

/// The bits of the matchmaking data, present for the matchmaking activity.
pub open spec fn activity_bits(m: MetadataModel) -> Seq<bool> {
    if m.general.activity == 2 {
        signed_bits_of(m.matchmaking_data->0.hopper_identifier as int, 16)
    } else {
        Seq::empty()
    }
}

/// The bits of the campaign or firefight data, by game mode.
pub open spec fn game_mode_bits(m: MetadataModel) -> Seq<bool> {
    if m.general.game_mode == 1 {
        let c = m.campaign_data->0;
        bits_of(c.campaign_id as nat, 8) + bits_of(c.campaign_difficulty as nat, 2)
            + bits_of(c.campaign_metagame_scoring as nat, 2) + bits_of(c.campaign_insertion_point as nat, 8)
            + bits_of(c.campaign_primary_skulls as nat, 16) + bits_of(c.campaign_secondary_skulls as nat, 16)
    } else if m.general.game_mode == 2 {
        let f = m.firefight_data->0;
        bits_of(f.firefight_difficulty as nat, 2) + bits_of(f.firefight_primary_skulls as nat, 16)
            + bits_of(f.firefight_secondary_skulls as nat, 16)
    } else {
        Seq::empty()
    }
}

/// The bits of the type-dependent extra data.
pub open spec fn tail_bits(m: MetadataModel) -> Seq<bool> {
    file_type_bits(m) + activity_bits(m) + game_mode_bits(m)
}

/// The encoding of a metadata header.
pub open spec fn metadata_bits(m: MetadataModel) -> Seq<bool> {
    general_bits(m.general, m.display) + history_bits(m.creation_history) + history_bits(m.modification_history)
        + zstring_bits(wide_units(m.name), 16, 128) + zstring_bits(wide_units(m.description), 16, 128)
        + tail_bits(m)
}

/// Whether a header can be encoded: every field fits its width, the strings
/// their bounds, and the extra data its type asks for is there.
pub open spec fn metadata_encodable(m: MetadataModel) -> bool {
    let g = m.general;
    &&& -1 <= g.file_type <= 14
    &&& -1 <= g.activity <= 6
    &&& g.game_mode < 8
    &&& g.game_engine_type < 8
    &&& m.creation_history.name.len() <= 16
    &&& m.modification_history.name.len() <= 16
    &&& m.name.len() <= 128
    &&& m.description.len() <= 128
    &&& is_film_type(g.file_type) ==> m.film_data is Some
    &&& g.file_type == 6 ==> m.game_variant_data is Some
    &&& g.activity == 2 ==> m.matchmaking_data is Some && m.matchmaking_data->0.hopper_identifier < 0x8000
    &&& g.game_mode == 1 ==> m.campaign_data is Some && {
        let c = m.campaign_data->0;
        &&& 0 <= c.campaign_id < 256
        &&& 0 <= c.campaign_difficulty < 4
        &&& 0 <= c.campaign_metagame_scoring < 4
        &&& 0 <= c.campaign_insertion_point < 256
        &&& 0 <= c.campaign_primary_skulls
        &&& 0 <= c.campaign_secondary_skulls
    }
    &&& g.game_mode == 2 ==> m.firefight_data is Some && {
        let f = m.firefight_data->0;
        &&& 0 <= f.firefight_difficulty < 4
        &&& 0 <= f.firefight_primary_skulls
        &&& 0 <= f.firefight_secondary_skulls
    }
}

/// Writes a field stored one below its wire value (file type, activity).
pub(crate) fn write_biased(bitstream: &mut c_bitstream_writer, value: i8, size_in_bits: usize) -> (r: BLFLibResult)
    requires
        1 <= size_in_bits <= 8,
    ensures
        r is Ok <==> 0 <= value + 1 < pow2(size_in_bits as nat),
        r is Ok ==> final(bitstream)@ == old(bitstream)@ + bits_of((value + 1) as nat, size_in_bits as nat),
{
    let v: i16 = (value as i16) + 1;
    if v < 0 {
        return Err(BLFLibError::ValueOutOfRange);
    }
    bitstream.write_integer(v as u64, size_in_bits)
}

/// Writes a signed field as an unsigned one; a negative value does not fit.
fn write_unsigned_i32(bitstream: &mut c_bitstream_writer, value: i32, size_in_bits: usize) -> (r: BLFLibResult)
    requires
        1 <= size_in_bits <= 32,
    ensures
        r is Ok <==> 0 <= value < pow2(size_in_bits as nat),
        r is Ok ==> final(bitstream)@ == old(bitstream)@ + bits_of(value as nat, size_in_bits as nat),
{
    if value < 0 {
        return Err(BLFLibError::ValueOutOfRange);
    }
    bitstream.write_integer(value as u64, size_in_bits)
}

fn missing_data(message: &str) -> (e: BLFLibError)
    ensures
        e matches BLFLibError::Message(s) && s@ == message@,
{
    BLFLibError::Message(String::from_str(message))
}

impl s_content_item_history {
    fn encode_history(&self, bitstream: &mut c_bitstream_writer) -> (r: BLFLibResult)
        ensures
            r is Ok <==> self.name@.len() <= 16,
            r is Ok ==> final(bitstream)@ == old(bitstream)@ + history_bits(self@),
    {
        proof { lemma2_to64(); lemma2_to64_rest(); }
        bitstream.write_qword(self.timestamp, 64)?;
        bitstream.write_qword(self.xuid, 64)?;
        bitstream.write_string_extended_ascii(self.name.as_slice(), 16)?;
        bitstream.write_bool(self.is_online)?;
        assert(bitstream@ =~= old(bitstream)@ + history_bits(self@));
        Ok(())
    }
}

/// Whether the fixed-width fields fit their widths.
pub open spec fn general_encodable(g: s_content_item_general_metadata) -> bool {
    &&& -1 <= g.file_type <= 14
    &&& -1 <= g.activity <= 6
    &&& g.game_mode < 8
    &&& g.game_engine_type < 8
}

pub open spec fn file_type_encodable(m: MetadataModel) -> bool {
    &&& is_film_type(m.general.file_type) ==> m.film_data is Some
    &&& m.general.file_type == 6 ==> m.game_variant_data is Some
}

pub open spec fn activity_encodable(m: MetadataModel) -> bool {
    m.general.activity == 2 ==> m.matchmaking_data is Some && m.matchmaking_data->0.hopper_identifier < 0x8000
}

pub open spec fn game_mode_encodable(m: MetadataModel) -> bool {
    &&& m.general.game_mode == 1 ==> m.campaign_data is Some && {
        let c = m.campaign_data->0;
        &&& 0 <= c.campaign_id < 256
        &&& 0 <= c.campaign_difficulty < 4
        &&& 0 <= c.campaign_metagame_scoring < 4
        &&& 0 <= c.campaign_insertion_point < 256
        &&& 0 <= c.campaign_primary_skulls
        &&& 0 <= c.campaign_secondary_skulls
    }
    &&& m.general.game_mode == 2 ==> m.firefight_data is Some && {
        let f = m.firefight_data->0;
        &&& 0 <= f.firefight_difficulty < 4
        &&& 0 <= f.firefight_primary_skulls
        &&& 0 <= f.firefight_secondary_skulls
    }
}

/// Whether the extra data that the header's type asks for is there and fits.
pub open spec fn tail_encodable(m: MetadataModel) -> bool {
    file_type_encodable(m) && activity_encodable(m) && game_mode_encodable(m)
}

fn encode_general(g: &s_content_item_general_metadata, d: &s_content_item_display_metadata, bitstream: &mut c_bitstream_writer) -> (r: BLFLibResult)
    ensures
        r is Ok <==> general_encodable(*g),
        r is Ok ==> final(bitstream)@ == old(bitstream)@ + general_bits(*g, *d),
{
    proof { lemma2_to64(); lemma2_to64_rest(); }
    write_biased(bitstream, g.file_type, 4)?;
    bitstream.write_integer(g.size_in_bytes as u64, 32)?;
    bitstream.write_qword(g.unique_id, 64)?;
    bitstream.write_qword(g.parent_unique_id, 64)?;
    bitstream.write_qword(g.root_unique_id, 64)?;
    bitstream.write_qword(g.game_id, 64)?;
    write_biased(bitstream, g.activity, 3)?;
    bitstream.write_integer(g.game_mode as u64, 3)?;
    bitstream.write_integer(g.game_engine_type as u64, 3)?;
    bitstream.write_signed_integer(g.map_id as i64, 32)?;
    bitstream.write_signed_integer(d.megalo_category_index as i64, 8)?;
    assert(bitstream@ =~= old(bitstream)@ + general_bits(*g, *d));
    Ok(())
}

impl c_content_item_metadata {
    /// Writes the header: the fixed fields, both histories, the name and
    /// description, then the extra data that the file type, activity and game
    /// mode call for. Fails when a field does not fit or that extra data is
    /// missing.
    pub fn encode(&self, bitstream: &mut c_bitstream_writer) -> (r: BLFLibResult)
        ensures
            r is Ok <==> metadata_encodable(self@),
            r is Ok ==> final(bitstream)@ == old(bitstream)@ + metadata_bits(self@),
    {
        encode_general(&self.general, &self.display, bitstream)?;
        self.creation_history.encode_history(bitstream)?;
        self.modification_history.encode_history(bitstream)?;
        bitstream.write_string_wchar(self.name.as_slice(), 128)?;
        bitstream.write_string_wchar(self.description.as_slice(), 128)?;
        self.encode_tail(bitstream)?;
        assert(bitstream@ =~= old(bitstream)@ + metadata_bits(self@));
        Ok(())
    }

    fn encode_tail(&self, bitstream: &mut c_bitstream_writer) -> (r: BLFLibResult)
        ensures
            r is Ok <==> tail_encodable(self@),
            r is Ok ==> final(bitstream)@ == old(bitstream)@ + tail_bits(self@),
    {
        self.encode_file_type_data(bitstream)?;
        self.encode_activity_data(bitstream)?;
        self.encode_game_mode_data(bitstream)?;
        assert(bitstream@ =~= old(bitstream)@ + tail_bits(self@));
        Ok(())
    }

    fn encode_file_type_data(&self, bitstream: &mut c_bitstream_writer) -> (r: BLFLibResult)
        ensures
            r is Ok <==> file_type_encodable(self@),
            r is Ok ==> final(bitstream)@ == old(bitstream)@ + file_type_bits(self@),
    {
        proof { lemma2_to64(); }
        let t = self.general.file_type;
        if t == 3 || t == 4 {
            match &self.film_data {
                None => {
                    return Err(missing_data("Tried to serialize film with no film data."));
                },
                Some(film) => {
                    bitstream.write_signed_integer(film.seconds as i64, 32)?;
                },
            }
        } else if t == 6 {
            match &self.game_variant_data {
                None => {
                    return Err(missing_data("Tried to serialize gametype with no game data."));
                },
                Some(data) => {
                    bitstream.write_signed_integer(data.icon_index as i64, 8)?;
                },
            }
        } else {
            assert(bitstream@ =~= old(bitstream)@ + file_type_bits(self@));
        }
        Ok(())
    }

    fn encode_activity_data(&self, bitstream: &mut c_bitstream_writer) -> (r: BLFLibResult)
        ensures
            r is Ok <==> activity_encodable(self@),
            r is Ok ==> final(bitstream)@ == old(bitstream)@ + activity_bits(self@),
    {
        proof { lemma2_to64(); }
        if self.general.activity == 2 {
            match &self.matchmaking_data {
                None => {
                    return Err(missing_data("Tried to serialize a file from matchmaking with no matchmaking data."));
                },
                Some(data) => {
                    bitstream.write_signed_integer(data.hopper_identifier as i64, 16)?;
                },
            }
        } else {
            assert(bitstream@ =~= old(bitstream)@ + activity_bits(self@));
        }
        Ok(())
    }

    fn encode_game_mode_data(&self, bitstream: &mut c_bitstream_writer) -> (r: BLFLibResult)
        ensures
            r is Ok <==> game_mode_encodable(self@),
            r is Ok ==> final(bitstream)@ == old(bitstream)@ + game_mode_bits(self@),
    {
        proof { lemma2_to64(); }
        if self.general.game_mode == 1 {
            match &self.campaign_data {
                None => {
                    return Err(missing_data("Tried to serialize campaign file with no campaign data."));
                },
                Some(c) => {
                    write_unsigned_i32(bitstream, c.campaign_id, 8)?;
                    write_unsigned_i32(bitstream, c.campaign_difficulty as i32, 2)?;
                    write_unsigned_i32(bitstream, c.campaign_metagame_scoring as i32, 2)?;
                    write_unsigned_i32(bitstream, c.campaign_insertion_point, 8)?;
                    write_unsigned_i32(bitstream, c.campaign_primary_skulls as i32, 16)?;
                    write_unsigned_i32(bitstream, c.campaign_secondary_skulls as i32, 16)?;
                    assert(bitstream@ =~= old(bitstream)@ + game_mode_bits(self@));
                },
            }
        } else if self.general.game_mode == 2 {
            match &self.firefight_data {
                None => {
                    return Err(missing_data("Tried to serialize firefight file with no firefight data."));
                },
                Some(f) => {
                    write_unsigned_i32(bitstream, f.firefight_difficulty as i32, 2)?;
                    write_unsigned_i32(bitstream, f.firefight_primary_skulls as i32, 16)?;
                    write_unsigned_i32(bitstream, f.firefight_secondary_skulls as i32, 16)?;
                    assert(bitstream@ =~= old(bitstream)@ + game_mode_bits(self@));
                },
            }
        } else {
            assert(bitstream@ =~= old(bitstream)@ + game_mode_bits(self@));
        }
        Ok(())
    }
}


/// The number of bits of the fixed-width part of the header.
pub open spec fn general_len() -> nat {
    341
}

/// The general metadata the first `general_len()` bits encode.
pub open spec fn parse_general(bits: Seq<bool>) -> s_content_item_general_metadata {
    s_content_item_general_metadata {
        file_type: (field_at(bits, 0, 4) - 1) as i8,
        size_in_bytes: field_at(bits, 4, 32) as u32,
        unique_id: field_at(bits, 36, 64) as u64,
        parent_unique_id: field_at(bits, 100, 64) as u64,
        root_unique_id: field_at(bits, 164, 64) as u64,
        game_id: field_at(bits, 228, 64) as u64,
        activity: (field_at(bits, 292, 3) - 1) as i8,
        game_mode: field_at(bits, 295, 3) as u8,
        game_engine_type: field_at(bits, 298, 3) as u8,
        map_id: sign_extend(field_at(bits, 301, 32), 32) as i32,
    }
}

/// The display metadata the first `general_len()` bits encode.
pub open spec fn parse_display(bits: Seq<bool>) -> s_content_item_display_metadata {
    s_content_item_display_metadata { megalo_category_index: sign_extend(field_at(bits, 333, 8), 8) as i8 }
}

/// Reading a history entry from the front of `bits`: the entry and the bits
/// it took, or `None` when they run out.
pub open spec fn parse_history(bits: Seq<bool>) -> Option<(HistoryModel, nat)> {
    if bits.len() < 128 {
        None
    } else {
        match zstring_parse(bits.skip(128), 8, 16) {
            None => None,
            Some(p) => if bits.len() < 129 + p.1 {
                None
            } else {
                Some((HistoryModel {
                    timestamp: field_at(bits, 0, 64) as u64,
                    xuid: field_at(bits, 64, 64) as u64,
                    name: units_to_bytes(p.0),
                    is_online: bits[(128 + p.1) as int],
                }, 129 + p.1))
            },
        }
    }
}

/// Reading the film or game variant data that `m`'s file type calls for.
pub open spec fn parse_file_type_data(bits: Seq<bool>, m: MetadataModel) -> Option<(MetadataModel, nat)> {
    if is_film_type(m.general.file_type) {
        if bits.len() < 32 {
            None
        } else {
            Some((MetadataModel {
                film_data: Some(s_content_item_film_metadata { seconds: sign_extend(field_at(bits, 0, 32), 32) as i32 }),
                ..m
            }, 32))
        }
    } else if m.general.file_type == 6 {
        if bits.len() < 8 {
            None
        } else {
            Some((MetadataModel {
                game_variant_data: Some(s_content_item_game_variant_metadata { icon_index: sign_extend(field_at(bits, 0, 8), 8) as i8 }),
                ..m
            }, 8))
        }
    } else {
        Some((m, 0))
    }
}

/// Reading the matchmaking data that `m`'s activity calls for.
pub open spec fn parse_activity_data(bits: Seq<bool>, m: MetadataModel) -> Option<(MetadataModel, nat)> {
    if m.general.activity == 2 {
        if bits.len() < 16 {
            None
        } else {
            Some((MetadataModel {
                matchmaking_data: Some(s_content_item_matchmaking_metadata { hopper_identifier: field_at(bits, 0, 16) as u16 }),
                ..m
            }, 16))
        }
    } else {
        Some((m, 0))
    }
}

/// Reading the campaign or firefight data that `m`'s game mode calls for. A
/// skull field above the range of its 16-bit signed field is an error.
pub open spec fn parse_game_mode_data(bits: Seq<bool>, m: MetadataModel) -> Option<(MetadataModel, nat)> {
    if m.general.game_mode == 1 {
        if bits.len() < 52 || field_at(bits, 20, 16) >= 0x8000 || field_at(bits, 36, 16) >= 0x8000 {
            None
        } else {
            Some((MetadataModel {
                campaign_data: Some(s_content_item_campaign_metadata {
                    campaign_id: field_at(bits, 0, 8) as i32,
                    campaign_difficulty: field_at(bits, 8, 2) as i16,
                    campaign_metagame_scoring: field_at(bits, 10, 2) as i16,
                    campaign_insertion_point: field_at(bits, 12, 8) as i32,
                    campaign_primary_skulls: field_at(bits, 20, 16) as i16,
                    campaign_secondary_skulls: field_at(bits, 36, 16) as i16,
                }),
                ..m
            }, 52))
        }
    } else if m.general.game_mode == 2 {
        if bits.len() < 34 || field_at(bits, 2, 16) >= 0x8000 || field_at(bits, 18, 16) >= 0x8000 {
            None
        } else {
            Some((MetadataModel {
                firefight_data: Some(s_content_item_firefight_metadata {
                    firefight_difficulty: field_at(bits, 0, 2) as i16,
                    firefight_primary_skulls: field_at(bits, 2, 16) as i16,
                    firefight_secondary_skulls: field_at(bits, 18, 16) as i16,
                }),
                ..m
            }, 34))
        }
    } else {
        Some((m, 0))
    }
}

/// Reading the extra data of `m` in turn: by file type, by activity, by game mode.
pub open spec fn parse_tail(bits: Seq<bool>, m: MetadataModel) -> Option<(MetadataModel, nat)> {
    match parse_file_type_data(bits, m) {
        None => None,
        Some(a) => match parse_activity_data(bits.skip(a.1 as int), a.0) {
            None => None,
            Some(b) => match parse_game_mode_data(bits.skip((a.1 + b.1) as int), b.0) {
                None => None,
                Some(c) => Some((c.0, a.1 + b.1 + c.1)),
            },
        },
    }
}

/// Reading the variable-length middle of a header: both histories, the
/// name and the description, and the bits they took.
pub open spec fn parse_body(bits: Seq<bool>) -> Option<(HistoryModel, HistoryModel, Seq<u16>, Seq<u16>, nat)> {
    match parse_history(bits) {
        None => None,
        Some(c) => match parse_history(bits.skip(c.1 as int)) {
            None => None,
            Some(h) => match parse_wide(bits.skip((c.1 + h.1) as int)) {
                None => None,
                Some(n) => match parse_wide(bits.skip((c.1 + h.1 + n.1) as int)) {
                    None => None,
                    Some(d) => Some((c.0, h.0, n.0, d.0, c.1 + h.1 + n.1 + d.1)),
                },
            },
        },
    }
}

/// Reading everything before the extra data, over `prior`.
pub open spec fn parse_head(bits: Seq<bool>, prior: MetadataModel) -> Option<(MetadataModel, nat)> {
    if bits.len() < general_len() {
        None
    } else {
        match parse_body(bits.skip(general_len() as int)) {
            None => None,
            Some(b) => Some((MetadataModel {
                general: parse_general(bits),
                display: parse_display(bits),
                creation_history: b.0,
                modification_history: b.1,
                name: b.2,
                description: b.3,
                ..prior
            }, general_len() + b.4)),
        }
    }
}

/// Reading a header from the front of `bits` over `prior`: the header and
/// the bits it took, or `None` when the bits run out or a field does not fit.
/// Extra data that the header's type does not call for keeps its prior value.
pub open spec fn parse_metadata(bits: Seq<bool>, prior: MetadataModel) -> Option<(MetadataModel, nat)> {
    match parse_head(bits, prior) {
        None => None,
        Some(h) => match parse_tail(bits.skip(h.1 as int), h.0) {
            None => None,
            Some(t) => Some((t.0, h.1 + t.1)),
        },
    }
}

pub(crate) fn read_biased(bitstream: &mut c_bitstream_reader, size_in_bits: usize) -> (r: BLFLibResult<i8>)
    requires
        1 <= size_in_bits <= 4,
    ensures
        final(bitstream).data() == old(bitstream).data(),
        r is Ok <==> old(bitstream).remaining().len() >= size_in_bits,
        r matches Ok(v) ==> v == field_at(old(bitstream).remaining(), 0, size_in_bits as int) - 1
            && final(bitstream).remaining() == old(bitstream).remaining().skip(size_in_bits as int),
{
    proof { lemma2_to64(); }
    let v = bitstream.read_integer("", size_in_bits)?;
    assert(old(bitstream).remaining().take(size_in_bits as int) =~= old(bitstream).remaining().subrange(0, size_in_bits as int));
    Ok((v as i8) - 1)
}

fn read_general(bitstream: &mut c_bitstream_reader) -> (r: BLFLibResult<(s_content_item_general_metadata, s_content_item_display_metadata)>)
    ensures
        final(bitstream).data() == old(bitstream).data(),
        r is Ok <==> old(bitstream).remaining().len() >= general_len(),
        r matches Ok(v) ==> v.0 == parse_general(old(bitstream).remaining())
            && v.1 == parse_display(old(bitstream).remaining())
            && final(bitstream).remaining() == old(bitstream).remaining().skip(general_len() as int),
{
    let ghost rem = bitstream.remaining();
    proof { lemma2_to64(); lemma2_to64_rest(); }
    let file_type = read_biased(bitstream, 4)?;
    let size_in_bytes = bitstream.read_integer("file-size", 32)? as u32;
    let unique_id = bitstream.read_qword(64)?;
    let parent_unique_id = bitstream.read_qword(64)?;
    let root_unique_id = bitstream.read_qword(64)?;
    let game_id = bitstream.read_qword(64)?;
    let activity = read_biased(bitstream, 3)?;
    let game_mode = bitstream.read_integer("game-mode", 3)? as u8;
    let game_engine_type = bitstream.read_integer("game-engine-type", 3)? as u8;
    let map_id = bitstream.read_signed_integer("map-id", 32)? as i32;
    let megalo_category_index = bitstream.read_signed_integer("megalo-category-index", 8)? as i8;
    let g = s_content_item_general_metadata {
        file_type,
        size_in_bytes,
        unique_id,
        parent_unique_id,
        root_unique_id,
        game_id,
        activity,
        game_mode,
        game_engine_type,
        map_id,
    };
    let d = s_content_item_display_metadata { megalo_category_index };
    Ok((g, d))
}

impl s_content_item_history {
    fn read_history(bitstream: &mut c_bitstream_reader) -> (r: BLFLibResult<s_content_item_history>)
        ensures
            final(bitstream).data() == old(bitstream).data(),
            match parse_history(old(bitstream).remaining()) {
                None => r is Err,
                Some(p) => r matches Ok(h) && h@ == p.0
                    && final(bitstream).remaining() == old(bitstream).remaining().skip(p.1 as int),
            },
    {
        let ghost rem = bitstream.remaining();
        proof { lemma2_to64(); lemma2_to64_rest(); }
        let timestamp = bitstream.read_qword(64)?;
        let xuid = bitstream.read_qword(64)?;
        let name = bitstream.read_string_extended_ascii(16)?;
        let ghost p = zstring_parse(rem.skip(128), 8, 16)->0;
        proof {
            lemma_bytes_from_units(name@, p.0);
            lemma_zstring_parse_len(rem.skip(128), 8, 16);
        }
        let is_online = bitstream.read_bool("author-flags")?;
        assert(rem.take(64) =~= rem.subrange(0, 64));
        assert(is_online == rem[(128 + p.1) as int]);
        Ok(s_content_item_history { timestamp, xuid, name, is_online })
    }
}


/// Reads a 16-bit field into a 16-bit signed one; a value above its range
/// is an error.
fn read_i16_field(bitstream: &mut c_bitstream_reader, name: &str) -> (r: BLFLibResult<i16>)
    ensures
        final(bitstream).data() == old(bitstream).data(),
        r is Ok <==> old(bitstream).remaining().len() >= 16 && field_at(old(bitstream).remaining(), 0, 16) < 0x8000,
        r matches Ok(v) ==> v == field_at(old(bitstream).remaining(), 0, 16)
            && final(bitstream).remaining() == old(bitstream).remaining().skip(16),
{
    proof { lemma2_to64(); }
    let v = bitstream.read_integer(name, 16)?;
    assert(old(bitstream).remaining().take(16) =~= old(bitstream).remaining().subrange(0, 16));
    if v >= 0x8000 {
        return Err(BLFLibError::ValueOutOfRange);
    }
    Ok(v as i16)
}

impl c_content_item_metadata {
    fn decode_file_type_data(&mut self, bitstream: &mut c_bitstream_reader) -> (r: BLFLibResult)
        ensures
            final(bitstream).data() == old(bitstream).data(),
            match parse_file_type_data(old(bitstream).remaining(), old(self)@) {
                None => r is Err,
                Some(p) => r is Ok && final(self)@ == p.0
                    && final(bitstream).remaining() == old(bitstream).remaining().skip(p.1 as int),
            },
    {
        let ghost rem = bitstream.remaining();
        proof { lemma2_to64(); }
        let t = self.general.file_type;
        if t == 3 || t == 4 {
            let seconds = bitstream.read_unnamed_signed_integer(32)? as i32;
            assert(rem.take(32) =~= rem.subrange(0, 32));
            self.film_data = Some(s_content_item_film_metadata { seconds });
        } else if t == 6 {
            let icon_index = bitstream.read_unnamed_signed_integer(8)? as i8;
            assert(rem.take(8) =~= rem.subrange(0, 8));
            self.game_variant_data = Some(s_content_item_game_variant_metadata { icon_index });
        } else {
            assert(rem.skip(0) =~= rem);
        }
        Ok(())
    }

    fn decode_activity_data(&mut self, bitstream: &mut c_bitstream_reader) -> (r: BLFLibResult)
        ensures
            final(bitstream).data() == old(bitstream).data(),
            match parse_activity_data(old(bitstream).remaining(), old(self)@) {
                None => r is Err,
                Some(p) => r is Ok && final(self)@ == p.0
                    && final(bitstream).remaining() == old(bitstream).remaining().skip(p.1 as int),
            },
    {
        let ghost rem = bitstream.remaining();
        proof { lemma2_to64(); }
        if self.general.activity == 2 {
            let hopper_identifier = bitstream.read_unnamed_integer(16)? as u16;
            assert(rem.take(16) =~= rem.subrange(0, 16));
            self.matchmaking_data = Some(s_content_item_matchmaking_metadata { hopper_identifier });
        } else {
            assert(rem.skip(0) =~= rem);
        }
        Ok(())
    }

    fn decode_game_mode_data(&mut self, bitstream: &mut c_bitstream_reader) -> (r: BLFLibResult)
        ensures
            final(bitstream).data() == old(bitstream).data(),
            match parse_game_mode_data(old(bitstream).remaining(), old(self)@) {
                None => r is Err,
                Some(p) => r is Ok && final(self)@ == p.0
                    && final(bitstream).remaining() == old(bitstream).remaining().skip(p.1 as int),
            },
    {
        let ghost rem = bitstream.remaining();
        proof { lemma2_to64(); }
        if self.general.game_mode == 1 {
            let campaign_id = bitstream.read_integer("campaign-id", 8)? as i32;
            let campaign_difficulty = bitstream.read_integer("difficulty-level", 2)? as i16;
            let campaign_metagame_scoring = bitstream.read_integer("metagame-scoring", 2)? as i16;
            let campaign_insertion_point = bitstream.read_integer("insertion-point", 8)? as i32;
            let campaign_primary_skulls = read_i16_field(bitstream, "skull-flags")?;
            let campaign_secondary_skulls = read_i16_field(bitstream, "skull-flags")?;
            assert(rem.take(8) =~= rem.subrange(0, 8));
            self.campaign_data = Some(s_content_item_campaign_metadata {
                campaign_id,
                campaign_difficulty,
                campaign_metagame_scoring,
                campaign_insertion_point,
                campaign_primary_skulls,
                campaign_secondary_skulls,
            });
        } else if self.general.game_mode == 2 {
            let firefight_difficulty = bitstream.read_integer("difficulty-level", 2)? as i16;
            let firefight_primary_skulls = read_i16_field(bitstream, "skull-flags")?;
            let firefight_secondary_skulls = read_i16_field(bitstream, "skull-flags")?;
            assert(rem.take(2) =~= rem.subrange(0, 2));
            self.firefight_data = Some(s_content_item_firefight_metadata {
                firefight_difficulty,
                firefight_primary_skulls,
                firefight_secondary_skulls,
            });
        } else {
            assert(rem.skip(0) =~= rem);
        }
        Ok(())
    }

    /// Reads a header over `self`: the fixed fields, both histories, the name
    /// and description, then the extra data that the file type, activity and
    /// game mode call for. Extra data not called for keeps its value.
    pub fn decode(&mut self, bitstream: &mut c_bitstream_reader) -> (r: BLFLibResult)
        ensures
            final(bitstream).data() == old(bitstream).data(),
            match parse_metadata(old(bitstream).remaining(), old(self)@) {
                None => r is Err,
                Some(p) => r is Ok && final(self)@ == p.0
                    && final(bitstream).remaining() == old(bitstream).remaining().skip(p.1 as int),
            },
    {
        let ghost rem = bitstream.remaining();
        let (g, d) = read_general(bitstream)?;
        let ghost r1 = bitstream.remaining();
        let (creation_history, modification_history, name, description) = read_body(bitstream)?;
        proof { lemma_body_len(r1); }
        self.general = g;
        self.display = d;
        self.creation_history = creation_history;
        self.modification_history = modification_history;
        self.name = name;
        self.description = description;
        let ghost h = parse_head(rem, old(self)@)->0;
        assert(self@ == h.0);
        self.decode_tail(bitstream)?;
        Ok(())
    }

    fn decode_tail(&mut self, bitstream: &mut c_bitstream_reader) -> (r: BLFLibResult)
        ensures
            final(bitstream).data() == old(bitstream).data(),
            match parse_tail(old(bitstream).remaining(), old(self)@) {
                None => r is Err,
                Some(p) => r is Ok && final(self)@ == p.0
                    && final(bitstream).remaining() == old(bitstream).remaining().skip(p.1 as int),
            },
    {
        let ghost rem = bitstream.remaining();
        self.decode_file_type_data(bitstream)?;
        let ghost a = parse_file_type_data(rem, old(self)@)->0;
        proof { lemma_tail_part_len(rem, old(self)@); }
        self.decode_activity_data(bitstream)?;
        let ghost b = parse_activity_data(rem.skip(a.1 as int), a.0)->0;
        proof { lemma_tail_part_len(rem.skip(a.1 as int), a.0); }
        self.decode_game_mode_data(bitstream)?;
        Ok(())
    }
}

fn read_body(bitstream: &mut c_bitstream_reader) -> (r: BLFLibResult<(s_content_item_history, s_content_item_history, Vec<u16>, Vec<u16>)>)
    ensures
        final(bitstream).data() == old(bitstream).data(),
        match parse_body(old(bitstream).remaining()) {
            None => r is Err,
            Some(p) => r matches Ok(v) && v.0@ == p.0 && v.1@ == p.1 && v.2@ == p.2 && v.3@ == p.3
                && final(bitstream).remaining() == old(bitstream).remaining().skip(p.4 as int),
        },
{
    let ghost rem = bitstream.remaining();
    let c = s_content_item_history::read_history(bitstream)?;
    proof { lemma_history_len(rem); }
    let ghost c1 = (parse_history(rem)->0).1;
    let h = s_content_item_history::read_history(bitstream)?;
    proof { lemma_history_len(rem.skip(c1 as int)); }
    let ghost h1 = (parse_history(rem.skip(c1 as int))->0).1;
    let n = read_wide(bitstream)?;
    proof { lemma_wide_len(rem.skip((c1 + h1) as int)); }
    let ghost n1 = (parse_wide(rem.skip((c1 + h1) as int))->0).1;
    let d = read_wide(bitstream)?;
    proof { lemma_wide_len(rem.skip((c1 + h1 + n1) as int)); }
    Ok((c, h, n, d))
}

proof fn lemma_body_len(bits: Seq<bool>)
    ensures
        parse_body(bits) matches Some(p) ==> p.4 <= bits.len(),
{
    lemma_history_len(bits);
    if let Some(c) = parse_history(bits) {
        lemma_history_len(bits.skip(c.1 as int));
        if let Some(h) = parse_history(bits.skip(c.1 as int)) {
            lemma_wide_len(bits.skip((c.1 + h.1) as int));
            if let Some(n) = parse_wide(bits.skip((c.1 + h.1) as int)) {
                lemma_wide_len(bits.skip((c.1 + h.1 + n.1) as int));
            }
        }
    }
}

proof fn lemma_history_len(bits: Seq<bool>)
    ensures
        parse_history(bits) matches Some(p) ==> p.1 <= bits.len(),
{
    if bits.len() >= 128 {
        lemma_zstring_parse_len(bits.skip(128), 8, 16);
    }
}

proof fn lemma_tail_part_len(bits: Seq<bool>, m: MetadataModel)
    ensures
        parse_file_type_data(bits, m) matches Some(p) ==> p.1 <= bits.len(),
        parse_activity_data(bits, m) matches Some(p) ==> p.1 <= bits.len(),
        parse_game_mode_data(bits, m) matches Some(p) ==> p.1 <= bits.len(),
{
}


/// Whether every string of a header reads back whole.
pub open spec fn metadata_strings_readable(m: MetadataModel) -> bool {
    &&& no_nul_bytes(m.creation_history.name)
    &&& no_nul_bytes(m.modification_history.name)
    &&& no_nul_units(m.name)
    &&& no_nul_units(m.description)
}

#[verifier::spinoff_prover]
proof fn lemma_general_roundtrip(g: s_content_item_general_metadata, d: s_content_item_display_metadata, rest: Seq<bool>)
    requires
        general_encodable(g),
    ensures
        general_bits(g, d).len() == general_len(),
        parse_general(general_bits(g, d) + rest) == g,
        parse_display(general_bits(g, d) + rest) == d,
{
    lemma2_to64();
    lemma2_to64_rest();
    lemma_unsigned_roundtrip((g.file_type + 1) as nat, 4);
    lemma_unsigned_roundtrip(g.size_in_bytes as nat, 32);
    lemma_unsigned_roundtrip(g.unique_id as nat, 64);
    lemma_unsigned_roundtrip(g.parent_unique_id as nat, 64);
    lemma_unsigned_roundtrip(g.root_unique_id as nat, 64);
    lemma_unsigned_roundtrip(g.game_id as nat, 64);
    lemma_unsigned_roundtrip((g.activity + 1) as nat, 3);
    lemma_unsigned_roundtrip(g.game_mode as nat, 3);
    lemma_unsigned_roundtrip(g.game_engine_type as nat, 3);
    lemma_signed_roundtrip(g.map_id as int, 32);
    lemma_signed_roundtrip(d.megalo_category_index as int, 8);
    let w = general_bits(g, d) + rest;
    assert(w.subrange(0, 4) =~= bits_of((g.file_type + 1) as nat, 4));
    assert(w.subrange(4, 36) =~= bits_of(g.size_in_bytes as nat, 32));
    assert(w.subrange(36, 100) =~= bits_of(g.unique_id as nat, 64));
    assert(w.subrange(100, 164) =~= bits_of(g.parent_unique_id as nat, 64));
    assert(w.subrange(164, 228) =~= bits_of(g.root_unique_id as nat, 64));
    assert(w.subrange(228, 292) =~= bits_of(g.game_id as nat, 64));
    assert(w.subrange(292, 295) =~= bits_of((g.activity + 1) as nat, 3));
    assert(w.subrange(295, 298) =~= bits_of(g.game_mode as nat, 3));
    assert(w.subrange(298, 301) =~= bits_of(g.game_engine_type as nat, 3));
    assert(w.subrange(301, 333) =~= signed_bits_of(g.map_id as int, 32));
    assert(w.subrange(333, 341) =~= signed_bits_of(d.megalo_category_index as int, 8));
}

proof fn lemma_history_roundtrip(h: HistoryModel, rest: Seq<bool>)
    requires
        h.name.len() <= 16,
        no_nul_bytes(h.name),
    ensures
        parse_history(history_bits(h) + rest) == Some((h, history_bits(h).len())),
{
    lemma2_to64();
    lemma2_to64_rest();
    let z = zstring_bits(byte_units(h.name), 8, 16);
    let w = history_bits(h) + rest;
    lemma_unsigned_roundtrip(h.timestamp as nat, 64);
    lemma_unsigned_roundtrip(h.xuid as nat, 64);
    lemma_byte_string_roundtrip(h.name, seq![h.is_online] + rest);
    assert(w.subrange(0, 64) =~= bits_of(h.timestamp as nat, 64));
    assert(w.subrange(64, 128) =~= bits_of(h.xuid as nat, 64));
    assert(w.skip(128) =~= z + (seq![h.is_online] + rest));
    assert(w[(128 + z.len()) as int] == h.is_online);
}


proof fn lemma_file_type_roundtrip(m: MetadataModel, rest: Seq<bool>)
    requires
        file_type_encodable(m),
    ensures
        parse_file_type_data(file_type_bits(m) + rest, m) == Some((m, file_type_bits(m).len())),
{
    let a = file_type_bits(m);
    let w = a + rest;
    if is_film_type(m.general.file_type) {
        lemma2_to64();
        lemma_signed_roundtrip(m.film_data->0.seconds as int, 32);
        assert(w.subrange(0, 32) =~= a);
    } else if m.general.file_type == 6 {
        lemma2_to64();
        lemma_signed_roundtrip(m.game_variant_data->0.icon_index as int, 8);
        assert(w.subrange(0, 8) =~= a);
    }
}

proof fn lemma_activity_roundtrip(m: MetadataModel, rest: Seq<bool>)
    requires
        activity_encodable(m),
    ensures
        parse_activity_data(activity_bits(m) + rest, m) == Some((m, activity_bits(m).len())),
{
    let b = activity_bits(m);
    let w = b + rest;
    if m.general.activity == 2 {
        lemma2_to64();
        let h = m.matchmaking_data->0.hopper_identifier;
        assert(twos_complement(h as int, 16) == h);
        lemma_unsigned_roundtrip(h as nat, 16);
        assert(w.subrange(0, 16) =~= b);
    }
}

proof fn lemma_game_mode_roundtrip(m: MetadataModel, rest: Seq<bool>)
    requires
        game_mode_encodable(m),
    ensures
        parse_game_mode_data(game_mode_bits(m) + rest, m) == Some((m, game_mode_bits(m).len())),
{
    let c = game_mode_bits(m);
    let w2 = c + rest;
    lemma2_to64();
    if m.general.game_mode == 1 {
        let k = m.campaign_data->0;
        lemma_unsigned_roundtrip(k.campaign_id as nat, 8);
        lemma_unsigned_roundtrip(k.campaign_difficulty as nat, 2);
        lemma_unsigned_roundtrip(k.campaign_metagame_scoring as nat, 2);
        lemma_unsigned_roundtrip(k.campaign_insertion_point as nat, 8);
        lemma_unsigned_roundtrip(k.campaign_primary_skulls as nat, 16);
        lemma_unsigned_roundtrip(k.campaign_secondary_skulls as nat, 16);
        assert(w2.subrange(0, 8) =~= bits_of(k.campaign_id as nat, 8));
        assert(w2.subrange(8, 10) =~= bits_of(k.campaign_difficulty as nat, 2));
        assert(w2.subrange(10, 12) =~= bits_of(k.campaign_metagame_scoring as nat, 2));
        assert(w2.subrange(12, 20) =~= bits_of(k.campaign_insertion_point as nat, 8));
        assert(w2.subrange(20, 36) =~= bits_of(k.campaign_primary_skulls as nat, 16));
        assert(w2.subrange(36, 52) =~= bits_of(k.campaign_secondary_skulls as nat, 16));
    } else if m.general.game_mode == 2 {
        let f = m.firefight_data->0;
        lemma_unsigned_roundtrip(f.firefight_difficulty as nat, 2);
        lemma_unsigned_roundtrip(f.firefight_primary_skulls as nat, 16);
        lemma_unsigned_roundtrip(f.firefight_secondary_skulls as nat, 16);
        assert(w2.subrange(0, 2) =~= bits_of(f.firefight_difficulty as nat, 2));
        assert(w2.subrange(2, 18) =~= bits_of(f.firefight_primary_skulls as nat, 16));
        assert(w2.subrange(18, 34) =~= bits_of(f.firefight_secondary_skulls as nat, 16));
    }
}

#[verifier::spinoff_prover]
proof fn lemma_tail_roundtrip(m: MetadataModel, rest: Seq<bool>)
    requires
        tail_encodable(m),
    ensures
        parse_tail(tail_bits(m) + rest, m) == Some((m, tail_bits(m).len())),
{
    let a = file_type_bits(m);
    let b = activity_bits(m);
    let c = game_mode_bits(m);
    let w = tail_bits(m) + rest;
    assert(w =~= a + (b + (c + rest)));
    lemma_file_type_roundtrip(m, b + (c + rest));
    assert(w.skip(a.len() as int) =~= b + (c + rest));
    lemma_activity_roundtrip(m, c + rest);
    assert(w.skip((a.len() + b.len()) as int) =~= c + rest);
    lemma_game_mode_roundtrip(m, rest);
}

#[verifier::spinoff_prover]
#[verifier::rlimit(50)]
proof fn lemma_head_roundtrip(m: MetadataModel, rest: Seq<bool>)
    requires
        metadata_encodable(m),
        metadata_strings_readable(m),
    ensures ({
        let head = general_bits(m.general, m.display) + history_bits(m.creation_history)
            + history_bits(m.modification_history) + zstring_bits(wide_units(m.name), 16, 128)
            + zstring_bits(wide_units(m.description), 16, 128);
        parse_head(head + rest, m) == Some((m, head.len()))
    }),
{
    let gb = general_bits(m.general, m.display);
    let body = history_bits(m.creation_history) + history_bits(m.modification_history)
        + zstring_bits(wide_units(m.name), 16, 128) + zstring_bits(wide_units(m.description), 16, 128);
    let w = gb + body + rest;
    assert(w =~= gb + (body + rest));
    lemma_general_roundtrip(m.general, m.display, body + rest);
    assert(w.skip(general_len() as int) =~= body + rest);
    lemma_body_roundtrip(m, rest);
    let head = general_bits(m.general, m.display) + history_bits(m.creation_history)
        + history_bits(m.modification_history) + zstring_bits(wide_units(m.name), 16, 128)
        + zstring_bits(wide_units(m.description), 16, 128);
    assert(head =~= gb + body);
}

#[verifier::spinoff_prover]
#[verifier::rlimit(50)]
proof fn lemma_body_roundtrip(m: MetadataModel, rest: Seq<bool>)
    requires
        metadata_encodable(m),
        metadata_strings_readable(m),
    ensures ({
        let body = history_bits(m.creation_history) + history_bits(m.modification_history)
            + zstring_bits(wide_units(m.name), 16, 128) + zstring_bits(wide_units(m.description), 16, 128);
        parse_body(body + rest) == Some((m.creation_history, m.modification_history, m.name, m.description, body.len()))
    }),
{
    let hc = history_bits(m.creation_history);
    let hm = history_bits(m.modification_history);
    let zn = zstring_bits(wide_units(m.name), 16, 128);
    let zd = zstring_bits(wide_units(m.description), 16, 128);
    let w = hc + hm + zn + zd + rest;
    lemma_history_roundtrip(m.creation_history, hm + zn + zd + rest);
    lemma_history_roundtrip(m.modification_history, zn + zd + rest);
    lemma_wide_roundtrip(m.name, zd + rest);
    lemma_wide_roundtrip(m.description, rest);
    assert(w =~= hc + (hm + zn + zd + rest));
    assert(w.skip(hc.len() as int) =~= hm + (zn + zd + rest));
    assert(w.skip((hc.len() + hm.len()) as int) =~= zn + (zd + rest));
    assert(w.skip((hc.len() + hm.len() + zn.len()) as int) =~= zd + rest);
}

/// Reading back what `encode` wrote gives the same header, whatever
/// follows it, as long as no string holds a NUL.
#[verifier::spinoff_prover]
#[verifier::rlimit(50)]
pub proof fn lemma_metadata_roundtrip(m: MetadataModel, rest: Seq<bool>)
    requires
        metadata_encodable(m),
        metadata_strings_readable(m),
    ensures
        parse_metadata(metadata_bits(m) + rest, m) == Some((m, metadata_bits(m).len())),
{
    let head = general_bits(m.general, m.display) + history_bits(m.creation_history)
        + history_bits(m.modification_history) + zstring_bits(wide_units(m.name), 16, 128)
        + zstring_bits(wide_units(m.description), 16, 128);
    let tb = tail_bits(m);
    let w = metadata_bits(m) + rest;
    assert(w =~= head + (tb + rest));
    lemma_head_roundtrip(m, tb + rest);
    assert(w.skip(head.len() as int) =~= tb + rest);
    lemma_tail_roundtrip(m, rest);
}

/// Whether `prior` holds `m`'s value in every field that decoding `m`'s bits
/// over `prior` leaves as it is: the padding, and the extra data that `m`'s
/// file type, activity and game mode do not call for.
pub open spec fn kept_fields_agree(m: MetadataModel, prior: MetadataModel) -> bool {
    &&& prior.pad1 == m.pad1
    &&& prior.pad2 == m.pad2
    &&& prior.pad3 == m.pad3
    &&& !is_film_type(m.general.file_type) ==> prior.film_data == m.film_data
    &&& m.general.file_type != 6 ==> prior.game_variant_data == m.game_variant_data
    &&& m.general.activity != 2 ==> prior.matchmaking_data == m.matchmaking_data
    &&& m.general.game_mode != 1 ==> prior.campaign_data == m.campaign_data
    &&& m.general.game_mode != 2 ==> prior.firefight_data == m.firefight_data
}

/// The extra data parsed over two priors that agree on what is kept comes
/// out the same.
proof fn lemma_tail_over(bits: Seq<bool>, x: MetadataModel, y: MetadataModel)
    requires
        x.general == y.general,
        x.display == y.display,
        x.creation_history == y.creation_history,
        x.modification_history == y.modification_history,
        x.name == y.name,
        x.description == y.description,
        kept_fields_agree(x, y),
    ensures
        parse_tail(bits, x) == parse_tail(bits, y),
{
    match (parse_file_type_data(bits, x), parse_file_type_data(bits, y)) {
        (Some(a), Some(b)) => {
            assert(a.1 == b.1);
            assert(kept_fields_agree(a.0, b.0));
            match (parse_activity_data(bits.skip(a.1 as int), a.0), parse_activity_data(bits.skip(b.1 as int), b.0)) {
                (Some(c), Some(d)) => {
                    assert(c.1 == d.1);
                    assert(kept_fields_agree(c.0, d.0));
                    let rb = bits.skip((a.1 + c.1) as int);
                    match (parse_game_mode_data(rb, c.0), parse_game_mode_data(rb, d.0)) {
                        (Some(e), Some(f)) => {
                            assert(e.0 == f.0);
                        },
                        _ => {},
                    }
                },
                _ => {},
            }
        },
        _ => {},
    }
}

/// Reading back what `encode` wrote gives the same header over any prior
/// value that holds the header's padding and the extra data its selectors do
/// not call for, such as a default header when exactly the called-for extra
/// data is present; whatever follows it, as long as no string holds a NUL.
#[verifier::spinoff_prover]
#[verifier::rlimit(50)]
pub proof fn lemma_metadata_roundtrip_over(m: MetadataModel, prior: MetadataModel, rest: Seq<bool>)
    requires
        metadata_encodable(m),
        metadata_strings_readable(m),
        kept_fields_agree(m, prior),
    ensures
        parse_metadata(metadata_bits(m) + rest, prior) == Some((m, metadata_bits(m).len())),
{
    lemma_metadata_roundtrip(m, rest);
    let w = metadata_bits(m) + rest;
    let hm = parse_head(w, m);
    let hp = parse_head(w, prior);
    assert(hm is Some);
    assert(hp is Some);
    let x = (hm->0).0;
    let y = (hp->0).0;
    assert((hm->0).1 == (hp->0).1);
    assert(kept_fields_agree(x, y));
    lemma_tail_over(w.skip((hm->0).1 as int), x, y);
}

/// The fixed-width part of the header, as the format lays it out: the file
/// type plus one in 4 bits at bit 0, the size in 32 bits at bit 4, the unique
/// id at 36, the parent's unique id at 100, the root's unique id at 164 and
/// the game id at 228 (64 bits each), the activity plus one at 292, the game
/// mode at 295 and the engine type at 298 (3 bits each), the signed map id in
/// 32 bits at 301 and the signed megalo category in 8 bits at 333. Writing
/// puts each field there and reading takes each field from there.
#[verifier::spinoff_prover]
pub proof fn lemma_general_layout(g: s_content_item_general_metadata, d: s_content_item_display_metadata, bits: Seq<bool>)
    requires
        general_encodable(g),
    ensures ({
        let w = general_bits(g, d);
        &&& w.len() == 341
        &&& w.subrange(0, 4) == bits_of((g.file_type + 1) as nat, 4)
        &&& w.subrange(4, 36) == bits_of(g.size_in_bytes as nat, 32)
        &&& w.subrange(36, 100) == bits_of(g.unique_id as nat, 64)
        &&& w.subrange(100, 164) == bits_of(g.parent_unique_id as nat, 64)
        &&& w.subrange(164, 228) == bits_of(g.root_unique_id as nat, 64)
        &&& w.subrange(228, 292) == bits_of(g.game_id as nat, 64)
        &&& w.subrange(292, 295) == bits_of((g.activity + 1) as nat, 3)
        &&& w.subrange(295, 298) == bits_of(g.game_mode as nat, 3)
        &&& w.subrange(298, 301) == bits_of(g.game_engine_type as nat, 3)
        &&& w.subrange(301, 333) == signed_bits_of(g.map_id as int, 32)
        &&& w.subrange(333, 341) == signed_bits_of(d.megalo_category_index as int, 8)
    }),
    ({
        let p = parse_general(bits);
        &&& p.file_type == (field_at(bits, 0, 4) - 1) as i8
        &&& p.size_in_bytes == field_at(bits, 4, 32) as u32
        &&& p.unique_id == field_at(bits, 36, 64) as u64
        &&& p.parent_unique_id == field_at(bits, 100, 64) as u64
        &&& p.root_unique_id == field_at(bits, 164, 64) as u64
        &&& p.game_id == field_at(bits, 228, 64) as u64
        &&& p.activity == (field_at(bits, 292, 3) - 1) as i8
        &&& p.game_mode == field_at(bits, 295, 3) as u8
        &&& p.game_engine_type == field_at(bits, 298, 3) as u8
        &&& p.map_id == sign_extend(field_at(bits, 301, 32), 32) as i32
        &&& parse_display(bits).megalo_category_index == sign_extend(field_at(bits, 333, 8), 8) as i8
    }),
{
    lemma2_to64();
    lemma2_to64_rest();
    lemma_unsigned_roundtrip((g.file_type + 1) as nat, 4);
    lemma_unsigned_roundtrip(g.size_in_bytes as nat, 32);
    lemma_unsigned_roundtrip(g.unique_id as nat, 64);
    lemma_unsigned_roundtrip(g.parent_unique_id as nat, 64);
    lemma_unsigned_roundtrip(g.root_unique_id as nat, 64);
    lemma_unsigned_roundtrip(g.game_id as nat, 64);
    lemma_unsigned_roundtrip((g.activity + 1) as nat, 3);
    lemma_unsigned_roundtrip(g.game_mode as nat, 3);
    lemma_unsigned_roundtrip(g.game_engine_type as nat, 3);
    lemma_signed_roundtrip(g.map_id as int, 32);
    lemma_signed_roundtrip(d.megalo_category_index as int, 8);
    let w = general_bits(g, d);
    assert(w.subrange(0, 4) =~= bits_of((g.file_type + 1) as nat, 4));
    assert(w.subrange(4, 36) =~= bits_of(g.size_in_bytes as nat, 32));
    assert(w.subrange(36, 100) =~= bits_of(g.unique_id as nat, 64));
    assert(w.subrange(100, 164) =~= bits_of(g.parent_unique_id as nat, 64));
    assert(w.subrange(164, 228) =~= bits_of(g.root_unique_id as nat, 64));
    assert(w.subrange(228, 292) =~= bits_of(g.game_id as nat, 64));
    assert(w.subrange(292, 295) =~= bits_of((g.activity + 1) as nat, 3));
    assert(w.subrange(295, 298) =~= bits_of(g.game_mode as nat, 3));
    assert(w.subrange(298, 301) =~= bits_of(g.game_engine_type as nat, 3));
    assert(w.subrange(301, 333) =~= signed_bits_of(g.map_id as int, 32));
    assert(w.subrange(333, 341) =~= signed_bits_of(d.megalo_category_index as int, 8));
}

/// A history entry, as the format lays it out: the time in 64 bits at bit 0,
/// the xuid in 64 bits at bit 64, then the name, then the online flag.
/// Writing puts each field there and reading takes each field from there.
pub proof fn lemma_history_layout(h: HistoryModel, bits: Seq<bool>)
    ensures ({
        let w = history_bits(h);
        &&& w.subrange(0, 64) == bits_of(h.timestamp as nat, 64)
        &&& w.subrange(64, 128) == bits_of(h.xuid as nat, 64)
        &&& w.subrange(128, w.len() - 1) == zstring_bits(byte_units(h.name), 8, 16)
        &&& w[w.len() - 1] == h.is_online
    }),
    parse_history(bits) matches Some(p) ==> {
        &&& p.0.timestamp == field_at(bits, 0, 64) as u64
        &&& p.0.xuid == field_at(bits, 64, 64) as u64
        &&& p.0.is_online == bits[p.1 - 1]
    },
{
    lemma2_to64();
    lemma2_to64_rest();
    lemma_unsigned_roundtrip(h.timestamp as nat, 64);
    lemma_unsigned_roundtrip(h.xuid as nat, 64);
    let w = history_bits(h);
    assert(w.subrange(0, 64) =~= bits_of(h.timestamp as nat, 64));
    assert(w.subrange(64, 128) =~= bits_of(h.xuid as nat, 64));
    assert(w.subrange(128, w.len() - 1) =~= zstring_bits(byte_units(h.name), 8, 16));
}

/// The campaign and firefight data, as the format lays them out. Campaign:
/// the id in 8 bits at bit 0, the difficulty at 8 and the metagame scoring at
/// 10 (2 bits each), the insertion point in 8 bits at 12, the primary skulls
/// at 20 and the secondary skulls at 36 (16 bits each). Firefight: the
/// difficulty in 2 bits at 0, the primary skulls at 2 and the secondary
/// skulls at 18 (16 bits each). Writing puts each field there and reading
/// takes each field from there.
pub proof fn lemma_game_mode_layout(m: MetadataModel, bits: Seq<bool>)
    requires
        game_mode_encodable(m),
    ensures
        m.general.game_mode == 1 ==> {
            let c = m.campaign_data->0;
            let w = game_mode_bits(m);
            &&& w.len() == 52
            &&& w.subrange(0, 8) == bits_of(c.campaign_id as nat, 8)
            &&& w.subrange(8, 10) == bits_of(c.campaign_difficulty as nat, 2)
            &&& w.subrange(10, 12) == bits_of(c.campaign_metagame_scoring as nat, 2)
            &&& w.subrange(12, 20) == bits_of(c.campaign_insertion_point as nat, 8)
            &&& w.subrange(20, 36) == bits_of(c.campaign_primary_skulls as nat, 16)
            &&& w.subrange(36, 52) == bits_of(c.campaign_secondary_skulls as nat, 16)
        },
        m.general.game_mode == 2 ==> {
            let f = m.firefight_data->0;
            let w = game_mode_bits(m);
            &&& w.len() == 34
            &&& w.subrange(0, 2) == bits_of(f.firefight_difficulty as nat, 2)
            &&& w.subrange(2, 18) == bits_of(f.firefight_primary_skulls as nat, 16)
            &&& w.subrange(18, 34) == bits_of(f.firefight_secondary_skulls as nat, 16)
        },
        m.general.game_mode == 1 ==> (parse_game_mode_data(bits, m) matches Some(p) ==> {
            let c = p.0.campaign_data->0;
            &&& p.0.campaign_data is Some
            &&& c.campaign_id == field_at(bits, 0, 8) as i32
            &&& c.campaign_difficulty == field_at(bits, 8, 2) as i16
            &&& c.campaign_metagame_scoring == field_at(bits, 10, 2) as i16
            &&& c.campaign_insertion_point == field_at(bits, 12, 8) as i32
            &&& c.campaign_primary_skulls == field_at(bits, 20, 16) as i16
            &&& c.campaign_secondary_skulls == field_at(bits, 36, 16) as i16
        }),
        m.general.game_mode == 2 ==> (parse_game_mode_data(bits, m) matches Some(p) ==> {
            let f = p.0.firefight_data->0;
            &&& p.0.firefight_data is Some
            &&& f.firefight_difficulty == field_at(bits, 0, 2) as i16
            &&& f.firefight_primary_skulls == field_at(bits, 2, 16) as i16
            &&& f.firefight_secondary_skulls == field_at(bits, 18, 16) as i16
        }),
{
    lemma2_to64();
    let w = game_mode_bits(m);
    if m.general.game_mode == 1 {
        let k = m.campaign_data->0;
        lemma_unsigned_roundtrip(k.campaign_id as nat, 8);
        lemma_unsigned_roundtrip(k.campaign_difficulty as nat, 2);
        lemma_unsigned_roundtrip(k.campaign_metagame_scoring as nat, 2);
        lemma_unsigned_roundtrip(k.campaign_insertion_point as nat, 8);
        lemma_unsigned_roundtrip(k.campaign_primary_skulls as nat, 16);
        lemma_unsigned_roundtrip(k.campaign_secondary_skulls as nat, 16);
        assert(w.subrange(0, 8) =~= bits_of(k.campaign_id as nat, 8));
        assert(w.subrange(8, 10) =~= bits_of(k.campaign_difficulty as nat, 2));
        assert(w.subrange(10, 12) =~= bits_of(k.campaign_metagame_scoring as nat, 2));
        assert(w.subrange(12, 20) =~= bits_of(k.campaign_insertion_point as nat, 8));
        assert(w.subrange(20, 36) =~= bits_of(k.campaign_primary_skulls as nat, 16));
        assert(w.subrange(36, 52) =~= bits_of(k.campaign_secondary_skulls as nat, 16));
    } else if m.general.game_mode == 2 {
        let f = m.firefight_data->0;
        lemma_unsigned_roundtrip(f.firefight_difficulty as nat, 2);
        lemma_unsigned_roundtrip(f.firefight_primary_skulls as nat, 16);
        lemma_unsigned_roundtrip(f.firefight_secondary_skulls as nat, 16);
        assert(w.subrange(0, 2) =~= bits_of(f.firefight_difficulty as nat, 2));
        assert(w.subrange(2, 18) =~= bits_of(f.firefight_primary_skulls as nat, 16));
        assert(w.subrange(18, 34) =~= bits_of(f.firefight_secondary_skulls as nat, 16));
    }
}

} // verus!
