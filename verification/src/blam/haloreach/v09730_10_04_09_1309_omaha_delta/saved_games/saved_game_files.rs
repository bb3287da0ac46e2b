use vstd::prelude::*;
use vstd::arithmetic::power2::*;
use vstd::string::StringExecFns;
use crate::io::bitstream::{
    c_bitstream_writer, c_bitstream_reader, bits_of, signed_bits_of, field_at, sign_extend, zstring_bits,
    zstring_parse, byte_units, wide_units, lemma_zstring_parse_len, lemma_unsigned_roundtrip,
    lemma_signed_roundtrip, twos_complement, group_bitstream_seq, lemma_bits_of_len,
};
use crate::io::strings::{
    units_to_bytes, lemma_bytes_from_units, parse_wide, read_wide, lemma_wide_len, no_nul_bytes,
    no_nul_units, lemma_byte_string_roundtrip, lemma_wide_roundtrip,
};
use crate::result::{BLFLibError, BLFLibResult};

verus! {

broadcast use group_bitstream_seq;

/// Extra data of a film.
#[derive(Default, PartialEq, Eq, Debug, Clone, Copy)]
pub struct s_content_item_metadata_film_data {
    pub seconds: i32,
}

/// Extra data of a game variant.
#[derive(Default, PartialEq, Eq, Debug, Clone, Copy)]
pub struct s_content_item_metadata_game_variant_data {
    pub icon_index: i8,
}

/// Extra data of a file made in matchmaking.
#[derive(Default, PartialEq, Eq, Debug, Clone, Copy)]
pub struct s_content_item_metadata_matchmaking_data {
    pub hopper_identifier: u16,
}

/// Extra data of a campaign file.
#[derive(Default, PartialEq, Eq, Debug, Clone, Copy)]
pub struct s_content_item_metadata_campaign_data {
    pub campaign_id: i32,
    pub campaign_difficulty: i16,
    pub campaign_metagame_scoring: i16,
    pub campaign_insertion_point: i32,
    pub campaign_skull_flags: u32,
}

/// Extra data of a firefight file.
#[derive(Default, PartialEq, Eq, Debug, Clone, Copy)]
pub struct s_content_item_metadata_firefight_data {
    pub firefight_difficulty: i16,
    pub firefight_skull_flags: u32,
}

/// The metadata header of a content item. The creator and modifier names
/// are held as their UTF-8 bytes, the name and description as UTF-16 units.
#[derive(Default, PartialEq, Eq, Debug, Clone)]
pub struct s_content_item_metadata {
    pub file_type: i8,
    pub size_in_bytes: u32,
    pub unique_id: u64,
    pub parent_unique_id: u64,
    pub root_unique_id: u64,
    pub game_id: u64,
    pub activity: i8,
    pub game_mode: u8,
    pub game_engine_type: u8,
    pub map_id: i32,
    pub unknown1: u64,
    pub creation_time: u64,
    pub creator_xuid: u64,
    pub creator_name: Vec<u8>,
    pub creator_xuid_is_online: bool,
    pub modification_time: u64,
    pub modifier_xuid: u64,
    pub modifier_name: Vec<u8>,
    pub modifier_xuid_is_online: bool,
    pub name: Vec<u16>,
    pub description: Vec<u16>,
    pub film_data: Option<s_content_item_metadata_film_data>,
    pub matchmaking_data: Option<s_content_item_metadata_matchmaking_data>,
    pub campaign_data: Option<s_content_item_metadata_campaign_data>,
    pub firefight_data: Option<s_content_item_metadata_firefight_data>,
}

/// The fixed-width fields at the front of a header.
#[derive(Default, PartialEq, Eq, Debug, Clone, Copy)]
pub struct ContentItemFixedFields {
    pub file_type: i8,
    pub size_in_bytes: u32,
    pub unique_id: u64,
    pub parent_unique_id: u64,
    pub root_unique_id: u64,
    pub game_id: u64,
    pub activity: i8,
    pub game_mode: u8,
    pub game_engine_type: u8,
    pub map_id: i32,
    pub unknown1: u64,
    pub creation_time: u64,
    pub creator_xuid: u64,
}

/// The mathematical value of a header.
pub struct ContentItemMetadataModel {
    pub fixed: ContentItemFixedFields,
    pub creator_name: Seq<u8>,
    pub creator_xuid_is_online: bool,
    pub modification_time: u64,
    pub modifier_xuid: u64,
    pub modifier_name: Seq<u8>,
    pub modifier_xuid_is_online: bool,
    pub name: Seq<u16>,
    pub description: Seq<u16>,
    pub film_data: Option<s_content_item_metadata_film_data>,
    pub matchmaking_data: Option<s_content_item_metadata_matchmaking_data>,
    pub campaign_data: Option<s_content_item_metadata_campaign_data>,
    pub firefight_data: Option<s_content_item_metadata_firefight_data>,
}

impl s_content_item_metadata {
    /// The fixed-width fields of the header.
    pub open spec fn fixed(&self) -> ContentItemFixedFields {
        ContentItemFixedFields {
            file_type: self.file_type,
            size_in_bytes: self.size_in_bytes,
            unique_id: self.unique_id,
            parent_unique_id: self.parent_unique_id,
            root_unique_id: self.root_unique_id,
            game_id: self.game_id,
            activity: self.activity,
            game_mode: self.game_mode,
            game_engine_type: self.game_engine_type,
            map_id: self.map_id,
            unknown1: self.unknown1,
            creation_time: self.creation_time,
            creator_xuid: self.creator_xuid,
        }
    }
}

impl View for s_content_item_metadata {
    type V = ContentItemMetadataModel;

    open spec fn view(&self) -> ContentItemMetadataModel {
        ContentItemMetadataModel {
            fixed: self.fixed(),
            creator_name: self.creator_name@,
            creator_xuid_is_online: self.creator_xuid_is_online,
            modification_time: self.modification_time,
            modifier_xuid: self.modifier_xuid,
            modifier_name: self.modifier_name@,
            modifier_xuid_is_online: self.modifier_xuid_is_online,
            name: self.name@,
            description: self.description@,
            film_data: self.film_data,
            matchmaking_data: self.matchmaking_data,
            campaign_data: self.campaign_data,
            firefight_data: self.firefight_data,
        }
    }
}

/// The number of bits of the fixed-width fields.
pub open spec fn fixed_len() -> nat {
    525
}

/// The bits of the fixed-width fields.
pub open spec fn fixed_bits(f: ContentItemFixedFields) -> Seq<bool> {
    bits_of((f.file_type + 1) as nat, 4) + bits_of(f.size_in_bytes as nat, 32)
        + bits_of(f.unique_id as nat, 64) + bits_of(f.parent_unique_id as nat, 64)
        + bits_of(f.root_unique_id as nat, 64) + bits_of(f.game_id as nat, 64)
        + bits_of((f.activity + 1) as nat, 3) + bits_of(f.game_mode as nat, 3)
        + bits_of(f.game_engine_type as nat, 3) + signed_bits_of(f.map_id as int, 32)
        + bits_of(f.unknown1 as nat, 64) + bits_of(f.creation_time as nat, 64)
        + bits_of(f.creator_xuid as nat, 64)
}

/// Whether the fixed-width fields fit their widths.
pub open spec fn fixed_encodable(f: ContentItemFixedFields) -> bool {
    &&& -1 <= f.file_type <= 14
    &&& -1 <= f.activity <= 6
    &&& f.game_mode < 8
    &&& f.game_engine_type < 8
}

/// The fixed-width fields that the first `fixed_len()` bits encode.
pub open spec fn parse_fixed(bits: Seq<bool>) -> ContentItemFixedFields {
    ContentItemFixedFields {
        file_type: (field_at(bits, 0, 4) - 1) as i8,
        size_in_bytes: field_at(bits, 4, 32) as u32,
        unique_id: field_at(bits, 36, 64) as u64,
        parent_unique_id: field_at(bits, 100, 64) as u64,
        root_unique_id: field_at(bits, 164, 64) as u64,
        game_id: field_at(bits, 228, 64) as u64,
        activity: (field_at(bits, 292, 3) - 1) as i8,
        game_mode: field_at(bits, 295, 3) as u8,
        game_engine_type: field_at(bits, 298, 3) as u8,
        map_id: sign_extend(field_at(bits, 301, 32), 32) as i32,
        unknown1: field_at(bits, 333, 64) as u64,
        creation_time: field_at(bits, 397, 64) as u64,
        creator_xuid: field_at(bits, 461, 64) as u64,
    }
}

/// The bits of the middle of a header: the creator's name and flag, the
/// modification time and modifier, the name and the description.
pub open spec fn middle_bits(m: ContentItemMetadataModel) -> Seq<bool> {
    zstring_bits(byte_units(m.creator_name), 8, 16) + seq![m.creator_xuid_is_online]
        + bits_of(m.modification_time as nat, 64) + bits_of(m.modifier_xuid as nat, 64)
        + zstring_bits(byte_units(m.modifier_name), 8, 16) + seq![m.modifier_xuid_is_online]
        + zstring_bits(wide_units(m.name), 16, 128) + zstring_bits(wide_units(m.description), 16, 128)
}

/// The bits of the type-dependent extra data.
pub open spec fn extra_bits(m: ContentItemMetadataModel) -> Seq<bool> {
    let f = m.fixed;
    (if f.file_type == 3 || f.file_type == 4 { signed_bits_of(m.film_data->0.seconds as int, 32) } else { Seq::empty() })
    + (if f.activity == 2 { signed_bits_of(m.matchmaking_data->0.hopper_identifier as int, 16) } else { Seq::empty() })
    + (if f.game_mode == 1 {
        let c = m.campaign_data->0;
        bits_of(c.campaign_id as nat, 8) + bits_of(c.campaign_difficulty as nat, 2)
            + bits_of(c.campaign_metagame_scoring as nat, 2) + bits_of(c.campaign_insertion_point as nat, 2)
            + bits_of(c.campaign_skull_flags as nat, 32)
    } else if f.game_mode == 2 {
        let d = m.firefight_data->0;
        bits_of(d.firefight_difficulty as nat, 2) + bits_of(d.firefight_skull_flags as nat, 32)
    } else {
        Seq::empty()
    })
}

/// Whether the extra data the header's type asks for is there and fits.
pub open spec fn extra_encodable(m: ContentItemMetadataModel) -> bool {
    let f = m.fixed;
    &&& (f.file_type == 3 || f.file_type == 4) ==> m.film_data is Some
    &&& f.activity == 2 ==> m.matchmaking_data is Some && m.matchmaking_data->0.hopper_identifier < 0x8000
    &&& f.game_mode == 1 ==> m.campaign_data is Some && {
        let c = m.campaign_data->0;
        &&& 0 <= c.campaign_id < 256
        &&& 0 <= c.campaign_difficulty < 4
        &&& 0 <= c.campaign_metagame_scoring < 4
        &&& 0 <= c.campaign_insertion_point < 4
    }
    &&& f.game_mode == 2 ==> m.firefight_data is Some && 0 <= m.firefight_data->0.firefight_difficulty < 4
}

/// The encoding of a header.
pub open spec fn content_metadata_bits(m: ContentItemMetadataModel) -> Seq<bool> {
    fixed_bits(m.fixed) + middle_bits(m) + extra_bits(m)
}

/// Whether a header can be encoded.
pub open spec fn content_metadata_encodable(m: ContentItemMetadataModel) -> bool {
    &&& fixed_encodable(m.fixed)
    &&& m.creator_name.len() <= 16
    &&& m.modifier_name.len() <= 16
    &&& m.name.len() <= 128
    &&& m.description.len() <= 128
    &&& extra_encodable(m)
}

/// Reading a NUL-bounded UTF-8 name of at most 16 bytes; a read that runs
/// out of bits gives the empty name and reads nothing.
pub open spec fn parse_lenient_name(bits: Seq<bool>) -> (Seq<u8>, nat) {
    match zstring_parse(bits, 8, 16) {
        None => (Seq::empty(), 0),
        Some(p) => (units_to_bytes(p.0), p.1),
    }
}

/// The creator and modifier part of a header: the creator's name and flag,
/// the modification time and modifier xuid, the modifier's name and flag.
pub struct AuthorFields {
    pub creator_name: Seq<u8>,
    pub creator_xuid_is_online: bool,
    pub modification_time: u64,
    pub modifier_xuid: u64,
    pub modifier_name: Seq<u8>,
    pub modifier_xuid_is_online: bool,
}

/// Reading the creator and modifier part of a header, and the bits it took.
pub open spec fn parse_authors(bits: Seq<bool>) -> Option<(AuthorFields, nat)> {
    let c = parse_lenient_name(bits);
    let o1: int = c.1 as int;
    if bits.len() < o1 + 129 {
        None
    } else {
        let md = parse_lenient_name(bits.skip(o1 + 129));
        let o2: int = o1 + 129 + md.1;
        if bits.len() < o2 + 1 {
            None
        } else {
            Some((AuthorFields {
                creator_name: c.0,
                creator_xuid_is_online: bits[o1],
                modification_time: field_at(bits, o1 + 1, 64) as u64,
                modifier_xuid: field_at(bits, o1 + 65, 64) as u64,
                modifier_name: md.0,
                modifier_xuid_is_online: bits[o2],
            }, (o2 + 1) as nat))
        }
    }
}

/// Reading the middle of a header over `prior`.
pub open spec fn parse_middle(bits: Seq<bool>, prior: ContentItemMetadataModel) -> Option<(ContentItemMetadataModel, nat)> {
    match parse_authors(bits) {
        None => None,
        Some(a) => match parse_wide(bits.skip(a.1 as int)) {
            None => None,
            Some(n) => match parse_wide(bits.skip((a.1 + n.1) as int)) {
                None => None,
                Some(d) => Some((ContentItemMetadataModel {
                    creator_name: a.0.creator_name,
                    creator_xuid_is_online: a.0.creator_xuid_is_online,
                    modification_time: a.0.modification_time,
                    modifier_xuid: a.0.modifier_xuid,
                    modifier_name: a.0.modifier_name,
                    modifier_xuid_is_online: a.0.modifier_xuid_is_online,
                    name: n.0,
                    description: d.0,
                    ..prior
                }, a.1 + n.1 + d.1)),
            },
        },
    }
}

/// Reading the extra data that `m`'s type calls for: film data by file
/// type, then matchmaking data by activity, then campaign or firefight data
/// by game mode.
pub open spec fn parse_extra(bits: Seq<bool>, m: ContentItemMetadataModel) -> Option<(ContentItemMetadataModel, nat)> {
    let f = m.fixed;
    let a: nat = if f.file_type == 3 || f.file_type == 4 { 32 } else { 0 };
    let b: nat = if f.activity == 2 { 16 } else { 0 };
    let c: nat = if f.game_mode == 1 { 46 } else if f.game_mode == 2 { 34 } else { 0 };
    if bits.len() < a + b + c {
        None
    } else {
        Some((ContentItemMetadataModel {
            film_data: if a > 0 {
                Some(s_content_item_metadata_film_data { seconds: sign_extend(field_at(bits, 0, 32), 32) as i32 })
            } else {
                m.film_data
            },
            matchmaking_data: if b > 0 {
                Some(s_content_item_metadata_matchmaking_data { hopper_identifier: field_at(bits, a as int, 16) as u16 })
            } else {
                m.matchmaking_data
            },
            campaign_data: if f.game_mode == 1 {
                Some(s_content_item_metadata_campaign_data {
                    campaign_id: field_at(bits, (a + b) as int, 8) as i32,
                    campaign_difficulty: field_at(bits, (a + b + 8) as int, 2) as i16,
                    campaign_metagame_scoring: field_at(bits, (a + b + 10) as int, 2) as i16,
                    campaign_insertion_point: field_at(bits, (a + b + 12) as int, 2) as i32,
                    campaign_skull_flags: field_at(bits, (a + b + 14) as int, 32) as u32,
                })
            } else {
                m.campaign_data
            },
            firefight_data: if f.game_mode == 2 {
                Some(s_content_item_metadata_firefight_data {
                    firefight_difficulty: field_at(bits, (a + b) as int, 2) as i16,
                    firefight_skull_flags: field_at(bits, (a + b + 2) as int, 32) as u32,
                })
            } else {
                m.firefight_data
            },
            ..m
        }, a + b + c))
    }
}

/// Reading a header from the front of `bits` over `prior`: the header and
/// the bits it took, or `None` when the bits run out. A creator or modifier
/// name that cannot be read is taken as empty; extra data that the header's
/// type does not call for keeps its prior value.
pub open spec fn parse_content_metadata(bits: Seq<bool>, prior: ContentItemMetadataModel) -> Option<(ContentItemMetadataModel, nat)> {
    if bits.len() < fixed_len() {
        None
    } else {
        let m0 = ContentItemMetadataModel { fixed: parse_fixed(bits), ..prior };
        match parse_middle(bits.skip(fixed_len() as int), m0) {
            None => None,
            Some(h) => match parse_extra(bits.skip((fixed_len() + h.1) as int), h.0) {
                None => None,
                Some(t) => Some((t.0, fixed_len() + h.1 + t.1)),
            },
        }
    }
}

fn write_biased(bitstream: &mut c_bitstream_writer, value: i8, size_in_bits: usize) -> (r: BLFLibResult)
    requires
        1 <= size_in_bits <= 8,
    ensures
        r is Ok <==> 0 <= value + 1 < pow2(size_in_bits as nat),
        r is Ok ==> final(bitstream)@ == old(bitstream)@ + bits_of((value + 1) as nat, size_in_bits as nat),
{
    let v: i16 = (value as i16) + 1;
    if v < 0 {
        return Err(BLFLibError::ValueOutOfRange);
    }
    bitstream.write_integer(v as u64, size_in_bits)
}

fn write_unsigned_i32(bitstream: &mut c_bitstream_writer, value: i32, size_in_bits: usize) -> (r: BLFLibResult)
    requires
        1 <= size_in_bits <= 32,
    ensures
        r is Ok <==> 0 <= value < pow2(size_in_bits as nat),
        r is Ok ==> final(bitstream)@ == old(bitstream)@ + bits_of(value as nat, size_in_bits as nat),
{
    if value < 0 {
        return Err(BLFLibError::ValueOutOfRange);
    }
    bitstream.write_integer(value as u64, size_in_bits)
}

fn missing_data(message: &str) -> (e: BLFLibError)
    ensures
        e matches BLFLibError::Message(s) && s@ == message@,
{
    BLFLibError::Message(String::from_str(message))
}

impl s_content_item_metadata {
    fn encode_fixed(&self, bitstream: &mut c_bitstream_writer) -> (r: BLFLibResult)
        ensures
            r is Ok <==> fixed_encodable(self.fixed()),
            r is Ok ==> final(bitstream)@ == old(bitstream)@ + fixed_bits(self.fixed()),
    {
        proof { lemma2_to64(); lemma2_to64_rest(); }
        write_biased(bitstream, self.file_type, 4)?;
        bitstream.write_integer(self.size_in_bytes as u64, 32)?;
        bitstream.write_qword(self.unique_id, 64)?;
        bitstream.write_qword(self.parent_unique_id, 64)?;
        bitstream.write_qword(self.root_unique_id, 64)?;
        bitstream.write_qword(self.game_id, 64)?;
        write_biased(bitstream, self.activity, 3)?;
        bitstream.write_integer(self.game_mode as u64, 3)?;
        bitstream.write_integer(self.game_engine_type as u64, 3)?;
        bitstream.write_signed_integer(self.map_id as i64, 32)?;
        bitstream.write_qword(self.unknown1, 64)?;
        bitstream.write_qword(self.creation_time, 64)?;
        bitstream.write_qword(self.creator_xuid, 64)?;
        assert(bitstream@ =~= old(bitstream)@ + fixed_bits(self.fixed()));
        Ok(())
    }

    fn encode_middle(&self, bitstream: &mut c_bitstream_writer) -> (r: BLFLibResult)
        ensures
            r is Ok <==> self.creator_name@.len() <= 16 && self.modifier_name@.len() <= 16
                && self.name@.len() <= 128 && self.description@.len() <= 128,
            r is Ok ==> final(bitstream)@ == old(bitstream)@ + middle_bits(self@),
    {
        proof { lemma2_to64(); lemma2_to64_rest(); }
        bitstream.write_string_utf8(self.creator_name.as_slice(), 16)?;
        bitstream.write_bool(self.creator_xuid_is_online)?;
        bitstream.write_qword(self.modification_time, 64)?;
        bitstream.write_qword(self.modifier_xuid, 64)?;
        bitstream.write_string_utf8(self.modifier_name.as_slice(), 16)?;
        bitstream.write_bool(self.modifier_xuid_is_online)?;
        bitstream.write_string_wchar(self.name.as_slice(), 128)?;
        bitstream.write_string_wchar(self.description.as_slice(), 128)?;
        assert(bitstream@ =~= old(bitstream)@ + middle_bits(self@));
        Ok(())
    }

    #[verifier::spinoff_prover]
    #[verifier::rlimit(50)]
    fn encode_extra(&self, bitstream: &mut c_bitstream_writer) -> (r: BLFLibResult)
        ensures
            r is Ok <==> extra_encodable(self@),
            r is Ok ==> final(bitstream)@ == old(bitstream)@ + extra_bits(self@),
    {
        proof { lemma2_to64(); lemma2_to64_rest(); }
        let ghost start = bitstream@;
        if self.file_type == 3 || self.file_type == 4 {
            match &self.film_data {
                None => {
                    return Err(missing_data("Tried to serialize film with no film data."));
                },
                Some(film) => {
                    bitstream.write_signed_integer(film.seconds as i64, 32)?;
                },
            }
        }
        let ghost after_film = bitstream@;
        if self.activity == 2 {
            match &self.matchmaking_data {
                None => {
                    return Err(missing_data("Tried to serialize a file from matchmaking with no matchmaking data."));
                },
                Some(data) => {
                    bitstream.write_signed_integer(data.hopper_identifier as i64, 16)?;
                },
            }
        }
        let ghost after_matchmaking = bitstream@;
        if self.game_mode == 1 {
            match &self.campaign_data {
                None => {
                    return Err(missing_data("Tried to serialize campaign file with no campaign data."));
                },
                Some(c) => {
                    write_unsigned_i32(bitstream, c.campaign_id, 8)?;
                    write_unsigned_i32(bitstream, c.campaign_difficulty as i32, 2)?;
                    write_unsigned_i32(bitstream, c.campaign_metagame_scoring as i32, 2)?;
                    write_unsigned_i32(bitstream, c.campaign_insertion_point, 2)?;
                    bitstream.write_integer(c.campaign_skull_flags as u64, 32)?;
                },
            }
        } else if self.game_mode == 2 {
            match &self.firefight_data {
                None => {
                    return Err(missing_data("Tried to serialize firefight file with no firefight data."));
                },
                Some(f) => {
                    write_unsigned_i32(bitstream, f.firefight_difficulty as i32, 2)?;
                    bitstream.write_integer(f.firefight_skull_flags as u64, 32)?;
                },
            }
        }
        assert(bitstream@ =~= start + extra_bits(self@));
        Ok(())
    }

    /// Writes the header: the fixed fields, the creator's and modifier's
    /// names and flags, the name and description, then the extra data that
    /// the file type, activity and game mode call for. Fails when a field
    /// does not fit or that extra data is missing.
    pub fn encode(&self, bitstream: &mut c_bitstream_writer) -> (r: BLFLibResult)
        ensures
            r is Ok <==> content_metadata_encodable(self@),
            r is Ok ==> final(bitstream)@ == old(bitstream)@ + content_metadata_bits(self@),
    {
        self.encode_fixed(bitstream)?;
        self.encode_middle(bitstream)?;
        self.encode_extra(bitstream)?;
        assert(bitstream@ =~= old(bitstream)@ + content_metadata_bits(self@));
        Ok(())
    }
}


fn read_biased(bitstream: &mut c_bitstream_reader, size_in_bits: usize) -> (r: BLFLibResult<i8>)
    requires
        1 <= size_in_bits <= 4,
    ensures
        final(bitstream).data() == old(bitstream).data(),
        r is Ok <==> old(bitstream).remaining().len() >= size_in_bits,
        r matches Ok(v) ==> v == field_at(old(bitstream).remaining(), 0, size_in_bits as int) - 1
            && final(bitstream).remaining() == old(bitstream).remaining().skip(size_in_bits as int),
{
    proof { lemma2_to64(); }
    let v = bitstream.read_unnamed_integer(size_in_bits)?;
    assert(old(bitstream).remaining().take(size_in_bits as int) =~= old(bitstream).remaining().subrange(0, size_in_bits as int));
    Ok((v as i8) - 1)
}

fn read_fixed(bitstream: &mut c_bitstream_reader) -> (r: BLFLibResult<ContentItemFixedFields>)
    ensures
        final(bitstream).data() == old(bitstream).data(),
        r is Ok <==> old(bitstream).remaining().len() >= fixed_len(),
        r matches Ok(f) ==> f == parse_fixed(old(bitstream).remaining())
            && final(bitstream).remaining() == old(bitstream).remaining().skip(fixed_len() as int),
{
    let ghost rem = bitstream.remaining();
    proof { lemma2_to64(); lemma2_to64_rest(); }
    let file_type = read_biased(bitstream, 4)?;
    let size_in_bytes = bitstream.read_unnamed_integer(32)? as u32;
    let unique_id = bitstream.read_qword(64)?;
    let parent_unique_id = bitstream.read_qword(64)?;
    let root_unique_id = bitstream.read_qword(64)?;
    let game_id = bitstream.read_qword(64)?;
    let activity = read_biased(bitstream, 3)?;
    let game_mode = bitstream.read_unnamed_integer(3)? as u8;
    let game_engine_type = bitstream.read_unnamed_integer(3)? as u8;
    let map_id = bitstream.read_unnamed_signed_integer(32)? as i32;
    let unknown1 = bitstream.read_qword(64)?;
    let creation_time = bitstream.read_qword(64)?;
    let creator_xuid = bitstream.read_qword(64)?;
    Ok(ContentItemFixedFields {
        file_type,
        size_in_bytes,
        unique_id,
        parent_unique_id,
        root_unique_id,
        game_id,
        activity,
        game_mode,
        game_engine_type,
        map_id,
        unknown1,
        creation_time,
        creator_xuid,
    })
}

/// Reads a NUL-bounded UTF-8 name of at most 16 bytes, or the empty name,
/// reading nothing, when the bits run out first.
fn read_lenient_name(bitstream: &mut c_bitstream_reader) -> (v: Vec<u8>)
    ensures
        final(bitstream).data() == old(bitstream).data(),
        v@ == parse_lenient_name(old(bitstream).remaining()).0,
        final(bitstream).remaining() == old(bitstream).remaining().skip(parse_lenient_name(old(bitstream).remaining()).1 as int),
{
    let ghost rem = bitstream.remaining();
    match bitstream.read_string_utf8(16) {
        Ok(v) => {
            proof { lemma_bytes_from_units(v@, (zstring_parse(rem, 8, 16)->0).0); }
            v
        },
        Err(_) => {
            assert(rem.skip(0) =~= rem);
            Vec::new()
        },
    }
}

proof fn lemma_lenient_name_len(bits: Seq<bool>)
    ensures
        parse_lenient_name(bits).1 <= bits.len(),
{
    lemma_zstring_parse_len(bits, 8, 16);
}

fn read_authors(bitstream: &mut c_bitstream_reader) -> (r: BLFLibResult<(Vec<u8>, bool, u64, u64, Vec<u8>, bool)>)
    ensures
        final(bitstream).data() == old(bitstream).data(),
        match parse_authors(old(bitstream).remaining()) {
            None => r is Err,
            Some(p) => r matches Ok(v) && v.0@ == p.0.creator_name && v.1 == p.0.creator_xuid_is_online
                && v.2 == p.0.modification_time && v.3 == p.0.modifier_xuid && v.4@ == p.0.modifier_name
                && v.5 == p.0.modifier_xuid_is_online
                && final(bitstream).remaining() == old(bitstream).remaining().skip(p.1 as int),
        },
{
    let ghost rem = bitstream.remaining();
    proof { lemma2_to64(); lemma2_to64_rest(); lemma_lenient_name_len(rem); }
    let creator_name = read_lenient_name(bitstream);
    let ghost o1: int = parse_lenient_name(rem).1 as int;
    let creator_xuid_is_online = bitstream.read_unnamed_bool()?;
    let modification_time = bitstream.read_qword(64)?;
    let modifier_xuid = bitstream.read_qword(64)?;
    proof { lemma_lenient_name_len(rem.skip(o1 + 129)); }
    let modifier_name = read_lenient_name(bitstream);
    let ghost o2: int = o1 + 129 + parse_lenient_name(rem.skip(o1 + 129)).1;
    let modifier_xuid_is_online = bitstream.read_unnamed_bool()?;
    assert(creator_xuid_is_online == rem[o1]);
    assert(modifier_xuid_is_online == rem[o2]);
    Ok((creator_name, creator_xuid_is_online, modification_time, modifier_xuid, modifier_name, modifier_xuid_is_online))
}

proof fn lemma_authors_len(bits: Seq<bool>)
    ensures
        parse_authors(bits) matches Some(p) ==> p.1 <= bits.len(),
{
}

impl s_content_item_metadata {
    fn decode_middle(&mut self, bitstream: &mut c_bitstream_reader) -> (r: BLFLibResult)
        ensures
            final(bitstream).data() == old(bitstream).data(),
            match parse_middle(old(bitstream).remaining(), old(self)@) {
                None => r is Err,
                Some(p) => r is Ok && final(self)@ == p.0
                    && final(bitstream).remaining() == old(bitstream).remaining().skip(p.1 as int),
            },
    {
        let ghost rem = bitstream.remaining();
        let (creator_name, creator_xuid_is_online, modification_time, modifier_xuid, modifier_name, modifier_xuid_is_online) =
            read_authors(bitstream)?;
        let ghost a1 = (parse_authors(rem)->0).1;
        proof { lemma_authors_len(rem); lemma_wide_len(rem.skip(a1 as int)); }
        let name = read_wide(bitstream)?;
        let ghost n1 = (parse_wide(rem.skip(a1 as int))->0).1;
        proof { lemma_wide_len(rem.skip((a1 + n1) as int)); }
        let description = read_wide(bitstream)?;
        self.creator_name = creator_name;
        self.creator_xuid_is_online = creator_xuid_is_online;
        self.modification_time = modification_time;
        self.modifier_xuid = modifier_xuid;
        self.modifier_name = modifier_name;
        self.modifier_xuid_is_online = modifier_xuid_is_online;
        self.name = name;
        self.description = description;
        Ok(())
    }

    fn decode_extra(&mut self, bitstream: &mut c_bitstream_reader) -> (r: BLFLibResult)
        ensures
            final(bitstream).data() == old(bitstream).data(),
            match parse_extra(old(bitstream).remaining(), old(self)@) {
                None => r is Err,
                Some(p) => r is Ok && final(self)@ == p.0
                    && final(bitstream).remaining() == old(bitstream).remaining().skip(p.1 as int),
            },
    {
        let ghost rem = bitstream.remaining();
        proof { lemma2_to64(); lemma2_to64_rest(); }
        if self.file_type == 3 || self.file_type == 4 {
            let seconds = bitstream.read_unnamed_signed_integer(32)? as i32;
            self.film_data = Some(s_content_item_metadata_film_data { seconds });
        }
        if self.activity == 2 {
            let hopper_identifier = bitstream.read_unnamed_integer(16)? as u16;
            self.matchmaking_data = Some(s_content_item_metadata_matchmaking_data { hopper_identifier });
        }
        if self.game_mode == 1 {
            let campaign_id = bitstream.read_unnamed_integer(8)? as i32;
            let campaign_difficulty = bitstream.read_unnamed_integer(2)? as i16;
            let campaign_metagame_scoring = bitstream.read_unnamed_integer(2)? as i16;
            let campaign_insertion_point = bitstream.read_unnamed_integer(2)? as i32;
            let campaign_skull_flags = bitstream.read_unnamed_integer(32)? as u32;
            self.campaign_data = Some(s_content_item_metadata_campaign_data {
                campaign_id,
                campaign_difficulty,
                campaign_metagame_scoring,
                campaign_insertion_point,
                campaign_skull_flags,
            });
        } else if self.game_mode == 2 {
            let firefight_difficulty = bitstream.read_unnamed_integer(2)? as i16;
            let firefight_skull_flags = bitstream.read_unnamed_integer(32)? as u32;
            self.firefight_data = Some(s_content_item_metadata_firefight_data { firefight_difficulty, firefight_skull_flags });
        }
        assert(rem.take(32) =~= rem.subrange(0, 32));
        assert(rem.take(16) =~= rem.subrange(0, 16));
        assert(rem.take(8) =~= rem.subrange(0, 8));
        assert(rem.take(2) =~= rem.subrange(0, 2));
        assert(rem.skip(0) =~= rem);
        Ok(())
    }

    /// Reads a header over `self`: the fixed fields, the creator's and
    /// modifier's names and flags (a name that cannot be read is left empty),
    /// the name and description, then the extra data that the file type,
    /// activity and game mode call for. Extra data not called for keeps its
    /// value.
    pub fn decode(&mut self, bitstream: &mut c_bitstream_reader) -> (r: BLFLibResult)
        ensures
            final(bitstream).data() == old(bitstream).data(),
            match parse_content_metadata(old(bitstream).remaining(), old(self)@) {
                None => r is Err,
                Some(p) => r is Ok && final(self)@ == p.0
                    && final(bitstream).remaining() == old(bitstream).remaining().skip(p.1 as int),
            },
    {
        let ghost rem = bitstream.remaining();
        let f = read_fixed(bitstream)?;
        self.file_type = f.file_type;
        self.size_in_bytes = f.size_in_bytes;
        self.unique_id = f.unique_id;
        self.parent_unique_id = f.parent_unique_id;
        self.root_unique_id = f.root_unique_id;
        self.game_id = f.game_id;
        self.activity = f.activity;
        self.game_mode = f.game_mode;
        self.game_engine_type = f.game_engine_type;
        self.map_id = f.map_id;
        self.unknown1 = f.unknown1;
        self.creation_time = f.creation_time;
        self.creator_xuid = f.creator_xuid;
        assert(self.fixed() == f);
        let ghost r1 = bitstream.remaining();
        self.decode_middle(bitstream)?;
        proof { lemma_middle_len(r1, ContentItemMetadataModel { fixed: f, ..old(self)@ }); }
        self.decode_extra(bitstream)?;
        Ok(())
    }
}

proof fn lemma_middle_len(bits: Seq<bool>, prior: ContentItemMetadataModel)
    ensures
        parse_middle(bits, prior) matches Some(p) ==> p.1 <= bits.len(),
{
    lemma_authors_len(bits);
    if let Some(a) = parse_authors(bits) {
        lemma_wide_len(bits.skip(a.1 as int));
        if let Some(n) = parse_wide(bits.skip(a.1 as int)) {
            lemma_wide_len(bits.skip((a.1 + n.1) as int));
        }
    }
}


/// Whether every string of a header reads back whole.
pub open spec fn content_metadata_strings_readable(m: ContentItemMetadataModel) -> bool {
    &&& no_nul_bytes(m.creator_name)
    &&& no_nul_bytes(m.modifier_name)
    &&& no_nul_units(m.name)
    &&& no_nul_units(m.description)
}

proof fn lemma_fixed_roundtrip(f: ContentItemFixedFields, rest: Seq<bool>)
    requires
        fixed_encodable(f),
    ensures
        fixed_bits(f).len() == fixed_len(),
        parse_fixed(fixed_bits(f) + rest) == f,
{
    lemma2_to64();
    lemma2_to64_rest();
    lemma_unsigned_roundtrip((f.file_type + 1) as nat, 4);
    lemma_unsigned_roundtrip(f.size_in_bytes as nat, 32);
    lemma_unsigned_roundtrip(f.unique_id as nat, 64);
    lemma_unsigned_roundtrip(f.parent_unique_id as nat, 64);
    lemma_unsigned_roundtrip(f.root_unique_id as nat, 64);
    lemma_unsigned_roundtrip(f.game_id as nat, 64);
    lemma_unsigned_roundtrip((f.activity + 1) as nat, 3);
    lemma_unsigned_roundtrip(f.game_mode as nat, 3);
    lemma_unsigned_roundtrip(f.game_engine_type as nat, 3);
    lemma_signed_roundtrip(f.map_id as int, 32);
    lemma_unsigned_roundtrip(f.unknown1 as nat, 64);
    lemma_unsigned_roundtrip(f.creation_time as nat, 64);
    lemma_unsigned_roundtrip(f.creator_xuid as nat, 64);
    let w = fixed_bits(f) + rest;
    assert(w.subrange(0, 4) =~= bits_of((f.file_type + 1) as nat, 4));
    assert(w.subrange(4, 36) =~= bits_of(f.size_in_bytes as nat, 32));
    assert(w.subrange(36, 100) =~= bits_of(f.unique_id as nat, 64));
    assert(w.subrange(100, 164) =~= bits_of(f.parent_unique_id as nat, 64));
    assert(w.subrange(164, 228) =~= bits_of(f.root_unique_id as nat, 64));
    assert(w.subrange(228, 292) =~= bits_of(f.game_id as nat, 64));
    assert(w.subrange(292, 295) =~= bits_of((f.activity + 1) as nat, 3));
    assert(w.subrange(295, 298) =~= bits_of(f.game_mode as nat, 3));
    assert(w.subrange(298, 301) =~= bits_of(f.game_engine_type as nat, 3));
    assert(w.subrange(301, 333) =~= signed_bits_of(f.map_id as int, 32));
    assert(w.subrange(333, 397) =~= bits_of(f.unknown1 as nat, 64));
    assert(w.subrange(397, 461) =~= bits_of(f.creation_time as nat, 64));
    assert(w.subrange(461, 525) =~= bits_of(f.creator_xuid as nat, 64));
}

proof fn lemma_authors_roundtrip(m: ContentItemMetadataModel, rest: Seq<bool>)
    requires
        m.creator_name.len() <= 16,
        m.modifier_name.len() <= 16,
        no_nul_bytes(m.creator_name),
        no_nul_bytes(m.modifier_name),
    ensures ({
        let a = zstring_bits(byte_units(m.creator_name), 8, 16) + seq![m.creator_xuid_is_online]
            + bits_of(m.modification_time as nat, 64) + bits_of(m.modifier_xuid as nat, 64)
            + zstring_bits(byte_units(m.modifier_name), 8, 16) + seq![m.modifier_xuid_is_online];
        parse_authors(a + rest) == Some((AuthorFields {
            creator_name: m.creator_name,
            creator_xuid_is_online: m.creator_xuid_is_online,
            modification_time: m.modification_time,
            modifier_xuid: m.modifier_xuid,
            modifier_name: m.modifier_name,
            modifier_xuid_is_online: m.modifier_xuid_is_online,
        }, a.len()))
    }),
{
    lemma2_to64();
    lemma2_to64_rest();
    let zc = zstring_bits(byte_units(m.creator_name), 8, 16);
    let zm = zstring_bits(byte_units(m.modifier_name), 8, 16);
    let t = bits_of(m.modification_time as nat, 64);
    let x = bits_of(m.modifier_xuid as nat, 64);
    let a = zc + seq![m.creator_xuid_is_online] + t + x + zm + seq![m.modifier_xuid_is_online];
    let w = a + rest;
    lemma_byte_string_roundtrip(m.creator_name, seq![m.creator_xuid_is_online] + t + x + zm + seq![m.modifier_xuid_is_online] + rest);
    assert(w =~= zc + (seq![m.creator_xuid_is_online] + t + x + zm + seq![m.modifier_xuid_is_online] + rest));
    lemma_unsigned_roundtrip(m.modification_time as nat, 64);
    lemma_unsigned_roundtrip(m.modifier_xuid as nat, 64);
    let o1 = zc.len() as int;
    assert(w[o1] == m.creator_xuid_is_online);
    assert(w.subrange(o1 + 1, o1 + 65) =~= t);
    assert(w.subrange(o1 + 65, o1 + 129) =~= x);
    lemma_byte_string_roundtrip(m.modifier_name, seq![m.modifier_xuid_is_online] + rest);
    assert(w.skip(o1 + 129) =~= zm + (seq![m.modifier_xuid_is_online] + rest));
    assert(w[o1 + 129 + zm.len()] == m.modifier_xuid_is_online);
}

#[verifier::spinoff_prover]
#[verifier::rlimit(50)]
proof fn lemma_middle_roundtrip(m: ContentItemMetadataModel, rest: Seq<bool>)
    requires
        content_metadata_encodable(m),
        content_metadata_strings_readable(m),
    ensures
        parse_middle(middle_bits(m) + rest, m) == Some((m, middle_bits(m).len())),
{
    let a = zstring_bits(byte_units(m.creator_name), 8, 16) + seq![m.creator_xuid_is_online]
        + bits_of(m.modification_time as nat, 64) + bits_of(m.modifier_xuid as nat, 64)
        + zstring_bits(byte_units(m.modifier_name), 8, 16) + seq![m.modifier_xuid_is_online];
    let zn = zstring_bits(wide_units(m.name), 16, 128);
    let zd = zstring_bits(wide_units(m.description), 16, 128);
    let w = middle_bits(m) + rest;
    assert(w =~= a + (zn + zd + rest));
    lemma_authors_roundtrip(m, zn + zd + rest);
    assert(w.skip(a.len() as int) =~= zn + (zd + rest));
    lemma_wide_roundtrip(m.name, zd + rest);
    assert(w.skip((a.len() + zn.len()) as int) =~= zd + rest);
    lemma_wide_roundtrip(m.description, rest);
}

proof fn lemma_extra_roundtrip(m: ContentItemMetadataModel, rest: Seq<bool>)
    requires
        extra_encodable(m),
    ensures
        parse_extra(extra_bits(m) + rest, m) == Some((m, extra_bits(m).len())),
{
    lemma2_to64();
    lemma2_to64_rest();
    let f = m.fixed;
    let e = extra_bits(m);
    let w = e + rest;
    let a: int = if f.file_type == 3 || f.file_type == 4 { 32 } else { 0 };
    let b: int = if f.activity == 2 { 16 } else { 0 };
    if f.file_type == 3 || f.file_type == 4 {
        lemma_signed_roundtrip(m.film_data->0.seconds as int, 32);
        assert(w.subrange(0, 32) =~= signed_bits_of(m.film_data->0.seconds as int, 32));
    }
    if f.activity == 2 {
        let h = m.matchmaking_data->0.hopper_identifier;
        assert(twos_complement(h as int, 16) == h);
        lemma_unsigned_roundtrip(h as nat, 16);
        assert(w.subrange(a, a + 16) =~= bits_of(h as nat, 16));
    }
    if f.game_mode == 1 {
        let c = m.campaign_data->0;
        lemma_unsigned_roundtrip(c.campaign_id as nat, 8);
        lemma_unsigned_roundtrip(c.campaign_difficulty as nat, 2);
        lemma_unsigned_roundtrip(c.campaign_metagame_scoring as nat, 2);
        lemma_unsigned_roundtrip(c.campaign_insertion_point as nat, 2);
        lemma_unsigned_roundtrip(c.campaign_skull_flags as nat, 32);
        assert(w.subrange(a + b, a + b + 8) =~= bits_of(c.campaign_id as nat, 8));
        assert(w.subrange(a + b + 8, a + b + 10) =~= bits_of(c.campaign_difficulty as nat, 2));
        assert(w.subrange(a + b + 10, a + b + 12) =~= bits_of(c.campaign_metagame_scoring as nat, 2));
        assert(w.subrange(a + b + 12, a + b + 14) =~= bits_of(c.campaign_insertion_point as nat, 2));
        assert(w.subrange(a + b + 14, a + b + 46) =~= bits_of(c.campaign_skull_flags as nat, 32));
    } else if f.game_mode == 2 {
        let d = m.firefight_data->0;
        lemma_unsigned_roundtrip(d.firefight_difficulty as nat, 2);
        lemma_unsigned_roundtrip(d.firefight_skull_flags as nat, 32);
        assert(w.subrange(a + b, a + b + 2) =~= bits_of(d.firefight_difficulty as nat, 2));
        assert(w.subrange(a + b + 2, a + b + 34) =~= bits_of(d.firefight_skull_flags as nat, 32));
    }
}

/// Reading back what `encode` wrote gives the same header, whatever
/// follows it, as long as no string holds a NUL.
#[verifier::spinoff_prover]
#[verifier::rlimit(50)]
pub proof fn lemma_content_metadata_roundtrip(m: ContentItemMetadataModel, rest: Seq<bool>)
    requires
        content_metadata_encodable(m),
        content_metadata_strings_readable(m),
    ensures
        parse_content_metadata(content_metadata_bits(m) + rest, m) == Some((m, content_metadata_bits(m).len())),
{
    let fb = fixed_bits(m.fixed);
    let mb = middle_bits(m);
    let eb = extra_bits(m);
    let w = content_metadata_bits(m) + rest;
    assert(w =~= fb + (mb + eb + rest));
    lemma_fixed_roundtrip(m.fixed, mb + eb + rest);
    let m0 = ContentItemMetadataModel { fixed: parse_fixed(w), ..m };
    assert(m0 == m);
    assert(w.skip(fixed_len() as int) =~= mb + (eb + rest));
    lemma_middle_roundtrip(m, eb + rest);
    assert(w.skip((fixed_len() + mb.len()) as int) =~= eb + rest);
    lemma_extra_roundtrip(m, rest);
}

/// Whether `prior` holds `m`'s value in every field that decoding `m`'s bits
/// over `prior` leaves as it is: the extra data that `m`'s file type,
/// activity and game mode do not call for.
pub open spec fn content_kept_fields_agree(m: ContentItemMetadataModel, prior: ContentItemMetadataModel) -> bool {
    &&& !(m.fixed.file_type == 3 || m.fixed.file_type == 4) ==> prior.film_data == m.film_data
    &&& m.fixed.activity != 2 ==> prior.matchmaking_data == m.matchmaking_data
    &&& m.fixed.game_mode != 1 ==> prior.campaign_data == m.campaign_data
    &&& m.fixed.game_mode != 2 ==> prior.firefight_data == m.firefight_data
}

/// Reading back what `encode` wrote gives the same header over any prior
/// value that holds the extra data the header's selectors do not call for,
/// such as a default header when exactly the called-for extra data is
/// present; whatever follows it, as long as no string holds a NUL.
#[verifier::spinoff_prover]
#[verifier::rlimit(50)]
pub proof fn lemma_content_metadata_roundtrip_over(m: ContentItemMetadataModel, prior: ContentItemMetadataModel, rest: Seq<bool>)
    requires
        content_metadata_encodable(m),
        content_metadata_strings_readable(m),
        content_kept_fields_agree(m, prior),
    ensures
        parse_content_metadata(content_metadata_bits(m) + rest, prior) == Some((m, content_metadata_bits(m).len())),
{
    lemma_content_metadata_roundtrip(m, rest);
    let w = content_metadata_bits(m) + rest;
    let mx = ContentItemMetadataModel { fixed: parse_fixed(w), ..m };
    let my = ContentItemMetadataModel { fixed: parse_fixed(w), ..prior };
    let tail = w.skip(fixed_len() as int);
    let hx = parse_middle(tail, mx);
    let hy = parse_middle(tail, my);
    assert(hx is Some);
    assert(hy is Some);
    assert((hx->0).1 == (hy->0).1);
    let ex = parse_extra(w.skip((fixed_len() + (hx->0).1) as int), (hx->0).0);
    let ey = parse_extra(w.skip((fixed_len() + (hx->0).1) as int), (hy->0).0);
    assert(ex is Some);
    assert((ex->0).0 == (ey->0).0);
}

/// The fixed-width fields' wire layout, as the header format fixes it: file
/// type plus one in 4 bits at bit 0, size at 4 (32 bits), unique id at 36,
/// parent unique id at 100, root unique id at 164, game id at 228 (64 bits
/// each), activity plus one at 292 (3 bits), game mode at 295 and engine type
/// at 298 (3 bits each), map id at 301 (32 bits, two's complement), then the
/// unknown field at 333, creation time at 397 and creator xuid at 461 (64 bits
/// each): 525 bits in all.
pub proof fn lemma_fixed_write_layout(f: ContentItemFixedFields)
    requires
        fixed_encodable(f),
    ensures ({
        let w = fixed_bits(f);
        &&& w.len() == 525
        &&& w.subrange(0, 4) == bits_of((f.file_type + 1) as nat, 4)
        &&& w.subrange(4, 36) == bits_of(f.size_in_bytes as nat, 32)
        &&& w.subrange(36, 100) == bits_of(f.unique_id as nat, 64)
        &&& w.subrange(100, 164) == bits_of(f.parent_unique_id as nat, 64)
        &&& w.subrange(164, 228) == bits_of(f.root_unique_id as nat, 64)
        &&& w.subrange(228, 292) == bits_of(f.game_id as nat, 64)
        &&& w.subrange(292, 295) == bits_of((f.activity + 1) as nat, 3)
        &&& w.subrange(295, 298) == bits_of(f.game_mode as nat, 3)
        &&& w.subrange(298, 301) == bits_of(f.game_engine_type as nat, 3)
        &&& w.subrange(301, 333) == signed_bits_of(f.map_id as int, 32)
        &&& w.subrange(333, 397) == bits_of(f.unknown1 as nat, 64)
        &&& w.subrange(397, 461) == bits_of(f.creation_time as nat, 64)
        &&& w.subrange(461, 525) == bits_of(f.creator_xuid as nat, 64)
    }),
{
    lemma2_to64();
    lemma2_to64_rest();
    lemma_unsigned_roundtrip((f.file_type + 1) as nat, 4);
    lemma_unsigned_roundtrip(f.size_in_bytes as nat, 32);
    lemma_unsigned_roundtrip(f.unique_id as nat, 64);
    lemma_unsigned_roundtrip(f.parent_unique_id as nat, 64);
    lemma_unsigned_roundtrip(f.root_unique_id as nat, 64);
    lemma_unsigned_roundtrip(f.game_id as nat, 64);
    lemma_unsigned_roundtrip((f.activity + 1) as nat, 3);
    lemma_unsigned_roundtrip(f.game_mode as nat, 3);
    lemma_unsigned_roundtrip(f.game_engine_type as nat, 3);
    lemma_signed_roundtrip(f.map_id as int, 32);
    lemma_unsigned_roundtrip(f.unknown1 as nat, 64);
    lemma_unsigned_roundtrip(f.creation_time as nat, 64);
    lemma_unsigned_roundtrip(f.creator_xuid as nat, 64);
    let w = fixed_bits(f);
    assert(w.subrange(0, 4) =~= bits_of((f.file_type + 1) as nat, 4));
    assert(w.subrange(4, 36) =~= bits_of(f.size_in_bytes as nat, 32));
    assert(w.subrange(36, 100) =~= bits_of(f.unique_id as nat, 64));
    assert(w.subrange(100, 164) =~= bits_of(f.parent_unique_id as nat, 64));
    assert(w.subrange(164, 228) =~= bits_of(f.root_unique_id as nat, 64));
    assert(w.subrange(228, 292) =~= bits_of(f.game_id as nat, 64));
    assert(w.subrange(292, 295) =~= bits_of((f.activity + 1) as nat, 3));
    assert(w.subrange(295, 298) =~= bits_of(f.game_mode as nat, 3));
    assert(w.subrange(298, 301) =~= bits_of(f.game_engine_type as nat, 3));
    assert(w.subrange(301, 333) =~= signed_bits_of(f.map_id as int, 32));
    assert(w.subrange(333, 397) =~= bits_of(f.unknown1 as nat, 64));
    assert(w.subrange(397, 461) =~= bits_of(f.creation_time as nat, 64));
    assert(w.subrange(461, 525) =~= bits_of(f.creator_xuid as nat, 64));
}

/// Reading the fixed-width fields takes each from the offset the format
/// fixes for it (see `lemma_fixed_write_layout`).
pub proof fn lemma_fixed_read_layout(bits: Seq<bool>)
    ensures ({
        let f = parse_fixed(bits);
        &&& f.file_type == (field_at(bits, 0, 4) - 1) as i8
        &&& f.size_in_bytes == field_at(bits, 4, 32) as u32
        &&& f.unique_id == field_at(bits, 36, 64) as u64
        &&& f.parent_unique_id == field_at(bits, 100, 64) as u64
        &&& f.root_unique_id == field_at(bits, 164, 64) as u64
        &&& f.game_id == field_at(bits, 228, 64) as u64
        &&& f.activity == (field_at(bits, 292, 3) - 1) as i8
        &&& f.game_mode == field_at(bits, 295, 3) as u8
        &&& f.game_engine_type == field_at(bits, 298, 3) as u8
        &&& f.map_id == sign_extend(field_at(bits, 301, 32), 32) as i32
        &&& f.unknown1 == field_at(bits, 333, 64) as u64
        &&& f.creation_time == field_at(bits, 397, 64) as u64
        &&& f.creator_xuid == field_at(bits, 461, 64) as u64
    }),
{
}

/// The middle of a header, as the format lays it out after the creator's
/// NUL-bounded name (`o` bits): the creator online bit at `o`, the
/// modification time at `o + 1` and the modifier xuid at `o + 65` (64 bits
/// each), then the modifier's name; reading takes them from there.
pub proof fn lemma_authors_layout(m: ContentItemMetadataModel, bits: Seq<bool>)
    ensures ({
        let w = middle_bits(m);
        let o = zstring_bits(byte_units(m.creator_name), 8, 16).len() as int;
        &&& w[o] == m.creator_xuid_is_online
        &&& w.subrange(o + 1, o + 65) == bits_of(m.modification_time as nat, 64)
        &&& w.subrange(o + 65, o + 129) == bits_of(m.modifier_xuid as nat, 64)
    }),
    ({
        let o = parse_lenient_name(bits).1 as int;
        parse_authors(bits) matches Some(a) ==> a.0.creator_xuid_is_online == bits[o]
            && a.0.modification_time == field_at(bits, o + 1, 64) as u64
            && a.0.modifier_xuid == field_at(bits, o + 65, 64) as u64
    }),
{
    let zc = zstring_bits(byte_units(m.creator_name), 8, 16);
    let w = middle_bits(m);
    let t = bits_of(m.modification_time as nat, 64);
    let x = bits_of(m.modifier_xuid as nat, 64);
    lemma_bits_of_len(m.modification_time as nat, 64);
    lemma_bits_of_len(m.modifier_xuid as nat, 64);
    let o = zc.len() as int;
    assert(w =~= zc + seq![m.creator_xuid_is_online] + t + x + (zstring_bits(byte_units(m.modifier_name), 8, 16)
        + seq![m.modifier_xuid_is_online] + zstring_bits(wide_units(m.name), 16, 128) + zstring_bits(wide_units(m.description), 16, 128)));
    assert(w.subrange(o + 1, o + 65) =~= t);
    assert(w.subrange(o + 65, o + 129) =~= x);
}

/// The extra data as the format lays it out: film seconds (32 bits) first for
/// a film, then the matchmaking hopper (16 bits) for the matchmaking
/// activity, then for a campaign its id (8 bits), difficulty, metagame
/// scoring and insertion point (2 bits each) and skull flags (32 bits), or
/// for firefight its difficulty (2 bits) and skull flags (32 bits).
pub proof fn lemma_extra_write_layout(m: ContentItemMetadataModel)
    requires
        extra_encodable(m),
    ensures ({
        let w = extra_bits(m);
        let f = m.fixed;
        let a: int = if f.file_type == 3 || f.file_type == 4 { 32 } else { 0 };
        let b: int = if f.activity == 2 { 16 } else { 0 };
        &&& a == 32 ==> w.subrange(0, 32) == signed_bits_of(m.film_data->0.seconds as int, 32)
        &&& b == 16 ==> w.subrange(a, a + 16) == signed_bits_of(m.matchmaking_data->0.hopper_identifier as int, 16)
        &&& f.game_mode == 1 ==> {
            let c = m.campaign_data->0;
            &&& w.subrange(a + b, a + b + 8) == bits_of(c.campaign_id as nat, 8)
            &&& w.subrange(a + b + 8, a + b + 10) == bits_of(c.campaign_difficulty as nat, 2)
            &&& w.subrange(a + b + 10, a + b + 12) == bits_of(c.campaign_metagame_scoring as nat, 2)
            &&& w.subrange(a + b + 12, a + b + 14) == bits_of(c.campaign_insertion_point as nat, 2)
            &&& w.subrange(a + b + 14, a + b + 46) == bits_of(c.campaign_skull_flags as nat, 32)
        }
        &&& f.game_mode == 2 ==> {
            let d = m.firefight_data->0;
            &&& w.subrange(a + b, a + b + 2) == bits_of(d.firefight_difficulty as nat, 2)
            &&& w.subrange(a + b + 2, a + b + 34) == bits_of(d.firefight_skull_flags as nat, 32)
        }
    }),
{
    lemma2_to64();
    let f = m.fixed;
    let fb: Seq<bool> = if f.file_type == 3 || f.file_type == 4 { signed_bits_of(m.film_data->0.seconds as int, 32) } else { Seq::empty() };
    let mb: Seq<bool> = if f.activity == 2 { signed_bits_of(m.matchmaking_data->0.hopper_identifier as int, 16) } else { Seq::empty() };
    let a: int = if f.file_type == 3 || f.file_type == 4 { 32 } else { 0 };
    let b: int = if f.activity == 2 { 16 } else { 0 };
    if f.file_type == 3 || f.file_type == 4 {
        lemma_signed_roundtrip(m.film_data->0.seconds as int, 32);
    }
    if f.activity == 2 {
        lemma_signed_roundtrip(m.matchmaking_data->0.hopper_identifier as int, 16);
    }
    assert(fb.len() == a);
    assert(mb.len() == b);
    let w = extra_bits(m);
    if f.game_mode == 1 {
        let c = m.campaign_data->0;
        lemma_unsigned_roundtrip(c.campaign_id as nat, 8);
        lemma_unsigned_roundtrip(c.campaign_difficulty as nat, 2);
        lemma_unsigned_roundtrip(c.campaign_metagame_scoring as nat, 2);
        lemma_unsigned_roundtrip(c.campaign_insertion_point as nat, 2);
        lemma_unsigned_roundtrip(c.campaign_skull_flags as nat, 32);
        assert(w.subrange(a + b, a + b + 8) =~= bits_of(c.campaign_id as nat, 8));
        assert(w.subrange(a + b + 8, a + b + 10) =~= bits_of(c.campaign_difficulty as nat, 2));
        assert(w.subrange(a + b + 10, a + b + 12) =~= bits_of(c.campaign_metagame_scoring as nat, 2));
        assert(w.subrange(a + b + 12, a + b + 14) =~= bits_of(c.campaign_insertion_point as nat, 2));
        assert(w.subrange(a + b + 14, a + b + 46) =~= bits_of(c.campaign_skull_flags as nat, 32));
    } else if f.game_mode == 2 {
        let d = m.firefight_data->0;
        lemma_unsigned_roundtrip(d.firefight_difficulty as nat, 2);
        lemma_unsigned_roundtrip(d.firefight_skull_flags as nat, 32);
        assert(w.subrange(a + b, a + b + 2) =~= bits_of(d.firefight_difficulty as nat, 2));
        assert(w.subrange(a + b + 2, a + b + 34) =~= bits_of(d.firefight_skull_flags as nat, 32));
    }
    if a == 32 {
        assert(w.subrange(0, 32) =~= fb);
    }
    if b == 16 {
        assert(w.subrange(a, a + 16) =~= mb);
    }
}

} // verus!
