//! The Reach multiplayer object properties of a variant object: the
//! boundary, the 8-bit user data and spawn time, the 5-bit cached type, the
//! label index plus one in 8 bits, the 8-bit placement flags, the team plus
//! one in 4 bits, the primary change colour index plus one in 3 bits, then
//! the data the cached type calls for: the spare clips of a weapon (type 1),
//! the channel and passability of a teleporter (types 12 to 14, 5 bits each)
//! or the location name index plus one (type 19, 8 bits).

use vstd::prelude::*;
use vstd::arithmetic::power2::*;
use vstd::string::StringExecFns;
use crate::io::bitstream::{
    c_bitstream_writer, c_bitstream_reader, bits_of, field_at, lemma_unsigned_roundtrip, lemma_value_of_bound,
    group_bitstream_seq,
};
use crate::result::{BLFLibError, BLFLibResult};
use crate::blam::haloreach_mcc::v_untracked_25_08_16_1352::saved_games::scenario_map_variant::{
    s_multiplayer_object_boundary, e_boundary_shape, boundary_canonical,
    s_variant_multiplayer_object_properties_definition_location_data,
    s_variant_multiplayer_object_properties_definition_teleporter_data,
    s_variant_multiplayer_object_properties_definition_weapon_data,
};

verus! {

broadcast use group_bitstream_seq;

/// The multiplayer properties of a Reach variant object.
#[derive(Default, PartialEq, Eq, Debug, Clone, Copy)]
pub struct s_variant_multiplayer_object_properties_definition {
    pub boundary: Option<s_multiplayer_object_boundary>,
    pub game_engine_flags: u16,
    pub user_data: u8,
    pub spawn_time: u8,
    pub cached_type: u8,
    pub label_index: i8,
    pub placement_flags: u8,
    pub team: i8,
    pub primary_change_color_index: i8,
    pub location_data: Option<s_variant_multiplayer_object_properties_definition_location_data>,
    pub teleporter_data: Option<s_variant_multiplayer_object_properties_definition_teleporter_data>,
    pub weapon_data: Option<s_variant_multiplayer_object_properties_definition_weapon_data>,
}

/// Whether a cached type is a teleporter's.
pub open spec fn is_teleporter_type(t: nat) -> bool {
    12 <= t <= 14
}

/// The number of bits of the data a cached type calls for.
pub open spec fn type_data_len(t: nat) -> nat {
    if t == 1 { 8 } else if is_teleporter_type(t) { 10 } else if t == 19 { 8 } else { 0 }
}

/// The number of bits of the fixed fields after the boundary.
pub open spec fn fixed_len() -> nat {
    44
}

/// The boundary written for `b`: the unused shape for none.
pub open spec fn boundary_bits(b: Option<s_multiplayer_object_boundary>) -> Seq<bool> {
    match b {
        Some(x) => x.wire_bits(),
        None => bits_of(0, 2),
    }
}

impl s_variant_multiplayer_object_properties_definition {
    /// The bits of the fields after the boundary, up to the type's data.
    pub open spec fn fixed_bits(&self) -> Seq<bool> {
        bits_of(self.user_data as nat, 8) + bits_of(self.spawn_time as nat, 8) + bits_of(self.cached_type as nat, 5)
            + bits_of((self.label_index + 1) as nat, 8) + bits_of(self.placement_flags as nat, 8)
            + bits_of((self.team + 1) as nat, 4) + bits_of((self.primary_change_color_index + 1) as nat, 3)
    }

    /// The bits of the data the cached type calls for.
    pub open spec fn type_data_bits(&self) -> Seq<bool> {
        let t = self.cached_type as nat;
        if t == 1 {
            bits_of(self.weapon_data->0.spare_clips as nat, 8)
        } else if is_teleporter_type(t) {
            bits_of(self.teleporter_data->0.channel as nat, 5) + bits_of(self.teleporter_data->0.passability as nat, 5)
        } else if t == 19 {
            bits_of((self.location_data->0.location_name_index + 1) as nat, 8)
        } else {
            Seq::empty()
        }
    }

    /// The encoding of the properties.
    pub open spec fn wire_bits(&self) -> Seq<bool> {
        boundary_bits(self.boundary) + self.fixed_bits() + self.type_data_bits()
    }

    /// Whether the properties can be written: every field fits its width and
    /// the data the cached type calls for is there.
    pub open spec fn wire_ok(&self) -> bool {
        let t = self.cached_type as nat;
        &&& (self.boundary matches Some(b) ==> b.wire_ok())
        &&& self.cached_type < 32
        &&& -1 <= self.label_index
        &&& -1 <= self.team < 15
        &&& -1 <= self.primary_change_color_index < 7
        &&& t == 1 ==> self.weapon_data is Some
        &&& is_teleporter_type(t) ==> (self.teleporter_data matches Some(d) && d.channel < 32 && d.passability < 32)
        &&& t == 19 ==> (self.location_data matches Some(d) && -1 <= d.location_name_index)
    }

    /// The number of bits decoding takes from the front of `bits`.
    pub open spec fn parse_len(bits: Seq<bool>) -> nat {
        let b = s_multiplayer_object_boundary::parse_len(bits);
        b + fixed_len() + type_data_len(field_at(bits, b as int + 16, 5))
    }

    /// Whether decoding from the front of `bits` succeeds: the bits are there.
    pub open spec fn decodable(bits: Seq<bool>) -> bool {
        &&& bits.len() >= 2
        &&& bits.len() >= Self::parse_len(bits)
    }

    /// What decoding the front of `bits` over `prior` gives: every field read
    /// from the bits, the type's data set for its type, the other type data
    /// and the game engine flags as they were.
    pub open spec fn parse(bits: Seq<bool>, prior: Self) -> Self {
        let b = s_multiplayer_object_boundary::parse_len(bits) as int;
        let t = field_at(bits, b + 16, 5);
        let d = b + 44;
        Self {
            boundary: s_multiplayer_object_boundary::parse(bits),
            game_engine_flags: prior.game_engine_flags,
            user_data: field_at(bits, b, 8) as u8,
            spawn_time: field_at(bits, b + 8, 8) as u8,
            cached_type: t as u8,
            label_index: (field_at(bits, b + 21, 8) - 1) as i8,
            placement_flags: field_at(bits, b + 29, 8) as u8,
            team: (field_at(bits, b + 37, 4) - 1) as i8,
            primary_change_color_index: (field_at(bits, b + 41, 3) - 1) as i8,
            weapon_data: if t == 1 {
                Some(s_variant_multiplayer_object_properties_definition_weapon_data { spare_clips: field_at(bits, d, 8) as u8 })
            } else {
                prior.weapon_data
            },
            teleporter_data: if is_teleporter_type(t) {
                Some(s_variant_multiplayer_object_properties_definition_teleporter_data {
                    channel: field_at(bits, d, 5) as u8,
                    passability: field_at(bits, d + 5, 5) as u8,
                })
            } else {
                prior.teleporter_data
            },
            location_data: if t == 19 {
                Some(s_variant_multiplayer_object_properties_definition_location_data {
                    location_name_index: (field_at(bits, d, 8) - 1) as i8,
                })
            } else {
                prior.location_data
            },
        }
    }
}

/// Reads the 44 bits after the boundary: user data, spawn time, cached type,
/// label index, placement flags, team and primary change colour index.
fn read_fixed_fields(bitstream: &mut c_bitstream_reader) -> (r: BLFLibResult<(u8, u8, u8, i8, u8, i8, i8)>)
    ensures
        final(bitstream).data() == old(bitstream).data(),
        r is Ok <==> old(bitstream).remaining().len() >= 44,
        r matches Ok(v) ==> {
            let w = old(bitstream).remaining();
            &&& v.0 == field_at(w, 0, 8)
            &&& v.1 == field_at(w, 8, 8)
            &&& v.2 == field_at(w, 16, 5)
            &&& v.3 == (field_at(w, 21, 8) - 1) as i8
            &&& v.4 == field_at(w, 29, 8)
            &&& v.5 == (field_at(w, 37, 4) - 1) as i8
            &&& v.6 == (field_at(w, 41, 3) - 1) as i8
            &&& final(bitstream).remaining() == w.skip(44)
        },
{
    let ghost w = bitstream.remaining();
    proof {
        lemma2_to64();
        lemma_value_of_bound(w.skip(21).take(8));
        lemma_value_of_bound(w.skip(41).take(3));
    }
    let user_data = bitstream.read_unnamed_integer(8)? as u8;
    let spawn_time = bitstream.read_unnamed_integer(8)? as u8;
    let cached_type = bitstream.read_unnamed_integer(5)? as u8;
    let label = bitstream.read_index::<256>("label-index", 8)?;
    let placement_flags = bitstream.read_unnamed_integer(8)? as u8;
    let team = bitstream.read_unnamed_integer(4)? as i8 - 1;
    let color = bitstream.read_index::<8>("primary-change-color-index", 3)?;
    assert(w.take(8) =~= w.subrange(0, 8));
    Ok((user_data, spawn_time, cached_type, label as i8, placement_flags, team, color as i8))
}

impl s_variant_multiplayer_object_properties_definition {
    /// Reads the properties: the boundary, the fixed fields, then the data
    /// the cached type calls for. The other type data and the game engine
    /// flags keep their values. Fails when the bits run out.
    pub fn decode(&mut self, bitstream: &mut c_bitstream_reader) -> (r: BLFLibResult)
        ensures
            final(bitstream).data() == old(bitstream).data(),
            r is Ok <==> Self::decodable(old(bitstream).remaining()),
            r is Ok ==> *final(self) == Self::parse(old(bitstream).remaining(), *old(self))
                && final(bitstream).remaining() == old(bitstream).remaining().skip(Self::parse_len(old(bitstream).remaining()) as int),
    {
        let ghost w = bitstream.remaining();
        proof { lemma2_to64(); }
        let boundary = s_multiplayer_object_boundary::decode(bitstream)?;
        let ghost b = s_multiplayer_object_boundary::parse_len(w) as int;
        let (user_data, spawn_time, cached_type, label_index, placement_flags, team, color) = read_fixed_fields(bitstream)?;
        proof {
            assert(w.skip(b).skip(44) =~= w.skip(b + 44));
            assert forall|o: int, n: int| 0 <= o && 0 <= n && o + n <= 44 implies
                #[trigger] field_at(w.skip(b), o, n) == field_at(w, b + o, n) by {
                assert(w.skip(b).subrange(o, o + n) =~= w.subrange(b + o, b + o + n));
            }
        }
        let ghost d = b + 44;
        if cached_type == 1 {
            let spare_clips = bitstream.read_unnamed_integer(8)? as u8;
            assert(w.skip(d).take(8) =~= w.subrange(d, d + 8));
            self.weapon_data = Some(s_variant_multiplayer_object_properties_definition_weapon_data { spare_clips });
        } else if 12 <= cached_type && cached_type <= 14 {
            let channel = bitstream.read_unnamed_integer(5)? as u8;
            let passability = bitstream.read_unnamed_integer(5)? as u8;
            assert(w.skip(d).take(5) =~= w.subrange(d, d + 5));
            assert(w.skip(d).skip(5).take(5) =~= w.subrange(d + 5, d + 10));
            self.teleporter_data = Some(s_variant_multiplayer_object_properties_definition_teleporter_data { channel, passability });
        } else if cached_type == 19 {
            proof { lemma_value_of_bound(w.skip(d).take(8)); }
            let location = bitstream.read_index::<255>("location-name-index", 8)?;
            assert(w.skip(d).take(8) =~= w.subrange(d, d + 8));
            self.location_data = Some(s_variant_multiplayer_object_properties_definition_location_data {
                location_name_index: location as i8,
            });
        }
        self.boundary = boundary;
        self.user_data = user_data;
        self.spawn_time = spawn_time;
        self.cached_type = cached_type;
        self.label_index = label_index;
        self.placement_flags = placement_flags;
        self.team = team;
        self.primary_change_color_index = color;
        Ok(())
    }
}

fn missing(message: &str) -> (e: BLFLibError)
    ensures
        e matches BLFLibError::Message(s) && s@ == message@,
{
    BLFLibError::Message(String::from_str(message))
}

impl s_variant_multiplayer_object_properties_definition {
    fn encode_fixed(&self, bitstream: &mut c_bitstream_writer) -> (r: BLFLibResult)
        ensures
            r is Ok <==> self.cached_type < 32 && -1 <= self.label_index && -1 <= self.team < 15
                && -1 <= self.primary_change_color_index < 7,
            r is Ok ==> final(bitstream)@ == old(bitstream)@ + self.fixed_bits(),
    {
        proof { lemma2_to64(); }
        bitstream.write_integer(self.user_data as u64, 8)?;
        bitstream.write_integer(self.spawn_time as u64, 8)?;
        bitstream.write_integer(self.cached_type as u64, 5)?;
        bitstream.write_index::<256>(self.label_index as i64, 8)?;
        bitstream.write_integer(self.placement_flags as u64, 8)?;
        let team: i16 = self.team as i16 + 1;
        if team < 0 {
            return Err(BLFLibError::ValueOutOfRange);
        }
        bitstream.write_integer(team as u64, 4)?;
        bitstream.write_index::<8>(self.primary_change_color_index as i64, 3)?;
        assert(bitstream@ =~= old(bitstream)@ + self.fixed_bits());
        Ok(())
    }

    fn encode_type_data(&self, bitstream: &mut c_bitstream_writer) -> (r: BLFLibResult)
        ensures
            r is Ok <==> {
                let t = self.cached_type as nat;
                &&& t == 1 ==> self.weapon_data is Some
                &&& is_teleporter_type(t) ==> (self.teleporter_data matches Some(d) && d.channel < 32 && d.passability < 32)
                &&& t == 19 ==> (self.location_data matches Some(d) && -1 <= d.location_name_index)
            },
            r is Ok ==> final(bitstream)@ == old(bitstream)@ + self.type_data_bits(),
    {
        proof { lemma2_to64(); }
        let t = self.cached_type;
        if t == 1 {
            match self.weapon_data {
                None => {
                    return Err(missing("Tried to encode a weapon with no weapon data provided."));
                },
                Some(data) => {
                    bitstream.write_integer(data.spare_clips as u64, 8)?;
                },
            }
        } else if 12 <= t && t <= 14 {
            match self.teleporter_data {
                None => {
                    return Err(missing("Tried to encode a teleporter with no teleporter data provided."));
                },
                Some(data) => {
                    bitstream.write_integer(data.channel as u64, 5)?;
                    bitstream.write_integer(data.passability as u64, 5)?;
                },
            }
        } else if t == 19 {
            match self.location_data {
                None => {
                    return Err(missing("Tried to encode a location name with no name provided."));
                },
                Some(data) => {
                    bitstream.write_index::<255>(data.location_name_index as i64, 8)?;
                },
            }
        } else {
            assert(bitstream@ =~= old(bitstream)@ + self.type_data_bits());
        }
        Ok(())
    }

    /// Writes the properties: the boundary (the unused shape for none), the
    /// fixed fields, then the data the cached type calls for. Fails when a
    /// field does not fit its width or that data is missing.
    pub fn encode(&self, bitstream: &mut c_bitstream_writer) -> (r: BLFLibResult)
        ensures
            r is Ok <==> self.wire_ok(),
            r is Ok ==> final(bitstream)@ == old(bitstream)@ + self.wire_bits(),
    {
        proof { lemma2_to64(); }
        match self.boundary {
            Some(b) => {
                b.encode(bitstream)?;
            },
            None => {
                let unused = s_multiplayer_object_boundary {
                    shape: e_boundary_shape::unused, size: 0, box_length: 0, positive_height: 0, negative_height: 0,
                };
                let r = unused.encode(bitstream);
                assert(r is Ok);
                assert(unused.wire_bits() =~= bits_of(0, 2));
            },
        }
        self.encode_fixed(bitstream)?;
        self.encode_type_data(bitstream)?;
        assert(bitstream@ =~= old(bitstream)@ + self.wire_bits());
        Ok(())
    }
}

/// What decoding the encoding of `p` over `prior` gives: `p`, with the game
/// engine flags, which are not written, and the data of the cached types
/// other than `p`'s, which are not read, taken from `prior`.
pub open spec fn props_carried(
    p: s_variant_multiplayer_object_properties_definition,
    prior: s_variant_multiplayer_object_properties_definition,
) -> s_variant_multiplayer_object_properties_definition {
    let t = p.cached_type as nat;
    s_variant_multiplayer_object_properties_definition {
        game_engine_flags: prior.game_engine_flags,
        weapon_data: if t == 1 { p.weapon_data } else { prior.weapon_data },
        teleporter_data: if is_teleporter_type(t) { p.teleporter_data } else { prior.teleporter_data },
        location_data: if t == 19 { p.location_data } else { prior.location_data },
        ..p
    }
}

proof fn lemma_fixed_roundtrip(p: s_variant_multiplayer_object_properties_definition, rest: Seq<bool>)
    requires
        p.cached_type < 32,
        -1 <= p.label_index,
        -1 <= p.team < 15,
        -1 <= p.primary_change_color_index < 7,
    ensures ({
        let w = p.fixed_bits() + rest;
        &&& p.fixed_bits().len() == 44
        &&& field_at(w, 0, 8) == p.user_data
        &&& field_at(w, 8, 8) == p.spawn_time
        &&& field_at(w, 16, 5) == p.cached_type
        &&& (field_at(w, 21, 8) - 1) as i8 == p.label_index
        &&& field_at(w, 29, 8) == p.placement_flags
        &&& (field_at(w, 37, 4) - 1) as i8 == p.team
        &&& (field_at(w, 41, 3) - 1) as i8 == p.primary_change_color_index
        &&& w.skip(44) == rest
    }),
{
    lemma2_to64();
    lemma_unsigned_roundtrip(p.user_data as nat, 8);
    lemma_unsigned_roundtrip(p.spawn_time as nat, 8);
    lemma_unsigned_roundtrip(p.cached_type as nat, 5);
    lemma_unsigned_roundtrip((p.label_index + 1) as nat, 8);
    lemma_unsigned_roundtrip(p.placement_flags as nat, 8);
    lemma_unsigned_roundtrip((p.team + 1) as nat, 4);
    lemma_unsigned_roundtrip((p.primary_change_color_index + 1) as nat, 3);
    let w = p.fixed_bits() + rest;
    assert(w.subrange(0, 8) =~= bits_of(p.user_data as nat, 8));
    assert(w.subrange(8, 16) =~= bits_of(p.spawn_time as nat, 8));
    assert(w.subrange(16, 21) =~= bits_of(p.cached_type as nat, 5));
    assert(w.subrange(21, 29) =~= bits_of((p.label_index + 1) as nat, 8));
    assert(w.subrange(29, 37) =~= bits_of(p.placement_flags as nat, 8));
    assert(w.subrange(37, 41) =~= bits_of((p.team + 1) as nat, 4));
    assert(w.subrange(41, 44) =~= bits_of((p.primary_change_color_index + 1) as nat, 3));
    assert(w.skip(44) =~= rest);
}

proof fn lemma_type_data_roundtrip(p: s_variant_multiplayer_object_properties_definition, rest: Seq<bool>)
    requires
        p.wire_ok(),
    ensures ({
        let w = p.type_data_bits() + rest;
        let t = p.cached_type as nat;
        &&& p.type_data_bits().len() == type_data_len(t)
        &&& t == 1 ==> field_at(w, 0, 8) == p.weapon_data->0.spare_clips
        &&& is_teleporter_type(t) ==> field_at(w, 0, 5) == p.teleporter_data->0.channel
            && field_at(w, 5, 5) == p.teleporter_data->0.passability
        &&& t == 19 ==> (field_at(w, 0, 8) - 1) as i8 == p.location_data->0.location_name_index
    }),
{
    lemma2_to64();
    let t = p.cached_type as nat;
    let w = p.type_data_bits() + rest;
    if t == 1 {
        lemma_unsigned_roundtrip(p.weapon_data->0.spare_clips as nat, 8);
        assert(w.subrange(0, 8) =~= bits_of(p.weapon_data->0.spare_clips as nat, 8));
    } else if is_teleporter_type(t) {
        lemma_unsigned_roundtrip(p.teleporter_data->0.channel as nat, 5);
        lemma_unsigned_roundtrip(p.teleporter_data->0.passability as nat, 5);
        assert(w.subrange(0, 5) =~= bits_of(p.teleporter_data->0.channel as nat, 5));
        assert(w.subrange(5, 10) =~= bits_of(p.teleporter_data->0.passability as nat, 5));
    } else if t == 19 {
        lemma_unsigned_roundtrip((p.location_data->0.location_name_index + 1) as nat, 8);
        assert(w.subrange(0, 8) =~= bits_of((p.location_data->0.location_name_index + 1) as nat, 8));
    }
}

impl s_variant_multiplayer_object_properties_definition {
    /// Reading back what `encode` wrote gives the properties back, whatever
    /// follows them and over whatever prior value, as long as the boundary is
    /// one that decoding gives back; the game engine flags and the data of
    /// other cached types keep their prior values.
    #[verifier::spinoff_prover]
    #[verifier::rlimit(50)]
    pub proof fn lemma_roundtrip(&self, prior: Self, rest: Seq<bool>)
        requires
            self.wire_ok(),
            self.boundary matches Some(b) ==> boundary_canonical(b),
        ensures
            Self::decodable(self.wire_bits() + rest),
            Self::parse_len(self.wire_bits() + rest) == self.wire_bits().len(),
            Self::parse(self.wire_bits() + rest, prior) == props_carried(*self, prior),
            props_carried(*self, *self) == *self,
    {
        lemma2_to64();
        let bb = boundary_bits(self.boundary);
        let fb = self.fixed_bits();
        let tb = self.type_data_bits();
        let w = self.wire_bits() + rest;
        assert(w =~= bb + (fb + (tb + rest)));
        match self.boundary {
            Some(b) => {
                b.lemma_roundtrip(fb + (tb + rest));
            },
            None => {
                lemma_unsigned_roundtrip(0, 2);
                assert(w.subrange(0, 2) =~= bits_of(0, 2));
            },
        }
        let bl = bb.len() as int;
        assert(s_multiplayer_object_boundary::parse_len(w) == bl);
        lemma_fixed_roundtrip(*self, tb + rest);
        assert(w.skip(bl) =~= fb + (tb + rest));
        let x = fb + (tb + rest);
        assert(w.subrange(bl, bl + 8) =~= x.subrange(0, 8));
        assert(w.subrange(bl + 8, bl + 16) =~= x.subrange(8, 16));
        assert(w.subrange(bl + 16, bl + 21) =~= x.subrange(16, 21));
        assert(w.subrange(bl + 21, bl + 29) =~= x.subrange(21, 29));
        assert(w.subrange(bl + 29, bl + 37) =~= x.subrange(29, 37));
        assert(w.subrange(bl + 37, bl + 41) =~= x.subrange(37, 41));
        assert(w.subrange(bl + 41, bl + 44) =~= x.subrange(41, 44));
        lemma_type_data_roundtrip(*self, rest);
        assert(w.skip(bl + 44) =~= tb + rest);
        let y = tb + rest;
        let t = self.cached_type as nat;
        if t == 1 || t == 19 {
            assert(w.subrange(bl + 44, bl + 52) =~= y.subrange(0, 8));
        } else if is_teleporter_type(t) {
            assert(w.subrange(bl + 44, bl + 49) =~= y.subrange(0, 5));
            assert(w.subrange(bl + 49, bl + 54) =~= y.subrange(5, 10));
        }
        match self.boundary {
            Some(b) => {
                assert(s_multiplayer_object_boundary::parse(w) == self.boundary);
            },
            None => {
                assert(s_multiplayer_object_boundary::parse(w) == self.boundary);
            },
        }
        assert(field_at(w, bl + 16, 5) == self.cached_type);
        assert(Self::parse(w, prior) == props_carried(*self, prior));
    }
}

/// The properties' wire layout, as the format fixes it. After the boundary
/// (of `b` bits): the user data in 8 bits at `b`, the spawn time in 8 at
/// `b + 8`, the cached type in 5 at `b + 16`, the label index plus one in 8
/// at `b + 21`, the placement flags in 8 at `b + 29`, the team plus one in 4
/// at `b + 37` and the primary change colour plus one in 3 at `b + 41`; then,
/// at `b + 44`, the weapon's spare clips in 8 bits (type 1), the teleporter's
/// channel and passability in 5 bits each (types 12 to 14), or the location
/// name index plus one in 8 bits (type 19). Writing puts each field there and
/// reading takes each field from there.
pub proof fn lemma_props_layout(
    p: s_variant_multiplayer_object_properties_definition,
    bits: Seq<bool>,
    prior: s_variant_multiplayer_object_properties_definition,
)
    requires
        p.wire_ok(),
    ensures ({
        let f = p.fixed_bits();
        &&& f.len() == 44
        &&& f.subrange(0, 8) == bits_of(p.user_data as nat, 8)
        &&& f.subrange(8, 16) == bits_of(p.spawn_time as nat, 8)
        &&& f.subrange(16, 21) == bits_of(p.cached_type as nat, 5)
        &&& f.subrange(21, 29) == bits_of((p.label_index + 1) as nat, 8)
        &&& f.subrange(29, 37) == bits_of(p.placement_flags as nat, 8)
        &&& f.subrange(37, 41) == bits_of((p.team + 1) as nat, 4)
        &&& f.subrange(41, 44) == bits_of((p.primary_change_color_index + 1) as nat, 3)
    }),
    ({
        let d = p.type_data_bits();
        let t = p.cached_type as nat;
        &&& t == 1 ==> d == bits_of(p.weapon_data->0.spare_clips as nat, 8)
        &&& is_teleporter_type(t) ==> d.len() == 10
            && d.subrange(0, 5) == bits_of(p.teleporter_data->0.channel as nat, 5)
            && d.subrange(5, 10) == bits_of(p.teleporter_data->0.passability as nat, 5)
        &&& t == 19 ==> d == bits_of((p.location_data->0.location_name_index + 1) as nat, 8)
        &&& t != 1 && !is_teleporter_type(t) && t != 19 ==> d.len() == 0
    }),
    ({
        let q = s_variant_multiplayer_object_properties_definition::parse(bits, prior);
        let b = s_multiplayer_object_boundary::parse_len(bits) as int;
        let t = field_at(bits, b + 16, 5);
        &&& q.boundary == s_multiplayer_object_boundary::parse(bits)
        &&& q.game_engine_flags == prior.game_engine_flags
        &&& q.user_data == field_at(bits, b, 8) as u8
        &&& q.spawn_time == field_at(bits, b + 8, 8) as u8
        &&& q.cached_type == t as u8
        &&& q.label_index == (field_at(bits, b + 21, 8) - 1) as i8
        &&& q.placement_flags == field_at(bits, b + 29, 8) as u8
        &&& q.team == (field_at(bits, b + 37, 4) - 1) as i8
        &&& q.primary_change_color_index == (field_at(bits, b + 41, 3) - 1) as i8
        &&& t == 1 ==> q.weapon_data == Some(s_variant_multiplayer_object_properties_definition_weapon_data {
            spare_clips: field_at(bits, b + 44, 8) as u8,
        })
        &&& is_teleporter_type(t) ==> q.teleporter_data == Some(s_variant_multiplayer_object_properties_definition_teleporter_data {
            channel: field_at(bits, b + 44, 5) as u8,
            passability: field_at(bits, b + 49, 5) as u8,
        })
        &&& t == 19 ==> q.location_data == Some(s_variant_multiplayer_object_properties_definition_location_data {
            location_name_index: (field_at(bits, b + 44, 8) - 1) as i8,
        })
    }),
{
    lemma2_to64();
    lemma_unsigned_roundtrip(p.user_data as nat, 8);
    lemma_unsigned_roundtrip(p.spawn_time as nat, 8);
    lemma_unsigned_roundtrip(p.cached_type as nat, 5);
    lemma_unsigned_roundtrip((p.label_index + 1) as nat, 8);
    lemma_unsigned_roundtrip(p.placement_flags as nat, 8);
    lemma_unsigned_roundtrip((p.team + 1) as nat, 4);
    lemma_unsigned_roundtrip((p.primary_change_color_index + 1) as nat, 3);
    let f = p.fixed_bits();
    assert(f.subrange(0, 8) =~= bits_of(p.user_data as nat, 8));
    assert(f.subrange(8, 16) =~= bits_of(p.spawn_time as nat, 8));
    assert(f.subrange(16, 21) =~= bits_of(p.cached_type as nat, 5));
    assert(f.subrange(21, 29) =~= bits_of((p.label_index + 1) as nat, 8));
    assert(f.subrange(29, 37) =~= bits_of(p.placement_flags as nat, 8));
    assert(f.subrange(37, 41) =~= bits_of((p.team + 1) as nat, 4));
    assert(f.subrange(41, 44) =~= bits_of((p.primary_change_color_index + 1) as nat, 3));
    let t = p.cached_type as nat;
    let d = p.type_data_bits();
    if is_teleporter_type(t) {
        lemma_unsigned_roundtrip(p.teleporter_data->0.channel as nat, 5);
        lemma_unsigned_roundtrip(p.teleporter_data->0.passability as nat, 5);
        assert(d.subrange(0, 5) =~= bits_of(p.teleporter_data->0.channel as nat, 5));
        assert(d.subrange(5, 10) =~= bits_of(p.teleporter_data->0.passability as nat, 5));
    }
}

} // verus!
