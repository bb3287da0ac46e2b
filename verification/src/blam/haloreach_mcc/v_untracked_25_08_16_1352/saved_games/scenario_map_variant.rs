use vstd::prelude::*;
use vstd::arithmetic::power2::*;
use crate::io::bitstream::{
    c_bitstream_writer, c_bitstream_reader, bits_of, fits_unsigned, field_at, lemma_unsigned_roundtrip, group_bitstream_seq,
    signed_bits_of, sign_extend, lemma_signed_roundtrip, unpack, lemma_unpack_push, lemma_bytes_roundtrip, valid_width,
    lemma_value_of_bound, value_of, lemma_bits_of_len,
};
use crate::result::{BLFLibError, BLFLibResult};

verus! {

broadcast use group_bitstream_seq;

/// The number of variant object slots a map variant holds.
pub const k_maximum_variant_objects: usize = 651;

/// The number of placeable object quotas a map variant holds.
pub const k_maximum_variant_quotas: usize = 256;

proof fn lemma_low_byte(x: u16)
    ensures
        x & 0xFF == x % 256,
{
    assert(x & 0xFF == x % 256) by (bit_vector);
}

/// How many of one palette entry a map variant allows and places.
#[derive(Default, PartialEq, Eq, Debug, Clone, Copy)]
pub struct s_variant_quota {
    pub minimum_count: u16,
    pub maximum_count: u16,
    pub placed_on_map: u16,
}

impl s_variant_quota {
    /// The Reach and Halo 4 encoding: the low byte of each count.
    pub open spec fn wire_bits(&self) -> Seq<bool> {
        bits_of(self.minimum_count as nat % 256, 8)
            + bits_of(self.maximum_count as nat % 256, 8)
            + bits_of(self.placed_on_map as nat % 256, 8)
    }

    /// The Halo 2 Anniversary encoding: each count in 10 bits.
    pub open spec fn wire_bits_h2a(&self) -> Seq<bool> {
        bits_of(self.minimum_count as nat, 10)
            + bits_of(self.maximum_count as nat, 10)
            + bits_of(self.placed_on_map as nat, 10)
    }

    /// Whether every count fits the Halo 2 Anniversary width.
    pub open spec fn wire_ok_h2a(&self) -> bool {
        &&& fits_unsigned(self.minimum_count as int, 10)
        &&& fits_unsigned(self.maximum_count as int, 10)
        &&& fits_unsigned(self.placed_on_map as int, 10)
    }

    /// The quota that `3 * width` bits encode, `width` bits per count.
    pub open spec fn parse(bits: Seq<bool>, width: int) -> Self {
        s_variant_quota {
            minimum_count: field_at(bits, 0, width) as u16,
            maximum_count: field_at(bits, width, width) as u16,
            placed_on_map: field_at(bits, 2 * width, width) as u16,
        }
    }

    /// Reads a quota in the Reach and Halo 4 encoding: 8 bits per count.
    pub fn decode(&mut self, bitstream: &mut c_bitstream_reader) -> (r: BLFLibResult)
        ensures
            r is Ok <==> old(bitstream).remaining().len() >= 24,
            r is Ok ==> *final(self) == Self::parse(old(bitstream).remaining(), 8)
                && final(bitstream).remaining() == old(bitstream).remaining().skip(24),
    {
        proof { lemma2_to64(); }
        self.minimum_count = bitstream.read_unnamed_integer(8)? as u16;
        self.maximum_count = bitstream.read_unnamed_integer(8)? as u16;
        self.placed_on_map = bitstream.read_unnamed_integer(8)? as u16;
        Ok(())
    }

    /// Writes a quota in the Reach and Halo 4 encoding: the low byte of each count.
    pub fn encode(&self, bitstream: &mut c_bitstream_writer) -> (r: BLFLibResult)
        ensures
            r is Ok,
            final(bitstream)@ == old(bitstream)@ + self.wire_bits(),
    {
        proof {
            lemma2_to64();
            lemma_low_byte(self.minimum_count);
            lemma_low_byte(self.maximum_count);
            lemma_low_byte(self.placed_on_map);
        }
        bitstream.write_integer((self.minimum_count & 0xFF) as u64, 8)?;
        bitstream.write_integer((self.maximum_count & 0xFF) as u64, 8)?;
        bitstream.write_integer((self.placed_on_map & 0xFF) as u64, 8)?;
        Ok(())
    }

    /// Reads a quota in the Halo 2 Anniversary encoding: 10 bits per count.
    pub fn decode_h2a(&mut self, bitstream: &mut c_bitstream_reader) -> (r: BLFLibResult)
        ensures
            r is Ok <==> old(bitstream).remaining().len() >= 30,
            r is Ok ==> *final(self) == Self::parse(old(bitstream).remaining(), 10)
                && final(bitstream).remaining() == old(bitstream).remaining().skip(30),
    {
        proof { lemma2_to64(); }
        self.minimum_count = bitstream.read_unnamed_integer(10)? as u16;
        self.maximum_count = bitstream.read_unnamed_integer(10)? as u16;
        self.placed_on_map = bitstream.read_unnamed_integer(10)? as u16;
        Ok(())
    }

    /// Writes a quota in the Halo 2 Anniversary encoding: 10 bits per count.
    pub fn encode_h2a(&self, bitstream: &mut c_bitstream_writer) -> (r: BLFLibResult)
        ensures
            r is Ok <==> self.wire_ok_h2a(),
            r is Ok ==> final(bitstream)@ == old(bitstream)@ + self.wire_bits_h2a(),
    {
        proof { lemma2_to64(); }
        bitstream.write_integer(self.minimum_count as u64, 10)?;
        bitstream.write_integer(self.maximum_count as u64, 10)?;
        bitstream.write_integer(self.placed_on_map as u64, 10)?;
        Ok(())
    }

    /// Reading back the Reach encoding gives each count's low byte; counts
    /// below 256 come back unchanged.
    pub proof fn lemma_roundtrip(&self, rest: Seq<bool>)
        ensures
            self.wire_bits().len() == 24,
            Self::parse(self.wire_bits() + rest, 8) == (s_variant_quota {
                minimum_count: self.minimum_count % 256,
                maximum_count: self.maximum_count % 256,
                placed_on_map: self.placed_on_map % 256,
            }),
    {
        lemma2_to64();
        lemma_unsigned_roundtrip(self.minimum_count as nat % 256, 8);
        lemma_unsigned_roundtrip(self.maximum_count as nat % 256, 8);
        lemma_unsigned_roundtrip(self.placed_on_map as nat % 256, 8);
        let w = self.wire_bits() + rest;
        assert(w.subrange(0, 8) =~= bits_of(self.minimum_count as nat % 256, 8));
        assert(w.subrange(8, 16) =~= bits_of(self.maximum_count as nat % 256, 8));
        assert(w.subrange(16, 24) =~= bits_of(self.placed_on_map as nat % 256, 8));
    }

    /// Reading back the Halo 2 Anniversary encoding gives the same quota.
    pub proof fn lemma_roundtrip_h2a(&self, rest: Seq<bool>)
        requires
            self.wire_ok_h2a(),
        ensures
            self.wire_bits_h2a().len() == 30,
            Self::parse(self.wire_bits_h2a() + rest, 10) == *self,
    {
        lemma_unsigned_roundtrip(self.minimum_count as nat, 10);
        lemma_unsigned_roundtrip(self.maximum_count as nat, 10);
        lemma_unsigned_roundtrip(self.placed_on_map as nat, 10);
        let w = self.wire_bits_h2a() + rest;
        assert(w.subrange(0, 10) =~= bits_of(self.minimum_count as nat, 10));
        assert(w.subrange(10, 20) =~= bits_of(self.maximum_count as nat, 10));
        assert(w.subrange(20, 30) =~= bits_of(self.placed_on_map as nat, 10));
    }
}


/// Which Halo 4 metadata wire schema a map variant was decoded with.
#[derive(Default, PartialEq, Eq, Debug, Clone, Copy)]
pub enum H4MetaSchemaTag {
    #[default]
    FixedFifteen,
    NulBoundedSixteen,
    EngineActivity2Bit,
}

/// Which Halo 2 Anniversary metadata wire schema a map variant was decoded with.
#[derive(Default, PartialEq, Eq, Debug, Clone, Copy)]
pub enum H2AMetaSchemaTag {
    #[default]
    LegacyActivity3Bit,
    EngineActivity2Bit,
}

/// The raw bits left over when a Halo 4 or Halo 2 Anniversary decode ran out
/// of data inside a loop, kept so that the variant can be written back as read.
#[derive(Default, PartialEq, Eq, Debug, Clone)]
pub struct H4H2ASoftStopTail {
    pub stopped_in: String,
    pub stopped_at_index: usize,
    pub bit_count: usize,
    pub bytes: Vec<u8>,
}

/// The raw bits left over when a Reach decode stopped at a position outside
/// the world bounds.
#[derive(Default, PartialEq, Eq, Debug, Clone)]
pub struct ReachSoftStopTail {
    pub soft_stop_object_index: usize,
    pub bit_count: usize,
    pub bytes: Vec<u8>,
}

/// The raw bits that follow the quotas of a Halo 4 or Halo 2 Anniversary map variant.
#[derive(Default, PartialEq, Eq, Debug, Clone)]
pub struct H4H2ATrailingBits {
    pub bit_count: usize,
    pub bytes: Vec<u8>,
}

/// The shape of a multiplayer object's boundary.
#[derive(Default, PartialEq, Eq, Debug, Clone, Copy)]
pub enum e_boundary_shape {
    #[default]
    unused,
    sphere,
    cylinder,
    box_,
}

#[derive(Default, PartialEq, Eq, Debug, Clone, Copy)]
pub struct s_variant_multiplayer_object_properties_definition_location_data {
    pub location_name_index: i8, // 8
}

#[derive(Default, PartialEq, Eq, Debug, Clone, Copy)]
pub struct s_variant_multiplayer_object_properties_definition_teleporter_data {
    pub channel: u8, // 5
    pub passability: u8, // 5
}

#[derive(Default, PartialEq, Eq, Debug, Clone, Copy)]
pub struct s_variant_multiplayer_object_properties_definition_weapon_data {
    pub spare_clips: u8, // 8
}

/// The raw axes bits of a Reach variant object, kept for an exact write-back.
#[derive(Default, PartialEq, Eq, Debug, Clone, Copy)]
pub struct ReachAxesRaw {
    pub up_is_global: bool,
    pub raw_up_quantization: u32,
    pub raw_forward_angle: u32,
}

/// The raw axes bits of a Halo 4 or Halo 2 Anniversary variant object.
#[derive(Default, PartialEq, Eq, Debug, Clone, Copy)]
pub struct H4H2AAxes {
    pub is_default: bool,
    pub forward_angle_raw: u32,
    pub up_rotation_raw: u32,
}

/// The cached-type-dependent tail of Halo 4 and Halo 2 Anniversary object properties.
#[derive(PartialEq, Eq, Debug, Clone, Copy)]
pub enum s_h4_h2a_mp_props_tail {
    Empty,
    Type20Advanced { field_4bit_signed: i8, field_8bit: u8, field_16bit: u16 },
    Type21Teleporter1 { teleporter_field_bytes: [u8; 8] },
    Type22Teleporter2 { teleporter_field_bytes: [u8; 9] },
    Default {
        primary_change_color: i8,
        spawn_time: u8,
        team: i8,
        flags_lo: u8,
        flags_hi_signed: i8,
        user_data_block: [i32; 4],
        sub: DefaultSubcase,
    },
}

/// The sub-case of the default object-properties tail.
#[derive(PartialEq, Eq, Debug, Clone, Copy)]
pub enum DefaultSubcase {
    Weapon { spare_clips: u8 },
    Teleporter12 { channel_or_mask: u8 },
    LocationName { location_name_index: i32 },
    TraitZone { trait_zone_channel: u8 },
    QuotaOther { min_count: u8, max_count: u8 },
}

impl Default for s_h4_h2a_mp_props_tail {
    fn default() -> (r: Self)
        ensures
            r == s_h4_h2a_mp_props_tail::Empty,
    {
        s_h4_h2a_mp_props_tail::Empty
    }
}

impl Default for DefaultSubcase {
    fn default() -> (r: Self)
        ensures
            r == (DefaultSubcase::QuotaOther { min_count: 0, max_count: 0 }),
    {
        DefaultSubcase::QuotaOther { min_count: 0, max_count: 0 }
    }
}

/// Identifies an object placed in a scenario.
#[derive(Default, PartialEq, Eq, Debug, Clone, Copy)]
pub struct c_object_identifier {
    m_unique_id: i32,
    m_origin_bsp_index: i16,
    m_type: i8,
    m_source: i8,
}

/// The 2-bit code of a boundary shape.
pub open spec fn shape_code(shape: e_boundary_shape) -> nat {
    match shape {
        e_boundary_shape::unused => 0,
        e_boundary_shape::sphere => 1,
        e_boundary_shape::cylinder => 2,
        e_boundary_shape::box_ => 3,
    }
}

/// The shape of a 2-bit code.
pub open spec fn shape_of_code(code: nat) -> e_boundary_shape {
    if code == 0 {
        e_boundary_shape::unused
    } else if code == 1 {
        e_boundary_shape::sphere
    } else if code == 2 {
        e_boundary_shape::cylinder
    } else {
        e_boundary_shape::box_
    }
}

/// The boundary of a multiplayer object: its shape and its dimensions, each
/// held as the 16-bit quantized value written for it (0 to 200 world units).
#[derive(Default, PartialEq, Eq, Debug, Clone, Copy)]
pub struct s_multiplayer_object_boundary {
    pub shape: e_boundary_shape,
    pub size: u32,
    pub box_length: u32,
    pub positive_height: u32,
    pub negative_height: u32,
}

/// The number of bits a boundary with the given shape code takes.
pub open spec fn boundary_len(code: nat) -> nat {
    if code == 0 { 2 } else if code == 1 { 18 } else if code == 2 { 50 } else { 66 }
}

impl s_multiplayer_object_boundary {
    /// The encoding: the shape code, then the dimensions the shape has, 16 bits each.
    pub open spec fn wire_bits(&self) -> Seq<bool> {
        bits_of(shape_code(self.shape), 2) + match self.shape {
            e_boundary_shape::unused => Seq::empty(),
            e_boundary_shape::sphere => bits_of(self.size as nat, 16),
            e_boundary_shape::cylinder => bits_of(self.size as nat, 16) + bits_of(self.positive_height as nat, 16)
                + bits_of(self.negative_height as nat, 16),
            e_boundary_shape::box_ => bits_of(self.size as nat, 16) + bits_of(self.box_length as nat, 16)
                + bits_of(self.positive_height as nat, 16) + bits_of(self.negative_height as nat, 16),
        }
    }

    /// Whether the dimensions the shape has fit in 16 bits.
    pub open spec fn wire_ok(&self) -> bool {
        match self.shape {
            e_boundary_shape::unused => true,
            e_boundary_shape::sphere => self.size < 65536,
            e_boundary_shape::cylinder => self.size < 65536 && self.positive_height < 65536 && self.negative_height < 65536,
            e_boundary_shape::box_ => self.size < 65536 && self.box_length < 65536
                && self.positive_height < 65536 && self.negative_height < 65536,
        }
    }

    /// What decoding gives from the front of `bits`: no boundary for the
    /// unused shape, else the shape's dimensions and zero for the others.
    pub open spec fn parse(bits: Seq<bool>) -> Option<s_multiplayer_object_boundary> {
        let code = field_at(bits, 0, 2);
        if code == 0 {
            None
        } else if code == 1 {
            Some(s_multiplayer_object_boundary {
                shape: e_boundary_shape::sphere, size: field_at(bits, 2, 16) as u32,
                box_length: 0, positive_height: 0, negative_height: 0,
            })
        } else if code == 2 {
            Some(s_multiplayer_object_boundary {
                shape: e_boundary_shape::cylinder, size: field_at(bits, 2, 16) as u32, box_length: 0,
                positive_height: field_at(bits, 18, 16) as u32, negative_height: field_at(bits, 34, 16) as u32,
            })
        } else {
            Some(s_multiplayer_object_boundary {
                shape: e_boundary_shape::box_, size: field_at(bits, 2, 16) as u32, box_length: field_at(bits, 18, 16) as u32,
                positive_height: field_at(bits, 34, 16) as u32, negative_height: field_at(bits, 50, 16) as u32,
            })
        }
    }

    /// The number of bits decoding takes from the front of `bits`.
    pub open spec fn parse_len(bits: Seq<bool>) -> nat {
        boundary_len(field_at(bits, 0, 2))
    }

    /// Reads a boundary: `None` for the unused shape.
    pub fn decode(bitstream: &mut c_bitstream_reader) -> (r: BLFLibResult<Option<s_multiplayer_object_boundary>>)
        ensures
            final(bitstream).data() == old(bitstream).data(),
            r is Ok <==> old(bitstream).remaining().len() >= 2
                && old(bitstream).remaining().len() >= Self::parse_len(old(bitstream).remaining()),
            r matches Ok(b) ==> b == Self::parse(old(bitstream).remaining())
                && final(bitstream).remaining() == old(bitstream).remaining().skip(Self::parse_len(old(bitstream).remaining()) as int),
    {
        let ghost rem = bitstream.remaining();
        proof { lemma2_to64(); }
        let code = bitstream.read_unnamed_integer(2)?;
        assert(rem.take(2) =~= rem.subrange(0, 2));
        if code == 0 {
            return Ok(None);
        }
        let mut boundary = s_multiplayer_object_boundary {
            shape: e_boundary_shape::sphere, size: 0, box_length: 0, positive_height: 0, negative_height: 0,
        };
        boundary.size = bitstream.read_unnamed_integer(16)? as u32;
        if code == 2 {
            boundary.shape = e_boundary_shape::cylinder;
            boundary.positive_height = bitstream.read_unnamed_integer(16)? as u32;
            boundary.negative_height = bitstream.read_unnamed_integer(16)? as u32;
        } else if code == 3 {
            boundary.shape = e_boundary_shape::box_;
            boundary.box_length = bitstream.read_unnamed_integer(16)? as u32;
            boundary.positive_height = bitstream.read_unnamed_integer(16)? as u32;
            boundary.negative_height = bitstream.read_unnamed_integer(16)? as u32;
        }
        Ok(Some(boundary))
    }

    /// Writes a boundary: the shape code, then the dimensions the shape has.
    pub fn encode(&self, bitstream: &mut c_bitstream_writer) -> (r: BLFLibResult)
        ensures
            r is Ok <==> self.wire_ok(),
            r is Ok ==> final(bitstream)@ == old(bitstream)@ + self.wire_bits(),
    {
        proof { lemma2_to64(); }
        let code: u64 = match self.shape {
            e_boundary_shape::unused => 0,
            e_boundary_shape::sphere => 1,
            e_boundary_shape::cylinder => 2,
            e_boundary_shape::box_ => 3,
        };
        bitstream.write_integer(code, 2)?;
        let ghost head = bitstream@;
        match self.shape {
            e_boundary_shape::unused => {},
            e_boundary_shape::sphere => {
                bitstream.write_integer(self.size as u64, 16)?;
            },
            e_boundary_shape::cylinder => {
                bitstream.write_integer(self.size as u64, 16)?;
                bitstream.write_integer(self.positive_height as u64, 16)?;
                bitstream.write_integer(self.negative_height as u64, 16)?;
            },
            e_boundary_shape::box_ => {
                bitstream.write_integer(self.size as u64, 16)?;
                bitstream.write_integer(self.box_length as u64, 16)?;
                bitstream.write_integer(self.positive_height as u64, 16)?;
                bitstream.write_integer(self.negative_height as u64, 16)?;
            },
        }
        assert(bitstream@ =~= old(bitstream)@ + self.wire_bits());
        Ok(())
    }

    /// Reading back what `encode` wrote gives the same boundary, or none for
    /// the unused shape, whose dimensions are not written. Dimensions the
    /// shape does not have come back as zero.
    pub proof fn lemma_roundtrip(&self, rest: Seq<bool>)
        requires
            self.wire_ok(),
        ensures
            self.wire_bits().len() == boundary_len(shape_code(self.shape)),
            Self::parse_len(self.wire_bits() + rest) == self.wire_bits().len(),
            Self::parse(self.wire_bits() + rest) == (if self.shape == e_boundary_shape::unused {
                None
            } else {
                Some(s_multiplayer_object_boundary {
                    shape: self.shape,
                    size: self.size,
                    box_length: if self.shape == e_boundary_shape::box_ { self.box_length } else { 0 },
                    positive_height: if self.shape == e_boundary_shape::sphere { 0 } else { self.positive_height },
                    negative_height: if self.shape == e_boundary_shape::sphere { 0 } else { self.negative_height },
                })
            }),
    {
        lemma2_to64();
        let w = self.wire_bits() + rest;
        lemma_unsigned_roundtrip(shape_code(self.shape), 2);
        assert(w.subrange(0, 2) =~= bits_of(shape_code(self.shape), 2));
        match self.shape {
            e_boundary_shape::unused => {},
            e_boundary_shape::sphere => {
                lemma_unsigned_roundtrip(self.size as nat, 16);
                assert(w.subrange(2, 18) =~= bits_of(self.size as nat, 16));
            },
            e_boundary_shape::cylinder => {
                lemma_unsigned_roundtrip(self.size as nat, 16);
                lemma_unsigned_roundtrip(self.positive_height as nat, 16);
                lemma_unsigned_roundtrip(self.negative_height as nat, 16);
                assert(w.subrange(2, 18) =~= bits_of(self.size as nat, 16));
                assert(w.subrange(18, 34) =~= bits_of(self.positive_height as nat, 16));
                assert(w.subrange(34, 50) =~= bits_of(self.negative_height as nat, 16));
            },
            e_boundary_shape::box_ => {
                lemma_unsigned_roundtrip(self.size as nat, 16);
                lemma_unsigned_roundtrip(self.box_length as nat, 16);
                lemma_unsigned_roundtrip(self.positive_height as nat, 16);
                lemma_unsigned_roundtrip(self.negative_height as nat, 16);
                assert(w.subrange(2, 18) =~= bits_of(self.size as nat, 16));
                assert(w.subrange(18, 34) =~= bits_of(self.box_length as nat, 16));
                assert(w.subrange(34, 50) =~= bits_of(self.positive_height as nat, 16));
                assert(w.subrange(50, 66) =~= bits_of(self.negative_height as nat, 16));
            },
        }
    }
}


/// The boundary wire layout, as the format fixes it: a 2-bit shape code at
/// bit 0 (0 unused, 1 sphere, 2 cylinder, 3 box), then 16-bit fields from bit
/// 2: a sphere's size; a cylinder's size, positive height (bit 18) and
/// negative height (bit 34); a box's size, length (bit 18), positive height
/// (bit 34) and negative height (bit 50). Reading takes each field from there.
pub proof fn lemma_boundary_read_layout(bits: Seq<bool>)
    ensures
        field_at(bits, 0, 2) == 0 ==> s_multiplayer_object_boundary::parse(bits) is None
            && s_multiplayer_object_boundary::parse_len(bits) == 2,
        field_at(bits, 0, 2) == 1 ==> s_multiplayer_object_boundary::parse(bits) == Some(s_multiplayer_object_boundary {
            shape: e_boundary_shape::sphere, size: field_at(bits, 2, 16) as u32,
            box_length: 0, positive_height: 0, negative_height: 0,
        }) && s_multiplayer_object_boundary::parse_len(bits) == 18,
        field_at(bits, 0, 2) == 2 ==> s_multiplayer_object_boundary::parse(bits) == Some(s_multiplayer_object_boundary {
            shape: e_boundary_shape::cylinder, size: field_at(bits, 2, 16) as u32, box_length: 0,
            positive_height: field_at(bits, 18, 16) as u32, negative_height: field_at(bits, 34, 16) as u32,
        }) && s_multiplayer_object_boundary::parse_len(bits) == 50,
        field_at(bits, 0, 2) == 3 ==> s_multiplayer_object_boundary::parse(bits) == Some(s_multiplayer_object_boundary {
            shape: e_boundary_shape::box_, size: field_at(bits, 2, 16) as u32,
            box_length: field_at(bits, 18, 16) as u32,
            positive_height: field_at(bits, 34, 16) as u32, negative_height: field_at(bits, 50, 16) as u32,
        }) && s_multiplayer_object_boundary::parse_len(bits) == 66,
{
}

/// Writing a boundary puts each field where the format fixes it: the shape
/// code (0 unused, 1 sphere, 2 cylinder, 3 box) in the first 2 bits, the
/// size at bit 2, a cylinder's positive height at bit 18 and negative height
/// at bit 34, a box's length at bit 18, positive height at bit 34 and
/// negative height at bit 50, each in 16 bits.
pub proof fn lemma_boundary_write_layout(b: s_multiplayer_object_boundary, rest: Seq<bool>)
    requires
        b.wire_ok(),
    ensures ({
        let w = b.wire_bits() + rest;
        &&& b.shape == e_boundary_shape::unused ==> field_at(w, 0, 2) == 0 && b.wire_bits().len() == 2
        &&& b.shape == e_boundary_shape::sphere ==> field_at(w, 0, 2) == 1 && b.wire_bits().len() == 18
            && field_at(w, 2, 16) == b.size
        &&& b.shape == e_boundary_shape::cylinder ==> field_at(w, 0, 2) == 2 && b.wire_bits().len() == 50
            && field_at(w, 2, 16) == b.size && field_at(w, 18, 16) == b.positive_height
            && field_at(w, 34, 16) == b.negative_height
        &&& b.shape == e_boundary_shape::box_ ==> field_at(w, 0, 2) == 3 && b.wire_bits().len() == 66
            && field_at(w, 2, 16) == b.size && field_at(w, 18, 16) == b.box_length
            && field_at(w, 34, 16) == b.positive_height && field_at(w, 50, 16) == b.negative_height
    }),
{
    let w = b.wire_bits() + rest;
    b.lemma_roundtrip(rest);
    lemma_boundary_read_layout(w);
    lemma2_to64();
    lemma_value_of_bound(w.subrange(0, 2));
    lemma_value_of_bound(w.subrange(2, 18));
    lemma_value_of_bound(w.subrange(18, 34));
    lemma_value_of_bound(w.subrange(34, 50));
    lemma_value_of_bound(w.subrange(50, 66));
    assert(field_at(w, 0, 2) < 4);
    assert(boundary_len(shape_code(b.shape)) == b.wire_bits().len());
}

/// A quota's wire layout, as the format fixes it: the minimum count, then the
/// maximum count, then the number placed on the map, each in 8 bits (its low
/// byte) in the Reach and Halo 4 encoding, at bits 0, 8 and 16, and each in
/// 10 bits in the Halo 2 Anniversary encoding, at bits 0, 10 and 20. Reading
/// takes the counts from those places, `width` bits each.
pub proof fn lemma_quota_layout(q: s_variant_quota, bits: Seq<bool>, width: int)
    ensures ({
        let w = q.wire_bits();
        &&& w.len() == 24
        &&& w.subrange(0, 8) == bits_of(q.minimum_count as nat % 256, 8)
        &&& w.subrange(8, 16) == bits_of(q.maximum_count as nat % 256, 8)
        &&& w.subrange(16, 24) == bits_of(q.placed_on_map as nat % 256, 8)
    }),
    ({
        let w = q.wire_bits_h2a();
        &&& w.len() == 30
        &&& w.subrange(0, 10) == bits_of(q.minimum_count as nat, 10)
        &&& w.subrange(10, 20) == bits_of(q.maximum_count as nat, 10)
        &&& w.subrange(20, 30) == bits_of(q.placed_on_map as nat, 10)
    }),
    ({
        let p = s_variant_quota::parse(bits, width);
        &&& p.minimum_count == field_at(bits, 0, width) as u16
        &&& p.maximum_count == field_at(bits, width, width) as u16
        &&& p.placed_on_map == field_at(bits, 2 * width, width) as u16
    }),
{
    lemma_bits_of_len(q.minimum_count as nat % 256, 8);
    lemma_bits_of_len(q.maximum_count as nat % 256, 8);
    lemma_bits_of_len(q.placed_on_map as nat % 256, 8);
    lemma_bits_of_len(q.minimum_count as nat, 10);
    lemma_bits_of_len(q.maximum_count as nat, 10);
    lemma_bits_of_len(q.placed_on_map as nat, 10);
    let w = q.wire_bits();
    assert(w.subrange(0, 8) =~= bits_of(q.minimum_count as nat % 256, 8));
    assert(w.subrange(8, 16) =~= bits_of(q.maximum_count as nat % 256, 8));
    assert(w.subrange(16, 24) =~= bits_of(q.placed_on_map as nat % 256, 8));
    let h = q.wire_bits_h2a();
    assert(h.subrange(0, 10) =~= bits_of(q.minimum_count as nat, 10));
    assert(h.subrange(10, 20) =~= bits_of(q.maximum_count as nat, 10));
    assert(h.subrange(20, 30) =~= bits_of(q.placed_on_map as nat, 10));
}

/// The object properties of a Halo 4 or Halo 2 Anniversary variant object:
/// its boundary, its cached type, its label, and the tail its type calls for.
#[derive(Default, PartialEq, Eq, Debug, Clone, Copy)]
pub struct s_h4_h2a_mp_props {
    pub boundary: Option<s_multiplayer_object_boundary>,
    pub cached_type: u8,
    pub label_index: u16,
    pub tail: s_h4_h2a_mp_props_tail,
}

/// The bits of a value written as `(v + 1)` in `n` bits, wrapping.
pub open spec fn wrapped_bits(v: int, n: nat) -> Seq<bool> {
    bits_of(((v + 1) % (pow2(n) as int)) as nat, n)
}

/// The number of bits of the default sub-case for a cached type.
pub open spec fn subcase_len(cached_type: nat) -> nat {
    if cached_type == 1 || cached_type == 12 || cached_type == 20 { 8 } else if cached_type == 31 { 5 } else { 10 }
}

/// The number of bits of the tail for a cached type.
pub open spec fn props_tail_len(cached_type: nat) -> nat {
    if cached_type == 0x20 {
        28
    } else if cached_type == 0x21 {
        64
    } else if cached_type == 0x22 {
        72
    } else if cached_type == 0x23 {
        0
    } else {
        63 + subcase_len(cached_type)
    }
}

/// The bits of a default sub-case.
pub open spec fn subcase_bits(sub: DefaultSubcase) -> Seq<bool> {
    match sub {
        DefaultSubcase::Weapon { spare_clips } => bits_of(spare_clips as nat, 8),
        DefaultSubcase::Teleporter12 { channel_or_mask } => bits_of(channel_or_mask as nat, 8),
        DefaultSubcase::LocationName { location_name_index } => wrapped_bits(location_name_index as int, 8),
        DefaultSubcase::TraitZone { trait_zone_channel } => bits_of(trait_zone_channel as nat, 5),
        DefaultSubcase::QuotaOther { min_count, max_count } => bits_of(min_count as nat, 5) + bits_of(max_count as nat, 5),
    }
}

/// Whether a default sub-case's fields fit their widths.
pub open spec fn subcase_ok(sub: DefaultSubcase) -> bool {
    match sub {
        DefaultSubcase::TraitZone { trait_zone_channel } => trait_zone_channel < 32,
        DefaultSubcase::QuotaOther { min_count, max_count } => min_count < 32 && max_count < 32,
        _ => true,
    }
}

/// The bits of a tail.
pub open spec fn props_tail_bits(t: s_h4_h2a_mp_props_tail) -> Seq<bool> {
    match t {
        s_h4_h2a_mp_props_tail::Empty => Seq::empty(),
        s_h4_h2a_mp_props_tail::Type20Advanced { field_4bit_signed, field_8bit, field_16bit } =>
            wrapped_bits(field_4bit_signed as int, 4) + bits_of(field_8bit as nat, 8) + bits_of(field_16bit as nat, 16),
        s_h4_h2a_mp_props_tail::Type21Teleporter1 { teleporter_field_bytes } => unpack(teleporter_field_bytes@),
        s_h4_h2a_mp_props_tail::Type22Teleporter2 { teleporter_field_bytes } => unpack(teleporter_field_bytes@),
        s_h4_h2a_mp_props_tail::Default { primary_change_color, spawn_time, team, flags_lo, flags_hi_signed, user_data_block, sub } =>
            wrapped_bits(primary_change_color as int, 4) + bits_of(spawn_time as nat, 8)
                + bits_of((team + 1) as nat, 3) + bits_of(flags_lo as nat, 8) + signed_bits_of(flags_hi_signed as int, 8)
                + bits_of((user_data_block@[0] + 1) as nat, 8) + bits_of((user_data_block@[1] + 1) as nat, 8)
                + bits_of((user_data_block@[2] + 1) as nat, 8) + bits_of((user_data_block@[3] + 1) as nat, 8)
                + subcase_bits(sub),
    }
}

/// Whether each user datum is an index below 256 or -1, to be written in 8 bits.
pub open spec fn user_data_ok(user_data_block: [i32; 4]) -> bool {
    forall|i: int| 0 <= i < 4 ==> -1 <= #[trigger] user_data_block@[i] <= 254
}

/// Whether a tail's fields fit their widths: the team an index below 8 or
/// -1 in 3 bits, each user datum an index below 256 or -1 in 8 bits.
pub open spec fn props_tail_ok(t: s_h4_h2a_mp_props_tail) -> bool {
    match t {
        s_h4_h2a_mp_props_tail::Default { team, user_data_block, sub, .. } => {
            &&& -1 <= team <= 6
            &&& user_data_ok(user_data_block)
            &&& subcase_ok(sub)
        },
        _ => true,
    }
}

/// Whether `sub` is what the first bits of `bits` decode to for `cached_type`.
pub open spec fn subcase_decodes(bits: Seq<bool>, cached_type: nat, sub: DefaultSubcase) -> bool {
    if cached_type == 1 {
        sub == (DefaultSubcase::Weapon { spare_clips: field_at(bits, 0, 8) as u8 })
    } else if cached_type == 12 {
        sub == (DefaultSubcase::Teleporter12 { channel_or_mask: field_at(bits, 0, 8) as u8 })
    } else if cached_type == 20 {
        sub == (DefaultSubcase::LocationName { location_name_index: (field_at(bits, 0, 8) - 1) as i32 })
    } else if cached_type == 31 {
        sub == (DefaultSubcase::TraitZone { trait_zone_channel: field_at(bits, 0, 5) as u8 })
    } else {
        sub == (DefaultSubcase::QuotaOther { min_count: field_at(bits, 0, 5) as u8, max_count: field_at(bits, 5, 5) as u8 })
    }
}

/// Whether `t` is what the first bits of `bits` decode to for `cached_type`.
pub open spec fn props_tail_decodes(bits: Seq<bool>, cached_type: nat, t: s_h4_h2a_mp_props_tail) -> bool {
    if cached_type == 0x20 {
        t == (s_h4_h2a_mp_props_tail::Type20Advanced {
            field_4bit_signed: (field_at(bits, 0, 4) - 1) as i8,
            field_8bit: field_at(bits, 4, 8) as u8,
            field_16bit: field_at(bits, 12, 16) as u16,
        })
    } else if cached_type == 0x21 {
        t matches s_h4_h2a_mp_props_tail::Type21Teleporter1 { teleporter_field_bytes }
            && forall|i: int| 0 <= i < 8 ==> #[trigger] teleporter_field_bytes@[i] == field_at(bits, 8 * i, 8)
    } else if cached_type == 0x22 {
        t matches s_h4_h2a_mp_props_tail::Type22Teleporter2 { teleporter_field_bytes }
            && forall|i: int| 0 <= i < 9 ==> #[trigger] teleporter_field_bytes@[i] == field_at(bits, 8 * i, 8)
    } else if cached_type == 0x23 {
        t == s_h4_h2a_mp_props_tail::Empty
    } else {
        t matches s_h4_h2a_mp_props_tail::Default { primary_change_color, spawn_time, team, flags_lo, flags_hi_signed, user_data_block, sub }
            && primary_change_color == field_at(bits, 0, 4) - 1
            && spawn_time == field_at(bits, 4, 8)
            && team == field_at(bits, 12, 3) - 1
            && flags_lo == field_at(bits, 15, 8)
            && flags_hi_signed == sign_extend(field_at(bits, 23, 8), 8)
            && (forall|i: int| 0 <= i < 4 ==> #[trigger] user_data_block@[i] == field_at(bits, 31 + 8 * i, 8) - 1)
            && subcase_decodes(bits.skip(63), cached_type, sub)
    }
}

impl s_h4_h2a_mp_props {
    /// The encoding: the boundary (a boundary of the unused shape when there
    /// is none), the cached type in 6 bits, the label index in `label_bits`
    /// bits, then the tail.
    pub open spec fn wire_bits(&self, label_bits: nat) -> Seq<bool> {
        (match self.boundary {
            Some(b) => b.wire_bits(),
            None => bits_of(0, 2),
        }) + bits_of(self.cached_type as nat, 6) + bits_of(self.label_index as nat, label_bits)
            + props_tail_bits(self.tail)
    }

    /// Whether every field fits its width.
    pub open spec fn wire_ok(&self, label_bits: nat) -> bool {
        &&& (self.boundary matches Some(b) ==> b.wire_ok())
        &&& self.cached_type < 64
        &&& valid_width(label_bits)
        &&& fits_unsigned(self.label_index as int, label_bits)
        &&& props_tail_ok(self.tail)
    }

    /// The number of bits decoding takes from the front of `bits`.
    pub open spec fn parse_len(bits: Seq<bool>, label_bits: nat) -> nat {
        let b = s_multiplayer_object_boundary::parse_len(bits);
        b + 6 + label_bits + props_tail_len(field_at(bits, b as int, 6))
    }

    /// Whether decoding from the front of `bits` succeeds: the bits are there
    /// and the label index fits 16 bits.
    pub open spec fn decodable(bits: Seq<bool>, label_bits: nat) -> bool {
        let b = s_multiplayer_object_boundary::parse_len(bits);
        &&& bits.len() >= 2
        &&& valid_width(label_bits)
        &&& bits.len() >= Self::parse_len(bits, label_bits)
        &&& field_at(bits, (b + 6) as int, label_bits as int) < 0x10000
    }

    /// Whether `p` is what decoding the front of `bits` gives.
    pub open spec fn decodes_to(bits: Seq<bool>, label_bits: nat, p: Self) -> bool {
        let b = s_multiplayer_object_boundary::parse_len(bits);
        let ct = field_at(bits, b as int, 6);
        &&& p.boundary == s_multiplayer_object_boundary::parse(bits)
        &&& p.cached_type == ct
        &&& p.label_index == field_at(bits, (b + 6) as int, label_bits as int)
        &&& props_tail_decodes(bits.skip((b + 6 + label_bits) as int), ct, p.tail)
    }
}


/// The Halo 4 and Halo 2 Anniversary object properties' wire layout, as the
/// format fixes it. After the boundary (of `b` bits): the cached type in 6
/// bits at `b`, the label index in `label_bits` bits at `b + 6`, then the
/// tail. Reading takes the cached type and the label from those places and
/// the tail from what follows.
pub proof fn lemma_h4_h2a_props_layout(p: s_h4_h2a_mp_props, label_bits: nat, bits: Seq<bool>, q: s_h4_h2a_mp_props)
    ensures ({
        let w = p.wire_bits(label_bits);
        let b: int = match p.boundary {
            Some(x) => x.wire_bits().len() as int,
            None => 2,
        };
        &&& w.subrange(b, b + 6) == bits_of(p.cached_type as nat, 6)
        &&& w.subrange(b + 6, b + 6 + label_bits) == bits_of(p.label_index as nat, label_bits)
        &&& w.skip(b + 6 + label_bits) == props_tail_bits(p.tail)
    }),
    s_h4_h2a_mp_props::decodes_to(bits, label_bits, q) ==> {
        let b = s_multiplayer_object_boundary::parse_len(bits) as int;
        &&& q.cached_type == field_at(bits, b, 6)
        &&& q.label_index == field_at(bits, b + 6, label_bits as int)
        &&& props_tail_decodes(bits.skip(b + 6 + label_bits), field_at(bits, b, 6), q.tail)
    },
{
    lemma_bits_of_len(0, 2);
    lemma_bits_of_len(p.cached_type as nat, 6);
    lemma_bits_of_len(p.label_index as nat, label_bits);
    let head: Seq<bool> = match p.boundary {
        Some(x) => x.wire_bits(),
        None => bits_of(0, 2),
    };
    let w = p.wire_bits(label_bits);
    let b = head.len() as int;
    assert(w =~= head + bits_of(p.cached_type as nat, 6) + bits_of(p.label_index as nat, label_bits) + props_tail_bits(p.tail));
    assert(w.subrange(b, b + 6) =~= bits_of(p.cached_type as nat, 6));
    assert(w.subrange(b + 6, b + 6 + label_bits) =~= bits_of(p.label_index as nat, label_bits));
    assert(w.skip(b + 6 + label_bits) =~= props_tail_bits(p.tail));
}

/// A tail's wire layout, as the format fixes it. The default tail: the
/// primary change colour plus one in 4 bits at bit 0, the spawn time in 8 at
/// 4, the team plus one in 3 at 12, the low flags in 8 at 15, the signed high
/// flags in 8 at 23, the four user data plus one in 8 bits each at 31, 39, 47
/// and 55, and the sub-case from bit 63 (a quota's minimum and maximum count
/// in 5 bits each, at 0 and 5 within it). The advanced tail of type 0x20: the
/// signed 4-bit field plus one at 0, the 8-bit field at 4, the 16-bit field
/// at 12. Writing puts each field there and reading takes each field from
/// there.
pub proof fn lemma_props_tail_layout(t: s_h4_h2a_mp_props_tail, bits: Seq<bool>, cached_type: nat, d: s_h4_h2a_mp_props_tail)
    ensures
        t matches s_h4_h2a_mp_props_tail::Default { primary_change_color, spawn_time, team, flags_lo, flags_hi_signed, user_data_block, sub } ==> {
            let w = props_tail_bits(t);
            &&& w.subrange(0, 4) == wrapped_bits(primary_change_color as int, 4)
            &&& w.subrange(4, 12) == bits_of(spawn_time as nat, 8)
            &&& w.subrange(12, 15) == bits_of((team + 1) as nat, 3)
            &&& w.subrange(15, 23) == bits_of(flags_lo as nat, 8)
            &&& w.subrange(23, 31) == signed_bits_of(flags_hi_signed as int, 8)
            &&& w.subrange(31, 39) == bits_of((user_data_block@[0] + 1) as nat, 8)
            &&& w.subrange(39, 47) == bits_of((user_data_block@[1] + 1) as nat, 8)
            &&& w.subrange(47, 55) == bits_of((user_data_block@[2] + 1) as nat, 8)
            &&& w.subrange(55, 63) == bits_of((user_data_block@[3] + 1) as nat, 8)
            &&& w.skip(63) == subcase_bits(sub)
        },
        t matches s_h4_h2a_mp_props_tail::Type20Advanced { field_4bit_signed, field_8bit, field_16bit } ==> {
            let w = props_tail_bits(t);
            &&& w.len() == 28
            &&& w.subrange(0, 4) == wrapped_bits(field_4bit_signed as int, 4)
            &&& w.subrange(4, 12) == bits_of(field_8bit as nat, 8)
            &&& w.subrange(12, 28) == bits_of(field_16bit as nat, 16)
        },
        t matches s_h4_h2a_mp_props_tail::Default { sub: DefaultSubcase::QuotaOther { min_count, max_count }, .. } ==> {
            let s = props_tail_bits(t).skip(63);
            &&& s.len() == 10
            &&& s.subrange(0, 5) == bits_of(min_count as nat, 5)
            &&& s.subrange(5, 10) == bits_of(max_count as nat, 5)
        },
        props_tail_decodes(bits, cached_type, d) && d is Default ==> {
            &&& d->primary_change_color == field_at(bits, 0, 4) - 1
            &&& d->spawn_time == field_at(bits, 4, 8)
            &&& d->team == field_at(bits, 12, 3) - 1
            &&& d->flags_lo == field_at(bits, 15, 8)
            &&& d->flags_hi_signed == sign_extend(field_at(bits, 23, 8), 8)
            &&& d->user_data_block@[0] == field_at(bits, 31, 8) - 1
            &&& d->user_data_block@[1] == field_at(bits, 39, 8) - 1
            &&& d->user_data_block@[2] == field_at(bits, 47, 8) - 1
            &&& d->user_data_block@[3] == field_at(bits, 55, 8) - 1
        },
        props_tail_decodes(bits, cached_type, d) && d is Type20Advanced ==> {
            &&& d->field_4bit_signed == (field_at(bits, 0, 4) - 1) as i8
            &&& d->field_8bit == field_at(bits, 4, 8) as u8
            &&& d->field_16bit == field_at(bits, 12, 16) as u16
        },
{
    lemma2_to64();
    match t {
        s_h4_h2a_mp_props_tail::Default { primary_change_color, spawn_time, team, flags_lo, flags_hi_signed, user_data_block, sub } => {
            lemma_bits_of_len(((primary_change_color as int + 1) % 16) as nat, 4);
            lemma_bits_of_len(spawn_time as nat, 8);
            lemma_bits_of_len((team + 1) as nat, 3);
            lemma_bits_of_len(flags_lo as nat, 8);
            lemma_signed_roundtrip(flags_hi_signed as int, 8);
            lemma_bits_of_len((user_data_block@[0] + 1) as nat, 8);
            lemma_bits_of_len((user_data_block@[1] + 1) as nat, 8);
            lemma_bits_of_len((user_data_block@[2] + 1) as nat, 8);
            lemma_bits_of_len((user_data_block@[3] + 1) as nat, 8);
            let w = props_tail_bits(t);
            assert(w.subrange(0, 4) =~= wrapped_bits(primary_change_color as int, 4));
            assert(w.subrange(4, 12) =~= bits_of(spawn_time as nat, 8));
            assert(w.subrange(12, 15) =~= bits_of((team + 1) as nat, 3));
            assert(w.subrange(15, 23) =~= bits_of(flags_lo as nat, 8));
            assert(w.subrange(23, 31) =~= signed_bits_of(flags_hi_signed as int, 8));
            assert(w.subrange(31, 39) =~= bits_of((user_data_block@[0] + 1) as nat, 8));
            assert(w.subrange(39, 47) =~= bits_of((user_data_block@[1] + 1) as nat, 8));
            assert(w.subrange(47, 55) =~= bits_of((user_data_block@[2] + 1) as nat, 8));
            assert(w.subrange(55, 63) =~= bits_of((user_data_block@[3] + 1) as nat, 8));
            assert(w.skip(63) =~= subcase_bits(sub));
            if let DefaultSubcase::QuotaOther { min_count, max_count } = sub {
                lemma_bits_of_len(min_count as nat, 5);
                lemma_bits_of_len(max_count as nat, 5);
                let s = w.skip(63);
                assert(s.subrange(0, 5) =~= bits_of(min_count as nat, 5));
                assert(s.subrange(5, 10) =~= bits_of(max_count as nat, 5));
            }
        },
        s_h4_h2a_mp_props_tail::Type20Advanced { field_4bit_signed, field_8bit, field_16bit } => {
            lemma_bits_of_len(((field_4bit_signed as int + 1) % 16) as nat, 4);
            lemma_bits_of_len(field_8bit as nat, 8);
            lemma_bits_of_len(field_16bit as nat, 16);
            let w = props_tail_bits(t);
            assert(w.subrange(0, 4) =~= wrapped_bits(field_4bit_signed as int, 4));
            assert(w.subrange(4, 12) =~= bits_of(field_8bit as nat, 8));
            assert(w.subrange(12, 28) =~= bits_of(field_16bit as nat, 16));
        },
        _ => {},
    }
    if props_tail_decodes(bits, cached_type, d) && d is Default {
        assert(cached_type != 0x20 && cached_type != 0x21 && cached_type != 0x22 && cached_type != 0x23);
        let ub = d->user_data_block;
        assert(ub@[0] == field_at(bits, 31int + 8 * 0, 8) - 1);
        assert(ub@[1] == field_at(bits, 31int + 8 * 1, 8) - 1);
        assert(ub@[2] == field_at(bits, 31int + 8 * 2, 8) - 1);
        assert(ub@[3] == field_at(bits, 31int + 8 * 3, 8) - 1);
    }
}

/// Writes `(v + 1)` in `n` bits, wrapping.
fn write_wrapped(bitstream: &mut c_bitstream_writer, v: i32, n: usize)
    requires
        n == 4 || n == 8,
    ensures
        final(bitstream)@ == old(bitstream)@ + wrapped_bits(v as int, n as nat),
{
    proof { lemma2_to64(); }
    let m: u64 = if n == 4 { 16 } else { 256 };
    let raw: u64 = (((v as i64) + 1 + 0x1_0000_0000) as u64) % m;
    proof {
        vstd::arithmetic::div_mod::lemma_mod_multiples_vanish(0x1_0000_0000int / (m as int), (v as int) + 1, m as int);
    }
    let r = bitstream.write_integer(raw, n);
    assert(r is Ok);
}

fn write_bytes(bitstream: &mut c_bitstream_writer, bytes: &[u8])
    ensures
        final(bitstream)@ == old(bitstream)@ + unpack(bytes@),
{
    let mut i: usize = 0;
    while i < bytes.len()
        invariant
            i <= bytes@.len(),
            bitstream@ == old(bitstream)@ + unpack(bytes@.take(i as int)),
        decreases bytes.len() - i,
    {
        proof {
            lemma2_to64();
            assert(bytes@.take(i + 1) =~= bytes@.take(i as int).push(bytes@[i as int]));
            lemma_unpack_push(bytes@.take(i as int), bytes@[i as int]);
        }
        let r = bitstream.write_integer(bytes[i] as u64, 8);
        assert(r is Ok);
        i = i + 1;
    }
    assert(bytes@.take(bytes@.len() as int) =~= bytes@);
}

fn encode_subcase(sub: &DefaultSubcase, bitstream: &mut c_bitstream_writer) -> (r: BLFLibResult)
    ensures
        r is Ok <==> subcase_ok(*sub),
        r is Ok ==> final(bitstream)@ == old(bitstream)@ + subcase_bits(*sub),
{
    proof { lemma2_to64(); }
    match sub {
        DefaultSubcase::Weapon { spare_clips } => bitstream.write_integer(*spare_clips as u64, 8),
        DefaultSubcase::Teleporter12 { channel_or_mask } => bitstream.write_integer(*channel_or_mask as u64, 8),
        DefaultSubcase::LocationName { location_name_index } => {
            write_wrapped(bitstream, *location_name_index, 8);
            Ok(())
        },
        DefaultSubcase::TraitZone { trait_zone_channel } => bitstream.write_integer(*trait_zone_channel as u64, 5),
        DefaultSubcase::QuotaOther { min_count, max_count } => {
            bitstream.write_integer(*min_count as u64, 5)?;
            bitstream.write_integer(*max_count as u64, 5)?;
            Ok(())
        },
    }
}

fn encode_props_tail(tail: &s_h4_h2a_mp_props_tail, bitstream: &mut c_bitstream_writer) -> (r: BLFLibResult)
    ensures
        r is Ok <==> props_tail_ok(*tail),
        r is Ok ==> final(bitstream)@ == old(bitstream)@ + props_tail_bits(*tail),
{
    proof { lemma2_to64(); }
    match tail {
        s_h4_h2a_mp_props_tail::Empty => {
            assert(bitstream@ =~= old(bitstream)@ + props_tail_bits(*tail));
        },
        s_h4_h2a_mp_props_tail::Type20Advanced { field_4bit_signed, field_8bit, field_16bit } => {
            write_wrapped(bitstream, *field_4bit_signed as i32, 4);
            bitstream.write_integer(*field_8bit as u64, 8)?;
            bitstream.write_integer(*field_16bit as u64, 16)?;
        },
        s_h4_h2a_mp_props_tail::Type21Teleporter1 { teleporter_field_bytes } => {
            write_bytes(bitstream, teleporter_field_bytes);
        },
        s_h4_h2a_mp_props_tail::Type22Teleporter2 { teleporter_field_bytes } => {
            write_bytes(bitstream, teleporter_field_bytes);
        },
        s_h4_h2a_mp_props_tail::Default { primary_change_color, spawn_time, team, flags_lo, flags_hi_signed, user_data_block, sub } => {
            write_wrapped(bitstream, *primary_change_color as i32, 4);
            bitstream.write_integer(*spawn_time as u64, 8)?;
            bitstream.write_index::<8>(*team as i64, 3)?;
            bitstream.write_integer(*flags_lo as u64, 8)?;
            bitstream.write_signed_integer(*flags_hi_signed as i64, 8)?;
            let ghost head = bitstream@;
            let mut i: usize = 0;
            while i < 4
                invariant
                    i <= 4,
                    *tail == (s_h4_h2a_mp_props_tail::Default {
                        primary_change_color: *primary_change_color, spawn_time: *spawn_time, team: *team,
                        flags_lo: *flags_lo, flags_hi_signed: *flags_hi_signed, user_data_block: *user_data_block, sub: *sub,
                    }),
                    forall|k: int| 0 <= k < i ==> -1 <= #[trigger] user_data_block@[k] <= 254,
                    bitstream@ == head + (if i == 0 { Seq::empty() } else if i == 1 {
                        bits_of((user_data_block@[0] + 1) as nat, 8)
                    } else if i == 2 {
                        bits_of((user_data_block@[0] + 1) as nat, 8) + bits_of((user_data_block@[1] + 1) as nat, 8)
                    } else if i == 3 {
                        bits_of((user_data_block@[0] + 1) as nat, 8) + bits_of((user_data_block@[1] + 1) as nat, 8)
                            + bits_of((user_data_block@[2] + 1) as nat, 8)
                    } else {
                        bits_of((user_data_block@[0] + 1) as nat, 8) + bits_of((user_data_block@[1] + 1) as nat, 8)
                            + bits_of((user_data_block@[2] + 1) as nat, 8) + bits_of((user_data_block@[3] + 1) as nat, 8)
                    }),
                decreases 4 - i,
            {
                proof { lemma2_to64(); }
                let r = bitstream.write_index::<256>(user_data_block[i] as i64, 8);
                if r.is_err() {
                    assert(!(-1 <= user_data_block@[i as int] <= 254));
                    assert(!user_data_ok(*user_data_block));
                    assert(!props_tail_ok(*tail));
                    return r;
                }
                i = i + 1;
            }
            encode_subcase(sub, bitstream)?;
            assert(bitstream@ =~= old(bitstream)@ + props_tail_bits(*tail));
        },
    }
    Ok(())
}

impl s_h4_h2a_mp_props {
    /// Writes the object properties; `label_bits` is 10 for Halo 4 and 11
    /// for Halo 2 Anniversary.
    pub fn encode(&self, bitstream: &mut c_bitstream_writer, label_bits: u32) -> (r: BLFLibResult)
        ensures
            r is Ok <==> self.wire_ok(label_bits as nat),
            r is Ok ==> final(bitstream)@ == old(bitstream)@ + self.wire_bits(label_bits as nat),
    {
        proof { lemma2_to64(); }
        match self.boundary {
            Some(b) => {
                b.encode(bitstream)?;
            },
            None => {
                let unused = s_multiplayer_object_boundary {
                    shape: e_boundary_shape::unused, size: 0, box_length: 0, positive_height: 0, negative_height: 0,
                };
                let r = unused.encode(bitstream);
                assert(r is Ok);
                assert(unused.wire_bits() =~= bits_of(0, 2));
            },
        }
        bitstream.write_integer(self.cached_type as u64, 6)?;
        bitstream.write_integer(self.label_index as u64, label_bits as usize)?;
        encode_props_tail(&self.tail, bitstream)?;
        assert(bitstream@ =~= old(bitstream)@ + self.wire_bits(label_bits as nat));
        Ok(())
    }
}


fn decode_subcase(bitstream: &mut c_bitstream_reader, cached_type: u8) -> (r: BLFLibResult<DefaultSubcase>)
    ensures
        final(bitstream).data() == old(bitstream).data(),
        r is Ok <==> old(bitstream).remaining().len() >= subcase_len(cached_type as nat),
        r matches Ok(sub) ==> subcase_decodes(old(bitstream).remaining(), cached_type as nat, sub)
            && final(bitstream).remaining() == old(bitstream).remaining().skip(subcase_len(cached_type as nat) as int),
{
    let ghost rem = bitstream.remaining();
    proof { lemma2_to64(); }
    if cached_type == 1 || cached_type == 12 || cached_type == 20 {
        let v = bitstream.read_unnamed_integer(8)?;
        assert(rem.take(8) =~= rem.subrange(0, 8));
        if cached_type == 1 {
            Ok(DefaultSubcase::Weapon { spare_clips: v as u8 })
        } else if cached_type == 12 {
            Ok(DefaultSubcase::Teleporter12 { channel_or_mask: v as u8 })
        } else {
            Ok(DefaultSubcase::LocationName { location_name_index: (v as i32) - 1 })
        }
    } else if cached_type == 31 {
        let v = bitstream.read_unnamed_integer(5)?;
        assert(rem.take(5) =~= rem.subrange(0, 5));
        Ok(DefaultSubcase::TraitZone { trait_zone_channel: v as u8 })
    } else {
        if bitstream.bits_remaining() < 10 {
            return Err(BLFLibError::EndOfStream);
        }
        let min_count = bitstream.read_unnamed_integer(5)? as u8;
        let max_count = bitstream.read_unnamed_integer(5)? as u8;
        assert(rem.take(5) =~= rem.subrange(0, 5));
        Ok(DefaultSubcase::QuotaOther { min_count, max_count })
    }
}

fn read_bytes8(bitstream: &mut c_bitstream_reader) -> (r: BLFLibResult<[u8; 8]>)
    ensures
        final(bitstream).data() == old(bitstream).data(),
        r is Ok <==> old(bitstream).remaining().len() >= 64,
        r matches Ok(a) ==> (forall|i: int| 0 <= i < 8 ==> #[trigger] a@[i] == field_at(old(bitstream).remaining(), 8 * i, 8))
            && final(bitstream).remaining() == old(bitstream).remaining().skip(64),
{
    let ghost rem = bitstream.remaining();
    if bitstream.bits_remaining() < 64 {
        return Err(BLFLibError::EndOfStream);
    }
    let mut a = [0u8; 8];
    let mut i: usize = 0;
    while i < 8
        invariant
            i <= 8,
            rem == old(bitstream).remaining(),
            rem.len() >= 64,
            bitstream.data() == old(bitstream).data(),
            bitstream.remaining() == rem.skip(8 * i),
            forall|k: int| 0 <= k < i ==> #[trigger] a@[k] == field_at(rem, 8 * k, 8),
        decreases 8 - i,
    {
        proof { lemma2_to64(); }
        let v = bitstream.read_unnamed_integer(8)?;
        a[i] = v as u8;
        i = i + 1;
    }
    Ok(a)
}

fn read_bytes9(bitstream: &mut c_bitstream_reader) -> (r: BLFLibResult<[u8; 9]>)
    ensures
        final(bitstream).data() == old(bitstream).data(),
        r is Ok <==> old(bitstream).remaining().len() >= 72,
        r matches Ok(a) ==> (forall|i: int| 0 <= i < 9 ==> #[trigger] a@[i] == field_at(old(bitstream).remaining(), 8 * i, 8))
            && final(bitstream).remaining() == old(bitstream).remaining().skip(72),
{
    let ghost rem = bitstream.remaining();
    if bitstream.bits_remaining() < 72 {
        return Err(BLFLibError::EndOfStream);
    }
    let mut a = [0u8; 9];
    let mut i: usize = 0;
    while i < 9
        invariant
            i <= 9,
            rem == old(bitstream).remaining(),
            rem.len() >= 72,
            bitstream.data() == old(bitstream).data(),
            bitstream.remaining() == rem.skip(8 * i),
            forall|k: int| 0 <= k < i ==> #[trigger] a@[k] == field_at(rem, 8 * k, 8),
        decreases 9 - i,
    {
        proof { lemma2_to64(); }
        let v = bitstream.read_unnamed_integer(8)?;
        a[i] = v as u8;
        i = i + 1;
    }
    Ok(a)
}

fn decode_default_tail(bitstream: &mut c_bitstream_reader, cached_type: u8) -> (r: BLFLibResult<s_h4_h2a_mp_props_tail>)
    requires
        cached_type != 0x20 && cached_type != 0x21 && cached_type != 0x22 && cached_type != 0x23,
    ensures
        final(bitstream).data() == old(bitstream).data(),
        r is Ok <==> old(bitstream).remaining().len() >= props_tail_len(cached_type as nat),
        r matches Ok(t) ==> props_tail_decodes(old(bitstream).remaining(), cached_type as nat, t)
            && final(bitstream).remaining() == old(bitstream).remaining().skip(props_tail_len(cached_type as nat) as int),
{
    let ghost rem = bitstream.remaining();
    proof { lemma2_to64(); }
    if bitstream.bits_remaining() < 63 {
        return Err(BLFLibError::EndOfStream);
    }
    let raw_pcc = bitstream.read_unnamed_integer(4)?;
    let primary_change_color = (raw_pcc as i8) - 1;
    let spawn_time = bitstream.read_unnamed_integer(8)? as u8;
    proof { lemma_value_of_bound(bitstream.remaining().take(3)); }
    let team = bitstream.read_index::<8>("", 3)? as i8;
    let flags_lo = bitstream.read_unnamed_integer(8)? as u8;
    let flags_hi_signed = bitstream.read_unnamed_signed_integer(8)? as i8;
    let mut user_data_block = [0i32; 4];
    let mut i: usize = 0;
    while i < 4
        invariant
            i <= 4,
            rem == old(bitstream).remaining(),
            rem.len() >= 63,
            bitstream.data() == old(bitstream).data(),
            bitstream.remaining() == rem.skip(31 + 8 * i),
            forall|k: int| 0 <= k < i ==> #[trigger] user_data_block@[k] == field_at(rem, 31 + 8 * k, 8) - 1,
        decreases 4 - i,
    {
        proof { lemma2_to64(); lemma_value_of_bound(bitstream.remaining().take(8)); }
        let v = bitstream.read_index::<256>("", 8)?;
        user_data_block[i] = v as i32;
        i = i + 1;
    }
    let sub = decode_subcase(bitstream, cached_type)?;
    assert(rem.take(4) =~= rem.subrange(0, 4));
    Ok(s_h4_h2a_mp_props_tail::Default { primary_change_color, spawn_time, team, flags_lo, flags_hi_signed, user_data_block, sub })
}

fn decode_props_tail(bitstream: &mut c_bitstream_reader, cached_type: u8) -> (r: BLFLibResult<s_h4_h2a_mp_props_tail>)
    ensures
        final(bitstream).data() == old(bitstream).data(),
        r is Ok <==> old(bitstream).remaining().len() >= props_tail_len(cached_type as nat),
        r matches Ok(t) ==> props_tail_decodes(old(bitstream).remaining(), cached_type as nat, t)
            && final(bitstream).remaining() == old(bitstream).remaining().skip(props_tail_len(cached_type as nat) as int),
{
    let ghost rem = bitstream.remaining();
    proof { lemma2_to64(); }
    if cached_type == 0x20 {
        if bitstream.bits_remaining() < 28 {
            return Err(BLFLibError::EndOfStream);
        }
        let raw4 = bitstream.read_unnamed_integer(4)?;
        let field_8bit = bitstream.read_unnamed_integer(8)? as u8;
        let field_16bit = bitstream.read_unnamed_integer(16)? as u16;
        assert(rem.take(4) =~= rem.subrange(0, 4));
        Ok(s_h4_h2a_mp_props_tail::Type20Advanced { field_4bit_signed: (raw4 as i8) - 1, field_8bit, field_16bit })
    } else if cached_type == 0x21 {
        let teleporter_field_bytes = read_bytes8(bitstream)?;
        Ok(s_h4_h2a_mp_props_tail::Type21Teleporter1 { teleporter_field_bytes })
    } else if cached_type == 0x22 {
        let teleporter_field_bytes = read_bytes9(bitstream)?;
        Ok(s_h4_h2a_mp_props_tail::Type22Teleporter2 { teleporter_field_bytes })
    } else if cached_type == 0x23 {
        assert(rem.skip(0) =~= rem);
        Ok(s_h4_h2a_mp_props_tail::Empty)
    } else {
        decode_default_tail(bitstream, cached_type)
    }
}

impl s_h4_h2a_mp_props {
    /// Reads the object properties; `label_bits` is 10 for Halo 4 and 11 for
    /// Halo 2 Anniversary. Fails when the bits run out or the label index does
    /// not fit 16 bits.
    pub fn decode(bitstream: &mut c_bitstream_reader, label_bits: u32) -> (r: BLFLibResult<Self>)
        ensures
            final(bitstream).data() == old(bitstream).data(),
            r is Ok <==> Self::decodable(old(bitstream).remaining(), label_bits as nat),
            r matches Ok(p) ==> Self::decodes_to(old(bitstream).remaining(), label_bits as nat, p)
                && final(bitstream).remaining() == old(bitstream).remaining().skip(Self::parse_len(old(bitstream).remaining(), label_bits as nat) as int),
    {
        let ghost rem = bitstream.remaining();
        proof { lemma2_to64(); }
        let boundary = s_multiplayer_object_boundary::decode(bitstream)?;
        let ghost b = s_multiplayer_object_boundary::parse_len(rem);
        let cached_type = bitstream.read_unnamed_integer(6)? as u8;
        let label = bitstream.read_unnamed_integer(label_bits as usize)?;
        if label > 0xFFFF {
            return Err(BLFLibError::ValueOutOfRange);
        }
        let label_index = label as u16;
        let tail = decode_props_tail(bitstream, cached_type)?;
        Ok(s_h4_h2a_mp_props { boundary, cached_type, label_index, tail })
    }
}


/// Whether a tail is the one its cached type calls for, with each wrapped
/// field in the range that reads back unchanged.
pub open spec fn tail_matches_type(cached_type: nat, t: s_h4_h2a_mp_props_tail) -> bool {
    if cached_type == 0x20 {
        t matches s_h4_h2a_mp_props_tail::Type20Advanced { field_4bit_signed, .. } && -1 <= field_4bit_signed <= 14
    } else if cached_type == 0x21 {
        t is Type21Teleporter1
    } else if cached_type == 0x22 {
        t is Type22Teleporter2
    } else if cached_type == 0x23 {
        t is Empty
    } else {
        t matches s_h4_h2a_mp_props_tail::Default { primary_change_color, sub, .. }
            && -1 <= primary_change_color <= 14
            && subcase_matches_type(cached_type, sub)
    }
}

/// Whether a default sub-case is the one its cached type calls for, with a
/// location name index in the range that reads back unchanged.
pub open spec fn subcase_matches_type(cached_type: nat, sub: DefaultSubcase) -> bool {
    if cached_type == 1 {
        sub is Weapon
    } else if cached_type == 12 {
        sub is Teleporter12
    } else if cached_type == 20 {
        sub matches DefaultSubcase::LocationName { location_name_index } && -1 <= location_name_index <= 254
    } else if cached_type == 31 {
        sub is TraitZone
    } else {
        sub is QuotaOther
    }
}

/// Whether a boundary is one that decoding gives back: a shape other than
/// unused, and zero for the dimensions the shape does not have.
pub open spec fn boundary_canonical(b: s_multiplayer_object_boundary) -> bool {
    match b.shape {
        e_boundary_shape::unused => false,
        e_boundary_shape::sphere => b.box_length == 0 && b.positive_height == 0 && b.negative_height == 0,
        e_boundary_shape::cylinder => b.box_length == 0,
        e_boundary_shape::box_ => true,
    }
}

proof fn lemma_wrapped_roundtrip(v: int, n: nat)
    requires
        1 <= n <= 8,
        -1 <= v < pow2(n) - 1,
    ensures
        wrapped_bits(v, n).len() == n,
        value_of(wrapped_bits(v, n)) - 1 == v,
{
    lemma_pow2_pos(n);
    vstd::arithmetic::div_mod::lemma_small_mod((v + 1) as nat, pow2(n));
    lemma_unsigned_roundtrip((v + 1) as nat, n);
}

proof fn lemma_subcase_roundtrip(sub: DefaultSubcase, ct: nat, rest: Seq<bool>)
    requires
        subcase_ok(sub),
        ct != 0x20 && ct != 0x21 && ct != 0x22 && ct != 0x23,
        subcase_matches_type(ct, sub),
    ensures
        subcase_bits(sub).len() == subcase_len(ct),
        subcase_decodes(subcase_bits(sub) + rest, ct, sub),
{
    lemma2_to64();
    let w = subcase_bits(sub) + rest;
    match sub {
        DefaultSubcase::Weapon { spare_clips } => {
            lemma_unsigned_roundtrip(spare_clips as nat, 8);
            assert(w.subrange(0, 8) =~= subcase_bits(sub));
        },
        DefaultSubcase::Teleporter12 { channel_or_mask } => {
            lemma_unsigned_roundtrip(channel_or_mask as nat, 8);
            assert(w.subrange(0, 8) =~= subcase_bits(sub));
        },
        DefaultSubcase::LocationName { location_name_index } => {
            lemma_wrapped_roundtrip(location_name_index as int, 8);
            assert(w.subrange(0, 8) =~= subcase_bits(sub));
        },
        DefaultSubcase::TraitZone { trait_zone_channel } => {
            lemma_unsigned_roundtrip(trait_zone_channel as nat, 5);
            assert(w.subrange(0, 5) =~= subcase_bits(sub));
        },
        DefaultSubcase::QuotaOther { min_count, max_count } => {
            lemma_unsigned_roundtrip(min_count as nat, 5);
            lemma_unsigned_roundtrip(max_count as nat, 5);
            assert(w.subrange(0, 5) =~= bits_of(min_count as nat, 5));
            assert(w.subrange(5, 10) =~= bits_of(max_count as nat, 5));
        },
    }
}

#[verifier::spinoff_prover]
proof fn lemma_props_tail_roundtrip(t: s_h4_h2a_mp_props_tail, ct: nat, rest: Seq<bool>)
    requires
        props_tail_ok(t),
        tail_matches_type(ct, t),
    ensures
        props_tail_bits(t).len() == props_tail_len(ct),
        props_tail_decodes(props_tail_bits(t) + rest, ct, t),
{
    lemma2_to64();
    let w = props_tail_bits(t) + rest;
    match t {
        s_h4_h2a_mp_props_tail::Empty => {},
        s_h4_h2a_mp_props_tail::Type20Advanced { field_4bit_signed, field_8bit, field_16bit } => {
            lemma_wrapped_roundtrip(field_4bit_signed as int, 4);
            lemma_unsigned_roundtrip(field_8bit as nat, 8);
            lemma_unsigned_roundtrip(field_16bit as nat, 16);
            assert(w.subrange(0, 4) =~= wrapped_bits(field_4bit_signed as int, 4));
            assert(w.subrange(4, 12) =~= bits_of(field_8bit as nat, 8));
            assert(w.subrange(12, 28) =~= bits_of(field_16bit as nat, 16));
        },
        s_h4_h2a_mp_props_tail::Type21Teleporter1 { teleporter_field_bytes } => {
            assert(w.subrange(0, 64) =~= unpack(teleporter_field_bytes@));
            lemma_bytes_roundtrip(teleporter_field_bytes@, w, 0);
        },
        s_h4_h2a_mp_props_tail::Type22Teleporter2 { teleporter_field_bytes } => {
            assert(w.subrange(0, 72) =~= unpack(teleporter_field_bytes@));
            lemma_bytes_roundtrip(teleporter_field_bytes@, w, 0);
        },
        s_h4_h2a_mp_props_tail::Default { primary_change_color, spawn_time, team, flags_lo, flags_hi_signed, user_data_block, sub } => {
            lemma_wrapped_roundtrip(primary_change_color as int, 4);
            lemma_unsigned_roundtrip(spawn_time as nat, 8);
            lemma_unsigned_roundtrip((team + 1) as nat, 3);
            lemma_unsigned_roundtrip(flags_lo as nat, 8);
            lemma_signed_roundtrip(flags_hi_signed as int, 8);
            assert(-1 <= user_data_block@[0] <= 254);
            assert(-1 <= user_data_block@[1] <= 254);
            assert(-1 <= user_data_block@[2] <= 254);
            assert(-1 <= user_data_block@[3] <= 254);
            lemma_unsigned_roundtrip((user_data_block@[0] + 1) as nat, 8);
            lemma_unsigned_roundtrip((user_data_block@[1] + 1) as nat, 8);
            lemma_unsigned_roundtrip((user_data_block@[2] + 1) as nat, 8);
            lemma_unsigned_roundtrip((user_data_block@[3] + 1) as nat, 8);
            lemma_subcase_roundtrip(sub, ct, rest);
            assert(w.subrange(0, 4) =~= wrapped_bits(primary_change_color as int, 4));
            assert(w.subrange(4, 12) =~= bits_of(spawn_time as nat, 8));
            assert(w.subrange(12, 15) =~= bits_of((team + 1) as nat, 3));
            assert(w.subrange(15, 23) =~= bits_of(flags_lo as nat, 8));
            assert(w.subrange(23, 31) =~= signed_bits_of(flags_hi_signed as int, 8));
            assert(w.subrange(31, 39) =~= bits_of((user_data_block@[0] + 1) as nat, 8));
            assert(w.subrange(39, 47) =~= bits_of((user_data_block@[1] + 1) as nat, 8));
            assert(w.subrange(47, 55) =~= bits_of((user_data_block@[2] + 1) as nat, 8));
            assert(w.subrange(55, 63) =~= bits_of((user_data_block@[3] + 1) as nat, 8));
            assert(w.skip(63) =~= subcase_bits(sub) + rest);
            assert forall|i: int| 0 <= i < 4 implies #[trigger] user_data_block@[i] == field_at(w, 31 + 8 * i, 8) - 1 by {
                if i == 0 {} else if i == 1 {} else if i == 2 {} else {}
            }
        },
    }
}

impl s_h4_h2a_mp_props {
    /// Reading back what `encode` wrote gives the same properties, when the
    /// tail is the one the cached type calls for and the boundary is one that
    /// decoding gives back.
    pub proof fn lemma_roundtrip(&self, label_bits: nat, rest: Seq<bool>)
        requires
            self.wire_ok(label_bits),
            tail_matches_type(self.cached_type as nat, self.tail),
            self.boundary matches Some(b) ==> boundary_canonical(b),
        ensures
            Self::decodable(self.wire_bits(label_bits) + rest, label_bits),
            Self::parse_len(self.wire_bits(label_bits) + rest, label_bits) == self.wire_bits(label_bits).len(),
            Self::decodes_to(self.wire_bits(label_bits) + rest, label_bits, *self),
    {
        lemma2_to64();
        let bb = match self.boundary { Some(b) => b.wire_bits(), None => bits_of(0, 2) };
        let tb = props_tail_bits(self.tail);
        let mid = bits_of(self.cached_type as nat, 6) + bits_of(self.label_index as nat, label_bits);
        let w = self.wire_bits(label_bits) + rest;
        assert(w =~= bb + (mid + tb + rest));
        match self.boundary {
            Some(b) => {
                b.lemma_roundtrip(mid + tb + rest);
            },
            None => {
                lemma_unsigned_roundtrip(0, 2);
                assert(w.subrange(0, 2) =~= bits_of(0, 2));
            },
        }
        let bl = bb.len() as int;
        lemma_unsigned_roundtrip(self.cached_type as nat, 6);
        lemma_unsigned_roundtrip(self.label_index as nat, label_bits);
        assert(w.subrange(bl, bl + 6) =~= bits_of(self.cached_type as nat, 6));
        assert(w.subrange(bl + 6, bl + 6 + label_bits) =~= bits_of(self.label_index as nat, label_bits));
        lemma_props_tail_roundtrip(self.tail, self.cached_type as nat, rest);
        assert(w.skip(bl + 6 + label_bits) =~= tb + rest);
        assert(self.label_index < 0x10000);
    }
}

/// Decoding gives one value: two properties that the same bits decode to are
/// the same.
pub proof fn lemma_decodes_to_unique(bits: Seq<bool>, label_bits: nat, p: s_h4_h2a_mp_props, q: s_h4_h2a_mp_props)
    requires
        s_h4_h2a_mp_props::decodes_to(bits, label_bits, p),
        s_h4_h2a_mp_props::decodes_to(bits, label_bits, q),
    ensures
        p == q,
{
    match (p.tail, q.tail) {
        (s_h4_h2a_mp_props_tail::Type21Teleporter1 { teleporter_field_bytes: a },
            s_h4_h2a_mp_props_tail::Type21Teleporter1 { teleporter_field_bytes: b }) => {
            assert(a@ =~= b@);
            assert(a =~= b);
        },
        (s_h4_h2a_mp_props_tail::Type22Teleporter2 { teleporter_field_bytes: a },
            s_h4_h2a_mp_props_tail::Type22Teleporter2 { teleporter_field_bytes: b }) => {
            assert(a@ =~= b@);
            assert(a =~= b);
        },
        (s_h4_h2a_mp_props_tail::Default { user_data_block: a, .. },
            s_h4_h2a_mp_props_tail::Default { user_data_block: b, .. }) => {
            assert(a@ =~= b@);
            assert(a =~= b);
        },
        _ => {},
    }
}

/// Writing properties and decoding the bits gives the same properties back,
/// consuming exactly the bits written: whatever value `decode`'s contract
/// allows for those bits is the original. The label width must be at least
/// one bit, as for any field.
pub proof fn lemma_props_write_then_read(props: s_h4_h2a_mp_props, label_bits: nat, rest: Seq<bool>, p: s_h4_h2a_mp_props)
    requires
        props.wire_ok(label_bits),
        tail_matches_type(props.cached_type as nat, props.tail),
        props.boundary matches Some(b) ==> boundary_canonical(b),
        s_h4_h2a_mp_props::decodes_to(props.wire_bits(label_bits) + rest, label_bits, p),
    ensures
        p == props,
        s_h4_h2a_mp_props::decodable(props.wire_bits(label_bits) + rest, label_bits),
        s_h4_h2a_mp_props::parse_len(props.wire_bits(label_bits) + rest, label_bits) == props.wire_bits(label_bits).len(),
{
    props.lemma_roundtrip(label_bits, rest);
    lemma_decodes_to_unique(props.wire_bits(label_bits) + rest, label_bits, p, props);
}

} // verus!
