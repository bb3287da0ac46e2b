//! The Halo 4 and Halo 2 Anniversary variant object slot. On the wire: an
//! "exists" bit; for a present object the 2-bit flags, the quota index in 8
//! bits and the variant index in 5 (each stored plus one), the in-bounds bit
//! of the position, the quantized position as three unsigned fields of the
//! per-axis widths (read whatever the in-bounds bit says), the axes (an
//! "is default" bit, a 14-bit up rotation, then a 20-bit forward angle unless
//! default), the spawn-relative-to index plus one in 10 bits, a 6-bit
//! quantized extra, an extra bit, and the object properties.
//!
//! The Reach slot has the same head, a position that must lie inside the
//! world bounds, the axes as an "up is global" bit, a 20-bit up quantization
//! unless global and a 14-bit forward angle, the spawn-relative-to index plus
//! one in 10 bits and the Reach object properties.
//!
//! The per-axis widths and the quantized position come from the world bounds
//! and the floating-point position; this module takes them as integers.

use vstd::prelude::*;
use vstd::arithmetic::power2::*;
use vstd::string::StringExecFns;
use crate::io::bitstream::{
    c_bitstream_writer, c_bitstream_reader, bits_of, field_at, valid_width, fits_unsigned,
    lemma_unsigned_roundtrip, lemma_value_of_bound, group_bitstream_seq,
};
use crate::result::{BLFLibError, BLFLibResult};
use crate::blam::common::math::integer_math::int32_point3d;
use crate::blam::haloreach_mcc::v_untracked_25_08_16_1352::saved_games::scenario_map_variant::{
    H4H2AAxes, ReachAxesRaw, s_h4_h2a_mp_props, tail_matches_type, boundary_canonical, lemma_props_write_then_read,
};
use crate::blam::haloreach_mcc::v_untracked_25_08_16_1352::saved_games::object_properties::{
    s_variant_multiplayer_object_properties_definition, props_carried,
};

verus! {

broadcast use group_bitstream_seq;

/// A variant object slot of a map variant, with the values that the Halo 4
/// and Halo 2 Anniversary layout carries, as they stand on the wire.
#[derive(Default, PartialEq, Eq, Debug, Clone, Copy)]
pub struct s_variant_object_datum {
    pub flags: u16,
    pub reuse_timeout: u16,
    pub object_datum_index: i32,
    pub editor_object_index: i32,
    pub variant_quota_index: i32,
    pub variant_index: i32,
    pub spawn_relative_to: i32,
    /// The in-bounds bit of the position, as read.
    pub h4_h2a_position_in_bounds: Option<bool>,
    /// The quantized position, as read.
    pub h4_h2a_position_raw: Option<int32_point3d>,
    /// The raw axes, as read.
    pub h4_h2a_axes: Option<H4H2AAxes>,
    /// The raw 6-bit quantized extra.
    pub h4_h2a_extra_quantized_raw: Option<u8>,
    /// The extra bit.
    pub h4_h2a_extra_bool: Option<bool>,
    /// The object properties; present exactly when the object is.
    pub h4_h2a_mp_props: Option<s_h4_h2a_mp_props>,
    /// The Reach multiplayer properties.
    pub multiplayer_game_object_properties: s_variant_multiplayer_object_properties_definition,
    /// The quantized position a Reach decode read.
    pub reach_position_raw: Option<int32_point3d>,
    /// The raw axes a Reach decode read.
    pub reach_axes_raw: Option<ReachAxesRaw>,
    /// Set when a Reach decode found the object present.
    pub reach_decoded_exists: Option<bool>,
}

/// Whether a per-axis width is one a field can have.
pub open spec fn axis_width_ok(c: i32) -> bool {
    1 <= c <= 64
}

/// Whether all three per-axis widths are ones a field can have.
pub open spec fn counts_ok(c: int32_point3d) -> bool {
    axis_width_ok(c.x) && axis_width_ok(c.y) && axis_width_ok(c.z)
}

/// The offset of the axes: after the exists bit, the flags, both indices,
/// the in-bounds bit and the three position fields.
pub open spec fn axes_offset(c: int32_point3d) -> int {
    17 + c.x + c.y + c.z
}

/// The axes at the front of `bits`: an "is default" bit, a 14-bit up
/// rotation, then a 20-bit forward angle unless default (0 then).
pub open spec fn axes_from(bits: Seq<bool>) -> H4H2AAxes {
    H4H2AAxes {
        is_default: bits[0],
        up_rotation_raw: field_at(bits, 1, 14) as u32,
        forward_angle_raw: if bits[0] { 0 } else { field_at(bits, 15, 20) as u32 },
    }
}

/// The number of bits of the axes at the front of `bits`.
pub open spec fn axes_len(bits: Seq<bool>) -> nat {
    if bits[0] { 15 } else { 35 }
}

/// The offset of the spawn-relative-to field: after the axes.
pub open spec fn spawn_offset(bits: Seq<bool>, c: int32_point3d) -> int {
    axes_offset(c) + axes_len(bits.skip(axes_offset(c)))
}

/// The offset of the object properties.
pub open spec fn props_offset(bits: Seq<bool>, c: int32_point3d) -> int {
    spawn_offset(bits, c) + 17
}

/// Whether a position field fits a 32-bit signed value.
pub open spec fn fits_i32_field(bits: Seq<bool>, offset: int, width: int) -> bool {
    field_at(bits, offset, width) < 0x8000_0000
}

/// Whether the three position fields at the front of `bits` fit.
pub open spec fn point_fits(bits: Seq<bool>, c: int32_point3d) -> bool {
    &&& fits_i32_field(bits, 0, c.x as int)
    &&& fits_i32_field(bits, c.x as int, c.y as int)
    &&& fits_i32_field(bits, c.x + c.y, c.z as int)
}

/// The quantized position that the three fields at the front of `bits` hold.
pub open spec fn point_from(bits: Seq<bool>, c: int32_point3d) -> int32_point3d {
    int32_point3d {
        x: field_at(bits, 0, c.x as int) as i32,
        y: field_at(bits, c.x as int, c.y as int) as i32,
        z: field_at(bits, c.x + c.y, c.z as int) as i32,
    }
}

impl s_variant_object_datum {
    /// Whether decoding a slot from the front of `bits` with per-axis widths
    /// `c` and a `label_bits`-bit label succeeds: the exists bit is there, and
    /// for a present object the widths are valid, the bits are there, each
    /// position field fits 32 signed bits and the properties decode.
    pub open spec fn decodable_h4_h2a(bits: Seq<bool>, c: int32_point3d, label_bits: nat) -> bool {
        &&& bits.len() >= 1
        &&& bits[0] ==> {
            &&& counts_ok(c)
            &&& bits.len() > axes_offset(c)
            &&& bits.len() >= props_offset(bits, c)
            &&& point_fits(bits.skip(17), c)
            &&& s_h4_h2a_mp_props::decodable(bits.skip(props_offset(bits, c)), label_bits)
        }
    }

    /// The number of bits decoding a slot takes from the front of `bits`.
    pub open spec fn parse_len_h4_h2a(bits: Seq<bool>, c: int32_point3d, label_bits: nat) -> nat {
        if !bits[0] {
            1
        } else {
            (props_offset(bits, c) + s_h4_h2a_mp_props::parse_len(bits.skip(props_offset(bits, c)), label_bits)) as nat
        }
    }

    /// Whether `o` is what decoding a slot from the front of `bits` over
    /// `prior` gives: `prior` itself for an absent object; else `prior` with
    /// every field the layout carries set from the bits.
    pub open spec fn decodes_to_h4_h2a(bits: Seq<bool>, c: int32_point3d, label_bits: nat, prior: Self, o: Self) -> bool {
        if !bits[0] {
            o == prior
        } else {
            let h = bits.skip(1);
            let a = bits.skip(spawn_offset(bits, c));
            &&& o.h4_h2a_mp_props matches Some(mp)
                && s_h4_h2a_mp_props::decodes_to(bits.skip(props_offset(bits, c)), label_bits, mp)
            &&& o == (s_variant_object_datum {
                flags: field_at(h, 0, 2) as u16,
                variant_quota_index: (field_at(h, 2, 8) - 1) as i32,
                variant_index: (field_at(h, 10, 5) - 1) as i32,
                h4_h2a_position_in_bounds: Some(h[15]),
                h4_h2a_position_raw: Some(point_from(bits.skip(17), c)),
                h4_h2a_axes: Some(axes_from(bits.skip(axes_offset(c)))),
                spawn_relative_to: (field_at(a, 0, 10) - 1) as i32,
                h4_h2a_extra_quantized_raw: Some(field_at(a, 10, 6) as u8),
                h4_h2a_extra_bool: Some(a[16]),
                h4_h2a_mp_props: o.h4_h2a_mp_props,
                ..prior
            })
        }
    }

    /// The quantized position written: the one read, else `requantized`.
    pub open spec fn written_position(&self, requantized: int32_point3d) -> int32_point3d {
        match self.h4_h2a_position_raw {
            Some(q) => q,
            None => requantized,
        }
    }

    /// The axes written: the ones read, else default ones.
    pub open spec fn written_axes(&self) -> H4H2AAxes {
        match self.h4_h2a_axes {
            Some(x) => x,
            None => H4H2AAxes { is_default: false, forward_angle_raw: 0, up_rotation_raw: 0 },
        }
    }

    /// The bits of the slot between the exists bit and the object properties.
    pub open spec fn h4_h2a_head_bits(&self, c: int32_point3d, requantized: int32_point3d) -> Seq<bool> {
        let q = self.written_position(requantized);
        let x = self.written_axes();
        bits_of(self.flags as nat, 2) + bits_of((self.variant_quota_index + 1) as nat, 8)
            + bits_of((self.variant_index + 1) as nat, 5)
            + seq![match self.h4_h2a_position_in_bounds { Some(b) => b, None => true }]
            + bits_of(q.x as nat, c.x as nat) + bits_of(q.y as nat, c.y as nat) + bits_of(q.z as nat, c.z as nat)
            + seq![x.is_default] + bits_of(x.up_rotation_raw as nat, 14)
            + (if x.is_default { Seq::empty() } else { bits_of(x.forward_angle_raw as nat, 20) })
            + bits_of((self.spawn_relative_to + 1) as nat, 10)
            + bits_of((match self.h4_h2a_extra_quantized_raw { Some(v) => v, None => 0u8 }) as nat, 6)
            + seq![match self.h4_h2a_extra_bool { Some(b) => b, None => false }]
    }

    /// The encoding of a slot: a clear bit for an absent object, else a set
    /// bit, the head and the object properties.
    pub open spec fn h4_h2a_bits(&self, c: int32_point3d, requantized: int32_point3d, label_bits: nat) -> Seq<bool> {
        match self.h4_h2a_mp_props {
            None => seq![false],
            Some(mp) => seq![true] + self.h4_h2a_head_bits(c, requantized) + mp.wire_bits(label_bits),
        }
    }

    /// Whether the head of a slot can be written: every field fits its width
    /// and the position is non-negative.
    pub open spec fn h4_h2a_head_encodable(&self, c: int32_point3d, requantized: int32_point3d) -> bool {
        let q = self.written_position(requantized);
        let x = self.written_axes();
        &&& self.flags < 4
        &&& -1 <= self.variant_quota_index < 255
        &&& -1 <= self.variant_index < 31
        &&& counts_ok(c)
        &&& 0 <= q.x && fits_unsigned(q.x as int, c.x as nat)
        &&& 0 <= q.y && fits_unsigned(q.y as int, c.y as nat)
        &&& 0 <= q.z && fits_unsigned(q.z as int, c.z as nat)
        &&& x.up_rotation_raw < 0x4000
        &&& !x.is_default ==> x.forward_angle_raw < 0x10_0000
        &&& -1 <= self.spawn_relative_to < 1023
        &&& (match self.h4_h2a_extra_quantized_raw { Some(v) => v, None => 0u8 }) < 64
    }

    /// Whether a slot can be written: an absent object always; a present one
    /// when its head and its properties can be.
    pub open spec fn h4_h2a_encodable(&self, c: int32_point3d, requantized: int32_point3d, label_bits: nat) -> bool {
        match self.h4_h2a_mp_props {
            None => true,
            Some(mp) => self.h4_h2a_head_encodable(c, requantized) && mp.wire_ok(label_bits),
        }
    }
}

/// Reads the three position fields, x then y then z, each unsigned in its
/// own width.
pub(crate) fn read_point3d_efficient(bitstream: &mut c_bitstream_reader, c: &int32_point3d) -> (r: BLFLibResult<int32_point3d>)
    ensures
        final(bitstream).data() == old(bitstream).data(),
        r is Ok <==> counts_ok(*c) && old(bitstream).remaining().len() >= c.x + c.y + c.z
            && point_fits(old(bitstream).remaining(), *c),
        r matches Ok(p) ==> p == point_from(old(bitstream).remaining(), *c)
            && final(bitstream).remaining() == old(bitstream).remaining().skip(c.x + c.y + c.z),
{
    let ghost rem = bitstream.remaining();
    if c.x < 1 || c.x > 64 || c.y < 1 || c.y > 64 || c.z < 1 || c.z > 64 {
        return Err(BLFLibError::BitCountOutOfRange);
    }
    let ghost cx = c.x as int;
    let ghost cy = c.y as int;
    proof {
        if rem.len() >= c.x + c.y + c.z {
            assert(rem.skip(cx).take(cy) =~= rem.subrange(cx, cx + cy));
            assert(rem.skip(cx + cy).take(c.z as int) =~= rem.subrange(cx + cy, cx + cy + c.z));
            assert(rem.skip(cx).skip(cy) =~= rem.skip(cx + cy));
        }
    }
    let x = read_axis(bitstream, c.x as usize)?;
    let y = read_axis(bitstream, c.y as usize)?;
    let z = read_axis(bitstream, c.z as usize)?;
    proof {
        assert(rem.skip(cx + cy).skip(c.z as int) =~= rem.skip(cx + cy + c.z));
    }
    Ok(int32_point3d { x, y, z })
}

/// Reads one position field into a 32-bit signed value.
fn read_axis(bitstream: &mut c_bitstream_reader, n: usize) -> (r: BLFLibResult<i32>)
    requires
        1 <= n <= 64,
    ensures
        final(bitstream).data() == old(bitstream).data(),
        r is Ok <==> old(bitstream).remaining().len() >= n && fits_i32_field(old(bitstream).remaining(), 0, n as int),
        r matches Ok(v) ==> v == field_at(old(bitstream).remaining(), 0, n as int)
            && final(bitstream).remaining() == old(bitstream).remaining().skip(n as int),
{
    let ghost rem = bitstream.remaining();
    let v = bitstream.read_unnamed_integer(n)?;
    assert(rem.take(n as int) =~= rem.subrange(0, n as int));
    if v >= 0x8000_0000 {
        return Err(BLFLibError::ValueOutOfRange);
    }
    Ok(v as i32)
}

/// Reads the 16 bits after the exists bit: the 2-bit flags, the quota index
/// in 8 bits and the variant index in 5 (each less one), the in-bounds bit.
fn read_slot_head(bitstream: &mut c_bitstream_reader) -> (r: BLFLibResult<(u16, i64, i64, bool)>)
    ensures
        final(bitstream).data() == old(bitstream).data(),
        r is Ok <==> old(bitstream).remaining().len() >= 16,
        r matches Ok(v) ==> v.0 == field_at(old(bitstream).remaining(), 0, 2)
            && v.1 == field_at(old(bitstream).remaining(), 2, 8) - 1
            && v.2 == field_at(old(bitstream).remaining(), 10, 5) - 1
            && v.3 == old(bitstream).remaining()[15]
            && final(bitstream).remaining() == old(bitstream).remaining().skip(16),
{
    let ghost rem = bitstream.remaining();
    proof {
        lemma2_to64();
        lemma_value_of_bound(rem.skip(2).take(8));
        lemma_value_of_bound(rem.skip(10).take(5));
    }
    let flags = bitstream.read_unnamed_integer(2)? as u16;
    let quota = bitstream.read_index::<256>("variant-quota-index", 8)?;
    let variant = bitstream.read_index::<32>("variant-index", 5)?;
    let in_bounds = bitstream.read_bool("point-in-initial-bounds")?;
    assert(rem.take(2) =~= rem.subrange(0, 2));
    Ok((flags, quota, variant, in_bounds))
}

/// Reads the axes: an "is default" bit, the 14-bit up rotation, then the
/// 20-bit forward angle unless default.
fn read_axes_h4_h2a(bitstream: &mut c_bitstream_reader) -> (r: BLFLibResult<H4H2AAxes>)
    ensures
        final(bitstream).data() == old(bitstream).data(),
        r is Ok <==> old(bitstream).remaining().len() >= 1
            && old(bitstream).remaining().len() >= axes_len(old(bitstream).remaining()),
        r matches Ok(x) ==> x == axes_from(old(bitstream).remaining())
            && final(bitstream).remaining() == old(bitstream).remaining().skip(axes_len(old(bitstream).remaining()) as int),
{
    let ghost rem = bitstream.remaining();
    proof { lemma2_to64(); }
    let is_default = bitstream.read_unnamed_bool()?;
    let up_rotation_raw = bitstream.read_unnamed_integer(14)? as u32;
    let forward_angle_raw: u32 = if is_default {
        0
    } else {
        bitstream.read_unnamed_integer(20)? as u32
    };
    Ok(H4H2AAxes { is_default, forward_angle_raw, up_rotation_raw })
}

/// Reads the 17 bits after the axes: the spawn-relative-to index in 10 bits
/// (less one), the 6-bit quantized extra and the extra bit.
fn read_slot_extras(bitstream: &mut c_bitstream_reader) -> (r: BLFLibResult<(i32, u8, bool)>)
    ensures
        final(bitstream).data() == old(bitstream).data(),
        r is Ok <==> old(bitstream).remaining().len() >= 17,
        r matches Ok(v) ==> v.0 == field_at(old(bitstream).remaining(), 0, 10) - 1
            && v.1 == field_at(old(bitstream).remaining(), 10, 6)
            && v.2 == old(bitstream).remaining()[16]
            && final(bitstream).remaining() == old(bitstream).remaining().skip(17),
{
    let ghost rem = bitstream.remaining();
    proof { lemma2_to64(); }
    let spawn = bitstream.read_unnamed_integer(10)? as i32 - 1;
    let extra_quantized = bitstream.read_unnamed_integer(6)? as u8;
    let extra_bool = bitstream.read_unnamed_bool()?;
    assert(rem.take(10) =~= rem.subrange(0, 10));
    Ok((spawn, extra_quantized, extra_bool))
}

impl s_variant_object_datum {
    /// Reads a Halo 4 or Halo 2 Anniversary variant object slot with
    /// per-axis position widths `per_axis_bit_counts` and a `label_bits`-bit
    /// label (10 for Halo 4, 11 for Halo 2 Anniversary). An absent object
    /// leaves the slot as it was. Fails when the bits run out, a width is not
    /// 1..=64, a position field does not fit 32 signed bits or the properties
    /// do not decode.
    #[verifier::spinoff_prover]
    #[verifier::rlimit(80)]
    pub fn decode_h4_h2a(&mut self, bitstream: &mut c_bitstream_reader, per_axis_bit_counts: &int32_point3d, label_bits: u32) -> (r: BLFLibResult)
        ensures
            final(bitstream).data() == old(bitstream).data(),
            r is Ok <==> Self::decodable_h4_h2a(old(bitstream).remaining(), *per_axis_bit_counts, label_bits as nat),
            r is Ok ==> Self::decodes_to_h4_h2a(old(bitstream).remaining(), *per_axis_bit_counts, label_bits as nat, *old(self), *final(self))
                && final(bitstream).remaining() == old(bitstream).remaining().skip(
                    Self::parse_len_h4_h2a(old(bitstream).remaining(), *per_axis_bit_counts, label_bits as nat) as int),
    {
        let ghost rem = bitstream.remaining();
        let ghost c = *per_axis_bit_counts;
        let exists = bitstream.read_bool("variant_object_exists")?;
        if !exists {
            return Ok(());
        }
        let (flags, quota, variant, in_bounds) = read_slot_head(bitstream)?;
        proof { if rem.len() >= 17 { assert(rem.skip(1).skip(16) =~= rem.skip(17)); } }
        let point = read_point3d_efficient(bitstream, per_axis_bit_counts)?;
        let ghost p = axes_offset(c);
        proof { assert(rem.skip(17).skip(p - 17) =~= rem.skip(p)); }
        let axes = read_axes_h4_h2a(bitstream)?;
        let ghost a = spawn_offset(rem, c);
        proof { assert(rem.skip(p).skip(a - p) =~= rem.skip(a)); }
        let (spawn, extra_quantized, extra_bool) = read_slot_extras(bitstream)?;
        proof { assert(rem.skip(a).skip(17) =~= rem.skip(a + 17)); }
        let mp = s_h4_h2a_mp_props::decode(bitstream, label_bits)?;
        self.flags = flags;
        self.variant_quota_index = quota as i32;
        self.variant_index = variant as i32;
        self.h4_h2a_position_in_bounds = Some(in_bounds);
        self.h4_h2a_position_raw = Some(point);
        self.h4_h2a_axes = Some(axes);
        self.spawn_relative_to = spawn;
        self.h4_h2a_extra_quantized_raw = Some(extra_quantized);
        self.h4_h2a_extra_bool = Some(extra_bool);
        self.h4_h2a_mp_props = Some(mp);
        Ok(())
    }
}

/// Writes the 16 bits after the exists bit.
fn write_slot_head(bitstream: &mut c_bitstream_writer, flags: u16, quota: i32, variant: i32, in_bounds: bool) -> (r: BLFLibResult)
    ensures
        r is Ok <==> flags < 4 && -1 <= quota < 255 && -1 <= variant < 31,
        r is Ok ==> final(bitstream)@ == old(bitstream)@ + bits_of(flags as nat, 2) + bits_of((quota + 1) as nat, 8)
            + bits_of((variant + 1) as nat, 5) + seq![in_bounds],
{
    proof { lemma2_to64(); }
    bitstream.write_integer(flags as u64, 2)?;
    bitstream.write_index::<256>(quota as i64, 8)?;
    bitstream.write_index::<32>(variant as i64, 5)?;
    bitstream.write_bool(in_bounds)?;
    Ok(())
}

/// Writes one position field, unsigned in `n` bits; a negative value does not fit.
fn write_axis(bitstream: &mut c_bitstream_writer, v: i32, n: i32) -> (r: BLFLibResult)
    requires
        axis_width_ok(n),
    ensures
        r is Ok <==> 0 <= v && fits_unsigned(v as int, n as nat),
        r is Ok ==> final(bitstream)@ == old(bitstream)@ + bits_of(v as nat, n as nat),
{
    if v < 0 {
        return Err(BLFLibError::ValueOutOfRange);
    }
    bitstream.write_integer(v as u64, n as usize)
}

/// Writes the three position fields, x then y then z, each in its width.
pub(crate) fn write_point3d_efficient(bitstream: &mut c_bitstream_writer, q: &int32_point3d, c: &int32_point3d) -> (r: BLFLibResult)
    ensures
        r is Ok <==> counts_ok(*c) && 0 <= q.x && fits_unsigned(q.x as int, c.x as nat)
            && 0 <= q.y && fits_unsigned(q.y as int, c.y as nat) && 0 <= q.z && fits_unsigned(q.z as int, c.z as nat),
        r is Ok ==> final(bitstream)@ == old(bitstream)@ + bits_of(q.x as nat, c.x as nat)
            + bits_of(q.y as nat, c.y as nat) + bits_of(q.z as nat, c.z as nat),
{
    if c.x < 1 || c.x > 64 || c.y < 1 || c.y > 64 || c.z < 1 || c.z > 64 {
        return Err(BLFLibError::BitCountOutOfRange);
    }
    write_axis(bitstream, q.x, c.x)?;
    write_axis(bitstream, q.y, c.y)?;
    write_axis(bitstream, q.z, c.z)?;
    Ok(())
}

/// Writes the axes: the "is default" bit, the 14-bit up rotation, then the
/// 20-bit forward angle unless default.
fn write_axes_h4_h2a(bitstream: &mut c_bitstream_writer, x: &H4H2AAxes) -> (r: BLFLibResult)
    ensures
        r is Ok <==> x.up_rotation_raw < 0x4000 && (!x.is_default ==> x.forward_angle_raw < 0x10_0000),
        r is Ok ==> final(bitstream)@ == old(bitstream)@ + seq![x.is_default] + bits_of(x.up_rotation_raw as nat, 14)
            + (if x.is_default { Seq::empty() } else { bits_of(x.forward_angle_raw as nat, 20) }),
{
    proof { lemma2_to64(); }
    bitstream.write_bool(x.is_default)?;
    bitstream.write_integer(x.up_rotation_raw as u64, 14)?;
    if !x.is_default {
        bitstream.write_integer(x.forward_angle_raw as u64, 20)?;
    } else {
        assert(bitstream@ =~= bitstream@ + Seq::<bool>::empty());
    }
    Ok(())
}

/// Writes the 17 bits after the axes.
fn write_slot_extras(bitstream: &mut c_bitstream_writer, spawn: i32, extra_quantized: u8, extra_bool: bool) -> (r: BLFLibResult)
    ensures
        r is Ok <==> -1 <= spawn < 1023 && extra_quantized < 64,
        r is Ok ==> final(bitstream)@ == old(bitstream)@ + bits_of((spawn + 1) as nat, 10)
            + bits_of(extra_quantized as nat, 6) + seq![extra_bool],
{
    proof { lemma2_to64(); }
    let biased: i64 = spawn as i64 + 1;
    if biased < 0 {
        return Err(BLFLibError::ValueOutOfRange);
    }
    bitstream.write_integer(biased as u64, 10)?;
    bitstream.write_integer(extra_quantized as u64, 6)?;
    bitstream.write_bool(extra_bool)?;
    Ok(())
}

impl s_variant_object_datum {
    /// Writes a Halo 4 or Halo 2 Anniversary variant object slot with
    /// per-axis position widths `per_axis_bit_counts` and a `label_bits`-bit
    /// label: a clear bit when the slot has no object properties; else a set
    /// bit, the head, the position read (or `requantized`, the position
    /// quantized afresh, when none was read), the axes read (or non-default
    /// zero axes), the extras (zero when none were read) and the properties.
    /// Fails when a field does not fit its width.
    #[verifier::spinoff_prover]
    #[verifier::rlimit(80)]
    pub fn encode_h4_h2a(&self, bitstream: &mut c_bitstream_writer, per_axis_bit_counts: &int32_point3d,
        requantized: &int32_point3d, label_bits: u32) -> (r: BLFLibResult)
        ensures
            r is Ok <==> self.h4_h2a_encodable(*per_axis_bit_counts, *requantized, label_bits as nat),
            r is Ok ==> final(bitstream)@ == old(bitstream)@ + self.h4_h2a_bits(*per_axis_bit_counts, *requantized, label_bits as nat),
    {
        let mp = match &self.h4_h2a_mp_props {
            None => {
                bitstream.write_bool(false)?;
                return Ok(());
            },
            Some(mp) => mp,
        };
        bitstream.write_bool(true)?;
        self.encode_h4_h2a_head(bitstream, per_axis_bit_counts, requantized)?;
        mp.encode(bitstream, label_bits)?;
        assert(bitstream@ =~= old(bitstream)@ + self.h4_h2a_bits(*per_axis_bit_counts, *requantized, label_bits as nat));
        Ok(())
    }

    #[verifier::spinoff_prover]
    #[verifier::rlimit(80)]
    fn encode_h4_h2a_head(&self, bitstream: &mut c_bitstream_writer, per_axis_bit_counts: &int32_point3d,
        requantized: &int32_point3d) -> (r: BLFLibResult)
        ensures
            r is Ok <==> self.h4_h2a_head_encodable(*per_axis_bit_counts, *requantized),
            r is Ok ==> final(bitstream)@ == old(bitstream)@ + self.h4_h2a_head_bits(*per_axis_bit_counts, *requantized),
    {
        let in_bounds = match self.h4_h2a_position_in_bounds {
            Some(b) => b,
            None => true,
        };
        write_slot_head(bitstream, self.flags, self.variant_quota_index, self.variant_index, in_bounds)?;
        let q = match &self.h4_h2a_position_raw {
            Some(q) => q,
            None => requantized,
        };
        write_point3d_efficient(bitstream, q, per_axis_bit_counts)?;
        let axes = match self.h4_h2a_axes {
            Some(x) => x,
            None => H4H2AAxes { is_default: false, forward_angle_raw: 0, up_rotation_raw: 0 },
        };
        write_axes_h4_h2a(bitstream, &axes)?;
        let extra_quantized: u8 = match self.h4_h2a_extra_quantized_raw {
            Some(v) => v,
            None => 0,
        };
        let extra_bool: bool = match self.h4_h2a_extra_bool {
            Some(b) => b,
            None => false,
        };
        assert(*q == self.written_position(*requantized));
        assert(axes == self.written_axes());
        write_slot_extras(bitstream, self.spawn_relative_to, extra_quantized, extra_bool)?;
        assert(bitstream@ =~= old(bitstream)@ + self.h4_h2a_head_bits(*per_axis_bit_counts, *requantized));
        Ok(())
    }
}

proof fn lemma_slot_head_fields(flags: u16, quota: i32, variant: i32, in_bounds: bool, tail: Seq<bool>)
    requires
        flags < 4,
        -1 <= quota < 255,
        -1 <= variant < 31,
    ensures ({
        let hb = bits_of(flags as nat, 2) + bits_of((quota + 1) as nat, 8) + bits_of((variant + 1) as nat, 5) + seq![in_bounds];
        let w = hb + tail;
        &&& hb.len() == 16
        &&& field_at(w, 0, 2) == flags
        &&& field_at(w, 2, 8) - 1 == quota
        &&& field_at(w, 10, 5) - 1 == variant
        &&& w[15] == in_bounds
        &&& w.skip(16) == tail
    }),
{
    lemma2_to64();
    lemma_unsigned_roundtrip(flags as nat, 2);
    lemma_unsigned_roundtrip((quota + 1) as nat, 8);
    lemma_unsigned_roundtrip((variant + 1) as nat, 5);
    let hb = bits_of(flags as nat, 2) + bits_of((quota + 1) as nat, 8) + bits_of((variant + 1) as nat, 5) + seq![in_bounds];
    let w = hb + tail;
    assert(w.subrange(0, 2) =~= bits_of(flags as nat, 2));
    assert(w.subrange(2, 10) =~= bits_of((quota + 1) as nat, 8));
    assert(w.subrange(10, 15) =~= bits_of((variant + 1) as nat, 5));
    assert(w.skip(16) =~= tail);
}

pub(crate) proof fn lemma_point_fields(q: int32_point3d, c: int32_point3d, tail: Seq<bool>)
    requires
        counts_ok(c),
        0 <= q.x && fits_unsigned(q.x as int, c.x as nat),
        0 <= q.y && fits_unsigned(q.y as int, c.y as nat),
        0 <= q.z && fits_unsigned(q.z as int, c.z as nat),
    ensures ({
        let pb = bits_of(q.x as nat, c.x as nat) + bits_of(q.y as nat, c.y as nat) + bits_of(q.z as nat, c.z as nat);
        let w = pb + tail;
        &&& pb.len() == c.x + c.y + c.z
        &&& point_fits(w, c)
        &&& point_from(w, c) == q
        &&& w.skip(c.x + c.y + c.z) == tail
    }),
{
    lemma_unsigned_roundtrip(q.x as nat, c.x as nat);
    lemma_unsigned_roundtrip(q.y as nat, c.y as nat);
    lemma_unsigned_roundtrip(q.z as nat, c.z as nat);
    let cx = c.x as int;
    let cy = c.y as int;
    let cz = c.z as int;
    let pb = bits_of(q.x as nat, c.x as nat) + bits_of(q.y as nat, c.y as nat) + bits_of(q.z as nat, c.z as nat);
    let w = pb + tail;
    assert(w.subrange(0, cx) =~= bits_of(q.x as nat, c.x as nat));
    assert(w.subrange(cx, cx + cy) =~= bits_of(q.y as nat, c.y as nat));
    assert(w.subrange(cx + cy, cx + cy + cz) =~= bits_of(q.z as nat, c.z as nat));
    assert(w.skip(cx + cy + cz) =~= tail);
}

proof fn lemma_axes_fields(x: H4H2AAxes, tail: Seq<bool>)
    requires
        x.up_rotation_raw < 0x4000,
        !x.is_default ==> x.forward_angle_raw < 0x10_0000,
        x.is_default ==> x.forward_angle_raw == 0,
    ensures ({
        let ab = seq![x.is_default] + bits_of(x.up_rotation_raw as nat, 14)
            + (if x.is_default { Seq::empty() } else { bits_of(x.forward_angle_raw as nat, 20) });
        let w = ab + tail;
        &&& ab.len() == axes_len(w)
        &&& axes_from(w) == x
        &&& w.skip(ab.len() as int) == tail
    }),
{
    lemma2_to64();
    lemma_unsigned_roundtrip(x.up_rotation_raw as nat, 14);
    let ab = seq![x.is_default] + bits_of(x.up_rotation_raw as nat, 14)
        + (if x.is_default { Seq::empty() } else { bits_of(x.forward_angle_raw as nat, 20) });
    let w = ab + tail;
    assert(w.subrange(1, 15) =~= bits_of(x.up_rotation_raw as nat, 14));
    if !x.is_default {
        lemma_unsigned_roundtrip(x.forward_angle_raw as nat, 20);
        assert(w.subrange(15, 35) =~= bits_of(x.forward_angle_raw as nat, 20));
    }
    assert(w.skip(ab.len() as int) =~= tail);
}

proof fn lemma_extras_fields(spawn: i32, extra_quantized: u8, extra_bool: bool, tail: Seq<bool>)
    requires
        -1 <= spawn < 1023,
        extra_quantized < 64,
    ensures ({
        let eb = bits_of((spawn + 1) as nat, 10) + bits_of(extra_quantized as nat, 6) + seq![extra_bool];
        let w = eb + tail;
        &&& eb.len() == 17
        &&& field_at(w, 0, 10) - 1 == spawn
        &&& field_at(w, 10, 6) == extra_quantized
        &&& w[16] == extra_bool
        &&& w.skip(17) == tail
    }),
{
    lemma2_to64();
    lemma_unsigned_roundtrip((spawn + 1) as nat, 10);
    lemma_unsigned_roundtrip(extra_quantized as nat, 6);
    let eb = bits_of((spawn + 1) as nat, 10) + bits_of(extra_quantized as nat, 6) + seq![extra_bool];
    let w = eb + tail;
    assert(w.subrange(0, 10) =~= bits_of((spawn + 1) as nat, 10));
    assert(w.subrange(10, 16) =~= bits_of(extra_quantized as nat, 6));
    assert(w.skip(17) =~= tail);
}

/// Whether a slot is one that decoding gives back as it is: no object, or
/// an object with every value the layout carries recorded, default axes with
/// a zero forward angle, and object properties whose tail is the one their
/// cached type calls for and whose boundary decoding gives back.
pub open spec fn slot_canonical(o: s_variant_object_datum) -> bool {
    match o.h4_h2a_mp_props {
        None => true,
        Some(mp) => {
            &&& o.h4_h2a_position_in_bounds is Some
            &&& o.h4_h2a_position_raw is Some
            &&& o.h4_h2a_axes matches Some(x) && (x.is_default ==> x.forward_angle_raw == 0)
            &&& o.h4_h2a_extra_quantized_raw is Some
            &&& o.h4_h2a_extra_bool is Some
            &&& tail_matches_type(mp.cached_type as nat, mp.tail)
            &&& (mp.boundary matches Some(b) ==> boundary_canonical(b))
        },
    }
}

/// What decoding the encoding of `o` gives over `prior`: `prior` for no
/// object, else `o` with the fields that the layout does not carry taken
/// from `prior`.
pub open spec fn slot_carried(o: s_variant_object_datum, prior: s_variant_object_datum) -> s_variant_object_datum {
    match o.h4_h2a_mp_props {
        None => prior,
        Some(_) => s_variant_object_datum {
            reuse_timeout: prior.reuse_timeout,
            object_datum_index: prior.object_datum_index,
            editor_object_index: prior.editor_object_index,
            multiplayer_game_object_properties: prior.multiplayer_game_object_properties,
            reach_position_raw: prior.reach_position_raw,
            reach_axes_raw: prior.reach_axes_raw,
            reach_decoded_exists: prior.reach_decoded_exists,
            ..o
        },
    }
}

proof fn lemma_slot_skips(hb: Seq<bool>, pb: Seq<bool>, ab: Seq<bool>, eb: Seq<bool>, mw: Seq<bool>, rest: Seq<bool>)
    requires
        hb.len() == 16,
    ensures ({
        let w = seq![true] + hb + pb + ab + eb + mw + rest;
        &&& w[0]
        &&& w.skip(1) == hb + (pb + ab + eb + mw + rest)
        &&& w.skip(17) == pb + (ab + eb + mw + rest)
        &&& w.skip(17 + pb.len() as int) == ab + (eb + mw + rest)
        &&& w.skip(17 + pb.len() as int + ab.len()) == eb + (mw + rest)
        &&& w.skip(17 + pb.len() as int + ab.len() + eb.len()) == mw + rest
    }),
{
    let w = seq![true] + hb + pb + ab + eb + mw + rest;
    assert(w.skip(1) =~= hb + (pb + ab + eb + mw + rest));
    assert(w.skip(17) =~= pb + (ab + eb + mw + rest));
    assert(w.skip(17 + pb.len() as int) =~= ab + (eb + mw + rest));
    assert(w.skip(17 + pb.len() as int + ab.len()) =~= eb + (mw + rest));
    assert(w.skip(17 + pb.len() as int + ab.len() + eb.len()) =~= mw + rest);
}

/// A Halo 4 or Halo 2 Anniversary slot's wire layout: the exists bit, then
/// the flags in 2 bits, the variant quota index plus one in 8 bits and the
/// variant index plus one in 5 bits, the in-bounds bit, the position in the
/// per-axis widths from bit 17, the axes, the spawn-relative index plus one
/// in 10 bits, the 6-bit extra and its flag, then the object properties.
/// Each field written is read back from its place.
#[verifier::spinoff_prover]
#[verifier::rlimit(100)]
pub proof fn lemma_slot_layout(o: s_variant_object_datum, c: int32_point3d, requantized: int32_point3d, label_bits: nat, rest: Seq<bool>)
    requires
        o.h4_h2a_encodable(c, requantized, label_bits),
        slot_canonical(o),
        o.h4_h2a_mp_props is Some,
    ensures ({
        let w = o.h4_h2a_bits(c, requantized, label_bits) + rest;
        let h = w.skip(1);
        let mp = o.h4_h2a_mp_props->0;
        let a = w.skip(spawn_offset(w, c));
        &&& w[0]
        &&& counts_ok(c)
        &&& w.len() > axes_offset(c)
        &&& w.len() >= props_offset(w, c)
        &&& point_fits(w.skip(17), c)
        &&& field_at(h, 0, 2) == o.flags
        &&& field_at(h, 2, 8) - 1 == o.variant_quota_index
        &&& field_at(h, 10, 5) - 1 == o.variant_index
        &&& h[15] == o.h4_h2a_position_in_bounds->0
        &&& point_from(w.skip(17), c) == o.h4_h2a_position_raw->0
        &&& axes_from(w.skip(axes_offset(c))) == o.h4_h2a_axes->0
        &&& field_at(a, 0, 10) - 1 == o.spawn_relative_to
        &&& field_at(a, 10, 6) == o.h4_h2a_extra_quantized_raw->0
        &&& a[16] == o.h4_h2a_extra_bool->0
        &&& w.skip(props_offset(w, c)) == mp.wire_bits(label_bits) + rest
        &&& props_offset(w, c) + mp.wire_bits(label_bits).len() == o.h4_h2a_bits(c, requantized, label_bits).len()
    }),
{
    let mp = o.h4_h2a_mp_props->0;
    let bits = o.h4_h2a_bits(c, requantized, label_bits);
    let w = bits + rest;
    let q = o.h4_h2a_position_raw->0;
    let x = o.h4_h2a_axes->0;
    let ib = o.h4_h2a_position_in_bounds->0;
    let eq = o.h4_h2a_extra_quantized_raw->0;
    let ebit = o.h4_h2a_extra_bool->0;
    let hb = bits_of(o.flags as nat, 2) + bits_of((o.variant_quota_index + 1) as nat, 8)
        + bits_of((o.variant_index + 1) as nat, 5) + seq![ib];
    let pb = bits_of(q.x as nat, c.x as nat) + bits_of(q.y as nat, c.y as nat) + bits_of(q.z as nat, c.z as nat);
    let ab = seq![x.is_default] + bits_of(x.up_rotation_raw as nat, 14)
        + (if x.is_default { Seq::empty() } else { bits_of(x.forward_angle_raw as nat, 20) });
    let eb = bits_of((o.spawn_relative_to + 1) as nat, 10) + bits_of(eq as nat, 6) + seq![ebit];
    let mw = mp.wire_bits(label_bits);
    assert(o.h4_h2a_head_bits(c, requantized) =~= hb + pb + ab + eb);
    assert(w =~= seq![true] + hb + pb + ab + eb + mw + rest);
    lemma_slot_head_fields(o.flags, o.variant_quota_index, o.variant_index, ib, pb + ab + eb + mw + rest);
    lemma_slot_skips(hb, pb, ab, eb, mw, rest);
    lemma_point_fields(q, c, ab + eb + mw + rest);
    lemma_axes_fields(x, eb + mw + rest);
    lemma_extras_fields(o.spawn_relative_to, eq, ebit, mw + rest);
    assert(pb + ab + eb + mw + rest =~= pb + (ab + eb + mw + rest));
    assert(ab + eb + mw + rest =~= ab + (eb + mw + rest));
}

/// Writing a slot with `encode_h4_h2a` and reading the bits back with
/// `decode_h4_h2a`, with the same per-axis widths and label width, succeeds,
/// consumes exactly the bits written, and gives the slot back (the fields
/// that the layout does not carry keep their prior value), whatever follows
/// the bits and whichever value `decode_h4_h2a`'s contract allows.
#[verifier::spinoff_prover]
#[verifier::rlimit(80)]
pub proof fn lemma_h4_h2a_slot_roundtrip(o: s_variant_object_datum, c: int32_point3d, requantized: int32_point3d,
    label_bits: nat, prior: s_variant_object_datum, rest: Seq<bool>, d: s_variant_object_datum)
    requires
        o.h4_h2a_encodable(c, requantized, label_bits),
        slot_canonical(o),
        s_variant_object_datum::decodes_to_h4_h2a(o.h4_h2a_bits(c, requantized, label_bits) + rest, c, label_bits, prior, d),
    ensures
        s_variant_object_datum::decodable_h4_h2a(o.h4_h2a_bits(c, requantized, label_bits) + rest, c, label_bits),
        s_variant_object_datum::parse_len_h4_h2a(o.h4_h2a_bits(c, requantized, label_bits) + rest, c, label_bits)
            == o.h4_h2a_bits(c, requantized, label_bits).len(),
        d == slot_carried(o, prior),
        slot_carried(o, o) == o,
{
    let bits = o.h4_h2a_bits(c, requantized, label_bits);
    let w = bits + rest;
    match o.h4_h2a_mp_props {
        None => {
            assert(w[0] == false);
        },
        Some(mp) => {
            lemma_slot_layout(o, c, requantized, label_bits, rest);
            assert(w.skip(props_offset(w, c)) == mp.wire_bits(label_bits) + rest);
            lemma_props_write_then_read(mp, label_bits, rest, d.h4_h2a_mp_props->0);
            assert(d == slot_carried(o, prior));
        },
    }
}

/// The Reach axes at the front of `bits`: the "up is global" bit, the 20-bit
/// up quantization unless global (0 then), then the 14-bit forward angle.
pub open spec fn reach_axes_from(bits: Seq<bool>) -> ReachAxesRaw {
    ReachAxesRaw {
        up_is_global: bits[0],
        raw_up_quantization: if bits[0] { 0 } else { field_at(bits, 1, 20) as u32 },
        raw_forward_angle: if bits[0] { field_at(bits, 1, 14) as u32 } else { field_at(bits, 21, 14) as u32 },
    }
}

/// The number of bits of the Reach axes at the front of `bits`.
pub open spec fn reach_axes_len(bits: Seq<bool>) -> nat {
    if bits[0] { 15 } else { 35 }
}

/// The offset of the Reach spawn-relative-to field.
pub open spec fn reach_spawn_offset(bits: Seq<bool>, c: int32_point3d) -> int {
    axes_offset(c) + reach_axes_len(bits.skip(axes_offset(c)))
}

fn read_reach_axes(bitstream: &mut c_bitstream_reader) -> (r: BLFLibResult<ReachAxesRaw>)
    ensures
        final(bitstream).data() == old(bitstream).data(),
        r is Ok <==> old(bitstream).remaining().len() >= 1
            && old(bitstream).remaining().len() >= reach_axes_len(old(bitstream).remaining()),
        r matches Ok(x) ==> x == reach_axes_from(old(bitstream).remaining())
            && final(bitstream).remaining() == old(bitstream).remaining().skip(reach_axes_len(old(bitstream).remaining()) as int),
{
    let ghost rem = bitstream.remaining();
    proof { lemma2_to64(); }
    let up_is_global = bitstream.read_unnamed_bool()?;
    let raw_up_quantization: u32 = if up_is_global {
        0
    } else {
        bitstream.read_unnamed_integer(20)? as u32
    };
    let raw_forward_angle = bitstream.read_unnamed_integer(14)? as u32;
    Ok(ReachAxesRaw { up_is_global, raw_up_quantization, raw_forward_angle })
}

fn write_reach_axes(bitstream: &mut c_bitstream_writer, x: &ReachAxesRaw) -> (r: BLFLibResult)
    ensures
        r is Ok <==> (!x.up_is_global ==> x.raw_up_quantization < 0x10_0000) && x.raw_forward_angle < 0x4000,
        r is Ok ==> final(bitstream)@ == old(bitstream)@ + seq![x.up_is_global]
            + (if x.up_is_global { Seq::empty() } else { bits_of(x.raw_up_quantization as nat, 20) })
            + bits_of(x.raw_forward_angle as nat, 14),
{
    proof { lemma2_to64(); }
    bitstream.write_bool(x.up_is_global)?;
    if !x.up_is_global {
        bitstream.write_integer(x.raw_up_quantization as u64, 20)?;
    } else {
        assert(bitstream@ =~= bitstream@ + Seq::<bool>::empty());
    }
    bitstream.write_integer(x.raw_forward_angle as u64, 14)?;
    Ok(())
}

impl s_variant_object_datum {
    /// Whether decoding a Reach slot from the front of `bits` with per-axis
    /// widths `c` succeeds: the exists bit is there, and for a present object
    /// the bits are there, the position's in-bounds bit is set, the widths are
    /// valid, each position field fits 32 signed bits and the properties
    /// decode.
    pub open spec fn decodable_reach(bits: Seq<bool>, c: int32_point3d) -> bool {
        &&& bits.len() >= 1
        &&& bits[0] ==> {
            &&& bits.len() >= 17
            &&& bits[16]
            &&& counts_ok(c)
            &&& bits.len() > axes_offset(c)
            &&& point_fits(bits.skip(17), c)
            &&& bits.len() >= reach_spawn_offset(bits, c) + 10
            &&& s_variant_multiplayer_object_properties_definition::decodable(bits.skip(reach_spawn_offset(bits, c) + 10))
        }
    }

    /// The number of bits decoding a Reach slot takes.
    pub open spec fn parse_len_reach(bits: Seq<bool>, c: int32_point3d) -> nat {
        if !bits[0] {
            1
        } else {
            (reach_spawn_offset(bits, c) + 10 + s_variant_multiplayer_object_properties_definition::parse_len(
                bits.skip(reach_spawn_offset(bits, c) + 10))) as nat
        }
    }

    /// What decoding a Reach slot from the front of `bits` over `prior`
    /// gives: `prior` for an absent object, else `prior` with every field the
    /// layout carries set from the bits and the object marked present.
    pub open spec fn parse_reach(bits: Seq<bool>, c: int32_point3d, prior: Self) -> Self {
        if !bits[0] {
            prior
        } else {
            let h = bits.skip(1);
            let a = reach_spawn_offset(bits, c);
            s_variant_object_datum {
                flags: field_at(h, 0, 2) as u16,
                variant_quota_index: (field_at(h, 2, 8) - 1) as i32,
                variant_index: (field_at(h, 10, 5) - 1) as i32,
                reach_position_raw: Some(point_from(bits.skip(17), c)),
                reach_axes_raw: Some(reach_axes_from(bits.skip(axes_offset(c)))),
                spawn_relative_to: (field_at(bits.skip(a), 0, 10) - 1) as i32,
                multiplayer_game_object_properties: s_variant_multiplayer_object_properties_definition::parse(
                    bits.skip(a + 10), prior.multiplayer_game_object_properties),
                reach_decoded_exists: Some(true),
                ..prior
            }
        }
    }

    /// Reads a Reach variant object slot with per-axis position widths
    /// `per_axis_bit_counts`. An absent object leaves the slot as it was.
    /// Fails when the bits run out, the position lies outside the world
    /// bounds, a width is not 1..=64 or a position field does not fit 32
    /// signed bits.
    #[verifier::spinoff_prover]
    #[verifier::rlimit(80)]
    pub fn decode(&mut self, bitstream: &mut c_bitstream_reader, per_axis_bit_counts: &int32_point3d) -> (r: BLFLibResult)
        ensures
            final(bitstream).data() == old(bitstream).data(),
            r is Ok <==> Self::decodable_reach(old(bitstream).remaining(), *per_axis_bit_counts),
            r is Ok ==> *final(self) == Self::parse_reach(old(bitstream).remaining(), *per_axis_bit_counts, *old(self))
                && final(bitstream).remaining() == old(bitstream).remaining().skip(
                    Self::parse_len_reach(old(bitstream).remaining(), *per_axis_bit_counts) as int),
    {
        let ghost rem = bitstream.remaining();
        let ghost c = *per_axis_bit_counts;
        let exists = bitstream.read_bool("variant_object_exists")?;
        if !exists {
            return Ok(());
        }
        let (flags, quota, variant, in_bounds) = read_slot_head(bitstream)?;
        if !in_bounds {
            return Err(BLFLibError::Message(String::from_str(
                "Tried to read a position outside of world bounds! Fallback behaviour is only supported in-engine.",
            )));
        }
        proof { if rem.len() >= 17 { assert(rem.skip(1).skip(16) =~= rem.skip(17)); } }
        let point = read_point3d_efficient(bitstream, per_axis_bit_counts)?;
        let ghost p = axes_offset(c);
        proof { assert(rem.skip(17).skip(p - 17) =~= rem.skip(p)); }
        let axes = read_reach_axes(bitstream)?;
        let ghost a = reach_spawn_offset(rem, c);
        proof { assert(rem.skip(p).skip(a - p) =~= rem.skip(a)); }
        proof { lemma2_to64(); }
        let spawn = bitstream.read_unnamed_integer(10)? as i32 - 1;
        proof {
            assert(rem.skip(a).take(10) =~= rem.skip(a).subrange(0, 10));
            assert(rem.skip(a).skip(10) =~= rem.skip(a + 10));
        }
        let mut props = self.multiplayer_game_object_properties;
        props.decode(bitstream)?;
        self.flags = flags;
        self.variant_quota_index = quota as i32;
        self.variant_index = variant as i32;
        self.reach_position_raw = Some(point);
        self.reach_axes_raw = Some(axes);
        self.spawn_relative_to = spawn;
        self.multiplayer_game_object_properties = props;
        self.reach_decoded_exists = Some(true);
        Ok(())
    }

    /// Whether the slot counts as present when written as Reach: as read, or
    /// else when any of the low ten flag bits is set.
    pub open spec fn reach_exists(&self) -> bool {
        match self.reach_decoded_exists {
            Some(v) => v,
            None => self.flags & 0x3FF != 0,
        }
    }

    /// The bits of a present Reach slot after the exists bit, with the
    /// position and axes read or, failing those, the given ones.
    pub open spec fn reach_body_bits(&self, c: int32_point3d, requantized: int32_point3d, axes: ReachAxesRaw) -> Seq<bool> {
        let q = match self.reach_position_raw { Some(q) => q, None => requantized };
        let x = match self.reach_axes_raw { Some(x) => x, None => axes };
        bits_of(self.flags as nat, 2) + bits_of((self.variant_quota_index + 1) as nat, 8)
            + bits_of((self.variant_index + 1) as nat, 5) + seq![true]
            + bits_of(q.x as nat, c.x as nat) + bits_of(q.y as nat, c.y as nat) + bits_of(q.z as nat, c.z as nat)
            + seq![x.up_is_global]
            + (if x.up_is_global { Seq::empty() } else { bits_of(x.raw_up_quantization as nat, 20) })
            + bits_of(x.raw_forward_angle as nat, 14)
            + bits_of((self.spawn_relative_to + 1) as nat, 10)
            + self.multiplayer_game_object_properties.wire_bits()
    }

    /// The encoding of a Reach slot: a clear bit when absent, else a set bit
    /// and the body.
    pub open spec fn reach_bits(&self, c: int32_point3d, requantized: int32_point3d, axes: ReachAxesRaw) -> Seq<bool> {
        if !self.reach_exists() {
            seq![false]
        } else {
            seq![true] + self.reach_body_bits(c, requantized, axes)
        }
    }

    /// Whether a Reach slot can be written: an absent one always; a present
    /// one when every field fits its width and the position is non-negative.
    pub open spec fn reach_encodable(&self, c: int32_point3d, requantized: int32_point3d, axes: ReachAxesRaw) -> bool {
        let q = match self.reach_position_raw { Some(q) => q, None => requantized };
        let x = match self.reach_axes_raw { Some(x) => x, None => axes };
        !self.reach_exists() || {
            &&& self.flags < 4
            &&& -1 <= self.variant_quota_index < 255
            &&& -1 <= self.variant_index < 31
            &&& counts_ok(c)
            &&& 0 <= q.x && fits_unsigned(q.x as int, c.x as nat)
            &&& 0 <= q.y && fits_unsigned(q.y as int, c.y as nat)
            &&& 0 <= q.z && fits_unsigned(q.z as int, c.z as nat)
            &&& !x.up_is_global ==> x.raw_up_quantization < 0x10_0000
            &&& x.raw_forward_angle < 0x4000
            &&& -1 <= self.spawn_relative_to < 1023
            &&& self.multiplayer_game_object_properties.wire_ok()
        }
    }

    #[verifier::spinoff_prover]
    #[verifier::rlimit(80)]
    fn encode_reach_body(&self, bitstream: &mut c_bitstream_writer, per_axis_bit_counts: &int32_point3d,
        requantized: &int32_point3d, axes: &ReachAxesRaw) -> (r: BLFLibResult)
        requires
            self.reach_exists(),
        ensures
            r is Ok <==> self.reach_encodable(*per_axis_bit_counts, *requantized, *axes),
            r is Ok ==> final(bitstream)@ == old(bitstream)@ + self.reach_body_bits(*per_axis_bit_counts, *requantized, *axes),
    {
        proof { lemma2_to64(); }
        write_slot_head(bitstream, self.flags, self.variant_quota_index, self.variant_index, true)?;
        let q = match &self.reach_position_raw {
            Some(q) => q,
            None => requantized,
        };
        write_point3d_efficient(bitstream, q, per_axis_bit_counts)?;
        let x = match &self.reach_axes_raw {
            Some(x) => x,
            None => axes,
        };
        write_reach_axes(bitstream, x)?;
        let biased: i64 = self.spawn_relative_to as i64 + 1;
        if biased < 0 {
            return Err(BLFLibError::ValueOutOfRange);
        }
        bitstream.write_integer(biased as u64, 10)?;
        self.multiplayer_game_object_properties.encode(bitstream)?;
        assert(bitstream@ =~= old(bitstream)@ + self.reach_body_bits(*per_axis_bit_counts, *requantized, *axes));
        Ok(())
    }

    /// Writes a Reach variant object slot with per-axis position widths
    /// `per_axis_bit_counts`: a clear bit when the slot is absent; else a set
    /// bit, the head, a set in-bounds bit and the position read (or
    /// `requantized`, the position quantized afresh), the axes read (or
    /// `axes`), the spawn-relative-to index plus one and the properties.
    /// Fails when a field does not fit its width.
    pub fn encode(&self, bitstream: &mut c_bitstream_writer, per_axis_bit_counts: &int32_point3d,
        requantized: &int32_point3d, axes: &ReachAxesRaw) -> (r: BLFLibResult)
        ensures
            r is Ok <==> self.reach_encodable(*per_axis_bit_counts, *requantized, *axes),
            r is Ok ==> final(bitstream)@ == old(bitstream)@ + self.reach_bits(*per_axis_bit_counts, *requantized, *axes),
    {
        let exists = match self.reach_decoded_exists {
            Some(v) => v,
            None => self.flags & 0x3FF != 0,
        };
        if !exists {
            bitstream.write_bool(false)?;
            return Ok(());
        }
        bitstream.write_bool(true)?;
        self.encode_reach_body(bitstream, per_axis_bit_counts, requantized, axes)?;
        assert(bitstream@ =~= old(bitstream)@ + self.reach_bits(*per_axis_bit_counts, *requantized, *axes));
        Ok(())
    }
}

proof fn lemma_reach_axes_fields(x: ReachAxesRaw, tail: Seq<bool>)
    requires
        !x.up_is_global ==> x.raw_up_quantization < 0x10_0000,
        x.up_is_global ==> x.raw_up_quantization == 0,
        x.raw_forward_angle < 0x4000,
    ensures ({
        let ab = seq![x.up_is_global]
            + (if x.up_is_global { Seq::empty() } else { bits_of(x.raw_up_quantization as nat, 20) })
            + bits_of(x.raw_forward_angle as nat, 14);
        let w = ab + tail;
        &&& ab.len() == reach_axes_len(w)
        &&& reach_axes_from(w) == x
        &&& w.skip(ab.len() as int) == tail
    }),
{
    lemma2_to64();
    lemma_unsigned_roundtrip(x.raw_forward_angle as nat, 14);
    let ab = seq![x.up_is_global]
        + (if x.up_is_global { Seq::empty() } else { bits_of(x.raw_up_quantization as nat, 20) })
        + bits_of(x.raw_forward_angle as nat, 14);
    let w = ab + tail;
    if x.up_is_global {
        assert(w.subrange(1, 15) =~= bits_of(x.raw_forward_angle as nat, 14));
    } else {
        lemma_unsigned_roundtrip(x.raw_up_quantization as nat, 20);
        assert(w.subrange(1, 21) =~= bits_of(x.raw_up_quantization as nat, 20));
        assert(w.subrange(21, 35) =~= bits_of(x.raw_forward_angle as nat, 14));
    }
    assert(w.skip(ab.len() as int) =~= tail);
}

/// Whether a slot is one that a Reach decode gives back as it is: absent,
/// or present with its position and axes recorded, global up axes with a zero
/// up quantization, and a boundary that decoding gives back.
pub open spec fn reach_slot_canonical(o: s_variant_object_datum) -> bool {
    o.reach_exists() ==> {
        &&& o.reach_position_raw is Some
        &&& o.reach_axes_raw matches Some(x) && (x.up_is_global ==> x.raw_up_quantization == 0)
        &&& (o.multiplayer_game_object_properties.boundary matches Some(b) ==> boundary_canonical(b))
    }
}

/// What a Reach decode of the encoding of `o` gives over `prior`: `prior`
/// for an absent slot, else `o` marked present, with the fields that the
/// Reach layout does not carry taken from `prior`.
pub open spec fn reach_slot_carried(o: s_variant_object_datum, prior: s_variant_object_datum) -> s_variant_object_datum {
    if !o.reach_exists() {
        prior
    } else {
        s_variant_object_datum {
            reuse_timeout: prior.reuse_timeout,
            object_datum_index: prior.object_datum_index,
            editor_object_index: prior.editor_object_index,
            h4_h2a_position_in_bounds: prior.h4_h2a_position_in_bounds,
            h4_h2a_position_raw: prior.h4_h2a_position_raw,
            h4_h2a_axes: prior.h4_h2a_axes,
            h4_h2a_extra_quantized_raw: prior.h4_h2a_extra_quantized_raw,
            h4_h2a_extra_bool: prior.h4_h2a_extra_bool,
            h4_h2a_mp_props: prior.h4_h2a_mp_props,
            multiplayer_game_object_properties: props_carried(o.multiplayer_game_object_properties,
                prior.multiplayer_game_object_properties),
            reach_decoded_exists: Some(true),
            ..o
        }
    }
}

/// A Reach slot's wire layout: the exists bit, then the flags in 2 bits,
/// the variant quota index plus one in 8 bits and the variant index plus one
/// in 5 bits, a set bit, the position in the per-axis widths from bit 17,
/// the axes, the spawn-relative index plus one in 10 bits, then the object
/// properties. Each field written is read back from its place.
#[verifier::spinoff_prover]
#[verifier::rlimit(100)]
pub proof fn lemma_reach_slot_layout(o: s_variant_object_datum, c: int32_point3d, requantized: int32_point3d,
    axes: ReachAxesRaw, rest: Seq<bool>)
    requires
        o.reach_encodable(c, requantized, axes),
        reach_slot_canonical(o),
        o.reach_exists(),
    ensures ({
        let w = o.reach_bits(c, requantized, axes) + rest;
        let h = w.skip(1);
        let a = reach_spawn_offset(w, c);
        let mw = o.multiplayer_game_object_properties.wire_bits();
        &&& w[0]
        &&& w.len() >= 17
        &&& w[16]
        &&& counts_ok(c)
        &&& w.len() > axes_offset(c)
        &&& point_fits(w.skip(17), c)
        &&& w.len() >= a + 10
        &&& field_at(h, 0, 2) == o.flags
        &&& field_at(h, 2, 8) - 1 == o.variant_quota_index
        &&& field_at(h, 10, 5) - 1 == o.variant_index
        &&& point_from(w.skip(17), c) == o.reach_position_raw->0
        &&& reach_axes_from(w.skip(axes_offset(c))) == o.reach_axes_raw->0
        &&& field_at(w.skip(a), 0, 10) - 1 == o.spawn_relative_to
        &&& w.skip(a + 10) == mw + rest
        &&& a + 10 + mw.len() == o.reach_bits(c, requantized, axes).len()
    }),
{
    lemma2_to64();
    let q = o.reach_position_raw->0;
    let x = o.reach_axes_raw->0;
    let hb = bits_of(o.flags as nat, 2) + bits_of((o.variant_quota_index + 1) as nat, 8)
        + bits_of((o.variant_index + 1) as nat, 5) + seq![true];
    let pb = bits_of(q.x as nat, c.x as nat) + bits_of(q.y as nat, c.y as nat) + bits_of(q.z as nat, c.z as nat);
    let ab = seq![x.up_is_global]
        + (if x.up_is_global { Seq::empty() } else { bits_of(x.raw_up_quantization as nat, 20) })
        + bits_of(x.raw_forward_angle as nat, 14);
    let eb = bits_of((o.spawn_relative_to + 1) as nat, 10);
    let mw = o.multiplayer_game_object_properties.wire_bits();
    let w = o.reach_bits(c, requantized, axes) + rest;
    assert(o.reach_body_bits(c, requantized, axes) =~= hb + pb + ab + eb + mw);
    assert(w =~= seq![true] + hb + pb + ab + eb + mw + rest);
    lemma_slot_head_fields(o.flags, o.variant_quota_index, o.variant_index, true, pb + ab + eb + mw + rest);
    lemma_slot_skips(hb, pb, ab, eb, mw, rest);
    lemma_point_fields(q, c, ab + eb + mw + rest);
    lemma_reach_axes_fields(x, eb + mw + rest);
    lemma_unsigned_roundtrip((o.spawn_relative_to + 1) as nat, 10);
    assert(pb + ab + eb + mw + rest =~= pb + (ab + eb + mw + rest));
    assert(ab + eb + mw + rest =~= ab + (eb + mw + rest));
    let a = reach_spawn_offset(w, c);
    assert(w.skip(a) =~= eb + (mw + rest));
    assert(w.skip(a).subrange(0, 10) =~= eb);
    assert(w.skip(a + 10) =~= mw + rest);
}

/// Writing a slot with the Reach `encode` and reading the bits back with the
/// Reach `decode`, with the same per-axis widths, succeeds, consumes exactly
/// the bits written and gives the slot back, marked present, with the fields
/// that the Reach layout does not carry keeping their prior value; a slot
/// that was read as present comes back whole.
#[verifier::spinoff_prover]
#[verifier::rlimit(80)]
pub proof fn lemma_reach_slot_roundtrip(o: s_variant_object_datum, c: int32_point3d, requantized: int32_point3d,
    axes: ReachAxesRaw, prior: s_variant_object_datum, rest: Seq<bool>)
    requires
        o.reach_encodable(c, requantized, axes),
        reach_slot_canonical(o),
    ensures
        s_variant_object_datum::decodable_reach(o.reach_bits(c, requantized, axes) + rest, c),
        s_variant_object_datum::parse_len_reach(o.reach_bits(c, requantized, axes) + rest, c)
            == o.reach_bits(c, requantized, axes).len(),
        s_variant_object_datum::parse_reach(o.reach_bits(c, requantized, axes) + rest, c, prior)
            == reach_slot_carried(o, prior),
        o.reach_decoded_exists == Some(true) ==> reach_slot_carried(o, o) == o,
{
    let w = o.reach_bits(c, requantized, axes) + rest;
    let mp = o.multiplayer_game_object_properties;
    if o.reach_exists() {
        mp.lemma_roundtrip(prior.multiplayer_game_object_properties, rest);
        mp.lemma_roundtrip(mp, rest);
        lemma_reach_slot_layout(o, c, requantized, axes, rest);
        let a = reach_spawn_offset(w, c);
        assert(w.skip(a + 10) == mp.wire_bits() + rest);
        assert(s_variant_object_datum::parse_reach(w, c, prior) == reach_slot_carried(o, prior));
    } else {
        assert(w[0] == false);
    }
}

} // verus!
