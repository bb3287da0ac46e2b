use vstd::prelude::*;
use vstd::arithmetic::power2::*;
use crate::io::bitstream::{
    byte_units, c_bitstream_reader, c_bitstream_writer, field_at, group_bitstream_seq, lemma_bytes_roundtrip,
    lemma_unpack_push, lemma_units_bits_push, units_bits, unpack,
};
use crate::result::{BLFLibError, BLFLibResult};
use crate::scan::{chars_of, string_of};
use crate::blam::common::math::integer_math::int32_point3d;
use crate::blam::haloreach_mcc::v_untracked_25_08_16_1352::saved_games::variant_objects::{
    counts_ok, point_fits, point_from, read_point3d_efficient,
};

verus! {

broadcast use group_bitstream_seq;

/// The value the in-bounds helper reads from `bits`: -1 after a set first
/// bit, else the two bits that follow it.
pub open spec fn in_bounds_helper_value(bits: Seq<bool>) -> int {
    if bits[0] { -1 } else { field_at(bits, 1, 2) as int }
}

/// The number of bits the in-bounds helper consumes: 1 after a set first bit, else 3.
pub open spec fn in_bounds_helper_len(bits: Seq<bool>) -> nat {
    if bits[0] { 1 } else { 3 }
}

/// Reads the extra 1 or 3 bits that the Halo 2 Anniversary position decoder
/// reads after the in-bounds bit: -1 when the first bit is set, else the
/// 2-bit value that follows.
pub fn h4_h2a_position_in_bounds_helper(bitstream: &mut c_bitstream_reader) -> (r: BLFLibResult<i32>)
    ensures
        r is Ok <==> old(bitstream).remaining().len() >= 1
            && old(bitstream).remaining().len() >= in_bounds_helper_len(old(bitstream).remaining()),
        r matches Ok(v) ==> v == in_bounds_helper_value(old(bitstream).remaining())
            && final(bitstream).remaining() == old(bitstream).remaining().skip(
                in_bounds_helper_len(old(bitstream).remaining()) as int),
{
    let ghost rem = bitstream.remaining();
    let first_bit: bool = bitstream.read_unnamed_bool()?;
    if first_bit {
        Ok(-1)
    } else {
        proof { lemma2_to64(); }
        let value: i32 = bitstream.read_unnamed_integer(2)? as i32;
        Ok(value)
    }
}

/// The number of bits the Halo 4 and Halo 2 Anniversary axes take: 1 for
/// the default axes, else 1 + 20 + 14.
pub open spec fn axes_len(bits: Seq<bool>) -> nat {
    if bits[0] { 1 } else { 35 }
}

/// Skips a Halo 4 or Halo 2 Anniversary axes field: one "is default" bit,
/// then 20 + 14 bits unless it is set.
pub fn h4_h2a_read_axes_consume_bits(bitstream: &mut c_bitstream_reader) -> (r: BLFLibResult)
    ensures
        r is Ok <==> old(bitstream).remaining().len() >= 1
            && old(bitstream).remaining().len() >= axes_len(old(bitstream).remaining()),
        r is Ok ==> final(bitstream).remaining() == old(bitstream).remaining().skip(
            axes_len(old(bitstream).remaining()) as int),
{
    let ghost rem = bitstream.remaining();
    let is_default: bool = bitstream.read_unnamed_bool()?;
    if is_default {
        return Ok(());
    }
    let _forward_angle = bitstream.read_unnamed_integer(20)?;
    let _up_rotation_quantized = bitstream.read_unnamed_integer(14)?;
    Ok(())
}

/// The number of 16-bit boundary fields that follow a boundary shape.
pub open spec fn boundary_field_count(shape: nat) -> nat {
    if shape == 1 { 1 } else if shape == 2 { 3 } else if shape == 3 { 4 } else { 0 }
}

/// The number of tail bits that follow a cached type.
pub open spec fn mp_props_tail_len(cached_type: nat) -> nat {
    if cached_type == 0x20 {
        28
    } else if cached_type == 0x21 || cached_type == 0x22 {
        144
    } else if cached_type == 0x23 {
        40
    } else {
        0
    }
}

/// The offset of the cached type: after the shape and the boundary fields.
pub open spec fn mp_props_head_len(bits: Seq<bool>) -> nat {
    2 + 16 * boundary_field_count(field_at(bits, 0, 2))
}

/// The number of bits the Halo 2 Anniversary object properties take.
pub open spec fn mp_props_len(bits: Seq<bool>) -> nat {
    mp_props_head_len(bits) + 17 + mp_props_tail_len(field_at(bits, mp_props_head_len(bits) as int, 6))
}

/// Skips a Halo 2 Anniversary multiplayer object properties field: a 2-bit
/// shape, its 16-bit boundary fields, a 6-bit cached type, an 11-bit label
/// index and the cached-type-dependent tail: 4 + 8 + 16 bits for 0x20, nine
/// 16-bit fields for 0x21 and 0x22, ten 4-bit fields for 0x23, none otherwise.
pub fn h4_h2a_mp_object_properties_consume_bits(bitstream: &mut c_bitstream_reader) -> (r: BLFLibResult)
    ensures
        r is Ok <==> old(bitstream).remaining().len() >= 2
            && old(bitstream).remaining().len() >= mp_props_head_len(old(bitstream).remaining()) + 17
            && old(bitstream).remaining().len() >= mp_props_len(old(bitstream).remaining()),
        r is Ok ==> final(bitstream).remaining() == old(bitstream).remaining().skip(
            mp_props_len(old(bitstream).remaining()) as int),
{
    let ghost rem = bitstream.remaining();
    proof { lemma2_to64(); }
    let shape = bitstream.read_unnamed_integer(2)?;
    let boundary_field_count: u64 = match shape {
        1 => 1,
        2 => 3,
        3 => 4,
        _ => 0,
    };
    let mut i: u64 = 0;
    while i < boundary_field_count
        invariant
            rem == old(bitstream).remaining(),
            boundary_field_count == crate::blam::haloreach_mcc::v_untracked_25_08_16_1352::saved_games::scenario_map_variant_h4::boundary_field_count(field_at(rem, 0, 2)),
            i <= boundary_field_count,
            2 + 16 * i <= rem.len(),
            bitstream.remaining() == rem.skip(2 + 16 * i),
        decreases boundary_field_count - i,
    {
        let _field = bitstream.read_unnamed_integer(16)?;
        i = i + 1;
    }
    let ghost head: int = mp_props_head_len(rem) as int;
    assert(bitstream.remaining() == rem.skip(head));
    let cached_type = bitstream.read_unnamed_integer(6)?;
    let _label_index = bitstream.read_unnamed_integer(11)?;
    assert(bitstream.remaining() == rem.skip(head + 17));
    if cached_type == 0x20 {
        let _a = bitstream.read_unnamed_integer(4)?;
        let _b = bitstream.read_unnamed_integer(8)?;
        let _c = bitstream.read_unnamed_integer(16)?;
    } else if cached_type == 0x21 || cached_type == 0x22 {
        let mut k: u64 = 0;
        while k < 9
            invariant
                rem == old(bitstream).remaining(),
                head == mp_props_head_len(rem) as int,
                cached_type as nat == field_at(rem, head, 6),
                cached_type == 0x21 || cached_type == 0x22,
                k <= 9,
                head + 17 + 16 * k <= rem.len(),
                bitstream.remaining() == rem.skip(head + 17 + 16 * k),
            decreases 9 - k,
        {
            let _field = bitstream.read_unnamed_integer(16)?;
            k = k + 1;
        }
    } else if cached_type == 0x23 {
        let mut k: u64 = 0;
        while k < 10
            invariant
                rem == old(bitstream).remaining(),
                head == mp_props_head_len(rem) as int,
                cached_type as nat == field_at(rem, head, 6),
                cached_type == 0x23,
                k <= 10,
                head + 17 + 4 * k <= rem.len(),
                bitstream.remaining() == rem.skip(head + 17 + 4 * k),
            decreases 10 - k,
        {
            let _nibble = bitstream.read_unnamed_integer(4)?;
            k = k + 1;
        }
    }
    Ok(())
}

/// The `n` bytes of a fixed-length byte field at the front of `bits`.
pub open spec fn fixed_field(bits: Seq<bool>, n: nat) -> Seq<u8> {
    Seq::new(n, |i: int| field_at(bits, 8 * i, 8) as u8)
}

/// Reads a field of exactly `n` bytes, 8 bits each, with no terminator. When
/// the bits run out first, the whole bytes before that point are consumed
/// and the read fails.
pub fn read_fixed_ascii_raw(bitstream: &mut c_bitstream_reader, n: usize) -> (r: BLFLibResult<Vec<u8>>)
    ensures
        final(bitstream).data() == old(bitstream).data(),
        r is Ok <==> old(bitstream).remaining().len() >= 8 * n,
        r matches Ok(v) ==> v@ == fixed_field(old(bitstream).remaining(), n as nat)
            && final(bitstream).remaining() == old(bitstream).remaining().skip(8 * n),
        r matches Err(e) ==> e is EndOfStream && final(bitstream).remaining()
            == old(bitstream).remaining().skip((8 * (old(bitstream).remaining().len() / 8)) as int),
{
    let ghost start = bitstream.remaining();
    let mut bytes: Vec<u8> = Vec::new();
    let mut i: usize = 0;
    while i < n
        invariant
            i <= n,
            8 * i <= start.len(),
            bitstream.data() == old(bitstream).data(),
            start == old(bitstream).remaining(),
            bitstream.remaining() == start.skip(8 * i),
            bytes@ == fixed_field(start, i as nat),
        decreases n - i,
    {
        let ghost cur = bitstream.remaining();
        match bitstream.read_unnamed_integer(8) {
            Ok(b) => {
                assert(cur.take(8) =~= start.subrange(8 * i, 8 * i + 8));
                assert(cur.skip(8) =~= start.skip(8 * (i + 1)));
                bytes.push(b as u8);
                assert(bytes@ =~= fixed_field(start, (i + 1) as nat));
            },
            Err(_) => {
                assert(8 * (start.len() / 8) == 8 * i) by (nonlinear_arith)
                    requires start.len() - 8 * i < 8, 8 * i <= start.len();
                return Err(BLFLibError::EndOfStream);
            },
        }
        i = i + 1;
    }
    Ok(bytes)
}

/// Reads a field of exactly `n` bytes, each taken as the character of the
/// same code.
pub fn read_fixed_ascii(bitstream: &mut c_bitstream_reader, n: usize) -> (r: BLFLibResult<String>)
    ensures
        final(bitstream).data() == old(bitstream).data(),
        r is Ok <==> old(bitstream).remaining().len() >= 8 * n,
        r matches Ok(s) ==> s@ == fixed_field(old(bitstream).remaining(), n as nat).map_values(|b: u8| b as char)
            && final(bitstream).remaining() == old(bitstream).remaining().skip(8 * n),
        r matches Err(e) ==> e is EndOfStream && final(bitstream).remaining()
            == old(bitstream).remaining().skip((8 * (old(bitstream).remaining().len() / 8)) as int),
{
    let bytes = match read_fixed_ascii_raw(bitstream, n) {
        Ok(b) => b,
        Err(e) => {
            return Err(e);
        },
    };
    let mut chars: Vec<char> = Vec::new();
    let mut i: usize = 0;
    while i < bytes.len()
        invariant
            i <= bytes.len(),
            chars@ == bytes@.take(i as int).map_values(|b: u8| b as char),
        decreases bytes.len() - i,
    {
        chars.push(bytes[i] as char);
        assert(chars@ =~= bytes@.take(i + 1).map_values(|b: u8| b as char));
        i = i + 1;
    }
    assert(bytes@.take(bytes.len() as int) =~= bytes@);
    Ok(string_of(&chars))
}

/// The `n` bytes a fixed-length field holds for `b`: its first `n` bytes,
/// then zeros.
pub open spec fn fixed_raw_bytes(b: Seq<u8>, n: nat) -> Seq<u8> {
    Seq::new(n, |i: int| if i < b.len() { b[i] } else { 0u8 })
}

/// The `n` bytes a fixed-length field holds for the text `s`: the low byte
/// of the code of each of its first `n` characters, then zeros.
pub open spec fn fixed_ascii_bytes(s: Seq<char>, n: nat) -> Seq<u8> {
    fixed_raw_bytes(s.map_values(|c: char| ((c as u32) % 256) as u8), n)
}

/// Writes `n` bytes, 8 bits each: the first `n` bytes of `bytes`, then zeros.
pub fn write_fixed_ascii_raw(bitstream: &mut c_bitstream_writer, bytes: &[u8], n: usize) -> (r: BLFLibResult)
    ensures
        r is Ok,
        final(bitstream)@ == old(bitstream)@ + units_bits(byte_units(fixed_raw_bytes(bytes@, n as nat)), 8),
{
    let ghost target = fixed_raw_bytes(bytes@, n as nat);
    let mut i: usize = 0;
    assert(byte_units(target.take(0)) =~= Seq::<nat>::empty());
    assert(old(bitstream)@ + units_bits(Seq::<nat>::empty(), 8) =~= old(bitstream)@);
    while i < n
        invariant
            i <= n,
            target == fixed_raw_bytes(bytes@, n as nat),
            bitstream@ == old(bitstream)@ + units_bits(byte_units(target.take(i as int)), 8),
        decreases n - i,
    {
        let b: u8 = if i < bytes.len() { bytes[i] } else { 0 };
        assert(b == target[i as int]);
        proof {
            lemma2_to64();
        }
        match bitstream.write_integer(b as u64, 8) {
            Ok(()) => {},
            Err(e) => {
                assert(false);
                return Err(e);
            },
        }
        proof {
            lemma_units_bits_push(byte_units(target.take(i as int)), b as nat, 8);
            assert(byte_units(target.take(i as int)).push(b as nat) =~= byte_units(target.take(i + 1)));
        }
        i = i + 1;
    }
    assert(target.take(n as int) =~= target);
    Ok(())
}

/// Writes the text `s` as a field of exactly `n` bytes: the low byte of the
/// code of each of its first `n` characters, then zeros.
pub fn write_fixed_ascii(bitstream: &mut c_bitstream_writer, s: &str, n: usize) -> (r: BLFLibResult)
    ensures
        r is Ok,
        final(bitstream)@ == old(bitstream)@ + units_bits(byte_units(fixed_ascii_bytes(s@, n as nat)), 8),
{
    let chars = chars_of(s);
    let mut low: Vec<u8> = Vec::new();
    let mut i: usize = 0;
    while i < chars.len()
        invariant
            i <= chars.len(),
            low@ == chars@.take(i as int).map_values(|c: char| ((c as u32) % 256) as u8),
        decreases chars.len() - i,
    {
        low.push(((chars[i] as u32) % 256) as u8);
        assert(low@ =~= chars@.take(i + 1).map_values(|c: char| ((c as u32) % 256) as u8));
        i = i + 1;
    }
    assert(chars@.take(chars.len() as int) =~= chars@);
    write_fixed_ascii_raw(bitstream, low.as_slice(), n)
}

/// Bytes written 8 bits each are their unpacked bits.
pub proof fn lemma_byte_units_bits(bytes: Seq<u8>)
    ensures
        units_bits(byte_units(bytes), 8) == unpack(bytes),
    decreases bytes.len(),
{
    if bytes.len() == 0 {
        assert(byte_units(bytes) =~= Seq::<nat>::empty());
        assert(unpack(bytes) =~= Seq::<bool>::empty());
    } else {
        let init = bytes.drop_last();
        let b = bytes.last();
        lemma_byte_units_bits(init);
        lemma_units_bits_push(byte_units(init), b as nat, 8);
        lemma_unpack_push(init, b);
        assert(byte_units(init).push(b as nat) =~= byte_units(bytes));
        assert(init.push(b) =~= bytes);
    }
}

/// A fixed-length field written from `b` reads back as its `n` bytes: the
/// first `n` bytes of `b`, then zeros, whatever follows it.
pub proof fn lemma_fixed_field_roundtrip(b: Seq<u8>, n: nat, rest: Seq<bool>)
    ensures
        units_bits(byte_units(fixed_raw_bytes(b, n)), 8).len() == 8 * n,
        fixed_field(units_bits(byte_units(fixed_raw_bytes(b, n)), 8) + rest, n) == fixed_raw_bytes(b, n),
{
    let bytes = fixed_raw_bytes(b, n);
    let w = units_bits(byte_units(bytes), 8) + rest;
    lemma_byte_units_bits(bytes);
    assert(unpack(bytes).len() == 8 * n);
    assert(w.subrange(0, (8 * n) as int) =~= unpack(bytes));
    lemma_bytes_roundtrip(bytes, w, 0);
    assert forall|i: int| 0 <= i < n implies #[trigger] fixed_field(w, n)[i] == bytes[i] by {
        assert(bytes[i] == field_at(w, 0 + 8 * i, 8));
    }
    assert(fixed_field(w, n) =~= bytes);
}

/// Reads a Halo 4 or Halo 2 Anniversary position and gives back its in-bounds
/// bit and quantized point: unlike Reach, the point follows whatever the
/// in-bounds bit says, in the per-axis widths `per_axis_bit_counts`. Fails
/// when a width is outside 1..=64, a field does not fit 32 signed bits, or
/// the bits run out.
pub fn h4_h2a_simulation_read_position(bitstream: &mut c_bitstream_reader, per_axis_bit_counts: &int32_point3d) -> (r: BLFLibResult<(bool, int32_point3d)>)
    ensures
        final(bitstream).data() == old(bitstream).data(),
        r is Ok <==> old(bitstream).remaining().len() >= 1 && counts_ok(*per_axis_bit_counts)
            && old(bitstream).remaining().len() >= 1 + per_axis_bit_counts.x + per_axis_bit_counts.y + per_axis_bit_counts.z
            && point_fits(old(bitstream).remaining().skip(1), *per_axis_bit_counts),
        r matches Ok(v) ==> v.0 == old(bitstream).remaining()[0]
            && v.1 == point_from(old(bitstream).remaining().skip(1), *per_axis_bit_counts)
            && final(bitstream).remaining() == old(bitstream).remaining().skip(
                1 + per_axis_bit_counts.x + per_axis_bit_counts.y + per_axis_bit_counts.z),
{
    let in_bounds = bitstream.read_bool("point-in-initial-bounds")?;
    let q = read_point3d_efficient(bitstream, per_axis_bit_counts)?;
    Ok((in_bounds, q))
}

} // verus!
