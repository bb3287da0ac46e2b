//! The bits of a position in a simulation bitstream: an in-bounds bit, then,
//! for a position inside the world bounds, the quantized point as three
//! unsigned fields of the per-axis widths. The widths come from the world
//! bounds and the quantized point from the floating-point position; both are
//! taken here as integers. A position outside the bounds needs the game's
//! own data and is refused.

use vstd::prelude::*;
use vstd::string::StringExecFns;
use crate::io::bitstream::{c_bitstream_reader, c_bitstream_writer, bits_of, fits_unsigned, field_at, lemma_bits_of_len};
use crate::result::{BLFLibError, BLFLibResult};
use crate::blam::common::math::integer_math::int32_point3d;
use crate::blam::haloreach_mcc::v_untracked_25_08_16_1352::saved_games::variant_objects::{
    counts_ok, point_fits, point_from, read_point3d_efficient, write_point3d_efficient, lemma_point_fields,
};

verus! {

/// The error for a position read outside the world bounds.
pub open spec fn read_out_of_bounds_message() -> Seq<char> {
    "Tried to read a position outside of world bounds! Fallback behaviour is only supported in-engine."@
}

/// The error for a position written outside the world bounds.
pub open spec fn write_out_of_bounds_message() -> Seq<char> {
    "Tried to write a position outside of world bounds! Fallback behaviour is only supported in-engine."@
}

/// Whether `q` can be written in the per-axis widths `c`.
pub open spec fn point_writable(q: int32_point3d, c: int32_point3d) -> bool {
    &&& counts_ok(c)
    &&& 0 <= q.x && fits_unsigned(q.x as int, c.x as nat)
    &&& 0 <= q.y && fits_unsigned(q.y as int, c.y as nat)
    &&& 0 <= q.z && fits_unsigned(q.z as int, c.z as nat)
}

/// The bits of `q` in the per-axis widths `c`.
pub open spec fn point_bits(q: int32_point3d, c: int32_point3d) -> Seq<bool> {
    bits_of(q.x as nat, c.x as nat) + bits_of(q.y as nat, c.y as nat) + bits_of(q.z as nat, c.z as nat)
}

/// Reads a position and gives back its quantized point: the in-bounds bit,
/// then the point in the per-axis widths `per_axis_bit_counts`. A clear
/// in-bounds bit is an error, as is a width outside 1..=64, a field that does
/// not fit 32 signed bits, or running out of bits.
pub fn simulation_read_position_capture(bitstream: &mut c_bitstream_reader, per_axis_bit_counts: &int32_point3d) -> (r: BLFLibResult<int32_point3d>)
    ensures
        final(bitstream).data() == old(bitstream).data(),
        r is Ok <==> old(bitstream).remaining().len() >= 1 && old(bitstream).remaining()[0]
            && counts_ok(*per_axis_bit_counts)
            && old(bitstream).remaining().len() >= 1 + per_axis_bit_counts.x + per_axis_bit_counts.y + per_axis_bit_counts.z
            && point_fits(old(bitstream).remaining().skip(1), *per_axis_bit_counts),
        old(bitstream).remaining().len() >= 1 && !old(bitstream).remaining()[0]
            ==> (r matches Err(BLFLibError::Message(m)) && m@ == read_out_of_bounds_message()),
        r matches Ok(q) ==> q == point_from(old(bitstream).remaining().skip(1), *per_axis_bit_counts)
            && final(bitstream).remaining() == old(bitstream).remaining().skip(
                1 + per_axis_bit_counts.x + per_axis_bit_counts.y + per_axis_bit_counts.z),
{
    let ghost rem = bitstream.remaining();
    let in_bounds = bitstream.read_bool("point-in-initial-bounds")?;
    if !in_bounds {
        return Err(BLFLibError::Message(String::from_str(
            "Tried to read a position outside of world bounds! Fallback behaviour is only supported in-engine.",
        )));
    }
    let q = read_point3d_efficient(bitstream, per_axis_bit_counts)?;
    Ok(q)
}

/// Writes a position inside the world bounds from its quantized point `raw`:
/// a set in-bounds bit, then the point in the per-axis widths. Fails when a
/// width is outside 1..=64 or a field is negative or does not fit.
pub fn simulation_write_position_with_raw(bitstream: &mut c_bitstream_writer, raw_quantized: &int32_point3d, per_axis_bit_counts: &int32_point3d) -> (r: BLFLibResult)
    ensures
        r is Ok <==> point_writable(*raw_quantized, *per_axis_bit_counts),
        r is Ok ==> final(bitstream)@ == old(bitstream)@ + seq![true] + point_bits(*raw_quantized, *per_axis_bit_counts),
{
    bitstream.write_bool(true)?;
    write_point3d_efficient(bitstream, raw_quantized, per_axis_bit_counts)?;
    Ok(())
}

/// Writes a position: its in-bounds bit, then, for a position inside the
/// bounds, its quantized point in the per-axis widths. A position outside
/// the bounds is an error once its bit is written.
pub fn simulation_write_position(bitstream: &mut c_bitstream_writer, in_bounds: bool, quantized: &int32_point3d, per_axis_bit_counts: &int32_point3d) -> (r: BLFLibResult)
    ensures
        r is Ok <==> in_bounds && point_writable(*quantized, *per_axis_bit_counts),
        !in_bounds ==> (r matches Err(BLFLibError::Message(m)) && m@ == write_out_of_bounds_message()
            && final(bitstream)@ == old(bitstream)@.push(false)),
        r is Ok ==> final(bitstream)@ == old(bitstream)@ + seq![true] + point_bits(*quantized, *per_axis_bit_counts),
{
    bitstream.write_bool(in_bounds)?;
    if !in_bounds {
        return Err(BLFLibError::Message(String::from_str(
            "Tried to write a position outside of world bounds! Fallback behaviour is only supported in-engine.",
        )));
    }
    write_point3d_efficient(bitstream, quantized, per_axis_bit_counts)?;
    Ok(())
}

/// Reading back a position written from a quantized point, with the same
/// per-axis widths, succeeds and gives the point back, consuming exactly the
/// bits written, whatever follows them.
pub proof fn lemma_position_roundtrip(q: int32_point3d, c: int32_point3d, rest: Seq<bool>)
    requires
        point_writable(q, c),
    ensures ({
        let w = seq![true] + point_bits(q, c) + rest;
        &&& w.len() >= 1 && w[0]
        &&& w.len() >= 1 + c.x + c.y + c.z
        &&& point_fits(w.skip(1), c)
        &&& point_from(w.skip(1), c) == q
        &&& w.skip(1 + c.x + c.y + c.z) == rest
    }),
{
    let w = seq![true] + point_bits(q, c) + rest;
    lemma_point_fields(q, c, rest);
    assert(w.skip(1) =~= point_bits(q, c) + rest);
    assert(w.skip(1 + c.x + c.y + c.z) =~= rest);
}

/// A position's point, as the format lays it out: the x field first, in the
/// x width, then the y field, then the z field. Writing puts each axis there
/// and reading takes each axis from there.
pub proof fn lemma_position_layout(q: int32_point3d, c: int32_point3d, bits: Seq<bool>)
    requires
        counts_ok(c),
    ensures ({
        let w = point_bits(q, c);
        let cx = c.x as int;
        let cy = c.y as int;
        let cz = c.z as int;
        &&& w.len() == cx + cy + cz
        &&& w.subrange(0, cx) == bits_of(q.x as nat, c.x as nat)
        &&& w.subrange(cx, cx + cy) == bits_of(q.y as nat, c.y as nat)
        &&& w.subrange(cx + cy, cx + cy + cz) == bits_of(q.z as nat, c.z as nat)
    }),
    ({
        let p = point_from(bits, c);
        &&& p.x == field_at(bits, 0, c.x as int) as i32
        &&& p.y == field_at(bits, c.x as int, c.y as int) as i32
        &&& p.z == field_at(bits, c.x + c.y, c.z as int) as i32
    }),
{
    lemma_bits_of_len(q.x as nat, c.x as nat);
    lemma_bits_of_len(q.y as nat, c.y as nat);
    lemma_bits_of_len(q.z as nat, c.z as nat);
    let w = point_bits(q, c);
    let cx = c.x as int;
    let cy = c.y as int;
    let cz = c.z as int;
    assert(w.subrange(0, cx) =~= bits_of(q.x as nat, c.x as nat));
    assert(w.subrange(cx, cx + cy) =~= bits_of(q.y as nat, c.y as nat));
    assert(w.subrange(cx + cy, cx + cy + cz) =~= bits_of(q.z as nat, c.z as nat));
}

} // verus!
