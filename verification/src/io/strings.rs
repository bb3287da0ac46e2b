use vstd::prelude::*;
use vstd::arithmetic::power2::*;
use crate::io::bitstream::{
    c_bitstream_reader, zstring_bits, zstring_parse, byte_units, wide_units, lemma_zstring_parse_len,
    lemma_zstring_roundtrip,
};
use crate::result::BLFLibResult;

verus! {

/// Bytes from their units.
pub open spec fn units_to_bytes(units: Seq<nat>) -> Seq<u8> {
    units.map_values(|x: nat| x as u8)
}

/// UTF-16 units from their values.
pub open spec fn units_to_wide(units: Seq<nat>) -> Seq<u16> {
    units.map_values(|x: nat| x as u16)
}

pub proof fn lemma_bytes_from_units(v: Seq<u8>, units: Seq<nat>)
    requires
        byte_units(v) == units,
    ensures
        v == units_to_bytes(units),
{
    assert forall|i: int| 0 <= i < v.len() implies v[i] == units_to_bytes(units)[i] by {
        assert(byte_units(v)[i] == v[i] as nat);
    }
    assert(v =~= units_to_bytes(units));
}

pub proof fn lemma_wide_from_units(v: Seq<u16>, units: Seq<nat>)
    requires
        wide_units(v) == units,
    ensures
        v == units_to_wide(units),
{
    assert forall|i: int| 0 <= i < v.len() implies v[i] == units_to_wide(units)[i] by {
        assert(wide_units(v)[i] == v[i] as nat);
    }
    assert(v =~= units_to_wide(units));
}


/// Reading a NUL-bounded UTF-16 string of at most 128 units.
pub open spec fn parse_wide(bits: Seq<bool>) -> Option<(Seq<u16>, nat)> {
    match zstring_parse(bits, 16, 128) {
        None => None,
        Some(p) => Some((units_to_wide(p.0), p.1)),
    }
}


/// Reads a NUL-bounded UTF-16 string of at most 128 units.
pub fn read_wide(bitstream: &mut c_bitstream_reader) -> (r: BLFLibResult<Vec<u16>>)
    ensures
        final(bitstream).data() == old(bitstream).data(),
        match parse_wide(old(bitstream).remaining()) {
            None => r is Err,
            Some(p) => r matches Ok(v) && v@ == p.0
                && final(bitstream).remaining() == old(bitstream).remaining().skip(p.1 as int),
        },
{
    let ghost rem = bitstream.remaining();
    let v = bitstream.read_string_wchar(128)?;
    proof { lemma_wide_from_units(v@, (zstring_parse(rem, 16, 128)->0).0); }
    Ok(v)
}


pub proof fn lemma_wide_len(bits: Seq<bool>)
    ensures
        parse_wide(bits) matches Some(p) ==> p.1 <= bits.len(),
{
    lemma_zstring_parse_len(bits, 16, 128);
}


/// Whether a byte string holds no NUL, so that it reads back whole.
pub open spec fn no_nul_bytes(s: Seq<u8>) -> bool {
    forall|i: int| 0 <= i < s.len() ==> #[trigger] s[i] != 0
}

/// Whether a UTF-16 string holds no NUL unit, so that it reads back whole.
pub open spec fn no_nul_units(s: Seq<u16>) -> bool {
    forall|i: int| 0 <= i < s.len() ==> #[trigger] s[i] != 0
}

/// A byte string of at most 16 bytes with no NUL, written NUL-bounded in
/// 8-bit units, reads back as the same bytes, whatever follows it.
pub proof fn lemma_byte_string_roundtrip(name: Seq<u8>, rest: Seq<bool>)
    requires
        name.len() <= 16,
        no_nul_bytes(name),
    ensures
        zstring_parse(zstring_bits(byte_units(name), 8, 16) + rest, 8, 16)
            == Some((byte_units(name), zstring_bits(byte_units(name), 8, 16).len())),
        units_to_bytes(byte_units(name)) == name,
{
    lemma2_to64();
    assert forall|i: int| 0 <= i < byte_units(name).len() implies 0 < #[trigger] byte_units(name)[i] < pow2(8) by {
        assert(name[i] != 0);
    }
    lemma_zstring_roundtrip(byte_units(name), 8, 16, rest);
    assert(units_to_bytes(byte_units(name)) =~= name);
}

/// A UTF-16 string of at most 128 units with no NUL, written NUL-bounded in
/// 16-bit units, reads back as the same units, whatever follows it.
pub proof fn lemma_wide_roundtrip(s: Seq<u16>, rest: Seq<bool>)
    requires
        s.len() <= 128,
        no_nul_units(s),
    ensures
        parse_wide(zstring_bits(wide_units(s), 16, 128) + rest)
            == Some((s, zstring_bits(wide_units(s), 16, 128).len())),
{
    lemma2_to64();
    assert forall|i: int| 0 <= i < wide_units(s).len() implies 0 < #[trigger] wide_units(s)[i] < pow2(16) by {
        assert(s[i] != 0);
    }
    lemma_zstring_roundtrip(wide_units(s), 16, 128, rest);
    assert(units_to_wide(wide_units(s)) =~= s);
}


} // verus!
