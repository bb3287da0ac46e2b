//! Fixed-width unsigned integers as bytes, in either byte order.

use vstd::prelude::*;
use crate::blam::common::memory::data_compress::e_bitstream_byte_order;

verus! {

/// 256 to the power `n`.
pub open spec fn pow256(n: nat) -> nat
    decreases n,
{
    if n == 0 { 1 } else { 256 * pow256((n - 1) as nat) }
}

/// The value of bytes read least significant first.
pub open spec fn le_value(b: Seq<u8>) -> nat
    decreases b.len(),
{
    if b.len() == 0 { 0 } else { (b[0] + 256 * le_value(b.drop_first())) as nat }
}

/// The value of bytes read most significant first.
pub open spec fn be_value(b: Seq<u8>) -> nat
    decreases b.len(),
{
    if b.len() == 0 { 0 } else { (256 * be_value(b.drop_last()) + b.last()) as nat }
}

/// The `n` low bytes of `v`, least significant first.
pub open spec fn le_bytes(v: nat, n: nat) -> Seq<u8>
    decreases n,
{
    if n == 0 { seq![] } else { seq![(v % 256) as u8] + le_bytes(v / 256, (n - 1) as nat) }
}

/// The `n` low bytes of `v`, most significant first.
pub open spec fn be_bytes(v: nat, n: nat) -> Seq<u8>
    decreases n,
{
    if n == 0 { seq![] } else { be_bytes(v / 256, (n - 1) as nat).push((v % 256) as u8) }
}

/// The value of bytes in the given byte order.
pub open spec fn value_of(b: Seq<u8>, order: e_bitstream_byte_order) -> nat {
    match order {
        e_bitstream_byte_order::_bitstream_byte_order_little_endian => le_value(b),
        e_bitstream_byte_order::_bitstream_byte_order_big_endian => be_value(b),
    }
}

/// The `n` low bytes of `v` in the given byte order.
pub open spec fn bytes_of(v: nat, n: nat, order: e_bitstream_byte_order) -> Seq<u8> {
    match order {
        e_bitstream_byte_order::_bitstream_byte_order_little_endian => le_bytes(v, n),
        e_bitstream_byte_order::_bitstream_byte_order_big_endian => be_bytes(v, n),
    }
}

pub proof fn lemma_pow256_8()
    ensures
        pow256(2) == 0x1_0000,
        pow256(4) == 0x1_0000_0000,
        pow256(8) == 0x1_0000_0000_0000_0000,
{
    reveal_with_fuel(pow256, 9);
}

pub proof fn lemma_pow256_mono(a: nat, b: nat)
    requires
        a <= b,
    ensures
        pow256(a) <= pow256(b),
    decreases b,
{
    if a < b {
        lemma_pow256_mono(a, (b - 1) as nat);
    }
}

pub proof fn lemma_le_value_bound(b: Seq<u8>)
    ensures
        le_value(b) < pow256(b.len()),
    decreases b.len(),
{
    if b.len() > 0 {
        lemma_le_value_bound(b.drop_first());
    }
}

pub proof fn lemma_be_value_bound(b: Seq<u8>)
    ensures
        be_value(b) < pow256(b.len()),
    decreases b.len(),
{
    if b.len() > 0 {
        lemma_be_value_bound(b.drop_last());
    }
}

pub proof fn lemma_value_bound(b: Seq<u8>, order: e_bitstream_byte_order)
    ensures
        value_of(b, order) < pow256(b.len()),
{
    lemma_le_value_bound(b);
    lemma_be_value_bound(b);
}

/// Writing the `n` bytes of a value that fits in them and reading them back
/// gives the value.
pub proof fn lemma_bytes_roundtrip(v: nat, n: nat, order: e_bitstream_byte_order)
    requires
        v < pow256(n),
    ensures
        bytes_of(v, n, order).len() == n,
        value_of(bytes_of(v, n, order), order) == v,
    decreases n,
{
    if n > 0 {
        lemma_bytes_roundtrip(v / 256, (n - 1) as nat, order);
        match order {
            e_bitstream_byte_order::_bitstream_byte_order_little_endian => {
                let rest = le_bytes(v / 256, (n - 1) as nat);
                assert((seq![(v % 256) as u8] + rest).drop_first() =~= rest);
            },
            e_bitstream_byte_order::_bitstream_byte_order_big_endian => {
                let rest = be_bytes(v / 256, (n - 1) as nat);
                assert(rest.push((v % 256) as u8).drop_last() =~= rest);
            },
        }
    }
}

proof fn lemma_le_be_len(v: nat, n: nat)
    ensures
        le_bytes(v, n).len() == n,
        be_bytes(v, n).len() == n,
    decreases n,
{
    if n > 0 {
        lemma_le_be_len(v / 256, (n - 1) as nat);
    }
}

/// The byte orders, as the format names them: in little-endian order the
/// byte at position `i` of the `n` bytes of `v` is the byte of weight
/// `256^i`; in big-endian order it is the byte of weight `256^(n - 1 - i)`.
pub proof fn lemma_byte_order_weights(v: nat, n: nat, i: int)
    requires
        0 <= i < n,
    ensures
        bytes_of(v, n, e_bitstream_byte_order::_bitstream_byte_order_little_endian)[i] == (v / pow256(i as nat)) % 256,
        bytes_of(v, n, e_bitstream_byte_order::_bitstream_byte_order_big_endian)[i] == (v / pow256((n - 1 - i) as nat)) % 256,
    decreases n,
{
    lemma_le_be_len(v / 256, (n - 1) as nat);
    let le = le_bytes(v, n);
    let be = be_bytes(v, n);
    assert(le == seq![(v % 256) as u8] + le_bytes(v / 256, (n - 1) as nat));
    assert(be == be_bytes(v / 256, (n - 1) as nat).push((v % 256) as u8));
    if i == 0 {
        assert(le[0] == (v % 256) as u8);
        assert(v / pow256(0) == v);
    } else {
        lemma_byte_order_weights(v / 256, (n - 1) as nat, i - 1);
        assert(le[i] == le_bytes(v / 256, (n - 1) as nat)[i - 1]);
        let k = (i - 1) as nat;
        lemma_pow256_mono(0, k);
        vstd::arithmetic::div_mod::lemma_div_denominator(v as int, 256, pow256(k) as int);
        assert(pow256(i as nat) == 256 * pow256(k));
        assert((v / 256) / pow256(k) == v / pow256(i as nat));
    }
    if i == n - 1 {
        assert(be[i] == (v % 256) as u8);
        assert(v / pow256(0) == v);
    } else {
        lemma_byte_order_weights(v / 256, (n - 1) as nat, i);
        assert(be[i] == be_bytes(v / 256, (n - 1) as nat)[i]);
        let k = (n - 2 - i) as nat;
        assert((n - 1 - i) as nat == k + 1);
        lemma_pow256_mono(0, k);
        vstd::arithmetic::div_mod::lemma_div_denominator(v as int, 256, pow256(k) as int);
        assert(pow256(k + 1) == 256 * pow256(k));
        assert((v / 256) / pow256(k) == v / pow256(k + 1));
    }
}


fn read_le(data: &[u8], pos: usize, n: usize) -> (v: u64)
    requires
        n <= 8,
        pos + n <= data.len(),
    ensures
        v == le_value(data@.subrange(pos as int, pos + n)),
    decreases n,
{
    if n == 0 {
        return 0;
    }
    let rest = read_le(data, pos + 1, n - 1);
    proof {
        let s = data@.subrange(pos as int, pos + n);
        assert(s.drop_first() =~= data@.subrange(pos + 1, pos + n));
        lemma_le_value_bound(s.drop_first());
        lemma_pow256_mono((n - 1) as nat, 7);
        reveal_with_fuel(pow256, 8);
    }
    data[pos] as u64 + 256 * rest
}

fn read_be(data: &[u8], pos: usize, n: usize) -> (v: u64)
    requires
        n <= 8,
        pos + n <= data.len(),
    ensures
        v == be_value(data@.subrange(pos as int, pos + n)),
    decreases n,
{
    if n == 0 {
        return 0;
    }
    let rest = read_be(data, pos, n - 1);
    proof {
        let s = data@.subrange(pos as int, pos + n);
        assert(s.drop_last() =~= data@.subrange(pos as int, pos + n - 1));
        lemma_be_value_bound(s.drop_last());
        lemma_pow256_mono((n - 1) as nat, 7);
        reveal_with_fuel(pow256, 8);
    }
    256 * rest + data[pos + n - 1] as u64
}

/// The `n`-byte unsigned integer at `pos`, in the given byte order.
pub fn read_uint(data: &[u8], pos: usize, n: usize, order: e_bitstream_byte_order) -> (v: u64)
    requires
        n <= 8,
        pos + n <= data.len(),
    ensures
        v == value_of(data@.subrange(pos as int, pos + n), order),
        v < pow256(n as nat),
{
    proof {
        lemma_value_bound(data@.subrange(pos as int, pos + n), order);
    }
    match order {
        e_bitstream_byte_order::_bitstream_byte_order_little_endian => read_le(data, pos, n),
        e_bitstream_byte_order::_bitstream_byte_order_big_endian => read_be(data, pos, n),
    }
}

fn write_le(out: &mut Vec<u8>, v: u64, n: usize)
    ensures
        final(out)@ == old(out)@ + le_bytes(v as nat, n as nat),
    decreases n,
{
    if n == 0 {
        assert(old(out)@ + le_bytes(v as nat, 0) =~= old(out)@);
        return;
    }
    out.push((v % 256) as u8);
    write_le(out, v / 256, n - 1);
    assert(old(out)@ + le_bytes(v as nat, n as nat) =~= old(out)@.push((v % 256) as u8) + le_bytes((v / 256) as nat, (n - 1) as nat));
}

fn write_be(out: &mut Vec<u8>, v: u64, n: usize)
    ensures
        final(out)@ == old(out)@ + be_bytes(v as nat, n as nat),
    decreases n,
{
    if n == 0 {
        assert(old(out)@ + be_bytes(v as nat, 0) =~= old(out)@);
        return;
    }
    write_be(out, v / 256, n - 1);
    out.push((v % 256) as u8);
    assert(old(out)@ + be_bytes(v as nat, n as nat) =~= (old(out)@ + be_bytes((v / 256) as nat, (n - 1) as nat)).push((v % 256) as u8));
}

/// Appends the `n` low bytes of `v` to `out`, in the given byte order.
pub fn write_uint(out: &mut Vec<u8>, v: u64, n: usize, order: e_bitstream_byte_order)
    ensures
        final(out)@ == old(out)@ + bytes_of(v as nat, n as nat, order),
{
    match order {
        e_bitstream_byte_order::_bitstream_byte_order_little_endian => write_le(out, v, n),
        e_bitstream_byte_order::_bitstream_byte_order_big_endian => write_be(out, v, n),
    }
}

} // verus!
