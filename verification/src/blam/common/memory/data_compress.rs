use vstd::prelude::*;
use vstd::string::StringExecFns;
use crate::result::{BLFLibError, BLFLibResult};
use crate::text::{decimal, decimal_string};

verus! {

/// The byte order of a stream.
#[derive(PartialEq, Eq, Debug, Clone, Copy)]
pub enum e_bitstream_byte_order {
    _bitstream_byte_order_little_endian,
    _bitstream_byte_order_big_endian,
}

/// Writing a value's four bytes and reading them back gives the value.
pub proof fn lemma_u32_bytes_roundtrip(v: u32, order: e_bitstream_byte_order)
    ensures
        u32_to_bytes(v, order).len() == 4,
        u32_from_bytes(u32_to_bytes(v, order), order) == v,
{
    assert((v % 256) + 256 * ((v / 256) % 256) + 65536 * ((v / 65536) % 256) + 16777216 * (v / 16777216) == v) by (bit_vector);
    assert(v / 16777216 < 256) by (bit_vector);
}

/// The length at the head of a compressed block is the four-byte integer of
/// the stream's byte order: its bytes are those `bytes_of` gives for that
/// order, and reading four bytes back is `value_of` in that order.
pub proof fn lemma_u32_bytes_in_stream_order(v: u32, b: Seq<u8>, order: e_bitstream_byte_order)
    ensures
        u32_to_bytes(v, order) == crate::io::bytes::bytes_of(v as nat, 4, order),
        b.len() == 4 ==> u32_from_bytes(b, order) == crate::io::bytes::value_of(b, order),
{
    let x = v as nat;
    assert((x / 256) / 256 == x / 65536);
    assert((x / 65536) / 256 == x / 16777216);
    assert(v / 16777216 < 256) by (bit_vector);
    assert((x / 16777216) % 256 == x / 16777216);
    reveal_with_fuel(crate::io::bytes::le_bytes, 5);
    reveal_with_fuel(crate::io::bytes::be_bytes, 5);
    assert(crate::io::bytes::le_bytes(x, 4) =~= u32_to_bytes(v, e_bitstream_byte_order::_bitstream_byte_order_little_endian));
    assert(crate::io::bytes::be_bytes(x, 4) =~= u32_to_bytes(v, e_bitstream_byte_order::_bitstream_byte_order_big_endian));
    if b.len() == 4 {
        reveal_with_fuel(crate::io::bytes::le_value, 5);
        reveal_with_fuel(crate::io::bytes::be_value, 5);
        let d1 = b.drop_first();
        let d2 = d1.drop_first();
        let d3 = d2.drop_first();
        assert(d3.drop_first().len() == 0);
        assert(d1[0] == b[1] && d2[0] == b[2] && d3[0] == b[3]);
        let l1 = b.drop_last();
        let l2 = l1.drop_last();
        let l3 = l2.drop_last();
        assert(l3.drop_last().len() == 0);
        assert(l1.last() == b[2] && l2.last() == b[1] && l3.last() == b[0]);
    }
}


/// The value of four bytes in the given byte order.
pub open spec fn u32_from_bytes(b: Seq<u8>, order: e_bitstream_byte_order) -> nat {
    match order {
        e_bitstream_byte_order::_bitstream_byte_order_little_endian =>
            (b[0] + 256 * b[1] + 65536 * b[2] + 16777216 * b[3]) as nat,
        e_bitstream_byte_order::_bitstream_byte_order_big_endian =>
            (b[3] + 256 * b[2] + 65536 * b[1] + 16777216 * b[0]) as nat,
    }
}

/// The four bytes of `v` in the given byte order.
pub open spec fn u32_to_bytes(v: u32, order: e_bitstream_byte_order) -> Seq<u8> {
    let le = seq![(v % 256) as u8, ((v / 256) % 256) as u8, ((v / 65536) % 256) as u8, (v / 16777216) as u8];
    match order {
        e_bitstream_byte_order::_bitstream_byte_order_little_endian => le,
        e_bitstream_byte_order::_bitstream_byte_order_big_endian => seq![le[3], le[2], le[1], le[0]],
    }
}

/// What zlib-decoding `input` to its end gives: every byte the decoder
/// produced, and the text of its error if it stopped on one.
pub uninterp spec fn zlib_decode_outcome(input: Seq<u8>) -> (Seq<u8>, Option<Seq<char>>);

/// What zlib-encoding `input` at level 9 gives.
pub uninterp spec fn zlib_encode_outcome(input: Seq<u8>) -> Seq<u8>;

/// The view of an optional message.
pub open spec fn message_view(m: Option<String>) -> Option<Seq<char>> {
    match m {
        Some(s) => Some(s@),
        None => None,
    }
}

/// Reads `input` to its end through `flate2::read::ZlibDecoder` (with a
/// zlib header) and returns every byte read, with the `Display` text of the
/// error that stopped it, if any. Trusted: the outcome is named as a function
/// of the input.
#[verifier::external_body]
fn zlib_decode_all(input: &[u8]) -> (r: (Vec<u8>, Option<String>))
    ensures
        (r.0@, message_view(r.1)) == zlib_decode_outcome(input@),
{
    let mut out: Vec<u8> = Vec::new();
    let mut decoder = flate2::read::ZlibDecoder::new_with_decompress(input, flate2::Decompress::new(true));
    match std::io::Read::read_to_end(&mut decoder, &mut out) {
        Ok(_) => (out, None),
        Err(e) => (out, Some(e.to_string())),
    }
}

/// Compresses `input` through `flate2::write::ZlibEncoder` at level 9 with
/// a zlib header and a 15-bit window (the zlib-rs backend). Trusted: the output is named
/// as a function of the input, and zlib being lossless, decoding it gives
/// the input back without error; writing to a vector does not fail.
#[verifier::external_body]
fn zlib_encode_all(input: &[u8]) -> (r: Vec<u8>)
    ensures
        r@ == zlib_encode_outcome(input@),
        zlib_decode_outcome(r@) == (input@, Option::<Seq<char>>::None),
{
    let mut e = flate2::write::ZlibEncoder::new_with_compress(
        Vec::new(),
        flate2::Compress::new_with_window_bits(flate2::Compression::new(9), true, 15),
    );
    std::io::Write::write_all(&mut e, input).unwrap_or(());
    e.finish().unwrap_or_default()
}

/// The message of a failed decompression.
pub open spec fn decompress_failure_message(size: nat, detail: Seq<char>) -> Seq<char> {
    "runtime_data_decompress: failed to decompress "@ + decimal(size) + " - "@ + detail
}

fn read_u32(bytes: &[u8], order: e_bitstream_byte_order) -> (v: u32)
    requires
        bytes@.len() >= 4,
    ensures
        v == u32_from_bytes(bytes@, order),
{
    let b0 = bytes[0] as u32;
    let b1 = bytes[1] as u32;
    let b2 = bytes[2] as u32;
    let b3 = bytes[3] as u32;
    match order {
        e_bitstream_byte_order::_bitstream_byte_order_little_endian => b0 + 256 * b1 + 65536 * b2 + 16777216 * b3,
        e_bitstream_byte_order::_bitstream_byte_order_big_endian => b3 + 256 * b2 + 65536 * b1 + 16777216 * b0,
    }
}

/// Decompresses a runtime data block: a 32-bit size in the given byte order,
/// then a zlib stream. Appends everything the decoder produced to
/// `decompressed_buffer`, also when it stopped on an error; fails when the
/// block is shorter than the size or the decoder stopped on an error.
pub fn runtime_data_decompress(
    source_buffer: &[u8],
    decompressed_buffer: &mut Vec<u8>,
    endian: e_bitstream_byte_order,
) -> (r: BLFLibResult)
    ensures
        source_buffer@.len() < 4 ==> (r matches Err(e) && e is EndOfStream) && final(decompressed_buffer)@ == old(decompressed_buffer)@,
        source_buffer@.len() >= 4 ==> {
            let outcome = zlib_decode_outcome(source_buffer@.skip(4));
            &&& final(decompressed_buffer)@ == old(decompressed_buffer)@ + outcome.0
            &&& r is Ok <==> outcome.1 is None
            &&& outcome.1 matches Some(detail) ==> (r matches Err(BLFLibError::Message(m))
                && m@ == decompress_failure_message(u32_from_bytes(source_buffer@, endian), detail))
        },
{
    if source_buffer.len() < 4 {
        return Err(BLFLibError::EndOfStream);
    }
    let decompressed_buffer_size = read_u32(source_buffer, endian);
    let (out, failure) = zlib_decode_all(vstd::slice::slice_subrange(source_buffer, 4, source_buffer.len()));
    assert(source_buffer@.subrange(4, source_buffer@.len() as int) =~= source_buffer@.skip(4));
    runtime_data_from_outcome(decompressed_buffer_size, &out, failure, decompressed_buffer)
}

/// What a runtime data block of the given size gives from the decoder's
/// outcome: everything the decoder produced is appended to
/// `decompressed_buffer`; the result is `Ok` when the decoder stopped on no
/// error, else the error naming the size and the decoder's message.
pub fn runtime_data_from_outcome(
    size: u32,
    produced: &Vec<u8>,
    failure: Option<String>,
    decompressed_buffer: &mut Vec<u8>,
) -> (r: BLFLibResult)
    ensures
        final(decompressed_buffer)@ == old(decompressed_buffer)@ + produced@,
        r is Ok <==> failure is None,
        failure matches Some(detail) ==> (r matches Err(BLFLibError::Message(m))
            && m@ == decompress_failure_message(size as nat, detail@)),
{
    let mut i: usize = 0;
    while i < produced.len()
        invariant
            i <= produced@.len(),
            decompressed_buffer@ == old(decompressed_buffer)@ + produced@.take(i as int),
        decreases produced.len() - i,
    {
        decompressed_buffer.push(produced[i]);
        assert(produced@.take(i + 1) =~= produced@.take(i as int).push(produced@[i as int]));
        i = i + 1;
    }
    assert(produced@.take(produced@.len() as int) =~= produced@);
    match failure {
        None => Ok(()),
        Some(detail) => {
            let mut m = String::from_str("runtime_data_decompress: failed to decompress ");
            m.append(decimal_string(size as u64).as_str());
            m.append(" - ");
            m.append(detail.as_str());
            Err(BLFLibError::Message(m))
        },
    }
}

/// `data` written over the front of `buffer`, which grows when needed.
pub open spec fn overwritten(buffer: Seq<u8>, data: Seq<u8>) -> Seq<u8> {
    if data.len() >= buffer.len() {
        data
    } else {
        data + buffer.skip(data.len() as int)
    }
}

/// Compresses a runtime data block: writes over the front of
/// `compressed_buffer` the source's length (in 32 bits, in the given byte
/// order), then the zlib stream of the source at level 9. Written into an
/// empty buffer, the block decompresses to the source again.
pub fn runtime_data_compress(
    source_buffer: &Vec<u8>,
    compressed_buffer: &mut Vec<u8>,
    endian: e_bitstream_byte_order,
) -> (r: BLFLibResult)
    ensures
        r is Ok,
        old(compressed_buffer)@.len() == 0 ==> {
            &&& final(compressed_buffer)@.len() >= 4
            &&& zlib_decode_outcome(final(compressed_buffer)@.skip(4)) == (source_buffer@, Option::<Seq<char>>::None)
            &&& u32_from_bytes(final(compressed_buffer)@, endian) == source_buffer@.len() % 0x1_0000_0000
        },
        final(compressed_buffer)@ == overwritten(
            old(compressed_buffer)@,
            u32_to_bytes((source_buffer@.len() % 0x1_0000_0000) as u32, endian) + zlib_encode_outcome(source_buffer@),
        ),
{
    let compressed_data = zlib_encode_all(source_buffer.as_slice());
    let decompressed_size = ((source_buffer.len() as u64) % 0x1_0000_0000) as u32;
    let le0 = (decompressed_size % 256) as u8;
    let le1 = ((decompressed_size / 256) % 256) as u8;
    let le2 = ((decompressed_size / 65536) % 256) as u8;
    let le3 = (decompressed_size / 16777216) as u8;
    let mut data: Vec<u8> = Vec::new();
    match endian {
        e_bitstream_byte_order::_bitstream_byte_order_little_endian => {
            data.push(le0);
            data.push(le1);
            data.push(le2);
            data.push(le3);
        },
        e_bitstream_byte_order::_bitstream_byte_order_big_endian => {
            data.push(le3);
            data.push(le2);
            data.push(le1);
            data.push(le0);
        },
    }
    let mut i: usize = 0;
    while i < compressed_data.len()
        invariant
            i <= compressed_data@.len(),
            data@ == u32_to_bytes(decompressed_size, endian) + compressed_data@.take(i as int),
        decreases compressed_data.len() - i,
    {
        data.push(compressed_data[i]);
        assert(compressed_data@.take(i + 1) =~= compressed_data@.take(i as int).push(compressed_data@[i as int]));
        i = i + 1;
    }
    assert(compressed_data@.take(compressed_data@.len() as int) =~= compressed_data@);
    let mut k: usize = 0;
    while k < data.len()
        invariant
            k <= data@.len(),
            compressed_buffer@ == overwritten(old(compressed_buffer)@, data@.take(k as int)),
        decreases data.len() - k,
    {
        if k < compressed_buffer.len() {
            compressed_buffer.set(k, data[k]);
        } else {
            compressed_buffer.push(data[k]);
        }
        assert(compressed_buffer@ =~= overwritten(old(compressed_buffer)@, data@.take(k + 1)));
        k = k + 1;
    }
    assert(data@.take(data@.len() as int) =~= data@);
    proof {
        if old(compressed_buffer)@.len() == 0 {
            assert(compressed_buffer@ == data@);
            assert(compressed_buffer@.skip(4) =~= compressed_data@);
            lemma_u32_bytes_roundtrip(decompressed_size, endian);
            assert(compressed_buffer@.take(4) =~= u32_to_bytes(decompressed_size, endian));
            assert(u32_from_bytes(compressed_buffer@, endian) == u32_from_bytes(compressed_buffer@.take(4), endian));
        }
    }
    Ok(())
}

} // verus!
