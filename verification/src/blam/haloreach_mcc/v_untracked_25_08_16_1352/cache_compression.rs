use vstd::prelude::*;
use vstd::arithmetic::power2::*;
use vstd::bits::lemma_u32_shl_is_mul;
use vstd::string::StringExecFns;
use crate::text::{decimal, decimal_string};

verus! {

/// The shift encoded in bits 1..=5 of a packed dictionary-size byte, plus ten.
pub open spec fn dict_shift(packed: u8) -> nat {
    (((packed >> 1u8) & 0x1Fu8) as nat) + 10
}

/// The base encoded in bit 2 of a packed dictionary-size byte: 5 when set, else 1.
pub open spec fn dict_base(packed: u8) -> nat {
    if packed & 4u8 != 0 { 5 } else { 1 }
}

/// Whether the shift of a packed byte is one a 32-bit shift accepts.
pub open spec fn dict_shift_ok(packed: u8) -> bool {
    dict_shift(packed) < 32
}

/// The dictionary size a packed byte stands for: the base shifted left by the
/// shift, in 32 bits.
pub open spec fn dict_size(packed: u8) -> nat {
    (dict_base(packed) * pow2(dict_shift(packed))) % pow2(32)
}

/// Unpacks the one-byte dictionary-size encoding of MCC cache sections.
pub fn unpack_lzma_dict_size(packed: u8) -> (r: u32)
    requires
        dict_shift_ok(packed),
    ensures
        r == dict_size(packed),
{
    let shift: u32 = (((packed >> 1u8) & 0x1Fu8) as u32) + 10;
    let base_val: u32 = if (packed & 4u8) != 0 { 5 } else { 1 };
    proof {
        lemma2_to64();
        lemma2_to64_rest();
        lemma_pow2_pos(shift as nat);
        if base_val == 1 || shift <= 29 {
            if shift < 29 {
                lemma_pow2_strictly_increases(shift as nat, 29);
            } else if shift < 31 {
                lemma_pow2_strictly_increases(shift as nat, 31);
            }
            lemma_u32_shl_is_mul(base_val, shift);
            assert(base_val * pow2(shift as nat) < pow2(32));
            vstd::arithmetic::div_mod::lemma_small_mod((base_val * pow2(shift as nat)) as nat, pow2(32));
        } else if shift == 30 {
            assert(5u32 << 30u32 == 0x4000_0000u32) by (bit_vector);
            assert((5 * pow2(30)) % pow2(32) == 0x4000_0000) by {
                vstd::arithmetic::div_mod::lemma_mod_multiples_vanish(1, 0x4000_0000, 0x1_0000_0000);
            }
        } else {
            assert(5u32 << 31u32 == 0x8000_0000u32) by (bit_vector);
            assert((5 * pow2(31)) % pow2(32) == 0x8000_0000) by {
                vstd::arithmetic::div_mod::lemma_mod_multiples_vanish(2, 0x8000_0000, 0x1_0000_0000);
            }
        }
    }
    base_val << shift
}

/// The little-endian bytes of a 32-bit value.
pub open spec fn le_bytes_u32(v: u32) -> Seq<u8> {
    seq![(v & 0xFF) as u8, ((v >> 8u32) & 0xFF) as u8, ((v >> 16u32) & 0xFF) as u8, ((v >> 24u32) & 0xFF) as u8]
}

/// The little-endian bytes of a 64-bit value.
pub open spec fn le_bytes_u64(v: u64) -> Seq<u8> {
    le_bytes_u32((v & 0xFFFF_FFFF) as u32) + le_bytes_u32((v >> 32u64) as u32)
}

fn push_le_u32(out: &mut Vec<u8>, v: u32)
    ensures
        final(out)@ == old(out)@ + le_bytes_u32(v),
{
    out.push((v & 0xFF) as u8);
    out.push(((v >> 8u32) & 0xFF) as u8);
    out.push(((v >> 16u32) & 0xFF) as u8);
    out.push(((v >> 24u32) & 0xFF) as u8);
    assert(out@ =~= old(out)@ + le_bytes_u32(v));
}

/// The complete `.lzma` stream handed to the decoder for one cache section:
/// the properties byte 0x5D, the unpacked dictionary size and the expected
/// size, both little-endian, then the payload after the section's two
/// header bytes.
pub open spec fn lzma_input(chunk: Seq<u8>, expected: u64) -> Seq<u8> {
    seq![0x5Du8] + le_bytes_u32(dict_size(chunk[1]) as u32) + le_bytes_u64(expected) + chunk.skip(2)
}

/// What `lzma_rs::lzma_decompress` gives for a complete `.lzma` stream: the
/// decompressed bytes, or the `Debug` text of its error.
pub uninterp spec fn lzma_decompress_outcome(input: Seq<u8>) -> Result<Seq<u8>, Seq<char>>;

/// The view of a decoder outcome.
pub open spec fn outcome_view(r: Result<Vec<u8>, String>) -> Result<Seq<u8>, Seq<char>> {
    match r {
        Ok(v) => Ok(v@),
        Err(e) => Err(e@),
    }
}

/// Runs `lzma_rs::lzma_decompress` over `input`, a whole `.lzma` stream, and
/// returns everything it wrote, or the `Debug` text of its error. Trusted:
/// the contract only names the decoder's outcome as a function of the input.
#[verifier::external_body]
fn lzma_decompress_all(input: Vec<u8>) -> (r: Result<Vec<u8>, String>)
    ensures
        outcome_view(r) == lzma_decompress_outcome(input@),
{
    let mut out: Vec<u8> = Vec::new();
    let mut cursor = std::io::Cursor::new(input);
    match lzma_rs::lzma_decompress(&mut cursor, &mut out) {
        Ok(()) => Ok(out),
        Err(e) => Err(format!("{:?}", e)),
    }
}

/// The error message of a section too short to hold its header.
pub open spec fn too_small_message(len: nat) -> Seq<char> {
    "compressed section too small: "@ + decimal(len) + " bytes"@
}

/// What decompressing one LZMA section gives, from the decoder's outcome on
/// its assembled stream.
pub open spec fn lzma_section_outcome(chunk: Seq<u8>, expected: u64) -> Result<Seq<u8>, Seq<char>> {
    if chunk.len() < 3 {
        Err(too_small_message(chunk.len()))
    } else {
        lzma_section_from_outcome_spec(lzma_decompress_outcome(lzma_input(chunk, expected)))
    }
}

/// A decoder outcome as a section result: the bytes, or the decoder's error
/// text behind `lzma_decompress failed: `.
pub open spec fn lzma_section_from_outcome_spec(outcome: Result<Seq<u8>, Seq<char>>) -> Result<Seq<u8>, Seq<char>> {
    match outcome {
        Ok(d) => Ok(d),
        Err(t) => Err("lzma_decompress failed: "@ + t),
    }
}

/// Turns the decoder's outcome into the result of a section decompression:
/// the bytes, or the decoder's error text behind `lzma_decompress failed: `.
pub fn lzma_section_from_outcome(outcome: Result<Vec<u8>, String>) -> (r: Result<Vec<u8>, String>)
    ensures
        outcome_view(r) == lzma_section_from_outcome_spec(outcome_view(outcome)),
{
    match outcome {
        Ok(d) => Ok(d),
        Err(t) => {
            let mut s = String::from_str("lzma_decompress failed: ");
            s.append(t.as_str());
            Err(s)
        },
    }
}

/// Decompresses one LZMA1 section of an MCC cache file. `compressed_chunk`
/// starts at the section's offset: one skipped byte, the packed dictionary
/// size, then the payload.
pub fn decompress_mcc_lzma_section(compressed_chunk: &[u8], expected_decompressed_size: usize) -> (r: Result<Vec<u8>, String>)
    requires
        compressed_chunk@.len() >= 3 ==> dict_shift_ok(compressed_chunk@[1]),
    ensures
        outcome_view(r) == lzma_section_outcome(compressed_chunk@, expected_decompressed_size as u64),
{
    if compressed_chunk.len() < 3 {
        let mut s = String::from_str("compressed section too small: ");
        s.append(decimal_string(compressed_chunk.len() as u64).as_str());
        s.append(" bytes");
        proof {
            reveal_strlit("compressed section too small: ");
            reveal_strlit(" bytes");
        }
        return Err(s);
    }
    let packed = compressed_chunk[1];
    let dict_size = unpack_lzma_dict_size(packed);
    let mut lzma1_input: Vec<u8> = Vec::new();
    lzma1_input.push(0x5Du8);
    push_le_u32(&mut lzma1_input, dict_size);
    let expected = expected_decompressed_size as u64;
    push_le_u32(&mut lzma1_input, (expected & 0xFFFF_FFFF) as u32);
    push_le_u32(&mut lzma1_input, (expected >> 32u64) as u32);
    let ghost head = lzma1_input@;
    let mut i: usize = 2;
    while i < compressed_chunk.len()
        invariant
            2 <= i <= compressed_chunk@.len(),
            lzma1_input@ == head + compressed_chunk@.subrange(2, i as int),
        decreases compressed_chunk.len() - i,
    {
        lzma1_input.push(compressed_chunk[i]);
        assert(compressed_chunk@.subrange(2, i + 1) =~= compressed_chunk@.subrange(2, i as int).push(compressed_chunk@[i as int]));
        i = i + 1;
    }
    assert(lzma1_input@ =~= lzma_input(compressed_chunk@, expected));
    let outcome = lzma_decompress_all(lzma1_input);
    lzma_section_from_outcome(outcome)
}


/// One entry of the section table of an MCC cache file header.
#[derive(Debug, Clone, Copy)]
pub struct MccCacheSection {
    pub index: usize,
    pub virtual_address: u32,
    pub decompressed_size: u32,
    pub compressed_offset: u32,
    pub compressed_size: u32,
    pub compression_type: u8,
}

/// `value` rounded up with the mask of `alignment - 1`, in 32 bits.
pub open spec fn align_up_spec(value: u32, alignment: u32) -> u32 {
    ((value + alignment - 1) as u32) & !((alignment - 1) as u32)
}

/// Whether rounding `value` up to `alignment` stays within 32 bits.
pub open spec fn align_up_ok(value: u32, alignment: u32) -> bool {
    alignment >= 1 && value + alignment - 1 <= u32::MAX
}

fn align_up(value: u32, alignment: u32) -> (r: u32)
    requires
        align_up_ok(value, alignment),
    ensures
        r == align_up_spec(value, alignment),
{
    (value + (alignment - 1)) & !(alignment - 1)
}

/// Rounding up to a power of two gives the least multiple of it that is at
/// least the value.
pub proof fn lemma_align_up_pow2(value: u32, k: nat)
    requires
        k < 32,
        align_up_ok(value, pow2(k) as u32),
    ensures
        align_up_spec(value, pow2(k) as u32) % (pow2(k) as u32) == 0,
        value <= align_up_spec(value, pow2(k) as u32),
        align_up_spec(value, pow2(k) as u32) < value + pow2(k),
{
    let kk = k as u32;
    vstd::bits::lemma_u32_pow2_no_overflow(k);
    lemma_u32_shl_is_mul(1u32, kk);
    let a: u32 = 1u32 << kk;
    assert(a == pow2(k) as u32);
    let r: u32 = align_up_spec(value, a);
    assert(kk < 32 && (value as int) + (a as int) - 1 <= u32::MAX && a == 1u32 << kk ==> {
        let r2 = ((value + a - 1) as u32) & !((a - 1) as u32);
        &&& r2 & ((a - 1) as u32) == 0
        &&& value <= r2
        &&& r2 < value + a
    }) by (bit_vector);
    vstd::bits::lemma_u32_low_bits_mask_is_mod(r, k);
    assert(vstd::bits::low_bits_mask(k) == a - 1);
}

/// The order in which the sections are laid out: 0, 1, 3, 2.
pub open spec fn section_order(k: nat) -> nat {
    if k == 0 { 0 } else if k == 1 { 1 } else if k == 2 { 3 } else { 2 }
}

/// `out` cut or zero-extended to `len` bytes.
pub open spec fn resized(out: Seq<u8>, len: nat) -> Seq<u8> {
    if len <= out.len() {
        out.take(len as int)
    } else {
        out + Seq::new((len - out.len()) as nat, |i: int| 0u8)
    }
}

/// The ways decompressing a cache file can end.
pub enum CacheOutcome {
    /// The decompressed file and the new offset masks.
    Done(Seq<u8>, Seq<u32>),
    /// An error, with its message.
    Refused(Seq<char>),
    /// An arithmetic overflow or bad shift that the engine's code does not survive.
    Aborts,
}

pub open spec fn missing_message(ind: nat) -> Seq<char> {
    "missing section "@ + decimal(ind)
}

pub open spec fn overflow_message() -> Seq<char> {
    "compressed_offset+size overflow"@
}

pub open spec fn range_message(ind: nat, start: nat, end: nat, len: nat) -> Seq<char> {
    "section "@ + decimal(ind) + " compressed range "@ + decimal(start) + ".."@ + decimal(end)
        + " > file len "@ + decimal(len)
}

pub open spec fn stored_size_message(ind: nat, got: nat, expected: nat) -> Seq<char> {
    "section "@ + decimal(ind) + " type=0 size mismatch: compressed_size="@ + decimal(got)
        + " decompressed_size="@ + decimal(expected)
}

pub open spec fn lzma_size_message(ind: nat, got: nat, expected: nat) -> Seq<char> {
    "section "@ + decimal(ind) + " LZMA decompressed size mismatch: got "@ + decimal(got)
        + " expected "@ + decimal(expected)
}

pub open spec fn unknown_type_message(t: nat, ind: nat) -> Seq<char> {
    "unknown MCC compression type "@ + decimal(t) + " for section "@ + decimal(ind)
}

/// Lays out the sections from the `k`-th of the order on, starting from the
/// bytes `out` and the masks `masks`.
pub open spec fn place_sections(
    file: Seq<u8>,
    sections: Seq<MccCacheSection>,
    align: u32,
    k: nat,
    out: Seq<u8>,
    masks: Seq<u32>,
) -> CacheOutcome
    decreases 4 - k,
{
    if k >= 4 {
        CacheOutcome::Done(out, masks)
    } else {
        let ind = section_order(k);
        if ind >= sections.len() {
            CacheOutcome::Refused(missing_message(ind))
        } else {
            let sec = sections[ind as int];
            let len32 = out.len() as u32;
            if !align_up_ok(len32, align) {
                CacheOutcome::Aborts
            } else {
                let pad = align_up_spec(len32, align);
                let padded = resized(out, pad as nat);
                let masks1 = masks.update(ind as int, pad.wrapping_sub(sec.virtual_address));
                let start = sec.compressed_offset as nat;
                let end = start + sec.compressed_size as nat;
                if end > usize::MAX {
                    CacheOutcome::Refused(overflow_message())
                } else if end > file.len() {
                    CacheOutcome::Refused(range_message(ind, start, end, file.len()))
                } else {
                    let chunk = file.subrange(start as int, end as int);
                    if sec.compression_type == 0 {
                        if chunk.len() != sec.decompressed_size {
                            CacheOutcome::Refused(stored_size_message(ind, chunk.len(), sec.decompressed_size as nat))
                        } else {
                            place_sections(file, sections, align, k + 1, padded + chunk, masks1)
                        }
                    } else if sec.compression_type == 3 {
                        if chunk.len() >= 3 && !dict_shift_ok(chunk[1]) {
                            CacheOutcome::Aborts
                        } else {
                            match lzma_section_outcome(chunk, sec.decompressed_size as u64) {
                                Err(e) => CacheOutcome::Refused(e),
                                Ok(d) => if d.len() != sec.decompressed_size {
                                    CacheOutcome::Refused(lzma_size_message(ind, d.len(), sec.decompressed_size as nat))
                                } else {
                                    place_sections(file, sections, align, k + 1, padded + d, masks1)
                                },
                            }
                        }
                    } else {
                        CacheOutcome::Refused(unknown_type_message(sec.compression_type as nat, ind))
                    }
                }
            }
        }
    }
}

/// Rounding up never goes below the value, for any alignment.
pub proof fn lemma_align_up_at_least(value: u32, alignment: u32)
    requires
        align_up_ok(value, alignment),
    ensures
        value <= align_up_spec(value, alignment),
        align_up_spec(value, alignment) <= value + alignment - 1,
{
    let m: u32 = (alignment - 1) as u32;
    let x: u32 = (value + m) as u32;
    assert(x == value + m);
    assert((x & !m) <= x && x - (x & !m) <= m) by (bit_vector);
}

/// The bytes a section's content is placed in: `out` zero-extended to the
/// aligned offset `pad`, then the content.
pub open spec fn placed(out: Seq<u8>, pad: nat, content: Seq<u8>) -> Seq<u8> {
    out + Seq::new((pad - out.len()) as nat, |i: int| 0u8) + content
}

/// The content a section contributes: its stored bytes, or the bytes its
/// LZMA stream decompresses to.
pub open spec fn section_content(file: Seq<u8>, sec: MccCacheSection) -> Seq<u8> {
    let chunk = file.subrange(sec.compressed_offset as int, sec.compressed_offset + sec.compressed_size);
    if sec.compression_type == 0 {
        chunk
    } else {
        lzma_section_outcome(chunk, sec.decompressed_size as u64)->Ok_0
    }
}

/// One step of the layout: when laying out the sections from the `k`-th of
/// the order on succeeds from bytes `out` of at most 32 bits of length, the
/// `k`-th section exists, is stored or LZMA-compressed, and is placed at the
/// first offset at or after the end of `out` that is rounded up to the
/// alignment, the gap filled with zeros; its content has its decompressed
/// size, and its mask is that offset less its virtual address.
pub proof fn lemma_place_step(
    file: Seq<u8>,
    sections: Seq<MccCacheSection>,
    align: u32,
    k: nat,
    out: Seq<u8>,
    masks: Seq<u32>,
)
    requires
        k < 4,
        out.len() <= u32::MAX,
        place_sections(file, sections, align, k, out, masks) is Done,
    ensures ({
        let ind = section_order(k);
        let sec = sections[ind as int];
        let pad = align_up_spec(out.len() as u32, align);
        let content = section_content(file, sec);
        &&& ind < sections.len()
        &&& align_up_ok(out.len() as u32, align)
        &&& out.len() <= pad
        &&& sec.compression_type == 0 || sec.compression_type == 3
        &&& content.len() == sec.decompressed_size
        &&& place_sections(file, sections, align, k, out, masks) == place_sections(file, sections, align, k + 1,
            placed(out, pad as nat, content), masks.update(ind as int, pad.wrapping_sub(sec.virtual_address)))
    }),
{
    let ind = section_order(k);
    let sec = sections[ind as int];
    let len32 = out.len() as u32;
    assert(len32 == out.len());
    let pad = align_up_spec(len32, align);
    lemma_align_up_at_least(len32, align);
    assert(resized(out, pad as nat) =~= out + Seq::new((pad - out.len()) as nat, |i: int| 0u8)) by {
        if pad == out.len() {
            assert(out.take(pad as int) =~= out);
        }
    }
}

/// Laying out the sections keeps the bytes it starts from: whenever it
/// succeeds from bytes `out`, and the bytes reached stay within 32 bits of
/// length (the sizes still to place, each with an alignment's worth of
/// padding, fit), the result starts with `out`.
pub proof fn lemma_place_keeps_prefix(
    file: Seq<u8>,
    sections: Seq<MccCacheSection>,
    align: u32,
    k: nat,
    out: Seq<u8>,
    masks: Seq<u32>,
)
    requires
        k <= 4,
        place_sections(file, sections, align, k, out, masks) is Done,
        out.len() + (4 - k) * (align as int + u32::MAX as int / 8) <= u32::MAX,
        forall|j: nat| k <= j < 4 && section_order(j) < sections.len()
            ==> #[trigger] sections[section_order(j) as int].decompressed_size <= u32::MAX / 8,
    ensures
        out.len() <= (place_sections(file, sections, align, k, out, masks)->Done_0).len(),
        (place_sections(file, sections, align, k, out, masks)->Done_0).take(out.len() as int) == out,
    decreases 4 - k,
{
    if k < 4 {
        lemma_place_step(file, sections, align, k, out, masks);
        let ind = section_order(k);
        let sec = sections[ind as int];
        let pad = align_up_spec(out.len() as u32, align);
        let content = section_content(file, sec);
        let next = placed(out, pad as nat, content);
        let masks1 = masks.update(ind as int, pad.wrapping_sub(sec.virtual_address));
        lemma_align_up_at_least(out.len() as u32, align);
        assert(sections[section_order(k) as int].decompressed_size <= u32::MAX / 8);
        assert(next.len() == pad + content.len());
        assert((4 - (k + 1)) * (align as int + u32::MAX as int / 8) + (align as int + u32::MAX as int / 8)
            == (4 - k) * (align as int + u32::MAX as int / 8)) by (nonlinear_arith)
            requires k < 4;
        lemma_place_keeps_prefix(file, sections, align, k + 1, next, masks1);
        let fo = place_sections(file, sections, align, k, out, masks)->Done_0;
        assert(fo.take(next.len() as int) == next);
        assert(next.take(out.len() as int) =~= out);
        assert(fo.take(out.len() as int) =~= next.take(out.len() as int));
    }
}

/// A decompressed cache file starts with the file's header, as it is, when
/// the file and every section's decompressed size fit in an eighth of 32
/// bits and the alignment in a sixteenth.
pub proof fn lemma_cache_file_keeps_header(
    file: Seq<u8>,
    header_size: nat,
    sections: Seq<MccCacheSection>,
    align: u32,
)
    requires
        cache_file_outcome(file, header_size, sections, align) is Done,
        file.len() <= u32::MAX / 8,
        align <= u32::MAX / 16,
        forall|i: int| 0 <= i < sections.len() ==> #[trigger] sections[i].decompressed_size <= u32::MAX / 8,
    ensures
        (cache_file_outcome(file, header_size, sections, align)->Done_0).take(header_size as int) == file.take(header_size as int),
{
    let out = file.take(header_size as int);
    let masks = seq![0u32, 0u32, 0u32, 0u32];
    assert forall|j: nat| 0 <= j < 4 && section_order(j) < sections.len()
        implies #[trigger] sections[section_order(j) as int].decompressed_size <= u32::MAX / 8 by {
        let i = section_order(j) as int;
        assert(sections[i].decompressed_size <= u32::MAX / 8);
    }
    lemma_place_keeps_prefix(file, sections, align, 0, out, masks);
}

/// What decompressing a whole cache file gives: the header kept as it is,
/// then each section, in the order 0, 1, 3, 2, padded to `align` and stored
/// or decompressed, with the mask of each section its new offset minus its
/// virtual address.
pub open spec fn cache_file_outcome(
    file: Seq<u8>,
    header_size: nat,
    sections: Seq<MccCacheSection>,
    align: u32,
) -> CacheOutcome {
    if file.len() < header_size {
        CacheOutcome::Refused("file shorter than header_size"@)
    } else {
        place_sections(file, sections, align, 0, file.take(header_size as int), seq![0u32, 0u32, 0u32, 0u32])
    }
}


fn append_decimal(s: &mut String, n: u64)
    ensures
        final(s)@ == old(s)@ + decimal(n as nat),
{
    let d = decimal_string(n);
    s.append(d.as_str());
}

fn missing_error(ind: usize) -> (s: String)
    ensures
        s@ == missing_message(ind as nat),
{
    let mut s = String::from_str("missing section ");
    append_decimal(&mut s, ind as u64);
    s
}

fn range_error(ind: usize, start: usize, end: usize, len: usize) -> (s: String)
    ensures
        s@ == range_message(ind as nat, start as nat, end as nat, len as nat),
{
    let mut s = String::from_str("section ");
    append_decimal(&mut s, ind as u64);
    s.append(" compressed range ");
    append_decimal(&mut s, start as u64);
    s.append("..");
    append_decimal(&mut s, end as u64);
    s.append(" > file len ");
    append_decimal(&mut s, len as u64);
    s
}

fn stored_size_error(ind: usize, got: usize, expected: u32) -> (s: String)
    ensures
        s@ == stored_size_message(ind as nat, got as nat, expected as nat),
{
    let mut s = String::from_str("section ");
    append_decimal(&mut s, ind as u64);
    s.append(" type=0 size mismatch: compressed_size=");
    append_decimal(&mut s, got as u64);
    s.append(" decompressed_size=");
    append_decimal(&mut s, expected as u64);
    s
}

fn lzma_size_error(ind: usize, got: usize, expected: u32) -> (s: String)
    ensures
        s@ == lzma_size_message(ind as nat, got as nat, expected as nat),
{
    let mut s = String::from_str("section ");
    append_decimal(&mut s, ind as u64);
    s.append(" LZMA decompressed size mismatch: got ");
    append_decimal(&mut s, got as u64);
    s.append(" expected ");
    append_decimal(&mut s, expected as u64);
    s
}

fn unknown_type_error(t: u8, ind: usize) -> (s: String)
    ensures
        s@ == unknown_type_message(t as nat, ind as nat),
{
    let mut s = String::from_str("unknown MCC compression type ");
    append_decimal(&mut s, t as u64);
    s.append(" for section ");
    append_decimal(&mut s, ind as u64);
    s
}

fn append_bytes(out: &mut Vec<u8>, bytes: &[u8])
    ensures
        final(out)@ == old(out)@ + bytes@,
{
    let mut i: usize = 0;
    while i < bytes.len()
        invariant
            i <= bytes@.len(),
            out@ == old(out)@ + bytes@.take(i as int),
        decreases bytes.len() - i,
    {
        out.push(bytes[i]);
        assert(bytes@.take(i + 1) =~= bytes@.take(i as int).push(bytes@[i as int]));
        i = i + 1;
    }
    assert(bytes@.take(bytes@.len() as int) =~= bytes@);
}

fn resize_zeroed(out: &mut Vec<u8>, len: usize)
    ensures
        final(out)@ == resized(old(out)@, len as nat),
{
    if len <= out.len() {
        out.truncate(len);
        assert(out@ =~= resized(old(out)@, len as nat));
    } else {
        while out.len() < len
            invariant
                old(out)@.len() < len,
                old(out)@.len() <= out@.len() <= len,
                out@ == old(out)@ + Seq::new((out@.len() - old(out)@.len()) as nat, |i: int| 0u8),
            decreases len - out.len(),
        {
            let ghost before = out@;
            out.push(0u8);
            assert(out@ =~= old(out)@ + Seq::new((out@.len() - old(out)@.len()) as nat, |i: int| 0u8));
        }
    }
}

/// The error of a cache file whose layout cannot be computed: an aligned
/// offset beyond 32 bits or a dictionary shift of 32 or more.
pub open spec fn layout_abort_message() -> Seq<char> {
    "cache file layout out of range: aligned offset beyond 32 bits or dictionary shift of 32 or more"@
}

/// Decompresses a whole MCC cache file as `decompress_mcc_cache_file` does,
/// for any input: where the layout cannot be computed (an aligned offset
/// beyond 32 bits, or a dictionary shift of 32 or more in an LZMA section
/// that is reached) it fails with `layout_abort_message` instead.
pub fn try_decompress_mcc_cache_file(
    file_bytes: &[u8],
    header_size: usize,
    sections: &[MccCacheSection],
    align: u32,
) -> (r: Result<(Vec<u8>, [u32; 4]), String>)
    ensures
        match r {
            Ok((out, masks)) => cache_file_outcome(file_bytes@, header_size as nat, sections@, align)
                == CacheOutcome::Done(out@, masks@),
            Err(e) => cache_file_outcome(file_bytes@, header_size as nat, sections@, align)
                == CacheOutcome::Refused(e@)
                || (cache_file_outcome(file_bytes@, header_size as nat, sections@, align) is Aborts
                    && e@ == layout_abort_message()),
        },
{
    if file_bytes.len() < header_size {
        return Err(String::from_str("file shorter than header_size"));
    }
    let ghost goal = cache_file_outcome(file_bytes@, header_size as nat, sections@, align);
    let mut out: Vec<u8> = Vec::new();
    append_bytes(&mut out, vstd::slice::slice_subrange(file_bytes, 0, header_size));
    assert(out@ =~= file_bytes@.take(header_size as int));
    let mut new_masks: [u32; 4] = [0u32; 4];
    assert(new_masks@ =~= seq![0u32, 0u32, 0u32, 0u32]);
    let mut k: usize = 0;
    while k < 4
        invariant
            k <= 4,
            new_masks@.len() == 4,
            goal == cache_file_outcome(file_bytes@, header_size as nat, sections@, align),
            goal == place_sections(file_bytes@, sections@, align, k as nat, out@, new_masks@),
        decreases 4 - k,
    {
        let ind: usize = if k == 0 { 0 } else if k == 1 { 1 } else if k == 2 { 3 } else { 2 };
        assert(ind == section_order(k as nat));
        if ind >= sections.len() {
            return Err(missing_error(ind));
        }
        let sec = sections[ind];
        let len32 = out.len() as u32;
        if align == 0 || len32 as u64 + align as u64 - 1 > 0xffff_ffff {
            proof { reveal_strlit("cache file layout out of range: aligned offset beyond 32 bits or dictionary shift of 32 or more"); }
            return Err(String::from_str("cache file layout out of range: aligned offset beyond 32 bits or dictionary shift of 32 or more"));
        }
        let pad_to = align_up(len32, align);
        let ghost padded = resized(out@, pad_to as nat);
        resize_zeroed(&mut out, pad_to as usize);
        let mask = pad_to.wrapping_sub(sec.virtual_address);
        new_masks[ind] = mask;
        let start = sec.compressed_offset as usize;
        let end = match start.checked_add(sec.compressed_size as usize) {
            Some(e) => e,
            None => {
                proof { reveal_strlit("compressed_offset+size overflow"); }
                return Err(String::from_str("compressed_offset+size overflow"));
            },
        };
        if end > file_bytes.len() {
            return Err(range_error(ind, start, end, file_bytes.len()));
        }
        let compressed_chunk = vstd::slice::slice_subrange(file_bytes, start, end);
        if sec.compression_type == 0 {
            if compressed_chunk.len() != sec.decompressed_size as usize {
                return Err(stored_size_error(ind, compressed_chunk.len(), sec.decompressed_size));
            }
            append_bytes(&mut out, compressed_chunk);
        } else if sec.compression_type == 3 {
            if compressed_chunk.len() >= 3 && ((compressed_chunk[1] >> 1u8) & 0x1Fu8) as u32 + 10 >= 32 {
                proof { reveal_strlit("cache file layout out of range: aligned offset beyond 32 bits or dictionary shift of 32 or more"); }
                return Err(String::from_str("cache file layout out of range: aligned offset beyond 32 bits or dictionary shift of 32 or more"));
            }
            let decompressed = decompress_mcc_lzma_section(compressed_chunk, sec.decompressed_size as usize)?;
            if decompressed.len() != sec.decompressed_size as usize {
                return Err(lzma_size_error(ind, decompressed.len(), sec.decompressed_size));
            }
            append_bytes(&mut out, decompressed.as_slice());
        } else {
            return Err(unknown_type_error(sec.compression_type, ind));
        }
        k = k + 1;
    }
    Ok((out, new_masks))
}

/// Decompresses a whole MCC cache file. The header is kept as it is; the
/// sections follow in the order 0, 1, 3, 2, each padded to `align` and stored
/// (type 0) or LZMA-compressed (type 3). Returns the bytes and, for each
/// section, its new offset minus its virtual address.
pub fn decompress_mcc_cache_file(
    file_bytes: &[u8],
    header_size: usize,
    sections: &[MccCacheSection],
    align: u32,
) -> (r: Result<(Vec<u8>, [u32; 4]), String>)
    requires
        !(cache_file_outcome(file_bytes@, header_size as nat, sections@, align) is Aborts),
    ensures
        match r {
            Ok((out, masks)) => cache_file_outcome(file_bytes@, header_size as nat, sections@, align)
                == CacheOutcome::Done(out@, masks@),
            Err(e) => cache_file_outcome(file_bytes@, header_size as nat, sections@, align)
                == CacheOutcome::Refused(e@),
        },
{
    try_decompress_mcc_cache_file(file_bytes, header_size, sections, align)
}

} // verus!
