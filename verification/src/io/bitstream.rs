use vstd::prelude::*;
use vstd::arithmetic::power2::*;
use vstd::arithmetic::div_mod::*;
use crate::result::{BLFLibError, BLFLibResult};

verus! {

/// The `n` low bits of `value`, most significant bit first.
pub open spec fn bits_of(value: nat, n: nat) -> Seq<bool>
    decreases n,
{
    if n == 0 {
        Seq::empty()
    } else {
        bits_of(value / 2, (n - 1) as nat).push(value % 2 == 1)
    }
}

/// The unsigned value of a bit sequence read most significant bit first.
pub open spec fn value_of(bits: Seq<bool>) -> nat
    decreases bits.len(),
{
    if bits.len() == 0 {
        0
    } else {
        2 * value_of(bits.drop_last()) + (if bits.last() { 1nat } else { 0nat })
    }
}

/// Whether `value` fits in `n` bits.
pub open spec fn fits_unsigned(value: int, n: nat) -> bool {
    0 <= value < pow2(n)
}

/// Whether `value` fits in `n` bits as a two's complement number.
pub open spec fn fits_signed(value: int, n: nat) -> bool {
    n >= 1 && -pow2((n - 1) as nat) <= value < pow2((n - 1) as nat)
}

/// The two's complement pattern of `value` in `n` bits, as an unsigned number.
pub open spec fn twos_complement(value: int, n: nat) -> nat {
    if value < 0 { (value + pow2(n)) as nat } else { value as nat }
}

/// The signed value of an `n`-bit two's complement pattern.
pub open spec fn sign_extend(pattern: nat, n: nat) -> int {
    if n >= 1 && pattern >= pow2((n - 1) as nat) { pattern - pow2(n) } else { pattern as int }
}

/// The bits of `value` in `n` bits two's complement, most significant bit first.
pub open spec fn signed_bits_of(value: int, n: nat) -> Seq<bool> {
    bits_of(twos_complement(value, n), n)
}

/// Whether a bit width is one that the integer operations accept.
pub open spec fn valid_width(n: nat) -> bool {
    1 <= n <= 64
}

pub proof fn lemma_value_of_bound(bits: Seq<bool>)
    ensures
        value_of(bits) < pow2(bits.len()),
    decreases bits.len(),
{
    reveal(pow2);
    if bits.len() > 0 {
        lemma_value_of_bound(bits.drop_last());
        lemma_pow2_unfold(bits.len());
    } else {
        lemma_pow2_pos(0);
    }
}

pub proof fn lemma_bits_of_len(value: nat, n: nat)
    ensures
        bits_of(value, n).len() == n,
    decreases n,
{
    if n > 0 {
        lemma_bits_of_len(value / 2, (n - 1) as nat);
    }
}

/// Reading `n` bits back gives the value that was written, taken modulo `2^n`.
pub proof fn lemma_value_of_bits_of(value: nat, n: nat)
    ensures
        value_of(bits_of(value, n)) == value % pow2(n),
    decreases n,
{
    lemma_bits_of_len(value, n);
    if n == 0 {
        lemma2_to64();
        assert(value % 1 == 0) by (nonlinear_arith);
    } else {
        let b = bits_of(value, n);
        let p = pow2((n - 1) as nat);
        lemma_bits_of_len(value / 2, (n - 1) as nat);
        assert(b.drop_last() =~= bits_of(value / 2, (n - 1) as nat));
        lemma_value_of_bits_of(value / 2, (n - 1) as nat);
        lemma_pow2_unfold(n);
        lemma_pow2_pos((n - 1) as nat);
        lemma_mod_breakdown(value as int, 2, p as int);
        assert(value_of(b) == 2 * value_of(b.drop_last()) + (if b.last() { 1nat } else { 0nat }));
        assert(value_of(b) == 2 * ((value / 2) % p) + value % 2);
        assert(pow2(n) == 2 * p);
    }
}

/// Fields go most significant bit first: the bit at position `i` of the `n`
/// bits of `value` is the bit of weight `2^(n - 1 - i)`.
pub proof fn lemma_bits_of_weight(value: nat, n: nat, i: int)
    requires
        0 <= i < n,
    ensures
        bits_of(value, n)[i] == ((value / pow2((n - 1 - i) as nat)) % 2 == 1),
    decreases n,
{
    let b = bits_of(value, n);
    lemma_bits_of_len(value / 2, (n - 1) as nat);
    assert(b == bits_of(value / 2, (n - 1) as nat).push(value % 2 == 1));
    if i == n - 1 {
        lemma2_to64();
        assert(b[i] == (value % 2 == 1));
        assert(value / pow2(0) == value);
    } else {
        lemma_bits_of_weight(value / 2, (n - 1) as nat, i);
        assert(b[i] == bits_of(value / 2, (n - 1) as nat)[i]);
        let k = (n - 2 - i) as nat;
        assert((n - 1 - i) as nat == k + 1);
        lemma_pow2_unfold(k + 1);
        lemma_pow2_pos(k);
        lemma_div_denominator(value as int, 2, pow2(k) as int);
        assert(pow2(k + 1) == 2 * pow2(k));
        assert((value / 2) / pow2(k) == value / pow2(k + 1));
    }
}

/// Writing the value of a bit sequence gives back the same sequence.
pub proof fn lemma_bits_of_value_of(bits: Seq<bool>)
    ensures
        bits_of(value_of(bits), bits.len()) == bits,
    decreases bits.len(),
{
    if bits.len() > 0 {
        let v = value_of(bits);
        let rest = bits.drop_last();
        lemma_bits_of_value_of(rest);
        let b: nat = if bits.last() { 1 } else { 0 };
        assert(v == 2 * value_of(rest) + b);
        assert(v / 2 == value_of(rest)) by (nonlinear_arith)
            requires v == 2 * value_of(rest) + b, b < 2;
        assert(v % 2 == b) by (nonlinear_arith)
            requires v == 2 * value_of(rest) + b, b < 2;
        lemma_bits_of_len(v, bits.len());
        assert(bits_of(v, bits.len()) =~= bits);
    }
}

/// Appends the `n` low bits of `value`, most significant first.
fn push_bits(bits: &mut Vec<bool>, value: u64, n: usize)
    requires
        n <= 64,
    ensures
        final(bits)@ == old(bits)@ + bits_of(value as nat, n as nat),
    decreases n,
{
    if n == 0 {
        assert(old(bits)@ + bits_of(value as nat, 0) =~= old(bits)@);
    } else {
        push_bits(bits, value / 2, n - 1);
        bits.push(value % 2 == 1);
        assert(bits@ =~= old(bits)@ + bits_of(value as nat, n as nat));
    }
}

/// Writes bits to a growing buffer, most significant bit of each field first.
pub struct c_bitstream_writer {
    bits: Vec<bool>,
}

impl View for c_bitstream_writer {
    type V = Seq<bool>;

    closed spec fn view(&self) -> Seq<bool> {
        self.bits@
    }
}

impl c_bitstream_writer {
    /// An empty writer.
    pub fn new() -> (w: Self)
        ensures
            w@ == Seq::<bool>::empty(),
    {
        c_bitstream_writer { bits: Vec::new() }
    }

    /// The number of bits written so far.
    pub fn bit_count(&self) -> (n: usize)
        ensures
            n == self@.len(),
    {
        self.bits.len()
    }

    /// Writes one bit.
    pub fn write_bool(&mut self, value: bool) -> (r: BLFLibResult)
        ensures
            r is Ok,
            final(self)@ == old(self)@.push(value),
    {
        self.bits.push(value);
        Ok(())
    }

    /// Writes `value` in `size_in_bits` bits. Fails, writing nothing, when the
    /// width is not 1..=64 or the value does not fit in it.
    pub fn write_integer(&mut self, value: u64, size_in_bits: usize) -> (r: BLFLibResult)
        ensures
            r matches Ok(_) <==> valid_width(size_in_bits as nat) && fits_unsigned(value as int, size_in_bits as nat),
            r matches Err(e) ==> final(self)@ == old(self)@ && (
                if !valid_width(size_in_bits as nat) { e is BitCountOutOfRange } else { e is ValueOutOfRange }),
            r is Ok ==> final(self)@ == old(self)@ + bits_of(value as nat, size_in_bits as nat),
    {
        if size_in_bits == 0 || size_in_bits > 64 {
            return Err(BLFLibError::BitCountOutOfRange);
        }
        if !fits_u64(value, size_in_bits) {
            return Err(BLFLibError::ValueOutOfRange);
        }
        push_bits(&mut self.bits, value, size_in_bits);
        Ok(())
    }

    /// Writes a 64-bit value in `size_in_bits` bits; the same as `write_integer`.
    pub fn write_qword(&mut self, value: u64, size_in_bits: usize) -> (r: BLFLibResult)
        ensures
            r is Ok <==> valid_width(size_in_bits as nat) && fits_unsigned(value as int, size_in_bits as nat),
            r is Err ==> final(self)@ == old(self)@,
            r is Ok ==> final(self)@ == old(self)@ + bits_of(value as nat, size_in_bits as nat),
    {
        self.write_integer(value, size_in_bits)
    }

    /// Writes `value` in `size_in_bits` bits two's complement. Fails, writing
    /// nothing, when the width is not 1..=64 or the value does not fit.
    pub fn write_signed_integer(&mut self, value: i64, size_in_bits: usize) -> (r: BLFLibResult)
        ensures
            r is Ok <==> valid_width(size_in_bits as nat) && fits_signed(value as int, size_in_bits as nat),
            r is Err ==> final(self)@ == old(self)@,
            r is Ok ==> final(self)@ == old(self)@ + signed_bits_of(value as int, size_in_bits as nat),
    {
        if size_in_bits == 0 || size_in_bits > 64 {
            return Err(BLFLibError::BitCountOutOfRange);
        }
        let n = size_in_bits;
        proof {
            lemma_pow2_pos((n - 1) as nat);
            lemma_pow2_unfold(n as nat);
        }
        let half: u64 = pow2_u64(n - 1);
        let mask: u64 = if n == 64 {
            proof { lemma2_to64(); lemma2_to64_rest(); }
            u64::MAX
        } else {
            pow2_u64(n) - 1
        };
        proof {
            if n == 64 { lemma2_to64(); lemma2_to64_rest(); }
        }
        let pattern: u64;
        if value >= 0 {
            if value as u64 >= half {
                return Err(BLFLibError::ValueOutOfRange);
            }
            pattern = value as u64;
        } else {
            let magnitude_less_one: u64 = (-(value + 1)) as u64;
            if magnitude_less_one >= half {
                return Err(BLFLibError::ValueOutOfRange);
            }
            pattern = mask - magnitude_less_one;
        }
        push_bits(&mut self.bits, pattern, n);
        Ok(())
    }
}

/// `2^n` as a `u64`, for `n < 64`.
pub fn pow2_u64(n: usize) -> (p: u64)
    requires
        n < 64,
    ensures
        p == pow2(n as nat),
{
    proof {
        vstd::bits::lemma_u64_pow2_no_overflow(n as nat);
        vstd::bits::lemma_u64_shl_is_mul(1, n as u64);
    }
    1u64 << (n as u64)
}

/// Whether `value` fits in `n` bits, for `1 <= n <= 64`.
pub fn fits_u64(value: u64, n: usize) -> (b: bool)
    requires
        1 <= n <= 64,
    ensures
        b == fits_unsigned(value as int, n as nat),
{
    if n == 64 {
        proof { lemma2_to64(); lemma2_to64_rest(); }
        true
    } else {
        value < pow2_u64(n)
    }
}


/// The bits of a byte sequence, each byte most significant bit first.
pub open spec fn unpack(bytes: Seq<u8>) -> Seq<bool> {
    Seq::new(8 * bytes.len(), |i: int| bits_of(bytes[i / 8] as nat, 8)[i % 8])
}

/// The number of bytes that hold `n` bits.
pub open spec fn byte_count(n: nat) -> nat {
    (n + 7) / 8
}

/// `bits` followed by zero bits up to a whole number of bytes.
pub open spec fn padded(bits: Seq<bool>) -> Seq<bool> {
    Seq::new(8 * byte_count(bits.len()), |i: int| if i < bits.len() { bits[i] } else { false })
}

/// The bytes that hold `bits`, most significant bit first, the last byte
/// filled up with zero bits.
pub open spec fn pack(bits: Seq<bool>) -> Seq<u8> {
    Seq::new(byte_count(bits.len()), |k: int| value_of(padded(bits).subrange(8 * k, 8 * k + 8)) as u8)
}

proof fn lemma_byte_bits(bits: Seq<bool>)
    requires
        bits.len() == 8,
    ensures
        value_of(bits) < 256,
        bits_of((value_of(bits) as u8) as nat, 8) == bits,
{
    lemma_value_of_bound(bits);
    lemma2_to64();
    lemma_bits_of_value_of(bits);
}

/// Unpacking the packed bytes gives back the bits, followed by the zero
/// padding of the last byte.
pub proof fn lemma_unpack_pack(bits: Seq<bool>)
    ensures
        unpack(pack(bits)) == padded(bits),
        padded(bits).take(bits.len() as int) == bits,
        pack(bits).len() == byte_count(bits.len()),
{
    let p = padded(bits);
    let bytes = pack(bits);
    assert forall|i: int| 0 <= i < 8 * bytes.len() implies #[trigger] unpack(bytes)[i] == p[i] by {
        let k = i / 8;
        let sub = p.subrange(8 * k, 8 * k + 8);
        lemma_byte_bits(sub);
        assert(bytes[k] == value_of(sub) as u8);
        assert(sub[i % 8] == p[8 * k + i % 8]);
        assert(8 * k + i % 8 == i);
    }
    assert(unpack(bytes) =~= p);
    assert(p.take(bits.len() as int) =~= bits);
}

pub proof fn lemma_unpack_push(bytes: Seq<u8>, b: u8)
    ensures
        unpack(bytes.push(b)) == unpack(bytes) + bits_of(b as nat, 8),
{
    lemma_bits_of_len(b as nat, 8);
    let l = unpack(bytes.push(b));
    let r = unpack(bytes) + bits_of(b as nat, 8);
    assert forall|i: int| 0 <= i < l.len() implies #[trigger] l[i] == r[i] by {
        if i < 8 * bytes.len() {
            assert(i / 8 < bytes.len());
        } else {
            assert(i / 8 == bytes.len());
            assert(i % 8 == i - 8 * bytes.len());
        }
    }
    assert(l =~= r);
}

impl c_bitstream_writer {
    /// The written bits packed into bytes, most significant bit first; the last
    /// byte is filled up with zero bits.
    pub fn get_data(&self) -> (data: Vec<u8>)
        ensures
            data@ == pack(self@),
    {
        let n = self.bits.len();
        let count: usize = n / 8 + if n % 8 == 0 { 0 } else { 1 };
        assert(count == byte_count(n as nat));
        let ghost p = padded(self@);
        let mut data: Vec<u8> = Vec::new();
        let mut k: usize = 0;
        while k < count
            invariant
                n == self.bits@.len(),
                count == byte_count(n as nat),
                p == padded(self@),
                k <= count,
                data@.len() == k,
                forall|j: int| 0 <= j < k ==> #[trigger] data@[j] == pack(self@)[j],
            decreases count - k,
        {
            let mut acc: u64 = 0;
            let mut j: usize = 0;
            proof { lemma2_to64(); }
            while j < 8
                invariant
                    n == self.bits@.len(),
                    p == padded(self@),
                    k < count,
                    count == byte_count(n as nat),
                    j <= 8,
                    acc == value_of(p.subrange(8 * k, 8 * k + j)),
                    acc < pow2(j as nat),
                decreases 8 - j,
            {
                let idx = 8 * k + j;
                let bit: bool = if idx < n { self.bits[idx] } else { false };
                proof {
                    let s1 = p.subrange(8 * k, 8 * k + j + 1);
                    assert(s1.drop_last() =~= p.subrange(8 * k, 8 * k + j));
                    assert(s1.last() == bit);
                    lemma_pow2_unfold((j + 1) as nat);
                    lemma2_to64();
                }
                acc = acc * 2 + if bit { 1 } else { 0 };
                j = j + 1;
            }
            proof { lemma2_to64(); }
            data.push(acc as u8);
            k = k + 1;
        }
        assert(data@ =~= pack(self@));
        data
    }
}

/// Reads bits from a byte buffer, most significant bit of each field first.
pub struct c_bitstream_reader {
    bits: Vec<bool>,
    position: usize,
}

impl c_bitstream_reader {
    #[verifier::type_invariant]
    spec fn inv(self) -> bool {
        self.position <= self.bits.len()
    }

    /// The bits of the whole buffer.
    pub closed spec fn data(&self) -> Seq<bool> {
        self.bits@
    }

    /// The number of bits read so far.
    pub closed spec fn position(&self) -> nat {
        self.position as nat
    }

    /// The bits not yet read.
    pub closed spec fn remaining(&self) -> Seq<bool> {
        self.bits@.subrange(self.position as int, self.bits@.len() as int)
    }

    /// A reader over `data`, positioned at its first bit.
    pub fn new(data: &[u8]) -> (r: Self)
        ensures
            r.data() == unpack(data@),
            r.position() == 0,
            r.remaining() == unpack(data@),
    {
        let mut bits: Vec<bool> = Vec::new();
        let mut k: usize = 0;
        while k < data.len()
            invariant
                k <= data@.len(),
                bits@ == unpack(data@.take(k as int)),
            decreases data.len() - k,
        {
            proof {
                assert(data@.take(k + 1) =~= data@.take(k as int).push(data@[k as int]));
                lemma_unpack_push(data@.take(k as int), data@[k as int]);
            }
            push_bits(&mut bits, data[k] as u64, 8);
            k = k + 1;
        }
        assert(data@.take(data@.len() as int) =~= data@);
        let r = c_bitstream_reader { bits, position: 0 };
        assert(r.remaining() =~= r.data());
        r
    }

    /// The number of bits not yet read.
    pub fn bits_remaining(&self) -> (n: usize)
        ensures
            n == self.remaining().len(),
    {
        proof { use_type_invariant(self); }
        self.bits.len() - self.position
    }

    fn take_bits(&mut self, n: usize) -> (v: u64)
        requires
            n <= 64,
            old(self).remaining().len() >= n,
        ensures
            v == value_of(old(self).remaining().take(n as int)),
            final(self).remaining() == old(self).remaining().skip(n as int),
            final(self).data() == old(self).data(),
            final(self).position() == old(self).position() + n,
        decreases n,
    {
        proof { use_type_invariant(&*self); }
        if n == 0 {
            assert(old(self).remaining().skip(0) =~= old(self).remaining());
            0
        } else {
            let hi = self.take_bits(n - 1);
            proof { use_type_invariant(&*self); }
            let b = self.bits[self.position];
            self.position = self.position + 1;
            proof {
                let rem = old(self).remaining();
                let t = rem.take(n as int);
                assert(t.drop_last() =~= rem.take(n - 1));
                assert(t.last() == b);
                assert(self.remaining() =~= rem.skip(n as int));
                lemma_value_of_bound(rem.take(n - 1));
                if n - 1 < 63 {
                    lemma_pow2_strictly_increases((n - 1) as nat, 63);
                }
                lemma2_to64();
                lemma2_to64_rest();
            }
            hi * 2 + if b { 1 } else { 0 }
        }
    }

    /// Reads one bit. Fails, reading nothing, at the end of the data.
    pub fn read_unnamed_bool(&mut self) -> (r: BLFLibResult<bool>)
        ensures
            final(self).data() == old(self).data(),
            r is Ok <==> old(self).remaining().len() >= 1,
            r matches Ok(b) ==> b == old(self).remaining()[0] && final(self).remaining() == old(self).remaining().skip(1),
            r matches Err(e) ==> e is EndOfStream && final(self).remaining() == old(self).remaining(),
    {
        proof { use_type_invariant(&*self); }
        if self.position >= self.bits.len() {
            return Err(BLFLibError::EndOfStream);
        }
        let b = self.bits[self.position];
        self.position = self.position + 1;
        assert(self.remaining() =~= old(self).remaining().skip(1));
        Ok(b)
    }

    /// Reads one bit; `_name` labels the field for the reader's caller only.
    pub fn read_bool(&mut self, _name: &str) -> (r: BLFLibResult<bool>)
        ensures
            final(self).data() == old(self).data(),
            r is Ok <==> old(self).remaining().len() >= 1,
            r matches Ok(b) ==> b == old(self).remaining()[0] && final(self).remaining() == old(self).remaining().skip(1),
            r matches Err(e) ==> e is EndOfStream && final(self).remaining() == old(self).remaining(),
    {
        self.read_unnamed_bool()
    }

    /// Reads an unsigned `size_in_bits`-bit value. Fails, reading nothing, when
    /// the width is not 1..=64 or fewer bits remain.
    pub fn read_unnamed_integer(&mut self, size_in_bits: usize) -> (r: BLFLibResult<u64>)
        ensures
            final(self).data() == old(self).data(),
            r is Ok <==> valid_width(size_in_bits as nat) && old(self).remaining().len() >= size_in_bits,
            r matches Ok(v) ==> v == value_of(old(self).remaining().take(size_in_bits as int))
                && v < pow2(size_in_bits as nat)
                && final(self).remaining() == old(self).remaining().skip(size_in_bits as int),
            r matches Err(e) ==> final(self).remaining() == old(self).remaining() && (
                if !valid_width(size_in_bits as nat) { e is BitCountOutOfRange } else { e is EndOfStream }),
    {
        proof { use_type_invariant(&*self); }
        if size_in_bits == 0 || size_in_bits > 64 {
            return Err(BLFLibError::BitCountOutOfRange);
        }
        if self.bits.len() - self.position < size_in_bits {
            return Err(BLFLibError::EndOfStream);
        }
        let v = self.take_bits(size_in_bits);
        proof {
            lemma_value_of_bound(old(self).remaining().take(size_in_bits as int));
        }
        Ok(v)
    }

    /// Reads an unsigned value; `_name` labels the field for the caller only.
    pub fn read_integer(&mut self, _name: &str, size_in_bits: usize) -> (r: BLFLibResult<u64>)
        ensures
            final(self).data() == old(self).data(),
            r is Ok <==> valid_width(size_in_bits as nat) && old(self).remaining().len() >= size_in_bits,
            r matches Ok(v) ==> v == value_of(old(self).remaining().take(size_in_bits as int))
                && v < pow2(size_in_bits as nat)
                && final(self).remaining() == old(self).remaining().skip(size_in_bits as int),
            r is Err ==> final(self).remaining() == old(self).remaining(),
    {
        self.read_unnamed_integer(size_in_bits)
    }

    /// Reads a 64-bit value in `size_in_bits` bits; the same as `read_unnamed_integer`.
    pub fn read_qword(&mut self, size_in_bits: usize) -> (r: BLFLibResult<u64>)
        ensures
            final(self).data() == old(self).data(),
            r is Ok <==> valid_width(size_in_bits as nat) && old(self).remaining().len() >= size_in_bits,
            r matches Ok(v) ==> v == value_of(old(self).remaining().take(size_in_bits as int))
                && final(self).remaining() == old(self).remaining().skip(size_in_bits as int),
            r is Err ==> final(self).remaining() == old(self).remaining(),
    {
        self.read_unnamed_integer(size_in_bits)
    }

    /// Reads a `size_in_bits`-bit two's complement value. Fails, reading
    /// nothing, when the width is not 1..=64 or fewer bits remain.
    pub fn read_unnamed_signed_integer(&mut self, size_in_bits: usize) -> (r: BLFLibResult<i64>)
        ensures
            final(self).data() == old(self).data(),
            r is Ok <==> valid_width(size_in_bits as nat) && old(self).remaining().len() >= size_in_bits,
            r matches Ok(v) ==> v == sign_extend(value_of(old(self).remaining().take(size_in_bits as int)), size_in_bits as nat)
                && fits_signed(v as int, size_in_bits as nat)
                && final(self).remaining() == old(self).remaining().skip(size_in_bits as int),
            r is Err ==> final(self).remaining() == old(self).remaining(),
    {
        let u = self.read_unnamed_integer(size_in_bits)?;
        let n = size_in_bits;
        proof {
            lemma_pow2_pos((n - 1) as nat);
            lemma_pow2_unfold(n as nat);
            if n == 64 { lemma2_to64(); lemma2_to64_rest(); }
        }
        let half: u64 = pow2_u64(n - 1);
        proof {
            if n - 1 < 63 {
                lemma_pow2_strictly_increases((n - 1) as nat, 63);
            }
            lemma2_to64();
            lemma2_to64_rest();
            assert(half <= 0x8000_0000_0000_0000u64);
        }
        if u < half {
            Ok(u as i64)
        } else {
            let mask: u64 = if n == 64 { u64::MAX } else { pow2_u64(n) - 1 };
            assert(mask == pow2(n as nat) - 1);
            let below: u64 = mask - u;
            assert(below < half);
            Ok(-(below as i64) - 1)
        }
    }

    /// Reads a two's complement value; `_name` labels the field for the caller only.
    pub fn read_signed_integer(&mut self, _name: &str, size_in_bits: usize) -> (r: BLFLibResult<i64>)
        ensures
            final(self).data() == old(self).data(),
            r is Ok <==> valid_width(size_in_bits as nat) && old(self).remaining().len() >= size_in_bits,
            r matches Ok(v) ==> v == sign_extend(value_of(old(self).remaining().take(size_in_bits as int)), size_in_bits as nat)
                && fits_signed(v as int, size_in_bits as nat)
                && final(self).remaining() == old(self).remaining().skip(size_in_bits as int),
            r is Err ==> final(self).remaining() == old(self).remaining(),
    {
        self.read_unnamed_signed_integer(size_in_bits)
    }
}


/// Skipping twice skips the sum.
pub broadcast proof fn lemma_skip_skip(s: Seq<bool>, a: int, b: int)
    requires
        0 <= a,
        0 <= b,
        a + b <= s.len(),
    ensures
        #[trigger] s.skip(a).skip(b) == s.skip(a + b),
{
    assert(s.skip(a).skip(b) =~= s.skip(a + b));
}

/// Taking after skipping is a subrange.
pub broadcast proof fn lemma_skip_take(s: Seq<bool>, a: int, b: int)
    requires
        0 <= a,
        0 <= b,
        a + b <= s.len(),
    ensures
        #[trigger] s.skip(a).take(b) == s.subrange(a, a + b),
{
    assert(s.skip(a).take(b) =~= s.subrange(a, a + b));
}

pub broadcast group group_bitstream_seq {
    lemma_skip_skip,
    lemma_skip_take,
}

/// An unsigned field written in `n` bits reads back as the same value.
pub proof fn lemma_unsigned_roundtrip(value: nat, n: nat)
    requires
        fits_unsigned(value as int, n),
    ensures
        value_of(bits_of(value, n)) == value,
        bits_of(value, n).len() == n,
{
    lemma_value_of_bits_of(value, n);
    lemma_bits_of_len(value, n);
    lemma_small_mod(value, pow2(n));
}

/// A signed field written in `n` bits two's complement reads back as the
/// same value.
pub proof fn lemma_signed_roundtrip(value: int, n: nat)
    requires
        fits_signed(value, n),
    ensures
        sign_extend(value_of(signed_bits_of(value, n)), n) == value,
        signed_bits_of(value, n).len() == n,
{
    lemma_pow2_unfold(n);
    lemma_pow2_pos((n - 1) as nat);
    let t = twos_complement(value, n);
    assert(t < pow2(n));
    lemma_unsigned_roundtrip(t, n);
}

/// The unsigned value of the `width` bits at `offset`.
pub open spec fn field_at(bits: Seq<bool>, offset: int, width: int) -> nat {
    value_of(bits.subrange(offset, offset + width))
}

/// The bytes packed at `offset` in `w` read back one by one.
pub proof fn lemma_bytes_roundtrip(bytes: Seq<u8>, w: Seq<bool>, offset: int)
    requires
        0 <= offset,
        offset + 8 * bytes.len() <= w.len(),
        w.subrange(offset, offset + 8 * bytes.len()) == unpack(bytes),
    ensures
        unpack(bytes).len() == 8 * bytes.len(),
        forall|i: int| 0 <= i < bytes.len() ==> #[trigger] bytes[i] == field_at(w, offset + 8 * i, 8),
{
    assert forall|i: int| 0 <= i < bytes.len() implies #[trigger] bytes[i] == field_at(w, offset + 8 * i, 8) by {
        let sub = w.subrange(offset + 8 * i, offset + 8 * i + 8);
        lemma_bits_of_len(bytes[i] as nat, 8);
        assert forall|j: int| 0 <= j < 8 implies sub[j] == bits_of(bytes[i] as nat, 8)[j] by {
            assert(sub[j] == unpack(bytes)[8 * i + j]);
            assert((8 * i + j) / 8 == i);
            assert((8 * i + j) % 8 == j);
        }
        assert(sub =~= bits_of(bytes[i] as nat, 8));
        lemma2_to64();
        lemma_unsigned_roundtrip(bytes[i] as nat, 8);
    }
}

/// Reading a NUL-bounded string of at most `max` units of `w` bits from the
/// front of `bits`: the units before the terminator and the number of bits
/// read; `None` when the bits run out first. No terminator is read once
/// `max` units have been read.
pub open spec fn zstring_parse(bits: Seq<bool>, w: nat, max: nat) -> Option<(Seq<nat>, nat)>
    decreases max,
{
    if max == 0 {
        Some((Seq::empty(), 0))
    } else if bits.len() < w {
        None
    } else if value_of(bits.take(w as int)) == 0 {
        Some((Seq::empty(), w))
    } else {
        match zstring_parse(bits.skip(w as int), w, (max - 1) as nat) {
            None => None,
            Some(p) => Some((seq![value_of(bits.take(w as int))] + p.0, p.1 + w)),
        }
    }
}

/// A string read takes no more bits than there are.
pub proof fn lemma_zstring_parse_len(bits: Seq<bool>, w: nat, max: nat)
    ensures
        zstring_parse(bits, w, max) matches Some(p) ==> p.1 <= bits.len(),
    decreases max,
{
    if max > 0 && bits.len() >= w && value_of(bits.take(w as int)) != 0 {
        lemma_zstring_parse_len(bits.skip(w as int), w, (max - 1) as nat);
    }
}

/// The units of a string, each in `w` bits.
pub open spec fn units_bits(units: Seq<nat>, w: nat) -> Seq<bool>
    decreases units.len(),
{
    if units.len() == 0 {
        Seq::empty()
    } else {
        bits_of(units[0], w) + units_bits(units.drop_first(), w)
    }
}

/// A string written NUL-bounded in at most `max` units: its units, then a
/// zero unit when there is room for one.
pub open spec fn zstring_bits(units: Seq<nat>, w: nat, max: nat) -> Seq<bool> {
    units_bits(units, w) + (if units.len() < max { bits_of(0, w) } else { Seq::empty() })
}

/// Whether a string can be written NUL-bounded in `max` units of `w` bits
/// and read back whole: it is short enough and holds no zero unit.
pub open spec fn zstring_ok(units: Seq<nat>, w: nat, max: nat) -> bool {
    &&& units.len() <= max
    &&& forall|i: int| 0 <= i < units.len() ==> 0 < #[trigger] units[i] < pow2(w)
}

/// The units of a byte string.
pub open spec fn byte_units(s: Seq<u8>) -> Seq<nat> {
    s.map_values(|b: u8| b as nat)
}

/// The units of a UTF-16 string.
pub open spec fn wide_units(s: Seq<u16>) -> Seq<nat> {
    s.map_values(|c: u16| c as nat)
}

pub proof fn lemma_units_bits_len(units: Seq<nat>, w: nat)
    ensures
        units_bits(units, w).len() == units.len() * w,
    decreases units.len(),
{
    if units.len() > 0 {
        lemma_units_bits_len(units.drop_first(), w);
        lemma_bits_of_len(units[0], w);
        assert(units.len() * w == w + (units.len() - 1) * w) by (nonlinear_arith);
    }
}

/// A string written NUL-bounded reads back as the same string, whatever
/// follows it.
pub proof fn lemma_zstring_roundtrip(units: Seq<nat>, w: nat, max: nat, rest: Seq<bool>)
    requires
        w >= 1,
        zstring_ok(units, w, max),
    ensures
        zstring_parse(zstring_bits(units, w, max) + rest, w, max)
            == Some((units, zstring_bits(units, w, max).len())),
    decreases units.len(),
{
    let b = zstring_bits(units, w, max) + rest;
    lemma_bits_of_len(0, w);
    lemma_units_bits_len(units, w);
    if units.len() == 0 {
        if max > 0 {
            assert(b.take(w as int) =~= bits_of(0, w));
            lemma_value_of_bits_of(0, w);
            lemma_pow2_pos(w);
        }
    } else {
        let u = units[0];
        let tail = units.drop_first();
        lemma_bits_of_len(u, w);
        assert(zstring_ok(tail, w, (max - 1) as nat)) by {
            assert forall|i: int| 0 <= i < tail.len() implies 0 < #[trigger] tail[i] < pow2(w) by {
                assert(tail[i] == units[i + 1]);
            }
        }
        lemma_zstring_roundtrip(tail, w, (max - 1) as nat, rest);
        assert(units_bits(units, w) == bits_of(u, w) + units_bits(tail, w));
        assert(b =~= bits_of(u, w) + (zstring_bits(tail, w, (max - 1) as nat) + rest));
        assert(b.take(w as int) =~= bits_of(u, w));
        assert(b.skip(w as int) =~= zstring_bits(tail, w, (max - 1) as nat) + rest);
        assert(0 < units[0] < pow2(w));
        lemma_unsigned_roundtrip(u, w);
        assert(seq![u] + tail =~= units);
    }
}

impl c_bitstream_reader {
    /// Reads a NUL-bounded string of at most `max` units of `unit_bits`
    /// bits. Fails, reading nothing, when the data ends first.
    fn read_zstring_units(&mut self, unit_bits: usize, max: usize) -> (r: BLFLibResult<Vec<u64>>)
        requires
            1 <= unit_bits <= 64,
        ensures
            final(self).data() == old(self).data(),
            match zstring_parse(old(self).remaining(), unit_bits as nat, max as nat) {
                None => r is Err && final(self).remaining() == old(self).remaining(),
                Some(p) => r matches Ok(v)
                    && v@.map_values(|x: u64| x as nat) == p.0
                    && (forall|i: int| 0 <= i < v@.len() ==> #[trigger] v@[i] < pow2(unit_bits as nat))
                    && final(self).remaining() == old(self).remaining().skip(p.1 as int),
            },
    {
        proof { use_type_invariant(&*self); }
        let ghost rem0 = self.remaining();
        let ghost whole = zstring_parse(rem0, unit_bits as nat, max as nat);
        let start = self.position;
        let mut units: Vec<u64> = Vec::new();
        let mut i: usize = 0;
        let mut done = false;
        while i < max && !done
            invariant
                1 <= unit_bits <= 64,
                i <= max,
                rem0 == old(self).remaining(),
                whole == zstring_parse(rem0, unit_bits as nat, max as nat),
                self.data() == old(self).data(),
                start == old(self).position(),
                self.position() >= start,
                rem0 == old(self).data().subrange(start as int, old(self).data().len() as int),
                self.remaining() == rem0.skip(self.position() - start),
                self.position() - start <= rem0.len(),
                forall|k: int| 0 <= k < units@.len() ==> #[trigger] units@[k] < pow2(unit_bits as nat),
                done ==> whole == Some((units@.map_values(|x: u64| x as nat), (self.position() - start) as nat)),
                !done ==> match zstring_parse(self.remaining(), unit_bits as nat, (max - i) as nat) {
                    None => whole is None,
                    Some(p) => whole == Some((units@.map_values(|x: u64| x as nat) + p.0, ((self.position() - start) + p.1) as nat)),
                },
            decreases max - i + (if done { 0int } else { 1int }),
        {
            proof { use_type_invariant(&*self); }
            if self.bits.len() - self.position < unit_bits {
                self.position = start;
                assert(self.remaining() =~= rem0);
                return Err(BLFLibError::EndOfStream);
            }
            let ghost cur = self.remaining();
            let ghost before = units@.map_values(|x: u64| x as nat);
            let u = self.take_bits(unit_bits);
            proof {
                lemma_value_of_bound(cur.take(unit_bits as int));
                assert(cur.skip(unit_bits as int) == self.remaining());
                assert(self.remaining() =~= rem0.skip(self.position() - start));
            }
            if u == 0 {
                done = true;
            } else {
                units.push(u);
                assert(units@.map_values(|x: u64| x as nat) =~= before + seq![u as nat]);
                i = i + 1;
                proof {
                    match zstring_parse(self.remaining(), unit_bits as nat, (max - i) as nat) {
                        None => {},
                        Some(p) => {
                            assert(before + (seq![u as nat] + p.0) =~= (before + seq![u as nat]) + p.0);
                        },
                    }
                }
            }
        }
        proof {
            if !done {
                assert(i == max);
                assert(units@.map_values(|x: u64| x as nat) + Seq::<nat>::empty() =~= units@.map_values(|x: u64| x as nat));
            }
            assert(self.remaining() =~= rem0.skip(self.position() - start));
        }
        Ok(units)
    }
}


pub proof fn lemma_units_bits_push(units: Seq<nat>, u: nat, w: nat)
    ensures
        units_bits(units.push(u), w) == units_bits(units, w) + bits_of(u, w),
    decreases units.len(),
{
    if units.len() == 0 {
        assert(units.push(u).drop_first() =~= Seq::<nat>::empty());
        assert(units_bits(Seq::<nat>::empty(), w) =~= Seq::<bool>::empty());
        assert(units.push(u)[0] == u);
        assert(units_bits(units.push(u), w) == bits_of(u, w) + units_bits(Seq::<nat>::empty(), w));
        assert(units_bits(units.push(u), w) =~= bits_of(u, w));
        assert(units_bits(units, w) =~= Seq::<bool>::empty());
    } else {
        lemma_units_bits_push(units.drop_first(), u, w);
        assert(units.push(u).drop_first() =~= units.drop_first().push(u));
        assert(units_bits(units.push(u), w) =~= units_bits(units, w) + bits_of(u, w));
    }
}

impl c_bitstream_writer {
    /// Writes an extended-ASCII string NUL-bounded in at most `max_length`
    /// bytes: its bytes, then a zero byte when there is room. Fails, writing
    /// nothing, when the string is longer than that.
    pub fn write_string_extended_ascii(&mut self, value: &[u8], max_length: usize) -> (r: BLFLibResult)
        ensures
            r is Ok <==> value@.len() <= max_length,
            r is Err ==> final(self)@ == old(self)@,
            r is Ok ==> final(self)@ == old(self)@ + zstring_bits(byte_units(value@), 8, max_length as nat),
    {
        if value.len() > max_length {
            return Err(BLFLibError::ValueOutOfRange);
        }
        let mut i: usize = 0;
        while i < value.len()
            invariant
                i <= value@.len(),
                self@ == old(self)@ + units_bits(byte_units(value@.take(i as int)), 8),
            decreases value.len() - i,
        {
            push_bits(&mut self.bits, value[i] as u64, 8);
            proof {
                assert(byte_units(value@.take(i + 1)) =~= byte_units(value@.take(i as int)).push(value@[i as int] as nat));
                lemma_units_bits_push(byte_units(value@.take(i as int)), value@[i as int] as nat, 8);
            }
            i = i + 1;
        }
        assert(value@.take(value@.len() as int) =~= value@);
        if value.len() < max_length {
            push_bits(&mut self.bits, 0, 8);
        } else {
            assert(self@ =~= self@ + Seq::<bool>::empty());
        }
        Ok(())
    }

    /// Writes a UTF-8 string NUL-bounded in at most `max_length` bytes, as
    /// `write_string_extended_ascii` does.
    pub fn write_string_utf8(&mut self, value: &[u8], max_length: usize) -> (r: BLFLibResult)
        ensures
            r is Ok <==> value@.len() <= max_length,
            r is Err ==> final(self)@ == old(self)@,
            r is Ok ==> final(self)@ == old(self)@ + zstring_bits(byte_units(value@), 8, max_length as nat),
    {
        self.write_string_extended_ascii(value, max_length)
    }

    /// Writes a UTF-16 string NUL-bounded in at most `max_length` 16-bit
    /// units. Fails, writing nothing, when the string is longer than that.
    pub fn write_string_wchar(&mut self, value: &[u16], max_length: usize) -> (r: BLFLibResult)
        ensures
            r is Ok <==> value@.len() <= max_length,
            r is Err ==> final(self)@ == old(self)@,
            r is Ok ==> final(self)@ == old(self)@ + zstring_bits(wide_units(value@), 16, max_length as nat),
    {
        if value.len() > max_length {
            return Err(BLFLibError::ValueOutOfRange);
        }
        let mut i: usize = 0;
        while i < value.len()
            invariant
                i <= value@.len(),
                self@ == old(self)@ + units_bits(wide_units(value@.take(i as int)), 16),
            decreases value.len() - i,
        {
            push_bits(&mut self.bits, value[i] as u64, 16);
            proof {
                assert(wide_units(value@.take(i + 1)) =~= wide_units(value@.take(i as int)).push(value@[i as int] as nat));
                lemma_units_bits_push(wide_units(value@.take(i as int)), value@[i as int] as nat, 16);
            }
            i = i + 1;
        }
        assert(value@.take(value@.len() as int) =~= value@);
        if value.len() < max_length {
            push_bits(&mut self.bits, 0, 16);
        } else {
            assert(self@ =~= self@ + Seq::<bool>::empty());
        }
        Ok(())
    }
}

impl c_bitstream_reader {
    /// Reads an extended-ASCII string NUL-bounded in at most `max_length`
    /// bytes. Fails, reading nothing, when the data ends first.
    pub fn read_string_extended_ascii(&mut self, max_length: usize) -> (r: BLFLibResult<Vec<u8>>)
        ensures
            final(self).data() == old(self).data(),
            match zstring_parse(old(self).remaining(), 8, max_length as nat) {
                None => r is Err && final(self).remaining() == old(self).remaining(),
                Some(p) => r matches Ok(v) && byte_units(v@) == p.0
                    && final(self).remaining() == old(self).remaining().skip(p.1 as int),
            },
    {
        let units = self.read_zstring_units(8, max_length)?;
        let mut out: Vec<u8> = Vec::new();
        let mut i: usize = 0;
        proof { lemma2_to64(); }
        while i < units.len()
            invariant
                i <= units@.len(),
                forall|k: int| 0 <= k < units@.len() ==> #[trigger] units@[k] < pow2(8),
                pow2(8) == 256,
                out@.len() == i,
                byte_units(out@) == units@.take(i as int).map_values(|x: u64| x as nat),
            decreases units.len() - i,
        {
            let u = units[i];
            let ghost before = out@;
            assert(u < pow2(8));
            out.push(u as u8);
            assert(out@ == before.push(u as u8));
            assert(((u as u8) as nat) == u as nat);
            assert forall|j: int| 0 <= j < i + 1 implies #[trigger] byte_units(out@)[j] == units@.take(i + 1).map_values(|x: u64| x as nat)[j] by {
                if j < i {
                    assert(byte_units(before)[j] == units@.take(i as int).map_values(|x: u64| x as nat)[j]);
                }
            }
            assert(byte_units(out@) =~= units@.take(i + 1).map_values(|x: u64| x as nat));
            i = i + 1;
        }
        assert(units@.take(units@.len() as int) =~= units@);
        Ok(out)
    }

    /// Reads a UTF-8 string NUL-bounded in at most `max_length` bytes, as
    /// `read_string_extended_ascii` does.
    pub fn read_string_utf8(&mut self, max_length: usize) -> (r: BLFLibResult<Vec<u8>>)
        ensures
            final(self).data() == old(self).data(),
            match zstring_parse(old(self).remaining(), 8, max_length as nat) {
                None => r is Err && final(self).remaining() == old(self).remaining(),
                Some(p) => r matches Ok(v) && byte_units(v@) == p.0
                    && final(self).remaining() == old(self).remaining().skip(p.1 as int),
            },
    {
        self.read_string_extended_ascii(max_length)
    }

    /// Reads a UTF-16 string NUL-bounded in at most `max_length` 16-bit
    /// units. Fails, reading nothing, when the data ends first.
    pub fn read_string_wchar(&mut self, max_length: usize) -> (r: BLFLibResult<Vec<u16>>)
        ensures
            final(self).data() == old(self).data(),
            match zstring_parse(old(self).remaining(), 16, max_length as nat) {
                None => r is Err && final(self).remaining() == old(self).remaining(),
                Some(p) => r matches Ok(v) && wide_units(v@) == p.0
                    && final(self).remaining() == old(self).remaining().skip(p.1 as int),
            },
    {
        let units = self.read_zstring_units(16, max_length)?;
        let mut out: Vec<u16> = Vec::new();
        let mut i: usize = 0;
        proof { lemma2_to64(); }
        while i < units.len()
            invariant
                i <= units@.len(),
                forall|k: int| 0 <= k < units@.len() ==> #[trigger] units@[k] < pow2(16),
                pow2(16) == 65536,
                out@.len() == i,
                wide_units(out@) == units@.take(i as int).map_values(|x: u64| x as nat),
            decreases units.len() - i,
        {
            let u = units[i];
            let ghost before = out@;
            assert(u < pow2(16));
            out.push(u as u16);
            assert(out@ == before.push(u as u16));
            assert(((u as u16) as nat) == u as nat);
            assert forall|j: int| 0 <= j < i + 1 implies #[trigger] wide_units(out@)[j] == units@.take(i + 1).map_values(|x: u64| x as nat)[j] by {
                if j < i {
                    assert(wide_units(before)[j] == units@.take(i as int).map_values(|x: u64| x as nat)[j]);
                }
            }
            assert(wide_units(out@) =~= units@.take(i + 1).map_values(|x: u64| x as nat));
            i = i + 1;
        }
        assert(units@.take(units@.len() as int) =~= units@);
        Ok(out)
    }
}


impl c_bitstream_writer {
    /// Writes an index below `MAX`, or -1 for none, as the index plus one in
    /// `size_in_bits` bits. Fails, writing nothing, when the index is out of
    /// that range or does not fit.
    pub fn write_index<const MAX: u64>(&mut self, value: i64, size_in_bits: usize) -> (r: BLFLibResult)
        ensures
            r is Ok <==> -1 <= value < MAX && valid_width(size_in_bits as nat)
                && fits_unsigned(value + 1, size_in_bits as nat),
            r is Err ==> final(self)@ == old(self)@,
            r is Ok ==> final(self)@ == old(self)@ + bits_of((value + 1) as nat, size_in_bits as nat),
    {
        if value < -1 || value >= 0 && value as u64 >= MAX {
            return Err(BLFLibError::ValueOutOfRange);
        }
        let biased: u64 = if value < 0 { 0 } else { (value as u64) + 1 };
        self.write_integer(biased, size_in_bits)
    }
}

impl c_bitstream_reader {
    /// Reads an index written by `write_index`: the value read less one.
    /// Fails, reading nothing, when the width is not 1..=64, fewer bits
    /// remain, or the index is not below `MAX` or does not fit in an `i64`.
    pub fn read_index<const MAX: u64>(&mut self, _name: &str, size_in_bits: usize) -> (r: BLFLibResult<i64>)
        ensures
            final(self).data() == old(self).data(),
            r is Ok <==> valid_width(size_in_bits as nat) && old(self).remaining().len() >= size_in_bits
                && value_of(old(self).remaining().take(size_in_bits as int)) - 1 < MAX
                && value_of(old(self).remaining().take(size_in_bits as int)) - 1 <= i64::MAX,
            r matches Ok(v) ==> v == value_of(old(self).remaining().take(size_in_bits as int)) - 1
                && final(self).remaining() == old(self).remaining().skip(size_in_bits as int),
            r is Err ==> final(self).remaining() == old(self).remaining(),
    {
        proof { use_type_invariant(&*self); }
        let ghost before = self.remaining();
        let pos = self.position;
        let v = self.read_unnamed_integer(size_in_bits)?;
        if v >= 1 && (v - 1 >= MAX || v - 1 > 0x7fff_ffff_ffff_ffff) {
            self.position = pos;
            assert(self.remaining() =~= before);
            return Err(BLFLibError::ValueOutOfRange);
        }
        if v == 0 {
            Ok(-1)
        } else {
            Ok((v - 1) as i64)
        }
    }
}

} // verus!
