use vstd::prelude::*;
use vstd::arithmetic::power2::*;
use crate::io::bitstream::{
    c_bitstream_writer, c_bitstream_reader, bits_of, field_at, unpack, lemma_unpack_push, lemma_unsigned_roundtrip,
    lemma_bytes_roundtrip, group_bitstream_seq,
};
use crate::result::BLFLibResult;

verus! {

broadcast use group_bitstream_seq;

/// The loadouts a palette offers, by reference index.
#[derive(Default, PartialEq, Eq, Debug, Clone)]
pub struct s_loadout_palette_unknown_struct {
    pub m_loadouts: Vec<u8>,
}

impl s_loadout_palette_unknown_struct {
    /// The count written: the number of loadouts in 8 bits.
    pub open spec fn written_count(&self) -> nat {
        self.m_loadouts@.len() % 256
    }

    /// Whether the count written fits in 3 bits.
    pub open spec fn wire_ok(&self) -> bool {
        self.written_count() < 8
    }

    /// The encoding: the count in 3 bits, then each loadout index in 8 bits.
    pub open spec fn wire_bits(&self) -> Seq<bool> {
        bits_of(self.written_count(), 3) + unpack(self.m_loadouts@)
    }

    /// The count at the front of `bits`.
    pub open spec fn count_at(bits: Seq<bool>) -> nat {
        field_at(bits, 0, 3)
    }

    /// The `count_at(bits)` indices after the count.
    pub open spec fn entries_at(bits: Seq<bool>) -> Seq<u8> {
        Seq::new(Self::count_at(bits), |i: int| field_at(bits, 3 + 8 * i, 8) as u8)
    }

    pub fn encode(&self, bitstream: &mut c_bitstream_writer) -> (r: BLFLibResult)
        ensures
            r is Ok <==> self.wire_ok(),
            r is Ok ==> final(bitstream)@ == old(bitstream)@ + self.wire_bits(),
    {
        proof { lemma2_to64(); }
        let count = (self.m_loadouts.len() % 256) as u8;
        bitstream.write_integer(count as u64, 3)?;
        let ghost head = bitstream@;
        let mut i: usize = 0;
        while i < self.m_loadouts.len()
            invariant
                i <= self.m_loadouts@.len(),
                bitstream@ == head + unpack(self.m_loadouts@.take(i as int)),
            decreases self.m_loadouts.len() - i,
        {
            proof {
                lemma2_to64();
                assert(self.m_loadouts@.take(i + 1) =~= self.m_loadouts@.take(i as int).push(self.m_loadouts@[i as int]));
                lemma_unpack_push(self.m_loadouts@.take(i as int), self.m_loadouts@[i as int]);
            }
            let r = bitstream.write_integer(self.m_loadouts[i] as u64, 8);
            assert(r is Ok);
            i = i + 1;
        }
        assert(self.m_loadouts@.take(self.m_loadouts@.len() as int) =~= self.m_loadouts@);
        Ok(())
    }

    /// Reads a count in 3 bits, then that many indices, appending them to
    /// the loadouts already held.
    pub fn decode(&mut self, bitstream: &mut c_bitstream_reader) -> (r: BLFLibResult)
        ensures
            final(bitstream).data() == old(bitstream).data(),
            r is Ok <==> old(bitstream).remaining().len() >= 3
                && old(bitstream).remaining().len() >= 3 + 8 * Self::count_at(old(bitstream).remaining()),
            r is Ok ==> final(self).m_loadouts@ == old(self).m_loadouts@ + Self::entries_at(old(bitstream).remaining())
                && final(bitstream).remaining() == old(bitstream).remaining().skip((3 + 8 * Self::count_at(old(bitstream).remaining())) as int),
    {
        let ghost rem = bitstream.remaining();
        proof { lemma2_to64(); }
        let entry_count = bitstream.read_integer("entries-count", 3)?;
        assert(rem.take(3) =~= rem.subrange(0, 3));
        let mut i: u64 = 0;
        while i < entry_count
            invariant
                i <= entry_count,
                entry_count == Self::count_at(rem),
                entry_count < 8,
                rem == old(bitstream).remaining(),
                rem.len() >= 3,
                bitstream.data() == old(bitstream).data(),
                3 + 8 * i <= rem.len(),
                bitstream.remaining() == rem.skip(3 + 8 * i),
                self.m_loadouts@ == old(self).m_loadouts@ + Self::entries_at(rem).take(i as int),
            decreases entry_count - i,
        {
            proof { lemma2_to64(); }
            let v = bitstream.read_integer("loadout-reference-index", 8)?;
            self.m_loadouts.push(v as u8);
            assert(Self::entries_at(rem).take(i + 1) =~= Self::entries_at(rem).take(i as int).push(v as u8));
            i = i + 1;
        }
        assert(Self::entries_at(rem).take(entry_count as int) =~= Self::entries_at(rem));
        Ok(())
    }

    /// Reading back what `encode` wrote gives the same loadouts, when there
    /// are fewer than eight (so that the count written is the count).
    pub proof fn lemma_roundtrip(&self, rest: Seq<bool>)
        requires
            self.m_loadouts@.len() < 8,
        ensures
            Self::count_at(self.wire_bits() + rest) == self.m_loadouts@.len(),
            Self::entries_at(self.wire_bits() + rest) == self.m_loadouts@,
            self.wire_bits().len() == 3 + 8 * self.m_loadouts@.len(),
    {
        lemma2_to64();
        let n = self.m_loadouts@.len();
        lemma_unsigned_roundtrip(self.written_count(), 3);
        let w = self.wire_bits() + rest;
        assert(w.subrange(0, 3) =~= bits_of(self.written_count(), 3));
        vstd::arithmetic::div_mod::lemma_small_mod(n, 256);
        assert(w.subrange(3, (3 + 8 * n) as int) =~= unpack(self.m_loadouts@));
        lemma_bytes_roundtrip(self.m_loadouts@, w, 3);
        assert(Self::entries_at(w) =~= self.m_loadouts@);
    }
}

} // verus!
