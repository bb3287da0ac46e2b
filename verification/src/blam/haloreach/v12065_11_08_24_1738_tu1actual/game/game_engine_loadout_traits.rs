use vstd::prelude::*;
use vstd::arithmetic::power2::*;
use crate::io::bitstream::{
    c_bitstream_writer, c_bitstream_reader, bits_of, signed_bits_of, field_at, sign_extend,
    lemma_unsigned_roundtrip, lemma_signed_roundtrip, group_bitstream_seq,
};
use crate::result::{BLFLibError, BLFLibResult};

verus! {

broadcast use group_bitstream_seq;

/// One loadout: whether it is offered, its name, and what a player spawns with.
#[derive(Default, PartialEq, Eq, Debug, Clone, Copy)]
pub struct c_loadout_traits {
    pub m_visible: bool,
    pub m_name: i8,
    pub m_initial_primary_weapon_absolute_index: i8,
    pub m_initial_secondary_weapon_absolute_index: i8,
    pub m_initial_equipment_absolute_index: i8,
    pub m_initial_grenade_count_setting: u8,
}

impl c_loadout_traits {
    /// The number of bits a loadout takes.
    pub open spec fn wire_len() -> nat {
        36
    }

    /// Whether the name is an index below 128 or -1, and the grenade count
    /// fits in 4 bits.
    pub open spec fn wire_ok(&self) -> bool {
        &&& -1 <= self.m_name <= 126
        &&& self.m_initial_grenade_count_setting < 16
    }

    /// The encoding: the flag, the name index plus one in 7 bits, the three
    /// signed absolute indices in 8 bits, the grenade count in 4 bits.
    pub open spec fn wire_bits(&self) -> Seq<bool> {
        seq![self.m_visible] + bits_of((self.m_name + 1) as nat, 7)
            + signed_bits_of(self.m_initial_primary_weapon_absolute_index as int, 8)
            + signed_bits_of(self.m_initial_secondary_weapon_absolute_index as int, 8)
            + signed_bits_of(self.m_initial_equipment_absolute_index as int, 8)
            + bits_of(self.m_initial_grenade_count_setting as nat, 4)
    }

    /// The loadout the first `wire_len()` bits of `bits` encode.
    pub open spec fn parse(bits: Seq<bool>) -> Self {
        c_loadout_traits {
            m_visible: bits[0],
            m_name: (field_at(bits, 1, 7) - 1) as i8,
            m_initial_primary_weapon_absolute_index: sign_extend(field_at(bits, 8, 8), 8) as i8,
            m_initial_secondary_weapon_absolute_index: sign_extend(field_at(bits, 16, 8), 8) as i8,
            m_initial_equipment_absolute_index: sign_extend(field_at(bits, 24, 8), 8) as i8,
            m_initial_grenade_count_setting: field_at(bits, 32, 4) as u8,
        }
    }

    pub fn encode(&self, bitstream: &mut c_bitstream_writer) -> (r: BLFLibResult)
        ensures
            r is Ok <==> self.wire_ok(),
            r is Ok ==> final(bitstream)@ == old(bitstream)@ + self.wire_bits(),
    {
        proof { lemma2_to64(); }
        bitstream.write_bool(self.m_visible)?;
        bitstream.write_index::<128>(self.m_name as i64, 7)?;
        bitstream.write_signed_integer(self.m_initial_primary_weapon_absolute_index as i64, 8)?;
        bitstream.write_signed_integer(self.m_initial_secondary_weapon_absolute_index as i64, 8)?;
        bitstream.write_signed_integer(self.m_initial_equipment_absolute_index as i64, 8)?;
        bitstream.write_integer(self.m_initial_grenade_count_setting as u64, 4)?;
        assert(bitstream@ =~= old(bitstream)@ + self.wire_bits());
        Ok(())
    }

    pub fn decode(&mut self, bitstream: &mut c_bitstream_reader) -> (r: BLFLibResult)
        ensures
            final(bitstream).data() == old(bitstream).data(),
            r is Ok <==> old(bitstream).remaining().len() >= Self::wire_len(),
            r is Ok ==> *final(self) == Self::parse(old(bitstream).remaining())
                && final(bitstream).remaining() == old(bitstream).remaining().skip(Self::wire_len() as int),
    {
        let ghost rem = bitstream.remaining();
        proof { lemma2_to64(); }
        if bitstream.bits_remaining() < 36 {
            return Err(BLFLibError::EndOfStream);
        }
        self.m_visible = bitstream.read_bool("flags")?;
        proof { crate::io::bitstream::lemma_value_of_bound(bitstream.remaining().take(7)); }
        self.m_name = bitstream.read_index::<128>("name", 7)? as i8;
        self.m_initial_primary_weapon_absolute_index = bitstream.read_signed_integer("initial-primary-weapon", 8)? as i8;
        self.m_initial_secondary_weapon_absolute_index = bitstream.read_signed_integer("initial-secondary-weapon", 8)? as i8;
        self.m_initial_equipment_absolute_index = bitstream.read_signed_integer("initial-equipment", 8)? as i8;
        self.m_initial_grenade_count_setting = bitstream.read_integer("initial-grenade-count", 4)? as u8;
        Ok(())
    }

    /// Reading back what `encode` wrote gives the same loadout.
    pub proof fn lemma_roundtrip(&self, rest: Seq<bool>)
        requires
            self.wire_ok(),
        ensures
            self.wire_bits().len() == Self::wire_len(),
            Self::parse(self.wire_bits() + rest) == *self,
    {
        lemma2_to64();
        lemma_unsigned_roundtrip((self.m_name + 1) as nat, 7);
        lemma_signed_roundtrip(self.m_initial_primary_weapon_absolute_index as int, 8);
        lemma_signed_roundtrip(self.m_initial_secondary_weapon_absolute_index as int, 8);
        lemma_signed_roundtrip(self.m_initial_equipment_absolute_index as int, 8);
        lemma_unsigned_roundtrip(self.m_initial_grenade_count_setting as nat, 4);
        let w = self.wire_bits() + rest;
        assert(w.subrange(1, 8) =~= bits_of((self.m_name + 1) as nat, 7));
        assert(w.subrange(8, 16) =~= signed_bits_of(self.m_initial_primary_weapon_absolute_index as int, 8));
        assert(w.subrange(16, 24) =~= signed_bits_of(self.m_initial_secondary_weapon_absolute_index as int, 8));
        assert(w.subrange(24, 32) =~= signed_bits_of(self.m_initial_equipment_absolute_index as int, 8));
        assert(w.subrange(32, 36) =~= bits_of(self.m_initial_grenade_count_setting as nat, 4));
    }
}

/// The loadouts of `s` encoded one after another.
pub open spec fn loadouts_bits(s: Seq<c_loadout_traits>) -> Seq<bool>
    decreases s.len(),
{
    if s.len() == 0 {
        Seq::empty()
    } else {
        loadouts_bits(s.drop_last()) + s.last().wire_bits()
    }
}

pub proof fn lemma_loadouts_bits_len(s: Seq<c_loadout_traits>)
    ensures
        loadouts_bits(s).len() == 36 * s.len(),
    decreases s.len(),
{
    if s.len() > 0 {
        lemma_loadouts_bits_len(s.drop_last());
        lemma_bits_len_36(s.last());
    }
}

proof fn lemma_bits_len_36(l: c_loadout_traits)
    ensures
        l.wire_bits().len() == 36,
{
    vstd::arithmetic::power2::lemma2_to64();
    crate::io::bitstream::lemma_bits_of_len((l.m_name + 1) as nat, 7);
    crate::io::bitstream::lemma_bits_of_len(crate::io::bitstream::twos_complement(l.m_initial_primary_weapon_absolute_index as int, 8), 8);
    crate::io::bitstream::lemma_bits_of_len(crate::io::bitstream::twos_complement(l.m_initial_secondary_weapon_absolute_index as int, 8), 8);
    crate::io::bitstream::lemma_bits_of_len(crate::io::bitstream::twos_complement(l.m_initial_equipment_absolute_index as int, 8), 8);
    crate::io::bitstream::lemma_bits_of_len(l.m_initial_grenade_count_setting as nat, 4);
}

/// A loadout's wire layout, as the format fixes it: the visible flag at bit
/// 0, the name index plus one in 7 bits at bit 1, the initial primary weapon
/// at bit 8, the initial secondary weapon at bit 16 and the initial equipment
/// at bit 24 (each signed, 8 bits), the grenade count in 4 bits at bit 32.
/// Writing puts each field there and reading takes each field from there.
pub proof fn lemma_loadout_layout(l: c_loadout_traits, bits: Seq<bool>)
    requires
        l.wire_ok(),
    ensures ({
        let w = l.wire_bits();
        &&& w.len() == 36
        &&& w[0] == l.m_visible
        &&& w.subrange(1, 8) == bits_of((l.m_name + 1) as nat, 7)
        &&& w.subrange(8, 16) == signed_bits_of(l.m_initial_primary_weapon_absolute_index as int, 8)
        &&& w.subrange(16, 24) == signed_bits_of(l.m_initial_secondary_weapon_absolute_index as int, 8)
        &&& w.subrange(24, 32) == signed_bits_of(l.m_initial_equipment_absolute_index as int, 8)
        &&& w.subrange(32, 36) == bits_of(l.m_initial_grenade_count_setting as nat, 4)
    }),
    ({
        let p = c_loadout_traits::parse(bits);
        &&& p.m_visible == bits[0]
        &&& p.m_name == (field_at(bits, 1, 7) - 1) as i8
        &&& p.m_initial_primary_weapon_absolute_index == sign_extend(field_at(bits, 8, 8), 8) as i8
        &&& p.m_initial_secondary_weapon_absolute_index == sign_extend(field_at(bits, 16, 8), 8) as i8
        &&& p.m_initial_equipment_absolute_index == sign_extend(field_at(bits, 24, 8), 8) as i8
        &&& p.m_initial_grenade_count_setting == field_at(bits, 32, 4) as u8
    }),
{
    lemma2_to64();
    lemma_bits_len_36(l);
    lemma_unsigned_roundtrip((l.m_name + 1) as nat, 7);
    lemma_signed_roundtrip(l.m_initial_primary_weapon_absolute_index as int, 8);
    lemma_signed_roundtrip(l.m_initial_secondary_weapon_absolute_index as int, 8);
    lemma_signed_roundtrip(l.m_initial_equipment_absolute_index as int, 8);
    lemma_unsigned_roundtrip(l.m_initial_grenade_count_setting as nat, 4);
    let w = l.wire_bits();
    assert(w.subrange(1, 8) =~= bits_of((l.m_name + 1) as nat, 7));
    assert(w.subrange(8, 16) =~= signed_bits_of(l.m_initial_primary_weapon_absolute_index as int, 8));
    assert(w.subrange(16, 24) =~= signed_bits_of(l.m_initial_secondary_weapon_absolute_index as int, 8));
    assert(w.subrange(24, 32) =~= signed_bits_of(l.m_initial_equipment_absolute_index as int, 8));
    assert(w.subrange(32, 36) =~= bits_of(l.m_initial_grenade_count_setting as nat, 4));
}

/// The encoding of `s` begins with that of each of its prefixes.
proof fn lemma_loadouts_bits_prefix(s: Seq<c_loadout_traits>, j: int)
    requires
        0 <= j < s.len(),
    ensures
        loadouts_bits(s).subrange(36 * j, 36 * j + 36) == s[j].wire_bits(),
    decreases s.len(),
{
    lemma_loadouts_bits_len(s.drop_last());
    lemma_bits_len_36(s.last());
    if j == s.len() - 1 {
        assert(loadouts_bits(s).subrange(36 * j, 36 * j + 36) =~= s.last().wire_bits());
    } else {
        lemma_loadouts_bits_prefix(s.drop_last(), j);
        assert(loadouts_bits(s).subrange(36 * j, 36 * j + 36) =~= loadouts_bits(s.drop_last()).subrange(36 * j, 36 * j + 36));
    }
}

/// The five loadouts of one palette.
#[derive(Default, PartialEq, Eq, Debug, Clone, Copy)]
pub struct c_loadout_palette_traits {
    pub m_loadouts: [c_loadout_traits; 5],
}

impl c_loadout_palette_traits {
    pub open spec fn wire_len() -> nat {
        180
    }

    pub open spec fn wire_ok(&self) -> bool {
        forall|i: int| 0 <= i < 5 ==> #[trigger] self.m_loadouts@[i].wire_ok()
    }

    pub open spec fn wire_bits(&self) -> Seq<bool> {
        loadouts_bits(self.m_loadouts@)
    }

    /// Whether `p` holds the loadouts the first `wire_len()` bits encode.
    pub open spec fn decodes_to(bits: Seq<bool>, p: Self) -> bool {
        forall|i: int| 0 <= i < 5 ==> #[trigger] p.m_loadouts@[i] == c_loadout_traits::parse(bits.skip(36 * i))
    }

    pub fn encode(&self, bitstream: &mut c_bitstream_writer) -> (r: BLFLibResult)
        ensures
            r is Ok <==> self.wire_ok(),
            r is Ok ==> final(bitstream)@ == old(bitstream)@ + self.wire_bits(),
    {
        let mut i: usize = 0;
        while i < 5
            invariant
                i <= 5,
                forall|k: int| 0 <= k < i ==> #[trigger] self.m_loadouts@[k].wire_ok(),
                bitstream@ == old(bitstream)@ + loadouts_bits(self.m_loadouts@.take(i as int)),
            decreases 5 - i,
        {
            self.m_loadouts[i].encode(bitstream)?;
            assert(self.m_loadouts@.take(i + 1).drop_last() =~= self.m_loadouts@.take(i as int));
            i = i + 1;
        }
        assert(self.m_loadouts@.take(5) =~= self.m_loadouts@);
        Ok(())
    }

    pub fn decode(&mut self, bitstream: &mut c_bitstream_reader) -> (r: BLFLibResult)
        ensures
            final(bitstream).data() == old(bitstream).data(),
            r is Ok <==> old(bitstream).remaining().len() >= Self::wire_len(),
            r is Ok ==> Self::decodes_to(old(bitstream).remaining(), *final(self))
                && final(bitstream).remaining() == old(bitstream).remaining().skip(Self::wire_len() as int),
    {
        let ghost rem = bitstream.remaining();
        if bitstream.bits_remaining() < 180 {
            return Err(BLFLibError::EndOfStream);
        }
        let mut i: usize = 0;
        while i < 5
            invariant
                i <= 5,
                rem == old(bitstream).remaining(),
                rem.len() >= 180,
                bitstream.data() == old(bitstream).data(),
                bitstream.remaining() == rem.skip(36 * i),
                forall|k: int| 0 <= k < i ==> #[trigger] self.m_loadouts@[k] == c_loadout_traits::parse(rem.skip(36 * k)),
            decreases 5 - i,
        {
            let mut l = self.m_loadouts[i];
            let r = l.decode(bitstream);
            assert(r is Ok);
            self.m_loadouts[i] = l;
            i = i + 1;
        }
        Ok(())
    }

    /// Reading back what `encode` wrote gives the same loadouts.
    pub proof fn lemma_roundtrip(&self, rest: Seq<bool>)
        requires
            self.wire_ok(),
        ensures
            self.wire_bits().len() == Self::wire_len(),
            Self::decodes_to(self.wire_bits() + rest, *self),
    {
        lemma_loadouts_bits_len(self.m_loadouts@);
        let w = self.wire_bits() + rest;
        assert forall|i: int| 0 <= i < 5 implies #[trigger] self.m_loadouts@[i] == c_loadout_traits::parse(w.skip(36 * i)) by {
            let l = self.m_loadouts@[i];
            lemma_loadouts_bits_prefix(self.m_loadouts@, i);
            l.lemma_roundtrip(w.skip(36 * i + 36));
            assert(w.skip(36 * i) =~= l.wire_bits() + w.skip(36 * i + 36));
        }
    }
}

/// The loadout palettes of a game variant and their flags.
#[derive(Default, PartialEq, Eq, Debug, Clone, Copy)]
pub struct c_game_engine_loadout_traits {
    pub m_flags: u8,
    pub m_loadout_palettes: [c_loadout_palette_traits; 6],
}

/// The palettes of `s` encoded one after another.
pub open spec fn palettes_bits(s: Seq<c_loadout_palette_traits>) -> Seq<bool>
    decreases s.len(),
{
    if s.len() == 0 {
        Seq::empty()
    } else {
        palettes_bits(s.drop_last()) + s.last().wire_bits()
    }
}

proof fn lemma_palettes_bits_len(s: Seq<c_loadout_palette_traits>)
    ensures
        palettes_bits(s).len() == 180 * s.len(),
    decreases s.len(),
{
    if s.len() > 0 {
        lemma_palettes_bits_len(s.drop_last());
        lemma_loadouts_bits_len(s.last().m_loadouts@);
    }
}

proof fn lemma_palettes_bits_prefix(s: Seq<c_loadout_palette_traits>, j: int)
    requires
        0 <= j < s.len(),
    ensures
        palettes_bits(s).subrange(180 * j, 180 * j + 180) == s[j].wire_bits(),
    decreases s.len(),
{
    lemma_palettes_bits_len(s.drop_last());
    lemma_loadouts_bits_len(s.last().m_loadouts@);
    if j == s.len() - 1 {
        assert(palettes_bits(s).subrange(180 * j, 180 * j + 180) =~= s.last().wire_bits());
    } else {
        lemma_palettes_bits_prefix(s.drop_last(), j);
        assert(palettes_bits(s).subrange(180 * j, 180 * j + 180) =~= palettes_bits(s.drop_last()).subrange(180 * j, 180 * j + 180));
    }
}

impl c_game_engine_loadout_traits {
    pub open spec fn wire_len() -> nat {
        2 + 6 * 180
    }

    pub open spec fn wire_ok(&self) -> bool {
        &&& self.m_flags < 4
        &&& forall|i: int| 0 <= i < 6 ==> #[trigger] self.m_loadout_palettes@[i].wire_ok()
    }

    pub open spec fn wire_bits(&self) -> Seq<bool> {
        bits_of(self.m_flags as nat, 2) + palettes_bits(self.m_loadout_palettes@)
    }

    pub open spec fn decodes_to(bits: Seq<bool>, t: Self) -> bool {
        &&& t.m_flags == field_at(bits, 0, 2)
        &&& forall|i: int| 0 <= i < 6 ==> c_loadout_palette_traits::decodes_to(bits.skip(2 + 180 * i), #[trigger] t.m_loadout_palettes@[i])
    }

    pub fn encode(&self, bitstream: &mut c_bitstream_writer) -> (r: BLFLibResult)
        ensures
            r is Ok <==> self.wire_ok(),
            r is Ok ==> final(bitstream)@ == old(bitstream)@ + self.wire_bits(),
    {
        proof { lemma2_to64(); }
        bitstream.write_integer(self.m_flags as u64, 2)?;
        let ghost head = bitstream@;
        let mut i: usize = 0;
        while i < 6
            invariant
                i <= 6,
                self.m_flags < 4,
                head == old(bitstream)@ + bits_of(self.m_flags as nat, 2),
                forall|k: int| 0 <= k < i ==> #[trigger] self.m_loadout_palettes@[k].wire_ok(),
                bitstream@ == head + palettes_bits(self.m_loadout_palettes@.take(i as int)),
            decreases 6 - i,
        {
            self.m_loadout_palettes[i].encode(bitstream)?;
            assert(self.m_loadout_palettes@.take(i + 1).drop_last() =~= self.m_loadout_palettes@.take(i as int));
            i = i + 1;
        }
        assert(self.m_loadout_palettes@.take(6) =~= self.m_loadout_palettes@);
        Ok(())
    }

    pub fn decode(&mut self, bitstream: &mut c_bitstream_reader) -> (r: BLFLibResult)
        ensures
            final(bitstream).data() == old(bitstream).data(),
            r is Ok <==> old(bitstream).remaining().len() >= Self::wire_len(),
            r is Ok ==> Self::decodes_to(old(bitstream).remaining(), *final(self))
                && final(bitstream).remaining() == old(bitstream).remaining().skip(Self::wire_len() as int),
    {
        let ghost rem = bitstream.remaining();
        proof { lemma2_to64(); }
        if bitstream.bits_remaining() < 1082 {
            return Err(BLFLibError::EndOfStream);
        }
        self.m_flags = bitstream.read_integer("flags", 2)? as u8;
        let mut i: usize = 0;
        while i < 6
            invariant
                i <= 6,
                rem == old(bitstream).remaining(),
                rem.len() >= 1082,
                bitstream.data() == old(bitstream).data(),
                bitstream.remaining() == rem.skip(2 + 180 * i),
                self.m_flags == field_at(rem, 0, 2),
                forall|k: int| 0 <= k < i ==> c_loadout_palette_traits::decodes_to(rem.skip(2 + 180 * k), #[trigger] self.m_loadout_palettes@[k]),
            decreases 6 - i,
        {
            let mut p = self.m_loadout_palettes[i];
            let r = p.decode(bitstream);
            assert(r is Ok);
            self.m_loadout_palettes[i] = p;
            i = i + 1;
        }
        Ok(())
    }

    /// Reading back what `encode` wrote gives the same loadout traits.
    pub proof fn lemma_roundtrip(&self, rest: Seq<bool>)
        requires
            self.wire_ok(),
        ensures
            self.wire_bits().len() == Self::wire_len(),
            Self::decodes_to(self.wire_bits() + rest, *self),
    {
        lemma2_to64();
        lemma_unsigned_roundtrip(self.m_flags as nat, 2);
        lemma_palettes_bits_len(self.m_loadout_palettes@);
        let w = self.wire_bits() + rest;
        assert(w.subrange(0, 2) =~= bits_of(self.m_flags as nat, 2));
        assert forall|i: int| 0 <= i < 6 implies c_loadout_palette_traits::decodes_to(w.skip(2 + 180 * i), #[trigger] self.m_loadout_palettes@[i]) by {
            let p = self.m_loadout_palettes@[i];
            lemma_palettes_bits_prefix(self.m_loadout_palettes@, i);
            p.lemma_roundtrip(w.skip(2 + 180 * i + 180));
            assert(w.skip(2 + 180 * i) =~= p.wire_bits() + w.skip(2 + 180 * i + 180));
        }
    }
}

} // verus!
