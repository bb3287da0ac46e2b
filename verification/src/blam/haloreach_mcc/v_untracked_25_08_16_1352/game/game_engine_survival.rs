use vstd::prelude::*;
use vstd::arithmetic::power2::*;
use crate::io::bitstream::{c_bitstream_writer, c_bitstream_reader, bits_of, value_of, fits_unsigned, field_at, unpack, lemma_unsigned_roundtrip, lemma_unpack_push, lemma_bytes_roundtrip, group_bitstream_seq};
use crate::result::BLFLibResult;

verus! {

broadcast use group_bitstream_seq;

/// AI behaviour settings of a survival (Firefight) variant.
#[derive(Default, PartialEq, Eq, Debug, Clone, Copy)]
pub struct c_ai_traits {
    pub m_vision: u8, // 3 bits
    pub m_sound: u8, // 2 bits
    pub m_luck: u8, // 3 bits
    pub m_weapon: u8, // 2 bits
    pub m_grenade: u8, // 2 bits
    pub m_equipment_drop_setting: u8, // 2 bits
    pub m_assasination_immunity_setting: u8, // 2 bits
    pub m_headshot_immunity_setting: u8, // 2 bits
    pub m_damage_resistance: u8, // 4 bits
    pub m_damage_modifier: u8, // 4 bits
}

impl c_ai_traits {
    /// The number of bits the traits take on the wire.
    pub open spec fn wire_len() -> nat {
        26
    }

    /// Whether every field fits its wire width.
    pub open spec fn wire_ok(&self) -> bool {
        &&& fits_unsigned(self.m_vision as int, 3)
        &&& fits_unsigned(self.m_sound as int, 2)
        &&& fits_unsigned(self.m_luck as int, 3)
        &&& fits_unsigned(self.m_weapon as int, 2)
        &&& fits_unsigned(self.m_grenade as int, 2)
        &&& fits_unsigned(self.m_equipment_drop_setting as int, 2)
        &&& fits_unsigned(self.m_assasination_immunity_setting as int, 2)
        &&& fits_unsigned(self.m_headshot_immunity_setting as int, 2)
        &&& fits_unsigned(self.m_damage_resistance as int, 4)
        &&& fits_unsigned(self.m_damage_modifier as int, 4)
    }

    /// The wire encoding of the traits.
    pub open spec fn wire_bits(&self) -> Seq<bool> {
        bits_of(self.m_vision as nat, 3)
            + bits_of(self.m_sound as nat, 2)
            + bits_of(self.m_luck as nat, 3)
            + bits_of(self.m_weapon as nat, 2)
            + bits_of(self.m_grenade as nat, 2)
            + bits_of(self.m_equipment_drop_setting as nat, 2)
            + bits_of(self.m_assasination_immunity_setting as nat, 2)
            + bits_of(self.m_headshot_immunity_setting as nat, 2)
            + bits_of(self.m_damage_resistance as nat, 4)
            + bits_of(self.m_damage_modifier as nat, 4)
    }

    /// The traits that the first `wire_len()` bits of `bits` encode.
    pub open spec fn parse(bits: Seq<bool>) -> Self {
        c_ai_traits {
            m_vision: field_at(bits, 0, 3) as u8,
            m_sound: field_at(bits, 3, 2) as u8,
            m_luck: field_at(bits, 5, 3) as u8,
            m_weapon: field_at(bits, 8, 2) as u8,
            m_grenade: field_at(bits, 10, 2) as u8,
            m_equipment_drop_setting: field_at(bits, 12, 2) as u8,
            m_assasination_immunity_setting: field_at(bits, 14, 2) as u8,
            m_headshot_immunity_setting: field_at(bits, 16, 2) as u8,
            m_damage_resistance: field_at(bits, 18, 4) as u8,
            m_damage_modifier: field_at(bits, 22, 4) as u8,
        }
    }

    pub fn encode(&self, bitstream: &mut c_bitstream_writer) -> (r: BLFLibResult)
        ensures
            r is Ok <==> self.wire_ok(),
            r is Ok ==> final(bitstream)@ == old(bitstream)@ + self.wire_bits(),
    {
        proof { lemma2_to64(); }
        bitstream.write_integer(self.m_vision as u64, 3)?;
        bitstream.write_integer(self.m_sound as u64, 2)?;
        bitstream.write_integer(self.m_luck as u64, 3)?;
        bitstream.write_integer(self.m_weapon as u64, 2)?;
        bitstream.write_integer(self.m_grenade as u64, 2)?;
        bitstream.write_integer(self.m_equipment_drop_setting as u64, 2)?;
        bitstream.write_integer(self.m_assasination_immunity_setting as u64, 2)?;
        bitstream.write_integer(self.m_headshot_immunity_setting as u64, 2)?;
        bitstream.write_integer(self.m_damage_resistance as u64, 4)?;
        bitstream.write_integer(self.m_damage_modifier as u64, 4)?;
        Ok(())
    }

    pub fn decode(&mut self, bitstream: &mut c_bitstream_reader) -> (r: BLFLibResult)
        ensures
            r is Ok <==> old(bitstream).remaining().len() >= Self::wire_len(),
            r is Ok ==> *final(self) == Self::parse(old(bitstream).remaining())
                && final(bitstream).remaining() == old(bitstream).remaining().skip(Self::wire_len() as int),
    {
        let ghost rem = bitstream.remaining();
        proof { lemma2_to64(); }
        self.m_vision = bitstream.read_integer("vision", 3)? as u8;
        self.m_sound = bitstream.read_integer("sound", 2)? as u8;
        self.m_luck = bitstream.read_integer("luck", 3)? as u8;
        self.m_weapon = bitstream.read_integer("weapon", 2)? as u8;
        self.m_grenade = bitstream.read_integer("grenade", 2)? as u8;
        self.m_equipment_drop_setting = bitstream.read_integer("equipment-drop-setting", 2)? as u8;
        self.m_assasination_immunity_setting = bitstream.read_integer("assasination-immunity-setting", 2)? as u8;
        self.m_headshot_immunity_setting = bitstream.read_integer("headshot-immunity-setting", 2)? as u8;
        self.m_damage_resistance = bitstream.read_integer("damage-resistance", 4)? as u8;
        self.m_damage_modifier = bitstream.read_integer("damage-modifier", 4)? as u8;
        Ok(())
    }

    /// Decoding what `encode` wrote gives back the same traits.
    pub proof fn lemma_roundtrip(&self, rest: Seq<bool>)
        requires
            self.wire_ok(),
        ensures
            self.wire_bits().len() == Self::wire_len(),
            Self::parse(self.wire_bits() + rest) == *self,
    {
        lemma_unsigned_roundtrip(self.m_vision as nat, 3);
        lemma_unsigned_roundtrip(self.m_sound as nat, 2);
        lemma_unsigned_roundtrip(self.m_luck as nat, 3);
        lemma_unsigned_roundtrip(self.m_weapon as nat, 2);
        lemma_unsigned_roundtrip(self.m_grenade as nat, 2);
        lemma_unsigned_roundtrip(self.m_equipment_drop_setting as nat, 2);
        lemma_unsigned_roundtrip(self.m_assasination_immunity_setting as nat, 2);
        lemma_unsigned_roundtrip(self.m_headshot_immunity_setting as nat, 2);
        lemma_unsigned_roundtrip(self.m_damage_resistance as nat, 4);
        lemma_unsigned_roundtrip(self.m_damage_modifier as nat, 4);
        let w = self.wire_bits() + rest;
        assert(w.subrange(0, 3) =~= bits_of(self.m_vision as nat, 3));
        assert(w.subrange(3, 5) =~= bits_of(self.m_sound as nat, 2));
        assert(w.subrange(5, 8) =~= bits_of(self.m_luck as nat, 3));
        assert(w.subrange(8, 10) =~= bits_of(self.m_weapon as nat, 2));
        assert(w.subrange(10, 12) =~= bits_of(self.m_grenade as nat, 2));
        assert(w.subrange(12, 14) =~= bits_of(self.m_equipment_drop_setting as nat, 2));
        assert(w.subrange(14, 16) =~= bits_of(self.m_assasination_immunity_setting as nat, 2));
        assert(w.subrange(16, 18) =~= bits_of(self.m_headshot_immunity_setting as nat, 2));
        assert(w.subrange(18, 22) =~= bits_of(self.m_damage_resistance as nat, 4));
        assert(w.subrange(22, 26) =~= bits_of(self.m_damage_modifier as nat, 4));
    }
}


/// One wave of a survival round: its flags and the squads it may spawn.
#[derive(Default, PartialEq, Eq, Debug, Clone, Copy)]
pub struct s_survival_wave_properties {
    pub m_wave_flags: u8, // 1 bit
    pub m_wave_squad_advance_type: u8, // 1 bits
    pub m_wave_squad_count: u8, // 4 bits
    pub m_squads: [u8; 12],
}

impl s_survival_wave_properties {
    pub open spec fn wire_len() -> nat {
        102
    }

    pub open spec fn wire_ok(&self) -> bool {
        &&& fits_unsigned(self.m_wave_flags as int, 1)
        &&& fits_unsigned(self.m_wave_squad_advance_type as int, 1)
        &&& fits_unsigned(self.m_wave_squad_count as int, 4)
    }

    pub open spec fn wire_bits(&self) -> Seq<bool> {
        bits_of(self.m_wave_flags as nat, 1)
            + bits_of(self.m_wave_squad_advance_type as nat, 1)
            + bits_of(self.m_wave_squad_count as nat, 4)
            + unpack(self.m_squads@)
    }

    /// Whether `w` holds what the first `wire_len()` bits of `bits` encode.
    pub open spec fn decodes_to(bits: Seq<bool>, w: Self) -> bool {
        &&& w.m_wave_flags == field_at(bits, 0, 1)
        &&& w.m_wave_squad_advance_type == field_at(bits, 1, 1)
        &&& w.m_wave_squad_count == field_at(bits, 2, 4)
        &&& forall|i: int| 0 <= i < 12 ==> #[trigger] w.m_squads@[i] == field_at(bits, 6 + 8 * i, 8)
    }

    pub fn encode(&self, bitstream: &mut c_bitstream_writer) -> (r: BLFLibResult)
        ensures
            r is Ok <==> self.wire_ok(),
            r is Ok ==> final(bitstream)@ == old(bitstream)@ + self.wire_bits(),
    {
        proof { lemma2_to64(); }
        bitstream.write_integer(self.m_wave_flags as u64, 1)?;
        bitstream.write_integer(self.m_wave_squad_advance_type as u64, 1)?;
        bitstream.write_integer(self.m_wave_squad_count as u64, 4)?;
        let ghost head = bitstream@;
        let mut i: usize = 0;
        while i < 12
            invariant
                i <= 12,
                self.wire_ok(),
                bitstream@ == head + unpack(self.m_squads@.take(i as int)),
                head == old(bitstream)@ + bits_of(self.m_wave_flags as nat, 1)
                    + bits_of(self.m_wave_squad_advance_type as nat, 1)
                    + bits_of(self.m_wave_squad_count as nat, 4),
            decreases 12 - i,
        {
            proof {
                lemma2_to64();
                assert(self.m_squads@.take(i + 1) =~= self.m_squads@.take(i as int).push(self.m_squads@[i as int]));
                lemma_unpack_push(self.m_squads@.take(i as int), self.m_squads@[i as int]);
            }
            let r = bitstream.write_integer(self.m_squads[i] as u64, 8);
            assert(r is Ok);
            assert(bitstream@ =~= head + unpack(self.m_squads@.take(i + 1)));
            i = i + 1;
        }
        assert(self.m_squads@.take(12) =~= self.m_squads@);
        Ok(())
    }

    pub fn decode(&mut self, bitstream: &mut c_bitstream_reader) -> (r: BLFLibResult)
        ensures
            r is Ok <==> old(bitstream).remaining().len() >= Self::wire_len(),
            r is Ok ==> Self::decodes_to(old(bitstream).remaining(), *final(self))
                && final(bitstream).remaining() == old(bitstream).remaining().skip(Self::wire_len() as int),
    {
        let ghost rem = bitstream.remaining();
        proof { lemma2_to64(); }
        self.m_wave_flags = bitstream.read_integer("wave_flags", 1)? as u8;
        self.m_wave_squad_advance_type = bitstream.read_integer("wave_squad_advance_type", 1)? as u8;
        self.m_wave_squad_count = bitstream.read_integer("wave-squad-count", 4)? as u8;
        let mut i: usize = 0;
        while i < 12
            invariant
                i <= 12,
                rem == old(bitstream).remaining(),
                6 + 8 * i <= rem.len(),
                bitstream.remaining() == rem.skip(6 + 8 * i),
                self.m_wave_flags == field_at(rem, 0, 1),
                self.m_wave_squad_advance_type == field_at(rem, 1, 1),
                self.m_wave_squad_count == field_at(rem, 2, 4),
                forall|j: int| 0 <= j < i ==> #[trigger] self.m_squads@[j] == field_at(rem, 6 + 8 * j, 8),
            decreases 12 - i,
        {
            proof { lemma2_to64(); }
            let v = bitstream.read_integer("possible-wave-squad", 8)?;
            self.m_squads[i] = v as u8;
            i = i + 1;
        }
        Ok(())
    }

    /// Decoding what `encode` wrote gives back the same wave.
    pub proof fn lemma_roundtrip(&self, rest: Seq<bool>)
        requires
            self.wire_ok(),
        ensures
            self.wire_bits().len() == Self::wire_len(),
            Self::decodes_to(self.wire_bits() + rest, *self),
    {
        lemma_unsigned_roundtrip(self.m_wave_flags as nat, 1);
        lemma_unsigned_roundtrip(self.m_wave_squad_advance_type as nat, 1);
        lemma_unsigned_roundtrip(self.m_wave_squad_count as nat, 4);
        let w = self.wire_bits() + rest;
        assert(w.subrange(0, 1) =~= bits_of(self.m_wave_flags as nat, 1));
        assert(w.subrange(1, 2) =~= bits_of(self.m_wave_squad_advance_type as nat, 1));
        assert(w.subrange(2, 6) =~= bits_of(self.m_wave_squad_count as nat, 4));
        assert(w.subrange(6, 102) =~= unpack(self.m_squads@));
        lemma_bytes_roundtrip(self.m_squads@, w, 6);
    }
}

/// The settings of one survival round: its skulls and its three waves.
#[derive(Default, PartialEq, Eq, Debug, Clone, Copy)]
pub struct s_survival_round_properties {
    pub m_skull_flags: u32, // 18 bits
    pub m_initial_wave_options: s_survival_wave_properties,
    pub m_main_wave_options: s_survival_wave_properties,
    pub m_boss_wave_options: s_survival_wave_properties,
}

impl s_survival_round_properties {
    pub open spec fn wire_len() -> nat {
        18 + 3 * s_survival_wave_properties::wire_len()
    }

    pub open spec fn wire_ok(&self) -> bool {
        &&& fits_unsigned(self.m_skull_flags as int, 18)
        &&& self.m_initial_wave_options.wire_ok()
        &&& self.m_main_wave_options.wire_ok()
        &&& self.m_boss_wave_options.wire_ok()
    }

    pub open spec fn wire_bits(&self) -> Seq<bool> {
        bits_of(self.m_skull_flags as nat, 18)
            + self.m_initial_wave_options.wire_bits()
            + self.m_main_wave_options.wire_bits()
            + self.m_boss_wave_options.wire_bits()
    }

    pub open spec fn decodes_to(bits: Seq<bool>, r: Self) -> bool {
        &&& r.m_skull_flags == field_at(bits, 0, 18)
        &&& s_survival_wave_properties::decodes_to(bits.skip(18), r.m_initial_wave_options)
        &&& s_survival_wave_properties::decodes_to(bits.skip(120), r.m_main_wave_options)
        &&& s_survival_wave_properties::decodes_to(bits.skip(222), r.m_boss_wave_options)
    }

    pub fn encode(&self, bitstream: &mut c_bitstream_writer) -> (r: BLFLibResult)
        ensures
            r is Ok <==> self.wire_ok(),
            r is Ok ==> final(bitstream)@ == old(bitstream)@ + self.wire_bits(),
    {
        proof { lemma2_to64(); }
        bitstream.write_integer(self.m_skull_flags as u64, 18)?;
        self.m_initial_wave_options.encode(bitstream)?;
        self.m_main_wave_options.encode(bitstream)?;
        self.m_boss_wave_options.encode(bitstream)?;
        assert(bitstream@ =~= old(bitstream)@ + self.wire_bits());
        Ok(())
    }

    pub fn decode(&mut self, bitstream: &mut c_bitstream_reader) -> (r: BLFLibResult)
        ensures
            r is Ok <==> old(bitstream).remaining().len() >= Self::wire_len(),
            r is Ok ==> Self::decodes_to(old(bitstream).remaining(), *final(self))
                && final(bitstream).remaining() == old(bitstream).remaining().skip(Self::wire_len() as int),
    {
        let ghost rem = bitstream.remaining();
        proof { lemma2_to64(); }
        self.m_skull_flags = bitstream.read_integer("skull-flags", 18)? as u32;
        self.m_initial_wave_options.decode(bitstream)?;
        self.m_main_wave_options.decode(bitstream)?;
        self.m_boss_wave_options.decode(bitstream)?;
        Ok(())
    }

    /// Decoding what `encode` wrote gives back the same round.
    pub proof fn lemma_roundtrip(&self, rest: Seq<bool>)
        requires
            self.wire_ok(),
        ensures
            self.wire_bits().len() == Self::wire_len(),
            Self::decodes_to(self.wire_bits() + rest, *self),
    {
        let b0 = bits_of(self.m_skull_flags as nat, 18);
        let b1 = self.m_initial_wave_options.wire_bits();
        let b2 = self.m_main_wave_options.wire_bits();
        let b3 = self.m_boss_wave_options.wire_bits();
        lemma_unsigned_roundtrip(self.m_skull_flags as nat, 18);
        self.m_initial_wave_options.lemma_roundtrip(b2 + b3 + rest);
        self.m_main_wave_options.lemma_roundtrip(b3 + rest);
        self.m_boss_wave_options.lemma_roundtrip(rest);
        let w = self.wire_bits() + rest;
        assert(w.subrange(0, 18) =~= b0);
        assert(w.skip(18) =~= b1 + (b2 + b3 + rest));
        assert(w.skip(120) =~= b2 + (b3 + rest));
        assert(w.skip(222) =~= b3 + rest);
    }
}
/// The Firefight AI traits' wire layout, as the format fixes it: vision in 3
/// bits at bit 0, sound in 2 at bit 3, luck in 3 at bit 5, weapon in 2 at bit
/// 8, grenade in 2 at bit 10, equipment drop at 12, assassination immunity at
/// 14 and headshot immunity at 16 (2 bits each), damage resistance in 4 at 18
/// and damage modifier in 4 at 22. Writing puts each field there and reading
/// takes each field from there.
pub proof fn lemma_ai_traits_layout(t: c_ai_traits, bits: Seq<bool>)
    requires
        t.wire_ok(),
    ensures ({
        let w = t.wire_bits();
        &&& w.len() == 26
        &&& w.subrange(0, 3) == bits_of(t.m_vision as nat, 3)
        &&& w.subrange(3, 5) == bits_of(t.m_sound as nat, 2)
        &&& w.subrange(5, 8) == bits_of(t.m_luck as nat, 3)
        &&& w.subrange(8, 10) == bits_of(t.m_weapon as nat, 2)
        &&& w.subrange(10, 12) == bits_of(t.m_grenade as nat, 2)
        &&& w.subrange(12, 14) == bits_of(t.m_equipment_drop_setting as nat, 2)
        &&& w.subrange(14, 16) == bits_of(t.m_assasination_immunity_setting as nat, 2)
        &&& w.subrange(16, 18) == bits_of(t.m_headshot_immunity_setting as nat, 2)
        &&& w.subrange(18, 22) == bits_of(t.m_damage_resistance as nat, 4)
        &&& w.subrange(22, 26) == bits_of(t.m_damage_modifier as nat, 4)
    }),
    ({
        let p = c_ai_traits::parse(bits);
        &&& p.m_vision == field_at(bits, 0, 3) as u8
        &&& p.m_sound == field_at(bits, 3, 2) as u8
        &&& p.m_luck == field_at(bits, 5, 3) as u8
        &&& p.m_weapon == field_at(bits, 8, 2) as u8
        &&& p.m_grenade == field_at(bits, 10, 2) as u8
        &&& p.m_equipment_drop_setting == field_at(bits, 12, 2) as u8
        &&& p.m_assasination_immunity_setting == field_at(bits, 14, 2) as u8
        &&& p.m_headshot_immunity_setting == field_at(bits, 16, 2) as u8
        &&& p.m_damage_resistance == field_at(bits, 18, 4) as u8
        &&& p.m_damage_modifier == field_at(bits, 22, 4) as u8
    }),
{
    lemma_unsigned_roundtrip(t.m_vision as nat, 3);
    lemma_unsigned_roundtrip(t.m_sound as nat, 2);
    lemma_unsigned_roundtrip(t.m_luck as nat, 3);
    lemma_unsigned_roundtrip(t.m_weapon as nat, 2);
    lemma_unsigned_roundtrip(t.m_grenade as nat, 2);
    lemma_unsigned_roundtrip(t.m_equipment_drop_setting as nat, 2);
    lemma_unsigned_roundtrip(t.m_assasination_immunity_setting as nat, 2);
    lemma_unsigned_roundtrip(t.m_headshot_immunity_setting as nat, 2);
    lemma_unsigned_roundtrip(t.m_damage_resistance as nat, 4);
    lemma_unsigned_roundtrip(t.m_damage_modifier as nat, 4);
    let w = t.wire_bits();
    assert(w.subrange(0, 3) =~= bits_of(t.m_vision as nat, 3));
    assert(w.subrange(3, 5) =~= bits_of(t.m_sound as nat, 2));
    assert(w.subrange(5, 8) =~= bits_of(t.m_luck as nat, 3));
    assert(w.subrange(8, 10) =~= bits_of(t.m_weapon as nat, 2));
    assert(w.subrange(10, 12) =~= bits_of(t.m_grenade as nat, 2));
    assert(w.subrange(12, 14) =~= bits_of(t.m_equipment_drop_setting as nat, 2));
    assert(w.subrange(14, 16) =~= bits_of(t.m_assasination_immunity_setting as nat, 2));
    assert(w.subrange(16, 18) =~= bits_of(t.m_headshot_immunity_setting as nat, 2));
    assert(w.subrange(18, 22) =~= bits_of(t.m_damage_resistance as nat, 4));
    assert(w.subrange(22, 26) =~= bits_of(t.m_damage_modifier as nat, 4));
}

/// A survival wave's wire layout: the wave flag at bit 0, the squad advance
/// type at bit 1 (1 bit each), the squad count in 4 bits at bit 2, then the
/// twelve squads, 8 bits each from bit 6. Writing puts each field there and
/// reading takes each field from there.
pub proof fn lemma_wave_layout(v: s_survival_wave_properties, bits: Seq<bool>, d: s_survival_wave_properties)
    requires
        v.wire_ok(),
    ensures ({
        let w = v.wire_bits();
        &&& w.len() == 102
        &&& w.subrange(0, 1) == bits_of(v.m_wave_flags as nat, 1)
        &&& w.subrange(1, 2) == bits_of(v.m_wave_squad_advance_type as nat, 1)
        &&& w.subrange(2, 6) == bits_of(v.m_wave_squad_count as nat, 4)
        &&& forall|i: int| 0 <= i < 12 ==> #[trigger] field_at(w, 6 + 8 * i, 8) == v.m_squads@[i]
    }),
    s_survival_wave_properties::decodes_to(bits, d) ==> {
        &&& d.m_wave_flags == field_at(bits, 0, 1)
        &&& d.m_wave_squad_advance_type == field_at(bits, 1, 1)
        &&& d.m_wave_squad_count == field_at(bits, 2, 4)
        &&& forall|i: int| 0 <= i < 12 ==> #[trigger] d.m_squads@[i] == field_at(bits, 6 + 8 * i, 8)
    },
{
    lemma_unsigned_roundtrip(v.m_wave_flags as nat, 1);
    lemma_unsigned_roundtrip(v.m_wave_squad_advance_type as nat, 1);
    lemma_unsigned_roundtrip(v.m_wave_squad_count as nat, 4);
    let w = v.wire_bits();
    assert(w.subrange(0, 1) =~= bits_of(v.m_wave_flags as nat, 1));
    assert(w.subrange(1, 2) =~= bits_of(v.m_wave_squad_advance_type as nat, 1));
    assert(w.subrange(2, 6) =~= bits_of(v.m_wave_squad_count as nat, 4));
    assert(w.subrange(6, 102) =~= unpack(v.m_squads@));
    lemma_bytes_roundtrip(v.m_squads@, w, 6);
}

/// A survival round's wire layout: the skull flags in 18 bits at bit 0, then
/// the initial wave at bit 18, the main wave at bit 120 and the boss wave at
/// bit 222, 102 bits each. Writing puts each part there and reading takes
/// each part from there.
pub proof fn lemma_round_layout(r: s_survival_round_properties, bits: Seq<bool>, d: s_survival_round_properties)
    requires
        r.wire_ok(),
    ensures ({
        let w = r.wire_bits();
        &&& w.len() == 324
        &&& w.subrange(0, 18) == bits_of(r.m_skull_flags as nat, 18)
        &&& w.subrange(18, 120) == r.m_initial_wave_options.wire_bits()
        &&& w.subrange(120, 222) == r.m_main_wave_options.wire_bits()
        &&& w.subrange(222, 324) == r.m_boss_wave_options.wire_bits()
    }),
    s_survival_round_properties::decodes_to(bits, d) ==> {
        &&& d.m_skull_flags == field_at(bits, 0, 18)
        &&& s_survival_wave_properties::decodes_to(bits.skip(18), d.m_initial_wave_options)
        &&& s_survival_wave_properties::decodes_to(bits.skip(120), d.m_main_wave_options)
        &&& s_survival_wave_properties::decodes_to(bits.skip(222), d.m_boss_wave_options)
    },
{
    lemma_unsigned_roundtrip(r.m_skull_flags as nat, 18);
    r.m_initial_wave_options.lemma_roundtrip(Seq::empty());
    r.m_main_wave_options.lemma_roundtrip(Seq::empty());
    r.m_boss_wave_options.lemma_roundtrip(Seq::empty());
    let a = r.m_initial_wave_options.wire_bits();
    let b = r.m_main_wave_options.wire_bits();
    let c = r.m_boss_wave_options.wire_bits();
    assert(a + Seq::<bool>::empty() =~= a);
    assert(b + Seq::<bool>::empty() =~= b);
    assert(c + Seq::<bool>::empty() =~= c);
    let w = r.wire_bits();
    assert(w.subrange(0, 18) =~= bits_of(r.m_skull_flags as nat, 18));
    assert(w.subrange(18, 120) =~= a);
    assert(w.subrange(120, 222) =~= b);
    assert(w.subrange(222, 324) =~= c);
}

} // verus!
