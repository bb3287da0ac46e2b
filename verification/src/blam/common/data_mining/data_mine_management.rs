//! Data-mine records: the file header, event headers and event parameters,
//! laid out field after field in the byte order of the stream. Fixed-length
//! text fields are raw byte arrays of their declared length; a
//! filetime and an unsigned 64-bit count are eight-byte integers; a float is
//! carried as the four bytes of its IEEE-754 representation.

use vstd::prelude::*;
use vstd::utf8::{decode_utf8, encode_utf8, valid_utf8};
use crate::blam::common::memory::data_compress::e_bitstream_byte_order;
use crate::io::bytes::{bytes_of, lemma_bytes_roundtrip, lemma_pow256_8, read_uint, value_of, write_uint};
use crate::result::{BLFLibError, BLFLibResult};

verus! {

broadcast use vstd::utf8::encode_utf8_decode_utf8, vstd::utf8::encode_utf8_valid_utf8;

/// `String::from_utf8`: the bytes as a string when they are valid UTF-8, and
/// nothing otherwise.
#[verifier::external_body]
fn string_from_utf8(bytes: Vec<u8>) -> (r: Option<String>)
    ensures
        match r {
            Some(s) => valid_utf8(bytes@) && s@ == decode_utf8(bytes@),
            None => !valid_utf8(bytes@),
        },
{
    String::from_utf8(bytes).ok()
}

/// The `n` bytes of `data` from `pos`.
fn read_bytes(data: &[u8], pos: usize, n: usize) -> (v: Vec<u8>)
    requires
        pos + n <= data.len(),
    ensures
        v@ == data@.subrange(pos as int, pos + n),
{
    let mut v: Vec<u8> = Vec::new();
    let mut k: usize = 0;
    while k < n
        invariant
            pos + n <= data.len(),
            k <= n,
            v@ == data@.subrange(pos as int, pos + k),
        decreases n - k,
    {
        v.push(data[pos + k]);
        assert(data@.subrange(pos as int, pos + k).push(data@[pos + k]) =~= data@.subrange(pos as int, pos + k + 1));
        k = k + 1;
    }
    v
}

/// Appends the bytes of `b` to `out`.
fn append_bytes(out: &mut Vec<u8>, b: &[u8])
    ensures
        final(out)@ == old(out)@ + b@,
{
    let mut k: usize = 0;
    while k < b.len()
        invariant
            k <= b.len(),
            out@ == old(out)@ + b@.take(k as int),
        decreases b.len() - k,
    {
        out.push(b[k]);
        assert(b@.take(k as int).push(b@[k as int]) =~= b@.take(k + 1));
        assert((old(out)@ + b@.take(k as int)).push(b@[k as int]) =~= old(out)@ + b@.take(k + 1));
        k = k + 1;
    }
    assert(b@.take(b.len() as int) =~= b@);
}

/// The two bytes of a `u16`, four of a `u32`, eight of a `u64`.
pub open spec fn u16_bytes(v: u16, e: e_bitstream_byte_order) -> Seq<u8> {
    bytes_of(v as nat, 2, e)
}

pub open spec fn u32_bytes(v: u32, e: e_bitstream_byte_order) -> Seq<u8> {
    bytes_of(v as nat, 4, e)
}

pub open spec fn u64_bytes(v: u64, e: e_bitstream_byte_order) -> Seq<u8> {
    bytes_of(v as nat, 8, e)
}

/// The bytes of `b` from `start`, `n` of them.
pub open spec fn field(b: Seq<u8>, start: int, n: int) -> Seq<u8> {
    b.subrange(start, start + n)
}

pub proof fn lemma_uint_roundtrips(e: e_bitstream_byte_order, a: u16, b: u32, c: u64)
    ensures
        u16_bytes(a, e).len() == 2,
        value_of(u16_bytes(a, e), e) == a,
        u32_bytes(b, e).len() == 4,
        value_of(u32_bytes(b, e), e) == b,
        u64_bytes(c, e).len() == 8,
        value_of(u64_bytes(c, e), e) == c,
{
    lemma_pow256_8();
    lemma_bytes_roundtrip(a as nat, 2, e);
    lemma_bytes_roundtrip(b as nat, 4, e);
    lemma_bytes_roundtrip(c as nat, 8, e);
}

fn read_u16(data: &[u8], pos: usize, e: e_bitstream_byte_order) -> (v: u16)
    requires
        pos + 2 <= data.len(),
    ensures
        v == value_of(data@.subrange(pos as int, pos + 2), e),
{
    proof {
        lemma_pow256_8();
    }
    read_uint(data, pos, 2, e) as u16
}

fn read_u32(data: &[u8], pos: usize, e: e_bitstream_byte_order) -> (v: u32)
    requires
        pos + 4 <= data.len(),
    ensures
        v == value_of(data@.subrange(pos as int, pos + 4), e),
{
    proof {
        lemma_pow256_8();
    }
    read_uint(data, pos, 4, e) as u32
}

fn read_u64(data: &[u8], pos: usize, e: e_bitstream_byte_order) -> (v: u64)
    requires
        pos + 8 <= data.len(),
    ensures
        v == value_of(data@.subrange(pos as int, pos + 8), e),
{
    proof {
        lemma_pow256_8();
    }
    read_uint(data, pos, 8, e)
}

/// The kind of value an event parameter carries, stored as a `u32` tag.
#[derive(PartialEq, Eq, Debug, Clone, Copy)]
pub enum e_datamine_parameter_type {
    _datamine_parameter_type_long,
    _datamine_parameter_type_int64,
    _datamine_parameter_type_float,
    _datamine_parameter_type_string,
}

impl e_datamine_parameter_type {
    /// The stored tag of the kind.
    pub open spec fn tag(self) -> u32 {
        match self {
            e_datamine_parameter_type::_datamine_parameter_type_long => 0,
            e_datamine_parameter_type::_datamine_parameter_type_int64 => 1,
            e_datamine_parameter_type::_datamine_parameter_type_float => 2,
            e_datamine_parameter_type::_datamine_parameter_type_string => 3,
        }
    }

    /// The kind a tag stands for; none for a tag above 3.
    pub open spec fn from_tag(t: nat) -> Option<e_datamine_parameter_type> {
        if t == 0 {
            Some(e_datamine_parameter_type::_datamine_parameter_type_long)
        } else if t == 1 {
            Some(e_datamine_parameter_type::_datamine_parameter_type_int64)
        } else if t == 2 {
            Some(e_datamine_parameter_type::_datamine_parameter_type_float)
        } else if t == 3 {
            Some(e_datamine_parameter_type::_datamine_parameter_type_string)
        } else {
            None
        }
    }

    /// Reads the four-byte tag at `pos`: the kind it stands for; an error
    /// when fewer than four bytes remain, or for a tag above 3.
    pub fn read_options(data: &[u8], pos: usize, e: e_bitstream_byte_order) -> (r: BLFLibResult<(Self, usize)>)
        ensures
            match r {
                Ok((t, next)) => pos + 4 <= data.len() && next == pos + 4
                    && Self::from_tag(value_of(data@.subrange(pos as int, pos + 4), e)) == Some(t),
                Err(err) => (pos + 4 > data.len() && err == BLFLibError::EndOfStream)
                    || (pos + 4 <= data.len() && Self::from_tag(value_of(data@.subrange(pos as int, pos + 4), e)) is None
                        && err == BLFLibError::ValueOutOfRange),
            },
    {
        if pos > data.len() || data.len() - pos < 4 {
            return Err(BLFLibError::EndOfStream);
        }
        let t = read_u32(data, pos, e);
        let kind = if t == 0 {
            e_datamine_parameter_type::_datamine_parameter_type_long
        } else if t == 1 {
            e_datamine_parameter_type::_datamine_parameter_type_int64
        } else if t == 2 {
            e_datamine_parameter_type::_datamine_parameter_type_float
        } else if t == 3 {
            e_datamine_parameter_type::_datamine_parameter_type_string
        } else {
            return Err(BLFLibError::ValueOutOfRange);
        };
        Ok((kind, pos + 4))
    }

    /// Appends the four-byte tag of the kind.
    pub fn write_options(&self, out: &mut Vec<u8>, e: e_bitstream_byte_order)
        ensures
            final(out)@ == old(out)@ + u32_bytes(self.tag(), e),
    {
        let t: u32 = match self {
            e_datamine_parameter_type::_datamine_parameter_type_long => 0,
            e_datamine_parameter_type::_datamine_parameter_type_int64 => 1,
            e_datamine_parameter_type::_datamine_parameter_type_float => 2,
            e_datamine_parameter_type::_datamine_parameter_type_string => 3,
        };
        write_uint(out, t as u64, 4, e);
    }
}

/// The header of a data-mine file.
pub struct s_data_mine_header {
    pub byte_order_marker_fffe: u16,
    pub version_major: u16,
    pub version_minor: u16,
    /// 128 bytes.
    pub sessionid: Vec<u8>,
    /// 32 bytes.
    pub build_string: Vec<u8>,
    pub build_number: i32,
    /// 160 bytes.
    pub systemid: Vec<u8>,
    /// 32 bytes.
    pub title: Vec<u8>,
    /// A filetime: 100-nanosecond intervals since 1601.
    pub session_start_date: u64,
}

impl s_data_mine_header {
    /// The length of the record, in bytes.
    pub open spec fn size() -> nat {
        370
    }

    /// Whether each text field has its declared length.
    pub open spec fn wf(&self) -> bool {
        &&& self.sessionid@.len() == 128
        &&& self.build_string@.len() == 32
        &&& self.systemid@.len() == 160
        &&& self.title@.len() == 32
    }

    /// The record's bytes.
    pub open spec fn spec_bytes(&self, e: e_bitstream_byte_order) -> Seq<u8> {
        u16_bytes(self.byte_order_marker_fffe, e) + u16_bytes(self.version_major, e) + u16_bytes(self.version_minor, e)
            + self.sessionid@ + self.build_string@ + u32_bytes(self.build_number as u32, e) + self.systemid@
            + self.title@ + u64_bytes(self.session_start_date, e)
    }

    /// Whether the record is what the 370 bytes `b` hold.
    pub open spec fn parses_as(&self, b: Seq<u8>, e: e_bitstream_byte_order) -> bool {
        &&& b.len() == 370
        &&& self.byte_order_marker_fffe == value_of(field(b, 0, 2), e)
        &&& self.version_major == value_of(field(b, 2, 2), e)
        &&& self.version_minor == value_of(field(b, 4, 2), e)
        &&& self.sessionid@ == field(b, 6, 128)
        &&& self.build_string@ == field(b, 134, 32)
        &&& self.build_number == (value_of(field(b, 166, 4), e) as u32) as i32
        &&& self.systemid@ == field(b, 170, 160)
        &&& self.title@ == field(b, 330, 32)
        &&& self.session_start_date == value_of(field(b, 362, 8), e)
    }

    /// Reading a well-formed header's bytes gives the header back.
    pub proof fn lemma_roundtrip(&self, e: e_bitstream_byte_order)
        requires
            self.wf(),
        ensures
            self.parses_as(self.spec_bytes(e), e),
    {
        let b = self.spec_bytes(e);
        let n = self.build_number;
        lemma_uint_roundtrips(e, self.byte_order_marker_fffe, n as u32, self.session_start_date);
        lemma_uint_roundtrips(e, self.version_major, 0, 0);
        lemma_uint_roundtrips(e, self.version_minor, 0, 0);
        assert(((n as u32) as i32) == n) by (bit_vector);
        assert(field(b, 0, 2) =~= u16_bytes(self.byte_order_marker_fffe, e));
        assert(field(b, 2, 2) =~= u16_bytes(self.version_major, e));
        assert(field(b, 4, 2) =~= u16_bytes(self.version_minor, e));
        assert(field(b, 6, 128) =~= self.sessionid@);
        assert(field(b, 134, 32) =~= self.build_string@);
        assert(field(b, 166, 4) =~= u32_bytes(n as u32, e));
        assert(field(b, 170, 160) =~= self.systemid@);
        assert(field(b, 330, 32) =~= self.title@);
        assert(field(b, 362, 8) =~= u64_bytes(self.session_start_date, e));
    }

    /// Reads the header at `pos`; an error when fewer than 370 bytes remain.
    pub fn read_options(data: &[u8], pos: usize, e: e_bitstream_byte_order) -> (r: BLFLibResult<(Self, usize)>)
        ensures
            match r {
                Ok((v, next)) => pos + 370 <= data.len() && next == pos + 370 && v.wf()
                    && v.parses_as(data@.subrange(pos as int, pos + 370), e),
                Err(err) => pos + 370 > data.len() && err == BLFLibError::EndOfStream,
            },
    {
        if pos > data.len() || data.len() - pos < 370 {
            return Err(BLFLibError::EndOfStream);
        }
        let v = s_data_mine_header {
            byte_order_marker_fffe: read_u16(data, pos, e),
            version_major: read_u16(data, pos + 2, e),
            version_minor: read_u16(data, pos + 4, e),
            sessionid: read_bytes(data, pos + 6, 128),
            build_string: read_bytes(data, pos + 134, 32),
            build_number: read_u32(data, pos + 166, e) as i32,
            systemid: read_bytes(data, pos + 170, 160),
            title: read_bytes(data, pos + 330, 32),
            session_start_date: read_u64(data, pos + 362, e),
        };
        let ghost b = data@.subrange(pos as int, pos + 370);
        assert(field(b, 0, 2) =~= data@.subrange(pos as int, pos + 2));
        assert(field(b, 2, 2) =~= data@.subrange(pos + 2, pos + 4));
        assert(field(b, 4, 2) =~= data@.subrange(pos + 4, pos + 6));
        assert(field(b, 6, 128) =~= data@.subrange(pos + 6, pos + 134));
        assert(field(b, 134, 32) =~= data@.subrange(pos + 134, pos + 166));
        assert(field(b, 166, 4) =~= data@.subrange(pos + 166, pos + 170));
        assert(field(b, 170, 160) =~= data@.subrange(pos + 170, pos + 330));
        assert(field(b, 330, 32) =~= data@.subrange(pos + 330, pos + 362));
        assert(field(b, 362, 8) =~= data@.subrange(pos + 362, pos + 370));
        Ok((v, pos + 370))
    }

    /// Appends the header's bytes.
    pub fn write_options(&self, out: &mut Vec<u8>, e: e_bitstream_byte_order)
        requires
            self.wf(),
        ensures
            final(out)@ == old(out)@ + self.spec_bytes(e),
    {
        write_uint(out, self.byte_order_marker_fffe as u64, 2, e);
        write_uint(out, self.version_major as u64, 2, e);
        write_uint(out, self.version_minor as u64, 2, e);
        append_bytes(out, self.sessionid.as_slice());
        append_bytes(out, self.build_string.as_slice());
        write_uint(out, (self.build_number as u32) as u64, 4, e);
        append_bytes(out, self.systemid.as_slice());
        append_bytes(out, self.title.as_slice());
        write_uint(out, self.session_start_date, 8, e);
        assert(final(out)@ =~= old(out)@ + self.spec_bytes(e));
    }
}

/// The game a data-mine event belongs to.
pub struct c_datamine_game_info {
    pub game_instance: u64,
    /// 260 bytes.
    pub map: Vec<u8>,
}

impl c_datamine_game_info {
    /// Whether the map field has its declared length.
    pub open spec fn wf(&self) -> bool {
        self.map@.len() == 260
    }

    /// The record's bytes.
    pub open spec fn spec_bytes(&self, e: e_bitstream_byte_order) -> Seq<u8> {
        u64_bytes(self.game_instance, e) + self.map@
    }

    /// Whether the record is what the 268 bytes `b` hold.
    pub open spec fn parses_as(&self, b: Seq<u8>, e: e_bitstream_byte_order) -> bool {
        &&& b.len() == 268
        &&& self.game_instance == value_of(field(b, 0, 8), e)
        &&& self.map@ == field(b, 8, 260)
    }

    /// Reading a well-formed record's bytes gives the record back.
    pub proof fn lemma_roundtrip(&self, e: e_bitstream_byte_order)
        requires
            self.wf(),
        ensures
            self.parses_as(self.spec_bytes(e), e),
    {
        let b = self.spec_bytes(e);
        lemma_uint_roundtrips(e, 0, 0, self.game_instance);
        assert(field(b, 0, 8) =~= u64_bytes(self.game_instance, e));
        assert(field(b, 8, 260) =~= self.map@);
    }

    /// Reads the record at `pos`; an error when fewer than 268 bytes remain.
    pub fn read_options(data: &[u8], pos: usize, e: e_bitstream_byte_order) -> (r: BLFLibResult<(Self, usize)>)
        ensures
            match r {
                Ok((v, next)) => pos + 268 <= data.len() && next == pos + 268 && v.wf()
                    && v.parses_as(data@.subrange(pos as int, pos + 268), e),
                Err(err) => pos + 268 > data.len() && err == BLFLibError::EndOfStream,
            },
    {
        if pos > data.len() || data.len() - pos < 268 {
            return Err(BLFLibError::EndOfStream);
        }
        let v = c_datamine_game_info { game_instance: read_u64(data, pos, e), map: read_bytes(data, pos + 8, 260) };
        let ghost b = data@.subrange(pos as int, pos + 268);
        assert(field(b, 0, 8) =~= data@.subrange(pos as int, pos + 8));
        assert(field(b, 8, 260) =~= data@.subrange(pos + 8, pos + 268));
        Ok((v, pos + 268))
    }

    /// Appends the record's bytes.
    pub fn write_options(&self, out: &mut Vec<u8>, e: e_bitstream_byte_order)
        requires
            self.wf(),
        ensures
            final(out)@ == old(out)@ + self.spec_bytes(e),
    {
        write_uint(out, self.game_instance, 8, e);
        append_bytes(out, self.map.as_slice());
        assert(final(out)@ =~= old(out)@ + self.spec_bytes(e));
    }
}

/// The header of a data-mine event.
pub struct s_datamine_event_header {
    pub total_size: u32,
    /// 512 bytes.
    pub event_name: Vec<u8>,
    /// 512 bytes.
    pub parameter_signature: Vec<u8>,
    pub priority: u32,
    pub event_index: u32,
    pub game_info: c_datamine_game_info,
    /// A filetime.
    pub event_date: u64,
}

impl s_datamine_event_header {
    /// Whether each text field has its declared length.
    pub open spec fn wf(&self) -> bool {
        &&& self.event_name@.len() == 512
        &&& self.parameter_signature@.len() == 512
        &&& self.game_info.wf()
    }

    /// The record's bytes.
    pub open spec fn spec_bytes(&self, e: e_bitstream_byte_order) -> Seq<u8> {
        u32_bytes(self.total_size, e) + self.event_name@ + self.parameter_signature@ + u32_bytes(self.priority, e)
            + u32_bytes(self.event_index, e) + self.game_info.spec_bytes(e) + u64_bytes(self.event_date, e)
    }

    /// Whether the record is what the 1312 bytes `b` hold.
    pub open spec fn parses_as(&self, b: Seq<u8>, e: e_bitstream_byte_order) -> bool {
        &&& b.len() == 1312
        &&& self.total_size == value_of(field(b, 0, 4), e)
        &&& self.event_name@ == field(b, 4, 512)
        &&& self.parameter_signature@ == field(b, 516, 512)
        &&& self.priority == value_of(field(b, 1028, 4), e)
        &&& self.event_index == value_of(field(b, 1032, 4), e)
        &&& self.game_info.parses_as(field(b, 1036, 268), e)
        &&& self.event_date == value_of(field(b, 1304, 8), e)
    }

    /// Reading a well-formed header's bytes gives the header back.
    pub proof fn lemma_roundtrip(&self, e: e_bitstream_byte_order)
        requires
            self.wf(),
        ensures
            self.parses_as(self.spec_bytes(e), e),
    {
        let b = self.spec_bytes(e);
        lemma_uint_roundtrips(e, 0, self.total_size, self.event_date);
        lemma_uint_roundtrips(e, 0, self.priority, 0);
        lemma_uint_roundtrips(e, 0, self.event_index, 0);
        self.game_info.lemma_roundtrip(e);
        assert(field(b, 0, 4) =~= u32_bytes(self.total_size, e));
        assert(field(b, 4, 512) =~= self.event_name@);
        assert(field(b, 516, 512) =~= self.parameter_signature@);
        assert(field(b, 1028, 4) =~= u32_bytes(self.priority, e));
        assert(field(b, 1032, 4) =~= u32_bytes(self.event_index, e));
        assert(field(b, 1036, 268) =~= self.game_info.spec_bytes(e));
        assert(field(b, 1304, 8) =~= u64_bytes(self.event_date, e));
    }

    /// Reads the header at `pos`; an error when fewer than 1312 bytes remain.
    pub fn read_options(data: &[u8], pos: usize, e: e_bitstream_byte_order) -> (r: BLFLibResult<(Self, usize)>)
        ensures
            match r {
                Ok((v, next)) => pos + 1312 <= data.len() && next == pos + 1312 && v.wf()
                    && v.parses_as(data@.subrange(pos as int, pos + 1312), e),
                Err(err) => pos + 1312 > data.len() && err == BLFLibError::EndOfStream,
            },
    {
        if pos > data.len() || data.len() - pos < 1312 {
            return Err(BLFLibError::EndOfStream);
        }
        let game_info = match c_datamine_game_info::read_options(data, pos + 1036, e) {
            Ok((g, _)) => g,
            Err(err) => {
                return Err(err);
            },
        };
        let v = s_datamine_event_header {
            total_size: read_u32(data, pos, e),
            event_name: read_bytes(data, pos + 4, 512),
            parameter_signature: read_bytes(data, pos + 516, 512),
            priority: read_u32(data, pos + 1028, e),
            event_index: read_u32(data, pos + 1032, e),
            game_info,
            event_date: read_u64(data, pos + 1304, e),
        };
        let ghost b = data@.subrange(pos as int, pos + 1312);
        assert(field(b, 0, 4) =~= data@.subrange(pos as int, pos + 4));
        assert(field(b, 4, 512) =~= data@.subrange(pos + 4, pos + 516));
        assert(field(b, 516, 512) =~= data@.subrange(pos + 516, pos + 1028));
        assert(field(b, 1028, 4) =~= data@.subrange(pos + 1028, pos + 1032));
        assert(field(b, 1032, 4) =~= data@.subrange(pos + 1032, pos + 1036));
        assert(field(b, 1036, 268) =~= data@.subrange(pos + 1036, pos + 1304));
        assert(field(b, 1304, 8) =~= data@.subrange(pos + 1304, pos + 1312));
        Ok((v, pos + 1312))
    }

    /// Appends the header's bytes.
    pub fn write_options(&self, out: &mut Vec<u8>, e: e_bitstream_byte_order)
        requires
            self.wf(),
        ensures
            final(out)@ == old(out)@ + self.spec_bytes(e),
    {
        write_uint(out, self.total_size as u64, 4, e);
        append_bytes(out, self.event_name.as_slice());
        append_bytes(out, self.parameter_signature.as_slice());
        write_uint(out, self.priority as u64, 4, e);
        write_uint(out, self.event_index as u64, 4, e);
        self.game_info.write_options(out, e);
        write_uint(out, self.event_date, 8, e);
        assert(final(out)@ =~= old(out)@ + self.spec_bytes(e));
    }
}

/// The name and kind of an event parameter.
pub struct s_datamine_parameter_header {
    /// 32 bytes.
    pub name: Vec<u8>,
    pub parameter_type: e_datamine_parameter_type,
}

impl s_datamine_parameter_header {
    /// Whether the name has its declared length.
    pub open spec fn wf(&self) -> bool {
        self.name@.len() == 32
    }

    /// The record's bytes.
    pub open spec fn spec_bytes(&self, e: e_bitstream_byte_order) -> Seq<u8> {
        self.name@ + u32_bytes(self.parameter_type.tag(), e)
    }

    /// Whether the record is what the 36 bytes `b` hold.
    pub open spec fn parses_as(&self, b: Seq<u8>, e: e_bitstream_byte_order) -> bool {
        &&& b.len() == 36
        &&& self.name@ == field(b, 0, 32)
        &&& e_datamine_parameter_type::from_tag(value_of(field(b, 32, 4), e)) == Some(self.parameter_type)
    }

    /// Reading a well-formed header's bytes gives the header back.
    pub proof fn lemma_roundtrip(&self, e: e_bitstream_byte_order)
        requires
            self.wf(),
        ensures
            self.parses_as(self.spec_bytes(e), e),
    {
        let b = self.spec_bytes(e);
        lemma_uint_roundtrips(e, 0, self.parameter_type.tag(), 0);
        assert(field(b, 0, 32) =~= self.name@);
        assert(field(b, 32, 4) =~= u32_bytes(self.parameter_type.tag(), e));
    }

    /// Reads the header at `pos`: an error when fewer than 36 bytes remain,
    /// or when the kind's tag is above 3.
    pub fn read_options(data: &[u8], pos: usize, e: e_bitstream_byte_order) -> (r: BLFLibResult<(Self, usize)>)
        ensures
            match r {
                Ok((v, next)) => pos + 36 <= data.len() && next == pos + 36 && v.wf()
                    && v.parses_as(data@.subrange(pos as int, pos + 36), e),
                Err(err) => (pos + 36 > data.len() && err == BLFLibError::EndOfStream)
                    || (pos + 36 <= data.len() && e_datamine_parameter_type::from_tag(
                        value_of(data@.subrange(pos + 32, pos + 36), e)) is None && err == BLFLibError::ValueOutOfRange),
            },
    {
        if pos > data.len() || data.len() - pos < 36 {
            return Err(BLFLibError::EndOfStream);
        }
        let name = read_bytes(data, pos, 32);
        let parameter_type = match e_datamine_parameter_type::read_options(data, pos + 32, e) {
            Ok((t, _)) => t,
            Err(err) => {
                return Err(err);
            },
        };
        let ghost b = data@.subrange(pos as int, pos + 36);
        assert(field(b, 0, 32) =~= data@.subrange(pos as int, pos + 32));
        assert(field(b, 32, 4) =~= data@.subrange(pos + 32, pos + 36));
        Ok((s_datamine_parameter_header { name, parameter_type }, pos + 36))
    }

    /// Appends the header's bytes.
    pub fn write_options(&self, out: &mut Vec<u8>, e: e_bitstream_byte_order)
        requires
            self.wf(),
        ensures
            final(out)@ == old(out)@ + self.spec_bytes(e),
    {
        append_bytes(out, self.name.as_slice());
        self.parameter_type.write_options(out, e);
        assert(final(out)@ =~= old(out)@ + self.spec_bytes(e));
    }
}

/// A string value: its UTF-8 length as a `u32`, then its UTF-8 bytes.
pub struct s_datamine_value_string {
    pub string: String,
}

/// Whether a string value stored at `at` in `data` reads as `text`, ending at
/// `next`.
pub open spec fn value_string_reads(data: Seq<u8>, at: int, e: e_bitstream_byte_order, text: Seq<char>, next: int) -> bool {
    &&& at + 4 <= data.len()
    &&& next == at + 4 + value_of(data.subrange(at, at + 4), e)
    &&& next <= data.len()
    &&& valid_utf8(data.subrange(at + 4, next))
    &&& text == decode_utf8(data.subrange(at + 4, next))
}

/// Whether reading a string value at `at` in `data` fails with `err`: the end
/// of the data comes first, or the bytes are not UTF-8.
pub open spec fn value_string_fails(data: Seq<u8>, at: int, e: e_bitstream_byte_order, err: BLFLibError) -> bool {
    if at + 4 > data.len() || at + 4 + value_of(data.subrange(at, at + 4), e) > data.len() {
        err == BLFLibError::EndOfStream
    } else {
        !valid_utf8(data.subrange(at + 4, at + 4 + value_of(data.subrange(at, at + 4), e)))
            && err == BLFLibError::InvalidUtf8
    }
}

impl s_datamine_value_string {
    /// Whether the string's UTF-8 length fits in its `u32` length field.
    pub open spec fn fits(&self) -> bool {
        encode_utf8(self.string@).len() <= u32::MAX
    }

    /// The record's bytes.
    pub open spec fn spec_bytes(&self, e: e_bitstream_byte_order) -> Seq<u8> {
        u32_bytes(encode_utf8(self.string@).len() as u32, e) + encode_utf8(self.string@)
    }

    /// Reading the bytes of a string that fits gives the string back.
    pub proof fn lemma_roundtrip(&self, e: e_bitstream_byte_order)
        requires
            self.fits(),
        ensures
            value_string_reads(self.spec_bytes(e), 0, e, self.string@, self.spec_bytes(e).len() as int),
    {
        let b = self.spec_bytes(e);
        let u = encode_utf8(self.string@);
        lemma_uint_roundtrips(e, 0, u.len() as u32, 0);
        assert(b.subrange(0, 4) =~= u32_bytes(u.len() as u32, e));
        assert(b.subrange(4, b.len() as int) =~= u);
    }

    /// Reads the string value at `pos`: an error when the data ends before
    /// its length or its bytes do, or when they are not UTF-8.
    pub fn read_options(data: &[u8], pos: usize, e: e_bitstream_byte_order) -> (r: BLFLibResult<(Self, usize)>)
        ensures
            match r {
                Ok((v, next)) => value_string_reads(data@, pos as int, e, v.string@, next as int),
                Err(err) => value_string_fails(data@, pos as int, e, err),
            },
    {
        if pos > data.len() || data.len() - pos < 4 {
            return Err(BLFLibError::EndOfStream);
        }
        let n = read_u32(data, pos, e) as usize;
        if data.len() - pos - 4 < n {
            return Err(BLFLibError::EndOfStream);
        }
        let bytes = read_bytes(data, pos + 4, n);
        match string_from_utf8(bytes) {
            Some(string) => Ok((s_datamine_value_string { string }, pos + 4 + n)),
            None => Err(BLFLibError::InvalidUtf8),
        }
    }

    /// Appends the string value's bytes; an error, and nothing appended, when
    /// its UTF-8 length does not fit in a `u32`.
    pub fn write_options(&self, out: &mut Vec<u8>, e: e_bitstream_byte_order) -> (r: BLFLibResult)
        ensures
            r is Ok <==> self.fits(),
            r is Ok ==> final(out)@ == old(out)@ + self.spec_bytes(e),
            r matches Err(err) ==> err == BLFLibError::ValueOutOfRange && final(out)@ == old(out)@,
    {
        let bytes = self.string.as_str().as_bytes();
        if bytes.len() > 0xffff_ffff {
            return Err(BLFLibError::ValueOutOfRange);
        }
        write_uint(out, bytes.len() as u64, 4, e);
        append_bytes(out, bytes);
        assert(final(out)@ =~= old(out)@ + self.spec_bytes(e));
        Ok(())
    }
}

/// An event parameter: its name, its kind, and the value of that kind. Only
/// the value that matches the kind is read; writing writes that one value,
/// or none when it is absent.
pub struct s_datamine_parameter {
    /// 32 bytes.
    pub name: Vec<u8>,
    pub parameter_type: e_datamine_parameter_type,
    pub value_long: Option<u32>,
    pub value_int64: Option<u64>,
    /// The IEEE-754 bits of a 32-bit float.
    pub value_float: Option<u32>,
    pub value_string: Option<s_datamine_value_string>,
}

impl s_datamine_parameter {
    /// Whether the name has its declared length.
    pub open spec fn wf(&self) -> bool {
        self.name@.len() == 32
    }

    /// The bytes of the value that matches the kind, none where it is absent.
    pub open spec fn value_bytes(&self, e: e_bitstream_byte_order) -> Seq<u8> {
        match self.parameter_type {
            e_datamine_parameter_type::_datamine_parameter_type_long => match self.value_long {
                Some(v) => u32_bytes(v, e),
                None => seq![],
            },
            e_datamine_parameter_type::_datamine_parameter_type_int64 => match self.value_int64 {
                Some(v) => u64_bytes(v, e),
                None => seq![],
            },
            e_datamine_parameter_type::_datamine_parameter_type_float => match self.value_float {
                Some(v) => u32_bytes(v, e),
                None => seq![],
            },
            e_datamine_parameter_type::_datamine_parameter_type_string => match self.value_string {
                Some(v) => v.spec_bytes(e),
                None => seq![],
            },
        }
    }

    /// The parameter's bytes.
    pub open spec fn spec_bytes(&self, e: e_bitstream_byte_order) -> Seq<u8> {
        self.name@ + u32_bytes(self.parameter_type.tag(), e) + self.value_bytes(e)
    }

    /// Whether the value that matches the kind is present, the others are
    /// absent, and a string value fits its length field.
    pub open spec fn consistent(&self) -> bool {
        match self.parameter_type {
            e_datamine_parameter_type::_datamine_parameter_type_long => self.value_long is Some
                && self.value_int64 is None && self.value_float is None && self.value_string is None,
            e_datamine_parameter_type::_datamine_parameter_type_int64 => self.value_long is None
                && self.value_int64 is Some && self.value_float is None && self.value_string is None,
            e_datamine_parameter_type::_datamine_parameter_type_float => self.value_long is None
                && self.value_int64 is None && self.value_float is Some && self.value_string is None,
            e_datamine_parameter_type::_datamine_parameter_type_string => self.value_long is None
                && self.value_int64 is None && self.value_float is None
                && (self.value_string matches Some(v) && v.fits()),
        }
    }

    /// Whether the parameter is what reading `data` from `pos` gives, ending
    /// at `next`.
    pub open spec fn reads_as(&self, data: Seq<u8>, pos: int, e: e_bitstream_byte_order, next: int) -> bool {
        let at = pos + 36;
        &&& at <= data.len()
        &&& self.name@ == data.subrange(pos, pos + 32)
        &&& e_datamine_parameter_type::from_tag(value_of(data.subrange(pos + 32, at), e)) == Some(self.parameter_type)
        &&& match self.parameter_type {
            e_datamine_parameter_type::_datamine_parameter_type_long => at + 4 <= data.len() && next == at + 4
                && self.value_long == Some(value_of(data.subrange(at, at + 4), e) as u32)
                && self.value_int64 is None && self.value_float is None && self.value_string is None,
            e_datamine_parameter_type::_datamine_parameter_type_int64 => at + 8 <= data.len() && next == at + 8
                && self.value_int64 == Some(value_of(data.subrange(at, at + 8), e) as u64)
                && self.value_long is None && self.value_float is None && self.value_string is None,
            e_datamine_parameter_type::_datamine_parameter_type_float => at + 4 <= data.len() && next == at + 4
                && self.value_float == Some(value_of(data.subrange(at, at + 4), e) as u32)
                && self.value_long is None && self.value_int64 is None && self.value_string is None,
            e_datamine_parameter_type::_datamine_parameter_type_string => (self.value_string matches Some(v)
                && value_string_reads(data, at, e, v.string@, next))
                && self.value_long is None && self.value_int64 is None && self.value_float is None,
        }
    }

    /// Whether reading a parameter from `pos` fails with `err`.
    pub open spec fn read_fails(data: Seq<u8>, pos: int, e: e_bitstream_byte_order, err: BLFLibError) -> bool {
        let at = pos + 36;
        if at > data.len() {
            err == BLFLibError::EndOfStream
        } else {
            match e_datamine_parameter_type::from_tag(value_of(data.subrange(pos + 32, at), e)) {
                None => err == BLFLibError::ValueOutOfRange,
                Some(t) => match t {
                    e_datamine_parameter_type::_datamine_parameter_type_int64 => at + 8 > data.len()
                        && err == BLFLibError::EndOfStream,
                    e_datamine_parameter_type::_datamine_parameter_type_string => value_string_fails(data, at, e, err),
                    _ => at + 4 > data.len() && err == BLFLibError::EndOfStream,
                },
            }
        }
    }

    /// Reading the bytes of a consistent, well-formed parameter gives the
    /// parameter back.
    pub proof fn lemma_roundtrip(&self, e: e_bitstream_byte_order)
        requires
            self.wf(),
            self.consistent(),
        ensures
            self.reads_as(self.spec_bytes(e), 0, e, self.spec_bytes(e).len() as int),
    {
        let b = self.spec_bytes(e);
        let vb = self.value_bytes(e);
        lemma_uint_roundtrips(e, 0, self.parameter_type.tag(), 0);
        assert(b.subrange(0, 32) =~= self.name@);
        assert(b.subrange(32, 36) =~= u32_bytes(self.parameter_type.tag(), e));
        assert(b.subrange(36, b.len() as int) =~= vb);
        match self.parameter_type {
            e_datamine_parameter_type::_datamine_parameter_type_long => {
                lemma_uint_roundtrips(e, 0, self.value_long->0, 0);
            },
            e_datamine_parameter_type::_datamine_parameter_type_int64 => {
                lemma_uint_roundtrips(e, 0, 0, self.value_int64->0);
            },
            e_datamine_parameter_type::_datamine_parameter_type_float => {
                lemma_uint_roundtrips(e, 0, self.value_float->0, 0);
            },
            e_datamine_parameter_type::_datamine_parameter_type_string => {
                let v = self.value_string->0;
                v.lemma_roundtrip(e);
                let sb = v.spec_bytes(e);
                assert(b.subrange(36, 40) =~= sb.subrange(0, 4));
                assert(b.subrange(40, b.len() as int) =~= sb.subrange(4, sb.len() as int));
            },
        }
    }

    /// Reads a parameter at `pos`: its name, its kind, and the value of that
    /// kind; an error when the data ends first, when the kind's tag is above
    /// 3, or when a string value is not UTF-8.
    pub fn read_options(data: &[u8], pos: usize, e: e_bitstream_byte_order) -> (r: BLFLibResult<(Self, usize)>)
        ensures
            match r {
                Ok((v, next)) => v.wf() && v.reads_as(data@, pos as int, e, next as int),
                Err(err) => Self::read_fails(data@, pos as int, e, err),
            },
    {
        if pos > data.len() || data.len() - pos < 36 {
            return Err(BLFLibError::EndOfStream);
        }
        let name = read_bytes(data, pos, 32);
        let parameter_type = match e_datamine_parameter_type::read_options(data, pos + 32, e) {
            Ok((t, _)) => t,
            Err(err) => {
                return Err(err);
            },
        };
        let at = pos + 36;
        let mut v = s_datamine_parameter {
            name,
            parameter_type,
            value_long: None,
            value_int64: None,
            value_float: None,
            value_string: None,
        };
        let next = match parameter_type {
            e_datamine_parameter_type::_datamine_parameter_type_long => {
                if data.len() - at < 4 {
                    return Err(BLFLibError::EndOfStream);
                }
                v.value_long = Some(read_u32(data, at, e));
                at + 4
            },
            e_datamine_parameter_type::_datamine_parameter_type_int64 => {
                if data.len() - at < 8 {
                    return Err(BLFLibError::EndOfStream);
                }
                v.value_int64 = Some(read_u64(data, at, e));
                at + 8
            },
            e_datamine_parameter_type::_datamine_parameter_type_float => {
                if data.len() - at < 4 {
                    return Err(BLFLibError::EndOfStream);
                }
                v.value_float = Some(read_u32(data, at, e));
                at + 4
            },
            e_datamine_parameter_type::_datamine_parameter_type_string => {
                match s_datamine_value_string::read_options(data, at, e) {
                    Ok((s, n)) => {
                        v.value_string = Some(s);
                        n
                    },
                    Err(err) => {
                        return Err(err);
                    },
                }
            },
        };
        Ok((v, next))
    }

    /// Appends the parameter's bytes: its name, its kind, then the value that
    /// matches the kind if it is present. An error when that value is a
    /// string whose UTF-8 length does not fit in a `u32`; the name and kind
    /// are then already written.
    pub fn write_options(&self, out: &mut Vec<u8>, e: e_bitstream_byte_order) -> (r: BLFLibResult)
        requires
            self.wf(),
        ensures
            r is Ok <==> !(self.parameter_type == e_datamine_parameter_type::_datamine_parameter_type_string
                && (self.value_string matches Some(v) && !v.fits())),
            r is Ok ==> final(out)@ == old(out)@ + self.spec_bytes(e),
            r matches Err(err) ==> err == BLFLibError::ValueOutOfRange
                && final(out)@ == old(out)@ + self.name@ + u32_bytes(self.parameter_type.tag(), e),
    {
        append_bytes(out, self.name.as_slice());
        self.parameter_type.write_options(out, e);
        let ghost head = out@;
        match self.parameter_type {
            e_datamine_parameter_type::_datamine_parameter_type_long => {
                if let Some(x) = self.value_long {
                    write_uint(out, x as u64, 4, e);
                }
            },
            e_datamine_parameter_type::_datamine_parameter_type_int64 => {
                if let Some(x) = self.value_int64 {
                    write_uint(out, x, 8, e);
                }
            },
            e_datamine_parameter_type::_datamine_parameter_type_float => {
                if let Some(x) = self.value_float {
                    write_uint(out, x as u64, 4, e);
                }
            },
            e_datamine_parameter_type::_datamine_parameter_type_string => {
                if let Some(s) = &self.value_string {
                    match s.write_options(out, e) {
                        Ok(()) => {},
                        Err(err) => {
                            return Err(err);
                        },
                    }
                }
            },
        }
        assert(final(out)@ =~= head + self.value_bytes(e));
        assert(final(out)@ =~= old(out)@ + self.spec_bytes(e));
        Ok(())
    }
}

/// The data-mine file header's layout, as the format fixes it (offsets in
/// bytes): the byte order marker at 0, the major version at 2 and the minor
/// version at 4 (2 bytes each), the session id (128 bytes) at 6, the build
/// string (32) at 134, the build number (4) at 166, the system id (160) at
/// 170, the title (32) at 330 and the session start date (8) at 362. Writing
/// puts each field there and reading takes each field from there.
pub proof fn lemma_data_mine_header_layout(h: s_data_mine_header, b: Seq<u8>, e: e_bitstream_byte_order)
    requires
        h.wf(),
    ensures ({
        let w = h.spec_bytes(e);
        &&& w.len() == 370
        &&& field(w, 0, 2) == u16_bytes(h.byte_order_marker_fffe, e)
        &&& field(w, 2, 2) == u16_bytes(h.version_major, e)
        &&& field(w, 4, 2) == u16_bytes(h.version_minor, e)
        &&& field(w, 6, 128) == h.sessionid@
        &&& field(w, 134, 32) == h.build_string@
        &&& field(w, 166, 4) == u32_bytes(h.build_number as u32, e)
        &&& field(w, 170, 160) == h.systemid@
        &&& field(w, 330, 32) == h.title@
        &&& field(w, 362, 8) == u64_bytes(h.session_start_date, e)
    }),
    h.parses_as(b, e) ==> {
        &&& h.version_major == value_of(b.subrange(2, 4), e)
        &&& h.version_minor == value_of(b.subrange(4, 6), e)
        &&& h.build_number == (value_of(b.subrange(166, 170), e) as u32) as i32
        &&& h.session_start_date == value_of(b.subrange(362, 370), e)
        &&& h.sessionid@ == b.subrange(6, 134)
        &&& h.build_string@ == b.subrange(134, 166)
        &&& h.systemid@ == b.subrange(170, 330)
        &&& h.title@ == b.subrange(330, 362)
    },
{
    let w = h.spec_bytes(e);
    lemma_uint_roundtrips(e, h.byte_order_marker_fffe, h.build_number as u32, h.session_start_date);
    lemma_uint_roundtrips(e, h.version_major, 0, 0);
    lemma_uint_roundtrips(e, h.version_minor, 0, 0);
    assert(field(w, 0, 2) =~= u16_bytes(h.byte_order_marker_fffe, e));
    assert(field(w, 2, 2) =~= u16_bytes(h.version_major, e));
    assert(field(w, 4, 2) =~= u16_bytes(h.version_minor, e));
    assert(field(w, 6, 128) =~= h.sessionid@);
    assert(field(w, 134, 32) =~= h.build_string@);
    assert(field(w, 166, 4) =~= u32_bytes(h.build_number as u32, e));
    assert(field(w, 170, 160) =~= h.systemid@);
    assert(field(w, 330, 32) =~= h.title@);
    assert(field(w, 362, 8) =~= u64_bytes(h.session_start_date, e));
}

/// A data-mine event header's layout, as the format fixes it (offsets in
/// bytes): the total size (4) at 0, the event name (512) at 4, the parameter
/// signature (512) at 516, the priority (4) at 1028, the event index (4) at
/// 1032, the game instance (8) at 1036 and the map (260) at 1044, and the
/// event date (8) at 1304. Writing puts each field there and reading takes
/// each field from there.
pub proof fn lemma_event_header_layout(h: s_datamine_event_header, b: Seq<u8>, e: e_bitstream_byte_order)
    requires
        h.wf(),
    ensures ({
        let w = h.spec_bytes(e);
        &&& w.len() == 1312
        &&& field(w, 0, 4) == u32_bytes(h.total_size, e)
        &&& field(w, 4, 512) == h.event_name@
        &&& field(w, 516, 512) == h.parameter_signature@
        &&& field(w, 1028, 4) == u32_bytes(h.priority, e)
        &&& field(w, 1032, 4) == u32_bytes(h.event_index, e)
        &&& field(w, 1036, 8) == u64_bytes(h.game_info.game_instance, e)
        &&& field(w, 1044, 260) == h.game_info.map@
        &&& field(w, 1304, 8) == u64_bytes(h.event_date, e)
    }),
    h.parses_as(b, e) ==> {
        &&& h.total_size == value_of(b.subrange(0, 4), e)
        &&& h.event_name@ == b.subrange(4, 516)
        &&& h.parameter_signature@ == b.subrange(516, 1028)
        &&& h.priority == value_of(b.subrange(1028, 1032), e)
        &&& h.event_index == value_of(b.subrange(1032, 1036), e)
        &&& h.game_info.game_instance == value_of(b.subrange(1036, 1044), e)
        &&& h.game_info.map@ == b.subrange(1044, 1304)
        &&& h.event_date == value_of(b.subrange(1304, 1312), e)
    },
{
    let w = h.spec_bytes(e);
    lemma_uint_roundtrips(e, 0, h.total_size, h.event_date);
    lemma_uint_roundtrips(e, 0, h.priority, h.game_info.game_instance);
    lemma_uint_roundtrips(e, 0, h.event_index, 0);
    assert(field(w, 0, 4) =~= u32_bytes(h.total_size, e));
    assert(field(w, 4, 512) =~= h.event_name@);
    assert(field(w, 516, 512) =~= h.parameter_signature@);
    assert(field(w, 1028, 4) =~= u32_bytes(h.priority, e));
    assert(field(w, 1032, 4) =~= u32_bytes(h.event_index, e));
    assert(field(w, 1036, 8) =~= u64_bytes(h.game_info.game_instance, e));
    assert(field(w, 1044, 260) =~= h.game_info.map@);
    assert(field(w, 1304, 8) =~= u64_bytes(h.event_date, e));
    if h.parses_as(b, e) {
        let g = field(b, 1036, 268);
        assert(field(g, 0, 8) =~= b.subrange(1036, 1044));
        assert(field(g, 8, 260) =~= b.subrange(1044, 1304));
    }
}

/// The numbering of the parameter kinds in the data-mine format: long 0,
/// int64 1, float 2, string 3; each number reads back as its kind and no
/// other number names a kind.
pub proof fn lemma_parameter_type_numbering(t: nat)
    ensures
        e_datamine_parameter_type::_datamine_parameter_type_long.tag() == 0,
        e_datamine_parameter_type::_datamine_parameter_type_int64.tag() == 1,
        e_datamine_parameter_type::_datamine_parameter_type_float.tag() == 2,
        e_datamine_parameter_type::_datamine_parameter_type_string.tag() == 3,
        e_datamine_parameter_type::from_tag(t) matches Some(k) ==> k.tag() == t,
        e_datamine_parameter_type::from_tag(t) is None <==> t > 3,
{
}

} // verus!
