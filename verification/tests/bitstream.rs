use blf_lib::io::bitstream::{c_bitstream_reader, c_bitstream_writer};
use blf_lib::result::BLFLibError;

#[test]
fn integers_are_written_most_significant_bit_first() {
    let mut w = c_bitstream_writer::new();
    w.write_integer(0b101, 3).unwrap();
    w.write_integer(0x1F, 5).unwrap();
    w.write_bool(true).unwrap();
    assert_eq!(w.bit_count(), 9);
    assert_eq!(w.get_data(), vec![0b1011_1111, 0b1000_0000]);
}

#[test]
fn integers_read_back_as_written() {
    let mut w = c_bitstream_writer::new();
    w.write_integer(1234, 11).unwrap();
    w.write_signed_integer(-5, 4).unwrap();
    w.write_qword(0xDEAD_BEEF_CAFE_F00D, 64).unwrap();
    w.write_bool(false).unwrap();
    let data = w.get_data();
    let mut r = c_bitstream_reader::new(&data);
    assert_eq!(r.read_integer("a", 11).unwrap(), 1234);
    assert_eq!(r.read_signed_integer("b", 4).unwrap(), -5);
    assert_eq!(r.read_qword(64).unwrap(), 0xDEAD_BEEF_CAFE_F00D);
    assert_eq!(r.read_bool("c").unwrap(), false);
    assert_eq!(r.bits_remaining(), 0);
}

#[test]
fn widths_and_values_out_of_range_are_refused() {
    let mut w = c_bitstream_writer::new();
    assert!(matches!(w.write_integer(1, 0), Err(BLFLibError::BitCountOutOfRange)));
    assert!(matches!(w.write_integer(1, 65), Err(BLFLibError::BitCountOutOfRange)));
    assert!(matches!(w.write_integer(8, 3), Err(BLFLibError::ValueOutOfRange)));
    assert!(matches!(w.write_signed_integer(8, 4), Err(BLFLibError::ValueOutOfRange)));
    assert!(matches!(w.write_signed_integer(-9, 4), Err(BLFLibError::ValueOutOfRange)));
    assert_eq!(w.bit_count(), 0);
}

#[test]
fn reading_past_the_end_fails_and_reads_nothing() {
    let mut r = c_bitstream_reader::new(&[0xFF]);
    assert!(matches!(r.read_integer("x", 9), Err(BLFLibError::EndOfStream)));
    assert_eq!(r.bits_remaining(), 8);
    assert_eq!(r.read_integer("x", 8).unwrap(), 0xFF);
    assert!(matches!(r.read_unnamed_bool(), Err(BLFLibError::EndOfStream)));
}

#[test]
fn signed_values_sign_extend() {
    let mut r = c_bitstream_reader::new(&[0b1000_0001]);
    assert_eq!(r.read_unnamed_signed_integer(8).unwrap(), -127);
}

#[test]
fn strings_are_nul_bounded() {
    let mut w = c_bitstream_writer::new();
    w.write_string_extended_ascii(b"abc", 16).unwrap();
    w.write_string_wchar(&[0x48, 0x49], 2).unwrap();
    assert_eq!(w.bit_count(), 4 * 8 + 2 * 16);
    let data = w.get_data();
    let mut r = c_bitstream_reader::new(&data);
    assert_eq!(r.read_string_extended_ascii(16).unwrap(), b"abc".to_vec());
    assert_eq!(r.read_string_wchar(2).unwrap(), vec![0x48u16, 0x49]);
}

#[test]
fn a_string_longer_than_its_bound_is_refused() {
    let mut w = c_bitstream_writer::new();
    assert!(w.write_string_extended_ascii(b"abcd", 3).is_err());
    assert_eq!(w.bit_count(), 0);
}

#[test]
fn an_unterminated_string_at_the_end_fails_and_reads_nothing() {
    let mut r = c_bitstream_reader::new(&[b'a', b'b']);
    assert!(r.read_string_utf8(16).is_err());
    assert_eq!(r.bits_remaining(), 16);
}

#[test]
fn indices_are_written_plus_one() {
    let mut w = c_bitstream_writer::new();
    w.write_index::<8>(-1, 3).unwrap();
    w.write_index::<8>(6, 3).unwrap();
    assert!(w.write_index::<8>(8, 4).is_err());
    assert!(w.write_index::<8>(-2, 3).is_err());
    let data = w.get_data();
    assert_eq!(data, vec![0b0001_1100]);
    let mut r = c_bitstream_reader::new(&data);
    assert_eq!(r.read_index::<8>("a", 3).unwrap(), -1);
    assert_eq!(r.read_index::<8>("b", 3).unwrap(), 6);
}

#[test]
fn indices_take_widths_up_to_sixty_four_bits() {
    let mut w = c_bitstream_writer::new();
    w.write_index::<100>(5, 64).unwrap();
    w.write_integer(u64::MAX, 64).unwrap();
    let data = w.get_data();
    let mut r = c_bitstream_reader::new(&data);
    assert_eq!(r.read_index::<100>("a", 64).unwrap(), 5);
    assert!(matches!(r.read_index::<18446744073709551615>("b", 64), Err(BLFLibError::ValueOutOfRange)));
    assert_eq!(r.bits_remaining(), 64);
    assert!(matches!(r.read_index::<4>("c", 65), Err(BLFLibError::BitCountOutOfRange)));
}
