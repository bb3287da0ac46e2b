use blf_lib::blam::haloreach_mcc::v_untracked_25_08_16_1352::saved_games::scenario_map_variant_h4::{
    read_fixed_ascii, read_fixed_ascii_raw, write_fixed_ascii, write_fixed_ascii_raw,
};
use blf_lib::io::bitstream::{c_bitstream_reader, c_bitstream_writer};
use blf_lib::result::BLFLibError;

#[test]
fn fixed_ascii_pads_and_truncates_to_its_length() {
    let mut w = c_bitstream_writer::new();
    write_fixed_ascii(&mut w, "Spartan", 15).unwrap();
    write_fixed_ascii(&mut w, "0123456789ABCDEFGH", 15).unwrap();
    assert_eq!(w.bit_count(), 2 * 15 * 8);
    let data = w.get_data();
    assert_eq!(&data[0..8], b"Spartan\0");
    let mut r = c_bitstream_reader::new(&data);
    assert_eq!(read_fixed_ascii(&mut r, 15).unwrap(), "Spartan\0\0\0\0\0\0\0\0");
    assert_eq!(read_fixed_ascii_raw(&mut r, 15).unwrap(), b"0123456789ABCDE".to_vec());
    assert_eq!(r.bits_remaining(), 0);
}

#[test]
fn fixed_ascii_keeps_the_low_byte_of_each_character() {
    let mut w = c_bitstream_writer::new();
    write_fixed_ascii(&mut w, "\u{e9}\u{141}", 2).unwrap();
    assert_eq!(w.get_data(), vec![0xE9, 0x41]);
    let data = w.get_data();
    let mut r = c_bitstream_reader::new(&data);
    assert_eq!(read_fixed_ascii(&mut r, 2).unwrap(), "\u{e9}A");
}

#[test]
fn fixed_ascii_raw_roundtrip_and_short_input() {
    let mut w = c_bitstream_writer::new();
    w.write_bool(true).unwrap();
    write_fixed_ascii_raw(&mut w, &[0xFF, 0x00, 0x7F], 4).unwrap();
    let data = w.get_data();
    let mut r = c_bitstream_reader::new(&data);
    assert!(r.read_bool("lead").unwrap());
    assert_eq!(read_fixed_ascii_raw(&mut r, 4).unwrap(), vec![0xFF, 0x00, 0x7F, 0x00]);

    let short = vec![0x41, 0x42, 0x43];
    let mut r = c_bitstream_reader::new(&short);
    assert!(matches!(read_fixed_ascii_raw(&mut r, 4), Err(BLFLibError::EndOfStream)));
    assert_eq!(r.bits_remaining(), 0);
}
