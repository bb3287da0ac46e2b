use blf_lib::blam::haloreach_mcc::v_untracked_25_08_16_1352::saved_games::scenario_map_variant_h4::h4_h2a_mp_object_properties_consume_bits;
use blf_lib::io::bitstream::{c_bitstream_reader, c_bitstream_writer};

fn skipped_bits(shape: u64, dims: u32, cached_type: u64, tail: u32) -> usize {
    let mut w = c_bitstream_writer::new();
    w.write_integer(shape, 2).unwrap();
    for _ in 0..dims {
        w.write_integer(7, 16).unwrap();
    }
    w.write_integer(cached_type, 6).unwrap();
    w.write_integer(5, 11).unwrap();
    for _ in 0..tail {
        w.write_bool(true).unwrap();
    }
    for _ in 0..200 {
        w.write_bool(false).unwrap();
    }
    let data = w.get_data();
    let mut r = c_bitstream_reader::new(&data);
    let before = r.bits_remaining();
    h4_h2a_mp_object_properties_consume_bits(&mut r).unwrap();
    before - r.bits_remaining()
}

#[test]
fn teleporter_properties_skip_nine_sixteen_bit_fields() {
    assert_eq!(skipped_bits(0, 0, 0x21, 144), 2 + 6 + 11 + 9 * 16);
    assert_eq!(skipped_bits(0, 0, 0x22, 144), 163);
}

#[test]
fn advanced_properties_skip_ten_four_bit_fields() {
    assert_eq!(skipped_bits(0, 0, 0x23, 40), 2 + 6 + 11 + 10 * 4);
}

#[test]
fn boundary_fields_are_sixteen_bits_each() {
    assert_eq!(skipped_bits(1, 1, 0, 0), 2 + 16 + 6 + 11);
    assert_eq!(skipped_bits(2, 3, 0x20, 28), 2 + 48 + 6 + 11 + 28);
    assert_eq!(skipped_bits(3, 4, 5, 0), 2 + 64 + 6 + 11);
}

#[test]
fn short_input_fails() {
    let mut w = c_bitstream_writer::new();
    w.write_integer(0, 2).unwrap();
    w.write_integer(0x21, 6).unwrap();
    w.write_integer(5, 11).unwrap();
    let data = w.get_data();
    let mut r = c_bitstream_reader::new(&data);
    assert!(h4_h2a_mp_object_properties_consume_bits(&mut r).is_err());
}
