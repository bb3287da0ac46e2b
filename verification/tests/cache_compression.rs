use blf_lib::blam::haloreach_mcc::v_untracked_25_08_16_1352::cache_compression::{
    unpack_lzma_dict_size, decompress_mcc_lzma_section, decompress_mcc_cache_file, MccCacheSection,
};
use blf_lib::blam::common::memory::data_compress::{runtime_data_compress, runtime_data_decompress, e_bitstream_byte_order};

fn stored(index: usize, offset: u32, size: u32, va: u32) -> MccCacheSection {
    MccCacheSection {
        index,
        virtual_address: va,
        decompressed_size: size,
        compressed_offset: offset,
        compressed_size: size,
        compression_type: 0,
    }
}

#[test]
fn dict_size_unpacks() {
    assert_eq!(unpack_lzma_dict_size(0), 1 << 10);
    assert_eq!(unpack_lzma_dict_size(26), 1 << 23);
    assert_eq!(unpack_lzma_dict_size(4), 5 << 12);
    assert_eq!(unpack_lzma_dict_size(0x2A), 1 << 31);
}

#[test]
fn stored_sections_are_placed_in_order_0_1_3_2() {
    let mut file = vec![0xAAu8; 4];
    file.extend_from_slice(&[1, 1]);
    file.extend_from_slice(&[2, 2, 2]);
    file.extend_from_slice(&[3]);
    file.extend_from_slice(&[4, 4]);
    let sections = vec![
        stored(0, 4, 2, 0x100),
        stored(1, 6, 3, 0x200),
        stored(2, 9, 1, 0x10),
        stored(3, 10, 2, 0),
    ];
    let (out, masks) = decompress_mcc_cache_file(&file, 4, &sections, 4).unwrap();
    assert_eq!(
        out,
        vec![0xAA, 0xAA, 0xAA, 0xAA, 1, 1, 0, 0, 2, 2, 2, 0, 4, 4, 0, 0, 3]
    );
    assert_eq!(masks, [4u32.wrapping_sub(0x100), 8u32.wrapping_sub(0x200), 16u32.wrapping_sub(0x10), 12]);
}

#[test]
fn missing_section_is_reported() {
    let file = vec![0u8; 8];
    let sections = vec![stored(0, 0, 1, 0), stored(1, 1, 1, 0)];
    assert_eq!(decompress_mcc_cache_file(&file, 2, &sections, 1).unwrap_err(), "missing section 3");
}

#[test]
fn short_file_and_bad_ranges_are_reported() {
    let file = vec![0u8; 8];
    assert_eq!(decompress_mcc_cache_file(&file, 9, &[], 1).unwrap_err(), "file shorter than header_size");
    let sections = vec![stored(0, 6, 4, 0)];
    assert_eq!(
        decompress_mcc_cache_file(&file, 2, &sections, 1).unwrap_err(),
        "section 0 compressed range 6..10 > file len 8"
    );
    let mut wrong = stored(0, 0, 2, 0);
    wrong.decompressed_size = 3;
    assert_eq!(
        decompress_mcc_cache_file(&file, 0, &[wrong], 1).unwrap_err(),
        "section 0 type=0 size mismatch: compressed_size=2 decompressed_size=3"
    );
    let mut unknown = stored(0, 0, 2, 0);
    unknown.compression_type = 7;
    assert_eq!(
        decompress_mcc_cache_file(&file, 0, &[unknown], 1).unwrap_err(),
        "unknown MCC compression type 7 for section 0"
    );
}

#[test]
fn short_lzma_section_is_reported() {
    assert_eq!(decompress_mcc_lzma_section(&[1, 2], 10).unwrap_err(), "compressed section too small: 2 bytes");
}

#[test]
fn lzma_sections_decompress() {
    let plain: Vec<u8> = (0..300u32).map(|i| (i % 7) as u8).collect();
    let mut stream = Vec::new();
    lzma_rs::lzma_compress(&mut std::io::Cursor::new(plain.clone()), &mut stream).unwrap();
    // The encoder writes a 13-byte header with an 8 MiB dictionary; an MCC
    // section carries a skipped byte and the packed dictionary size instead.
    let mut chunk = vec![0u8, 26u8];
    chunk.extend_from_slice(&stream[13..]);
    assert_eq!(decompress_mcc_lzma_section(&chunk, plain.len()).unwrap(), plain);

    let mut file = vec![9u8; 2];
    let offset = file.len() as u32;
    file.extend_from_slice(&chunk);
    let mut sections = vec![stored(0, 0, 0, 0), stored(1, 0, 0, 0), stored(2, 0, 0, 0), stored(3, 0, 0, 0)];
    sections[1] = MccCacheSection {
        index: 1,
        virtual_address: 0,
        decompressed_size: plain.len() as u32,
        compressed_offset: offset,
        compressed_size: chunk.len() as u32,
        compression_type: 3,
    };
    let (out, _) = decompress_mcc_cache_file(&file, 2, &sections, 1).unwrap();
    let mut expected = vec![9u8; 2];
    expected.extend_from_slice(&plain);
    assert_eq!(out, expected);
}

#[test]
fn runtime_data_round_trips_through_zlib() {
    let source: Vec<u8> = b"runtime data runtime data runtime data".to_vec();
    for endian in [e_bitstream_byte_order::_bitstream_byte_order_little_endian, e_bitstream_byte_order::_bitstream_byte_order_big_endian] {
        let mut block = Vec::new();
        runtime_data_compress(&source, &mut block, endian).unwrap();
        let size_bytes = &block[..4];
        match endian {
            e_bitstream_byte_order::_bitstream_byte_order_little_endian => assert_eq!(size_bytes, &[38, 0, 0, 0]),
            e_bitstream_byte_order::_bitstream_byte_order_big_endian => assert_eq!(size_bytes, &[0, 0, 0, 38]),
        }
        let mut out = Vec::new();
        runtime_data_decompress(&block, &mut out, endian).unwrap();
        assert_eq!(out, source);
    }
}

#[test]
fn runtime_data_decompress_reports_corrupt_streams() {
    let mut out = Vec::new();
    let err = runtime_data_decompress(&[5, 0, 0, 0, 1, 2, 3], &mut out, e_bitstream_byte_order::_bitstream_byte_order_little_endian)
        .unwrap_err();
    match err {
        blf_lib::result::BLFLibError::Message(m) => assert!(m.starts_with("runtime_data_decompress: failed to decompress 5 - ")),
        _ => panic!("expected a message"),
    }
    assert!(runtime_data_decompress(&[1, 2], &mut out, e_bitstream_byte_order::_bitstream_byte_order_little_endian).is_err());
}
