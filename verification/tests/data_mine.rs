use blf_lib::blam::common::data_mining::data_mine_management::{
    c_datamine_game_info, e_datamine_parameter_type, s_data_mine_header, s_datamine_event_header,
    s_datamine_parameter, s_datamine_parameter_header, s_datamine_value_string,
};
use blf_lib::blam::common::memory::data_compress::e_bitstream_byte_order;
use blf_lib::result::BLFLibError;

const LE: e_bitstream_byte_order = e_bitstream_byte_order::_bitstream_byte_order_little_endian;
const BE: e_bitstream_byte_order = e_bitstream_byte_order::_bitstream_byte_order_big_endian;

fn text(s: &str, n: usize) -> Vec<u8> {
    let mut v = s.as_bytes().to_vec();
    v.resize(n, 0);
    v
}

#[test]
fn data_mine_header_roundtrip_big_endian() {
    let header = s_data_mine_header {
        byte_order_marker_fffe: 0xFFFE,
        version_major: 3,
        version_minor: 1,
        sessionid: text("session-0001", 128),
        build_string: text("12070.08.09.05.2031", 32),
        build_number: -12070,
        systemid: text("system", 160),
        title: text("halo3", 32),
        session_start_date: 0x01D9_0000_1234_5678,
    };
    let mut out = Vec::new();
    header.write_options(&mut out, BE);
    assert_eq!(out.len(), 370);
    assert_eq!(&out[0..6], &[0xFF, 0xFE, 0x00, 0x03, 0x00, 0x01]);
    let (back, next) = s_data_mine_header::read_options(&out, 0, BE).unwrap();
    assert_eq!(next, 370);
    assert_eq!(back.byte_order_marker_fffe, 0xFFFE);
    assert_eq!(back.build_number, -12070);
    assert_eq!(back.sessionid, header.sessionid);
    assert_eq!(back.title, header.title);
    assert_eq!(back.session_start_date, 0x01D9_0000_1234_5678);
}

#[test]
fn data_mine_header_short_input_is_end_of_stream() {
    let data = vec![0u8; 369];
    assert!(matches!(s_data_mine_header::read_options(&data, 0, LE), Err(BLFLibError::EndOfStream)));
}

#[test]
fn event_header_roundtrip_little_endian() {
    let header = s_datamine_event_header {
        total_size: 1400,
        event_name: text("game_end", 512),
        parameter_signature: text("ls", 512),
        priority: 2,
        event_index: 41,
        game_info: c_datamine_game_info { game_instance: 0xDEAD_BEEF_0000_0001, map: text("guardian", 260) },
        event_date: 77,
    };
    let mut out = vec![0xAA];
    header.write_options(&mut out, LE);
    assert_eq!(out.len(), 1 + 1312);
    assert_eq!(&out[1..5], &[0x78, 0x05, 0x00, 0x00]);
    let (back, next) = s_datamine_event_header::read_options(&out, 1, LE).unwrap();
    assert_eq!(next, 1313);
    assert_eq!(back.total_size, 1400);
    assert_eq!(back.event_index, 41);
    assert_eq!(back.game_info.game_instance, 0xDEAD_BEEF_0000_0001);
    assert_eq!(back.game_info.map, header.game_info.map);
    assert_eq!(back.event_date, 77);
}

#[test]
fn parameter_type_tags() {
    let mut out = Vec::new();
    e_datamine_parameter_type::_datamine_parameter_type_float.write_options(&mut out, LE);
    assert_eq!(out, vec![2, 0, 0, 0]);
    let (t, next) = e_datamine_parameter_type::read_options(&[0, 0, 0, 3], 0, BE).unwrap();
    assert_eq!(t, e_datamine_parameter_type::_datamine_parameter_type_string);
    assert_eq!(next, 4);
    assert!(matches!(e_datamine_parameter_type::read_options(&[4, 0, 0, 0], 0, LE), Err(BLFLibError::ValueOutOfRange)));
    assert!(matches!(e_datamine_parameter_type::read_options(&[4, 0, 0], 0, LE), Err(BLFLibError::EndOfStream)));
}

#[test]
fn parameter_header_roundtrip() {
    let header = s_datamine_parameter_header {
        name: text("kills", 32),
        parameter_type: e_datamine_parameter_type::_datamine_parameter_type_int64,
    };
    let mut out = Vec::new();
    header.write_options(&mut out, BE);
    assert_eq!(out.len(), 36);
    assert_eq!(&out[32..36], &[0, 0, 0, 1]);
    let (back, _) = s_datamine_parameter_header::read_options(&out, 0, BE).unwrap();
    assert_eq!(back.name, header.name);
    assert_eq!(back.parameter_type, e_datamine_parameter_type::_datamine_parameter_type_int64);
}

#[test]
fn value_string_roundtrip_and_errors() {
    let value = s_datamine_value_string { string: "Blood Gulch \u{2014} CTF".to_string() };
    let mut out = Vec::new();
    value.write_options(&mut out, LE).unwrap();
    assert_eq!(out.len(), 4 + "Blood Gulch \u{2014} CTF".len());
    assert_eq!(out[0] as usize, "Blood Gulch \u{2014} CTF".len());
    let (back, next) = s_datamine_value_string::read_options(&out, 0, LE).unwrap();
    assert_eq!(back.string, value.string);
    assert_eq!(next, out.len());

    let truncated = &out[..out.len() - 1];
    assert!(matches!(s_datamine_value_string::read_options(truncated, 0, LE), Err(BLFLibError::EndOfStream)));
    let invalid = vec![2, 0, 0, 0, 0xC3, 0x28];
    assert!(matches!(s_datamine_value_string::read_options(&invalid, 0, LE), Err(BLFLibError::InvalidUtf8)));
}

#[test]
fn parameter_roundtrip_each_kind() {
    let name = text("score", 32);
    let params = vec![
        s_datamine_parameter {
            name: name.clone(),
            parameter_type: e_datamine_parameter_type::_datamine_parameter_type_long,
            value_long: Some(50),
            value_int64: None,
            value_float: None,
            value_string: None,
        },
        s_datamine_parameter {
            name: name.clone(),
            parameter_type: e_datamine_parameter_type::_datamine_parameter_type_int64,
            value_long: None,
            value_int64: Some(0x0123_4567_89AB_CDEF),
            value_float: None,
            value_string: None,
        },
        s_datamine_parameter {
            name: name.clone(),
            parameter_type: e_datamine_parameter_type::_datamine_parameter_type_float,
            value_long: None,
            value_int64: None,
            value_float: Some(1.5f32.to_bits()),
            value_string: None,
        },
        s_datamine_parameter {
            name: name.clone(),
            parameter_type: e_datamine_parameter_type::_datamine_parameter_type_string,
            value_long: None,
            value_int64: None,
            value_float: None,
            value_string: Some(s_datamine_value_string { string: "flag".to_string() }),
        },
    ];
    let sizes = [40, 44, 40, 44];
    for (p, size) in params.iter().zip(sizes) {
        let mut out = Vec::new();
        p.write_options(&mut out, BE).unwrap();
        assert_eq!(out.len(), size);
        let (back, next) = s_datamine_parameter::read_options(&out, 0, BE).unwrap();
        assert_eq!(next, size);
        assert_eq!(back.name, p.name);
        assert_eq!(back.parameter_type, p.parameter_type);
        assert_eq!(back.value_long, p.value_long);
        assert_eq!(back.value_int64, p.value_int64);
        assert_eq!(back.value_float, p.value_float);
        assert_eq!(back.value_string.map(|s| s.string), p.value_string.as_ref().map(|s| s.string.clone()));
    }
    assert_eq!(f32::from_bits(params[2].value_float.unwrap()), 1.5);
}

#[test]
fn parameter_reads_only_the_value_of_its_kind() {
    let mut data = text("deaths", 32);
    data.extend_from_slice(&[0, 0, 0, 0]);
    data.extend_from_slice(&[7, 0, 0, 0, 9, 9, 9, 9]);
    let (p, next) = s_datamine_parameter::read_options(&data, 0, LE).unwrap();
    assert_eq!(next, 40);
    assert_eq!(p.value_long, Some(7));
    assert_eq!(p.value_int64, None);

    let mut bad = text("deaths", 32);
    bad.extend_from_slice(&[9, 0, 0, 0]);
    assert!(matches!(s_datamine_parameter::read_options(&bad, 0, LE), Err(BLFLibError::ValueOutOfRange)));

    let mut short = text("deaths", 32);
    short.extend_from_slice(&[1, 0, 0, 0, 1, 2, 3]);
    assert!(matches!(s_datamine_parameter::read_options(&short, 0, LE), Err(BLFLibError::EndOfStream)));
}

#[test]
fn parameter_without_its_value_writes_header_only() {
    let p = s_datamine_parameter {
        name: text("x", 32),
        parameter_type: e_datamine_parameter_type::_datamine_parameter_type_long,
        value_long: None,
        value_int64: Some(5),
        value_float: None,
        value_string: None,
    };
    let mut out = Vec::new();
    p.write_options(&mut out, LE).unwrap();
    assert_eq!(out.len(), 36);
}
