use blf_lib::blam::common::memory::data_compress::runtime_data_from_outcome;
use blf_lib::result::BLFLibError;

#[test]
fn outcome_bytes_are_appended_and_a_failure_names_the_size() {
    let mut buf = vec![9u8];
    let r = runtime_data_from_outcome(300, &vec![1, 2], Some("corrupt deflate stream".to_string()), &mut buf);
    assert_eq!(buf, vec![9, 1, 2]);
    match r {
        Err(BLFLibError::Message(m)) => {
            assert_eq!(m, "runtime_data_decompress: failed to decompress 300 - corrupt deflate stream")
        },
        other => panic!("unexpected {:?}", other),
    }
}

#[test]
fn outcome_without_failure_is_ok() {
    let mut buf = Vec::new();
    assert!(runtime_data_from_outcome(3, &vec![7, 8, 9], None, &mut buf).is_ok());
    assert_eq!(buf, vec![7, 8, 9]);
}
