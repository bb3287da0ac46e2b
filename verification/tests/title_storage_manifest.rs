use blf_lib::title_storage::haloonline::v1_106708_cert_ms23___release::title_storage_output::{
    manifest_entry_path, manifest_file_name, manifest_language_entry_path, matchmaking_hopper_file_name,
};

#[test]
fn manifest_entries_sit_under_title_and_the_hopper_directory() {
    let name = matchmaking_hopper_file_name();
    assert_eq!(name, "matchmaking_hopper_011.bin");
    assert_eq!(manifest_entry_path("default_hoppers", &name), "/title/default_hoppers/matchmaking_hopper_011.bin");
    assert_eq!(manifest_file_name(), "manifest_001.bin");
    assert_eq!(
        manifest_language_entry_path("default_hoppers", "en", "matchmaking_tips.bin"),
        "/title/default_hoppers/en/matchmaking_tips.bin"
    );
}
