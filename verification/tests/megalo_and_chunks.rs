use blf_lib::blam::haloreach::v09730_10_04_09_1309_omaha_delta::game::megalogamengine::megalogamengine_conditions::e_condition_type;
use blf_lib::blam::haloreach::v08516_10_02_19_1607_omaha_alpha::game::game_variant::e_game_mode;
use blf_lib::blf::chunks::{BlfChunkHooks, DynTitleAndBuild, TitleAndBuild};

#[test]
fn condition_type_numbers() {
    assert_eq!(e_condition_type::from_u32(0), Some(e_condition_type::none));
    assert_eq!(e_condition_type::from_u32(5), Some(e_condition_type::is_zero));
    assert_eq!(e_condition_type::from_u32(13), Some(e_condition_type::is_in_use));
    assert_eq!(e_condition_type::from_u32(14), None);
    assert_eq!(e_condition_type::from_u32(15), None);
    for v in 0..14u32 {
        assert_eq!(e_condition_type::from_u32(v).unwrap().to_u32(), v);
    }
}

struct Chunk {
    seen: usize,
}

impl BlfChunkHooks for Chunk {}

impl TitleAndBuild for Chunk {
    fn get_title() -> &'static str {
        "Halo 3"
    }

    fn get_build_string() -> &'static str {
        "12070.08.09.05.2031.halo3_ship"
    }
}

impl DynTitleAndBuild for Chunk {
    fn title(&self) -> String {
        Chunk::get_title().to_string()
    }

    fn build_string(&self) -> String {
        Chunk::get_build_string().to_string()
    }
}

#[test]
fn chunk_hooks_do_nothing_by_default() {
    let mut chunk = Chunk { seen: 3 };
    assert!(chunk.before_write(&vec![1, 2, 3]).is_ok());
    assert!(chunk.after_read(&[4, 5]).is_ok());
    assert_eq!(chunk.seen, 3);
    assert_eq!(chunk.title(), "Halo 3");
    assert_eq!(chunk.build_string(), "12070.08.09.05.2031.halo3_ship");
}

#[test]
fn game_mode_numbers() {
    assert_eq!(e_game_mode::default(), e_game_mode::custom);
    assert_eq!(e_game_mode::from_u32(0), None);
    assert_eq!(e_game_mode::from_u32(1), Some(e_game_mode::sandbox));
    assert_eq!(e_game_mode::from_u32(4), Some(e_game_mode::survival));
    assert_eq!(e_game_mode::from_u32(5), None);
    assert_eq!(e_game_mode::campaign.to_u32(), 3);
}
