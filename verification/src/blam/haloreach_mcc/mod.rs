pub mod v_untracked_25_08_16_1352;
