pub mod data_mine_management;
