pub mod change_set;
pub mod dataset;
pub mod layout;
pub mod lookup;
pub mod region_tracker;
pub mod storage;
pub mod tables;
pub mod types;
