pub mod name_map;
pub mod raw_data;
pub mod word_size;
