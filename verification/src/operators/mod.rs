pub mod count;
pub mod forward;
pub mod map;
pub mod pop_key;
pub mod push_key_split;
