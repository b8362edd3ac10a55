pub mod fileops;
pub mod index;
pub mod input;
pub mod listing;
pub mod manager;
pub mod modes;
pub mod offset_buffer;
pub mod path;
pub mod preview;
pub mod search;
