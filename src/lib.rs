pub mod array;
pub mod commands;
pub mod data;
pub mod laws;
pub mod pacing;
pub mod perm;
pub mod radix;
pub mod shuffle;
pub mod sorts;
