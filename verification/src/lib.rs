//! Generation of placeholder files: a requested size, a recognizable
//! magic-byte header for the chosen file type, and random filler bytes.

pub mod fake_file;
pub mod random_source;
