//! Reading, editing and writing PNG files as a sequence of typed, checksummed
//! chunks, with every operation specified over the byte layout of the format.

pub mod args;
pub mod checksum;
pub mod chunk;
pub mod chunk_type;
pub mod commands;
pub mod error;
pub mod png;
pub mod text;
pub mod wire;
