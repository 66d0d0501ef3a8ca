//! The arguments of the three commands.

use std::path::PathBuf;
use vstd::prelude::*;

verus! {

/// `std::path::PathBuf`: a path is carried from the command line to the
/// file system and never looked into.
#[verifier::external_type_specification]
#[verifier::external_body]
pub struct ExPathBuf(std::path::PathBuf);

/// Hide a message in a file, in a new chunk of the given type.
#[derive(Debug)]
pub struct Encode {
    pub file: PathBuf,
    pub chunk_name: String,
    pub message: String,
    pub output_file: Option<PathBuf>,
}

/// Show the message held by the first chunk of the given type.
#[derive(Debug)]
pub struct Decode {
    pub file: PathBuf,
    pub chunk_name: String,
}

/// Take the first chunk of the given type out of a file.
#[derive(Debug)]
pub struct Remove {
    pub file: PathBuf,
    pub chunk_name: String,
}

impl Encode {
    /// Where the result is written: the output file if one was named, the
    /// input file otherwise.
    pub fn target(&self) -> (path: &PathBuf)
        ensures
            *path == match self.output_file {
                Some(out) => out,
                None => self.file,
            },
    {
        match &self.output_file {
            Some(out) => out,
            None => &self.file,
        }
    }
}

} // verus!
