//! Errors.

use crate::paths::path_names;
use std::path::PathBuf;
use vstd::prelude::*;

verus! {

/// Why an operation on the settings failed.
#[derive(Debug)]
pub enum AppError {
    /// The configuration file does not hold what it should.
    Config(String),
    /// Anything else, in words.
    Message(String),
    /// A file does not hold JSON.
    Json {
        path: PathBuf,
        message: String,
    },
}

/// What an error says.
pub enum Failure {
    Config(Seq<char>),
    Message(Seq<char>),
    Json { path: Seq<Seq<char>>, message: Seq<char> },
}

impl View for AppError {
    type V = Failure;

    open spec fn view(&self) -> Failure {
        match *self {
            AppError::Config(s) => Failure::Config(s@),
            AppError::Message(s) => Failure::Message(s@),
            AppError::Json { path, message } => Failure::Json {
                path: path_names(path),
                message: message@,
            },
        }
    }
}

} // verus!
