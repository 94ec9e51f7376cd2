//! What can go wrong.

use vstd::prelude::*;

verus! {

/// The ways in which loading a catalogue or reading a command fails.
#[derive(Clone, Copy, Debug, PartialEq, Eq, Structural)]
pub enum Failure {
    /// Neither a snapshot nor the catalogue text could be had.
    SourceUnavailable,
    /// A snapshot or a catalogue text was found and holds no catalogue.
    CatalogCorrupt,
    /// A line of input is neither the word that quits nor a distance.
    InvalidUserInput,
}

impl Failure {
    /// A short message for the person at the prompt.
    pub fn message(&self) -> (text: &'static str)
        ensures
            text@ == match *self {
                Failure::SourceUnavailable => "catalogue not found"@,
                Failure::CatalogCorrupt => "catalogue cannot be decoded"@,
                Failure::InvalidUserInput => "enter 'q' to quit, or a distance in light-years"@,
            },
    {
        match self {
            Failure::SourceUnavailable => "catalogue not found",
            Failure::CatalogCorrupt => "catalogue cannot be decoded",
            Failure::InvalidUserInput => "enter 'q' to quit, or a distance in light-years",
        }
    }
}

} // verus!
