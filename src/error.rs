use vstd::prelude::*;

verus! {

/// Opaque handle on an I/O failure met while reading input lines.
#[verifier::external_type_specification]
#[verifier::external_body]
pub struct ExIoError(std::io::Error);

/// Everything that can go wrong while building or querying a dungeon.
#[derive(Debug)]
pub enum Errors {
    /// A room of this name already exists.
    DuplicateRoom(String),
    /// No room of this name exists.
    UnknownRoom(String),
    /// Reading the next line of input failed.
    IoError(std::io::Error),
    /// The line with this number breaks the layout of the text format.
    LineParseError { line_number: usize },
    /// This token of a link line names no direction.
    DirectionParseError(String),
}

} // verus!
