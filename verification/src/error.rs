//! What can go wrong at the door.

use vstd::prelude::*;

verus! {

/// The errors that the service reports.
#[derive(Debug)]
pub enum Error {
    /// A connection ended before its user was in a lobby.
    JoinError,
}

impl Error {
    /// What the error says.
    pub open spec fn text(&self) -> Seq<char> {
        match self {
            Error::JoinError => "Error joining game"@,
        }
    }

    /// What the error says, as an owned string.
    pub fn to_string(&self) -> (text: String)
        ensures
            text@ == self.text(),
    {
        match self {
            Error::JoinError => "Error joining game".to_owned(),
        }
    }
}

/// The description of the service's interface.
pub struct ApiDoc;

} // verus!
