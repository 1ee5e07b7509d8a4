use vstd::prelude::*;

verus! {

/// A stored person and the user who owns the record.
#[derive(Debug, Clone, PartialEq, Eq)]
pub struct Person {
    pub id: u32,
    pub name: String,
    pub owner: String,
}

/// Asks for the person with this id.
#[derive(Debug, Clone, Copy, PartialEq, Eq, Structural)]
pub struct PersonByIDQuery {
    pub id: u32,
}

/// Why a lookup by id gave no person.
#[derive(Debug, Clone, Copy, PartialEq, Eq, Structural)]
pub enum PersonByIDQueryError {
    NotFound,
    UnknownError,
}

/// Asks for the person with this id, among those the signed-in user owns.
#[derive(Debug, Clone, Copy, PartialEq, Eq, Structural)]
pub struct GetPersonProtectedQuery {
    pub id: u32,
}

} // verus!
