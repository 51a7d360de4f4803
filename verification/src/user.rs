//! The users of a game.

use vstd::prelude::*;

verus! {

/// Base struct for the user of a game.
#[derive(Debug, Clone)]
pub struct User<T> {
    /// The numerical id of the user.
    pub id: i32,
    /// The name of the user.
    pub name: String,
    /// Extra data associated with the user.
    pub data: T,
}

/// The list of all known users.
pub type UserRepository<T> = Vec<User<T>>;

impl<T> User<T> {
    /// Creates a user out of its id, its name and the data that goes with it.
    pub fn new(id: i32, name: String, data: T) -> (user: Self)
        ensures
            user.id == id,
            user.name == name,
            user.data == data,
    {
        User { id, name, data }
    }
}

} // verus!
