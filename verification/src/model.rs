use vstd::prelude::*;

verus! {

/// A stored post, owned by a user.
#[derive(Debug)]
pub struct Post {
    pub id: i64,
    pub user_id: i64,
    pub title: String,
    pub body: String,
    pub published: bool,
}

/// A stored user. Timestamps are plain values: seconds since the epoch.
#[derive(Debug)]
pub struct User {
    pub id: i64,
    pub name: String,
    pub hair_color: Option<String>,
    pub created_at: i64,
    pub updated_at: i64,
}

/// The fields a caller supplies to create a user; the store assigns the
/// rest.
#[derive(Debug)]
pub struct UserForInsert {
    pub name: String,
    pub hair_color: Option<String>,
}

/// A change set for an existing user: `hair_color` is `None` to leave the
/// stored value alone, or `Some(new)` to overwrite it (possibly with no
/// color).
#[derive(Debug)]
pub struct UserForUpdate {
    pub id: i64,
    pub name: String,
    pub hair_color: Option<Option<String>>,
}

impl From<User> for UserForUpdate {
    /// A change set that rewrites every updatable field of `user` with the
    /// values it already has.
    fn from(user: User) -> (r: UserForUpdate) {
        UserForUpdate { id: user.id, name: user.name, hair_color: Some(user.hair_color) }
    }
}

impl vstd::std_specs::convert::FromSpecImpl<User> for UserForUpdate {
    open spec fn obeys_from_spec() -> bool {
        true
    }

    open spec fn from_spec(user: User) -> UserForUpdate {
        UserForUpdate { id: user.id, name: user.name, hair_color: Some(user.hair_color) }
    }
}

} // verus!
