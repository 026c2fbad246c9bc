//! Stored records of the issue-tracking domain.
//!
//! Each paginated collection has a designated sort key — the project's slug,
//! the user's username — unique and totally ordered within its collection.

use vstd::prelude::*;

use crate::credential::DerivationError;
use crate::credential::pbkdf2_sha256;
use crate::pagination::SortKeyed;

verus! {

use vstd::utf8::encode_utf8;

/// A stored issue row.
pub struct Issue {
    pub id: i32,
    pub project_id: i32,
    pub issue_type: i32,
    pub created_at: i32,
    pub created_by_user_id: i32,
    pub status_id: i32,
    pub category_id: Option<i32>,
    pub title: String,
    pub description: String,
}

/// A stored project row; `slug` is the sort key of the projects collection.
pub struct Project {
    pub id: i32,
    pub slug: String,
    pub name: String,
}

impl SortKeyed for Project {
    open spec fn key_spec(&self) -> Seq<char> {
        self.slug@
    }

    fn key(&self) -> (k: &String) {
        &self.slug
    }
}

/// A project row to insert: everything but the store-assigned id.
pub struct NewProject {
    pub slug: String,
    pub name: String,
}

impl NewProject {
    pub fn new(slug: String, name: String) -> (p: NewProject)
        ensures
            p.slug == slug,
            p.name == name,
    {
        NewProject { slug, name }
    }
}

/// A stored user row; `username` is the sort key of the users collection.
/// The credential columns hold what `NewUser::new` derived, never a secret.
pub struct User {
    pub id: i32,
    pub username: String,
    pub iterations: u32,
    pub salt: Vec<u8>,
    pub credential: Vec<u8>,
}

impl SortKeyed for User {
    open spec fn key_spec(&self) -> Seq<char> {
        self.username@
    }

    fn key(&self) -> (k: &String) {
        &self.username
    }
}

/// A user row to insert: the lowercased username and the credential record
/// derived from the password.
pub struct NewUser {
    pub username: String,
    pub iterations: u32,
    pub salt: Vec<u8>,
    pub credential: Vec<u8>,
}

/// The lowercase form of a string; a function of its characters alone.
pub uninterp spec fn lower_of(s: Seq<char>) -> Seq<char>;

/// Relies on `str::to_lowercase`: the result depends on the characters alone.
#[verifier::external_body]
fn lowercase(s: &str) -> (r: String)
    ensures
        r@ == lower_of(s@),
{
    s.to_lowercase()
}

impl NewUser {
    /// Builds the row for a new account: the username folded to lowercase,
    /// a fresh random salt of `salt_len` bytes, and the key that the
    /// derivation makes of the password with that salt and `iterations`.
    /// Fails only when the secure random source does, creating nothing.
    pub fn new(username: String, password: String, iterations: u32, salt_len: usize) -> (r: Result<
        NewUser,
        DerivationError,
    >)
        requires
            iterations >= 1,
            password@.len() <= crate::credential::MAX_SECRET_LEN,
            salt_len >= 1,
            salt_len <= crate::credential::MAX_SALT_LEN,
        ensures
            r matches Ok(u) ==> u.username@ == lower_of(username@) && u.iterations == iterations
                && u.salt@.len() == salt_len && u.credential@ == pbkdf2_sha256(
                encode_utf8(password@),
                u.salt@,
                iterations,
            ),
            r matches Err(e) ==> e == DerivationError::EntropyFailure,
    {
        match crate::credential::derive(password.as_str(), iterations, salt_len) {
            Err(e) => Err(e),
            Ok(rec) => Ok(
                NewUser {
                    username: lowercase(username.as_str()),
                    iterations: rec.iterations,
                    salt: rec.salt,
                    credential: rec.derived_key,
                },
            ),
        }
    }
}

} // verus!
