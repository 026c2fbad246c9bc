//! API-exposed objects and the paginated listings over them.
//!
//! These wrap stored rows into the shapes clients see, and instantiate the
//! paginator for the two listed collections: projects ordered by slug and
//! users ordered by username.

use vstd::prelude::*;

use crate::codec::Cursor;
use crate::connection::Connection;
use crate::connection::is_connection_of;
use crate::connection::paginate;
use crate::models;
use crate::pagination::PaginationError;
use crate::pagination::SortKeyed;
use crate::pagination::cursor_invalid;
use crate::pagination::cursor_names_key;
use crate::pagination::strictly_sorted_by_key;

verus! {

/// An issue as exposed to clients: the project is named by its slug.
pub struct Issue {
    pub id: i32,
    pub project_id: String,
    pub title: String,
    pub description: String,
}

impl Issue {
    /// Maps a stored issue, with its project, onto the exposed shape.
    pub fn from_model(project: &models::Project, model: &models::Issue) -> (r: Issue)
        ensures
            r.id == model.id,
            r.project_id == project.slug,
            r.title == model.title,
            r.description == model.description,
    {
        Issue {
            id: model.id,
            project_id: project.slug.clone(),
            title: model.title.clone(),
            description: model.description.clone(),
        }
    }
}

/// A project as exposed to clients.
pub struct Project {
    pub model: models::Project,
}

impl Project {
    pub fn new(project: models::Project) -> (p: Project)
        ensures
            p.model == project,
    {
        Project { model: project }
    }

    /// The exposed id of a project: its slug.
    pub fn id(&self) -> (s: &String)
        ensures
            s == self.model.slug,
    {
        &self.model.slug
    }
}

impl SortKeyed for Project {
    open spec fn key_spec(&self) -> Seq<char> {
        self.model.slug@
    }

    fn key(&self) -> (k: &String) {
        &self.model.slug
    }
}

/// A user as exposed to clients.
pub struct User {
    pub model: models::User,
}

impl User {
    pub fn new(user: models::User) -> (u: User)
        ensures
            u.model == user,
    {
        User { model: user }
    }

    pub fn id(&self) -> (id: i32)
        ensures
            id == self.model.id,
    {
        self.model.id
    }

    pub fn username(&self) -> (n: &String)
        ensures
            n == self.model.username,
    {
        &self.model.username
    }
}

impl SortKeyed for User {
    open spec fn key_spec(&self) -> Seq<char> {
        self.model.username@
    }

    fn key(&self) -> (k: &String) {
        &self.model.username
    }
}

/// The exposed shapes of a sequence of stored projects.
pub open spec fn wrap_projects(rows: Seq<models::Project>) -> Seq<Project> {
    rows.map_values(|m: models::Project| Project { model: m })
}

/// The exposed shapes of a sequence of stored users.
pub open spec fn wrap_users(rows: Seq<models::User>) -> Seq<User> {
    rows.map_values(|m: models::User| User { model: m })
}

/// Lists one page of the projects collection, ordered by slug, as a
/// connection of exposed projects. Inputs are accepted and rejected exactly
/// as `paginate` accepts and rejects them.
pub fn projects_connection(
    rows: Vec<models::Project>,
    first: u64,
    after: Option<&Cursor>,
    max_first: u64,
) -> (r: Result<Connection<Project>, PaginationError>)
    requires
        strictly_sorted_by_key(rows@),
    ensures
        r is Err <==> !(1 <= first <= max_first) || cursor_invalid(after),
        r matches Err(e) ==> (e == PaginationError::InvalidPageSize <==> !(1 <= first
            <= max_first)),
        r matches Err(e) ==> (e == PaginationError::InvalidCursor <==> 1 <= first <= max_first),
        r matches Ok(c) ==> (after is None ==> is_connection_of(
            c,
            wrap_projects(rows@),
            None,
            first,
        )),
        forall|k: Seq<char>|
            (#[trigger] cursor_names_key(after, k) && 1 <= first <= max_first) ==> r is Ok
                && is_connection_of(r->Ok_0, wrap_projects(rows@), Some(k), first),
{
    let ghost orig = rows@;
    let mut rows = rows;
    let mut wrapped: Vec<Project> = Vec::new();
    while rows.len() > 0
        invariant
            wrapped@.len() + rows@.len() == orig.len(),
            rows@ == orig.skip(wrapped@.len() as int),
            wrapped@ == wrap_projects(orig.take(wrapped@.len() as int)),
        decreases rows@.len(),
    {
        let ghost n = wrapped@.len() as int;
        let row = rows.remove(0);
        proof {
            assert(orig.skip(n)[0] == orig[n]);
            assert(orig.skip(n).drop_first() =~= orig.skip(n + 1));
        }
        wrapped.push(Project::new(row));
        proof {
            assert(wrapped@ =~= wrap_projects(orig.take(n + 1)));
        }
    }
    proof {
        assert(orig.take(orig.len() as int) =~= orig);
        assert(wrapped@ == wrap_projects(orig));
        assert forall|i: int, j: int| 0 <= i < j < wrapped@.len() implies crate::order::lex_lt(
            (#[trigger] wrapped@[i]).key_spec(),
            (#[trigger] wrapped@[j]).key_spec(),
        ) by {
            assert(wrapped@[i].model == orig[i]);
            assert(wrapped@[j].model == orig[j]);
        }
    }
    paginate(wrapped, first, after, max_first)
}

/// Lists one page of the users collection, ordered by username, as a
/// connection of exposed users. Inputs are accepted and rejected exactly as
/// `paginate` accepts and rejects them.
pub fn users_connection(
    rows: Vec<models::User>,
    first: u64,
    after: Option<&Cursor>,
    max_first: u64,
) -> (r: Result<Connection<User>, PaginationError>)
    requires
        strictly_sorted_by_key(rows@),
    ensures
        r is Err <==> !(1 <= first <= max_first) || cursor_invalid(after),
        r matches Err(e) ==> (e == PaginationError::InvalidPageSize <==> !(1 <= first
            <= max_first)),
        r matches Err(e) ==> (e == PaginationError::InvalidCursor <==> 1 <= first <= max_first),
        r matches Ok(c) ==> (after is None ==> is_connection_of(c, wrap_users(rows@), None, first)),
        forall|k: Seq<char>|
            (#[trigger] cursor_names_key(after, k) && 1 <= first <= max_first) ==> r is Ok
                && is_connection_of(r->Ok_0, wrap_users(rows@), Some(k), first),
{
    let ghost orig = rows@;
    let mut rows = rows;
    let mut wrapped: Vec<User> = Vec::new();
    while rows.len() > 0
        invariant
            wrapped@.len() + rows@.len() == orig.len(),
            rows@ == orig.skip(wrapped@.len() as int),
            wrapped@ == wrap_users(orig.take(wrapped@.len() as int)),
        decreases rows@.len(),
    {
        let ghost n = wrapped@.len() as int;
        let row = rows.remove(0);
        proof {
            assert(orig.skip(n)[0] == orig[n]);
            assert(orig.skip(n).drop_first() =~= orig.skip(n + 1));
        }
        wrapped.push(User::new(row));
        proof {
            assert(wrapped@ =~= wrap_users(orig.take(n + 1)));
        }
    }
    proof {
        assert(orig.take(orig.len() as int) =~= orig);
        assert(wrapped@ == wrap_users(orig));
        assert forall|i: int, j: int| 0 <= i < j < wrapped@.len() implies crate::order::lex_lt(
            (#[trigger] wrapped@[i]).key_spec(),
            (#[trigger] wrapped@[j]).key_spec(),
        ) by {
            assert(wrapped@[i].model == orig[i]);
            assert(wrapped@[j].model == orig[j]);
        }
    }
    paginate(wrapped, first, after, max_first)
}

} // verus!
