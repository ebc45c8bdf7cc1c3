//! The ownership-checked project store.
//!
//! [`Store`] models the two persisted tables, `user` and `project`, as plain
//! vectors with the schema's invariants stated in [`Store::wf`]: identifiers
//! and emails are unique, identifiers are positive and below the allocation
//! counters, and every project is owned by an existing user. Every operation
//! of the web application's data layer is a method here with an exact
//! contract; mutation of a project is only ever permitted to its owner.

use crate::cookie::cookie_user_id;
use crate::cookie::dec_repr;
use crate::cookie::lemma_cookie_round_trip;
use crate::cookie::parse_cookie_value;
use crate::passwords::bcrypt_accepts;
use crate::passwords::bcrypt_verifies;
use crate::passwords::hash_password;
use crate::passwords::verify_password;
use crate::serialise::check_storage_date;
use crate::serialise::parse_date;
use crate::serialise::storage_date;
use crate::serialise::valid_storage_date;
use crate::serialise::valid_wire_date;
use vstd::prelude::*;

verus! {

/// A registered user. The `password` field holds the opaque bcrypt hash,
/// never the plaintext.
#[derive(Debug)]
pub struct User {
    pub id: u64,
    pub email: String,
    pub password: String,
    pub admin: bool,
}

impl Clone for User {
    fn clone(&self) -> (r: Self)
        ensures
            r == *self,
    {
        User {
            id: self.id,
            email: self.email.clone(),
            password: self.password.clone(),
            admin: self.admin,
        }
    }
}

/// A user whose admin flag grants access to the aggregate listings.
#[derive(Debug)]
pub struct Admin {
    pub user: User,
}

impl Clone for Admin {
    fn clone(&self) -> (r: Self)
        ensures
            r == *self,
    {
        Admin { user: self.user.clone() }
    }
}

/// A project. `id_proj` is `None` only before the store has assigned an
/// identifier; every stored project has one. An empty `end_date` means the
/// project is still in progress.
#[derive(Debug)]
pub struct Project {
    pub id_proj: Option<u64>,
    pub name: String,
    pub start_date: String,
    pub end_date: String,
    pub user_id: u64,
}

impl Clone for Project {
    fn clone(&self) -> (r: Self)
        ensures
            r == *self,
    {
        Project {
            id_proj: self.id_proj,
            name: self.name.clone(),
            start_date: self.start_date.clone(),
            end_date: self.end_date.clone(),
            user_id: self.user_id,
        }
    }
}

/// The outcomes an operation can fail with. `NotFound` (no such row) is
/// deliberately distinct from `NotAuthorized` (the row exists but the caller
/// does not own it), so the caller can word its message correctly.
#[derive(Clone, Copy, Debug, PartialEq, Eq, Structural)]
pub enum StoreError {
    NotFound,
    NotAuthorized,
    ValidationFailure,
    BackendFailure,
}

/// The first user carrying `id`, scanning front to back.
pub open spec fn find_user(users: Seq<User>, id: u64) -> Option<User>
    decreases users.len(),
{
    if users.len() == 0 {
        None
    } else if users[0].id == id {
        Some(users[0])
    } else {
        find_user(users.drop_first(), id)
    }
}

/// The first user carrying `email`, scanning front to back.
pub open spec fn find_user_by_email(users: Seq<User>, email: Seq<char>) -> Option<User>
    decreases users.len(),
{
    if users.len() == 0 {
        None
    } else if users[0].email@ == email {
        Some(users[0])
    } else {
        find_user_by_email(users.drop_first(), email)
    }
}

/// The index of the first project carrying `id`, or `-1` when there is none.
pub open spec fn find_project_idx(projects: Seq<Project>, id: u64) -> int
    decreases projects.len(),
{
    if projects.len() == 0 {
        -1
    } else if projects[0].id_proj == Some(id) {
        0
    } else {
        let rest: int = find_project_idx(projects.drop_first(), id);
        if rest == -1 {
            -1
        } else {
            rest + 1
        }
    }
}

/// The first project carrying `id`.
pub open spec fn find_project(projects: Seq<Project>, id: u64) -> Option<Project> {
    let i: int = find_project_idx(projects, id);
    if i == -1 {
        None
    } else {
        Some(projects[i])
    }
}

/// The projects owned by `user_id`, in store order.
pub open spec fn projects_of(projects: Seq<Project>, user_id: u64) -> Seq<Project>
    decreases projects.len(),
{
    if projects.len() == 0 {
        Seq::empty()
    } else if projects.last().user_id == user_id {
        projects_of(projects.drop_last(), user_id).push(projects.last())
    } else {
        projects_of(projects.drop_last(), user_id)
    }
}

/// `find_user` finds a user with the id exactly when one is present.
pub proof fn lemma_find_user(users: Seq<User>, id: u64)
    ensures
        find_user(users, id) matches Some(u) ==> u.id == id && exists|i: int|
            0 <= i < users.len() && users[i] == u,
        find_user(users, id) is None <==> (forall|i: int|
            0 <= i < users.len() ==> (#[trigger] users[i]).id != id),
    decreases users.len(),
{
    if users.len() > 0 {
        let rest = users.drop_first();
        lemma_find_user(rest, id);
        if users[0].id == id {
            assert(users[0] == users[0]);
        } else {
            match find_user(rest, id) {
                Some(u) => {
                    let i: int = choose|i: int| 0 <= i < rest.len() && rest[i] == u;
                    assert(users[i + 1] == u);
                },
                None => {
                    assert forall|i: int| 0 <= i < users.len() implies (#[trigger] users[i]).id
                        != id by {
                        if i > 0 {
                            assert(users[i] == rest[i - 1]);
                        }
                    }
                },
            }
            if forall|i: int| 0 <= i < users.len() ==> (#[trigger] users[i]).id != id {
                assert forall|j: int| 0 <= j < rest.len() implies (#[trigger] rest[j]).id
                    != id by {
                    assert(rest[j] == users[j + 1]);
                }
            }
        }
    }
}

/// Appending a user changes lookups only for ids not present before: the new
/// user is found under their id, and every earlier match is unaffected.
pub proof fn lemma_find_user_push(users: Seq<User>, u: User, id: u64)
    ensures
        find_user(users.push(u), id) == if find_user(users, id) is Some {
            find_user(users, id)
        } else if u.id == id {
            Some(u)
        } else {
            None
        },
    decreases users.len(),
{
    if users.len() == 0 {
        assert(users.push(u)[0] == u);
        assert(users.push(u).drop_first() =~= Seq::<User>::empty());
        assert(find_user(Seq::<User>::empty(), id) is None);
        assert(find_user(users, id) is None);
    } else {
        lemma_find_user_push(users.drop_first(), u, id);
        assert(users.push(u)[0] == users[0]);
        assert(users.push(u).drop_first() =~= users.drop_first().push(u));
    }
}

/// `find_user_by_email` finds a user with the email exactly when one is
/// present.
pub proof fn lemma_find_user_by_email(users: Seq<User>, email: Seq<char>)
    ensures
        find_user_by_email(users, email) matches Some(u) ==> u.email@ == email && exists|i: int|
            0 <= i < users.len() && users[i] == u,
        find_user_by_email(users, email) is None <==> (forall|i: int|
            0 <= i < users.len() ==> (#[trigger] users[i]).email@ != email),
    decreases users.len(),
{
    if users.len() > 0 {
        let rest = users.drop_first();
        lemma_find_user_by_email(rest, email);
        if users[0].email@ == email {
            assert(users[0] == users[0]);
        } else {
            match find_user_by_email(rest, email) {
                Some(u) => {
                    let i: int = choose|i: int| 0 <= i < rest.len() && rest[i] == u;
                    assert(users[i + 1] == u);
                },
                None => {
                    assert forall|i: int| 0 <= i < users.len() implies (#[trigger] users[i]).email@
                        != email by {
                        if i > 0 {
                            assert(users[i] == rest[i - 1]);
                        }
                    }
                },
            }
            if forall|i: int| 0 <= i < users.len() ==> (#[trigger] users[i]).email@ != email {
                assert forall|j: int| 0 <= j < rest.len() implies (#[trigger] rest[j]).email@
                    != email by {
                    assert(rest[j] == users[j + 1]);
                }
            }
        }
    }
}

/// `find_project_idx` returns the index of the first match, `-1` when no
/// project carries the id.
pub proof fn lemma_find_project_idx(projects: Seq<Project>, id: u64)
    ensures
        -1 <= find_project_idx(projects, id) < projects.len(),
        find_project_idx(projects, id) >= 0 ==> projects[find_project_idx(projects, id)].id_proj
            == Some(id) && (forall|j: int|
            0 <= j < find_project_idx(projects, id) ==> (#[trigger] projects[j]).id_proj != Some(
                id,
            )),
        find_project_idx(projects, id) == -1 <==> (forall|j: int|
            0 <= j < projects.len() ==> (#[trigger] projects[j]).id_proj != Some(id)),
    decreases projects.len(),
{
    if projects.len() > 0 && projects[0].id_proj != Some(id) {
        let rest = projects.drop_first();
        lemma_find_project_idx(rest, id);
        let r: int = find_project_idx(rest, id);
        if r == -1 {
            assert forall|j: int| 0 <= j < projects.len() implies (#[trigger] projects[j]).id_proj
                != Some(id) by {
                if j > 0 {
                    assert(projects[j] == rest[j - 1]);
                }
            }
        } else {
            assert(projects[r + 1] == rest[r]);
            assert forall|j: int| 0 <= j < r + 1 implies (#[trigger] projects[j]).id_proj != Some(
                id,
            ) by {
                if j > 0 {
                    assert(projects[j] == rest[j - 1]);
                }
            }
        }
    }
}

/// A user owning no project has an empty listing.
pub proof fn lemma_projects_of_absent_user(projects: Seq<Project>, user_id: u64)
    requires
        forall|i: int| 0 <= i < projects.len() ==> (#[trigger] projects[i]).user_id != user_id,
    ensures
        projects_of(projects, user_id) == Seq::<Project>::empty(),
    decreases projects.len(),
{
    if projects.len() > 0 {
        assert forall|i: int| 0 <= i < projects.drop_last().len() implies (
        #[trigger] projects.drop_last()[i]).user_id != user_id by {
            assert(projects.drop_last()[i] == projects[i]);
        }
        lemma_projects_of_absent_user(projects.drop_last(), user_id);
        assert(projects.last() == projects[projects.len() - 1]);
    }
}

/// The in-memory image of the two tables, together with the id allocation
/// counters.
#[derive(Debug)]
pub struct Store {
    pub users: Vec<User>,
    pub projects: Vec<Project>,
    pub next_user_id: u64,
    pub next_project_id: u64,
}

impl Store {
    /// The schema's invariants: ids positive, unique and below their
    /// counters, emails unique, every stored project numbered, and every
    /// project owned by an existing user.
    pub open spec fn wf(self) -> bool {
        &&& 1 <= self.next_user_id
        &&& 1 <= self.next_project_id
        &&& forall|i: int|
            0 <= i < self.users@.len() ==> 1 <= (#[trigger] self.users@[i]).id
                < self.next_user_id
        &&& forall|i: int, j: int|
            0 <= i < j < self.users@.len() ==> (#[trigger] self.users@[i]).id != (
            #[trigger] self.users@[j]).id
        &&& forall|i: int, j: int|
            0 <= i < j < self.users@.len() ==> (#[trigger] self.users@[i]).email@ != (
            #[trigger] self.users@[j]).email@
        &&& forall|i: int|
            0 <= i < self.projects@.len() ==> ((#[trigger] self.projects@[i]).id_proj matches Some(
                p,
            ) && 1 <= p < self.next_project_id)
        &&& forall|i: int, j: int|
            0 <= i < j < self.projects@.len() ==> (#[trigger] self.projects@[i]).id_proj != (
            #[trigger] self.projects@[j]).id_proj
        &&& forall|i: int|
            0 <= i < self.projects@.len() ==> find_user(
                self.users@,
                (#[trigger] self.projects@[i]).user_id,
            ) is Some
    }

    /// A fresh, empty store.
    pub fn new() -> (s: Store)
        ensures
            s.users@.len() == 0,
            s.projects@.len() == 0,
            s.next_user_id == 1,
            s.next_project_id == 1,
            s.wf(),
    {
        Store { users: Vec::new(), projects: Vec::new(), next_user_id: 1, next_project_id: 1 }
    }

    /// All users, in store order.
    pub fn query_all_users(&self) -> (r: Vec<User>)
        ensures
            r@ == self.users@,
    {
        let mut out: Vec<User> = Vec::new();
        let mut i: usize = 0;
        while i < self.users.len()
            invariant
                0 <= i <= self.users@.len(),
                out@ =~= self.users@.take(i as int),
            decreases self.users@.len() - i,
        {
            out.push(self.users[i].clone());
            proof {
                assert(self.users@.take(i + 1) =~= self.users@.take(i as int).push(
                    self.users@[i as int],
                ));
            }
            i = i + 1;
        }
        proof {
            assert(self.users@.take(self.users@.len() as int) =~= self.users@);
        }
        out
    }

    /// All projects, in store order.
    pub fn query_all_projects(&self) -> (r: Vec<Project>)
        ensures
            r@ == self.projects@,
    {
        let mut out: Vec<Project> = Vec::new();
        let mut i: usize = 0;
        while i < self.projects.len()
            invariant
                0 <= i <= self.projects@.len(),
                out@ =~= self.projects@.take(i as int),
            decreases self.projects@.len() - i,
        {
            out.push(self.projects[i].clone());
            proof {
                assert(self.projects@.take(i + 1) =~= self.projects@.take(i as int).push(
                    self.projects@[i as int],
                ));
            }
            i = i + 1;
        }
        proof {
            assert(self.projects@.take(self.projects@.len() as int) =~= self.projects@);
        }
        out
    }

    /// The user with this id, or `NotFound`.
    pub fn query_user_by_id(&self, id: u64) -> (r: Result<User, StoreError>)
        ensures
            r matches Ok(u) ==> find_user(self.users@, id) == Some(u),
            r matches Err(e) ==> e == StoreError::NotFound && find_user(self.users@, id) is None,
    {
        let n: usize = self.users.len();
        let mut i: usize = 0;
        proof {
            assert(self.users@.skip(0) =~= self.users@);
        }
        while i < n
            invariant
                n == self.users@.len(),
                0 <= i <= n,
                find_user(self.users@, id) == find_user(self.users@.skip(i as int), id),
            decreases n - i,
        {
            proof {
                assert(self.users@.skip(i as int)[0] == self.users@[i as int]);
                assert(self.users@.skip(i as int).drop_first() =~= self.users@.skip(i + 1));
            }
            if self.users[i].id == id {
                return Ok(self.users[i].clone());
            }
            i = i + 1;
        }
        proof {
            assert(self.users@.skip(n as int) =~= Seq::<User>::empty());
        }
        Err(StoreError::NotFound)
    }

    /// The user with this id, wrapped as a prospective admin identity. The
    /// admin flag itself is judged at authentication time.
    pub fn query_admin_by_id(&self, id: u64) -> (r: Result<Admin, StoreError>)
        ensures
            r matches Ok(a) ==> find_user(self.users@, id) == Some(a.user),
            r matches Err(e) ==> e == StoreError::NotFound && find_user(self.users@, id) is None,
    {
        match self.query_user_by_id(id) {
            Ok(user) => Ok(Admin { user }),
            Err(e) => Err(e),
        }
    }

    /// The user registered under this email, or `NotFound`.
    pub fn query_user_by_email(&self, email: String) -> (r: Result<User, StoreError>)
        ensures
            r matches Ok(u) ==> find_user_by_email(self.users@, email@) == Some(u),
            r matches Err(e) ==> e == StoreError::NotFound && find_user_by_email(
                self.users@,
                email@,
            ) is None,
    {
        let n: usize = self.users.len();
        let mut i: usize = 0;
        proof {
            assert(self.users@.skip(0) =~= self.users@);
        }
        while i < n
            invariant
                n == self.users@.len(),
                0 <= i <= n,
                find_user_by_email(self.users@, email@) == find_user_by_email(
                    self.users@.skip(i as int),
                    email@,
                ),
            decreases n - i,
        {
            proof {
                assert(self.users@.skip(i as int)[0] == self.users@[i as int]);
                assert(self.users@.skip(i as int).drop_first() =~= self.users@.skip(i + 1));
            }
            if self.users[i].email == email {
                return Ok(self.users[i].clone());
            }
            i = i + 1;
        }
        proof {
            assert(self.users@.skip(n as int) =~= Seq::<User>::empty());
        }
        Err(StoreError::NotFound)
    }

    /// The index the first project with this id sits at, if any.
    fn find_project_index(&self, id: u64) -> (r: Option<usize>)
        ensures
            r matches Some(i) ==> i < self.projects@.len() && i == find_project_idx(
                self.projects@,
                id,
            ),
            r is None ==> find_project_idx(self.projects@, id) == -1,
    {
        let n: usize = self.projects.len();
        let mut i: usize = 0;
        while i < n
            invariant
                n == self.projects@.len(),
                0 <= i <= n,
                forall|j: int|
                    0 <= j < i ==> (#[trigger] self.projects@[j]).id_proj != Some(id),
            decreases n - i,
        {
            let matches_id = match self.projects[i].id_proj {
                Some(p) => p == id,
                None => false,
            };
            if matches_id {
                proof {
                    lemma_find_project_idx(self.projects@, id);
                }
                return Some(i);
            }
            i = i + 1;
        }
        proof {
            lemma_find_project_idx(self.projects@, id);
        }
        None
    }

    /// The project with this id, or `NotFound`.
    pub fn query_project_by_id(&self, id: u64) -> (r: Result<Project, StoreError>)
        ensures
            r matches Ok(p) ==> find_project(self.projects@, id) == Some(p),
            r matches Err(e) ==> e == StoreError::NotFound && find_project(
                self.projects@,
                id,
            ) is None,
    {
        match self.find_project_index(id) {
            Some(i) => Ok(self.projects[i].clone()),
            None => Err(StoreError::NotFound),
        }
    }

    /// The projects owned by `user_id`, in store order. A user with no
    /// projects gets an empty listing, never an error.
    pub fn query_all_projects_for_user(&self, user_id: u64) -> (r: Vec<Project>)
        ensures
            r@ == projects_of(self.projects@, user_id),
    {
        let mut out: Vec<Project> = Vec::new();
        let mut i: usize = 0;
        while i < self.projects.len()
            invariant
                0 <= i <= self.projects@.len(),
                out@ =~= projects_of(self.projects@.take(i as int), user_id),
            decreases self.projects@.len() - i,
        {
            proof {
                assert(self.projects@.take(i + 1).drop_last() =~= self.projects@.take(i as int));
                assert(self.projects@.take(i + 1).last() == self.projects@[i as int]);
            }
            if self.projects[i].user_id == user_id {
                out.push(self.projects[i].clone());
            }
            i = i + 1;
        }
        proof {
            assert(self.projects@.take(self.projects@.len() as int) =~= self.projects@);
        }
        out
    }
}

/// What a successful registration does to the store: one user appended,
/// carrying the fresh id, the given email and password hash and no admin
/// rights; everything else untouched.
pub open spec fn user_added(
    pre: Store,
    post: Store,
    email: Seq<char>,
    hash: Seq<char>,
    id: u64,
) -> bool {
    &&& id == pre.next_user_id
    &&& post.next_user_id == id + 1
    &&& post.next_project_id == pre.next_project_id
    &&& post.projects@ == pre.projects@
    &&& post.users@.len() == pre.users@.len() + 1
    &&& post.users@.drop_last() == pre.users@
    &&& post.users@.last().id == id
    &&& post.users@.last().email@ == email
    &&& post.users@.last().password@ == hash
    &&& post.users@.last().admin == false
}

/// What a successful project creation does to the store: one project
/// appended, carrying the fresh id, the given name, owner and start date,
/// and an empty end date; everything else untouched.
pub open spec fn project_added(
    pre: Store,
    post: Store,
    name: Seq<char>,
    user_id: u64,
    start_date: Seq<char>,
    id: u64,
) -> bool {
    &&& id == pre.next_project_id
    &&& post.next_project_id == id + 1
    &&& post.next_user_id == pre.next_user_id
    &&& post.users@ == pre.users@
    &&& post.projects@.len() == pre.projects@.len() + 1
    &&& post.projects@.drop_last() == pre.projects@
    &&& post.projects@.last().id_proj == Some(id)
    &&& post.projects@.last().name@ == name
    &&& post.projects@.last().start_date@ == start_date
    &&& post.projects@.last().end_date@ == Seq::<char>::empty()
    &&& post.projects@.last().user_id == user_id
}

/// What a successful edit does to the store: the project at index `i` gets
/// the given name and end date, keeping its id, start date and owner; every
/// other row and the users are untouched.
pub open spec fn project_edited(
    pre: Store,
    post: Store,
    i: int,
    name: Seq<char>,
    end_date: Seq<char>,
) -> bool {
    &&& post.users@ == pre.users@
    &&& post.next_user_id == pre.next_user_id
    &&& post.next_project_id == pre.next_project_id
    &&& post.projects@.len() == pre.projects@.len()
    &&& forall|j: int|
        0 <= j < pre.projects@.len() && j != i ==> (#[trigger] post.projects@[j])
            == pre.projects@[j]
    &&& post.projects@[i].id_proj == pre.projects@[i].id_proj
    &&& post.projects@[i].name@ == name
    &&& post.projects@[i].start_date == pre.projects@[i].start_date
    &&& post.projects@[i].end_date@ == end_date
    &&& post.projects@[i].user_id == pre.projects@[i].user_id
}

/// How registration ends for every caller: a duplicate email is rejected as
/// a validation failure, an error leaves the store untouched, and a success
/// appends exactly one user whose stored hash the backend accepts and which
/// verifies against the chosen password — so a later login with that
/// password is owed success. Success here is withheld only when the hashing
/// backend refuses or the id space is spent, both surfacing as
/// `BackendFailure`.
pub open spec fn add_user_outcome(
    pre: Store,
    post: Store,
    email: Seq<char>,
    password: Seq<char>,
    r: Result<u64, StoreError>,
) -> bool {
    &&& (find_user_by_email(pre.users@, email) is Some ==> (r matches Err(e) && e
        == StoreError::ValidationFailure))
    &&& ((r matches Err(e) && e == StoreError::ValidationFailure) ==> find_user_by_email(
        pre.users@,
        email,
    ) is Some)
    &&& ((find_user_by_email(pre.users@, email) is None && pre.next_user_id == u64::MAX) ==> (
    r matches Err(e) && e == StoreError::BackendFailure))
    &&& (r matches Err(e) ==> (e == StoreError::ValidationFailure || e
        == StoreError::BackendFailure) && post == pre)
    &&& (r matches Ok(id) ==> find_user_by_email(pre.users@, email) is None && user_added(
        pre,
        post,
        email,
        post.users@.last().password@,
        id,
    ) && bcrypt_accepts(post.users@.last().password@) && bcrypt_verifies(
        password,
        post.users@.last().password@,
    ))
}

/// The user an authenticated request resolves to: the cookie value must name
/// an id and the id must name a user; anything else degrades to "absent",
/// never to an error.
pub open spec fn spec_authenticate(s: Store, cookie: Option<Seq<char>>) -> Option<User> {
    match cookie {
        None => None,
        Some(c) => match cookie_user_id(c) {
            None => None,
            Some(id) => find_user(s.users@, id),
        },
    }
}

/// The admin identity an authenticated request resolves to: the resolved
/// user must carry the admin flag; a plain user asking for admin standing is
/// treated as absent.
pub open spec fn spec_authenticate_admin(s: Store, cookie: Option<Seq<char>>) -> Option<Admin> {
    match spec_authenticate(s, cookie) {
        None => None,
        Some(u) => if u.admin {
            Some(Admin { user: u })
        } else {
            None
        },
    }
}

pub open spec fn opt_str_view(s: Option<&str>) -> Option<Seq<char>> {
    match s {
        None => None,
        Some(v) => Some(v@),
    }
}

/// Deleting the only project with an id leaves no project with that id: a
/// fetch after a successful delete reports `NotFound`.
pub proof fn lemma_delete_then_fetch(projects: Seq<Project>, project_id: u64)
    requires
        forall|i: int, j: int|
            0 <= i < j < projects.len() ==> (#[trigger] projects[i]).id_proj != (
            #[trigger] projects[j]).id_proj,
        find_project_idx(projects, project_id) >= 0,
    ensures
        find_project(projects.remove(find_project_idx(projects, project_id)), project_id) is None,
{
    let i: int = find_project_idx(projects, project_id);
    lemma_find_project_idx(projects, project_id);
    let rest = projects.remove(i);
    assert forall|j: int| 0 <= j < rest.len() implies (#[trigger] rest[j]).id_proj != Some(
        project_id,
    ) by {
        if j < i {
            assert(rest[j] == projects[j]);
        } else {
            assert(rest[j] == projects[j + 1]);
        }
    }
    lemma_find_project_idx(rest, project_id);
}

/// Registering a user and then authenticating with the cookie written for
/// the returned id resolves to a user carrying the registered email.
pub proof fn lemma_register_then_authenticate(
    pre: Store,
    post: Store,
    email: Seq<char>,
    hash: Seq<char>,
    id: u64,
)
    requires
        pre.wf(),
        user_added(pre, post, email, hash, id),
    ensures
        spec_authenticate(post, Some(dec_repr(id as nat))) matches Some(u) && u.email@ == email,
{
    lemma_cookie_round_trip(id);
    let u = post.users@.last();
    assert(post.users@ =~= pre.users@.push(u));
    lemma_find_user(pre.users@, id);
    assert(find_user(pre.users@, id) is None);
    lemma_find_user_push(pre.users@, u, id);
    assert(find_user(post.users@, id) == Some(u));
}

/// The number of users carrying the admin flag.
pub open spec fn num_admins(users: Seq<User>) -> int
    decreases users.len(),
{
    if users.len() == 0 {
        0
    } else {
        num_admins(users.drop_last()) + if users.last().admin {
            1int
        } else {
            0int
        }
    }
}

/// The number of projects still in progress: those with an empty end date.
pub open spec fn num_in_progress(projects: Seq<Project>) -> int
    decreases projects.len(),
{
    if projects.len() == 0 {
        0
    } else {
        num_in_progress(projects.drop_last()) + if projects.last().end_date@.len() == 0 {
            1int
        } else {
            0int
        }
    }
}

/// How many of the listed users are admins, for the aggregate listing page.
pub fn count_admins(users: &Vec<User>) -> (n: usize)
    ensures
        n == num_admins(users@),
{
    let mut n: usize = 0;
    let mut i: usize = 0;
    while i < users.len()
        invariant
            0 <= i <= users@.len(),
            n <= i,
            n == num_admins(users@.take(i as int)),
        decreases users@.len() - i,
    {
        proof {
            assert(users@.take(i + 1).drop_last() =~= users@.take(i as int));
            assert(users@.take(i + 1).last() == users@[i as int]);
        }
        if users[i].admin {
            n = n + 1;
        }
        i = i + 1;
    }
    proof {
        assert(users@.take(users@.len() as int) =~= users@);
    }
    n
}

/// How many of the listed projects are still in progress, for the aggregate
/// listing page.
pub fn count_in_progress(projects: &Vec<Project>) -> (n: usize)
    ensures
        n == num_in_progress(projects@),
{
    let mut n: usize = 0;
    let mut i: usize = 0;
    while i < projects.len()
        invariant
            0 <= i <= projects@.len(),
            n <= i,
            n == num_in_progress(projects@.take(i as int)),
        decreases projects@.len() - i,
    {
        proof {
            assert(projects@.take(i + 1).drop_last() =~= projects@.take(i as int));
            assert(projects@.take(i + 1).last() == projects@[i as int]);
        }
        if projects[i].end_date.as_str().is_empty() {
            n = n + 1;
        }
        i = i + 1;
    }
    proof {
        assert(projects@.take(projects@.len() as int) =~= projects@);
    }
    n
}

impl Store {
    /// Register a user under an email not yet taken, storing the given
    /// bcrypt hash. This is the verified tail of [`Store::add_user`], taking
    /// the backend's hash as an argument; its contract is exact.
    pub fn add_user_with_hash(&mut self, email: &str, password_hash: String) -> (r: Result<
        u64,
        StoreError,
    >)
        requires
            old(self).wf(),
        ensures
            final(self).wf(),
            find_user_by_email(old(self).users@, email@) is Some ==> (r matches Err(e) && e
                == StoreError::ValidationFailure && *final(self) == *old(self)),
            (find_user_by_email(old(self).users@, email@) is None && old(self).next_user_id
                == u64::MAX) ==> (r matches Err(e) && e == StoreError::BackendFailure && *final(self) == *old(self)),
            (find_user_by_email(old(self).users@, email@) is None && old(self).next_user_id
                < u64::MAX) ==> (r matches Ok(id) && user_added(
                *old(self),
                *final(self),
                email@,
                password_hash@,
                id,
            )),
    {
        let key = String::from_str(email);
        match self.query_user_by_email(key) {
            Ok(_) => Err(StoreError::ValidationFailure),
            Err(_) => {
                if self.next_user_id == u64::MAX {
                    return Err(StoreError::BackendFailure);
                }
                let id: u64 = self.next_user_id;
                let user = User {
                    id,
                    email: String::from_str(email),
                    password: password_hash,
                    admin: false,
                };
                let ghost u = user;
                proof {
                    lemma_find_user_by_email(old(self).users@, email@);
                }
                self.users.push(user);
                self.next_user_id = id + 1;
                proof {
                    let pre = *old(self);
                    assert(self.users@ == pre.users@.push(u));
                    assert(self.users@.drop_last() =~= pre.users@);
                    assert forall|i: int| 0 <= i < self.users@.len() implies 1 <= (
                    #[trigger] self.users@[i]).id < self.next_user_id by {
                        if i < pre.users@.len() {
                            assert(self.users@[i] == pre.users@[i]);
                        } else {
                            assert(self.users@[i] == u);
                        }
                    }
                    assert forall|i: int, j: int|
                        0 <= i < j < self.users@.len() implies (#[trigger] self.users@[i]).id != (
                    #[trigger] self.users@[j]).id by {
                        if j < pre.users@.len() {
                            assert(self.users@[i] == pre.users@[i]);
                            assert(self.users@[j] == pre.users@[j]);
                        } else {
                            assert(self.users@[i] == pre.users@[i]);
                            assert(self.users@[j] == u);
                            assert(pre.users@[i].id < id);
                        }
                    }
                    assert forall|i: int, j: int|
                        0 <= i < j < self.users@.len() implies (#[trigger] self.users@[i]).email@
                        != (#[trigger] self.users@[j]).email@ by {
                        if j < pre.users@.len() {
                            assert(self.users@[i] == pre.users@[i]);
                            assert(self.users@[j] == pre.users@[j]);
                        } else {
                            assert(self.users@[i] == pre.users@[i]);
                            assert(self.users@[j] == u);
                        }
                    }
                    assert forall|i: int| 0 <= i < self.projects@.len() implies find_user(
                        self.users@,
                        (#[trigger] self.projects@[i]).user_id,
                    ) is Some by {
                        lemma_find_user_push(pre.users@, u, self.projects@[i].user_id);
                    }
                }
                Ok(id)
            },
        }
    }

    /// Register a user: hash the password through the bcrypt backend and
    /// store the hash under the email, unless the email is already taken.
    pub fn add_user(&mut self, email: &str, password: &str) -> (r: Result<u64, StoreError>)
        requires
            old(self).wf(),
        ensures
            final(self).wf(),
            add_user_outcome(*old(self), *final(self), email@, password@, r),
    {
        match self.query_user_by_email(String::from_str(email)) {
            Ok(_) => {
                return Err(StoreError::ValidationFailure);
            },
            Err(_) => {},
        }
        match hash_password(password) {
            Ok(h) => self.add_user_with_hash(email, h),
            Err(_) => Err(StoreError::BackendFailure),
        }
    }

    /// Register a user from a registration form: the two password fields
    /// must agree before anything is hashed or stored.
    pub fn register_user(&mut self, email: &str, password: &str, password_confirm: &str) -> (r:
        Result<u64, StoreError>)
        requires
            old(self).wf(),
        ensures
            final(self).wf(),
            password@ != password_confirm@ ==> (r matches Err(e) && e
                == StoreError::ValidationFailure && *final(self) == *old(self)),
            password@ == password_confirm@ ==> add_user_outcome(
                *old(self),
                *final(self),
                email@,
                password@,
                r,
            ),
    {
        let p1 = String::from_str(password);
        let p2 = String::from_str(password_confirm);
        if !(p1 == p2) {
            return Err(StoreError::ValidationFailure);
        }
        self.add_user(email, password)
    }

    /// Create a project owned by `user_id`, with an empty end date: a new
    /// project is in progress. The owner must exist. The start date is the
    /// caller's creation timestamp in the storage form, or empty when none
    /// is known; anything else is refused rather than stored.
    pub fn add_project(&mut self, name: &str, user_id: u64, start_date: &str) -> (r: Result<
        u64,
        StoreError,
    >)
        requires
            old(self).wf(),
        ensures
            final(self).wf(),
            find_user(old(self).users@, user_id) is None ==> (r matches Err(e) && e
                == StoreError::NotFound && *final(self) == *old(self)),
            (find_user(old(self).users@, user_id) is Some && start_date@.len() != 0
                && !valid_storage_date(start_date@)) ==> (r matches Err(e) && e
                == StoreError::ValidationFailure && *final(self) == *old(self)),
            (find_user(old(self).users@, user_id) is Some && (start_date@.len() == 0
                || valid_storage_date(start_date@)) && old(self).next_project_id == u64::MAX) ==> (
            r matches Err(e) && e == StoreError::BackendFailure && *final(self) == *old(self)),
            (find_user(old(self).users@, user_id) is Some && (start_date@.len() == 0
                || valid_storage_date(start_date@)) && old(self).next_project_id < u64::MAX) ==> (
            r matches Ok(id) && project_added(
                *old(self),
                *final(self),
                name@,
                user_id,
                start_date@,
                id,
            )),
    {
        match self.query_user_by_id(user_id) {
            Err(_) => {
                return Err(StoreError::NotFound);
            },
            Ok(_) => {},
        }
        if !start_date.is_empty() && !check_storage_date(start_date) {
            return Err(StoreError::ValidationFailure);
        }
        if self.next_project_id == u64::MAX {
            return Err(StoreError::BackendFailure);
        }
        let id: u64 = self.next_project_id;
        let project = Project {
            id_proj: Some(id),
            name: String::from_str(name),
            start_date: String::from_str(start_date),
            end_date: String::new(),
            user_id,
        };
        let ghost p = project;
        self.projects.push(project);
        self.next_project_id = id + 1;
        proof {
            let pre = *old(self);
            assert(self.projects@ == pre.projects@.push(p));
            assert(self.projects@.drop_last() =~= pre.projects@);
            assert forall|i: int| 0 <= i < self.projects@.len() implies ((
            #[trigger] self.projects@[i]).id_proj matches Some(q) && 1 <= q
                < self.next_project_id) by {
                if i < pre.projects@.len() {
                    assert(self.projects@[i] == pre.projects@[i]);
                } else {
                    assert(self.projects@[i] == p);
                }
            }
            assert forall|i: int, j: int|
                0 <= i < j < self.projects@.len() implies (#[trigger] self.projects@[i]).id_proj
                != (#[trigger] self.projects@[j]).id_proj by {
                if j < pre.projects@.len() {
                    assert(self.projects@[i] == pre.projects@[i]);
                    assert(self.projects@[j] == pre.projects@[j]);
                } else {
                    assert(self.projects@[i] == pre.projects@[i]);
                    assert(self.projects@[j] == p);
                }
            }
            assert forall|i: int| 0 <= i < self.projects@.len() implies find_user(
                self.users@,
                (#[trigger] self.projects@[i]).user_id,
            ) is Some by {
                if i < pre.projects@.len() {
                    assert(self.projects@[i] == pre.projects@[i]);
                } else {
                    assert(self.projects@[i] == p);
                }
            }
        }
        Ok(id)
    }

    /// Replace a project's name and end date, keyed by project id. Only the
    /// owner may edit; a non-empty end date must be a well-formed wire date
    /// and is persisted in the storage form, and a malformed one fails the
    /// edit rather than defaulting.
    pub fn edit_project(&mut self, project_id: u64, name: &str, end_date: &str, user: User) -> (r:
        Result<u64, StoreError>)
        requires
            old(self).wf(),
        ensures
            final(self).wf(),
            find_project_idx(old(self).projects@, project_id) == -1 ==> (r matches Err(e) && e
                == StoreError::NotFound && *final(self) == *old(self)),
            (find_project_idx(old(self).projects@, project_id) >= 0 && old(self).projects@[
                find_project_idx(old(self).projects@, project_id)
            ].user_id != user.id) ==> (r matches Err(e) && e == StoreError::NotAuthorized && *final(self) == *old(self)),
            (find_project_idx(old(self).projects@, project_id) >= 0 && old(self).projects@[
                find_project_idx(old(self).projects@, project_id)
            ].user_id == user.id && end_date@.len() != 0 && !valid_wire_date(end_date@)) ==> (
            r matches Err(e) && e == StoreError::ValidationFailure && *final(self) == *old(self)),
            (find_project_idx(old(self).projects@, project_id) >= 0 && old(self).projects@[
                find_project_idx(old(self).projects@, project_id)
            ].user_id == user.id && end_date@.len() == 0) ==> (r matches Ok(rid) && rid
                == project_id && project_edited(
                *old(self),
                *final(self),
                find_project_idx(old(self).projects@, project_id),
                name@,
                Seq::<char>::empty(),
            )),
            (find_project_idx(old(self).projects@, project_id) >= 0 && old(self).projects@[
                find_project_idx(old(self).projects@, project_id)
            ].user_id == user.id && valid_wire_date(end_date@)) ==> (r matches Ok(rid) && rid
                == project_id && project_edited(
                *old(self),
                *final(self),
                find_project_idx(old(self).projects@, project_id),
                name@,
                storage_date(end_date@),
            )),
    {
        let idx: usize = match self.find_project_index(project_id) {
            None => {
                return Err(StoreError::NotFound);
            },
            Some(i) => i,
        };
        if self.projects[idx].user_id != user.id {
            return Err(StoreError::NotAuthorized);
        }
        let new_end: String;
        if end_date.is_empty() {
            new_end = String::new();
        } else {
            match parse_date(end_date) {
                Ok(d) => {
                    new_end = d;
                },
                Err(_) => {
                    return Err(StoreError::ValidationFailure);
                },
            }
        }
        let old_p = self.projects.remove(idx);
        let replacement = Project {
            id_proj: old_p.id_proj,
            name: String::from_str(name),
            start_date: old_p.start_date,
            end_date: new_end,
            user_id: old_p.user_id,
        };
        let ghost np = replacement;
        self.projects.insert(idx, replacement);
        proof {
            let pre = *old(self);
            assert(self.projects@ =~= pre.projects@.update(idx as int, np));
            assert forall|i: int| 0 <= i < self.projects@.len() implies ((
            #[trigger] self.projects@[i]).id_proj matches Some(q) && 1 <= q
                < self.next_project_id) by {
                if i != idx {
                    assert(self.projects@[i] == pre.projects@[i]);
                }
            }
            assert forall|i: int, j: int|
                0 <= i < j < self.projects@.len() implies (#[trigger] self.projects@[i]).id_proj
                != (#[trigger] self.projects@[j]).id_proj by {
                assert(self.projects@[i].id_proj == pre.projects@[i].id_proj);
                assert(self.projects@[j].id_proj == pre.projects@[j].id_proj);
            }
            assert forall|i: int| 0 <= i < self.projects@.len() implies find_user(
                self.users@,
                (#[trigger] self.projects@[i]).user_id,
            ) is Some by {
                assert(self.projects@[i].user_id == pre.projects@[i].user_id);
            }
        }
        Ok(project_id)
    }

    /// Delete a project, keyed by project id. Only the owner may delete: a
    /// mismatched caller is told `NotAuthorized` and the project survives
    /// untouched, distinct from `NotFound` for an id naming nothing.
    pub fn delete_project_by_id(&mut self, project_id: u64, user: &User) -> (r: Result<
        (),
        StoreError,
    >)
        requires
            old(self).wf(),
        ensures
            final(self).wf(),
            find_project_idx(old(self).projects@, project_id) == -1 ==> (r matches Err(e) && e
                == StoreError::NotFound && *final(self) == *old(self)),
            (find_project_idx(old(self).projects@, project_id) >= 0 && old(self).projects@[
                find_project_idx(old(self).projects@, project_id)
            ].user_id != user.id) ==> (r matches Err(e) && e == StoreError::NotAuthorized && *final(self) == *old(self)),
            (find_project_idx(old(self).projects@, project_id) >= 0 && old(self).projects@[
                find_project_idx(old(self).projects@, project_id)
            ].user_id == user.id) ==> (r is Ok && final(self).users@ == old(self).users@ && final(self).next_user_id == old(self).next_user_id && final(self).next_project_id == old(
                self,
            ).next_project_id && final(self).projects@ == old(self).projects@.remove(
                find_project_idx(old(self).projects@, project_id),
            )),
    {
        let idx: usize = match self.find_project_index(project_id) {
            None => {
                return Err(StoreError::NotFound);
            },
            Some(i) => i,
        };
        if self.projects[idx].user_id != user.id {
            return Err(StoreError::NotAuthorized);
        }
        self.projects.remove(idx);
        proof {
            let pre = *old(self);
            assert forall|i: int| 0 <= i < self.projects@.len() implies ((
            #[trigger] self.projects@[i]).id_proj matches Some(q) && 1 <= q
                < self.next_project_id) by {
                if i < idx {
                    assert(self.projects@[i] == pre.projects@[i]);
                } else {
                    assert(self.projects@[i] == pre.projects@[i + 1]);
                }
            }
            assert forall|i: int, j: int|
                0 <= i < j < self.projects@.len() implies (#[trigger] self.projects@[i]).id_proj
                != (#[trigger] self.projects@[j]).id_proj by {
                if i < idx {
                    assert(self.projects@[i] == pre.projects@[i]);
                } else {
                    assert(self.projects@[i] == pre.projects@[i + 1]);
                }
                if j < idx {
                    assert(self.projects@[j] == pre.projects@[j]);
                } else {
                    assert(self.projects@[j] == pre.projects@[j + 1]);
                }
            }
            assert forall|i: int| 0 <= i < self.projects@.len() implies find_user(
                self.users@,
                (#[trigger] self.projects@[i]).user_id,
            ) is Some by {
                if i < idx {
                    assert(self.projects@[i] == pre.projects@[i]);
                } else {
                    assert(self.projects@[i] == pre.projects@[i + 1]);
                }
            }
        }
        Ok(())
    }

    /// Resolve a request's session cookie to a user: parse the value as an
    /// id and look the id up. A missing cookie, an unparsable value or a
    /// vanished user all degrade to `None`, the ordinary guest state.
    pub fn authenticate(&self, cookie_value: Option<&str>) -> (r: Option<User>)
        ensures
            r == spec_authenticate(*self, opt_str_view(cookie_value)),
    {
        match cookie_value {
            None => None,
            Some(v) => match parse_cookie_value(v) {
                None => None,
                Some(id) => match self.query_user_by_id(id) {
                    Ok(u) => Some(u),
                    Err(_) => None,
                },
            },
        }
    }

    /// Resolve a request's session cookie to an admin identity: as
    /// [`Store::authenticate`], and the resolved user must carry the admin
    /// flag; a plain user is treated as absent, not as an error.
    pub fn authenticate_admin(&self, cookie_value: Option<&str>) -> (r: Option<Admin>)
        ensures
            r == spec_authenticate_admin(*self, opt_str_view(cookie_value)),
    {
        match cookie_value {
            None => None,
            Some(v) => match parse_cookie_value(v) {
                None => None,
                Some(id) => match self.query_admin_by_id(id) {
                    Ok(a) => if a.user.admin {
                        Some(a)
                    } else {
                        None
                    },
                    Err(_) => None,
                },
            },
        }
    }

    /// Check a login attempt: the user registered under the email must
    /// exist, and the password must verify against the stored hash. The
    /// returned id is what the session cookie is written from.
    ///
    /// Success is owed: with a registered email whose stored hash the
    /// backend accepts — every hash this store writes is one — login returns
    /// `Ok` exactly when the password matches.
    pub fn login(&self, email: &str, password: &str) -> (r: Result<u64, StoreError>)
        ensures
            find_user_by_email(self.users@, email@) is None <==> (r matches Err(e) && e
                == StoreError::NotFound),
            r matches Ok(id) ==> (find_user_by_email(self.users@, email@) matches Some(u) && id
                == u.id && bcrypt_accepts(u.password@) && bcrypt_verifies(password@, u.password@)),
            find_user_by_email(self.users@, email@) matches Some(u) ==> ((bcrypt_accepts(
                u.password@,
            ) && bcrypt_verifies(password@, u.password@)) ==> (r matches Ok(id) && id == u.id)),
            (r matches Err(e) && e == StoreError::NotAuthorized) <==> (find_user_by_email(
                self.users@,
                email@,
            ) matches Some(u) && bcrypt_accepts(u.password@) && !bcrypt_verifies(
                password@,
                u.password@,
            )),
            (r matches Err(e) && e == StoreError::BackendFailure) <==> (find_user_by_email(
                self.users@,
                email@,
            ) matches Some(u) && !bcrypt_accepts(u.password@)),
            r matches Err(e) ==> (e == StoreError::NotFound || e == StoreError::NotAuthorized || e
                == StoreError::BackendFailure),
    {
        match self.query_user_by_email(String::from_str(email)) {
            Err(_) => Err(StoreError::NotFound),
            Ok(u) => match verify_password(password, u.password.as_str()) {
                Err(_) => Err(StoreError::BackendFailure),
                Ok(true) => Ok(u.id),
                Ok(false) => Err(StoreError::NotAuthorized),
            },
        }
    }
}

/// Whether some user carries `id`.
fn users_contain(users: &Vec<User>, id: u64) -> (b: bool)
    ensures
        b == (find_user(users@, id) is Some),
{
    let n: usize = users.len();
    let mut i: usize = 0;
    proof {
        assert(users@.skip(0) =~= users@);
    }
    while i < n
        invariant
            n == users@.len(),
            0 <= i <= n,
            find_user(users@, id) == find_user(users@.skip(i as int), id),
        decreases n - i,
    {
        proof {
            assert(users@.skip(i as int)[0] == users@[i as int]);
            assert(users@.skip(i as int).drop_first() =~= users@.skip(i + 1));
        }
        if users[i].id == id {
            return true;
        }
        i = i + 1;
    }
    proof {
        assert(users@.skip(n as int) =~= Seq::<User>::empty());
    }
    false
}

/// Whether a set of decoded rows is a consistent image of the two tables:
/// ids positive, unique and with room left in the id space, emails unique,
/// every project numbered, and every owner present.
pub open spec fn rows_consistent(users: Seq<User>, projects: Seq<Project>) -> bool {
    &&& forall|i: int| 0 <= i < users.len() ==> 1 <= (#[trigger] users[i]).id < u64::MAX
    &&& forall|i: int, j: int|
        0 <= i < j < users.len() ==> (#[trigger] users[i]).id != (#[trigger] users[j]).id
    &&& forall|i: int, j: int|
        0 <= i < j < users.len() ==> (#[trigger] users[i]).email@ != (#[trigger] users[j]).email@
    &&& forall|i: int|
        0 <= i < projects.len() ==> ((#[trigger] projects[i]).id_proj matches Some(q) && 1 <= q
            < u64::MAX)
    &&& forall|i: int, j: int|
        0 <= i < j < projects.len() ==> (#[trigger] projects[i]).id_proj != (
        #[trigger] projects[j]).id_proj
    &&& forall|i: int|
        0 <= i < projects.len() ==> find_user(users, (#[trigger] projects[i]).user_id) is Some
}

impl Store {
    /// Rebuild a store from rows read back from persistent storage, checking
    /// the schema's invariants at run time: inconsistent rows are refused
    /// rather than trusted.
    pub fn from_rows(users: Vec<User>, projects: Vec<Project>) -> (r: Result<Store, StoreError>)
        ensures
            r is Ok <==> rows_consistent(users@, projects@),
            r matches Ok(s) ==> s.wf() && s.users@ == users@ && s.projects@ == projects@,
            r matches Err(e) ==> e == StoreError::ValidationFailure,
    {
        let n: usize = users.len();
        let mut next_user_id: u64 = 1;
        let mut i: usize = 0;
        while i < n
            invariant
                n == users@.len(),
                0 <= i <= n,
                1 <= next_user_id,
                forall|a: int| 0 <= a < i ==> 1 <= (#[trigger] users@[a]).id < next_user_id,
                forall|a: int, b: int|
                    0 <= a < b < i ==> (#[trigger] users@[a]).id != (#[trigger] users@[b]).id,
                forall|a: int, b: int|
                    0 <= a < b < i ==> (#[trigger] users@[a]).email@ != (
                    #[trigger] users@[b]).email@,
            decreases n - i,
        {
            if users[i].id == 0 || users[i].id == u64::MAX {
                return Err(StoreError::ValidationFailure);
            }
            let mut j: usize = 0;
            while j < i
                invariant
                    n == users@.len(),
                    0 <= j <= i < n,
                    forall|a: int|
                        0 <= a < j ==> (#[trigger] users@[a]).id != users@[i as int].id,
                    forall|a: int|
                        0 <= a < j ==> (#[trigger] users@[a]).email@ != users@[i as int].email@,
                decreases i - j,
            {
                if users[j].id == users[i].id {
                    return Err(StoreError::ValidationFailure);
                }
                if users[j].email == users[i].email {
                    return Err(StoreError::ValidationFailure);
                }
                j = j + 1;
            }
            if users[i].id >= next_user_id {
                next_user_id = users[i].id + 1;
            }
            i = i + 1;
        }
        let m: usize = projects.len();
        let mut next_project_id: u64 = 1;
        let mut p: usize = 0;
        while p < m
            invariant
                n == users@.len(),
                m == projects@.len(),
                0 <= p <= m,
                1 <= next_project_id,
                forall|a: int|
                    0 <= a < p ==> ((#[trigger] projects@[a]).id_proj matches Some(q) && 1 <= q
                        < next_project_id),
                forall|a: int, b: int|
                    0 <= a < b < p ==> (#[trigger] projects@[a]).id_proj != (
                    #[trigger] projects@[b]).id_proj,
                forall|a: int|
                    0 <= a < p ==> find_user(users@, (#[trigger] projects@[a]).user_id) is Some,
            decreases m - p,
        {
            let pid: u64 = match projects[p].id_proj {
                None => {
                    return Err(StoreError::ValidationFailure);
                },
                Some(id) => id,
            };
            if pid == 0 || pid == u64::MAX {
                return Err(StoreError::ValidationFailure);
            }
            let mut j: usize = 0;
            while j < p
                invariant
                    m == projects@.len(),
                    0 <= j <= p < m,
                    projects@[p as int].id_proj == Some(pid),
                    forall|a: int|
                        0 <= a < j ==> (#[trigger] projects@[a]).id_proj != Some(pid),
                decreases p - j,
            {
                let same = match projects[j].id_proj {
                    Some(q) => q == pid,
                    None => false,
                };
                if same {
                    return Err(StoreError::ValidationFailure);
                }
                proof {
                    assert(projects@[j as int].id_proj != Some(pid));
                }
                j = j + 1;
            }
            if !users_contain(&users, projects[p].user_id) {
                return Err(StoreError::ValidationFailure);
            }
            if pid >= next_project_id {
                next_project_id = pid + 1;
            }
            p = p + 1;
        }
        Ok(Store { users, projects, next_user_id, next_project_id })
    }
}

} // verus!
