//! Users.
use crate::error::Result;
use crate::store;
use crate::store::rows::{LoginRow, LoginView, User, UserView};
use crate::store::table;
use crate::store::table::{Record, Row};
use crate::store::{Store, StoreView};
use crate::text;
use vstd::prelude::*;

verus! {

/// The user with this name.
pub open spec fn called(name: Seq<char>) -> spec_fn(UserView) -> bool {
    |v: UserView| v.username == name
}

/// Why there cannot be such a user, where that is so.
pub open spec fn user_fault(s: StoreView, name: Seq<char>, role: Seq<char>) -> Option<Seq<char>> {
    if !store::is_role(role) {
        Some(store::check("role IN ('admin','operator','viewer')"@))
    } else if table::any(s.users, called(name)) {
        Some(store::unique("users.username"@))
    } else {
        None
    }
}

/// The store after a user has been added.
pub open spec fn with_user(s: StoreView, v: UserView, now: Seq<char>) -> StoreView {
    StoreView {
        users: s.users.push(v),
        logins: s.logins.push(
            LoginView { user_id: v.id, created_at: now, last_login_at: None },
        ),
        ..s
    }
}

/// The store after a user has been seen.
pub open spec fn user_seen(s: StoreView, id: i64, now: Seq<char>) -> StoreView {
    match table::find_row(s.logins, table::numbered::<LoginRow>(id)) {
        Some(i) => StoreView {
            logins: s.logins.update(i, LoginView { last_login_at: Some(now), ..s.logins[i] }),
            ..s
        },
        None => s,
    }
}

proof fn lemma_add_keeps(s: StoreView, v: UserView, now: Seq<char>)
    requires
        s.wf(),
        table::next_id(table::ids::<User>(s.users)) == Some(v.id),
        user_fault(s, v.username, v.role) is None,
    ensures
        with_user(s, v, now).wf(),
{
    table::lemma_push::<User>(s.users, v);
    let n = s.users.push(v);
    assert forall|i: int, j: int|
        #![trigger n[i], n[j]]
        0 <= i < j < n.len() implies n[i].username != n[j].username by {
        if j == s.users.len() {
            assert(!called(v.username)(s.users[i]));
        } else {
            assert(s.users[i].username != s.users[j].username);
        }
    }
    assert forall|i: int|
        #![trigger s.invoices[i]]
        0 <= i < s.invoices.len() implies (s.invoices[i].confirmed_by matches Some(u)
        ==> table::known::<User>(n, u)) by {
    }
    assert forall|i: int|
        #![trigger s.actions[i]]
        0 <= i < s.actions.len() implies (s.actions[i].actor_user_id matches Some(u)
        ==> table::known::<User>(n, u)) by {
    }
}

impl Store {
    /// Adds a user who may log in from the start.
    pub fn insert_user(&mut self, username: &str, password_hash: &str, role: &str, now: &str) -> (r:
        Result<i64>)
        ensures
            match user_fault(old(self)@, username@, role@) {
                Some(m) => (r matches Err(e) && e@ == store::refused("insert user"@, m))
                    && final(self)@ == old(self)@,
                None => match table::next_id(table::ids::<User>(old(self)@.users)) {
                    None => (r matches Err(e) && e@ == store::refused(
                        "insert user"@,
                        store::full(),
                    )) && final(self)@ == old(self)@,
                    Some(id) => r == Result::<i64>::Ok(id) && final(self)@ == with_user(
                        old(self)@,
                        UserView {
                            id,
                            username: username@,
                            password_hash: password_hash@,
                            role: role@,
                            is_active: true,
                        },
                        now@,
                    ),
                },
            },
            old(self)@.wf() ==> final(self)@.wf(),
    {
        if !(text::same(role, "admin") || text::same(role, "operator") || text::same(
            role,
            "viewer",
        )) {
            return Err(
                store::refuse(
                    "insert user",
                    &store::check_text("role IN ('admin','operator','viewer')"),
                ),
            );
        }
        let f = |t: &User| -> (b: bool)
            ensures
                b == called(username@)(t@),
        {
            text::same(&t.username, username)
        };
        if table::any_row(&self.users, f, Ghost(called(username@))) {
            return Err(store::refuse("insert user", &store::unique_text("users.username")));
        }
        let id: i64 = match table::fresh_id(&self.users) {
            Some(id) => id,
            None => return Err(store::refuse("insert user", &store::full_text())),
        };
        let row = User {
            id,
            username: username.to_owned(),
            password_hash: password_hash.to_owned(),
            role: role.to_owned(),
            is_active: true,
        };
        let login = LoginRow { user_id: id, created_at: now.to_owned(), last_login_at: None };
        proof {
            table::lemma_views_push(self.users@, row);
            table::lemma_views_push(self.logins@, login);
            if self@.wf() {
                lemma_add_keeps(self@, row@, now@);
            }
        }
        self.users.push(row);
        self.logins.push(login);
        Ok(id)
    }

    /// The user `id`.
    pub fn find_user_by_id(&self, id: i64) -> (r: Option<User>)
        ensures
            table::found(r, self@.users, table::numbered::<User>(id)),
    {
        table::at(&self.users, table::position_of(&self.users, id), Ghost(
            table::numbered::<User>(id),
        ))
    }

    /// The user with this name.
    pub fn find_user_by_username(&self, username: &str) -> (r: Option<User>)
        ensures
            table::found(r, self@.users, called(username@)),
    {
        let f = |t: &User| -> (b: bool)
            ensures
                b == called(username@)(t@),
        {
            text::same(&t.username, username)
        };
        table::at(
            &self.users,
            table::position(&self.users, f, Ghost(called(username@))),
            Ghost(called(username@)),
        )
    }

    /// Notes that a user has logged in.
    pub fn update_user_last_login(&mut self, id: i64, now: &str)
        ensures
            final(self)@ == user_seen(old(self)@, id, now@),
            old(self)@.wf() ==> final(self)@.wf(),
    {
        if let Some(i) = table::position_of(&self.logins, id) {
            let mut row = self.logins[i].copy();
            row.last_login_at = Some(now.to_owned());
            proof {
                table::lemma_views_set(self.logins@, i as int, row);
            }
            self.logins.set(i, row);
        }
    }

    /// How many users there are.
    pub fn count_users(&self) -> (r: usize)
        ensures
            r == self@.users.len(),
    {
        self.users.len()
    }
}

// ---------------------------------------------------------------------------
// Laws
// ---------------------------------------------------------------------------

/// A user who has been added is found by name, and so is every other as before.
pub proof fn law_user_found(s: StoreView, v: UserView, now: Seq<char>, other: Seq<char>)
    requires
        user_fault(s, v.username, v.role) is None,
        other != v.username,
    ensures
        table::find_row(with_user(s, v, now).users, called(v.username)) matches Some(i)
            && with_user(s, v, now).users[i] == v,
        table::find_row(with_user(s, v, now).users, called(other)) == table::find_row(
            s.users,
            called(other),
        ),
        table::find_row(s.users, called(other)) matches Some(i) ==> with_user(s, v, now).users[i]
            == s.users[i],
{
    let p = called(v.username);
    let n = with_user(s, v, now).users;
    table::lemma_find_row(s.users, p);
    table::lemma_find_row(s.users, called(other));
    assert(n.drop_last() =~= s.users);
    assert(n.last() == v);
    if let Some(i) = table::find_row(s.users, p) {
        assert(p(s.users[i]));
    }
    assert(p(n.last()));
    assert(!called(other)(n.last()));
}

/// There can be such a user exactly where the role is one of three and the name is free.
pub proof fn law_user_refused(s: StoreView, name: Seq<char>, role: Seq<char>)
    ensures
        user_fault(s, name, role) is None <==> {
            &&& role == "admin"@ || role == "operator"@ || role == "viewer"@
            &&& forall|i: int|
                0 <= i < s.users.len() ==> (#[trigger] s.users[i]).username != name
        },
{
    if table::any(s.users, called(name)) {
        let i = choose|i: int| 0 <= i < s.users.len() && called(name)(#[trigger] s.users[i]);
        assert(s.users[i].username == name);
    } else {
        assert forall|i: int| 0 <= i < s.users.len() implies (#[trigger] s.users[i]).username
            != name by {
            assert(!called(name)(s.users[i]));
        }
    }
}

/// A user comes behind the others as given, and has not been seen yet; nothing else changes.
pub proof fn law_user_added(s: StoreView, v: UserView, now: Seq<char>)
    ensures
        ({
            let t = with_user(s, v, now);
            &&& t.users.drop_last() == s.users && t.users.len() == s.users.len() + 1
            &&& t.users.last() == v
            &&& t.logins.drop_last() == s.logins && t.logins.len() == s.logins.len() + 1
            &&& t.logins.last().user_id == v.id
            &&& t.logins.last().created_at == now
            &&& t.logins.last().last_login_at is None
            &&& t.customers == s.customers && t.invoices == s.invoices && t.actions == s.actions
        }),
{
    let t = with_user(s, v, now);
    assert(t.users.drop_last() =~= s.users);
    assert(t.logins.drop_last() =~= s.logins);
}

/// A user who logs in has been seen at that time. When the user was made stays, and the others stay
/// as they were.
pub proof fn law_user_seen(s: StoreView, i: int, now: Seq<char>)
    requires
        0 <= i < s.logins.len(),
        forall|k: int|
            0 <= k < s.logins.len() && k != i ==> (#[trigger] s.logins[k]).user_id
                != s.logins[i].user_id,
    ensures
        ({
            let t = user_seen(s, s.logins[i].user_id, now);
            &&& t.logins.len() == s.logins.len()
            &&& t.logins[i].last_login_at == Some(now)
            &&& t.logins[i].user_id == s.logins[i].user_id
            &&& t.logins[i].created_at == s.logins[i].created_at
            &&& forall|k: int|
                0 <= k < s.logins.len() && k != i ==> #[trigger] t.logins[k] == s.logins[k]
            &&& t.users == s.users && t.customers == s.customers && t.invoices == s.invoices
        }),
{
    let id = s.logins[i].user_id;
    let p = table::numbered::<LoginRow>(id);
    assert(LoginRow::row_id(s.logins[i]) == id);
    assert(p(s.logins[i]));
    assert forall|k: int| 0 <= k < i implies !p(#[trigger] s.logins[k]) by {
        assert(LoginRow::row_id(s.logins[k]) == s.logins[k].user_id);
    }
    table::lemma_found(s.logins, p, i);
}

/// Why there cannot be such a user: the role first, the name then.
pub proof fn law_why_no_user(s: StoreView, name: Seq<char>, role: Seq<char>)
    ensures
        role != "admin"@ && role != "operator"@ && role != "viewer"@ ==> user_fault(s, name, role)
            == Some(store::check("role IN ('admin','operator','viewer')"@)),
        (role == "admin"@ || role == "operator"@ || role == "viewer"@) && user_fault(s, name, role)
            is Some ==> user_fault(s, name, role) == Some(store::unique("users.username"@)),
{
}

} // verus!
