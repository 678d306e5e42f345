//! The three tables the core persists: users, tokens and vault records.
//!
//! Every row carries an id assigned by the store, unique in its table and
//! never reused; user names are unique.

use vstd::prelude::*;

verus! {

#[derive(Debug)]
pub struct UserRow {
    pub id: i64,
    pub username: String,
    /// Salt for the key that wraps the credential under the login password.
    pub salt: Vec<u8>,
    /// The credential, wrapped under the login password.
    pub credential: Vec<u8>,
    /// A failure counter below the attempt limit, an unlock time otherwise.
    pub suspend: i64,
    pub created_at: i64,
}

#[derive(Debug)]
pub struct TokenRow {
    pub id: i64,
    pub user_id: i64,
    /// The user's credential, wrapped under the token's own key material.
    pub credential: Vec<u8>,
    pub last_active: i64,
    pub created_at: i64,
}

#[derive(Debug)]
pub struct PasswordRow {
    pub id: i64,
    pub user_id: i64,
    pub name: String,
    pub username: Vec<u8>,
    pub password: Vec<u8>,
    pub attachment: Option<Vec<u8>>,
    pub updated_at: i64,
    pub created_at: i64,
}

#[derive(Debug)]
pub struct Database {
    pub users: Vec<UserRow>,
    pub tokens: Vec<TokenRow>,
    pub passwords: Vec<PasswordRow>,
    pub next_user_id: i64,
    pub next_token_id: i64,
    pub next_password_id: i64,
}

/// Errors of the store itself.
#[derive(Clone, Copy, Debug, PartialEq, Eq, Structural)]
pub enum StorageError {
    /// The table has used up its ids.
    IdsExhausted,
}

impl Database {
    pub open spec fn wf(&self) -> bool {
        &&& 1 <= self.next_user_id
        &&& 1 <= self.next_token_id
        &&& 1 <= self.next_password_id
        &&& forall|i: int|
            0 <= i < self.users@.len() ==> 1 <= #[trigger] self.users@[i].id < self.next_user_id
        &&& forall|i: int, j: int|
            0 <= i < j < self.users@.len() ==> #[trigger] self.users@[i].id != #[trigger] self.users@[j].id
        &&& forall|i: int, j: int|
            0 <= i < self.users@.len() && 0 <= j < self.users@.len() && i != j
                ==> #[trigger] self.users@[i].username@ != #[trigger] self.users@[j].username@
        &&& forall|i: int|
            0 <= i < self.tokens@.len() ==> 1 <= #[trigger] self.tokens@[i].id < self.next_token_id
        &&& forall|i: int, j: int|
            0 <= i < j < self.tokens@.len() ==> #[trigger] self.tokens@[i].id
                != #[trigger] self.tokens@[j].id
        &&& forall|i: int|
            0 <= i < self.passwords@.len() ==> 1 <= #[trigger] self.passwords@[i].id
                < self.next_password_id
        &&& forall|i: int, j: int|
            0 <= i < j < self.passwords@.len() ==> #[trigger] self.passwords@[i].id
                != #[trigger] self.passwords@[j].id
    }

    /// The position of the user named `name`.
    pub open spec fn user_named(&self, name: Seq<char>) -> Option<int> {
        if exists|i: int| 0 <= i < self.users@.len() && #[trigger] self.users@[i].username@ == name {
            Some(choose|i: int| 0 <= i < self.users@.len() && #[trigger] self.users@[i].username@ == name)
        } else {
            None
        }
    }

    /// The position of the user with id `id`.
    pub open spec fn user_with_id(&self, id: i64) -> Option<int> {
        if exists|i: int| 0 <= i < self.users@.len() && #[trigger] self.users@[i].id == id {
            Some(choose|i: int| 0 <= i < self.users@.len() && #[trigger] self.users@[i].id == id)
        } else {
            None
        }
    }

    /// The position of the token with id `id`.
    pub open spec fn token_with_id(&self, id: i64) -> Option<int> {
        if exists|i: int| 0 <= i < self.tokens@.len() && #[trigger] self.tokens@[i].id == id {
            Some(choose|i: int| 0 <= i < self.tokens@.len() && #[trigger] self.tokens@[i].id == id)
        } else {
            None
        }
    }

    /// An empty store.
    pub fn new() -> (r: Self)
        ensures
            r.wf(),
            r.users@.len() == 0,
            r.tokens@.len() == 0,
            r.passwords@.len() == 0,
    {
        Database {
            users: Vec::new(),
            tokens: Vec::new(),
            passwords: Vec::new(),
            next_user_id: 1,
            next_token_id: 1,
            next_password_id: 1,
        }
    }

    pub fn find_user_by_name(&self, name: &str) -> (r: Option<usize>)
        requires
            self.wf(),
        ensures
            r is None <==> self.user_named(name@) is None,
            r matches Some(i) ==> self.user_named(name@) == Some(i as int) && i < self.users@.len(),
    {
        let wanted: String = name.to_owned();
        let mut i: usize = 0;
        while i < self.users.len()
            invariant
                self.wf(),
                wanted@ == name@,
                0 <= i <= self.users@.len(),
                forall|j: int| 0 <= j < i ==> #[trigger] self.users@[j].username@ != name@,
            decreases self.users@.len() - i,
        {
            if self.users[i].username.eq(&wanted) {
                proof {
                    let k = choose|k: int| 0 <= k < self.users@.len() && #[trigger] self.users@[k].username@ == name@;
                    assert(k == i as int);
                }
                return Some(i);
            }
            i = i + 1;
        }
        None
    }

    pub fn find_user_by_id(&self, id: i64) -> (r: Option<usize>)
        requires
            self.wf(),
        ensures
            r is None <==> self.user_with_id(id) is None,
            r matches Some(i) ==> self.user_with_id(id) == Some(i as int) && i < self.users@.len(),
    {
        let mut i: usize = 0;
        while i < self.users.len()
            invariant
                self.wf(),
                0 <= i <= self.users@.len(),
                forall|j: int| 0 <= j < i ==> #[trigger] self.users@[j].id != id,
            decreases self.users@.len() - i,
        {
            if self.users[i].id == id {
                proof {
                    let k = choose|k: int| 0 <= k < self.users@.len() && #[trigger] self.users@[k].id == id;
                    assert(k == i as int);
                }
                return Some(i);
            }
            i = i + 1;
        }
        None
    }

    pub fn find_token(&self, id: i64) -> (r: Option<usize>)
        requires
            self.wf(),
        ensures
            r is None <==> self.token_with_id(id) is None,
            r matches Some(i) ==> self.token_with_id(id) == Some(i as int) && i < self.tokens@.len(),
    {
        let mut i: usize = 0;
        while i < self.tokens.len()
            invariant
                self.wf(),
                0 <= i <= self.tokens@.len(),
                forall|j: int| 0 <= j < i ==> #[trigger] self.tokens@[j].id != id,
            decreases self.tokens@.len() - i,
        {
            if self.tokens[i].id == id {
                proof {
                    let k = choose|k: int| 0 <= k < self.tokens@.len() && #[trigger] self.tokens@[k].id == id;
                    assert(k == i as int);
                }
                return Some(i);
            }
            i = i + 1;
        }
        None
    }

    /// Whether `new` is `old` with only the suspend column of user `i` set to `s`.
    pub open spec fn suspend_set(old: &Database, new: &Database, i: int, s: i64) -> bool {
        &&& new.tokens@ == old.tokens@
        &&& new.passwords@ == old.passwords@
        &&& new.next_user_id == old.next_user_id
        &&& new.next_token_id == old.next_token_id
        &&& new.next_password_id == old.next_password_id
        &&& new.users@.len() == old.users@.len()
        &&& forall|j: int| 0 <= j < old.users@.len() && j != i ==> #[trigger] new.users@[j] == old.users@[j]
        &&& new.users@[i].suspend == s
        &&& new.users@[i].id == old.users@[i].id
        &&& new.users@[i].username@ == old.users@[i].username@
        &&& new.users@[i].salt@ == old.users@[i].salt@
        &&& new.users@[i].credential@ == old.users@[i].credential@
        &&& new.users@[i].created_at == old.users@[i].created_at
    }

    pub fn set_user_suspend(&mut self, i: usize, s: i64)
        requires
            old(self).wf(),
            i < old(self).users@.len(),
        ensures
            final(self).wf(),
            Self::suspend_set(old(self), final(self), i as int, s),
    {
        let mut row = self.users.remove(i);
        row.suspend = s;
        self.users.insert(i, row);
        proof {
            assert forall|j: int| 0 <= j < old(self).users@.len() && j != i implies #[trigger] self.users@[j]
                == old(self).users@[j] by {}
        }
    }

    /// Replaces the salt and wrapped credential of user `i`.
    pub fn set_user_secret(&mut self, i: usize, salt: Vec<u8>, credential: Vec<u8>)
        requires
            old(self).wf(),
            i < old(self).users@.len(),
        ensures
            final(self).wf(),
            final(self).tokens@ == old(self).tokens@,
            final(self).passwords@ == old(self).passwords@,
            final(self).next_user_id == old(self).next_user_id,
            final(self).next_token_id == old(self).next_token_id,
            final(self).next_password_id == old(self).next_password_id,
            final(self).users@.len() == old(self).users@.len(),
            forall|j: int|
                0 <= j < old(self).users@.len() && j != i ==> #[trigger] final(self).users@[j]
                    == old(self).users@[j],
            final(self).users@[i as int].salt@ == salt@,
            final(self).users@[i as int].credential@ == credential@,
            final(self).users@[i as int].id == old(self).users@[i as int].id,
            final(self).users@[i as int].username@ == old(self).users@[i as int].username@,
            final(self).users@[i as int].suspend == old(self).users@[i as int].suspend,
            final(self).users@[i as int].created_at == old(self).users@[i as int].created_at,
    {
        let mut row = self.users.remove(i);
        row.salt = salt;
        row.credential = credential;
        self.users.insert(i, row);
        proof {
            assert forall|j: int| 0 <= j < old(self).users@.len() && j != i implies #[trigger] self.users@[j]
                == old(self).users@[j] by {}
        }
    }

    /// Sets the last-active time of token `i`.
    pub fn set_token_active(&mut self, i: usize, now: i64)
        requires
            old(self).wf(),
            i < old(self).tokens@.len(),
        ensures
            final(self).wf(),
            final(self).users@ == old(self).users@,
            final(self).passwords@ == old(self).passwords@,
            final(self).next_user_id == old(self).next_user_id,
            final(self).next_token_id == old(self).next_token_id,
            final(self).next_password_id == old(self).next_password_id,
            final(self).tokens@.len() == old(self).tokens@.len(),
            forall|j: int|
                0 <= j < old(self).tokens@.len() && j != i ==> #[trigger] final(self).tokens@[j]
                    == old(self).tokens@[j],
            final(self).tokens@[i as int].last_active == now,
            final(self).tokens@[i as int].id == old(self).tokens@[i as int].id,
            final(self).tokens@[i as int].user_id == old(self).tokens@[i as int].user_id,
            final(self).tokens@[i as int].credential@ == old(self).tokens@[i as int].credential@,
            final(self).tokens@[i as int].created_at == old(self).tokens@[i as int].created_at,
    {
        let mut row = self.tokens.remove(i);
        row.last_active = now;
        self.tokens.insert(i, row);
        proof {
            assert forall|j: int| 0 <= j < old(self).tokens@.len() && j != i implies #[trigger] self.tokens@[j]
                == old(self).tokens@[j] by {}
        }
    }

    /// Adds a user under the next free id, unless the name is taken.
    pub fn insert_user(&mut self, username: String, salt: Vec<u8>, credential: Vec<u8>, now: i64) -> (r:
        Result<i64, StorageError>)
        requires
            old(self).wf(),
            old(self).user_named(username@) is None,
        ensures
            final(self).wf(),
            old(self).next_user_id == i64::MAX ==> r is Err && *final(self) == *old(self),
            old(self).next_user_id < i64::MAX ==> r == Ok::<i64, StorageError>(old(self).next_user_id)
                && final(self).next_user_id == old(self).next_user_id + 1
                && final(self).users@.len() == old(self).users@.len() + 1
                && final(self).users@.subrange(0, old(self).users@.len() as int) == old(self).users@
                && final(self).users@.last().id == old(self).next_user_id
                && final(self).users@.last().username@ == username@
                && final(self).users@.last().salt@ == salt@
                && final(self).users@.last().credential@ == credential@
                && final(self).users@.last().suspend == 0
                && final(self).users@.last().created_at == now
                && final(self).tokens@ == old(self).tokens@
                && final(self).passwords@ == old(self).passwords@
                && final(self).next_token_id == old(self).next_token_id
                && final(self).next_password_id == old(self).next_password_id,
    {
        if self.next_user_id == i64::MAX {
            return Err(StorageError::IdsExhausted);
        }
        let id = self.next_user_id;
        let ghost name = username@;
        self.users.push(UserRow { id, username, salt, credential, suspend: 0, created_at: now });
        self.next_user_id = id + 1;
        proof {
            assert(self.users@.subrange(0, old(self).users@.len() as int) =~= old(self).users@);
            assert forall|i: int, j: int|
                0 <= i < self.users@.len() && 0 <= j < self.users@.len() && i != j
                    implies #[trigger] self.users@[i].username@ != #[trigger] self.users@[j].username@ by {
                if i == self.users@.len() - 1 {
                    assert(old(self).users@[j].username@ != name);
                } else if j == self.users@.len() - 1 {
                    assert(old(self).users@[i].username@ != name);
                }
            }
        }
        Ok(id)
    }

    /// Adds a token under the next free id.
    pub fn insert_token(&mut self, user_id: i64, credential: Vec<u8>, now: i64) -> (r: Result<
        i64,
        StorageError,
    >)
        requires
            old(self).wf(),
        ensures
            final(self).wf(),
            old(self).next_token_id == i64::MAX ==> r is Err && *final(self) == *old(self),
            old(self).next_token_id < i64::MAX ==> r == Ok::<i64, StorageError>(old(self).next_token_id)
                && final(self).next_token_id == old(self).next_token_id + 1
                && final(self).tokens@.len() == old(self).tokens@.len() + 1
                && final(self).tokens@.subrange(0, old(self).tokens@.len() as int) == old(self).tokens@
                && final(self).tokens@.last().id == old(self).next_token_id
                && final(self).tokens@.last().user_id == user_id
                && final(self).tokens@.last().credential@ == credential@
                && final(self).tokens@.last().last_active == now
                && final(self).tokens@.last().created_at == now
                && final(self).users@ == old(self).users@
                && final(self).passwords@ == old(self).passwords@
                && final(self).next_user_id == old(self).next_user_id
                && final(self).next_password_id == old(self).next_password_id,
    {
        if self.next_token_id == i64::MAX {
            return Err(StorageError::IdsExhausted);
        }
        let id = self.next_token_id;
        self.tokens.push(TokenRow { id, user_id, credential, last_active: now, created_at: now });
        self.next_token_id = id + 1;
        proof {
            assert(self.tokens@.subrange(0, old(self).tokens@.len() as int) =~= old(self).tokens@);
        }
        Ok(id)
    }

    /// The position of record `id` owned by user `user_id`.
    pub open spec fn record_of(&self, id: i64, user_id: i64) -> Option<int> {
        if exists|j: int|
            0 <= j < self.passwords@.len() && #[trigger] self.passwords@[j].id == id
                && self.passwords@[j].user_id == user_id {
            Some(
                choose|j: int|
                    0 <= j < self.passwords@.len() && #[trigger] self.passwords@[j].id == id
                        && self.passwords@[j].user_id == user_id,
            )
        } else {
            None
        }
    }

    /// Finds record `id` among the records of user `user_id`.
    pub fn find_record(&self, id: i64, user_id: i64) -> (r: Option<usize>)
        requires
            self.wf(),
        ensures
            r is None <==> self.record_of(id, user_id) is None,
            r matches Some(j) ==> self.record_of(id, user_id) == Some(j as int) && j
                < self.passwords@.len(),
    {
        let mut j: usize = 0;
        while j < self.passwords.len()
            invariant
                self.wf(),
                0 <= j <= self.passwords@.len(),
                forall|k: int|
                    0 <= k < j ==> !(#[trigger] self.passwords@[k].id == id && self.passwords@[k].user_id
                        == user_id),
            decreases self.passwords@.len() - j,
        {
            if self.passwords[j].id == id && self.passwords[j].user_id == user_id {
                proof {
                    let k = choose|k: int|
                        0 <= k < self.passwords@.len() && #[trigger] self.passwords@[k].id == id
                            && self.passwords@[k].user_id == user_id;
                    assert(k == j as int);
                }
                return Some(j);
            }
            j = j + 1;
        }
        None
    }

    /// Adds a record under the next free id.
    pub fn insert_record(&mut self, row: PasswordRow) -> (r: Result<i64, StorageError>)
        requires
            old(self).wf(),
        ensures
            final(self).wf(),
            old(self).next_password_id == i64::MAX ==> r is Err && *final(self) == *old(self),
            old(self).next_password_id < i64::MAX ==> r == Ok::<i64, StorageError>(
                old(self).next_password_id,
            ) && final(self).next_password_id == old(self).next_password_id + 1
                && final(self).passwords@.len() == old(self).passwords@.len() + 1
                && final(self).passwords@.subrange(0, old(self).passwords@.len() as int)
                == old(self).passwords@ && final(self).passwords@.last().id == old(self).next_password_id
                && final(self).passwords@.last().user_id == row.user_id
                && final(self).passwords@.last().name@ == row.name@
                && final(self).passwords@.last().username@ == row.username@
                && final(self).passwords@.last().password@ == row.password@
                && final(self).passwords@.last().attachment == row.attachment
                && final(self).passwords@.last().updated_at == row.updated_at
                && final(self).passwords@.last().created_at == row.created_at
                && final(self).users@ == old(self).users@ && final(self).tokens@ == old(self).tokens@
                && final(self).next_user_id == old(self).next_user_id && final(self).next_token_id
                == old(self).next_token_id,
    {
        if self.next_password_id == i64::MAX {
            return Err(StorageError::IdsExhausted);
        }
        let id = self.next_password_id;
        let mut row = row;
        row.id = id;
        self.passwords.push(row);
        self.next_password_id = id + 1;
        proof {
            assert(self.passwords@.subrange(0, old(self).passwords@.len() as int) =~= old(self).passwords@);
        }
        Ok(id)
    }

    /// Replaces the contents of record `j`, keeping its id, owner and creation time.
    pub fn replace_record(&mut self, j: usize, row: PasswordRow)
        requires
            old(self).wf(),
            j < old(self).passwords@.len(),
        ensures
            final(self).wf(),
            final(self).users@ == old(self).users@,
            final(self).tokens@ == old(self).tokens@,
            final(self).next_user_id == old(self).next_user_id,
            final(self).next_token_id == old(self).next_token_id,
            final(self).next_password_id == old(self).next_password_id,
            final(self).passwords@.len() == old(self).passwords@.len(),
            forall|k: int|
                0 <= k < old(self).passwords@.len() && k != j ==> #[trigger] final(self).passwords@[k]
                    == old(self).passwords@[k],
            final(self).passwords@[j as int].id == old(self).passwords@[j as int].id,
            final(self).passwords@[j as int].user_id == old(self).passwords@[j as int].user_id,
            final(self).passwords@[j as int].created_at == old(self).passwords@[j as int].created_at,
            final(self).passwords@[j as int].name@ == row.name@,
            final(self).passwords@[j as int].username@ == row.username@,
            final(self).passwords@[j as int].password@ == row.password@,
            final(self).passwords@[j as int].attachment == row.attachment,
            final(self).passwords@[j as int].updated_at == row.updated_at,
    {
        let old_row = self.passwords.remove(j);
        let mut row = row;
        row.id = old_row.id;
        row.user_id = old_row.user_id;
        row.created_at = old_row.created_at;
        self.passwords.insert(j, row);
        proof {
            assert forall|k: int| 0 <= k < old(self).passwords@.len() && k != j implies #[trigger] self.passwords@[k]
                == old(self).passwords@[k] by {}
        }
    }

    /// Removes record `j`.
    pub fn remove_record(&mut self, j: usize)
        requires
            old(self).wf(),
            j < old(self).passwords@.len(),
        ensures
            final(self).wf(),
            final(self).passwords@ == old(self).passwords@.remove(j as int),
            final(self).users@ == old(self).users@,
            final(self).tokens@ == old(self).tokens@,
            final(self).next_user_id == old(self).next_user_id,
            final(self).next_token_id == old(self).next_token_id,
            final(self).next_password_id == old(self).next_password_id,
    {
        self.passwords.remove(j);
        proof {
            let o = old(self).passwords@;
            let n = self.passwords@;
            assert forall|a: int, b: int| 0 <= a < b < n.len() implies #[trigger] n[a].id != #[trigger] n[b].id by {
                let a2 = if a < j { a } else { a + 1 };
                let b2 = if b < j { b } else { b + 1 };
                assert(n[a] == o[a2] && n[b] == o[b2]);
            }
            assert forall|a: int| 0 <= a < n.len() implies 1 <= #[trigger] n[a].id < self.next_password_id by {
                let a2 = if a < j { a } else { a + 1 };
                assert(n[a] == o[a2]);
            }
        }
    }
}

} // verus!
