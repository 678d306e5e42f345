//! Vault records: each secret field is its own envelope under the owner's
//! credential, and every operation is scoped to the owner.

use vstd::prelude::*;
use vstd::string::StringSliceAdditionalSpecFns;
use vstd::utf8::{decode_utf8, valid_utf8};

use crate::db::{Database, PasswordRow, StorageError};
use crate::encryption::{CryptoError, EncryptionManager, AES_GCM_P_MAX};
use crate::user::{AuthError, User, CREDENTIAL_HALF, CREDENTIAL_SIZE};
use crate::util::timestamp;

verus! {

/// The fields of a record to create or to write over an existing one.
pub struct PasswordCreate<'a> {
    pub name: &'a str,
    pub username: &'a str,
    pub password: &'a str,
    pub attachment: Option<&'a str>,
}

pub type PasswordUpdate<'a> = PasswordCreate<'a>;

/// A line of the record list.
#[derive(Debug)]
pub struct PasswordListItem {
    pub id: i64,
    pub name: String,
    pub updated_at: i64,
}

/// A record with its secret fields in the clear.
#[derive(Debug)]
pub struct Password {
    pub id: i64,
    pub name: String,
    pub username: String,
    pub password: String,
    pub attachment: Option<String>,
}

#[verifier::external_type_specification]
#[verifier::external_body]
pub struct ExFromUtf8Error(std::string::FromUtf8Error);

/// Relies on `String::from_utf8` (std): the text that `bytes` encode when they
/// are valid UTF-8, an error otherwise.
#[verifier::external_body]
fn utf8_string(bytes: Vec<u8>) -> (r: Result<String, std::string::FromUtf8Error>)
    ensures
        r is Ok <==> valid_utf8(bytes@),
        r matches Ok(s) ==> s@ == decode_utf8(bytes@),
{
    String::from_utf8(bytes)
}

/// The record key of a user: the data key half of the credential.
pub open spec fn record_key(user: &User) -> Seq<u8> {
    user.spec_credential().subrange(0, CREDENTIAL_HALF as int)
}

/// The record salt of a user: the salt half of the credential.
pub open spec fn record_salt(user: &User) -> Seq<u8> {
    user.spec_credential().subrange(CREDENTIAL_HALF as int, CREDENTIAL_SIZE as int)
}

/// What a field of a record opens to: its text, or why not.
pub enum FieldOpen {
    Text(Seq<char>),
    Failed(CryptoError),
    NotText,
}

/// Manages the records of authenticated users.
#[derive(Clone, Debug)]
pub struct PasswordManager {
    pub encryption: EncryptionManager,
}

impl PasswordManager {
    pub open spec fn wf(&self) -> bool {
        self.encryption.wf()
    }

    /// What the envelope `field` of one of `user`'s records opens to.
    pub open spec fn open_field(&self, user: &User, field: Seq<u8>) -> FieldOpen {
        match self.encryption.spec_decrypt(field, record_key(user), record_salt(user)) {
            Err(e) => FieldOpen::Failed(e),
            Ok(b) => if valid_utf8(b) {
                FieldOpen::Text(decode_utf8(b))
            } else {
                FieldOpen::NotText
            },
        }
    }

    /// Whether `field` is an envelope of the text `text` under `user`'s record key.
    pub open spec fn seals_text(&self, user: &User, field: Seq<u8>, text: Seq<char>) -> bool {
        self.encryption.is_envelope_of(field, vstd::utf8::encode_utf8(text), record_key(user), record_salt(user))
    }

    pub fn new(encryption: EncryptionManager) -> (r: Self)
        ensures
            r.encryption == encryption,
    {
        PasswordManager { encryption }
    }

    /// Encrypts a field of one of `user`'s records.
    fn encrypt(&self, user: &User, data: &[u8]) -> (r: Result<Vec<u8>, AuthError>)
        requires
            self.wf(),
        ensures
            r is Err <==> data@.len() > AES_GCM_P_MAX,
            r is Err ==> r == Err::<Vec<u8>, _>(AuthError::Crypto(CryptoError::TooLong)),
            r matches Ok(v) ==> self.encryption.is_envelope_of(v@, data@, record_key(user), record_salt(user)),
    {
        proof {
            assert(forall|e: crate::encryption::Encryptor|
                e.spec_key_size() == 32 && e.spec_max_plaintext() == AES_GCM_P_MAX);
        }
        let credential = user.credential();
        match self.encryption.encrypt(data, credential.password(), credential.salt()) {
            Ok(v) => Ok(v),
            Err(e) => Err(AuthError::Crypto(e)),
        }
    }

    /// Decrypts a text field of one of `user`'s records.
    fn decrypt(&self, user: &User, data: &[u8]) -> (r: Result<String, AuthError>)
        requires
            self.wf(),
        ensures
            self.open_field(user, data@) matches FieldOpen::Text(t) ==> (r matches Ok(s) && s@ == t),
            self.open_field(user, data@) matches FieldOpen::Failed(e) ==> r == Err::<String, _>(
                AuthError::Crypto(e),
            ),
            self.open_field(user, data@) matches FieldOpen::NotText ==> r == Err::<String, _>(
                AuthError::NotText,
            ),
            forall|t: Seq<char>| #[trigger] self.seals_text(user, data@, t) ==> (r matches Ok(s) && s@ == t),
    {
        let credential = user.credential();
        let opened = self.encryption.decrypt(data, credential.password(), credential.salt());
        proof {
            assert forall|t: Seq<char>| #[trigger] self.seals_text(user, data@, t) implies (opened matches Ok(
                v,
            ) && v@ == vstd::utf8::encode_utf8(t)) by {}
        }
        match opened {
            Ok(bytes) => {
                let ghost b = bytes@;
                match utf8_string(bytes) {
                    Ok(s) => {
                        proof {
                            assert forall|t: Seq<char>| #[trigger] self.seals_text(user, data@, t) implies s@ == t by {
                                vstd::utf8::encode_utf8_decode_utf8(t);
                            }
                        }
                        Ok(s)
                    },
                    Err(_) => {
                        proof {
                            assert forall|t: Seq<char>| !#[trigger] self.seals_text(user, data@, t) by {
                                if self.seals_text(user, data@, t) {
                                    vstd::utf8::encode_utf8_valid_utf8(t);
                                }
                            }
                        }
                        Err(AuthError::NotText)
                    },
                }
            },
            Err(e) => Err(AuthError::Crypto(e)),
        }
    }

    /// The error that opening a field gives, if any.
    pub open spec fn field_error(f: FieldOpen) -> Option<AuthError> {
        match f {
            FieldOpen::Text(_) => None,
            FieldOpen::Failed(e) => Some(AuthError::Crypto(e)),
            FieldOpen::NotText => Some(AuthError::NotText),
        }
    }

    /// The error that viewing `row` gives: the first field that fails to open.
    pub open spec fn view_error(&self, user: &User, row: PasswordRow) -> Option<AuthError> {
        let u = Self::field_error(self.open_field(user, row.username@));
        let p = Self::field_error(self.open_field(user, row.password@));
        if u is Some {
            u
        } else if p is Some {
            p
        } else {
            match row.attachment {
                None => None,
                Some(a) => Self::field_error(self.open_field(user, a@)),
            }
        }
    }

    /// Whether `p` is `row` opened for `user`.
    pub open spec fn shows(&self, user: &User, row: PasswordRow, p: Password) -> bool {
        &&& p.id == row.id
        &&& p.name@ == row.name@
        &&& self.open_field(user, row.username@) == FieldOpen::Text(p.username@)
        &&& self.open_field(user, row.password@) == FieldOpen::Text(p.password@)
        &&& row.attachment is None <==> p.attachment is None
        &&& row.attachment is Some ==> self.open_field(user, row.attachment->Some_0@) == FieldOpen::Text(
            p.attachment->Some_0@,
        )
    }

    /// Whether `row` holds, under `user`'s record key, exactly the fields of `fields`.
    pub open spec fn holds(&self, user: &User, row: PasswordRow, fields: PasswordCreate) -> bool {
        &&& row.name@ == fields.name@
        &&& self.seals_text(user, row.username@, fields.username@)
        &&& self.seals_text(user, row.password@, fields.password@)
        &&& row.attachment is None <==> fields.attachment is None
        &&& row.attachment is Some ==> self.seals_text(
            user,
            row.attachment->Some_0@,
            fields.attachment->Some_0@,
        )
    }

    /// Whether every secret field of `fields` fits the default cipher.
    pub open spec fn fits(fields: PasswordCreate) -> bool {
        &&& fields.username.spec_bytes().len() <= AES_GCM_P_MAX
        &&& fields.password.spec_bytes().len() <= AES_GCM_P_MAX
        &&& fields.attachment matches Some(a) ==> a.spec_bytes().len() <= AES_GCM_P_MAX
    }

    /// The record `id` of `user`, its secret fields opened; `None` when `user`
    /// owns no record `id`.
    pub fn view_password(&self, db: &Database, user: &User, id: i64) -> (r: Result<Option<Password>, AuthError>)
        requires
            self.wf(),
            db.wf(),
        ensures
            db.record_of(id, user.spec_id()) is None ==> r matches Ok(None),
            db.record_of(id, user.spec_id()) matches Some(j) ==> ({
                let row = db.passwords@[j];
                &&& row.user_id == user.spec_id()
                &&& self.view_error(user, row) is Some ==> r == Err::<Option<Password>, _>(
                    self.view_error(user, row)->Some_0,
                )
                &&& self.view_error(user, row) is None ==> (r matches Ok(Some(p)) && self.shows(user, row, p))
                &&& forall|fields: PasswordCreate| #[trigger] self.holds(user, row, fields) ==> (r matches Ok(Some(p))
                    && p.username@ == fields.username@ && p.password@ == fields.password@ && (
                    p.attachment is Some <==> fields.attachment is Some) && (p.attachment is Some
                    ==> p.attachment->Some_0@ == fields.attachment->Some_0@))
            }),
    {
        let j = match db.find_record(id, user.id()) {
            Some(j) => j,
            None => return Ok(None),
        };
        let row = &db.passwords[j];
        let username = match self.decrypt(user, row.username.as_slice()) {
            Ok(s) => s,
            Err(e) => return Err(e),
        };
        let password = match self.decrypt(user, row.password.as_slice()) {
            Ok(s) => s,
            Err(e) => return Err(e),
        };
        let attachment = match &row.attachment {
            Some(a) => match self.decrypt(user, a.as_slice()) {
                Ok(s) => Some(s),
                Err(e) => return Err(e),
            },
            None => None,
        };
        Ok(Some(Password { id: row.id, name: row.name.clone(), username, password, attachment }))
    }

    /// Encrypts the secret fields of `fields` into a row for `user`.
    fn seal_fields(&self, user: &User, fields: &PasswordCreate, now: i64) -> (r: Result<PasswordRow, AuthError>)
        requires
            self.wf(),
        ensures
            r is Ok <==> Self::fits(*fields),
            r is Err ==> r == Err::<PasswordRow, _>(AuthError::Crypto(CryptoError::TooLong)),
            r matches Ok(row) ==> self.holds(user, row, *fields) && row.user_id == user.spec_id()
                && row.updated_at == now && row.created_at == now,
    {
        let username = match self.encrypt(user, fields.username.as_bytes()) {
            Ok(v) => v,
            Err(e) => return Err(e),
        };
        let password = match self.encrypt(user, fields.password.as_bytes()) {
            Ok(v) => v,
            Err(e) => return Err(e),
        };
        let attachment = match fields.attachment {
            Some(a) => match self.encrypt(user, a.as_bytes()) {
                Ok(v) => Some(v),
                Err(e) => return Err(e),
            },
            None => None,
        };
        Ok(
            PasswordRow {
                id: 0,
                user_id: user.id(),
                name: fields.name.to_owned(),
                username,
                password,
                attachment,
                updated_at: now,
                created_at: now,
            },
        )
    }

    /// Creates a record for `user` at the current time: `create_password_at` at
    /// the time the clock reads.
    pub fn create_password(&self, db: &mut Database, user: &User, create: PasswordCreate) -> (r: Result<
        (),
        AuthError,
    >)
        requires
            self.wf(),
            old(db).wf(),
        ensures
            final(db).wf(),
            exists|now: i64| #[trigger] self.create_done(old(db), final(db), user, create, now, r),
            r is Err ==> *final(db) == *old(db),
            !Self::fits(create) ==> r == Err::<(), _>(AuthError::Crypto(CryptoError::TooLong)),
            Self::fits(create) && old(db).next_password_id < i64::MAX ==> r is Ok,
            r is Ok ==> final(db).passwords@.len() == old(db).passwords@.len() + 1
                && final(db).passwords@.subrange(0, old(db).passwords@.len() as int) == old(db).passwords@
                && final(db).passwords@.last().id == old(db).next_password_id
                && final(db).passwords@.last().user_id == user.spec_id()
                && self.holds(user, final(db).passwords@.last(), create)
                && final(db).users@ == old(db).users@ && final(db).tokens@ == old(db).tokens@,
    {
        let now = timestamp();
        let r = self.create_password_at(db, user, create, now);
        proof {
            assert(self.create_done(old(db), final(db), user, create, now, r));
        }
        r
    }

    /// What creating a record at `now` returns and does to the store.
    pub open spec fn create_done(
        &self,
        old_db: &Database,
        new_db: &Database,
        user: &User,
        create: PasswordCreate,
        now: i64,
        r: Result<(), AuthError>,
    ) -> bool {
        &&& (r is Err ==> *new_db == *old_db)
        &&& (!Self::fits(create) ==> r == Err::<(), _>(AuthError::Crypto(CryptoError::TooLong)))
        &&& (Self::fits(create) && old_db.next_password_id == i64::MAX ==> r == Err::<(), _>(
            AuthError::Storage(StorageError::IdsExhausted),
        ))
        &&& (Self::fits(create) && old_db.next_password_id < i64::MAX ==> r is Ok)
        &&& (r is Ok ==> ({
            let row = new_db.passwords@.last();
            &&& new_db.passwords@.len() == old_db.passwords@.len() + 1
            &&& new_db.passwords@.subrange(0, old_db.passwords@.len() as int) == old_db.passwords@
            &&& row.id == old_db.next_password_id
            &&& row.user_id == user.spec_id()
            &&& self.holds(user, row, create)
            &&& row.updated_at == now
            &&& row.created_at == now
            &&& new_db.users@ == old_db.users@
            &&& new_db.tokens@ == old_db.tokens@
        }))
    }

    /// Creates a record for `user`, each secret field its own envelope.
    pub fn create_password_at(&self, db: &mut Database, user: &User, create: PasswordCreate, now: i64) -> (r:
        Result<(), AuthError>)
        requires
            self.wf(),
            old(db).wf(),
        ensures
            final(db).wf(),
            self.create_done(old(db), final(db), user, create, now, r),
    {
        let row = match self.seal_fields(user, &create, now) {
            Ok(row) => row,
            Err(e) => return Err(e),
        };
        match db.insert_record(row) {
            Ok(_) => Ok(()),
            Err(e) => Err(AuthError::Storage(e)),
        }
    }

    /// Writes over record `id` of `user` at the current time:
    /// `update_password_at` at the time the clock reads.
    pub fn update_password(&self, db: &mut Database, user: &User, id: i64, update: PasswordUpdate) -> (r:
        Result<(), AuthError>)
        requires
            self.wf(),
            old(db).wf(),
        ensures
            final(db).wf(),
            exists|now: i64| #[trigger] self.update_done(old(db), final(db), user, id, update, now, r),
            r is Ok <==> Self::fits(update),
            r is Err || old(db).record_of(id, user.spec_id()) is None ==> *final(db) == *old(db),
            final(db).users@ == old(db).users@,
            final(db).tokens@ == old(db).tokens@,
            final(db).passwords@.len() == old(db).passwords@.len(),
            forall|k: int|
                0 <= k < old(db).passwords@.len() && old(db).passwords@[k].user_id != user.spec_id()
                    ==> #[trigger] final(db).passwords@[k] == old(db).passwords@[k],
            r is Ok && old(db).record_of(id, user.spec_id()) is Some ==> ({
                let j = old(db).record_of(id, user.spec_id())->Some_0;
                &&& forall|k: int|
                    0 <= k < old(db).passwords@.len() && k != j ==> #[trigger] final(db).passwords@[k]
                        == old(db).passwords@[k]
                &&& final(db).passwords@[j].id == id
                &&& final(db).passwords@[j].user_id == user.spec_id()
                &&& self.holds(user, final(db).passwords@[j], update)
            }),
    {
        let now = timestamp();
        let r = self.update_password_at(db, user, id, update, now);
        proof {
            assert(self.update_done(old(db), final(db), user, id, update, now, r));
        }
        r
    }

    /// What writing over record `id` at `now` returns and does to the store.
    pub open spec fn update_done(
        &self,
        old_db: &Database,
        new_db: &Database,
        user: &User,
        id: i64,
        update: PasswordUpdate,
        now: i64,
        r: Result<(), AuthError>,
    ) -> bool {
        &&& (r is Ok <==> Self::fits(update))
        &&& (r is Err ==> r == Err::<(), _>(AuthError::Crypto(CryptoError::TooLong)))
        &&& (r is Err || old_db.record_of(id, user.spec_id()) is None ==> *new_db == *old_db)
        &&& (new_db.passwords@.len() == old_db.passwords@.len())
        &&& (forall|k: int|
            0 <= k < old_db.passwords@.len() && old_db.passwords@[k].user_id != user.spec_id()
                ==> #[trigger] new_db.passwords@[k] == old_db.passwords@[k])
        &&& (r is Ok && old_db.record_of(id, user.spec_id()) is Some ==> ({
            let j = old_db.record_of(id, user.spec_id())->Some_0;
            let row = new_db.passwords@[j];
            &&& new_db.passwords@.len() == old_db.passwords@.len()
            &&& forall|k: int|
                0 <= k < old_db.passwords@.len() && k != j ==> #[trigger] new_db.passwords@[k]
                    == old_db.passwords@[k]
            &&& row.id == id
            &&& row.user_id == user.spec_id()
            &&& row.created_at == old_db.passwords@[j].created_at
            &&& self.holds(user, row, update)
            &&& row.updated_at == now
            &&& new_db.users@ == old_db.users@
            &&& new_db.tokens@ == old_db.tokens@
        }))
    }

    /// Writes over record `id` of `user` with freshly encrypted fields. Nothing
    /// changes when `user` owns no record `id`.
    pub fn update_password_at(&self, db: &mut Database, user: &User, id: i64, update: PasswordUpdate, now: i64) -> (r:
        Result<(), AuthError>)
        requires
            self.wf(),
            old(db).wf(),
        ensures
            final(db).wf(),
            self.update_done(old(db), final(db), user, id, update, now, r),
    {
        let row = match self.seal_fields(user, &update, now) {
            Ok(row) => row,
            Err(e) => return Err(e),
        };
        match db.find_record(id, user.id()) {
            Some(j) => {
                db.replace_record(j, row);
                Ok(())
            },
            None => Ok(()),
        }
    }

    /// Deletes record `id` of `user`; nothing changes when `user` owns no record `id`.
    pub fn delete_password(&self, db: &mut Database, user: &User, id: i64) -> (r: Result<(), AuthError>)
        requires
            self.wf(),
            old(db).wf(),
        ensures
            final(db).wf(),
            r is Ok,
            old(db).record_of(id, user.spec_id()) is None ==> *final(db) == *old(db),
            old(db).record_of(id, user.spec_id()) matches Some(j) ==> old(db).passwords@[j].user_id
                == user.spec_id() && final(db).passwords@ == old(db).passwords@.remove(j)
                && final(db).users@ == old(db).users@ && final(db).tokens@ == old(db).tokens@,
            forall|k: int|
                0 <= k < old(db).passwords@.len() && old(db).passwords@[k].user_id != user.spec_id()
                    ==> final(db).passwords@.contains(#[trigger] old(db).passwords@[k]),
    {
        match db.find_record(id, user.id()) {
            Some(j) => {
                db.remove_record(j);
                proof {
                    assert forall|k: int|
                        0 <= k < old(db).passwords@.len() && old(db).passwords@[k].user_id != user.spec_id()
                            implies db.passwords@.contains(#[trigger] old(db).passwords@[k]) by {
                        let k2 = if k < j { k } else { k - 1 };
                        assert(k != j);
                        assert(db.passwords@[k2] == old(db).passwords@[k]);
                    }
                }
                Ok(())
            },
            None => Ok(()),
        }
    }

    /// The id, name and update time of every record of `user`, most recently
    /// updated first.
    pub fn list_password(&self, db: &Database, user: &User) -> (r: Result<Vec<PasswordListItem>, AuthError>)
        requires
            db.wf(),
        ensures
            r is Ok,
            r matches Ok(items) ==> from_rows(items@, db.passwords@, db.passwords@.len() as int, user.spec_id())
                && covers(items@, db.passwords@, db.passwords@.len() as int, user.spec_id())
                && ids_distinct(items@) && newest_first(items@),
    {
        let uid = user.id();
        let ghost rows = db.passwords@;
        let mut items: Vec<PasswordListItem> = Vec::new();
        proof {
            reveal(from_rows);
            reveal(covers);
            reveal(ids_distinct);
            reveal(newest_first);
        }
        let mut i: usize = 0;
        while i < db.passwords.len()
            invariant
                db.wf(),
                rows == db.passwords@,
                uid == user.spec_id(),
                0 <= i <= rows.len(),
                from_rows(items@, rows, i as int, uid),
                covers(items@, rows, i as int, uid),
                ids_distinct(items@),
                newest_first(items@),
            decreases rows.len() - i,
        {
            let row = &db.passwords[i];
            if row.user_id == uid {
                let item = PasswordListItem { id: row.id, name: row.name.clone(), updated_at: row.updated_at };
                let mut pos: usize = 0;
                while pos < items.len() && items[pos].updated_at >= item.updated_at
                    invariant
                        0 <= pos <= items@.len(),
                        forall|k: int| 0 <= k < pos ==> #[trigger] items@[k].updated_at >= item.updated_at,
                    decreases items@.len() - pos,
                {
                    pos = pos + 1;
                }
                let ghost old_items = items@;
                items.insert(pos, item);
                proof {
                    assert forall|j: int| 0 <= j < i implies #[trigger] rows[j].id != rows[i as int].id by {}
                    lemma_insert_item(old_items, items@, pos as int, item, rows, i as int, uid);
                }
            } else {
                proof {
                    lemma_skip_row(items@, rows, i as int, uid);
                }
            }
            i = i + 1;
        }
        Ok(items)
    }
}

/// Deleting a record leaves nothing for its owner to find under its id: a
/// view after a delete of the same record is empty.
pub proof fn lemma_deleted_record_is_gone(before: &Database, after: &Database, id: i64, user_id: i64)
    requires
        before.wf(),
        before.record_of(id, user_id) is Some,
        after.passwords@ == before.passwords@.remove(before.record_of(id, user_id)->Some_0),
    ensures
        after.record_of(id, user_id) is None,
{
    let j = before.record_of(id, user_id)->Some_0;
    if after.record_of(id, user_id) is Some {
        let k = choose|k: int|
            0 <= k < after.passwords@.len() && #[trigger] after.passwords@[k].id == id
                && after.passwords@[k].user_id == user_id;
        let k2 = if k < j { k } else { k + 1 };
        assert(after.passwords@[k] == before.passwords@[k2]);
        assert(before.passwords@[j].id == id);
        assert(k2 != j);
    }
}

/// Writing over a record keeps it where its owner finds it: a view after an
/// update of the same record reads the row that the update wrote.
pub proof fn lemma_updated_record_in_place(before: &Database, after: &Database, id: i64, user_id: i64)
    requires
        before.wf(),
        after.wf(),
        before.record_of(id, user_id) is Some,
        after.passwords@.len() == before.passwords@.len(),
        after.passwords@[before.record_of(id, user_id)->Some_0].id == id,
        after.passwords@[before.record_of(id, user_id)->Some_0].user_id == user_id,
    ensures
        after.record_of(id, user_id) == before.record_of(id, user_id),
{
    let j = before.record_of(id, user_id)->Some_0;
    assert(0 <= j < after.passwords@.len() && after.passwords@[j].id == id && after.passwords@[j].user_id
        == user_id);
    let k = choose|k: int|
        0 <= k < after.passwords@.len() && #[trigger] after.passwords@[k].id == id
            && after.passwords@[k].user_id == user_id;
    if k != j {
        if k < j {
            assert(after.passwords@[k].id != after.passwords@[j].id);
        } else {
            assert(after.passwords@[j].id != after.passwords@[k].id);
        }
    }
}

/// Whether `item` lists `row`.
pub open spec fn listed(item: PasswordListItem, row: PasswordRow) -> bool {
    item.id == row.id && item.name@ == row.name@ && item.updated_at == row.updated_at
}

/// Whether `item` lists one of the first `n` rows, one that `uid` owns.
pub open spec fn listed_from(item: PasswordListItem, rows: Seq<PasswordRow>, n: int, uid: i64) -> bool {
    exists|j: int| 0 <= j < n && rows[j].user_id == uid && #[trigger] listed(item, rows[j])
}

/// Every item lists one of the first `n` rows, one that `uid` owns.
#[verifier::opaque]
pub open spec fn from_rows(items: Seq<PasswordListItem>, rows: Seq<PasswordRow>, n: int, uid: i64) -> bool {
    forall|k: int| 0 <= k < items.len() ==> #[trigger] listed_from(items[k], rows, n, uid)
}

/// Every one of the first `n` rows that `uid` owns is listed.
#[verifier::opaque]
pub open spec fn covers(items: Seq<PasswordListItem>, rows: Seq<PasswordRow>, n: int, uid: i64) -> bool {
    forall|j: int|
        0 <= j < n && #[trigger] rows[j].user_id == uid ==> exists|k: int|
            0 <= k < items.len() && #[trigger] listed(items[k], rows[j])
}

/// No id is listed twice.
#[verifier::opaque]
pub open spec fn ids_distinct(items: Seq<PasswordListItem>) -> bool {
    forall|a: int, b: int| 0 <= a < b < items.len() ==> #[trigger] items[a].id != #[trigger] items[b].id
}

/// Items come in order of update time, latest first.
#[verifier::opaque]
pub open spec fn newest_first(items: Seq<PasswordListItem>) -> bool {
    forall|a: int, b: int|
        0 <= a < b < items.len() ==> #[trigger] items[a].updated_at >= #[trigger] items[b].updated_at
}

/// Inserting the item of row `i` where the update times turn below its own
/// keeps a list of the rows before `i` exact, free of repeats and in order.
proof fn lemma_insert_item(
    old_items: Seq<PasswordListItem>,
    n: Seq<PasswordListItem>,
    pos: int,
    item: PasswordListItem,
    rows: Seq<PasswordRow>,
    i: int,
    uid: i64,
)
    requires
        0 <= pos <= old_items.len(),
        n == old_items.insert(pos, item),
        0 <= i < rows.len(),
        rows[i].user_id == uid,
        listed(item, rows[i]),
        forall|j: int| 0 <= j < i ==> #[trigger] rows[j].id != rows[i].id,
        from_rows(old_items, rows, i, uid),
        covers(old_items, rows, i, uid),
        ids_distinct(old_items),
        newest_first(old_items),
        forall|k: int| 0 <= k < pos ==> #[trigger] old_items[k].updated_at >= item.updated_at,
        pos < old_items.len() ==> old_items[pos].updated_at < item.updated_at,
    ensures
        from_rows(n, rows, i + 1, uid),
        covers(n, rows, i + 1, uid),
        ids_distinct(n),
        newest_first(n),
{
    lemma_insert_from_rows(old_items, n, pos, item, rows, i, uid);
    lemma_insert_covers(old_items, n, pos, item, rows, i, uid);
    lemma_insert_distinct(old_items, n, pos, item, rows, i, uid);
    lemma_insert_order(old_items, n, pos, item, rows, i, uid);
}

/// The inserted list still lists only rows that `uid` owns, now up to row `i`.
proof fn lemma_insert_from_rows(
    old_items: Seq<PasswordListItem>,
    n: Seq<PasswordListItem>,
    pos: int,
    item: PasswordListItem,
    rows: Seq<PasswordRow>,
    i: int,
    uid: i64,
)
    requires
        0 <= pos <= old_items.len(),
        n == old_items.insert(pos, item),
        0 <= i < rows.len(),
        rows[i].user_id == uid,
        listed(item, rows[i]),
        from_rows(old_items, rows, i, uid),
    ensures
        from_rows(n, rows, i + 1, uid),
{
    reveal(from_rows);
    assert(forall|k: int| 0 <= k < pos ==> n[k] == old_items[k]);
    assert(n[pos] == item);
    assert(forall|k: int| pos < k < n.len() ==> n[k] == old_items[k - 1]);
    assert forall|k: int| 0 <= k < n.len() implies #[trigger] listed_from(n[k], rows, i + 1, uid) by {
        if k < pos {
            assert(n[k] == old_items[k]);
            assert(listed_from(old_items[k], rows, i, uid));
            let j = choose|j: int| 0 <= j < i && rows[j].user_id == uid && #[trigger] listed(old_items[k], rows[j]);
            assert(listed(n[k], rows[j]));
        } else if k == pos {
            assert(listed(n[k], rows[i]));
        } else {
            assert(n[k] == old_items[k - 1]);
            assert(listed_from(old_items[k - 1], rows, i, uid));
            let j = choose|j: int| 0 <= j < i && rows[j].user_id == uid && #[trigger] listed(old_items[k - 1], rows[j]);
            assert(listed(n[k], rows[j]));
        }
    }
}

/// The inserted list lists every row that `uid` owns up to row `i`.
proof fn lemma_insert_covers(
    old_items: Seq<PasswordListItem>,
    n: Seq<PasswordListItem>,
    pos: int,
    item: PasswordListItem,
    rows: Seq<PasswordRow>,
    i: int,
    uid: i64,
)
    requires
        0 <= pos <= old_items.len(),
        n == old_items.insert(pos, item),
        0 <= i < rows.len(),
        listed(item, rows[i]),
        covers(old_items, rows, i, uid),
    ensures
        covers(n, rows, i + 1, uid),
{
    reveal(covers);
    assert(forall|k: int| 0 <= k < pos ==> n[k] == old_items[k]);
    assert(n[pos] == item);
    assert(forall|k: int| pos < k < n.len() ==> n[k] == old_items[k - 1]);
    assert forall|j: int| 0 <= j < i + 1 && #[trigger] rows[j].user_id == uid implies exists|k: int|
        0 <= k < n.len() && #[trigger] listed(n[k], rows[j]) by {
        if j == i {
            assert(listed(n[pos], rows[j]));
        } else {
            let k = choose|k: int| 0 <= k < old_items.len() && #[trigger] listed(old_items[k], rows[j]);
            if k < pos {
                assert(n[k] == old_items[k]);
                assert(listed(n[k], rows[j]));
            } else {
                assert(n[k + 1] == old_items[k]);
                assert(listed(n[k + 1], rows[j]));
            }
        }
    }
}

/// The inserted item's id is new to the list.
proof fn lemma_insert_distinct(
    old_items: Seq<PasswordListItem>,
    n: Seq<PasswordListItem>,
    pos: int,
    item: PasswordListItem,
    rows: Seq<PasswordRow>,
    i: int,
    uid: i64,
)
    requires
        0 <= pos <= old_items.len(),
        n == old_items.insert(pos, item),
        0 <= i < rows.len(),
        rows[i].user_id == uid,
        listed(item, rows[i]),
        forall|j: int| 0 <= j < i ==> #[trigger] rows[j].id != rows[i].id,
        from_rows(old_items, rows, i, uid),
        ids_distinct(old_items),
    ensures
        ids_distinct(n),
{
    reveal(from_rows);
    reveal(ids_distinct);
    assert(forall|k: int| 0 <= k < pos ==> n[k] == old_items[k]);
    assert(n[pos] == item);
    assert(forall|k: int| pos < k < n.len() ==> n[k] == old_items[k - 1]);
    assert forall|a: int, b: int| 0 <= a < b < n.len() implies #[trigger] n[a].id != #[trigger] n[b].id by {
        if a == pos || b == pos {
            let o = if a == pos { b } else { a };
            let ok = if o < pos { o } else { o - 1 };
            assert(n[o] == old_items[ok]);
            assert(listed_from(old_items[ok], rows, i, uid));
            let j = choose|j: int| 0 <= j < i && rows[j].user_id == uid && #[trigger] listed(old_items[ok], rows[j]);
            assert(rows[j].id != rows[i].id);
        } else {
            let a2 = if a < pos { a } else { a - 1 };
            let b2 = if b < pos { b } else { b - 1 };
            assert(n[a] == old_items[a2] && n[b] == old_items[b2]);
        }
    }
}

/// The insertion point keeps the list latest first.
proof fn lemma_insert_order(
    old_items: Seq<PasswordListItem>,
    n: Seq<PasswordListItem>,
    pos: int,
    item: PasswordListItem,
    rows: Seq<PasswordRow>,
    i: int,
    uid: i64,
)
    requires
        0 <= pos <= old_items.len(),
        n == old_items.insert(pos, item),
        newest_first(old_items),
        forall|k: int| 0 <= k < pos ==> #[trigger] old_items[k].updated_at >= item.updated_at,
        pos < old_items.len() ==> old_items[pos].updated_at < item.updated_at,
    ensures
        newest_first(n),
{
    reveal(newest_first);
    assert(forall|k: int| 0 <= k < pos ==> n[k] == old_items[k]);
    assert(n[pos] == item);
    assert(forall|k: int| pos < k < n.len() ==> n[k] == old_items[k - 1]);
    assert forall|a: int, b: int| 0 <= a < b < n.len() implies #[trigger] n[a].updated_at
        >= #[trigger] n[b].updated_at by {
        let a2 = if a < pos { a } else { a - 1 };
        let b2 = if b < pos { b } else { b - 1 };
        if a == pos {
            assert(n[b] == old_items[b2]);
            assert(old_items[pos].updated_at >= old_items[b2].updated_at || b2 == pos);
        } else if b == pos {
            assert(n[a] == old_items[a2]);
        } else {
            assert(n[a] == old_items[a2] && n[b] == old_items[b2]);
        }
    }
}

/// A row that `uid` does not own leaves a list of the rows before it exact.
proof fn lemma_skip_row(items: Seq<PasswordListItem>, rows: Seq<PasswordRow>, i: int, uid: i64)
    requires
        0 <= i < rows.len(),
        rows[i].user_id != uid,
        from_rows(items, rows, i, uid),
        covers(items, rows, i, uid),
    ensures
        from_rows(items, rows, i + 1, uid),
        covers(items, rows, i + 1, uid),
{
    reveal(from_rows);
    reveal(covers);
    assert forall|k: int| 0 <= k < items.len() implies #[trigger] listed_from(items[k], rows, i + 1, uid) by {
        assert(listed_from(items[k], rows, i, uid));
        let j = choose|j: int| 0 <= j < i && rows[j].user_id == uid && #[trigger] listed(items[k], rows[j]);
        assert(0 <= j < i + 1 && rows[j].user_id == uid && listed(items[k], rows[j]));
    }
}

} // verus!
