//! Users, credentials, login throttling and session tokens.
//!
//! A user's long-lived secret is a 64-byte credential: a 32-byte data key and a
//! 32-byte salt. The login password only unwraps it. A token string carries
//! fresh key material that unwraps a second copy of the credential stored in
//! the token's row, so the password is not needed after login.

use vstd::prelude::*;
use vstd::slice::{slice_subrange, slice_to_vec};
use vstd::string::StringSliceAdditionalSpecFns;

use base64::prelude::BASE64_URL_SAFE_NO_PAD;
use base64::Engine;
use sha2::{Digest, Sha256};

use crate::db::{Database, StorageError};
use crate::encryption::ARGON2_MAX_LEN;
use crate::encryption::{CryptoError, EncryptionManager};
use crate::util::{random_bytes, timestamp};

verus! {

/// Length of a credential.
pub const CREDENTIAL_SIZE: usize = 64;

/// Length of each half of a credential.
pub const CREDENTIAL_HALF: usize = 32;

/// Length of a user's password salt.
pub const USER_SALT_SIZE: usize = 32;

/// Length of a decoded token string.
pub const TOKEN_SIZE: usize = 104;

/// Length of the part of a token that its tag covers.
pub const TOKEN_PREFIX_SIZE: usize = 72;

/// Failed logins that lock an account.
pub const MAX_LOGIN_ATTEMPT: i64 = 5;

/// Seconds an account stays locked.
pub const LOGIN_SUSPEND_DURATION: i64 = 300;

/// Seconds a token stays valid without use.
pub const TOKEN_IDLE_DURATION: i64 = 300;

#[derive(Clone, Copy, Debug, PartialEq, Eq, Structural)]
pub enum AuthError {
    /// An empty user name or password.
    InvalidArgument,
    /// The user name is taken.
    UserExists,
    /// Unknown user or wrong password.
    BadCredentials,
    /// Too many failed logins; try later.
    Throttled,
    /// The token is unknown, altered or expired.
    InvalidToken,
    /// A stored envelope could not be made or opened.
    Crypto(CryptoError),
    /// The store refused the write.
    Storage(StorageError),
    /// A record field did not open to UTF-8 text.
    NotText,
}

/// The SHA-256 digest of `data`.
pub uninterp spec fn sha256_of(data: Seq<u8>) -> Seq<u8>;

/// The URL-safe Base64 digit for a six-bit value: `A`-`Z`, `a`-`z`, `0`-`9`,
/// `-` and `_`.
pub open spec fn base64url_digit(v: int) -> char {
    if v < 26 {
        ((65 + v) as u8) as char
    } else if v < 52 {
        ((97 + v - 26) as u8) as char
    } else if v < 62 {
        ((48 + v - 52) as u8) as char
    } else if v == 62 {
        '-'
    } else {
        '_'
    }
}

/// The URL-safe Base64 text of `data`, without padding: four digits for each
/// three bytes, and two or three digits for a last group of one or two bytes.
pub open spec fn base64url_of(data: Seq<u8>) -> Seq<char>
    decreases data.len(),
{
    if data.len() == 0 {
        seq![]
    } else if data.len() == 1 {
        let a = data[0] as int;
        seq![base64url_digit(a / 4), base64url_digit((a % 4) * 16)]
    } else if data.len() == 2 {
        let a = data[0] as int;
        let b = data[1] as int;
        seq![
            base64url_digit(a / 4),
            base64url_digit((a % 4) * 16 + b / 16),
            base64url_digit((b % 16) * 4),
        ]
    } else {
        let a = data[0] as int;
        let b = data[1] as int;
        let c = data[2] as int;
        seq![
            base64url_digit(a / 4),
            base64url_digit((a % 4) * 16 + b / 16),
            base64url_digit((b % 16) * 4 + c / 64),
            base64url_digit(c % 64),
        ] + base64url_of(data.subrange(3, data.len() as int))
    }
}

/// The bytes that the URL-safe unpadded Base64 text `text` stands for, if any.
pub uninterp spec fn base64url_decoded(text: Seq<char>) -> Option<Seq<u8>>;

/// Relies on `Sha256::digest` (sha2): the 32-byte SHA-256 digest of `data`.
#[verifier::external_body]
fn sha256(data: &[u8]) -> (r: Vec<u8>)
    ensures
        r@ == sha256_of(data@),
        r@.len() == 32,
{
    Sha256::digest(data).to_vec()
}

/// Relies on `BASE64_URL_SAFE_NO_PAD.encode` (base64): the URL-safe alphabet,
/// no padding.
#[verifier::external_body]
fn base64url_encode(data: &[u8]) -> (r: String)
    ensures
        r@ == base64url_of(data@),
{
    BASE64_URL_SAFE_NO_PAD.encode(data)
}

/// Relies on `BASE64_URL_SAFE_NO_PAD.decode` (base64): the inverse of its `encode`.
#[verifier::external_body]
fn base64url_decode(text: &str) -> (r: Result<Vec<u8>, base64::DecodeError>)
    ensures
        r matches Ok(v) ==> base64url_decoded(text@) == Some(v@),
        r is Err ==> base64url_decoded(text@) is None,
        forall|b: Seq<u8>| #![trigger base64url_of(b)] text@ == base64url_of(b) ==> r is Ok,
        forall|b: Seq<u8>| #![trigger base64url_of(b)] r is Ok && text@ == base64url_of(b) ==> r->Ok_0@ == b,
{
    BASE64_URL_SAFE_NO_PAD.decode(text.as_bytes())
}

#[verifier::external_type_specification]
#[verifier::external_body]
pub struct ExDecodeError(base64::DecodeError);

/// The eight little-endian bytes of `x` in two's complement.
pub open spec fn i64_le(x: i64) -> Seq<u8> {
    let u = x as u64;
    seq![
        (u & 0xff) as u8,
        ((u >> 8u64) & 0xff) as u8,
        ((u >> 16u64) & 0xff) as u8,
        ((u >> 24u64) & 0xff) as u8,
        ((u >> 32u64) & 0xff) as u8,
        ((u >> 40u64) & 0xff) as u8,
        ((u >> 48u64) & 0xff) as u8,
        ((u >> 56u64) & 0xff) as u8,
    ]
}

/// The integer whose little-endian two's-complement bytes are `b[0..8]`.
pub open spec fn le_i64(b: Seq<u8>) -> i64 {
    ((b[0] as u64) | ((b[1] as u64) << 8u64) | ((b[2] as u64) << 16u64) | ((b[3] as u64) << 24u64)
        | ((b[4] as u64) << 32u64) | ((b[5] as u64) << 40u64) | ((b[6] as u64) << 48u64) | ((
    b[7] as u64) << 56u64)) as i64
}

/// Reading back the eight bytes written for `x` gives `x`.
pub proof fn lemma_i64_le_round_trip(x: i64)
    ensures
        le_i64(i64_le(x)) == x,
{
    let u = x as u64;
    let b = i64_le(x);
    let (b0, b1, b2, b3, b4, b5, b6, b7) = (b[0], b[1], b[2], b[3], b[4], b[5], b[6], b[7]);
    assert((b0 as u64) | ((b1 as u64) << 8u64) | ((b2 as u64) << 16u64) | ((b3 as u64) << 24u64) | ((
    b4 as u64) << 32u64) | ((b5 as u64) << 40u64) | ((b6 as u64) << 48u64) | ((b7 as u64) << 56u64)
        == u) by (bit_vector)
        requires
            b0 == (u & 0xff) as u8,
            b1 == ((u >> 8u64) & 0xff) as u8,
            b2 == ((u >> 16u64) & 0xff) as u8,
            b3 == ((u >> 24u64) & 0xff) as u8,
            b4 == ((u >> 32u64) & 0xff) as u8,
            b5 == ((u >> 40u64) & 0xff) as u8,
            b6 == ((u >> 48u64) & 0xff) as u8,
            b7 == ((u >> 56u64) & 0xff) as u8,
    ;
    assert(((x as u64) as i64) == x) by (bit_vector);
}

/// The part of a token that its tag covers: key, salt and row id.
pub open spec fn token_prefix(key: Seq<u8>, salt: Seq<u8>, id: i64) -> Seq<u8> {
    key + salt + i64_le(id)
}

/// The raw token for a row with id `id` holding the wrapped credential `wrapped`.
pub open spec fn token_bytes(key: Seq<u8>, salt: Seq<u8>, id: i64, wrapped: Seq<u8>) -> Seq<u8> {
    token_prefix(key, salt, id) + sha256_of(token_prefix(key, salt, id) + wrapped)
}

/// Whether `token` is the string minted with `key` and `salt` for the row with id
/// `id` holding `wrapped`.
pub open spec fn minted(token: Seq<char>, key: Seq<u8>, salt: Seq<u8>, id: i64, wrapped: Seq<u8>) -> bool {
    &&& key.len() == CREDENTIAL_HALF
    &&& salt.len() == CREDENTIAL_HALF
    &&& token_bytes(key, salt, id, wrapped).len() == TOKEN_SIZE
    &&& token == base64url_of(token_bytes(key, salt, id, wrapped))
}

/// The suspend value after a failed login at `now` from suspend value `s`.
pub open spec fn next_suspend(s: i64, now: i64) -> i64 {
    if s + 1 >= MAX_LOGIN_ATTEMPT {
        if now > i64::MAX - LOGIN_SUSPEND_DURATION {
            i64::MAX
        } else {
            (now + LOGIN_SUSPEND_DURATION) as i64
        }
    } else {
        (s + 1) as i64
    }
}

/// Whether a login at `now` is refused before the password is looked at.
pub open spec fn throttled(s: i64, now: i64) -> bool {
    s > now
}

/// The suspend value after a login attempt at `now` whose password was right
/// (`ok`) or wrong.
pub open spec fn suspend_after(s: i64, now: i64, ok: bool) -> i64 {
    if throttled(s, now) {
        s
    } else if ok {
        0
    } else {
        next_suspend(s, now)
    }
}

/// Five consecutive failed logins from a clean account, at non-decreasing times
/// from `MAX_LOGIN_ATTEMPT` seconds after the epoch on, each get past the lock
/// and lock the account after the fifth until `LOGIN_SUSPEND_DURATION` seconds
/// after it. A sixth attempt before then is refused unseen; one at or after
/// that time is judged on its password, and a right one clears the lock.
pub proof fn lemma_throttle(t1: i64, t2: i64, t3: i64, t4: i64, t5: i64, t6: i64)
    requires
        MAX_LOGIN_ATTEMPT <= t1 <= t2 <= t3 <= t4 <= t5 <= t6,
        t5 <= i64::MAX - LOGIN_SUSPEND_DURATION,
    ensures
        !throttled(0, t1),
        !throttled(suspend_after(0, t1, false), t2),
        !throttled(suspend_after(suspend_after(0, t1, false), t2, false), t3),
        !throttled(suspend_after(suspend_after(suspend_after(0, t1, false), t2, false), t3, false), t4),
        !throttled(
            suspend_after(suspend_after(suspend_after(suspend_after(0, t1, false), t2, false), t3, false), t4, false),
            t5,
        ),
        ({
            let s5 = suspend_after(
                suspend_after(suspend_after(suspend_after(suspend_after(0, t1, false), t2, false), t3, false), t4, false),
                t5,
                false,
            );
            &&& s5 == t5 + LOGIN_SUSPEND_DURATION
            &&& t6 < t5 + LOGIN_SUSPEND_DURATION ==> throttled(s5, t6) && suspend_after(s5, t6, true) == s5
            &&& t6 >= t5 + LOGIN_SUSPEND_DURATION ==> !throttled(s5, t6) && suspend_after(s5, t6, true) == 0
        }),
{
}

/// The bytes of a token minted for a row whose user exists pass every check
/// before the unwrap exactly while the row has not been idle for
/// `TOKEN_IDLE_DURATION` seconds.
pub proof fn lemma_minted_token_live(db: &Database, key: Seq<u8>, salt: Seq<u8>, id: i64, now: i64)
    requires
        db.wf(),
        db.token_with_id(id) is Some,
        db.user_with_id(db.tokens@[db.token_with_id(id)->Some_0].user_id) is Some,
        key.len() == CREDENTIAL_HALF,
        salt.len() == CREDENTIAL_HALF,
        token_bytes(key, salt, id, db.tokens@[db.token_with_id(id)->Some_0].credential@).len() == TOKEN_SIZE,
    ensures
        token_check(db, Some(token_bytes(key, salt, id, db.tokens@[db.token_with_id(id)->Some_0].credential@)), now)
            is Some <==> db.tokens@[db.token_with_id(id)->Some_0].last_active + TOKEN_IDLE_DURATION > now,
{
    let w = db.tokens@[db.token_with_id(id)->Some_0].credential@;
    let b = token_bytes(key, salt, id, w);
    let pre = token_prefix(key, salt, id);
    assert(b.subrange(0, 72) =~= pre);
    assert(b.subrange(72, 104) =~= sha256_of(pre + w));
    assert(pre.subrange(64, 72) =~= i64_le(id));
    assert(b.subrange(64, 72) =~= b.subrange(0, 72).subrange(64, 72));
    lemma_i64_le_round_trip(id);
}

/// A token whose 72-byte prefix names a row but whose tag is not the digest of
/// that prefix and the row's wrapped credential is refused at any time; in
/// particular any change to the tag of a minted token is.
pub proof fn lemma_altered_tag_refused(db: &Database, key: Seq<u8>, salt: Seq<u8>, id: i64, b: Seq<u8>, now: i64)
    requires
        db.wf(),
        db.token_with_id(id) is Some,
        key.len() == CREDENTIAL_HALF,
        salt.len() == CREDENTIAL_HALF,
        b.len() == TOKEN_SIZE,
        b.subrange(0, 72) == token_prefix(key, salt, id),
        b.subrange(72, 104) != sha256_of(
            token_prefix(key, salt, id) + db.tokens@[db.token_with_id(id)->Some_0].credential@,
        ),
    ensures
        token_check(db, Some(b), now) is None,
{
    let pre = token_prefix(key, salt, id);
    assert(pre.subrange(64, 72) =~= i64_le(id));
    assert(b.subrange(64, 72) =~= b.subrange(0, 72).subrange(64, 72));
    lemma_i64_le_round_trip(id);
}

/// A user's 64-byte secret: a data key followed by a salt.
#[derive(Debug)]
pub struct Credential(Vec<u8>);

impl View for Credential {
    type V = Seq<u8>;

    closed spec fn view(&self) -> Seq<u8> {
        self.0@
    }
}

impl Credential {
    #[verifier::type_invariant]
    spec fn inv(&self) -> bool {
        self.0@.len() == CREDENTIAL_SIZE
    }

    /// A fresh credential of random bytes.
    fn generate() -> (r: Self)
        ensures
            r@.len() == CREDENTIAL_SIZE,
    {
        Credential(random_bytes(CREDENTIAL_SIZE))
    }

    /// The credential made of `bytes`, if they are 64.
    fn from_bytes(bytes: Vec<u8>) -> (r: Option<Self>)
        ensures
            bytes@.len() == CREDENTIAL_SIZE <==> r is Some,
            r matches Some(c) ==> c@ == bytes@,
    {
        if bytes.len() == CREDENTIAL_SIZE {
            Some(Credential(bytes))
        } else {
            None
        }
    }

    /// The data key: the first 32 bytes.
    pub fn password(&self) -> (r: &[u8])
        ensures
            r@ == self@.subrange(0, CREDENTIAL_HALF as int),
    {
        proof {
            use_type_invariant(self);
        }
        slice_subrange(self.0.as_slice(), 0, CREDENTIAL_HALF)
    }

    /// The salt: the last 32 bytes.
    pub fn salt(&self) -> (r: &[u8])
        ensures
            r@ == self@.subrange(CREDENTIAL_HALF as int, CREDENTIAL_SIZE as int),
    {
        proof {
            use_type_invariant(self);
        }
        slice_subrange(self.0.as_slice(), CREDENTIAL_HALF, CREDENTIAL_SIZE)
    }
}

/// The 64 bytes of a credential: its data key followed by its salt.
pub fn to_vec(credential: &Credential) -> (r: Vec<u8>)
    ensures
        r@ == credential@,
{
    proof {
        use_type_invariant(credential);
    }
    let mut v: Vec<u8> = Vec::with_capacity(CREDENTIAL_SIZE);
    v.extend_from_slice(credential.password());
    v.extend_from_slice(credential.salt());
    assert(v@ =~= credential@);
    v
}

/// An authenticated user with the credential in the clear.
#[derive(Debug)]
pub struct User {
    id: i64,
    credential: Credential,
}

impl User {
    pub closed spec fn spec_id(&self) -> i64 {
        self.id
    }

    pub closed spec fn spec_credential(&self) -> Seq<u8> {
        self.credential@
    }

    pub fn id(&self) -> (r: i64)
        ensures
            r == self.spec_id(),
    {
        self.id
    }

    pub fn credential(&self) -> (r: &Credential)
        ensures
            r@ == self.spec_credential(),
            r@.len() == CREDENTIAL_SIZE,
    {
        proof {
            use_type_invariant(&self.credential);
        }
        &self.credential
    }
}

/// Login, account creation, session tokens and password rotation.
#[derive(Clone, Debug)]
pub struct UserManager {
    pub encryption: EncryptionManager,
}

/// Whether a decoded token is refused whatever the time: it is missing or not
/// 104 bytes long, names no token row, carries the wrong tag for that row, or
/// the row's user is gone.
pub open spec fn refused_whenever(db: &Database, decoded: Option<Seq<u8>>) -> bool {
    match decoded {
        None => true,
        Some(b) => b.len() != TOKEN_SIZE || match db.token_with_id(le_i64(b.subrange(64, 72))) {
            None => true,
            Some(ti) => sha256_of(b.subrange(0, 72) + db.tokens@[ti].credential@) != b.subrange(72, 104)
                || db.user_with_id(db.tokens@[ti].user_id) is None,
        },
    }
}

/// The outcome of checking a decoded token against the store, before its
/// wrapped credential is opened: the positions of its token row and its user.
pub open spec fn token_check(db: &Database, decoded: Option<Seq<u8>>, now: i64) -> Option<(int, int)> {
    match decoded {
        None => None,
        Some(b) => if b.len() != TOKEN_SIZE {
            None
        } else {
            match db.token_with_id(le_i64(b.subrange(64, 72))) {
                None => None,
                Some(ti) => {
                    let row = db.tokens@[ti];
                    if sha256_of(b.subrange(0, 72) + row.credential@) != b.subrange(72, 104) {
                        None
                    } else if row.last_active + TOKEN_IDLE_DURATION <= now {
                        None
                    } else {
                        match db.user_with_id(row.user_id) {
                            None => None,
                            Some(ui) => Some((ti, ui)),
                        }
                    }
                },
            }
        },
    }
}

impl UserManager {
    pub open spec fn wf(&self) -> bool {
        self.encryption.wf()
    }

    /// What the wrapped credential of user `i` opens to under `password`.
    pub open spec fn unwrap_user(&self, db: &Database, i: int, password: Seq<u8>) -> Result<Seq<u8>, CryptoError> {
        self.encryption.spec_decrypt(db.users@[i].credential@, password, db.users@[i].salt@)
    }

    /// Whether `password` opens user `i`'s wrapped credential to 64 bytes.
    pub open spec fn password_opens(&self, db: &Database, i: int, password: Seq<u8>) -> bool {
        self.unwrap_user(db, i, password) matches Ok(p) && p.len() == CREDENTIAL_SIZE
    }

    pub fn new(encryption: EncryptionManager) -> (r: Self)
        ensures
            r.encryption == encryption,
    {
        UserManager { encryption }
    }

    /// Logs in at the current time: `login_at` at the time the clock reads.
    pub fn login(&self, db: &mut Database, username: &str, password: &str) -> (r: Result<User, AuthError>)
        requires
            self.wf(),
            old(db).wf(),
        ensures
            final(db).wf(),
            exists|now: i64| #[trigger] self.login_done(old(db), final(db), username, password, now, r),
            old(db).user_named(username@) is None ==> r == Err::<User, _>(AuthError::BadCredentials)
                && *final(db) == *old(db),
            old(db).user_named(username@) matches Some(i) ==> ({
                let pw = password.spec_bytes();
                &&& !self.password_opens(old(db), i, pw) ==> r is Err
                &&& r matches Ok(u) ==> u.spec_id() == old(db).users@[i].id && u.spec_credential()
                    == self.unwrap_user(old(db), i, pw)->Ok_0
                &&& *final(db) == *old(db) || Database::suspend_set(
                    old(db),
                    final(db),
                    i,
                    final(db).users@[i].suspend,
                )
            }),
    {
        let now = timestamp();
        let r = self.login_at(db, username, password, now);
        proof {
            assert(self.login_done(old(db), final(db), username, password, now, r));
        }
        r
    }

    /// What a login at `now` returns and does to the store.
    pub open spec fn login_done(
        &self,
        old_db: &Database,
        new_db: &Database,
        username: &str,
        password: &str,
        now: i64,
        r: Result<User, AuthError>,
    ) -> bool {
        &&& (old_db.user_named(username@) is None ==> r == Err::<User, _>(AuthError::BadCredentials)
            && *new_db == *old_db)
        &&& (old_db.user_named(username@) matches Some(i) ==> ({
            let row = old_db.users@[i];
            let pw = password.spec_bytes();
            &&& throttled(row.suspend, now) ==> r == Err::<User, _>(AuthError::Throttled) && *new_db
                == *old_db
            &&& !throttled(row.suspend, now) && self.password_opens(old_db, i, pw) ==> (r matches Ok(u)
                && u.spec_id() == row.id && u.spec_credential() == self.unwrap_user(old_db, i, pw)->Ok_0
                && Database::suspend_set(old_db, new_db, i, 0))
            &&& !throttled(row.suspend, now) && !self.password_opens(old_db, i, pw) ==> r == Err::<
                User,
                _,
            >(AuthError::BadCredentials) && Database::suspend_set(
                old_db,
                new_db,
                i,
                next_suspend(row.suspend, now),
            )
            &&& forall|c: Seq<u8>|
                !throttled(row.suspend, now) && c.len() == CREDENTIAL_SIZE
                    && #[trigger] self.encryption.is_envelope_of(row.credential@, c, pw, row.salt@)
                    ==> (r matches Ok(u) && u.spec_credential() == c)
        }))
    }

    /// Logs in at time `now`. A locked account is refused before its password
    /// is tried; a wrong password counts a failure and locks the account at the
    /// fifth; a right one clears the count.
    pub fn login_at(&self, db: &mut Database, username: &str, password: &str, now: i64) -> (r: Result<
        User,
        AuthError,
    >)
        requires
            self.wf(),
            old(db).wf(),
        ensures
            final(db).wf(),
            self.login_done(old(db), final(db), username, password, now, r),
    {
        let i = match db.find_user_by_name(username) {
            Some(i) => i,
            None => return Err(AuthError::BadCredentials),
        };
        let suspend = db.users[i].suspend;
        let id = db.users[i].id;
        if suspend > now {
            return Err(AuthError::Throttled);
        }
        let opened = self.encryption.decrypt(
            db.users[i].credential.as_slice(),
            password.as_bytes(),
            db.users[i].salt.as_slice(),
        );
        let cred = match opened {
            Ok(p) => Credential::from_bytes(p),
            Err(_) => None,
        };
        match cred {
            Some(c) => {
                db.set_user_suspend(i, 0);
                Ok(User { id, credential: c })
            },
            None => {
                let next = if suspend >= MAX_LOGIN_ATTEMPT - 1 {
                    if now > i64::MAX - LOGIN_SUSPEND_DURATION {
                        i64::MAX
                    } else {
                        now + LOGIN_SUSPEND_DURATION
                    }
                } else {
                    suspend + 1
                };
                db.set_user_suspend(i, next);
                Err(AuthError::BadCredentials)
            },
        }
    }

    /// Creates a user at the current time: `create_user_at` at the time the
    /// clock reads.
    pub fn create_user(&self, db: &mut Database, username: &str, password: &str) -> (r: Result<User, AuthError>)
        requires
            self.wf(),
            old(db).wf(),
        ensures
            final(db).wf(),
            exists|now: i64| #[trigger] self.create_user_done(old(db), final(db), username, password, now, r),
            r is Err ==> *final(db) == *old(db),
            username@.len() == 0 || password@.len() == 0 ==> r == Err::<User, _>(
                AuthError::InvalidArgument,
            ),
            username@.len() > 0 && password@.len() > 0 && old(db).user_named(username@) is Some ==> r
                == Err::<User, _>(AuthError::UserExists),
            username@.len() > 0 && password@.len() > 0 && old(db).user_named(username@) is None
                && password.spec_bytes().len() <= ARGON2_MAX_LEN && old(db).next_user_id < i64::MAX ==> r is Ok,
            r matches Ok(u) ==> ({
                let row = final(db).users@.last();
                &&& final(db).users@.len() == old(db).users@.len() + 1
                &&& final(db).users@.subrange(0, old(db).users@.len() as int) == old(db).users@
                &&& final(db).tokens@ == old(db).tokens@
                &&& final(db).passwords@ == old(db).passwords@
                &&& row.username@ == username@
                &&& row.id == u.spec_id()
                &&& row.suspend == 0
                &&& row.salt@.len() == USER_SALT_SIZE
                &&& self.encryption.is_envelope_of(row.credential@, u.spec_credential(), password.spec_bytes(), row.salt@)
            }),
    {
        let now = timestamp();
        let r = self.create_user_at(db, username, password, now);
        proof {
            assert(self.create_user_done(old(db), final(db), username, password, now, r));
        }
        r
    }

    /// What creating a user at `now` returns and does to the store.
    pub open spec fn create_user_done(
        &self,
        old_db: &Database,
        new_db: &Database,
        username: &str,
        password: &str,
        now: i64,
        r: Result<User, AuthError>,
    ) -> bool {
        &&& (r is Err ==> *new_db == *old_db)
        &&& (username@.len() == 0 || password@.len() == 0 ==> r == Err::<User, _>(
            AuthError::InvalidArgument,
        ))
        &&& (username@.len() > 0 && password@.len() > 0 && old_db.user_named(username@) is Some ==> r
            == Err::<User, _>(AuthError::UserExists))
        &&& (username@.len() > 0 && password@.len() > 0 && old_db.user_named(username@) is None ==> ({
            &&& password.spec_bytes().len() > ARGON2_MAX_LEN ==> r == Err::<User, _>(
                AuthError::Crypto(CryptoError::KeyDerivation),
            )
            &&& password.spec_bytes().len() <= ARGON2_MAX_LEN && old_db.next_user_id == i64::MAX
                ==> r == Err::<User, _>(AuthError::Storage(StorageError::IdsExhausted))
            &&& password.spec_bytes().len() <= ARGON2_MAX_LEN && old_db.next_user_id < i64::MAX
                ==> r is Ok
        }))
        &&& (r matches Ok(u) ==> ({
            let row = new_db.users@.last();
            &&& u.spec_id() == old_db.next_user_id
            &&& u.spec_credential().len() == CREDENTIAL_SIZE
            &&& new_db.users@.len() == old_db.users@.len() + 1
            &&& new_db.users@.subrange(0, old_db.users@.len() as int) == old_db.users@
            &&& row.id == u.spec_id()
            &&& row.username@ == username@
            &&& row.suspend == 0
            &&& row.created_at == now
            &&& row.salt@.len() == USER_SALT_SIZE
            &&& self.encryption.is_envelope_of(
                row.credential@,
                u.spec_credential(),
                password.spec_bytes(),
                row.salt@,
            )
            &&& new_db.tokens@ == old_db.tokens@
            &&& new_db.passwords@ == old_db.passwords@
        }))
    }

    /// Creates a user with a fresh credential, wrapped under `password` and a
    /// fresh salt. An empty name or password is refused, and so is a taken name.
    pub fn create_user_at(&self, db: &mut Database, username: &str, password: &str, now: i64) -> (r:
        Result<User, AuthError>)
        requires
            self.wf(),
            old(db).wf(),
        ensures
            final(db).wf(),
            self.create_user_done(old(db), final(db), username, password, now, r),
    {
        if username.is_empty() || password.is_empty() {
            return Err(AuthError::InvalidArgument);
        }
        if db.find_user_by_name(username).is_some() {
            return Err(AuthError::UserExists);
        }
        let credential = Credential::generate();
        let salt = random_bytes(USER_SALT_SIZE);
        let plain = to_vec(&credential);
        let wrapped = match self.encryption.encrypt(plain.as_slice(), password.as_bytes(), salt.as_slice()) {
            Ok(w) => w,
            Err(e) => return Err(AuthError::Crypto(e)),
        };
        let id = match db.insert_user(username.to_owned(), salt, wrapped, now) {
            Ok(id) => id,
            Err(e) => return Err(AuthError::Storage(e)),
        };
        Ok(User { id, credential })
    }

    /// Mints a token for `user` at the current time: `create_token_at` at the
    /// time the clock reads.
    pub fn create_token(&self, db: &mut Database, user: &User) -> (r: Result<String, AuthError>)
        requires
            self.wf(),
            old(db).wf(),
        ensures
            final(db).wf(),
            exists|now: i64| #[trigger] self.create_token_done(old(db), final(db), user, now, r),
            r is Err <==> old(db).next_token_id == i64::MAX,
            r matches Ok(t) ==> final(db).tokens@.last().user_id == user.spec_id() && exists|
                key: Seq<u8>,
                salt: Seq<u8>,
            |
                minted(t@, key, salt, final(db).tokens@.last().id, final(db).tokens@.last().credential@)
                    && #[trigger] self.encryption.is_envelope_of(
                    final(db).tokens@.last().credential@,
                    user.spec_credential(),
                    key,
                    salt,
                ),
    {
        let now = timestamp();
        let r = self.create_token_at(db, user, now);
        proof {
            assert(self.create_token_done(old(db), final(db), user, now, r));
        }
        r
    }

    /// What minting a token at `now` returns and does to the store.
    pub open spec fn create_token_done(
        &self,
        old_db: &Database,
        new_db: &Database,
        user: &User,
        now: i64,
        r: Result<String, AuthError>,
    ) -> bool {
        &&& (r is Err <==> old_db.next_token_id == i64::MAX)
        &&& (r is Err ==> r == Err::<String, _>(AuthError::Storage(StorageError::IdsExhausted))
            && *new_db == *old_db)
        &&& (r matches Ok(t) ==> ({
            let row = new_db.tokens@.last();
            &&& new_db.tokens@.len() == old_db.tokens@.len() + 1
            &&& new_db.tokens@.subrange(0, old_db.tokens@.len() as int) == old_db.tokens@
            &&& row.id == old_db.next_token_id
            &&& row.user_id == user.spec_id()
            &&& row.last_active == now
            &&& row.created_at == now
            &&& new_db.users@ == old_db.users@
            &&& new_db.passwords@ == old_db.passwords@
            &&& exists|key: Seq<u8>, salt: Seq<u8>|
                minted(t@, key, salt, row.id, row.credential@)
                    && #[trigger] self.encryption.is_envelope_of(row.credential@, user.spec_credential(), key, salt)
        }))
    }

    /// Mints a token for `user`: a fresh key and salt wrap a copy of the user's
    /// credential in a new token row, and the token string carries that key,
    /// salt and row id, tagged with a digest that also covers the wrapped copy.
    pub fn create_token_at(&self, db: &mut Database, user: &User, now: i64) -> (r: Result<String, AuthError>)
        requires
            self.wf(),
            old(db).wf(),
        ensures
            final(db).wf(),
            self.create_token_done(old(db), final(db), user, now, r),
    {
        let token = Credential::generate();
        let plain = to_vec(user.credential());
        proof {
            use_type_invariant(&user.credential);
            assert(forall|e: crate::encryption::Encryptor| e.spec_key_size() == 32 && e.spec_max_plaintext() >= 64);
        }
        let wrapped = match self.encryption.encrypt(plain.as_slice(), token.password(), token.salt()) {
            Ok(w) => w,
            Err(e) => return Err(AuthError::Crypto(e)),
        };
        let id = db.next_token_id;
        let mut bytes: Vec<u8> = Vec::with_capacity(TOKEN_SIZE);
        bytes.extend_from_slice(token.password());
        bytes.extend_from_slice(token.salt());
        push_i64_le(&mut bytes, id);
        let ghost prefix = bytes@;
        let mut covered = slice_to_vec(bytes.as_slice());
        covered.extend_from_slice(wrapped.as_slice());
        let tag = sha256(covered.as_slice());
        bytes.extend_from_slice(tag.as_slice());
        let ghost key = token@.subrange(0, 32);
        let ghost salt = token@.subrange(32, 64);
        proof {
            assert(prefix =~= token_prefix(key, salt, id));
            assert(covered@ =~= token_prefix(key, salt, id) + wrapped@);
            assert(bytes@ =~= token_bytes(key, salt, id, wrapped@));
        }
        let ghost w = wrapped@;
        match db.insert_token(user.id(), wrapped, now) {
            Ok(_) => {},
            Err(e) => return Err(AuthError::Storage(e)),
        }
        let text = base64url_encode(bytes.as_slice());
        proof {
            assert(minted(text@, key, salt, id, w));
        }
        Ok(text)
    }

    /// Finds the user of a token at the current time: `find_user_at` at the
    /// time the clock reads. A token refused whatever the time is refused
    /// with the store left as it was.
    pub fn find_user(&self, db: &mut Database, token: &str) -> (r: Result<User, AuthError>)
        requires
            self.wf(),
            old(db).wf(),
        ensures
            final(db).wf(),
            exists|now: i64| #[trigger] self.find_user_done(old(db), final(db), token, now, r),
            forall|b: Seq<u8>| token@ == #[trigger] base64url_of(b) ==> base64url_decoded(token@) == Some(b),
            refused_whenever(old(db), base64url_decoded(token@)) ==> r == Err::<User, _>(
                AuthError::InvalidToken,
            ) && *final(db) == *old(db),
            r matches Ok(u) ==> old(db).token_with_id(le_i64(base64url_decoded(token@)->Some_0.subrange(64, 72)))
                matches Some(ti) && u.spec_id() == old(db).tokens@[ti].user_id,
    {
        let now = timestamp();
        let r = self.find_user_at(db, token, now);
        proof {
            assert(self.find_user_done(old(db), final(db), token, now, r));
        }
        r
    }

    /// What looking up the user of a token at `now` returns and does to the store.
    pub open spec fn find_user_done(
        &self,
        old_db: &Database,
        new_db: &Database,
        token: &str,
        now: i64,
        r: Result<User, AuthError>,
    ) -> bool {
        &&& (token_check(old_db, base64url_decoded(token@), now) is None ==> r == Err::<User, _>(
            AuthError::InvalidToken,
        ) && *new_db == *old_db)
        &&& (token_check(old_db, base64url_decoded(token@), now) matches Some((ti, ui)) ==> ({
            let b = base64url_decoded(token@)->Some_0;
            let opened = self.encryption.spec_decrypt(
                old_db.tokens@[ti].credential@,
                b.subrange(0, 32),
                b.subrange(32, 64),
            );
            &&& opened is Err ==> r == Err::<User, _>(AuthError::Crypto(opened->Err_0)) && *new_db
                == *old_db
            &&& opened is Ok && opened->Ok_0.len() != CREDENTIAL_SIZE ==> r == Err::<User, _>(
                AuthError::InvalidToken,
            ) && *new_db == *old_db
            &&& opened is Ok && opened->Ok_0.len() == CREDENTIAL_SIZE ==> (r matches Ok(u) && u.spec_id()
                == old_db.users@[ui].id && u.spec_credential() == opened->Ok_0 && Self::touched(
                old_db,
                new_db,
                ti,
                now,
            ))
        }))
        &&& (forall|key: Seq<u8>, salt: Seq<u8>, id: i64, c: Seq<u8>|
            #[trigger] self.live_token(old_db, token@, key, salt, id, c, now) ==> (r matches Ok(u)
                && u.spec_id() == old_db.tokens@[old_db.token_with_id(id)->Some_0].user_id
                && u.spec_credential() == c))
    }

    /// Finds the user of a token at time `now`; a token that leads to no user
    /// is `InvalidToken`.
    pub fn find_user_at(&self, db: &mut Database, token: &str, now: i64) -> (r: Result<User, AuthError>)
        requires
            self.wf(),
            old(db).wf(),
        ensures
            final(db).wf(),
            forall|b: Seq<u8>| token@ == #[trigger] base64url_of(b) ==> base64url_decoded(token@) == Some(b),
            self.find_user_done(old(db), final(db), token, now, r),
    {
        match self.find_user_optional_at(db, token, now) {
            Ok(Some(u)) => Ok(u),
            Ok(None) => Err(AuthError::InvalidToken),
            Err(e) => Err(e),
        }
    }

    /// Whether `token` was minted with `key` and `salt` for token row `id`, that
    /// row holds an envelope of `c` under them, it has not been idle at `now`, and
    /// its user exists.
    pub open spec fn live_token(
        &self,
        db: &Database,
        token: Seq<char>,
        key: Seq<u8>,
        salt: Seq<u8>,
        id: i64,
        c: Seq<u8>,
        now: i64,
    ) -> bool {
        &&& db.token_with_id(id) is Some
        &&& minted(token, key, salt, id, db.tokens@[db.token_with_id(id)->Some_0].credential@)
        &&& db.tokens@[db.token_with_id(id)->Some_0].last_active + TOKEN_IDLE_DURATION > now
        &&& db.user_with_id(db.tokens@[db.token_with_id(id)->Some_0].user_id) is Some
        &&& c.len() == CREDENTIAL_SIZE
        &&& self.encryption.is_envelope_of(db.tokens@[db.token_with_id(id)->Some_0].credential@, c, key, salt)
    }

    /// Whether `new` is `old` with only the last-active time of token `ti` set to `now`.
    pub open spec fn touched(old: &Database, new: &Database, ti: int, now: i64) -> bool {
        &&& new.wf()
        &&& new.users@ == old.users@
        &&& new.passwords@ == old.passwords@
        &&& new.next_user_id == old.next_user_id
        &&& new.next_token_id == old.next_token_id
        &&& new.next_password_id == old.next_password_id
        &&& new.tokens@.len() == old.tokens@.len()
        &&& forall|j: int| 0 <= j < old.tokens@.len() && j != ti ==> #[trigger] new.tokens@[j] == old.tokens@[j]
        &&& new.tokens@[ti].last_active == now
        &&& new.tokens@[ti].id == old.tokens@[ti].id
        &&& new.tokens@[ti].user_id == old.tokens@[ti].user_id
        &&& new.tokens@[ti].credential@ == old.tokens@[ti].credential@
        &&& new.tokens@[ti].created_at == old.tokens@[ti].created_at
    }

    /// Finds the user of a token at the current time: `find_user_optional_at`
    /// at the time the clock reads. A token refused whatever the time gives
    /// `None` with the store left as it was.
    pub fn find_user_optional(&self, db: &mut Database, token: &str) -> (r: Result<Option<User>, AuthError>)
        requires
            self.wf(),
            old(db).wf(),
        ensures
            final(db).wf(),
            exists|now: i64| #[trigger] self.find_user_optional_done(old(db), final(db), token, now, r),
            forall|b: Seq<u8>| token@ == #[trigger] base64url_of(b) ==> base64url_decoded(token@) == Some(b),
            refused_whenever(old(db), base64url_decoded(token@)) ==> (r matches Ok(None) && *final(db)
                == *old(db)),
            r matches Ok(Some(u)) ==> old(db).token_with_id(le_i64(base64url_decoded(token@)->Some_0.subrange(64, 72)))
                matches Some(ti) && u.spec_id() == old(db).tokens@[ti].user_id,
    {
        let now = timestamp();
        let r = self.find_user_optional_at(db, token, now);
        proof {
            assert(self.find_user_optional_done(old(db), final(db), token, now, r));
        }
        r
    }

    /// What looking up the user of a token at `now` returns and does to the store, `None` standing for a refused token.
    pub open spec fn find_user_optional_done(
        &self,
        old_db: &Database,
        new_db: &Database,
        token: &str,
        now: i64,
        r: Result<Option<User>, AuthError>,
    ) -> bool {
        &&& (token_check(old_db, base64url_decoded(token@), now) is None ==> (r matches Ok(None)
            && *new_db == *old_db))
        &&& (token_check(old_db, base64url_decoded(token@), now) matches Some((ti, ui)) ==> ({
            let b = base64url_decoded(token@)->Some_0;
            let opened = self.encryption.spec_decrypt(
                old_db.tokens@[ti].credential@,
                b.subrange(0, 32),
                b.subrange(32, 64),
            );
            &&& opened is Err ==> r == Err::<Option<User>, _>(AuthError::Crypto(opened->Err_0))
                && *new_db == *old_db
            &&& opened is Ok && opened->Ok_0.len() != CREDENTIAL_SIZE ==> (r matches Ok(None) && *new_db
                == *old_db)
            &&& opened is Ok && opened->Ok_0.len() == CREDENTIAL_SIZE ==> (r matches Ok(Some(u))
                && u.spec_id() == old_db.users@[ui].id && u.spec_credential() == opened->Ok_0 && Self::touched(
                old_db,
                new_db,
                ti,
                now,
            ))
        }))
        &&& (forall|key: Seq<u8>, salt: Seq<u8>, id: i64, c: Seq<u8>|
            #[trigger] self.live_token(old_db, token@, key, salt, id, c, now) ==> (r matches Ok(Some(u))
                && u.spec_id() == old_db.tokens@[old_db.token_with_id(id)->Some_0].user_id
                && u.spec_credential() == c))
    }

    /// Finds the user of a token at time `now`: the token must decode to 104
    /// bytes, name a token row, carry the right tag for that row and not have
    /// been idle for `TOKEN_IDLE_DURATION` seconds; its key and salt then open
    /// the row's copy of the credential, and the row's last-active time is set
    /// to `now`.
    pub fn find_user_optional_at(&self, db: &mut Database, token: &str, now: i64) -> (r: Result<
        Option<User>,
        AuthError,
    >)
        requires
            self.wf(),
            old(db).wf(),
        ensures
            final(db).wf(),
            forall|b: Seq<u8>| token@ == #[trigger] base64url_of(b) ==> base64url_decoded(token@) == Some(b),
            self.find_user_optional_done(old(db), final(db), token, now, r),
    {
        let ghost decoded = base64url_decoded(token@);
        let bytes = match base64url_decode(token) {
            Ok(b) => b,
            Err(_) => return Ok(None),
        };
        if bytes.len() != TOKEN_SIZE {
            return Ok(None);
        }
        let b = bytes.as_slice();
        let id = read_i64_le(b, 64);
        proof {
            assert forall|key: Seq<u8>, salt: Seq<u8>, id2: i64, c: Seq<u8>|
                #[trigger] self.live_token(old(db), token@, key, salt, id2, c, now) implies id2 == id
                && bytes@ == token_bytes(
                    key,
                    salt,
                    id2,
                    old(db).tokens@[old(db).token_with_id(id2)->Some_0].credential@,
                ) by {
                let w = old(db).tokens@[old(db).token_with_id(id2)->Some_0].credential@;
                let tb = token_bytes(key, salt, id2, w);
                assert(token@ == base64url_of(tb));
                assert(bytes@ == tb);
                assert(tb.subrange(64, 72) =~= i64_le(id2));
                lemma_i64_le_round_trip(id2);
            }
        }
        let ti = match db.find_token(id) {
            Some(ti) => ti,
            None => return Ok(None),
        };
        let mut covered = slice_to_vec(slice_subrange(b, 0, TOKEN_PREFIX_SIZE));
        covered.extend_from_slice(db.tokens[ti].credential.as_slice());
        let tag = sha256(covered.as_slice());
        let given = slice_subrange(b, TOKEN_PREFIX_SIZE, TOKEN_SIZE);
        proof {
            assert(covered@ =~= b@.subrange(0, 72) + db.tokens@[ti as int].credential@);
            assert forall|key: Seq<u8>, salt: Seq<u8>, id2: i64, c: Seq<u8>|
                #[trigger] self.live_token(old(db), token@, key, salt, id2, c, now) implies tag@ == given@
                && key == b@.subrange(0, 32) && salt == b@.subrange(32, 64) by {
                let w = db.tokens@[ti as int].credential@;
                let pre = token_prefix(key, salt, id2);
                assert(b@.subrange(0, 72) =~= pre);
                assert(b@.subrange(72, 104) =~= sha256_of(pre + w));
                assert(b@.subrange(0, 32) =~= key);
                assert(b@.subrange(32, 64) =~= salt);
            }
        }
        if !same_bytes(tag.as_slice(), given) {
            return Ok(None);
        }
        let last_active = db.tokens[ti].last_active;
        if last_active as i128 + TOKEN_IDLE_DURATION as i128 <= now as i128 {
            return Ok(None);
        }
        let ui = match db.find_user_by_id(db.tokens[ti].user_id) {
            Some(ui) => ui,
            None => return Ok(None),
        };
        let user_id = db.users[ui].id;
        let opened = self.encryption.decrypt(
            db.tokens[ti].credential.as_slice(),
            slice_subrange(b, 0, 32),
            slice_subrange(b, 32, 64),
        );
        let plain = match opened {
            Ok(p) => p,
            Err(e) => return Err(AuthError::Crypto(e)),
        };
        let credential = match Credential::from_bytes(plain) {
            Some(c) => c,
            None => return Ok(None),
        };
        db.set_token_active(ti, now);
        Ok(Some(User { id: user_id, credential }))
    }

    /// Re-wraps the user's credential under `new_password` and a fresh salt,
    /// once `old_password` has opened it. The credential itself, the tokens and
    /// the records are left as they are, so both stay readable.
    pub fn change_password(&self, db: &mut Database, user: &User, old_password: &str, new_password: &str) -> (r:
        Result<(), AuthError>)
        requires
            self.wf(),
            old(db).wf(),
        ensures
            final(db).wf(),
            r is Err ==> *final(db) == *old(db),
            old(db).user_with_id(user.spec_id()) is None ==> r == Err::<(), _>(AuthError::BadCredentials),
            old(db).user_with_id(user.spec_id()) matches Some(i) ==> ({
                let row = old(db).users@[i];
                let old_pw = old_password.spec_bytes();
                let new_pw = new_password.spec_bytes();
                &&& !self.password_opens(old(db), i, old_pw) ==> r == Err::<(), _>(AuthError::BadCredentials)
                &&& self.password_opens(old(db), i, old_pw) && new_pw.len() > ARGON2_MAX_LEN ==> r == Err::<
                    (),
                    _,
                >(AuthError::Crypto(CryptoError::KeyDerivation))
                &&& self.password_opens(old(db), i, old_pw) && new_pw.len() <= ARGON2_MAX_LEN ==> r is Ok
                &&& forall|c: Seq<u8>|
                    c.len() == CREDENTIAL_SIZE && new_pw.len() <= ARGON2_MAX_LEN
                        && #[trigger] self.encryption.is_envelope_of(row.credential@, c, old_pw, row.salt@) ==> r is Ok
                &&& r is Ok ==> forall|t: Seq<char>, key: Seq<u8>, salt: Seq<u8>, id: i64, c: Seq<u8>, at: i64|
                    #[trigger] self.live_token(old(db), t, key, salt, id, c, at) ==> self.live_token(
                        final(db),
                        t,
                        key,
                        salt,
                        id,
                        c,
                        at,
                    )
                &&& r is Ok ==> ({
                    let new_row = final(db).users@[i];
                    &&& final(db).tokens@ == old(db).tokens@
                    &&& final(db).passwords@ == old(db).passwords@
                    &&& final(db).users@.len() == old(db).users@.len()
                    &&& forall|j: int| 0 <= j < old(db).users@.len() && j != i ==> #[trigger] final(db).users@[j] == old(db).users@[j]
                    &&& new_row.id == row.id
                    &&& new_row.username@ == row.username@
                    &&& new_row.suspend == row.suspend
                    &&& new_row.created_at == row.created_at
                    &&& new_row.salt@.len() == USER_SALT_SIZE
                    &&& self.encryption.is_envelope_of(
                        new_row.credential@,
                        self.unwrap_user(old(db), i, old_pw)->Ok_0,
                        new_pw,
                        new_row.salt@,
                    )
                    &&& forall|c: Seq<u8>|
                        #[trigger] self.encryption.is_envelope_of(row.credential@, c, old_pw, row.salt@)
                            ==> self.encryption.is_envelope_of(new_row.credential@, c, new_pw, new_row.salt@)
                })
            }),
    {
        let i = match db.find_user_by_id(user.id()) {
            Some(i) => i,
            None => return Err(AuthError::BadCredentials),
        };
        let opened = self.encryption.decrypt(
            db.users[i].credential.as_slice(),
            old_password.as_bytes(),
            db.users[i].salt.as_slice(),
        );
        let plain = match opened {
            Ok(p) => p,
            Err(_) => return Err(AuthError::BadCredentials),
        };
        if plain.len() != CREDENTIAL_SIZE {
            return Err(AuthError::BadCredentials);
        }
        proof {
            assert(forall|e: crate::encryption::Encryptor| e.spec_key_size() == 32 && e.spec_max_plaintext() >= 64);
        }
        let salt = random_bytes(USER_SALT_SIZE);
        let wrapped = match self.encryption.encrypt(plain.as_slice(), new_password.as_bytes(), salt.as_slice()) {
            Ok(w) => w,
            Err(e) => return Err(AuthError::Crypto(e)),
        };
        db.set_user_secret(i, salt, wrapped);
        proof {
            assert forall|uid: i64| #[trigger] db.user_with_id(uid) == old(db).user_with_id(uid) by {
                assert forall|k: int| 0 <= k < db.users@.len() implies #[trigger] db.users@[k].id
                    == old(db).users@[k].id by {}
                if old(db).user_with_id(uid) is Some {
                    let k = choose|k: int| 0 <= k < old(db).users@.len() && #[trigger] old(db).users@[k].id == uid;
                    assert(db.users@[k].id == uid);
                }
                if db.user_with_id(uid) is Some {
                    let k = choose|k: int| 0 <= k < db.users@.len() && #[trigger] db.users@[k].id == uid;
                    assert(old(db).users@[k].id == uid);
                }
                assert((|k: int| 0 <= k < db.users@.len() && db.users@[k].id == uid) =~= (|k: int|
                    0 <= k < old(db).users@.len() && old(db).users@[k].id == uid));
            }
        }
        Ok(())
    }
}

/// Appends the eight little-endian bytes of `x`.
fn push_i64_le(v: &mut Vec<u8>, x: i64)
    ensures
        final(v)@ == old(v)@ + i64_le(x),
{
    let u = x as u64;
    v.push((u & 0xff) as u8);
    v.push(((u >> 8u64) & 0xff) as u8);
    v.push(((u >> 16u64) & 0xff) as u8);
    v.push(((u >> 24u64) & 0xff) as u8);
    v.push(((u >> 32u64) & 0xff) as u8);
    v.push(((u >> 40u64) & 0xff) as u8);
    v.push(((u >> 48u64) & 0xff) as u8);
    v.push(((u >> 56u64) & 0xff) as u8);
    assert(final(v)@ =~= old(v)@ + i64_le(x));
}

/// The integer whose little-endian bytes are `b[at..at + 8]`.
fn read_i64_le(b: &[u8], at: usize) -> (r: i64)
    requires
        at + 8 <= b@.len(),
    ensures
        r == le_i64(b@.subrange(at as int, at + 8)),
{
    let ghost s = b@.subrange(at as int, at + 8);
    assert(s[0] == b@[at as int] && s[1] == b@[at + 1] && s[2] == b@[at + 2] && s[3] == b@[at + 3]
        && s[4] == b@[at + 4] && s[5] == b@[at + 5] && s[6] == b@[at + 6] && s[7] == b@[at + 7]);
    ((b[at] as u64) | ((b[at + 1] as u64) << 8u64) | ((b[at + 2] as u64) << 16u64) | ((b[at + 3] as u64)
        << 24u64) | ((b[at + 4] as u64) << 32u64) | ((b[at + 5] as u64) << 40u64) | ((b[at + 6] as u64)
        << 48u64) | ((b[at + 7] as u64) << 56u64)) as i64
}

/// Whether two byte strings are equal.
fn same_bytes(a: &[u8], b: &[u8]) -> (r: bool)
    ensures
        r == (a@ == b@),
{
    if a.len() != b.len() {
        return false;
    }
    let mut i: usize = 0;
    while i < a.len()
        invariant
            a@.len() == b@.len(),
            0 <= i <= a@.len(),
            forall|j: int| 0 <= j < i ==> a@[j] == b@[j],
        decreases a@.len() - i,
    {
        if a[i] != b[i] {
            return false;
        }
        i = i + 1;
    }
    assert(a@ =~= b@);
    true
}

} // verus!
