use base64::prelude::BASE64_URL_SAFE_NO_PAD;
use base64::Engine;
use passvault::db::Database;
use passvault::encryption::{Aes256GcmEncryptor, CryptoError, EncryptionManager, Encryptor};
use passvault::password::{PasswordCreate, PasswordManager};
use passvault::user::{AuthError, UserManager};

fn registry() -> EncryptionManager {
    EncryptionManager::new(vec![Encryptor::Aes256Gcm(Aes256GcmEncryptor)])
}

fn managers() -> (UserManager, PasswordManager) {
    (UserManager::new(registry()), PasswordManager::new(registry()))
}

const T0: i64 = 1_700_000_000;

#[test]
fn test_encrypt() {
    let plaintext = b"foobar";
    let manager = registry();
    let ciphertext = manager
        .encrypt(plaintext, b"12345678", b"87654321")
        .unwrap();
    assert_eq!(
        plaintext.as_slice(),
        manager
            .decrypt(&ciphertext, b"12345678", b"87654321")
            .unwrap()
    );
}

#[test]
fn envelope_layout_and_fresh_nonces() {
    let manager = registry();
    let a = manager.encrypt(b"foobar", b"12345678", b"87654321").unwrap();
    let b = manager.encrypt(b"foobar", b"12345678", b"87654321").unwrap();
    // 6 bytes of text, 16 of tag, 12 of nonce, 4 of id.
    assert_eq!(a.len(), 6 + 16 + 12 + 4);
    assert_eq!(&a[a.len() - 4..], &[1, 0, 0, 0]);
    assert_ne!(a, b);
    assert_ne!(&a[..6], b"foobar");
}

#[test]
fn wrong_password_is_bad_ciphertext() {
    let manager = registry();
    let env = manager.encrypt(b"secret", b"password-one", b"saltsalt").unwrap();
    assert_eq!(
        manager.decrypt(&env, b"password-two", b"saltsalt"),
        Err(CryptoError::BadCiphertext)
    );
    assert_eq!(
        manager.decrypt(&env, b"password-one", b"saltsalT"),
        Err(CryptoError::BadCiphertext)
    );
}

#[test]
fn unknown_cipher_id_and_short_envelope() {
    let manager = registry();
    let mut env = manager.encrypt(b"secret", b"pw", b"saltsalt").unwrap();
    let n = env.len();
    env[n - 4..].copy_from_slice(&7u32.to_le_bytes());
    assert_eq!(manager.decrypt(&env, b"pw", b"saltsalt"), Err(CryptoError::UnknownCipher));
    assert_eq!(manager.decrypt(&[1, 0, 0], b"pw", b"saltsalt"), Err(CryptoError::Malformed));
    assert_eq!(manager.decrypt(&[], b"pw", b"saltsalt"), Err(CryptoError::Malformed));
}

#[test]
fn body_shorter_than_nonce_is_malformed() {
    let manager = registry();
    let env = [0u8, 0, 0, 0, 0, 1, 0, 0, 0];
    assert_eq!(manager.decrypt(&env, b"pw", b"saltsalt"), Err(CryptoError::Malformed));
}

#[test]
fn short_salt_is_refused_by_the_kdf() {
    let manager = registry();
    assert_eq!(manager.encrypt(b"x", b"pw", b"short"), Err(CryptoError::KeyDerivation));
}

#[test]
fn cipher_checks_key_length() {
    let c = Aes256GcmEncryptor;
    assert_eq!(c.id(), 1);
    assert_eq!(c.key_size(), 32);
    assert_eq!(c.encrypt(b"x", &[0u8; 16]), Err(CryptoError::InvalidKey));
    assert_eq!(c.decrypt(&[0u8; 40], &[0u8; 31]), Err(CryptoError::InvalidKey));
    let key = [9u8; 32];
    let out = c.encrypt(b"hello", &key).unwrap();
    assert_eq!(out.len(), 5 + 16 + 12);
    assert_eq!(c.decrypt(&out, &key).unwrap(), b"hello".to_vec());
    assert_eq!(c.decrypt(&out, &[8u8; 32]), Err(CryptoError::BadCiphertext));
}

#[test]
fn create_and_view_record() {
    let (users, records) = managers();
    let mut db = Database::new();
    users.create_user_at(&mut db, "alice", "pw1", T0).unwrap();
    let user = users.login_at(&mut db, "alice", "pw1", T0 + 1).unwrap();
    let token = users.create_token_at(&mut db, &user, T0 + 1).unwrap();
    let user = users.find_user_at(&mut db, &token, T0 + 2).unwrap();
    let create = PasswordCreate {
        name: "gh",
        username: "alice@x",
        password: "hunter2",
        attachment: None,
    };
    records.create_password_at(&mut db, &user, create, T0 + 2).unwrap();
    let list = records.list_password(&db, &user).unwrap();
    assert_eq!(list.len(), 1);
    assert_eq!(list[0].name, "gh");
    let view = records.view_password(&db, &user, list[0].id).unwrap().unwrap();
    assert_eq!(view.username, "alice@x");
    assert_eq!(view.password, "hunter2");
    assert_eq!(view.attachment, None);
    assert_eq!(view.name, "gh");
    // Only the name is stored in the clear.
    assert_ne!(db.passwords[0].password, b"hunter2".to_vec());
}

#[test]
fn throttle_after_five_failures() {
    let (users, _) = managers();
    let mut db = Database::new();
    users.create_user_at(&mut db, "alice", "pw1", T0).unwrap();
    for k in 0..5 {
        assert!(matches!(
            users.login_at(&mut db, "alice", "wrong", T0 + k),
            Err(AuthError::BadCredentials)
        ));
    }
    assert_eq!(db.users[0].suspend, T0 + 4 + 300);
    assert!(matches!(
        users.login_at(&mut db, "alice", "pw1", T0 + 10),
        Err(AuthError::Throttled)
    ));
    assert!(matches!(
        users.login_at(&mut db, "alice", "pw1", T0 + 4 + 299),
        Err(AuthError::Throttled)
    ));
    let user = users.login_at(&mut db, "alice", "pw1", T0 + 4 + 300).unwrap();
    assert_eq!(user.id(), db.users[0].id);
    assert_eq!(db.users[0].suspend, 0);
}

#[test]
fn failure_counter_counts_up_and_resets() {
    let (users, _) = managers();
    let mut db = Database::new();
    users.create_user_at(&mut db, "bob", "pw", T0).unwrap();
    assert!(users.login_at(&mut db, "bob", "nope", T0).is_err());
    assert!(users.login_at(&mut db, "bob", "nope", T0).is_err());
    assert_eq!(db.users[0].suspend, 2);
    users.login_at(&mut db, "bob", "pw", T0).unwrap();
    assert_eq!(db.users[0].suspend, 0);
}

#[test]
fn unknown_user_is_bad_credentials() {
    let (users, _) = managers();
    let mut db = Database::new();
    assert!(matches!(
        users.login_at(&mut db, "nobody", "pw", T0),
        Err(AuthError::BadCredentials)
    ));
}

#[test]
fn create_user_rejects_empty_and_duplicate() {
    let (users, _) = managers();
    let mut db = Database::new();
    assert!(matches!(
        users.create_user_at(&mut db, "", "pw", T0),
        Err(AuthError::InvalidArgument)
    ));
    assert!(matches!(
        users.create_user_at(&mut db, "alice", "", T0),
        Err(AuthError::InvalidArgument)
    ));
    let u = users.create_user_at(&mut db, "alice", "pw", T0).unwrap();
    assert_eq!(u.id(), 1);
    assert_eq!(u.credential().password().len(), 32);
    assert_eq!(u.credential().salt().len(), 32);
    assert!(matches!(
        users.create_user_at(&mut db, "alice", "other", T0),
        Err(AuthError::UserExists)
    ));
    assert_eq!(db.users.len(), 1);
    assert_eq!(db.users[0].salt.len(), 32);
}

#[test]
fn token_idle_expiry() {
    let (users, _) = managers();
    let mut db = Database::new();
    users.create_user_at(&mut db, "alice", "pw1", T0).unwrap();
    let user = users.login_at(&mut db, "alice", "pw1", T0).unwrap();
    let token = users.create_token_at(&mut db, &user, T0).unwrap();
    assert!(matches!(
        users.find_user_at(&mut db, &token, T0 + 301),
        Err(AuthError::InvalidToken)
    ));
}

#[test]
fn token_use_refreshes_last_active() {
    let (users, _) = managers();
    let mut db = Database::new();
    users.create_user_at(&mut db, "alice", "pw1", T0).unwrap();
    let user = users.login_at(&mut db, "alice", "pw1", T0).unwrap();
    let token = users.create_token_at(&mut db, &user, T0).unwrap();
    assert_eq!(token.len(), 139);
    let found = users.find_user_at(&mut db, &token, T0 + 299).unwrap();
    assert_eq!(found.id(), user.id());
    assert_eq!(found.credential().password(), user.credential().password());
    assert_eq!(found.credential().salt(), user.credential().salt());
    assert_eq!(db.tokens[0].last_active, T0 + 299);
    assert!(users.find_user_at(&mut db, &token, T0 + 598).is_ok());
    assert!(matches!(
        users.find_user_at(&mut db, &token, T0 + 598 + 300),
        Err(AuthError::InvalidToken)
    ));
}

#[test]
fn mutated_token_is_invalid() {
    let (users, _) = managers();
    let mut db = Database::new();
    users.create_user_at(&mut db, "alice", "pw1", T0).unwrap();
    let user = users.login_at(&mut db, "alice", "pw1", T0).unwrap();
    let token = users.create_token_at(&mut db, &user, T0).unwrap();
    let raw = BASE64_URL_SAFE_NO_PAD.decode(token.as_bytes()).unwrap();
    assert_eq!(raw.len(), 104);
    assert_eq!(&raw[64..72], &db.tokens[0].id.to_le_bytes());
    for at in [0usize, 40, 64, 80, 103] {
        let mut bad = raw.clone();
        bad[at] ^= 1;
        let bad = BASE64_URL_SAFE_NO_PAD.encode(&bad);
        assert!(matches!(
            users.find_user_at(&mut db, &bad, T0 + 1),
            Err(AuthError::InvalidToken)
        ));
    }
    assert!(matches!(
        users.find_user_optional_at(&mut db, "not base64 !", T0 + 1),
        Ok(None)
    ));
    assert!(matches!(
        users.find_user_optional_at(&mut db, "AAAA", T0 + 1),
        Ok(None)
    ));
    assert!(users.find_user_at(&mut db, &token, T0 + 1).is_ok());
}

#[test]
fn password_rotation_keeps_data_and_tokens() {
    let (users, records) = managers();
    let mut db = Database::new();
    users.create_user_at(&mut db, "alice", "pw1", T0).unwrap();
    let user = users.login_at(&mut db, "alice", "pw1", T0).unwrap();
    let create = PasswordCreate {
        name: "mail",
        username: "a@b",
        password: "s3cret",
        attachment: Some("notes"),
    };
    records.create_password_at(&mut db, &user, create, T0).unwrap();
    let t1 = users.create_token_at(&mut db, &user, T0).unwrap();
    let user = users.find_user_at(&mut db, &t1, T0 + 1).unwrap();
    assert!(matches!(
        users.change_password(&mut db, &user, "wrong", "pw2"),
        Err(AuthError::BadCredentials)
    ));
    users.change_password(&mut db, &user, "pw1", "pw2").unwrap();
    assert!(users.login_at(&mut db, "alice", "pw1", T0 + 2).is_err());
    let user2 = users.login_at(&mut db, "alice", "pw2", T0 + 2).unwrap();
    let id = db.passwords[0].id;
    let view = records.view_password(&db, &user2, id).unwrap().unwrap();
    assert_eq!(view.username, "a@b");
    assert_eq!(view.password, "s3cret");
    assert_eq!(view.attachment.as_deref(), Some("notes"));
    let again = users.find_user_at(&mut db, &t1, T0 + 3).unwrap();
    assert_eq!(again.id(), user2.id());
}

#[test]
fn cross_user_isolation() {
    let (users, records) = managers();
    let mut db = Database::new();
    users.create_user_at(&mut db, "alice", "pa", T0).unwrap();
    users.create_user_at(&mut db, "bob", "pb", T0).unwrap();
    let alice = users.login_at(&mut db, "alice", "pa", T0).unwrap();
    let bob = users.login_at(&mut db, "bob", "pb", T0).unwrap();
    let entry = |name| PasswordCreate {
        name,
        username: "u",
        password: "p",
        attachment: None,
    };
    records.create_password_at(&mut db, &alice, entry("a1"), T0).unwrap();
    records.create_password_at(&mut db, &bob, entry("b1"), T0).unwrap();
    let alice_id = db.passwords[0].id;
    assert!(records.view_password(&db, &bob, alice_id).unwrap().is_none());
    records.delete_password(&mut db, &bob, alice_id).unwrap();
    assert_eq!(db.passwords.len(), 2);
    let upd = PasswordCreate {
        name: "hijack",
        username: "x",
        password: "y",
        attachment: None,
    };
    records.update_password_at(&mut db, &bob, alice_id, upd, T0 + 5).unwrap();
    assert_eq!(db.passwords[0].name, "a1");
    assert_eq!(db.passwords[0].updated_at, T0);
    let bob_list = records.list_password(&db, &bob).unwrap();
    assert_eq!(bob_list.len(), 1);
    assert_eq!(bob_list[0].name, "b1");
    assert!(records.view_password(&db, &alice, alice_id).unwrap().is_some());
}

#[test]
fn update_then_view_and_delete_then_view() {
    let (users, records) = managers();
    let mut db = Database::new();
    users.create_user_at(&mut db, "carol", "pc", T0).unwrap();
    let carol = users.login_at(&mut db, "carol", "pc", T0).unwrap();
    let first = PasswordCreate {
        name: "bank",
        username: "c1",
        password: "first-secret",
        attachment: Some("pin 1234"),
    };
    records.create_password_at(&mut db, &carol, first, T0).unwrap();
    let id = db.passwords[0].id;
    let before = db.passwords[0].username.clone();
    let second = PasswordCreate {
        name: "bank2",
        username: "c1",
        password: "second-secret",
        attachment: None,
    };
    records.update_password_at(&mut db, &carol, id, second, T0 + 7).unwrap();
    assert_ne!(db.passwords[0].username, before);
    assert_eq!(db.passwords[0].updated_at, T0 + 7);
    assert_eq!(db.passwords[0].created_at, T0);
    let v = records.view_password(&db, &carol, id).unwrap().unwrap();
    assert_eq!(v.name, "bank2");
    assert_eq!(v.username, "c1");
    assert_eq!(v.password, "second-secret");
    assert_eq!(v.attachment, None);
    records.delete_password(&mut db, &carol, id).unwrap();
    assert!(records.view_password(&db, &carol, id).unwrap().is_none());
}

#[test]
fn list_is_newest_first() {
    let (users, records) = managers();
    let mut db = Database::new();
    users.create_user_at(&mut db, "dave", "pd", T0).unwrap();
    let dave = users.login_at(&mut db, "dave", "pd", T0).unwrap();
    for (name, t) in [("old", T0), ("new", T0 + 20), ("mid", T0 + 10)] {
        let c = PasswordCreate {
            name,
            username: "",
            password: "",
            attachment: None,
        };
        records.create_password_at(&mut db, &dave, c, t).unwrap();
    }
    let list = records.list_password(&db, &dave).unwrap();
    let names: Vec<&str> = list.iter().map(|i| i.name.as_str()).collect();
    assert_eq!(names, vec!["new", "mid", "old"]);
    assert_eq!(list[0].updated_at, T0 + 20);
}

#[test]
fn store_assigns_increasing_ids() {
    let (users, _) = managers();
    let mut db = Database::new();
    let a = users.create_user_at(&mut db, "a", "p", T0).unwrap();
    let b = users.create_user_at(&mut db, "b", "p", T0).unwrap();
    assert_eq!((a.id(), b.id()), (1, 2));
    assert_eq!(db.find_user_by_name("b"), Some(1));
    assert_eq!(db.find_user_by_id(1), Some(0));
    assert_eq!(db.find_user_by_name("c"), None);
    assert_eq!(db.find_token(1), None);
}

#[test]
fn credentials_and_salts_are_random() {
    let (users, _) = managers();
    let mut db = Database::new();
    let a = users.create_user_at(&mut db, "a", "same", T0).unwrap();
    let b = users.create_user_at(&mut db, "b", "same", T0).unwrap();
    assert_ne!(a.credential().password(), b.credential().password());
    assert_ne!(a.credential().salt(), b.credential().salt());
    assert_ne!(db.users[0].salt, db.users[1].salt);
    assert_ne!(db.users[0].credential, db.users[1].credential);
}

#[test]
fn current_time_entry_points() {
    let (users, records) = managers();
    let mut db = Database::new();
    users.create_user(&mut db, "erin", "pe").unwrap();
    assert!(db.users[0].created_at > 0);
    let user = users.login(&mut db, "erin", "pe").unwrap();
    let token = users.create_token(&mut db, &user).unwrap();
    let user = users.find_user(&mut db, &token).unwrap();
    assert!(users.find_user_optional(&mut db, &token).unwrap().is_some());
    let c = PasswordCreate {
        name: "n",
        username: "u",
        password: "p",
        attachment: Some("a"),
    };
    records.create_password(&mut db, &user, c).unwrap();
    let id = db.passwords[0].id;
    let u = PasswordCreate {
        name: "n2",
        username: "u2",
        password: "second-secret",
        attachment: None,
    };
    records.update_password(&mut db, &user, id, u).unwrap();
    let v = records.view_password(&db, &user, id).unwrap().unwrap();
    assert_eq!((v.name.as_str(), v.username.as_str(), v.password.as_str()), ("n2", "u2", "second-secret"));
    assert!(matches!(
        users.find_user(&mut db, "garbage"),
        Err(AuthError::InvalidToken)
    ));
}

#[test]
fn clock_reads_non_negative_seconds() {
    let t = passvault::util::timestamp();
    assert!(t >= T0);
}

#[test]
fn registry_with_repeated_cipher() {
    let manager = EncryptionManager::new(vec![
        Encryptor::Aes256Gcm(Aes256GcmEncryptor),
        Encryptor::Aes256Gcm(Aes256GcmEncryptor),
    ]);
    let env = manager.encrypt(b"data", b"pw", b"saltsalt").unwrap();
    assert_eq!(env.len(), 4 + 16 + 12 + 4);
    assert_eq!(manager.decrypt(&env, b"pw", b"saltsalt").unwrap(), b"data".to_vec());
}
