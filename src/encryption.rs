//! Cipher registry and envelope framing.
//!
//! An envelope is `cipher_output ++ u32_le(cipher_id)`. For AES-256-GCM the
//! cipher output is `aead_output ++ nonce`, the nonce drawn afresh each time.

use vstd::prelude::*;
use vstd::slice::slice_subrange;

use std::collections::HashMap;

use aes_gcm::aead::{Aead, OsRng};
use aes_gcm::{AeadCore, Aes256Gcm, Key, KeyInit, Nonce};
use argon2::Argon2;

verus! {

/// Width of the cipher id that ends every envelope.
pub const ENCRYPTOR_ID_SIZE: usize = 4;

/// Largest plaintext that AES-GCM accepts, in bytes (2^36).
pub const AES_GCM_P_MAX: u64 = 68719476736;

/// Length of the AES-GCM authentication tag that ends its output.
pub const AES_GCM_TAG_SIZE: usize = 16;

/// Largest password or salt length, and output length, that Argon2 accepts.
pub const ARGON2_MAX_LEN: u64 = 0xFFFF_FFFF;

/// Shortest salt that Argon2 accepts.
pub const ARGON2_MIN_SALT_LEN: usize = 8;

/// Shortest output that Argon2 produces.
pub const ARGON2_MIN_OUTPUT_LEN: usize = 4;

#[derive(Clone, Copy, Debug, PartialEq, Eq, Structural)]
pub enum CryptoError {
    /// The key does not have the cipher's key size.
    InvalidKey,
    /// The input is too short to hold its framing.
    Malformed,
    /// Authentication of the ciphertext failed.
    BadCiphertext,
    /// The trailing id names no registered cipher.
    UnknownCipher,
    /// The plaintext is longer than the cipher accepts.
    TooLong,
    /// The key derivation refused its inputs.
    KeyDerivation,
}

#[verifier::external_type_specification]
#[verifier::external_body]
pub struct ExAeadError(aes_gcm::Error);

#[verifier::external_type_specification]
#[verifier::external_body]
pub struct ExArgon2Error(argon2::Error);

/// The AES-256-GCM ciphertext with tag of `plaintext` under `key` and `nonce`.
pub uninterp spec fn aes256gcm_seal(key: Seq<u8>, nonce: Seq<u8>, plaintext: Seq<u8>) -> Seq<u8>;

/// The AES-256-GCM decryption of `ciphertext` under `key` and `nonce`, `None` when
/// authentication fails.
pub uninterp spec fn aes256gcm_open(key: Seq<u8>, nonce: Seq<u8>, ciphertext: Seq<u8>) -> Option<
    Seq<u8>,
>;

/// The Argon2id key of `len` bytes derived from `password` and `salt` with the
/// default cost parameters.
pub uninterp spec fn argon2_key(password: Seq<u8>, salt: Seq<u8>, len: nat) -> Seq<u8>;

/// Relies on `Aes256Gcm::encrypt` (aes-gcm): deterministic for a key, nonce and
/// plaintext; the output is the ciphertext followed by a 16-byte tag; fails
/// exactly on a plaintext longer than `P_MAX`.
#[verifier::external_body]
fn aes256gcm_encrypt(key: &[u8], nonce: &[u8], plaintext: &[u8]) -> (r: Result<Vec<u8>, aes_gcm::Error>)
    requires
        key@.len() == 32,
        nonce@.len() == 12,
    ensures
        r matches Ok(c) ==> c@ == aes256gcm_seal(key@, nonce@, plaintext@),
        r matches Ok(c) ==> c@.len() == plaintext@.len() + AES_GCM_TAG_SIZE,
        r is Ok <==> plaintext@.len() <= AES_GCM_P_MAX,
{
    let cipher = Aes256Gcm::new(Key::<Aes256Gcm>::from_slice(key));
    cipher.encrypt(Nonce::from_slice(nonce), plaintext)
}

/// Relies on `Aes256Gcm::decrypt` (aes-gcm): deterministic for a key, nonce and
/// ciphertext, and the inverse of `Aes256Gcm::encrypt` under the same key and nonce.
#[verifier::external_body]
fn aes256gcm_decrypt(key: &[u8], nonce: &[u8], ciphertext: &[u8]) -> (r: Result<Vec<u8>, aes_gcm::Error>)
    requires
        key@.len() == 32,
        nonce@.len() == 12,
    ensures
        r matches Ok(p) ==> aes256gcm_open(key@, nonce@, ciphertext@) == Some(p@),
        r is Err ==> aes256gcm_open(key@, nonce@, ciphertext@) is None,
        forall|p: Seq<u8>| #![trigger aes256gcm_seal(key@, nonce@, p)] r is Ok && p.len() <= AES_GCM_P_MAX && ciphertext@ == aes256gcm_seal(key@, nonce@, p) ==> r->Ok_0@ == p,
        forall|p: Seq<u8>| #![trigger aes256gcm_seal(key@, nonce@, p)] p.len() <= AES_GCM_P_MAX && ciphertext@ == aes256gcm_seal(key@, nonce@, p) ==> r is Ok,
{
    let cipher = Aes256Gcm::new(Key::<Aes256Gcm>::from_slice(key));
    cipher.decrypt(Nonce::from_slice(nonce), ciphertext)
}

/// Relies on `AeadCore::generate_nonce` with `OsRng` (aes-gcm): twelve bytes from
/// the operating system's secure random source.
#[verifier::external_body]
fn aes256gcm_nonce() -> (r: Vec<u8>)
    ensures
        r@.len() == 12,
{
    Aes256Gcm::generate_nonce(&mut OsRng).to_vec()
}

/// Relies on `Argon2::hash_password_into` (argon2) with `Argon2::default()`:
/// deterministic; fails exactly when the password is longer than 2^32 - 1 bytes,
/// the salt is outside 8 ..= 2^32 - 1 bytes, or the output is outside 4 ..= 2^32 - 1.
#[verifier::external_body]
fn argon2_hash(password: &[u8], salt: &[u8], len: usize) -> (r: Result<Vec<u8>, argon2::Error>)
    ensures
        r matches Ok(k) ==> k@ == argon2_key(password@, salt@, len as nat) && k@.len() == len,
        r is Ok <==> kdf_accepts(password@, salt@, len as nat),
{
    let mut key = vec![0u8; len];
    Argon2::default().hash_password_into(password, salt, &mut key).map(|_| key)
}

/// Whether Argon2 accepts a password, a salt and an output length.
pub open spec fn kdf_accepts(password: Seq<u8>, salt: Seq<u8>, len: nat) -> bool {
    &&& password.len() <= ARGON2_MAX_LEN
    &&& ARGON2_MIN_SALT_LEN <= salt.len() <= ARGON2_MAX_LEN
    &&& ARGON2_MIN_OUTPUT_LEN <= len <= ARGON2_MAX_LEN
}

/// The four little-endian bytes of `x`.
pub open spec fn u32_le(x: u32) -> Seq<u8> {
    seq![
        (x & 0xff) as u8,
        ((x >> 8u32) & 0xff) as u8,
        ((x >> 16u32) & 0xff) as u8,
        ((x >> 24u32) & 0xff) as u8,
    ]
}

/// The integer whose little-endian bytes are `b[0..4]`.
pub open spec fn le_u32(b: Seq<u8>) -> u32 {
    (b[0] as u32) | ((b[1] as u32) << 8u32) | ((b[2] as u32) << 16u32) | ((b[3] as u32) << 24u32)
}

/// The cipher id that ends an envelope.
pub open spec fn envelope_id(data: Seq<u8>) -> u32 {
    le_u32(data.subrange(data.len() - 4, data.len() as int))
}

/// The part of an envelope before its cipher id.
pub open spec fn envelope_body(data: Seq<u8>) -> Seq<u8> {
    data.subrange(0, data.len() - 4)
}

/// Reading back the four bytes written for `x` gives `x`.
pub proof fn lemma_u32_le_round_trip(x: u32)
    ensures
        le_u32(u32_le(x)) == x,
{
    let b0 = (x & 0xff) as u8;
    let b1 = ((x >> 8u32) & 0xff) as u8;
    let b2 = ((x >> 16u32) & 0xff) as u8;
    let b3 = ((x >> 24u32) & 0xff) as u8;
    assert((b0 as u32) | ((b1 as u32) << 8u32) | ((b2 as u32) << 16u32) | ((b3 as u32) << 24u32)
        == x) by (bit_vector)
        requires
            b0 == (x & 0xff) as u8,
            b1 == ((x >> 8u32) & 0xff) as u8,
            b2 == ((x >> 16u32) & 0xff) as u8,
            b3 == ((x >> 24u32) & 0xff) as u8,
    ;
}

/// Appends the little-endian bytes of `x`.
fn push_u32_le(v: &mut Vec<u8>, x: u32)
    ensures
        final(v)@ == old(v)@ + u32_le(x),
{
    v.push((x & 0xff) as u8);
    v.push(((x >> 8u32) & 0xff) as u8);
    v.push(((x >> 16u32) & 0xff) as u8);
    v.push(((x >> 24u32) & 0xff) as u8);
    assert(final(v)@ =~= old(v)@ + u32_le(x));
}

/// A `Result` of bytes, seen as a `Result` of their sequence.
pub open spec fn bytes_result(r: Result<Vec<u8>, CryptoError>) -> Result<Seq<u8>, CryptoError> {
    match r {
        Ok(v) => Ok(v@),
        Err(e) => Err(e),
    }
}

/// AES-256-GCM with a random 96-bit nonce appended to its output.
#[derive(Clone, Copy, Debug)]
pub struct Aes256GcmEncryptor;

impl Aes256GcmEncryptor {
    pub const ID: u32 = 1;

    pub const KEY_SIZE: usize = 32;

    pub const NONCE_SIZE: usize = 12;

    /// The cipher output for `plaintext` under `key` and `nonce`.
    pub open spec fn frame(key: Seq<u8>, nonce: Seq<u8>, plaintext: Seq<u8>) -> Seq<u8> {
        aes256gcm_seal(key, nonce, plaintext) + nonce
    }

    /// What decrypting `data` under `key` gives.
    pub open spec fn spec_decrypt(key: Seq<u8>, data: Seq<u8>) -> Result<Seq<u8>, CryptoError> {
        if key.len() != Self::KEY_SIZE {
            Err(CryptoError::InvalidKey)
        } else if data.len() < Self::NONCE_SIZE {
            Err(CryptoError::Malformed)
        } else {
            let n = data.len() - Self::NONCE_SIZE;
            match aes256gcm_open(key, data.subrange(n, data.len() as int), data.subrange(0, n)) {
                Some(p) => Ok(p),
                None => Err(CryptoError::BadCiphertext),
            }
        }
    }

    pub fn id(&self) -> (r: u32)
        ensures
            r == Self::ID,
    {
        Self::ID
    }

    pub fn key_size(&self) -> (r: usize)
        ensures
            r == Self::KEY_SIZE,
    {
        Self::KEY_SIZE
    }

    /// Encrypts `data` under `key` with a fresh random nonce.
    pub fn encrypt(&self, data: &[u8], key: &[u8]) -> (r: Result<Vec<u8>, CryptoError>)
        ensures
            key@.len() != Self::KEY_SIZE ==> r == Err::<Vec<u8>, _>(CryptoError::InvalidKey),
            key@.len() == Self::KEY_SIZE && data@.len() > AES_GCM_P_MAX ==> r == Err::<Vec<u8>, _>(
                CryptoError::TooLong,
            ),
            key@.len() == Self::KEY_SIZE && data@.len() <= AES_GCM_P_MAX ==> (r matches Ok(c)
                && exists|n: Seq<u8>|
                n.len() == Self::NONCE_SIZE && c@ == #[trigger] Self::frame(key@, n, data@)),
            r matches Ok(c) ==> c@.len() == data@.len() + AES_GCM_TAG_SIZE + Self::NONCE_SIZE,
    {
        if key.len() != Self::KEY_SIZE {
            return Err(CryptoError::InvalidKey);
        }
        let nonce = aes256gcm_nonce();
        match aes256gcm_encrypt(key, nonce.as_slice(), data) {
            Ok(c) => {
                let mut out = c;
                let mut i: usize = 0;
                while i < nonce.len()
                    invariant
                        0 <= i <= nonce@.len(),
                        out@ == aes256gcm_seal(key@, nonce@, data@) + nonce@.subrange(0, i as int),
                    decreases nonce@.len() - i,
                {
                    out.push(nonce[i]);
                    assert(nonce@.subrange(0, i + 1) =~= nonce@.subrange(0, i as int).push(nonce@[i as int]));
                    i = i + 1;
                }
                assert(nonce@.subrange(0, nonce@.len() as int) =~= nonce@);
                assert(out@ == Self::frame(key@, nonce@, data@));
                Ok(out)
            },
            Err(_) => Err(CryptoError::TooLong),
        }
    }

    /// Decrypts `data`, whose last twelve bytes are the nonce, under `key`.
    pub fn decrypt(&self, data: &[u8], key: &[u8]) -> (r: Result<Vec<u8>, CryptoError>)
        ensures
            bytes_result(r) == Self::spec_decrypt(key@, data@),
            forall|n: Seq<u8>, p: Seq<u8>|
                key@.len() == Self::KEY_SIZE && n.len() == Self::NONCE_SIZE && p.len()
                    <= AES_GCM_P_MAX && data@ == #[trigger] Self::frame(key@, n, p) ==> (r matches Ok(
                    v,
                ) && v@ == p),
    {
        if key.len() != Self::KEY_SIZE {
            return Err(CryptoError::InvalidKey);
        }
        if data.len() < Self::NONCE_SIZE {
            proof {
                assert forall|n: Seq<u8>, p: Seq<u8>|
                    n.len() == Self::NONCE_SIZE implies data@ != #[trigger] Self::frame(key@, n, p) by {
                    assert(Self::frame(key@, n, p).len() >= n.len());
                }
            }
            return Err(CryptoError::Malformed);
        }
        let split = data.len() - Self::NONCE_SIZE;
        let nonce = slice_subrange(data, split, data.len());
        let body = slice_subrange(data, 0, split);
        let r = aes256gcm_decrypt(key, nonce, body);
        proof {
            assert forall|n: Seq<u8>, p: Seq<u8>|
                n.len() == Self::NONCE_SIZE && p.len() <= AES_GCM_P_MAX && data@
                    == #[trigger] Self::frame(key@, n, p) implies (r matches Ok(v) && v@ == p) by {
                let s = aes256gcm_seal(key@, n, p);
                assert(data@.subrange(0, split as int) =~= s);
                assert(data@.subrange(split as int, data@.len() as int) =~= n);
            }
        }
        match r {
            Ok(v) => Ok(v),
            Err(_) => Err(CryptoError::BadCiphertext),
        }
    }
}

/// A registered cipher.
#[derive(Clone, Copy, Debug)]
pub enum Encryptor {
    Aes256Gcm(Aes256GcmEncryptor),
}

impl Encryptor {
    pub open spec fn spec_id(self) -> u32 {
        match self {
            Encryptor::Aes256Gcm(_) => Aes256GcmEncryptor::ID,
        }
    }

    pub open spec fn spec_key_size(self) -> nat {
        match self {
            Encryptor::Aes256Gcm(_) => Aes256GcmEncryptor::KEY_SIZE as nat,
        }
    }

    pub open spec fn spec_nonce_size(self) -> nat {
        match self {
            Encryptor::Aes256Gcm(_) => Aes256GcmEncryptor::NONCE_SIZE as nat,
        }
    }

    /// How many bytes the cipher output adds to the plaintext.
    pub open spec fn spec_overhead(self) -> nat {
        match self {
            Encryptor::Aes256Gcm(_) => (AES_GCM_TAG_SIZE + Aes256GcmEncryptor::NONCE_SIZE) as nat,
        }
    }

    /// The largest plaintext the cipher accepts.
    pub open spec fn spec_max_plaintext(self) -> nat {
        match self {
            Encryptor::Aes256Gcm(_) => AES_GCM_P_MAX as nat,
        }
    }

    /// The cipher output for `plaintext` under `key` and `nonce`.
    pub open spec fn frame(self, key: Seq<u8>, nonce: Seq<u8>, plaintext: Seq<u8>) -> Seq<u8> {
        match self {
            Encryptor::Aes256Gcm(_) => Aes256GcmEncryptor::frame(key, nonce, plaintext),
        }
    }

    pub open spec fn spec_decrypt(self, key: Seq<u8>, data: Seq<u8>) -> Result<Seq<u8>, CryptoError> {
        match self {
            Encryptor::Aes256Gcm(_) => Aes256GcmEncryptor::spec_decrypt(key, data),
        }
    }

    pub fn id(&self) -> (r: u32)
        ensures
            r == self.spec_id(),
    {
        match self {
            Encryptor::Aes256Gcm(e) => e.id(),
        }
    }

    pub fn key_size(&self) -> (r: usize)
        ensures
            r == self.spec_key_size(),
    {
        match self {
            Encryptor::Aes256Gcm(e) => e.key_size(),
        }
    }

    pub fn encrypt(&self, data: &[u8], key: &[u8]) -> (r: Result<Vec<u8>, CryptoError>)
        ensures
            key@.len() != self.spec_key_size() ==> r == Err::<Vec<u8>, _>(CryptoError::InvalidKey),
            key@.len() == self.spec_key_size() && data@.len() > self.spec_max_plaintext() ==> r
                == Err::<Vec<u8>, _>(CryptoError::TooLong),
            key@.len() == self.spec_key_size() && data@.len() <= self.spec_max_plaintext() ==> (r matches Ok(c)
                && exists|n: Seq<u8>|
                n.len() == self.spec_nonce_size() && c@ == #[trigger] self.frame(key@, n, data@)),
            r matches Ok(c) ==> c@.len() == data@.len() + self.spec_overhead(),
    {
        match self {
            Encryptor::Aes256Gcm(e) => {
                let r = e.encrypt(data, key);
                proof {
                    if key@.len() == self.spec_key_size() && data@.len() <= self.spec_max_plaintext() {
                        let n = choose|n: Seq<u8>|
                            n.len() == Aes256GcmEncryptor::NONCE_SIZE && r->Ok_0@
                                == #[trigger] Aes256GcmEncryptor::frame(key@, n, data@);
                        assert(r->Ok_0@ == self.frame(key@, n, data@));
                    }
                }
                r
            },
        }
    }

    pub fn decrypt(&self, data: &[u8], key: &[u8]) -> (r: Result<Vec<u8>, CryptoError>)
        ensures
            bytes_result(r) == self.spec_decrypt(key@, data@),
            forall|n: Seq<u8>, p: Seq<u8>|
                key@.len() == self.spec_key_size() && n.len() == self.spec_nonce_size() && p.len()
                    <= self.spec_max_plaintext() && data@ == #[trigger] self.frame(key@, n, p) ==> (r matches Ok(
                    v,
                ) && v@ == p),
    {
        match self {
            Encryptor::Aes256Gcm(e) => e.decrypt(data, key),
        }
    }
}

/// The envelope of `plaintext` made by cipher `e` under `key` and `nonce`.
pub open spec fn envelope(e: Encryptor, key: Seq<u8>, nonce: Seq<u8>, plaintext: Seq<u8>) -> Seq<u8> {
    e.frame(key, nonce, plaintext) + u32_le(e.spec_id())
}

/// Registered ciphers keyed by their 32-bit id. The first one registered is
/// the default, used for every new envelope; any registered one can open an
/// envelope that names it.
#[derive(Clone, Debug)]
pub struct EncryptionManager {
    default_encryptor: u32,
    encryptors: HashMap<u32, Encryptor>,
}

impl EncryptionManager {
    /// The registered ciphers by id.
    pub closed spec fn ciphers(&self) -> Map<u32, Encryptor> {
        self.encryptors@
    }

    /// The id of the default cipher.
    pub closed spec fn default_id(&self) -> u32 {
        self.default_encryptor
    }

    pub open spec fn wf(&self) -> bool {
        &&& self.ciphers().contains_key(self.default_id())
        &&& forall|id: u32| #[trigger] self.ciphers().contains_key(id) ==> self.ciphers()[id].spec_id() == id
    }

    /// The default cipher.
    pub open spec fn default_cipher(&self) -> Encryptor {
        self.ciphers()[self.default_id()]
    }

    /// The cipher registered under `id`.
    pub open spec fn find(&self, id: u32) -> Option<Encryptor> {
        if self.ciphers().contains_key(id) {
            Some(self.ciphers()[id])
        } else {
            None
        }
    }

    /// What decrypting the envelope `data` with `password` and `salt` gives.
    pub open spec fn spec_decrypt(&self, data: Seq<u8>, password: Seq<u8>, salt: Seq<u8>) -> Result<
        Seq<u8>,
        CryptoError,
    > {
        if data.len() < ENCRYPTOR_ID_SIZE {
            Err(CryptoError::Malformed)
        } else {
            match self.find(envelope_id(data)) {
                None => Err(CryptoError::UnknownCipher),
                Some(e) => if !kdf_accepts(password, salt, e.spec_key_size()) {
                    Err(CryptoError::KeyDerivation)
                } else {
                    e.spec_decrypt(argon2_key(password, salt, e.spec_key_size()), envelope_body(data))
                },
            }
        }
    }

    /// Whether `data` is an envelope of `plaintext` that a registered cipher made
    /// under the key derived from `password` and `salt`, with some nonce.
    pub open spec fn is_envelope_of(
        &self,
        data: Seq<u8>,
        plaintext: Seq<u8>,
        password: Seq<u8>,
        salt: Seq<u8>,
    ) -> bool {
        exists|id: u32, n: Seq<u8>|
            self.ciphers().contains_key(id) && kdf_accepts(password, salt, self.ciphers()[id].spec_key_size())
                && n.len() == self.ciphers()[id].spec_nonce_size() && plaintext.len()
                <= self.ciphers()[id].spec_max_plaintext() && data == #[trigger] envelope(
                self.ciphers()[id],
                argon2_key(password, salt, self.ciphers()[id].spec_key_size()),
                n,
                plaintext,
            )
    }

    /// Builds the registry; the first cipher becomes the default. Ciphers are
    /// registered in order, a later one replacing an earlier one of the same id.
    pub fn new(encryptors: Vec<Encryptor>) -> (r: Self)
        requires
            encryptors@.len() > 0,
        ensures
            r.wf(),
            r.default_id() == encryptors@[0].spec_id(),
            forall|id: u32| r.ciphers().contains_key(id) <==> #[trigger] id_among(encryptors@, encryptors@.len() as int, id),
    {
        broadcast use vstd::std_specs::hash::group_hash_axioms;
        let id = encryptors[0].id();
        let mut map: HashMap<u32, Encryptor> = HashMap::new();
        let mut k: usize = 0;
        while k < encryptors.len()
            invariant
                0 <= k <= encryptors@.len(),
                encryptors@.len() > 0,
                id == encryptors@[0].spec_id(),
                k > 0 ==> map@.contains_key(id),
                forall|x: u32| #[trigger] map@.contains_key(x) ==> map@[x].spec_id() == x,
                forall|x: u32| map@.contains_key(x) <==> #[trigger] id_among(encryptors@, k as int, x),
            decreases encryptors@.len() - k,
        {
            let e = encryptors[k];
            let eid = e.id();
            map.insert(eid, e);
            assert forall|x: u32| map@.contains_key(x) <==> #[trigger] id_among(encryptors@, k + 1, x) by {
                if id_among(encryptors@, k + 1, x) && x != eid {
                    let i = choose|i: int| 0 <= i < k + 1 && #[trigger] encryptors@[i].spec_id() == x;
                    assert(id_among(encryptors@, k as int, x));
                }
                if x != eid && id_among(encryptors@, k as int, x) {
                    let i = choose|i: int| 0 <= i < k && #[trigger] encryptors@[i].spec_id() == x;
                    assert(encryptors@[i].spec_id() == x);
                }
                if x == eid {
                    assert(encryptors@[k as int].spec_id() == x);
                }
            }
            k = k + 1;
        }
        EncryptionManager { default_encryptor: id, encryptors: map }
    }

    /// Derives a key of `key_size` bytes from `password` and `salt`.
    fn derive_key(&self, password: &[u8], salt: &[u8], key_size: usize) -> (r: Result<Vec<u8>, CryptoError>)
        ensures
            r is Ok <==> kdf_accepts(password@, salt@, key_size as nat),
            r matches Ok(k) ==> k@ == argon2_key(password@, salt@, key_size as nat) && k@.len() == key_size,
            r matches Err(e) ==> e == CryptoError::KeyDerivation,
    {
        match argon2_hash(password, salt, key_size) {
            Ok(k) => Ok(k),
            Err(_) => Err(CryptoError::KeyDerivation),
        }
    }

    /// Encrypts `data` with the default cipher under the key derived from
    /// `password` and `salt`, and appends the cipher's id.
    pub fn encrypt(&self, data: &[u8], password: &[u8], salt: &[u8]) -> (r: Result<Vec<u8>, CryptoError>)
        requires
            self.wf(),
        ensures
            !kdf_accepts(password@, salt@, self.default_cipher().spec_key_size()) ==> r == Err::<
                Vec<u8>,
                _,
            >(CryptoError::KeyDerivation),
            kdf_accepts(password@, salt@, self.default_cipher().spec_key_size()) && data@.len()
                > self.default_cipher().spec_max_plaintext() ==> r == Err::<Vec<u8>, _>(
                CryptoError::TooLong,
            ),
            kdf_accepts(password@, salt@, self.default_cipher().spec_key_size()) && data@.len()
                <= self.default_cipher().spec_max_plaintext() ==> (r matches Ok(env) && envelope_id(
                env@,
            ) == self.default_id() && self.is_envelope_of(env@, data@, password@, salt@)),
            r matches Ok(env) ==> env@.len() == data@.len() + self.default_cipher().spec_overhead()
                + ENCRYPTOR_ID_SIZE,
            r matches Ok(env) ==> env@.subrange(env@.len() - ENCRYPTOR_ID_SIZE, env@.len() as int) == u32_le(
                self.default_id(),
            ),
    {
        broadcast use vstd::std_specs::hash::group_hash_axioms;
        let e = match self.encryptors.get(&self.default_encryptor) {
            Some(e) => *e,
            None => return Err(CryptoError::UnknownCipher),
        };
        let key = match self.derive_key(password, salt, e.key_size()) {
            Ok(k) => k,
            Err(err) => return Err(err),
        };
        let mut out = match e.encrypt(data, key.as_slice()) {
            Ok(c) => c,
            Err(err) => return Err(err),
        };
        let ghost c = out@;
        push_u32_le(&mut out, e.id());
        proof {
            let n = choose|n: Seq<u8>| n.len() == e.spec_nonce_size() && c == #[trigger] e.frame(key@, n, data@);
            assert(out@ == envelope(self.ciphers()[self.default_id()], key@, n, data@));
            assert(out@.subrange(out@.len() - 4, out@.len() as int) =~= u32_le(e.spec_id()));
            lemma_u32_le_round_trip(e.spec_id());
        }
        Ok(out)
    }

    /// Decrypts an envelope with the cipher it names, under the key derived from
    /// `password` and `salt`. An envelope of `p` under the same password and
    /// salt gives back `p`.
    pub fn decrypt(&self, data: &[u8], password: &[u8], salt: &[u8]) -> (r: Result<Vec<u8>, CryptoError>)
        requires
            self.wf(),
        ensures
            bytes_result(r) == self.spec_decrypt(data@, password@, salt@),
            forall|p: Seq<u8>|
                #[trigger] self.is_envelope_of(data@, p, password@, salt@) ==> (r matches Ok(v) && v@
                    == p),
    {
        match self.find_encryptor(data) {
            Some(e) => {
                let key = self.derive_key(password, salt, e.key_size());
                proof {
                    assert forall|p: Seq<u8>|
                        #[trigger] self.is_envelope_of(data@, p, password@, salt@) implies key is Ok by {
                        self.lemma_envelope_parts(data@, p, password@, salt@);
                    }
                }
                let key = match key {
                    Ok(k) => k,
                    Err(err) => return Err(err),
                };
                let body = slice_subrange(data, 0, data.len() - ENCRYPTOR_ID_SIZE);
                let r = e.decrypt(body, key.as_slice());
                proof {
                    assert forall|p: Seq<u8>|
                        #[trigger] self.is_envelope_of(data@, p, password@, salt@) implies (r matches Ok(v)
                            && v@ == p) by {
                        let n = self.lemma_envelope_parts(data@, p, password@, salt@);
                        assert(body@ == e.frame(key@, n, p));
                    }
                }
                r
            },
            None => {
                proof {
                    assert forall|p: Seq<u8>|
                        !#[trigger] self.is_envelope_of(data@, p, password@, salt@) by {
                        if self.is_envelope_of(data@, p, password@, salt@) {
                            self.lemma_envelope_parts(data@, p, password@, salt@);
                        }
                    }
                }
                if data.len() < ENCRYPTOR_ID_SIZE {
                    Err(CryptoError::Malformed)
                } else {
                    Err(CryptoError::UnknownCipher)
                }
            },
        }
    }

    /// What an envelope made by a registered cipher is made of.
    proof fn lemma_envelope_parts(
        &self,
        data: Seq<u8>,
        p: Seq<u8>,
        password: Seq<u8>,
        salt: Seq<u8>,
    ) -> (n: Seq<u8>)
        requires
            self.wf(),
            self.is_envelope_of(data, p, password, salt),
        ensures
            data.len() >= ENCRYPTOR_ID_SIZE,
            self.find(envelope_id(data)) matches Some(e) && kdf_accepts(password, salt, e.spec_key_size())
                && n.len() == e.spec_nonce_size() && p.len() <= e.spec_max_plaintext()
                && envelope_body(data) == e.frame(argon2_key(password, salt, e.spec_key_size()), n, p),
    {
        let (id, n) = choose|id: u32, n: Seq<u8>|
            self.ciphers().contains_key(id) && kdf_accepts(password, salt, self.ciphers()[id].spec_key_size())
                && n.len() == self.ciphers()[id].spec_nonce_size() && p.len()
                <= self.ciphers()[id].spec_max_plaintext() && data == #[trigger] envelope(
                self.ciphers()[id],
                argon2_key(password, salt, self.ciphers()[id].spec_key_size()),
                n,
                p,
            );
        let e = self.ciphers()[id];
        let f = e.frame(argon2_key(password, salt, e.spec_key_size()), n, p);
        assert(e.spec_id() == id);
        assert(data.subrange(data.len() - 4, data.len() as int) =~= u32_le(e.spec_id()));
        assert(envelope_body(data) =~= f);
        lemma_u32_le_round_trip(e.spec_id());
        n
    }

    /// The registered cipher that the envelope `data` names.
    fn find_encryptor(&self, data: &[u8]) -> (r: Option<Encryptor>)
        requires
            self.wf(),
        ensures
            data@.len() < ENCRYPTOR_ID_SIZE ==> r is None,
            data@.len() >= ENCRYPTOR_ID_SIZE ==> r == self.find(envelope_id(data@)),
    {
        broadcast use vstd::std_specs::hash::group_hash_axioms;
        if data.len() < ENCRYPTOR_ID_SIZE {
            return None;
        }
        let k = data.len() - ENCRYPTOR_ID_SIZE;
        let id = (data[k] as u32) | ((data[k + 1] as u32) << 8u32) | ((data[k + 2] as u32) << 16u32)
            | ((data[k + 3] as u32) << 24u32);
        let ghost tail = data@.subrange(k as int, data@.len() as int);
        assert(tail[0] == data@[k as int] && tail[1] == data@[k + 1] && tail[2] == data@[k + 2]
            && tail[3] == data@[k + 3]);
        assert(id == envelope_id(data@));
        match self.encryptors.get(&id) {
            Some(e) => Some(*e),
            None => None,
        }
    }
}

/// Whether one of the first `n` ciphers of `s` has id `x`.
pub open spec fn id_among(s: Seq<Encryptor>, n: int, x: u32) -> bool {
    exists|i: int| 0 <= i < n && #[trigger] s[i].spec_id() == x
}

} // verus!
