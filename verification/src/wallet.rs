//! Keys of a validator before genesis, and how they are stored.
//!
//! A stored key is either kept as it is or encrypted with a password. The
//! encryption key is derived from the password and a random salt; the salt
//! stands in front of the sealed bytes, which start with their random nonce.

use crate::hash::{append_bytes, copy_bytes};
use rand::RngCore;
use vstd::prelude::*;
use vstd::utf8::encode_utf8;

verus! {

/// The number of bytes of a secret key.
pub const SECRET_KEY_LENGTH: usize = 32;

/// The number of bytes of the salt of an encrypted key.
pub const SALT_LENGTH: usize = 16;

/// The number of bytes of the nonce of a sealed key.
pub const NONCE_LENGTH: usize = 24;

/// The number of bytes of the tag of a sealed key.
pub const TAG_LENGTH: usize = 16;

/// How many bytes sealing adds to what it seals: a nonce of 24 bytes and a
/// tag of 16.
pub const SEAL_OVERHEAD: usize = 40;

/// The most bytes that are sealed at once.
pub const MAX_PLAINTEXT_LENGTH: usize = 65536;

/// The number of passes of the key derivation.
pub const KDF_ITERATIONS: u32 = 3;

/// The memory of the key derivation in kibibytes.
pub const KDF_MEMORY: u32 = 65536;

/// The number of bytes of a derived encryption key.
pub const KDF_KEY_LENGTH: u32 = 32;

/// The most memory, in kibibytes, that a key derivation may be asked to
/// use.
pub const KDF_MAX_MEMORY: u32 = 1048576;

/// The most random bytes that are asked of the operating system at once.
pub const MAX_RANDOM_LENGTH: usize = 64;

/// The key that Argon2i derives from a password and a salt with the given
/// cost, if it derives one.
pub uninterp spec fn argon2i_of(
    password: Seq<u8>,
    salt: Seq<u8>,
    iterations: u32,
    memory: u32,
    length: u32,
) -> Option<Seq<u8>>;

/// What opening sealed bytes with a key gives, if they open. The sealed
/// bytes start with their nonce.
pub uninterp spec fn aead_opened(key: Seq<u8>, sealed: Seq<u8>) -> Option<Seq<u8>>;

/// What sealing a plaintext with a key and a nonce gives, if it can be
/// sealed: the encrypted plaintext followed by its tag.
pub uninterp spec fn aead_sealed(key: Seq<u8>, nonce: Seq<u8>, plaintext: Seq<u8>) -> Option<
    Seq<u8>,
>;

/// Calls `try_fill_bytes` of `rand::rngs::OsRng` on a buffer of `length`
/// zero bytes. The contract claims only the length of what comes back; the
/// bytes come from the operating system and differ from call to call.
#[verifier::external_body]
fn os_random(length: usize) -> (bytes: Option<Vec<u8>>)
    requires
        length <= MAX_RANDOM_LENGTH,
    ensures
        bytes matches Some(b) ==> b@.len() == length,
{
    let mut bytes = vec![0u8; length];
    match rand::rngs::OsRng.try_fill_bytes(&mut bytes) {
        Ok(()) => Some(bytes),
        Err(_) => None,
    }
}

/// Calls `orion::kdf::derive_key` (Argon2i) on a `Password` and a `Salt`
/// made from the given bytes with `from_slice`. The contract claims that
/// the result is a function of the arguments alone, and that a derived key
/// has the length that was asked for, as `derive_key` allocates it. The
/// call allocates the memory that is asked for, so the contract asks for a
/// bound on it.
#[verifier::external_body]
fn argon2i_key(password: &[u8], salt: &[u8], iterations: u32, memory: u32, length: u32) -> (key: Option<
    Vec<u8>,
>)
    requires
        memory <= KDF_MAX_MEMORY,
    ensures
        match key {
            Some(k) => argon2i_of(password@, salt@, iterations, memory, length) == Some(k@)
                && k@.len() == length,
            None => argon2i_of(password@, salt@, iterations, memory, length).is_none(),
        },
{
    let password = orion::kdf::Password::from_slice(password).ok()?;
    let salt = orion::kdf::Salt::from_slice(salt).ok()?;
    let key = orion::kdf::derive_key(&password, &salt, iterations, memory, length).ok()?;
    Some(key.unprotected_as_bytes().to_vec())
}

/// Calls `orion::hazardous::aead::xchacha20poly1305::seal` with a
/// `SecretKey` and a `Nonce` made from the given bytes with `from_slice`, no
/// additional data, and `sealed` as the destination. The contract claims that
/// the call succeeds or fails, and what it writes, as a function of key,
/// nonce and plaintext alone, that it leaves the length of the destination
/// as it is, and, as the crate documents of `seal` and `open`, that
/// `orion::aead::open` gives the plaintext back from the nonce followed by
/// what was written. The call panics on very long input, and `open` refuses
/// what was sealed from nothing, so the contract asks for a plaintext that is
/// neither empty nor too long.
#[verifier::external_body]
fn aead_seal(key: &[u8], nonce: &[u8], plaintext: &[u8], sealed: &mut Vec<u8>) -> (done: bool)
    requires
        0 < plaintext@.len() <= MAX_PLAINTEXT_LENGTH,
        old(sealed)@.len() == plaintext@.len() + TAG_LENGTH,
    ensures
        final(sealed)@.len() == old(sealed)@.len(),
        done == aead_sealed(key@, nonce@, plaintext@).is_some(),
        done ==> aead_sealed(key@, nonce@, plaintext@) == Some(final(sealed)@),
        done ==> aead_opened(key@, nonce@ + final(sealed)@) == Some(plaintext@),
{
    let Ok(key) = orion::hazardous::aead::xchacha20poly1305::SecretKey::from_slice(key) else {
        return false;
    };
    let Ok(nonce) = orion::hazardous::aead::xchacha20poly1305::Nonce::from_slice(nonce) else {
        return false;
    };
    orion::hazardous::aead::xchacha20poly1305::seal(&key, &nonce, plaintext, None, sealed).is_ok()
}

/// Calls `orion::aead::open` with a `SecretKey` made from `key` with
/// `from_slice`. The contract claims that the result is a function of the
/// key and the sealed bytes alone. The call panics on very long input, so
/// the contract asks for a bound on the sealed bytes.
#[verifier::external_body]
fn aead_open(key: &[u8], sealed: &[u8]) -> (opened: Option<Vec<u8>>)
    requires
        sealed@.len() <= MAX_PLAINTEXT_LENGTH + SEAL_OVERHEAD,
    ensures
        match opened {
            Some(o) => aead_opened(key@, sealed@) == Some(o@),
            None => aead_opened(key@, sealed@).is_none(),
        },
{
    let key = orion::aead::SecretKey::from_slice(key).ok()?;
    orion::aead::open(&key, sealed).ok()
}

/// The signature scheme of a key.
#[derive(Clone, Copy, Debug, PartialEq, Eq, Hash, Structural)]
pub enum SchemeType {
    /// Ed25519.
    Ed25519,
    /// Secp256k1.
    Secp256k1,
    /// Whatever scheme the ledger uses where none is named.
    Common,
}

impl SchemeType {
    /// The scheme of the keys that are generated for this scheme: where none
    /// is named, Ed25519.
    pub open spec fn key_scheme(self) -> SchemeType {
        match self {
            SchemeType::Common => SchemeType::Ed25519,
            other => other,
        }
    }

    /// The byte that stands for the scheme in a stored key.
    pub open spec fn tag(self) -> u8 {
        match self {
            SchemeType::Ed25519 => 0,
            SchemeType::Secp256k1 => 1,
            SchemeType::Common => 2,
        }
    }
}

/// A secret key.
#[derive(Debug, PartialEq, Eq)]
pub struct SecretKey {
    pub scheme: SchemeType,
    pub bytes: Vec<u8>,
}

/// What a [`SecretKey`] stands for in contracts.
pub struct SecretKeyView {
    pub scheme: SchemeType,
    pub bytes: Seq<u8>,
}

impl SecretKeyView {
    /// The key as it is stored: the tag of its scheme, then its bytes.
    pub open spec fn encoded(self) -> Seq<u8> {
        seq![self.scheme.tag()] + self.bytes
    }
}

/// The key that stored bytes stand for, if they stand for one.
pub open spec fn decode_secret_key(bytes: Seq<u8>) -> Option<SecretKeyView> {
    if bytes.len() == 0 {
        None
    } else if bytes[0] == 0 {
        Some(SecretKeyView { scheme: SchemeType::Ed25519, bytes: bytes.skip(1) })
    } else if bytes[0] == 1 {
        Some(SecretKeyView { scheme: SchemeType::Secp256k1, bytes: bytes.skip(1) })
    } else if bytes[0] == 2 {
        Some(SecretKeyView { scheme: SchemeType::Common, bytes: bytes.skip(1) })
    } else {
        None
    }
}

/// A stored key is read back as the key that was stored.
pub proof fn lemma_secret_key_round_trip(key: SecretKeyView)
    ensures
        decode_secret_key(key.encoded()) == Some(key),
{
    assert(key.encoded()[0] == key.scheme.tag());
    assert(key.encoded().skip(1) =~= key.bytes);
}

impl View for SecretKey {
    type V = SecretKeyView;

    open spec fn view(&self) -> SecretKeyView {
        SecretKeyView { scheme: self.scheme, bytes: self.bytes@ }
    }
}

impl Clone for SecretKey {
    fn clone(&self) -> (copy: SecretKey)
        ensures
            copy@ == self@,
    {
        SecretKey { scheme: self.scheme, bytes: copy_bytes(self.bytes.as_slice()) }
    }
}

impl SecretKey {
    /// The key of the given scheme that is made of what the operating system
    /// gave: no key where it gave nothing, and else the key whose bytes are
    /// what it gave.
    pub fn generated(scheme: SchemeType, entropy: Option<Vec<u8>>) -> (key: Option<SecretKey>)
        ensures
            match entropy {
                Some(bytes) => key matches Some(k) && k@ == (SecretKeyView {
                    scheme: scheme.key_scheme(),
                    bytes: bytes@,
                }),
                None => key.is_none(),
            },
    {
        let key_scheme = match scheme {
            SchemeType::Common => SchemeType::Ed25519,
            other => other,
        };
        match entropy {
            Some(bytes) => Some(SecretKey { scheme: key_scheme, bytes }),
            None => None,
        }
    }

    /// The key as it is stored.
    pub fn to_bytes(&self) -> (bytes: Vec<u8>)
        ensures
            bytes@ == self@.encoded(),
    {
        let tag: u8 = match self.scheme {
            SchemeType::Ed25519 => 0,
            SchemeType::Secp256k1 => 1,
            SchemeType::Common => 2,
        };
        let mut bytes: Vec<u8> = Vec::new();
        bytes.push(tag);
        append_bytes(&mut bytes, self.bytes.as_slice());
        proof {
            assert(bytes@ =~= self@.encoded());
        }
        bytes
    }

    /// Read a stored key.
    pub fn from_bytes(bytes: &[u8]) -> (key: Option<SecretKey>)
        ensures
            match key {
                Some(k) => decode_secret_key(bytes@) == Some(k@),
                None => decode_secret_key(bytes@).is_none(),
            },
    {
        if bytes.len() == 0 {
            return None;
        }
        let scheme = match bytes[0] {
            0 => SchemeType::Ed25519,
            1 => SchemeType::Secp256k1,
            2 => SchemeType::Common,
            _ => {
                return None;
            },
        };
        let rest = vstd::slice::slice_subrange(bytes, 1, bytes.len());
        proof {
            assert(rest@ =~= bytes@.skip(1));
        }
        Some(SecretKey { scheme, bytes: copy_bytes(rest) })
    }
}

/// Why a key could not be generated or stored.
#[derive(Clone, Copy, Debug, PartialEq, Eq, Structural)]
pub enum KeyGenError {
    /// The operating system gave no random bytes.
    Entropy,
    /// The key could not be encrypted with the password.
    Encryption,
}

/// Why an encrypted key could not be read.
#[derive(Clone, Copy, Debug, PartialEq, Eq, Structural)]
pub enum DecryptionError {
    /// The stored bytes are too short to hold a salt.
    BadSalt,
    /// The password does not open the stored bytes.
    DecryptionError,
    /// What was opened is not a key.
    DeserializingError,
}

/// Ways in which operations on the wallet store can fail.
#[derive(Clone, Debug, PartialEq, Eq)]
pub enum ReadError {
    /// The wallet store could not be decoded.
    Decode(String),
    /// The wallet store could not be read from the path.
    ReadWallet(String, String),
    /// The wallet store could not be written.
    StoreNewWallet(String),
    /// A key could not be decrypted.
    Decryption(DecryptionError),
}

impl From<DecryptionError> for ReadError {
    fn from(err: DecryptionError) -> (error: ReadError) {
        ReadError::Decryption(err)
    }
}

impl vstd::std_specs::convert::FromSpecImpl<DecryptionError> for ReadError {
    open spec fn obeys_from_spec() -> bool {
        true
    }

    open spec fn from_spec(err: DecryptionError) -> ReadError {
        ReadError::Decryption(err)
    }
}

/// A generated key of the given scheme: [`SecretKey::generated`] of as many
/// random bytes as a key has. There is no key where the operating system
/// gives no random bytes.
pub fn gen_sk(scheme: SchemeType) -> (key: Option<SecretKey>)
    ensures
        key matches Some(k) ==> k@.scheme == scheme.key_scheme() && k@.bytes.len()
            == SECRET_KEY_LENGTH,
{
    SecretKey::generated(scheme, os_random(SECRET_KEY_LENGTH))
}

/// An encrypted key: the salt, then the sealed key.
#[derive(Debug, PartialEq, Eq)]
pub struct EncryptedKeypair(pub Vec<u8>);

/// The key that an encrypted key holds for a password, with the given cost
/// of deriving the encryption key.
pub open spec fn decrypted_key(stored: Seq<u8>, password: Seq<char>, iterations: u32, memory: u32) -> Result<
    SecretKeyView,
    DecryptionError,
> {
    if stored.len() < SALT_LENGTH {
        Err(DecryptionError::BadSalt)
    } else if memory > KDF_MAX_MEMORY || stored.len() > SALT_LENGTH + MAX_PLAINTEXT_LENGTH
        + SEAL_OVERHEAD {
        Err(DecryptionError::DecryptionError)
    } else {
        match argon2i_of(
            encode_utf8(password),
            stored.take(SALT_LENGTH as int),
            iterations,
            memory,
            KDF_KEY_LENGTH,
        ) {
            None => Err(DecryptionError::DecryptionError),
            Some(key) => match aead_opened(key, stored.skip(SALT_LENGTH as int)) {
                None => Err(DecryptionError::DecryptionError),
                Some(opened) => match decode_secret_key(opened) {
                    None => Err(DecryptionError::DeserializingError),
                    Some(key) => Ok(key),
                },
            },
        }
    }
}

/// The stored bytes of a key that is encrypted with a password, a salt and a
/// nonce, at the given cost of deriving the encryption key: the salt, the
/// nonce, and the key sealed with the encryption key that is derived from the
/// password and the salt. There are none where the salt or the nonce has not
/// its length, where the cost or the key is too large, where no encryption
/// key can be derived, or where the key cannot be sealed.
pub open spec fn encrypted_with(
    keypair: Seq<u8>,
    password: Seq<char>,
    iterations: u32,
    memory: u32,
    salt: Seq<u8>,
    nonce: Seq<u8>,
) -> Option<Seq<u8>> {
    if salt.len() != SALT_LENGTH || nonce.len() != NONCE_LENGTH || memory > KDF_MAX_MEMORY
        || keypair.len() > MAX_PLAINTEXT_LENGTH {
        None
    } else {
        match argon2i_of(encode_utf8(password), salt, iterations, memory, KDF_KEY_LENGTH) {
            None => None,
            Some(key) => match aead_sealed(key, nonce, keypair) {
                None => None,
                Some(sealed) => Some(salt + nonce + sealed),
            },
        }
    }
}

/// A vector of `length` zero bytes.
fn zero_bytes(length: usize) -> (bytes: Vec<u8>)
    ensures
        bytes@.len() == length,
        forall|i: int| 0 <= i < length ==> bytes@[i] == 0,
{
    let mut bytes: Vec<u8> = Vec::new();
    let mut i: usize = 0;
    while i < length
        invariant
            i <= length,
            bytes@.len() == i,
            forall|j: int| 0 <= j < i ==> bytes@[j] == 0,
        decreases length - i,
    {
        bytes.push(0);
        i += 1;
    }
    bytes
}

impl EncryptedKeypair {
    /// Encrypt a key with a password, a salt and a nonce, at the given cost
    /// of deriving the encryption key. What comes back decrypts to the key
    /// with the same password at the same cost.
    pub fn with_entropy(
        keypair: &SecretKey,
        password: &str,
        iterations: u32,
        memory: u32,
        salt: &[u8],
        nonce: &[u8],
    ) -> (encrypted: Option<EncryptedKeypair>)
        ensures
            match encrypted {
                Some(e) => encrypted_with(
                    keypair@.encoded(),
                    password@,
                    iterations,
                    memory,
                    salt@,
                    nonce@,
                ) == Some(e.0@),
                None => encrypted_with(
                    keypair@.encoded(),
                    password@,
                    iterations,
                    memory,
                    salt@,
                    nonce@,
                ).is_none(),
            },
            encrypted matches Some(e) ==> e.0@.len() == SALT_LENGTH + keypair@.encoded().len()
                + SEAL_OVERHEAD && decrypted_key(e.0@, password@, iterations, memory) == Ok::<
                SecretKeyView,
                DecryptionError,
            >(keypair@),
    {
        let data = keypair.to_bytes();
        if salt.len() != SALT_LENGTH || nonce.len() != NONCE_LENGTH || memory > KDF_MAX_MEMORY
            || data.len() > MAX_PLAINTEXT_LENGTH {
            return None;
        }
        let key = match argon2i_key(password.as_bytes(), salt, iterations, memory, KDF_KEY_LENGTH) {
            Some(key) => key,
            None => {
                return None;
            },
        };
        let mut sealed = zero_bytes(data.len() + TAG_LENGTH);
        if !aead_seal(key.as_slice(), nonce, data.as_slice(), &mut sealed) {
            return None;
        }
        let mut stored = copy_bytes(salt);
        append_bytes(&mut stored, nonce);
        append_bytes(&mut stored, sealed.as_slice());
        proof {
            assert(stored@ =~= salt@ + nonce@ + sealed@);
            assert(stored@.take(SALT_LENGTH as int) =~= salt@);
            assert(stored@.skip(SALT_LENGTH as int) =~= nonce@ + sealed@);
            lemma_secret_key_round_trip(keypair@);
        }
        Some(EncryptedKeypair(stored))
    }

    /// Encrypt a key with a password, at the given cost of deriving the
    /// encryption key: [`EncryptedKeypair::with_entropy`] with a salt and a
    /// nonce from the operating system. There is no encrypted key where the
    /// operating system gives no random bytes, nor where there is none with
    /// the salt and the nonce that it gave. What comes back starts with that
    /// salt and that nonce and decrypts to the key with the same password at
    /// the same cost.
    pub fn new_with_cost(keypair: &SecretKey, password: &str, iterations: u32, memory: u32) -> (encrypted: Option<
        EncryptedKeypair,
    >)
        ensures
            memory > KDF_MAX_MEMORY || keypair@.encoded().len() > MAX_PLAINTEXT_LENGTH
                ==> encrypted.is_none(),
            encrypted matches Some(e) ==> e.0@.len() == SALT_LENGTH + keypair@.encoded().len()
                + SEAL_OVERHEAD && encrypted_with(
                keypair@.encoded(),
                password@,
                iterations,
                memory,
                e.0@.subrange(0, SALT_LENGTH as int),
                e.0@.subrange(SALT_LENGTH as int, SALT_LENGTH + NONCE_LENGTH),
            ) == Some(e.0@) && decrypted_key(e.0@, password@, iterations, memory) == Ok::<
                SecretKeyView,
                DecryptionError,
            >(keypair@),
    {
        let entropy = match os_random(SALT_LENGTH + NONCE_LENGTH) {
            Some(entropy) => entropy,
            None => {
                return None;
            },
        };
        let salt = vstd::slice::slice_subrange(entropy.as_slice(), 0, SALT_LENGTH);
        let nonce = vstd::slice::slice_subrange(
            entropy.as_slice(),
            SALT_LENGTH,
            SALT_LENGTH + NONCE_LENGTH,
        );
        let encrypted = EncryptedKeypair::with_entropy(
            keypair,
            password,
            iterations,
            memory,
            salt,
            nonce,
        );
        proof {
            if encrypted.is_some() {
                let stored = encrypted.unwrap().0@;
                assert(stored.subrange(0, SALT_LENGTH as int) =~= salt@);
                assert(stored.subrange(SALT_LENGTH as int, SALT_LENGTH + NONCE_LENGTH) =~= nonce@);
            }
        }
        encrypted
    }

    /// Encrypt a key with a password at the cost that stored keys have:
    /// [`EncryptedKeypair::new_with_cost`] with [`KDF_ITERATIONS`] and
    /// [`KDF_MEMORY`]. What comes back decrypts to the key with
    /// [`EncryptedKeypair::decrypt`] and the same password.
    pub fn new(keypair: &SecretKey, password: &str) -> (encrypted: Option<EncryptedKeypair>)
        ensures
            keypair@.encoded().len() > MAX_PLAINTEXT_LENGTH ==> encrypted.is_none(),
            encrypted matches Some(e) ==> e.0@.len() == SALT_LENGTH + keypair@.encoded().len()
                + SEAL_OVERHEAD && encrypted_with(
                keypair@.encoded(),
                password@,
                KDF_ITERATIONS,
                KDF_MEMORY,
                e.0@.subrange(0, SALT_LENGTH as int),
                e.0@.subrange(SALT_LENGTH as int, SALT_LENGTH + NONCE_LENGTH),
            ) == Some(e.0@) && decrypted_key(e.0@, password@, KDF_ITERATIONS, KDF_MEMORY) == Ok::<
                SecretKeyView,
                DecryptionError,
            >(keypair@),
    {
        EncryptedKeypair::new_with_cost(keypair, password, KDF_ITERATIONS, KDF_MEMORY)
    }

    /// Decrypt the key with a password, at the given cost of deriving the
    /// encryption key.
    pub fn decrypt_with_cost(&self, password: &str, iterations: u32, memory: u32) -> (result: Result<
        SecretKey,
        DecryptionError,
    >)
        ensures
            match result {
                Ok(key) => decrypted_key(self.0@, password@, iterations, memory) == Ok::<
                    SecretKeyView,
                    DecryptionError,
                >(key@),
                Err(e) => decrypted_key(self.0@, password@, iterations, memory) == Err::<
                    SecretKeyView,
                    DecryptionError,
                >(e),
            },
    {
        if self.0.len() < SALT_LENGTH {
            return Err(DecryptionError::BadSalt);
        }
        if memory > KDF_MAX_MEMORY || self.0.len() > SALT_LENGTH + MAX_PLAINTEXT_LENGTH
            + SEAL_OVERHEAD {
            return Err(DecryptionError::DecryptionError);
        }
        let salt = vstd::slice::slice_subrange(self.0.as_slice(), 0, SALT_LENGTH);
        let sealed = vstd::slice::slice_subrange(self.0.as_slice(), SALT_LENGTH, self.0.len());
        proof {
            assert(salt@ =~= self.0@.take(SALT_LENGTH as int));
            assert(sealed@ =~= self.0@.skip(SALT_LENGTH as int));
        }
        let key = match argon2i_key(password.as_bytes(), salt, iterations, memory, KDF_KEY_LENGTH) {
            Some(key) => key,
            None => {
                return Err(DecryptionError::DecryptionError);
            },
        };
        let opened = match aead_open(key.as_slice(), sealed) {
            Some(opened) => opened,
            None => {
                return Err(DecryptionError::DecryptionError);
            },
        };
        match SecretKey::from_bytes(opened.as_slice()) {
            Some(key) => Ok(key),
            None => Err(DecryptionError::DeserializingError),
        }
    }

    /// Decrypt the key with a password.
    pub fn decrypt(&self, password: &str) -> (result: Result<SecretKey, DecryptionError>)
        ensures
            match result {
                Ok(key) => decrypted_key(self.0@, password@, KDF_ITERATIONS, KDF_MEMORY) == Ok::<
                    SecretKeyView,
                    DecryptionError,
                >(key@),
                Err(e) => decrypted_key(self.0@, password@, KDF_ITERATIONS, KDF_MEMORY) == Err::<
                    SecretKeyView,
                    DecryptionError,
                >(e),
            },
    {
        self.decrypt_with_cost(password, KDF_ITERATIONS, KDF_MEMORY)
    }
}

/// A key as the wallet stores it.
#[derive(Debug, PartialEq, Eq)]
pub enum StoredKeypair {
    /// An encrypted key.
    Encrypted(EncryptedKeypair),
    /// A key as it is.
    Raw(SecretKey),
}

/// What a [`StoredKeypair`] stands for in contracts.
pub enum StoredKeypairView {
    Encrypted(Seq<u8>),
    Raw(SecretKeyView),
}

impl View for StoredKeypair {
    type V = StoredKeypairView;

    open spec fn view(&self) -> StoredKeypairView {
        match self {
            StoredKeypair::Encrypted(encrypted) => StoredKeypairView::Encrypted(encrypted.0@),
            StoredKeypair::Raw(key) => StoredKeypairView::Raw(key@),
        }
    }
}

impl StoredKeypair {
    /// Store a key: encrypted if there is a password, as it is otherwise.
    /// The key itself comes back beside the stored one. Storing without a
    /// password always succeeds. An encrypted key decrypts to the key with
    /// the password.
    pub fn new(keypair: SecretKey, password: Option<String>) -> (result: Option<
        (StoredKeypair, SecretKey),
    >)
        ensures
            password.is_none() ==> result.is_some(),
            result matches Some(pair) ==> pair.1@ == keypair@ && match password {
                None => pair.0@ == StoredKeypairView::Raw(keypair@),
                Some(secret) => pair.0@ matches StoredKeypairView::Encrypted(stored)
                    && stored.len() == SALT_LENGTH + keypair@.encoded().len() + SEAL_OVERHEAD
                    && decrypted_key(stored, secret@, KDF_ITERATIONS, KDF_MEMORY) == Ok::<
                    SecretKeyView,
                    DecryptionError,
                >(keypair@),
            },
    {
        match password {
            Some(password) => match EncryptedKeypair::new(&keypair, password.as_str()) {
                Some(encrypted) => Some((StoredKeypair::Encrypted(encrypted), keypair)),
                None => None,
            },
            None => {
                let stored = keypair.clone();
                Some((StoredKeypair::Raw(stored), keypair))
            },
        }
    }
}

/// The keys that a validator uses in the protocol.
#[derive(Debug, PartialEq, Eq)]
pub struct ValidatorKeys {
    /// The key with which the validator signs protocol transactions.
    pub protocol_keypair: SecretKey,
}

/// The store of a validator's wallet before genesis: all the keys that the
/// genesis setup needs, as they are stored.
#[derive(Debug, PartialEq, Eq)]
pub struct ValidatorStore {
    /// The key of the validator's account.
    pub account_key: StoredKeypair,
    /// The consensus key.
    pub consensus_key: StoredKeypair,
    /// The key of the node.
    pub tendermint_node_key: StoredKeypair,
    /// The keys that the validator uses in the protocol.
    pub validator_keys: ValidatorKeys,
}

/// A validator's wallet before genesis: the store and the keys in the
/// clear.
#[derive(Debug, PartialEq, Eq)]
pub struct ValidatorWallet {
    /// The store that can be written and read.
    pub store: ValidatorStore,
    /// The key of the validator's account.
    pub account_key: SecretKey,
    /// The consensus key.
    pub consensus_key: SecretKey,
    /// The key of the node.
    pub tendermint_node_key: SecretKey,
}

/// Generate a key and store it, encrypted if there is a password. Fails
/// only when the operating system gives no random bytes or when the key
/// cannot be encrypted. An encrypted key decrypts to the generated key with
/// the password.
pub fn gen_key_to_store(scheme: SchemeType, password: &Option<String>) -> (result: Result<
    (StoredKeypair, SecretKey),
    KeyGenError,
>)
    ensures
        match result {
            Ok(pair) => pair.1@.scheme == scheme.key_scheme() && pair.1@.bytes.len()
                == SECRET_KEY_LENGTH && match password {
                None => pair.0@ == StoredKeypairView::Raw(pair.1@),
                Some(secret) => pair.0@ matches StoredKeypairView::Encrypted(stored)
                    && stored.len() == SALT_LENGTH + 1 + SECRET_KEY_LENGTH + SEAL_OVERHEAD
                    && decrypted_key(stored, secret@, KDF_ITERATIONS, KDF_MEMORY) == Ok::<
                    SecretKeyView,
                    DecryptionError,
                >(pair.1@),
            },
            Err(e) => e == KeyGenError::Encryption ==> password.is_some(),
        },
{
    let sk = match gen_sk(scheme) {
        Some(sk) => sk,
        None => {
            return Err(KeyGenError::Entropy);
        },
    };
    let password = match password {
        Some(password) => Some(password.clone()),
        None => None,
    };
    match StoredKeypair::new(sk, password) {
        Some(pair) => Ok(pair),
        None => Err(KeyGenError::Encryption),
    }
}

} // verus!
