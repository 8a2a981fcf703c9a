//! The application layer of encryption: key agreement, session keys, sealed envelopes.
//!
//! Two nodes exchange X25519 public keys; each computes the shared secret and derives the same
//! session key from it with HKDF-SHA256. Messages are sealed with ChaCha20-Poly1305 under that
//! key, so that whatever was changed on the way does not open.
use base64::Engine;
use chacha20poly1305::aead::generic_array::GenericArray;
use chacha20poly1305::aead::Aead;
use chacha20poly1305::{ChaCha20Poly1305, KeyInit, Nonce};
use hkdf::Hkdf;
use rand::RngCore;
use sha2::{Digest, Sha256};
use vstd::prelude::*;
use vstd::string::StringSliceAdditionalSpecFns;
use x25519_dalek::{PublicKey, StaticSecret};
use crate::protocol::{Envelope, EnvelopeModel};

verus! {

/// What `base64`'s standard engine writes for the bytes.
pub uninterp spec fn base64_text(data: Seq<u8>) -> Seq<char>;

/// What `base64`'s standard engine reads from the text: the bytes, or its error in words.
pub uninterp spec fn base64_outcome(text: Seq<char>) -> Result<Seq<u8>, Seq<char>>;

/// The SHA-256 digest of the bytes, as `sha2` computes it.
pub uninterp spec fn sha256_digest(data: Seq<u8>) -> Seq<u8>;

/// The X25519 public key of a secret, as `x25519-dalek` computes it.
pub uninterp spec fn x25519_public(secret: Seq<u8>) -> Seq<u8>;

/// The X25519 shared secret of a secret and a public key, as `x25519-dalek` computes it.
pub uninterp spec fn x25519_shared(secret: Seq<u8>, public: Seq<u8>) -> Seq<u8>;

/// The 32 bytes that `hkdf` derives with SHA-256 from salt, key material and purpose.
pub uninterp spec fn hkdf_key(salt: Seq<u8>, material: Seq<u8>, info: Seq<u8>) -> Seq<u8>;

/// The ciphertext and tag that `chacha20poly1305` makes of a message.
pub uninterp spec fn chacha_sealed(key: Seq<u8>, nonce: Seq<u8>, message: Seq<u8>) -> Seq<u8>;

/// The message that `chacha20poly1305` finds in a ciphertext with its tag, if the tag fits.
pub uninterp spec fn chacha_opened(key: Seq<u8>, nonce: Seq<u8>, sealed: Seq<u8>) -> Option<
    Seq<u8>,
>;

/// The error of `chacha20poly1305`, which says nothing but that it failed.
#[verifier::external_type_specification]
#[verifier::external_body]
pub struct ExAeadError(chacha20poly1305::aead::Error);

/// `base64`'s `encode` with the standard engine: gives the text a name, and claims that the
/// text decodes to the bytes again.
#[verifier::external_body]
pub(crate) fn base64_encode(data: &[u8]) -> (text: String)
    ensures
        text@ == base64_text(data@),
        base64_outcome(text@) == Decoded::Ok(data@),
{
    base64::engine::general_purpose::STANDARD.encode(data)
}

/// What reading base64 gives: bytes, or an error in words.
pub type Decoded = Result<Seq<u8>, Seq<char>>;

/// The bytes or the error text are those of the outcome.
pub open spec fn is_outcome(
    result: Result<Vec<u8>, String>,
    outcome: Decoded,
) -> bool {
    match result {
        Ok(bytes) => outcome == Decoded::Ok(bytes@),
        Err(error) => outcome == Decoded::Err(error@),
    }
}

/// `base64`'s `decode` with the standard engine, its error put in words: gives the outcome a
/// name.
#[verifier::external_body]
pub(crate) fn base64_decode(text: &str) -> (result: Result<Vec<u8>, String>)
    ensures
        is_outcome(result, base64_outcome(text@)),
{
    base64::engine::general_purpose::STANDARD.decode(text).map_err(|e| e.to_string())
}

/// `sha2`'s `Sha256` over the bytes: gives the digest a name.
#[verifier::external_body]
fn sha256(data: &[u8]) -> (digest: [u8; 32])
    ensures
        digest@ == sha256_digest(data@),
{
    let mut h = Sha256::new();
    h.update(data);
    h.finalize().into()
}

/// The lower-case hexadecimal digit of a number below sixteen.
pub open spec fn hex_digit(d: u8) -> char {
    if d < 10 {
        (48 + d) as char
    } else {
        (87 + d) as char
    }
}

/// The bytes in lower-case hexadecimal, two digits each, the high one first.
pub open spec fn hex_text(data: Seq<u8>) -> Seq<char> {
    Seq::new(
        2 * data.len(),
        |i: int|
            if i % 2 == 0 {
                hex_digit(data[i / 2] / 16)
            } else {
                hex_digit(data[i / 2] % 16)
            },
    )
}

/// `hex`'s `encode`: two lower-case digits for each byte.
#[verifier::external_body]
pub(crate) fn hex_encode(data: &[u8]) -> (text: String)
    ensures
        text@ == hex_text(data@),
{
    hex::encode(data)
}

/// `x25519-dalek`'s `PublicKey::from` a secret of these bytes: gives the public key a name.
#[verifier::external_body]
fn public_key(secret: &[u8; 32]) -> (public: [u8; 32])
    ensures
        public@ == x25519_public(secret@),
{
    PublicKey::from(&StaticSecret::from(*secret)).to_bytes()
}

/// `x25519-dalek`'s `diffie_hellman`: gives the shared secret a name, and claims that the owner
/// of the secret behind the public key computes the same from this secret's public key.
#[verifier::external_body]
fn shared_secret(secret: &[u8; 32], public: &[u8; 32]) -> (shared: [u8; 32])
    ensures
        shared@ == x25519_shared(secret@, public@),
        forall|other: Seq<u8>|
            other.len() == 32 && public@ == #[trigger] x25519_public(other) ==> shared@
                == x25519_shared(other, x25519_public(secret@)),
{
    StaticSecret::from(*secret).diffie_hellman(&PublicKey::from(*public)).to_bytes()
}

/// `hkdf`'s `new` and `expand` with SHA-256 to 32 bytes, a length that `expand` never refuses:
/// gives the bytes a name.
#[verifier::external_body]
fn hkdf_sha256(salt: &[u8], material: &[u8], info: &[u8]) -> (key: [u8; 32])
    ensures
        key@ == hkdf_key(salt@, material@, info@),
{
    let mut key = [0u8; 32];
    Hkdf::<Sha256>::new(Some(salt), material).expand(info, &mut key).expect("32 bytes fit");
    key
}

/// `x25519-dalek`'s `StaticSecret::random_from_rng` with `rand`'s thread generator. The bytes are
/// random: nothing is claimed of them.
#[verifier::external_body]
fn random_secret() -> (secret: [u8; 32]) {
    StaticSecret::random_from_rng(&mut rand::thread_rng()).to_bytes()
}

/// `rand`'s `fill_bytes` with the thread generator. The bytes are random: nothing is claimed of
/// them.
#[verifier::external_body]
fn random_nonce() -> (nonce: [u8; 12]) {
    let mut nonce = [0u8; 12];
    rand::thread_rng().fill_bytes(&mut nonce);
    nonce
}

/// The length of a message that runs out of cipher blocks within its last, unfilled block: there
/// the cipher neither succeeds nor reports an error.
pub open spec fn exhausts_blocks(n: nat) -> bool {
    n / 64 == u32::MAX - 1 && n % 64 != 0
}

/// The message is short enough for the cipher's block counter.
pub open spec fn sealable(n: nat) -> bool {
    n / 64 < u32::MAX
}

/// `chacha20poly1305`'s `encrypt` without associated data: fails exactly on messages too long
/// for its block counter, else appends sixteen bytes of tag. Gives the result a name, and claims
/// that it opens to the message again.
#[verifier::external_body]
fn chacha_seal(key: &[u8; 32], nonce: &[u8; 12], message: &[u8]) -> (sealed: Result<
    Vec<u8>,
    chacha20poly1305::aead::Error,
>)
    requires
        !exhausts_blocks(message@.len()),
    ensures
        sealed is Ok <==> sealable(message@.len()),
        sealed matches Ok(s) ==> {
            &&& s@ == chacha_sealed(key@, nonce@, message@)
            &&& s@.len() == message@.len() + 16
            &&& chacha_opened(key@, nonce@, s@) == Some(message@)
        },
{
    ChaCha20Poly1305::new(GenericArray::from_slice(key)).encrypt(
        Nonce::from_slice(nonce),
        message,
    )
}

/// `chacha20poly1305`'s `decrypt` without associated data. Gives the result a name, and claims
/// that whatever opens is what sealing the message gives: nothing else passes the tag.
#[verifier::external_body]
fn chacha_open(key: &[u8; 32], nonce: &[u8; 12], sealed: &[u8]) -> (message: Result<
    Vec<u8>,
    chacha20poly1305::aead::Error,
>)
    requires
        sealed@.len() < 16 || !exhausts_blocks((sealed@.len() - 16) as nat),
    ensures
        message is Ok <==> chacha_opened(key@, nonce@, sealed@) is Some,
        message matches Ok(m) ==> {
            &&& chacha_opened(key@, nonce@, sealed@) == Some(m@)
            &&& sealed@ == chacha_sealed(key@, nonce@, m@)
            &&& sealed@.len() == m@.len() + 16
        },
{
    ChaCha20Poly1305::new(GenericArray::from_slice(key)).decrypt(Nonce::from_slice(nonce), sealed)
}

/// Salt of the session key derivation.
pub const SESSION_SALT: &'static str = "peerchat-app-v1";

/// Purpose of the session key derivation.
pub const SESSION_INFO: &'static str = "session-key";

/// The session key that the owner of the secret shares with the owner of the public key.
pub open spec fn session_key(secret: Seq<u8>, remote: Seq<u8>) -> Seq<u8> {
    hkdf_key(SESSION_SALT.spec_bytes(), x25519_shared(secret, remote), SESSION_INFO.spec_bytes())
}

/// The key pair of this node for the application layer.
pub struct AppCrypto {
    secret: [u8; 32],
    /// The public key, which other nodes may know.
    pub pubkey: [u8; 32],
}

/// What an [`AppCrypto`] holds.
pub struct CryptoModel {
    pub secret: Seq<u8>,
    pub pubkey: Seq<u8>,
}

impl View for AppCrypto {
    type V = CryptoModel;

    closed spec fn view(&self) -> CryptoModel {
        CryptoModel { secret: self.secret@, pubkey: self.pubkey@ }
    }
}

impl AppCrypto {
    /// The public key is that of the secret.
    pub open spec fn wf(&self) -> bool {
        &&& self@.pubkey == x25519_public(self@.secret)
        &&& self@.secret.len() == 32
    }

    /// A fresh, random key pair.
    pub fn new() -> (keys: Self)
        ensures
            keys.wf(),
    {
        let secret = random_secret();
        AppCrypto::from_secret_bytes(&secret)
    }

    /// The key pair of a secret that was kept.
    pub fn from_secret_bytes(bytes: &[u8; 32]) -> (keys: Self)
        ensures
            keys.wf(),
            keys@.secret == bytes@,
    {
        let pubkey = public_key(bytes);
        AppCrypto { secret: *bytes, pubkey }
    }

    /// The secret, to be kept.
    pub fn secret_bytes(&self) -> (bytes: &[u8; 32])
        ensures
            bytes@ == self@.secret,
    {
        &self.secret
    }

    /// The public key.
    pub fn public_bytes(&self) -> (bytes: [u8; 32])
        ensures
            bytes@ == self@.pubkey,
    {
        self.pubkey
    }

    /// The session key shared with the owner of the public key. That node derives the same key
    /// from this node's public key.
    pub fn derive_session_key(&self, remote_pubkey: &[u8; 32]) -> (key: [u8; 32])
        ensures
            key@ == session_key(self@.secret, remote_pubkey@),
            forall|other: Seq<u8>|
                other.len() == 32 && remote_pubkey@ == #[trigger] x25519_public(other) ==> key@
                    == session_key(other, x25519_public(self@.secret)),
    {
        let shared = shared_secret(&self.secret, remote_pubkey);
        hkdf_sha256(SESSION_SALT.as_bytes(), &shared, SESSION_INFO.as_bytes())
    }
}

impl Default for AppCrypto {
    /// A fresh, random key pair.
    fn default() -> (keys: Self)
        ensures
            keys.wf(),
    {
        AppCrypto::new()
    }
}

/// Why a kept key could not be restored.
#[derive(Debug, PartialEq)]
pub enum KeyError {
    /// The text is not base64; the reason in words.
    Base64(String),
    /// The key does not have 32 bytes.
    Length,
}

/// What a [`KeyError`] says.
pub enum KeyErrorModel {
    Base64(Seq<char>),
    Length,
}

impl View for KeyError {
    type V = KeyErrorModel;

    open spec fn view(&self) -> KeyErrorModel {
        match self {
            KeyError::Base64(text) => KeyErrorModel::Base64(text@),
            KeyError::Length => KeyErrorModel::Length,
        }
    }
}

/// What restoring a secret gives.
pub type Kept = Result<Seq<u8>, KeyErrorModel>;

/// The secret that a text keeps, or why it keeps none.
pub open spec fn kept_secret(text: Seq<char>) -> Kept {
    match base64_outcome(text) {
        Err(error) => Err(KeyErrorModel::Base64(error)),
        Ok(bytes) => if bytes.len() != 32 {
            Err(KeyErrorModel::Length)
        } else {
            Ok(bytes)
        },
    }
}

/// The key pair as a text, to be kept. The text restores the same secret.
pub fn appkey_to_b64(keys: &AppCrypto) -> (text: String)
    ensures
        text@ == base64_text(keys@.secret),
        kept_secret(text@) == Kept::Ok(keys@.secret),
{
    assert(keys.secret@.len() == 32);
    base64_encode(&keys.secret)
}

/// Copies 32 bytes into an array.
fn to_array32(bytes: &Vec<u8>) -> (array: [u8; 32])
    requires
        bytes@.len() == 32,
    ensures
        array@ == bytes@,
{
    let mut array = [0u8; 32];
    let mut i: usize = 0;
    while i < 32
        invariant
            i <= 32,
            bytes@.len() == 32,
            forall|j: int| 0 <= j < i ==> #[trigger] array@[j] == bytes@[j],
        decreases 32 - i,
    {
        array[i] = bytes[i];
        i = i + 1;
    }
    assert(array@ =~= bytes@);
    array
}

/// Copies twelve bytes into an array.
fn to_array12(bytes: &Vec<u8>) -> (array: [u8; 12])
    requires
        bytes@.len() == 12,
    ensures
        array@ == bytes@,
{
    let mut array = [0u8; 12];
    let mut i: usize = 0;
    while i < 12
        invariant
            i <= 12,
            bytes@.len() == 12,
            forall|j: int| 0 <= j < i ==> #[trigger] array@[j] == bytes@[j],
        decreases 12 - i,
    {
        array[i] = bytes[i];
        i = i + 1;
    }
    assert(array@ =~= bytes@);
    array
}

/// The key pair that a kept text restores.
pub fn appkey_from_b64(text: &str) -> (result: Result<AppCrypto, KeyError>)
    ensures
        match result {
            Ok(keys) => keys.wf() && kept_secret(text@) == Kept::Ok(
                keys@.secret,
            ),
            Err(error) => kept_secret(text@) == Kept::Err(error@),
        },
{
    match base64_decode(text) {
        Err(error) => Err(KeyError::Base64(error)),
        Ok(bytes) => {
            if bytes.len() != 32 {
                return Err(KeyError::Length);
            }
            let array = to_array32(&bytes);
            Ok(AppCrypto::from_secret_bytes(&array))
        },
    }
}

/// The SHA-256 digest of the bytes in hexadecimal.
pub fn sha256_hex(data: &[u8]) -> (text: String)
    ensures
        text@ == hex_text(sha256_digest(data@)),
{
    let digest = sha256(data);
    hex_encode(&digest)
}

/// Why a message could not be sealed or opened.
#[derive(Debug, PartialEq)]
pub enum CryptoError {
    /// A part of the envelope is not base64; the reason in words.
    Base64(String),
    /// The cipher refused: too long to seal, or changed since it was sealed.
    Aead,
}

/// What a [`CryptoError`] says.
pub enum CryptoErrorModel {
    Base64(Seq<char>),
    Aead,
}

impl View for CryptoError {
    type V = CryptoErrorModel;

    open spec fn view(&self) -> CryptoErrorModel {
        match self {
            CryptoError::Base64(text) => CryptoErrorModel::Base64(text@),
            CryptoError::Aead => CryptoErrorModel::Aead,
        }
    }
}

impl CryptoErrorModel {
    /// The error in words.
    pub open spec fn text(self) -> Seq<char> {
        match self {
            CryptoErrorModel::Base64(text) => text,
            CryptoErrorModel::Aead => "aead::Error"@,
        }
    }
}

impl CryptoError {
    /// The error in words.
    pub fn text(&self) -> (text: String)
        ensures
            text@ == self@.text(),
    {
        match self {
            CryptoError::Base64(text) => text.clone(),
            CryptoError::Aead => "aead::Error".to_owned(),
        }
    }
}

/// The envelope of a message under a key and a nonce.
pub open spec fn sealed_envelope(key: Seq<u8>, nonce: Seq<u8>, message: Seq<u8>) -> EnvelopeModel {
    EnvelopeModel {
        nonce: base64_text(nonce),
        ciphertext: base64_text(chacha_sealed(key, nonce, message)),
    }
}

/// The envelope holds the nonce and what sealing the message under key and nonce gives.
pub open spec fn holds(
    envelope: EnvelopeModel,
    key: Seq<u8>,
    nonce: Seq<u8>,
    message: Seq<u8>,
) -> bool {
    &&& nonce.len() == 12
    &&& base64_outcome(envelope.nonce) == Decoded::Ok(nonce)
    &&& base64_outcome(envelope.ciphertext) == Decoded::Ok(chacha_sealed(key, nonce, message))
}

/// The envelope is what sealing the message under the key, with some nonce, gives.
pub open spec fn was_sealed(envelope: EnvelopeModel, key: Seq<u8>, message: Seq<u8>) -> bool {
    exists|nonce: Seq<u8>| #[trigger] holds(envelope, key, nonce, message)
}

/// The envelope has the shape of one for a message of that length: twelve bytes of nonce, and a
/// ciphertext that is longer than the message by the sixteen bytes of the tag, both in base64.
pub open spec fn carries(envelope: EnvelopeModel, n: nat) -> bool {
    &&& base64_outcome(envelope.nonce) matches Ok(nonce) && nonce.len() == 12
    &&& base64_outcome(envelope.ciphertext) matches Ok(sealed) && sealed.len() == n + 16
}

/// What opening an envelope gives.
pub type Opened = Result<Seq<u8>, CryptoErrorModel>;

/// The message in an envelope, or why it does not open: a part is not base64, the nonce does not
/// have twelve bytes, or the ciphertext is not what sealing some message under the key gives.
pub open spec fn opened(key: Seq<u8>, envelope: EnvelopeModel) -> Opened {
    match (base64_outcome(envelope.nonce), base64_outcome(envelope.ciphertext)) {
        (Err(error), _) => Err(CryptoErrorModel::Base64(error)),
        (Ok(_), Err(error)) => Err(CryptoErrorModel::Base64(error)),
        (Ok(nonce), Ok(sealed)) => if nonce.len() != 12 || (sealed.len() >= 16 && exhausts_blocks(
            (sealed.len() - 16) as nat,
        )) {
            Err(CryptoErrorModel::Aead)
        } else {
            match chacha_opened(key, nonce, sealed) {
                Some(message) => Ok(message),
                None => Err(CryptoErrorModel::Aead),
            }
        },
    }
}

/// Seals a message under a key with a given nonce. What was sealed opens to the message.
pub fn seal(key: &[u8; 32], nonce: &[u8; 12], plaintext: &[u8]) -> (result: Result<
    Envelope,
    CryptoError,
>)
    requires
        !exhausts_blocks(plaintext@.len()),
    ensures
        result is Ok <==> sealable(plaintext@.len()),
        result matches Ok(envelope) ==> {
            &&& envelope@ == sealed_envelope(key@, nonce@, plaintext@)
            &&& opened(key@, envelope@) == Opened::Ok(plaintext@)
            &&& carries(envelope@, plaintext@.len())
        },
        result matches Err(error) ==> error is Aead,
{
    match chacha_seal(key, nonce, plaintext) {
        Err(_) => Err(CryptoError::Aead),
        Ok(sealed) => {
            let nonce_text = base64_encode(nonce);
            let ciphertext = base64_encode(&sealed);
            Ok(Envelope { nonce: nonce_text, ciphertext })
        },
    }
}

/// Seals a message under a key with a fresh random nonce.
pub fn encrypt(key: &[u8; 32], plaintext: &[u8]) -> (result: Result<Envelope, CryptoError>)
    requires
        !exhausts_blocks(plaintext@.len()),
    ensures
        result is Ok <==> sealable(plaintext@.len()),
        result matches Ok(envelope) ==> {
            &&& exists|nonce: Seq<u8>|
                nonce.len() == 12 && envelope@ == #[trigger] sealed_envelope(
                    key@,
                    nonce,
                    plaintext@,
                )
            &&& opened(key@, envelope@) == Opened::Ok(plaintext@)
            &&& carries(envelope@, plaintext@.len())
        },
        result matches Err(error) ==> error is Aead,
{
    let nonce = random_nonce();
    seal(key, &nonce, plaintext)
}

/// Opens an envelope. Whatever was changed since it was sealed is an error: what opens is exactly
/// what sealing the message under the key and the envelope's nonce gives.
pub fn decrypt(key: &[u8; 32], envelope: &Envelope) -> (result: Result<Vec<u8>, CryptoError>)
    ensures
        match result {
            Ok(message) => {
                &&& opened(key@, envelope@) == Opened::Ok(message@)
                &&& was_sealed(envelope@, key@, message@)
                &&& carries(envelope@, message@.len())
            },
            Err(error) => opened(key@, envelope@) == Opened::Err(error@),
        },
{
    let nonce_bytes = match base64_decode(&envelope.nonce) {
        Ok(bytes) => bytes,
        Err(error) => return Err(CryptoError::Base64(error)),
    };
    let sealed = match base64_decode(&envelope.ciphertext) {
        Ok(bytes) => bytes,
        Err(error) => return Err(CryptoError::Base64(error)),
    };
    if nonce_bytes.len() != 12 {
        return Err(CryptoError::Aead);
    }
    if sealed.len() >= 16 {
        let n: u64 = (sealed.len() - 16) as u64;
        if n / 64 == 0xffff_fffe && n % 64 != 0 {
            return Err(CryptoError::Aead);
        }
    }
    let nonce = to_array12(&nonce_bytes);
    match chacha_open(key, &nonce, &sealed) {
        Ok(message) => {
            assert(holds(envelope@, key@, nonce@, message@));
            Ok(message)
        },
        Err(_) => Err(CryptoError::Aead),
    }
}

/// Bytes in hexadecimal tell the bytes: two digits for each, and different bytes are written
/// differently.
pub proof fn law_hex_tells_the_bytes(a: Seq<u8>, b: Seq<u8>)
    ensures
        hex_text(a).len() == 2 * a.len(),
        hex_text(a) == hex_text(b) ==> a == b,
        forall|i: int|
            0 <= i < hex_text(a).len() ==> '0' <= #[trigger] hex_text(a)[i] <= '9' || 'a'
                <= hex_text(a)[i] <= 'f',
{
    if hex_text(a) == hex_text(b) {
        assert(a.len() == b.len()) by {
            assert(hex_text(a).len() == 2 * a.len() && hex_text(b).len() == 2 * b.len());
        }
        assert forall|i: int| 0 <= i < a.len() implies a[i] == b[i] by {
            let high = 2 * i;
            let low = 2 * i + 1;
            assert(high / 2 == i && low / 2 == i && high % 2 == 0 && low % 2 == 1);
            assert(hex_text(a)[high] == hex_digit(a[i] / 16));
            assert(hex_text(b)[high] == hex_digit(b[i] / 16));
            assert(hex_text(a)[low] == hex_digit(a[i] % 16));
            assert(hex_text(b)[low] == hex_digit(b[i] % 16));
            assert(a[i] / 16 == b[i] / 16 && a[i] % 16 == b[i] % 16);
        }
        assert(a =~= b);
    }
}

/// Both sides derive the session key in the same way: from what they share, for this purpose of
/// this application. What they share is all that tells one key from another.
pub proof fn law_session_key_is_of_what_is_shared(
    secret: Seq<u8>,
    remote: Seq<u8>,
    other: Seq<u8>,
    public: Seq<u8>,
)
    requires
        x25519_shared(secret, remote) == x25519_shared(other, public),
    ensures
        session_key(secret, remote) == session_key(other, public),
        session_key(secret, remote) == hkdf_key(
            "peerchat-app-v1".spec_bytes(),
            x25519_shared(secret, remote),
            "session-key".spec_bytes(),
        ),
{
}

/// An envelope opens only if both its parts are base64 and its nonce has twelve bytes, and a part
/// that is not base64 is told of, the nonce first.
pub proof fn law_only_whole_envelopes_open(key: Seq<u8>, envelope: EnvelopeModel)
    ensures
        opened(key, envelope) is Ok ==> base64_outcome(envelope.nonce) is Ok && base64_outcome(
            envelope.ciphertext,
        ) is Ok,
        opened(key, envelope) matches Ok(message) ==> (base64_outcome(envelope.nonce) matches Ok(
            nonce,
        ) && nonce.len() == 12 && (base64_outcome(envelope.ciphertext) matches Ok(sealed)
            && chacha_opened(key, nonce, sealed) == Some(message))),
        base64_outcome(envelope.nonce) matches Err(error) ==> opened(key, envelope) == Opened::Err(
            CryptoErrorModel::Base64(error),
        ),
        base64_outcome(envelope.nonce) is Ok ==> (base64_outcome(envelope.ciphertext) matches Err(
            error,
        ) ==> opened(key, envelope) == Opened::Err(CryptoErrorModel::Base64(error))),
{
}

} // verus!
