//! The network protocols: their names, the encrypted envelope, and the key agreement message.
use vstd::prelude::*;

verus! {

/// Name of the key agreement protocol.
pub const KEY_PROTOCOL: &'static str = "/peerchat/key/1.0.0";

/// Name of the chat protocol.
pub const CHAT_PROTOCOL: &'static str = "/peerchat/chat/1.0.0";

/// Name of the file transfer protocol.
pub const FILE_PROTOCOL: &'static str = "/peerchat/file/1.0.0";

/// Name of the protocol of the distributed hash table, which is not that of any public one.
pub const KAD_PROTOCOL: &'static str = "/peerchat/kad/1.0.0";

/// The key under which all nodes announce themselves in the distributed hash table.
pub const DISCOVERY_KEY: &'static str = "peerchat-discovery-v1";

/// Key agreement: each side tells its nickname and its application public key.
#[derive(Debug, PartialEq)]
pub struct KeyHello {
    /// Nickname of the sender.
    pub nickname: String,
    /// X25519 public key of the sender.
    pub pubkey: [u8; 32],
}

/// What a [`KeyHello`] says.
pub struct KeyHelloModel {
    pub nickname: Seq<char>,
    pub pubkey: Seq<u8>,
}

impl View for KeyHello {
    type V = KeyHelloModel;

    open spec fn view(&self) -> KeyHelloModel {
        KeyHelloModel { nickname: self.nickname@, pubkey: self.pubkey@ }
    }
}

/// An encrypted message as it travels: nonce, and ciphertext with its tag, both in base64.
#[derive(Debug, PartialEq)]
pub struct Envelope {
    /// The nonce, twelve bytes in base64.
    pub nonce: String,
    /// The ciphertext followed by the authentication tag, in base64.
    pub ciphertext: String,
}

/// What an [`Envelope`] holds.
pub struct EnvelopeModel {
    pub nonce: Seq<char>,
    pub ciphertext: Seq<char>,
}

impl View for Envelope {
    type V = EnvelopeModel;

    open spec fn view(&self) -> EnvelopeModel {
        EnvelopeModel { nonce: self.nonce@, ciphertext: self.ciphertext@ }
    }
}

} // verus!
