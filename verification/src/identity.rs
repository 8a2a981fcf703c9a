//! Who a node is: peer ids, identity key pairs, and the addresses under which nodes are reached.
use libp2p::identity::Keypair as Libp2pKeypair;
use libp2p::multiaddr::{Multiaddr, Protocol};
use libp2p::PeerId as Libp2pPeerId;
use vstd::prelude::*;
use crate::table::{opt, views, Dup, Key};
use crate::text::Label;

verus! {

/// The id of a node, in its base58 form.
#[derive(Debug, PartialEq)]
pub struct PeerId {
    pub text: String,
}

impl View for PeerId {
    type V = Seq<char>;

    open spec fn view(&self) -> Seq<char> {
        self.text@
    }
}

impl Dup for PeerId {
    fn dup(&self) -> (copy: Self) {
        PeerId { text: self.text.clone() }
    }
}

impl Key for PeerId {
    fn same(&self, other: &Self) -> (equal: bool) {
        self.text == other.text
    }
}

impl Label for PeerId {
    fn label(&self) -> (text: &str) {
        self.text.as_str()
    }
}

/// The id, in its base58 form, that `libp2p` reads from the text, if it is one.
pub uninterp spec fn peer_id_outcome(text: Seq<char>) -> Option<Seq<char>>;

/// The text or its absence is the outcome.
pub open spec fn is_reading(found: Option<String>, outcome: Option<Seq<char>>) -> bool {
    match found {
        Some(text) => outcome == Some(text@),
        None => outcome is None,
    }
}

/// `libp2p`'s `PeerId` read from a text and shown again: gives the outcome a name, and claims that
/// the form in which an id is shown reads as itself and, being base58, has no dot in it.
#[verifier::external_body]
fn read_peer_id(text: &str) -> (found: Option<String>)
    ensures
        is_reading(found, peer_id_outcome(text@)),
        found matches Some(id) ==> peer_id_outcome(id@) == Some(id@) && !id@.contains('.'),
{
    text.parse::<Libp2pPeerId>().ok().map(|id| id.to_base58())
}

impl PeerId {
    /// The id is in the form in which it reads as itself.
    pub open spec fn wf(&self) -> bool {
        is_peer_id(self@) && !self@.contains('.')
    }

    /// Reads an id.
    pub fn parse(text: &str) -> (id: Option<PeerId>)
        ensures
            id is Some <==> peer_id_outcome(text@) is Some,
            id matches Some(p) ==> peer_id_outcome(text@) == Some(p@) && p.wf(),
    {
        match read_peer_id(text) {
            Some(text) => Some(PeerId { text }),
            None => None,
        }
    }
}

/// The text is an id in the form in which it is shown.
pub open spec fn is_peer_id(text: Seq<char>) -> bool {
    peer_id_outcome(text) == Some(text)
}

/// The identity of this node: its key pair in the protobuf encoding, and its id.
#[derive(Debug, PartialEq)]
pub struct Keypair {
    pub encoded: Vec<u8>,
    pub peer_id: PeerId,
}

/// What a [`Keypair`] holds.
#[verifier::ext_equal]
pub struct KeypairModel {
    pub encoded: Seq<u8>,
    pub peer_id: Seq<char>,
}

impl View for Keypair {
    type V = KeypairModel;

    open spec fn view(&self) -> KeypairModel {
        KeypairModel { encoded: self.encoded@, peer_id: self.peer_id@ }
    }
}

impl Keypair {
    /// The encoding decodes to this very key pair.
    pub open spec fn wf(&self) -> bool {
        &&& keypair_outcome(self@.encoded) == DecodedKeys::Ok((self@.encoded, self@.peer_id))
        &&& is_peer_id(self@.peer_id)
    }
}

/// What decoding a key pair gives: its encoding and the id of its public key, or an error in
/// words.
pub type DecodedKeys = Result<(Seq<u8>, Seq<char>), Seq<char>>;

/// The key pair that `libp2p` decodes from protobuf: its encoding and the id of its public key, or
/// the error in words.
pub uninterp spec fn keypair_outcome(bytes: Seq<u8>) -> Result<(Seq<u8>, Seq<char>), Seq<char>>;

/// The key pair or the error is the outcome.
pub open spec fn is_decoding(
    result: Result<(Vec<u8>, String), String>,
    outcome: DecodedKeys,
) -> bool {
    match result {
        Ok(keys) => outcome == DecodedKeys::Ok((keys.0@, keys.1@)),
        Err(error) => outcome == DecodedKeys::Err(error@),
    }
}

/// `libp2p`'s `Keypair::from_protobuf_encoding`, the key pair then encoded with
/// `to_protobuf_encoding` and its id taken: gives the outcome a name, and claims that the encoding
/// decodes to the same key pair and that the id reads as itself.
#[verifier::external_body]
fn decode_keypair(bytes: &[u8]) -> (result: Result<(Vec<u8>, String), String>)
    ensures
        is_decoding(result, keypair_outcome(bytes@)),
        result matches Ok(keys) ==> is_decoding(result, keypair_outcome(keys.0@))
            && is_peer_id(keys.1@),
{
    let keys = Libp2pKeypair::from_protobuf_encoding(bytes).map_err(|e| e.to_string())?;
    let encoded = keys.to_protobuf_encoding().map_err(|e| e.to_string())?;
    Ok((encoded, Libp2pPeerId::from(keys.public()).to_base58()))
}

/// `libp2p`'s `Keypair::generate_ed25519`, encoded with `to_protobuf_encoding`. The key pair is
/// random; claimed is that the encoding decodes to the key pair with this id.
#[verifier::external_body]
fn random_keypair() -> (keys: (Vec<u8>, String))
    ensures
        keypair_outcome(keys.0@) == DecodedKeys::Ok((keys.0@, keys.1@)),
        is_peer_id(keys.1@),
{
    let keys = Libp2pKeypair::generate_ed25519();
    let encoded = keys.to_protobuf_encoding().expect("ed25519 keys have an encoding");
    (encoded, Libp2pPeerId::from(keys.public()).to_base58())
}

impl Keypair {
    /// A fresh, random identity.
    pub fn generate_ed25519() -> (keys: Keypair)
        ensures
            keys.wf(),
    {
        let (encoded, id) = random_keypair();
        Keypair { encoded, peer_id: PeerId { text: id } }
    }

    /// The identity that the protobuf encoding holds, or the error in words.
    pub fn from_protobuf_encoding(bytes: &[u8]) -> (result: Result<Keypair, String>)
        ensures
            match result {
                Ok(keys) => keypair_outcome(bytes@) == DecodedKeys::Ok(
                    (keys@.encoded, keys@.peer_id),
                ) && keys.wf(),
                Err(error) => keypair_outcome(bytes@) == DecodedKeys::Err(error@),
            },
    {
        match decode_keypair(bytes) {
            Ok((encoded, id)) => Ok(Keypair { encoded, peer_id: PeerId { text: id } }),
            Err(error) => Err(error),
        }
    }
}

/// A part of an address.
#[derive(Debug, PartialEq)]
pub struct Part {
    /// The part as it is written, with its slashes.
    pub text: String,
    /// The peer id that it names, if it is one that names a peer.
    pub peer: Option<PeerId>,
}

impl View for Part {
    type V = (Seq<char>, Option<Seq<char>>);

    open spec fn view(&self) -> (Seq<char>, Option<Seq<char>>) {
        (self.text@, opt(self.peer))
    }
}

/// The parts of an address, each as it is written and with the peer id that it names, or an error
/// in words.
pub type Parts = Result<Seq<(Seq<char>, Option<Seq<char>>)>, Seq<char>>;

/// The parts of the address that `libp2p` reads from the text, each as it is written and with the
/// peer id that it names; or the error in words.
pub uninterp spec fn multiaddr_outcome(text: Seq<char>) -> Result<
    Seq<(Seq<char>, Option<Seq<char>>)>,
    Seq<char>,
>;

/// The parts or the error are the outcome.
pub open spec fn is_parsing(result: Result<Vec<Part>, String>, outcome: Parts) -> bool {
    match result {
        Ok(parts) => outcome == Parts::Ok(views(parts@)),
        Err(error) => outcome == Parts::Err(error@),
    }
}

/// `libp2p`'s `Multiaddr` read from a text, and its parts walked with `iter`: gives them a name. A
/// part is written as its `Display` has it; an address is written as its parts one after the other.
#[verifier::external_body]
fn read_multiaddr(text: &str) -> (result: Result<Vec<Part>, String>)
    ensures
        is_parsing(result, multiaddr_outcome(text@)),
{
    let address = text.parse::<Multiaddr>().map_err(|e| e.to_string())?;
    let part = |p: Protocol<'_>| match p {
        Protocol::P2p(id) => {
            Part { text: p.to_string(), peer: Some(PeerId { text: id.to_base58() }) }
        },
        _ => Part { text: p.to_string(), peer: None },
    };
    Ok(address.iter().map(part).collect())
}

/// An address that was read.
#[derive(Debug, PartialEq)]
pub struct Address {
    pub parts: Vec<Part>,
}

impl View for Address {
    type V = Seq<(Seq<char>, Option<Seq<char>>)>;

    open spec fn view(&self) -> Seq<(Seq<char>, Option<Seq<char>>)> {
        views(self.parts@)
    }
}

/// The address that some parts make.
pub open spec fn written(parts: Seq<(Seq<char>, Option<Seq<char>>)>) -> Seq<char>
    decreases parts.len(),
{
    if parts.len() == 0 {
        Seq::empty()
    } else {
        written(parts.drop_last()) + parts.last().0
    }
}

/// The peer id at the end of an address, if it ends in one, and the address without its last part.
pub open spec fn parted(parts: Seq<(Seq<char>, Option<Seq<char>>)>) -> (
    Option<Seq<char>>,
    Seq<char>,
) {
    if parts.len() == 0 {
        (None, Seq::empty())
    } else {
        (parts.last().1, written(parts.drop_last()))
    }
}

/// What reading an address gives: the peer id at its end, if it ends in one, and the address
/// without its last part; or an error in words.
pub type Parsed = Result<(Option<Seq<char>>, Seq<char>), Seq<char>>;

/// What reading an address gives.
pub open spec fn address_of(text: Seq<char>) -> Parsed {
    match multiaddr_outcome(text) {
        Ok(parts) => Ok(parted(parts)),
        Err(error) => Err(error),
    }
}

impl Address {
    /// Reads an address.
    pub fn parse(text: &str) -> (result: Result<Address, String>)
        ensures
            match result {
                Ok(address) => multiaddr_outcome(text@) == Parts::Ok(address@),
                Err(error) => multiaddr_outcome(text@) == Parts::Err(error@),
            },
    {
        match read_multiaddr(text) {
            Ok(parts) => Ok(Address { parts }),
            Err(error) => Err(error),
        }
    }
}

/// The peer id at the end of an address, and the address without it; nothing where it does not end
/// in one.
pub fn split_p2p(address: Address) -> (split: Option<(PeerId, String)>)
    ensures
        match split {
            Some(s) => parted(address@) == (Some(s.0@), s.1@),
            None => parted(address@).0 is None,
        },
{
    let ghost all = address@;
    let n: usize = address.parts.len();
    if n == 0 {
        return None;
    }
    assert(all.last() == address.parts[n - 1]@);
    let peer = match &address.parts[n - 1].peer {
        Some(id) => id.dup(),
        None => return None,
    };
    let mut rest = String::new();
    let mut i: usize = 0;
    assert(rest@ =~= written(all.take(0)));
    while i < n - 1
        invariant
            i <= n - 1,
            n == address.parts.len(),
            all == address@,
            rest@ == written(all.take(i as int)),
        decreases n - 1 - i,
    {
        let ghost now = all.take(i + 1);
        proof {
            assert(now.drop_last() =~= all.take(i as int));
            assert(now.last() == address.parts[i as int]@);
        }
        rest.append(&address.parts[i].text);
        i = i + 1;
    }
    assert(all.take(n - 1) =~= all.drop_last());
    Some((peer, rest))
}

/// An address is written as its parts one after the other. Parted, it is the address without its
/// last part, and the peer that the last part names, so that the two together are the address.
pub proof fn law_address_is_parted(
    parts: Seq<(Seq<char>, Option<Seq<char>>)>,
    more: Seq<(Seq<char>, Option<Seq<char>>)>,
)
    ensures
        written(parts + more) == written(parts) + written(more),
        parts.len() == 1 ==> written(parts) == parts[0].0,
        parts.len() > 0 ==> {
            &&& parted(parts).0 == parts[parts.len() - 1].1
            &&& parted(parts).1 + parts[parts.len() - 1].0 == written(parts)
        },
        parts.len() == 0 ==> parted(parts).0 is None && parted(parts).1.len() == 0,
    decreases more.len(),
{
    if more.len() == 0 {
        assert(parts + more =~= parts);
        assert(written(parts) + written(more) =~= written(parts));
    } else {
        law_address_is_parted(parts, more.drop_last());
        assert((parts + more).drop_last() =~= parts + more.drop_last());
        assert((parts + more).last() == more.last());
        assert(written(parts) + written(more.drop_last()) + more.last().0 =~= written(parts) + (
        written(more.drop_last()) + more.last().0));
    }
    if parts.len() == 1 {
        assert(written(parts.drop_last()) + parts[0].0 =~= parts[0].0);
    }
}

} // verus!
