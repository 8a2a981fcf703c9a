//! File transfer: invitation, chunks, acknowledgements, resending what is missing, and a final
//! check of the whole file.
//!
//! The sender offers a file and waits. Once the receiver accepts, the chunks go out, a few at a
//! time; when all are out and acknowledged the sender asks what is missing, sends that again, and
//! asks again. When nothing is missing it sends the digest of the whole file, against which the
//! receiver checks what it puts together.
use std::collections::{HashMap, VecDeque};
use vstd::prelude::*;
use crate::chat::{Now, NowModel};
use crate::crypto::{
    base64_decode, base64_encode, base64_outcome, base64_text, hex_text, sha256_digest, sha256_hex,
    Decoded,
};
use crate::identity::PeerId;
use crate::state::{
    logged, noted, noticed, AppState, Effect, EffectModel, Request, RequestModel, StateModel,
};
use crate::table::{
    at, dup_all, has, keys, lemma_filter_from, lemma_has, lemma_views_push, opt, pos, put, views,
    without, Dup, Key,
};
use crate::transfer_laws::{
    law_decision_is_told, law_losses_are_sealed, law_replies_are_sealed, law_requests_are_sealed,
    law_transfers_are_served, only_sealed,
};
use crate::text::{
    dec, decimal, join2, join3, join4, join5, join6, list, list_text, occurs_in, same_text,
    stands_at,
};

verus! {

/// Size of a chunk, in bytes.
pub const CHUNK_SIZE: usize = 65536;

/// How many chunks of a transfer may wait for their acknowledgement at a time.
pub const MAX_IN_FLIGHT: usize = 4;

/// A message of the file protocol, before it is sealed into an envelope.
#[derive(Debug, PartialEq)]
pub enum FileMsg {
    /// The sender asks whether it may send a file.
    Offer {
        file_id: u64,
        filename: String,
        /// In bytes.
        size: u64,
        /// The number of chunks.
        total: u32,
        /// SHA-256 of the whole file, in hexadecimal.
        file_hash: String,
    },
    /// The receiver wants the file.
    OfferAccept { file_id: u64 },
    /// The receiver does not want the file.
    OfferReject { file_id: u64 },
    /// One chunk, in base64.
    Chunk { file_id: u64, filename: String, total: u32, index: u32, data: String },
    /// The sender has sent everything and asks what is missing.
    Check { file_id: u64, total: u32 },
    /// Nothing is missing; the receiver may put the file together and check it.
    Done { file_id: u64, filename: String, total: u32, file_hash: String },
}

/// What a [`FileMsg`] says.
#[verifier::ext_equal]
pub enum FileMsgModel {
    Offer { file_id: u64, filename: Seq<char>, size: u64, total: u32, file_hash: Seq<char> },
    OfferAccept { file_id: u64 },
    OfferReject { file_id: u64 },
    Chunk { file_id: u64, filename: Seq<char>, total: u32, index: u32, data: Seq<char> },
    Check { file_id: u64, total: u32 },
    Done { file_id: u64, filename: Seq<char>, total: u32, file_hash: Seq<char> },
}

impl View for FileMsg {
    type V = FileMsgModel;

    open spec fn view(&self) -> FileMsgModel {
        match self {
            FileMsg::Offer { file_id, filename, size, total, file_hash } => FileMsgModel::Offer {
                file_id: *file_id,
                filename: filename@,
                size: *size,
                total: *total,
                file_hash: file_hash@,
            },
            FileMsg::OfferAccept { file_id } => FileMsgModel::OfferAccept { file_id: *file_id },
            FileMsg::OfferReject { file_id } => FileMsgModel::OfferReject { file_id: *file_id },
            FileMsg::Chunk { file_id, filename, total, index, data } => FileMsgModel::Chunk {
                file_id: *file_id,
                filename: filename@,
                total: *total,
                index: *index,
                data: data@,
            },
            FileMsg::Check { file_id, total } => FileMsgModel::Check {
                file_id: *file_id,
                total: *total,
            },
            FileMsg::Done { file_id, filename, total, file_hash } => FileMsgModel::Done {
                file_id: *file_id,
                filename: filename@,
                total: *total,
                file_hash: file_hash@,
            },
        }
    }
}

/// A reply of the file protocol.
#[derive(Debug, PartialEq)]
pub enum FileResp {
    /// An invitation, or the answer to one, has arrived; `ok` is not consent.
    OfferReply { file_id: u64, ok: bool },
    /// A chunk has arrived.
    ChunkAck { file_id: u64, index: u32 },
    /// The chunks that have not arrived.
    Missing { file_id: u64, missing: Vec<u32> },
    /// How the transfer ended.
    Result { file_id: u64, ok: bool, msg: String },
}

/// What a [`FileResp`] says.
#[verifier::ext_equal]
pub enum FileRespModel {
    OfferReply { file_id: u64, ok: bool },
    ChunkAck { file_id: u64, index: u32 },
    Missing { file_id: u64, missing: Seq<u32> },
    Result { file_id: u64, ok: bool, msg: Seq<char> },
}

impl View for FileResp {
    type V = FileRespModel;

    open spec fn view(&self) -> FileRespModel {
        match self {
            FileResp::OfferReply { file_id, ok } => FileRespModel::OfferReply {
                file_id: *file_id,
                ok: *ok,
            },
            FileResp::ChunkAck { file_id, index } => FileRespModel::ChunkAck {
                file_id: *file_id,
                index: *index,
            },
            FileResp::Missing { file_id, missing } => FileRespModel::Missing {
                file_id: *file_id,
                missing: missing@,
            },
            FileResp::Result { file_id, ok, msg } => FileRespModel::Result {
                file_id: *file_id,
                ok: *ok,
                msg: msg@,
            },
        }
    }
}

/// How far an outgoing transfer has come.
#[derive(Debug, Clone, Copy, PartialEq, Eq, Structural)]
pub enum Phase {
    /// Offered; the receiver has not decided.
    Offering,
    /// Chunks go out.
    Sending,
    /// All sent; what is missing has been asked.
    Checking,
    /// Nothing was missing.
    Done,
}

/// A file on its way to a peer.
pub struct OutgoingTransfer {
    pub peer: PeerId,
    pub file_id: u64,
    pub filename: String,
    pub file_hash: String,
    pub chunks: Vec<Vec<u8>>,
    /// The chunks still to be sent, in this order.
    pub pending: VecDeque<u32>,
    /// How many chunks wait for their acknowledgement.
    pub in_flight: usize,
    pub phase: Phase,
    /// What is missing has been asked, and the answer is awaited.
    pub checked: bool,
}

/// What an [`OutgoingTransfer`] holds.
#[verifier::ext_equal]
pub struct TransferModel {
    pub peer: Seq<char>,
    pub file_id: u64,
    pub filename: Seq<char>,
    pub file_hash: Seq<char>,
    pub chunks: Seq<Seq<u8>>,
    pub pending: Seq<u32>,
    pub in_flight: nat,
    pub phase: Phase,
    pub checked: bool,
}

impl View for OutgoingTransfer {
    type V = TransferModel;

    open spec fn view(&self) -> TransferModel {
        TransferModel {
            peer: self.peer@,
            file_id: self.file_id,
            filename: self.filename@,
            file_hash: self.file_hash@,
            chunks: views(self.chunks@),
            pending: self.pending@,
            in_flight: self.in_flight as nat,
            phase: self.phase,
            checked: self.checked,
        }
    }
}

/// A file that is coming in.
pub struct IncomingTransfer {
    pub filename: String,
    pub total: u32,
    /// The chunks that have arrived, by their index.
    pub chunks: HashMap<u32, Vec<u8>>,
}

/// What an [`IncomingTransfer`] holds.
#[verifier::ext_equal]
pub struct IncomingModel {
    pub filename: Seq<char>,
    pub total: u32,
    pub chunks: Map<u32, Seq<u8>>,
}

/// The chunks as bytes, by their index.
pub open spec fn chunk_map(chunks: Map<u32, Vec<u8>>) -> Map<u32, Seq<u8>> {
    Map::new(|i: u32| chunks.dom().contains(i), |i: u32| chunks[i]@)
}

impl View for IncomingTransfer {
    type V = IncomingModel;

    open spec fn view(&self) -> IncomingModel {
        IncomingModel {
            filename: self.filename@,
            total: self.total,
            chunks: chunk_map(self.chunks@),
        }
    }
}

/// What a request on its way is about.
#[derive(Debug, Clone, Copy, PartialEq, Eq, Structural)]
pub enum OutboundReq {
    Offer,
    Chunk(u32),
    Check,
    Done,
}

impl View for OutboundReq {
    type V = OutboundReq;

    open spec fn view(&self) -> OutboundReq {
        *self
    }
}

/// An invitation that waits for the user's decision.
#[derive(Debug, PartialEq)]
pub struct PendingOffer {
    pub file_id: u64,
    pub filename: String,
    /// In bytes.
    pub size: u64,
}

/// What a [`PendingOffer`] says.
#[verifier::ext_equal]
pub struct OfferModel {
    pub file_id: u64,
    pub filename: Seq<char>,
    pub size: u64,
}

impl View for PendingOffer {
    type V = OfferModel;

    open spec fn view(&self) -> OfferModel {
        OfferModel { file_id: self.file_id, filename: self.filename@, size: self.size }
    }
}

/// The invitations of one peer, in the order in which they came.
#[derive(Debug, PartialEq)]
pub struct Offers {
    pub list: Vec<PendingOffer>,
}

impl View for Offers {
    type V = Seq<OfferModel>;

    open spec fn view(&self) -> Seq<OfferModel> {
        views(self.list@)
    }
}

/// The number of chunks of a file.
pub open spec fn chunk_count(size: nat) -> nat {
    (size + CHUNK_SIZE - 1) as nat / CHUNK_SIZE as nat
}

/// Where the chunk ends in a file.
pub open spec fn chunk_end(size: nat, i: int) -> int {
    if (i + 1) * CHUNK_SIZE < size {
        (i + 1) * CHUNK_SIZE
    } else {
        size as int
    }
}

/// The chunks of a file: full ones, and a last one that may be shorter.
pub open spec fn chunks_of(data: Seq<u8>) -> Seq<Seq<u8>> {
    Seq::new(
        chunk_count(data.len()),
        |i: int| data.subrange(i * CHUNK_SIZE, chunk_end(data.len(), i)),
    )
}

/// Chunks put together in their order.
pub open spec fn joined(chunks: Seq<Seq<u8>>) -> Seq<u8>
    decreases chunks.len(),
{
    if chunks.len() == 0 {
        Seq::empty()
    } else {
        joined(chunks.drop_last()) + chunks.last()
    }
}

/// Copies a part of a file.
fn part_of(data: &[u8], from: usize, to: usize) -> (part: Vec<u8>)
    requires
        from <= to <= data@.len(),
    ensures
        part@ == data@.subrange(from as int, to as int),
{
    let mut part: Vec<u8> = Vec::with_capacity(to - from);
    let mut i: usize = from;
    while i < to
        invariant
            from <= i <= to,
            to <= data@.len(),
            part@ == data@.subrange(from as int, i as int),
        decreases to - i,
    {
        part.push(data[i]);
        assert(part@ =~= data@.subrange(from as int, i + 1));
        i = i + 1;
    }
    part
}

/// Cuts a file into chunks.
pub fn chunk_file(data: &[u8]) -> (chunks: Vec<Vec<u8>>)
    ensures
        views(chunks@) == chunks_of(data@),
{
    let size: usize = data.len();
    let mut chunks: Vec<Vec<u8>> = Vec::new();
    let mut at: usize = 0;
    while at < size
        invariant
            size == data@.len(),
            at <= size,
            at == chunks.len() * CHUNK_SIZE || at == size,
            chunks.len() <= chunk_count(size as nat),
            at == size ==> chunks.len() == chunk_count(size as nat),
            at < size ==> at == chunks.len() * CHUNK_SIZE,
            forall|i: int|
                0 <= i < chunks.len() ==> (#[trigger] chunks[i])@ == chunks_of(data@)[i],
        decreases size - at,
    {
        let end: usize = if size - at > CHUNK_SIZE {
            at + CHUNK_SIZE
        } else {
            size
        };
        let ghost n = chunks.len() as int;
        assert(end == chunk_end(size as nat, n));
        let part = part_of(data, at, end);
        chunks.push(part);
        at = end;
    }
    assert(views(chunks@) =~= chunks_of(data@));
    chunks
}

/// What is put together from the chunks of a file is the file.
pub proof fn law_chunks_make_the_file(data: Seq<u8>)
    ensures
        joined(chunks_of(data)) == data,
        forall|i: int|
            0 <= i < chunks_of(data).len() ==> 0 < (#[trigger] chunks_of(data)[i]).len()
                <= CHUNK_SIZE,
{
    let chunks = chunks_of(data);
    let n = chunks.len() as int;
    lemma_joined_prefix(data, n);
    assert(chunks.take(n) =~= chunks);
    if n > 0 {
        assert(data.take(chunk_end(data.len(), n - 1)) =~= data);
    } else {
        assert(data =~= Seq::<u8>::empty());
    }
}

/// The first chunks of a file make up the beginning of it.
proof fn lemma_joined_prefix(data: Seq<u8>, n: int)
    requires
        0 <= n <= chunks_of(data).len(),
    ensures
        joined(chunks_of(data).take(n)) == (if n == 0 {
            Seq::empty()
        } else {
            data.take(chunk_end(data.len(), n - 1))
        }),
    decreases n,
{
    let chunks = chunks_of(data);
    if n > 0 {
        lemma_joined_prefix(data, n - 1);
        let first = chunks.take(n);
        assert(first.drop_last() =~= chunks.take(n - 1));
        assert(first.last() == chunks[n - 1]);
        let end = chunk_end(data.len(), n - 1);
        if n > 1 {
            assert(chunk_end(data.len(), n - 2) == (n - 1) * CHUNK_SIZE);
            assert(data.take((n - 1) * CHUNK_SIZE) + chunks[n - 1] =~= data.take(end));
        } else {
            assert(Seq::<u8>::empty() + chunks[0] =~= data.take(end));
        }
    }
}

/// The indices below a total.
pub open spec fn upto(total: u32) -> Seq<u32> {
    Seq::new(total as nat, |i: int| i as u32)
}

/// The indices below the total that are not among the given ones, in ascending order.
pub open spec fn missing_of(present: Set<u32>, total: u32) -> Seq<u32> {
    upto(total).filter(|i: u32| !present.contains(i))
}

/// The chunks that have not arrived.
pub fn compute_missing(chunks: &HashMap<u32, Vec<u8>>, total: u32) -> (missing: Vec<u32>)
    ensures
        missing@ == missing_of(chunks@.dom(), total),
{
    broadcast use vstd::std_specs::hash::group_hash_axioms;

    let ghost all = upto(total);
    let ghost absent = |i: u32| !chunks@.dom().contains(i);
    let mut missing: Vec<u32> = Vec::new();
    let mut i: u32 = 0;
    proof {
        reveal(Seq::filter);
        assert(all.take(0) =~= Seq::<u32>::empty());
    }
    while i < total
        invariant
            i <= total,
            all == upto(total),
            absent == (|i: u32| !chunks@.dom().contains(i)),
            missing@ == all.take(i as int).filter(absent),
        decreases total - i,
    {
        broadcast use vstd::std_specs::hash::group_hash_axioms;

        proof {
            reveal(Seq::filter);
            assert(all.take(i + 1).drop_last() =~= all.take(i as int));
            assert(all.take(i + 1).last() == i);
        }
        if !chunks.contains_key(&i) {
            missing.push(i);
        }
        i = i + 1;
    }
    assert(all.take(total as int) =~= all);
    missing
}

/// Nothing is missing exactly when every index below the total is there, and what is missing is
/// exactly what is not there.
pub proof fn law_missing(present: Set<u32>, total: u32)
    ensures
        forall|i: u32|
            #[trigger] missing_of(present, total).contains(i) <==> i < total && !present.contains(i),
        missing_of(present, total).len() == 0 <==> (forall|i: u32|
            i < total ==> #[trigger] present.contains(i)),
        present == Set::<u32>::empty() ==> missing_of(present, total) == upto(total),
{
    let all = upto(total);
    let absent = |i: u32| !present.contains(i);
    let missing = missing_of(present, total);
    broadcast use vstd::seq_lib::group_filter_ensures;

    assert forall|i: u32| #[trigger] missing.contains(i) <==> i < total && !present.contains(i) by {
        if i < total && !present.contains(i) {
            assert(all[i as int] == i);
            assert(absent(all[i as int]));
        }
        if missing.contains(i) {
            let k = choose|k: int| 0 <= k < missing.len() && missing[k] == i;
            lemma_filter_from(all, absent, k);
        }
    }
    if missing.len() == 0 {
        assert forall|i: u32| i < total implies #[trigger] present.contains(i) by {
            assert(!missing.contains(i));
        }
    }
    if forall|i: u32| i < total ==> #[trigger] present.contains(i) {
        if missing.len() > 0 {
            assert(missing.contains(missing[0]));
        }
    }
    if present == Set::<u32>::empty() {
        lemma_filter_all(all, absent);
    }
}

proof fn lemma_filter_all(values: Seq<u32>, wanted: spec_fn(u32) -> bool)
    requires
        forall|i: int| 0 <= i < values.len() ==> wanted(#[trigger] values[i]),
    ensures
        values.filter(wanted) == values,
    decreases values.len(),
{
    reveal(Seq::filter);
    if values.len() > 0 {
        lemma_filter_all(values.drop_last(), wanted);
        assert(values =~= values.drop_last().push(values.last()));
    } else {
        assert(values.filter(wanted) =~= values);
    }
}

/// The state with what is known of an outgoing transfer replaced.
pub open spec fn with_transfer(s: StateModel, file_id: u64, t: TransferModel) -> StateModel {
    StateModel { outgoing_files: put(s.outgoing_files, file_id, t), ..s }
}

/// The state once a file message is numbered and left to be sent; with a note, until its reply
/// comes, of the file and of what the message is about.
pub open spec fn posted(
    s: StateModel,
    peer: Seq<char>,
    key: Seq<u8>,
    msg: FileMsgModel,
    note: Option<(u64, OutboundReq)>,
) -> StateModel {
    StateModel {
        next_request: (s.next_request + 1) as u64,
        effects: s.effects.push(
            EffectModel::SendFile { request: s.next_request, peer, key, msg },
        ),
        file_outstanding: match note {
            Some(n) => put(s.file_outstanding, s.next_request, n),
            None => s.file_outstanding,
        },
        ..s
    }
}

/// Numbers a file message and leaves it to be sent.
fn post(
    state: &mut AppState,
    peer: &PeerId,
    key: [u8; 32],
    msg: FileMsg,
    note: Option<(u64, OutboundReq)>,
)
    requires
        old(state)@.next_request < u64::MAX,
    ensures
        final(state)@ == posted(old(state)@, peer@, key@, msg@, note),
{
    let request: u64 = state.next_request;
    state.next_request = request + 1;
    if let Some(n) = note {
        state.file_outstanding.insert(request, n);
    }
    state.push_effect(Effect::SendFile { request, peer: peer.dup(), key, msg });
}

/// A transfer that has just been offered.
pub open spec fn offered_transfer(
    peer: Seq<char>,
    file_id: u64,
    filename: Seq<char>,
    data: Seq<u8>,
) -> TransferModel {
    TransferModel {
        peer,
        file_id,
        filename,
        file_hash: hex_text(sha256_digest(data)),
        chunks: chunks_of(data),
        pending: upto(chunks_of(data).len() as u32),
        in_flight: 0,
        phase: Phase::Offering,
        checked: false,
    }
}

/// The nickname of a peer, empty where it is not known.
pub open spec fn nickname_of(s: StateModel, peer: Seq<char>) -> Seq<char> {
    if has(s.peers, peer) {
        at(s.peers, peer).nickname
    } else {
        Seq::empty()
    }
}

/// The state once a file is offered to a peer. A peer without a session key gets no offer yet.
pub open spec fn offered_to(
    s: StateModel,
    peer: Seq<char>,
    filename: Seq<char>,
    data: Seq<u8>,
    now: NowModel,
) -> StateModel {
    let file_id = s.next_file_id;
    let s1 = with_transfer(
        StateModel { next_file_id: (file_id + 1) as u64, ..s },
        file_id,
        offered_transfer(peer, file_id, filename, data),
    );
    if has(s.sessions, peer) {
        let offer = FileMsgModel::Offer {
            file_id,
            filename,
            size: data.len() as u64,
            total: chunks_of(data).len() as u32,
            file_hash: hex_text(sha256_digest(data)),
        };
        noted(
            posted(s1, peer, at(s.sessions, peer), offer, Some((file_id, OutboundReq::Offer))),
            peer,
            true,
            filename,
            "我正在发送 "@ + filename + " 给 "@ + nickname_of(s, peer),
            now,
        )
    } else {
        s1
    }
}

/// The state once a file is offered to each of the peers.
pub open spec fn offered_to_all(
    s: StateModel,
    peers: Seq<Seq<char>>,
    filename: Seq<char>,
    data: Seq<u8>,
    now: NowModel,
) -> StateModel
    decreases peers.len(),
{
    if peers.len() == 0 {
        s
    } else {
        offered_to(
            offered_to_all(s, peers.drop_last(), filename, data, now),
            peers.last(),
            filename,
            data,
            now,
        )
    }
}

/// The state once a file that was read is offered to everybody connected.
pub open spec fn offered(
    s: StateModel,
    path: Seq<char>,
    filename: Seq<char>,
    data: Seq<u8>,
    now: NowModel,
) -> StateModel {
    let line = "[文件] 已读入 "@ + path + "："@ + decimal(data.len()) + " 字节，切为 "@ + decimal(
        chunks_of(data).len(),
    ) + " 片"@;
    offered_to_all(
        noticed(logged(s, line), "正在发送文件："@ + filename),
        keys(s.connected),
        filename,
        data,
        now,
    )
}

fn indices(total: u32) -> (all: VecDeque<u32>)
    ensures
        all@ == upto(total),
{
    let mut all: VecDeque<u32> = VecDeque::new();
    let mut i: u32 = 0;
    while i < total
        invariant
            i <= total,
            all@ == upto(total).take(i as int),
        decreases total - i,
    {
        all.push_back(i);
        assert(all@ =~= upto(total).take(i + 1));
        i = i + 1;
    }
    assert(all@ =~= upto(total));
    all
}

/// Offers a file to one peer.
fn offer_to(
    state: &mut AppState,
    peer: &PeerId,
    filename: &str,
    data: &Vec<u8>,
    chunks: &Vec<Vec<u8>>,
    file_hash: &str,
    now: &Now,
)
    requires
        old(state)@.next_file_id < u64::MAX,
        old(state)@.next_request < u64::MAX,
        views(chunks@) == chunks_of(data@),
        file_hash@ == hex_text(sha256_digest(data@)),
    ensures
        final(state)@ == offered_to(old(state)@, peer@, filename@, data@, now@),
{
    let file_id: u64 = state.next_file_id;
    state.next_file_id = file_id + 1;
    let total: u32 = chunks.len() as u32;
    let transfer = OutgoingTransfer {
        peer: peer.dup(),
        file_id,
        filename: filename.to_owned(),
        file_hash: file_hash.to_owned(),
        chunks: dup_all(chunks),
        pending: indices(total),
        in_flight: 0,
        phase: Phase::Offering,
        checked: false,
    };
    assert(transfer@ == offered_transfer(peer@, file_id, filename@, data@));
    state.outgoing_files.insert(file_id, transfer);
    let key = match state.sessions.get(peer) {
        Some(key) => *key,
        None => return,
    };
    let offer = FileMsg::Offer {
        file_id,
        filename: filename.to_owned(),
        size: data.len() as u64,
        total,
        file_hash: file_hash.to_owned(),
    };
    post(state, peer, key, offer, Some((file_id, OutboundReq::Offer)));
    let nick = match state.peers.get(peer) {
        Some(info) => info.nickname.clone(),
        None => String::new(),
    };
    let text = join4("我正在发送 ", filename, " 给 ", &nick);
    state.note_file(peer, true, filename, &text, now);
}

/// Offers a file that was read to everybody connected, under the given name.
pub fn offer_file(state: &mut AppState, path: &str, filename: &str, data: &Vec<u8>, now: &Now)
    requires
        old(state)@.next_file_id + old(state)@.connected.len() <= u64::MAX,
        old(state)@.next_request + old(state)@.connected.len() <= u64::MAX,
    ensures
        final(state)@ == offered(old(state)@, path@, filename@, data@, now@),
{
    let ghost before = state@;
    let chunks = chunk_file(data);
    let file_hash = sha256_hex(data);
    let size = dec(data.len() as u64);
    let count = dec(chunks.len() as u64);
    let mut line = join6("[文件] 已读入 ", path, "：", &size, " 字节，切为 ", &count);
    line.append(" 片");
    state.log(line);
    let toast = join2("正在发送文件：", filename);
    state.notice(&toast);
    let ghost start = state@;
    let ghost peers = keys(before.connected);
    let mut i: usize = 0;
    assert(peers.take(0) =~= Seq::<Seq<char>>::empty());
    while i < state.connected.len()
        invariant
            i <= peers.len(),
            state@.connected == before.connected,
            peers == keys(before.connected),
            state@ == offered_to_all(start, peers.take(i as int), filename@, data@, now@),
            state@.next_file_id == before.next_file_id + i,
            state@.next_request <= before.next_request + i,
            before.next_file_id + peers.len() <= u64::MAX,
            before.next_request + peers.len() <= u64::MAX,
            views(chunks@) == chunks_of(data@),
            file_hash@ == hex_text(sha256_digest(data@)),
        decreases peers.len() - i,
    {
        let ghost first = peers.take(i + 1);
        proof {
            assert(first.drop_last() =~= peers.take(i as int));
            assert(first.last() == peers[i as int]);
        }
        let peer = state.connected.key_at(i).dup();
        offer_to(state, &peer, filename, data, &chunks, &file_hash, now);
        i = i + 1;
    }
    assert(peers.take(peers.len() as int) =~= peers);
}

/// What follows the last slash of a path; the whole path where it has none.
pub open spec fn after_slash(path: Seq<char>) -> Seq<char>
    decreases path.len(),
{
    if path.len() == 0 || path.last() == '/' {
        Seq::empty()
    } else {
        after_slash(path.drop_last()).push(path.last())
    }
}

/// The last part of a path whose parts are separated by slashes. A slash at the end, and a dot
/// that stands for the directory itself, are passed over; two dots stand for no name.
pub open spec fn last_component(path: Seq<char>) -> Option<Seq<char>>
    decreases path.len(),
{
    let part = after_slash(path);
    if part == ".."@ {
        None
    } else if part.len() > 0 && part != "."@ {
        Some(part)
    } else if part.len() >= path.len() {
        None
    } else {
        last_component(path.take(path.len() - part.len() - 1))
    }
}

/// Slashes alone separate the parts of the path, on every system: there is no backslash and no
/// colon in it, and it does not begin with two slashes.
pub open spec fn is_simple(path: Seq<char>) -> bool {
    &&& !path.contains('\\') && !path.contains(':')
    &&& !(path.len() >= 2 && path[0] == '/' && path[1] == '/')
}

/// The path begins as those of which some systems take every character as it is, so that slashes
/// do not separate their parts.
pub open spec fn is_verbatim(path: Seq<char>) -> bool {
    path.len() >= 4 && path[0] == '\\' && path[1] == '\\' && path[2] == '?' && path[3] == '\\'
}

/// The name is the last part of the path, where slashes separate its parts; in any case it is a
/// piece of the path, and unless the path is taken as it is, it holds no slash.
pub open spec fn fits_path(name: Option<String>, path: Seq<char>) -> bool {
    &&& is_simple(path) ==> opt(name) == last_component(path)
    &&& name matches Some(n) ==> n@.len() > 0 && occurs_in(n@, path)
    &&& name matches Some(n) ==> is_verbatim(path) || !n@.contains('/')
}

/// `std`'s `Path::file_name`, made a text with replacement characters where it is not one: the
/// last part of the path, in the sense of `Path::components`. Which characters separate the parts
/// of a path depends on the system; of a path that is not parted by slashes alone, claimed is no
/// more than that the last part is a piece of it, and that a slash separates on every system,
/// except in a path that some take as it is.
#[verifier::external_body]
fn last_part(path: &str) -> (name: Option<String>)
    ensures
        fits_path(name, path@),
{
    std::path::Path::new(path).file_name().map(|s| s.to_string_lossy().to_string())
}

/// The name is the one under which a file at the path is offered. Where it is not slashes alone
/// that part the path, the name is the path or a piece of it, the latter without a slash unless the
/// path is taken as it is.
pub open spec fn names(name: Seq<char>, path: Seq<char>) -> bool {
    &&& is_simple(path) ==> name == (match last_component(path) {
        Some(part) => part,
        None => path,
    })
    &&& occurs_in(name, path)
    &&& name == path || name.len() > 0
    &&& name == path || is_verbatim(path) || !name.contains('/')
}

/// The name under which the file at a path is offered: the last part of the path, or the path
/// itself where it has none.
pub fn file_name_of(path: &str) -> (name: String)
    ensures
        names(name@, path@),
{
    match last_part(path) {
        Some(name) => name,
        None => {
            assert(path@.subrange(0, path@.len() as int) =~= path@);
            assert(stands_at(path@, path@, 0));
            path.to_owned()
        },
    }
}

/// Whether there is anybody to send a file to.
pub fn anyone_connected(state: &AppState) -> (any: bool)
    ensures
        any == (state@.connected.len() > 0),
{
    state.connected.len() > 0
}

/// The state once a file is to be sent, under a name: what reading it gave is looked at only where
/// somebody is connected.
pub open spec fn sending_file(
    s: StateModel,
    path: Seq<char>,
    filename: Seq<char>,
    contents: Result<Seq<u8>, Seq<char>>,
    now: NowModel,
) -> StateModel {
    if s.connected.len() == 0 {
        logged(s, "[文件] 当前没有任何已连接的节点，无法发送"@)
    } else {
        match contents {
            Err(error) => logged(s, "[文件] 读取 "@ + path + " 失败: "@ + error),
            Ok(data) => offered(s, path, filename, data, now),
        }
    }
}

/// What reading a file gave.
pub open spec fn contents_view(contents: Result<Vec<u8>, String>) -> Result<Seq<u8>, Seq<char>> {
    match contents {
        Ok(data) => Ok(data@),
        Err(error) => Err(error@),
    }
}

/// Sends a file to everybody connected, given what reading it gave: each is offered it under the
/// last part of its path.
pub fn start_file_send(
    state: &mut AppState,
    path: &str,
    contents: Result<Vec<u8>, String>,
    now: &Now,
)
    requires
        old(state)@.next_file_id + old(state)@.connected.len() <= u64::MAX,
        old(state)@.next_request + old(state)@.connected.len() <= u64::MAX,
    ensures
        exists|name: Seq<char>|
            names(name, path@) && final(state)@ == #[trigger] sending_file(
                old(state)@,
                path@,
                name,
                contents_view(contents),
                now@,
            ),
{
    let ghost before = state@;
    let name = file_name_of(path);
    if !anyone_connected(state) {
        state.log_str("[文件] 当前没有任何已连接的节点，无法发送");
    } else {
        match &contents {
            Err(error) => {
                let line = join4("[文件] 读取 ", path, " 失败: ", error);
                state.log(line);
            },
            Ok(data) => {
                offer_file(state, path, &name, data, now);
            },
        }
    }
    assert(state@ == sending_file(before, path@, name@, contents_view(contents), now@));
}

/// The text that carries the bytes is read as these bytes.
pub open spec fn round_trips(data: Seq<u8>) -> bool {
    base64_outcome(base64_text(data)) == Decoded::Ok(data)
}

/// How many chunks may go out now: as many as are pending, while fewer than the limit wait for
/// their acknowledgement.
pub open spec fn burst(t: TransferModel) -> nat {
    if t.in_flight >= MAX_IN_FLIGHT {
        0
    } else if t.pending.len() < MAX_IN_FLIGHT - t.in_flight {
        t.pending.len()
    } else {
        (MAX_IN_FLIGHT - t.in_flight) as nat
    }
}

/// The message that carries a chunk.
pub open spec fn chunk_msg(t: TransferModel, index: u32) -> FileMsgModel {
    FileMsgModel::Chunk {
        file_id: t.file_id,
        filename: t.filename,
        total: t.chunks.len() as u32,
        index,
        data: base64_text(t.chunks[index as int]),
    }
}

/// The state once the first chunks that are pending are left to be sent.
pub open spec fn posted_chunks(s: StateModel, t: TransferModel, key: Seq<u8>, n: nat) -> StateModel
    decreases n,
{
    if n == 0 {
        s
    } else {
        let index = t.pending[n - 1];
        posted(
            posted_chunks(s, t, key, (n - 1) as nat),
            t.peer,
            key,
            chunk_msg(t, index),
            Some((t.file_id, OutboundReq::Chunk(index))),
        )
    }
}

/// Sending touches nothing but the numbers of requests, the notes of them and what is to be done.
pub open spec fn only_sent(s: StateModel, after: StateModel) -> bool {
    after == StateModel {
        next_request: after.next_request,
        effects: after.effects,
        file_outstanding: after.file_outstanding,
        ..s
    }
}

pub proof fn lemma_posted_chunks(s: StateModel, t: TransferModel, key: Seq<u8>, n: nat)
    ensures
        only_sent(s, posted_chunks(s, t, key, n)),
        s.next_request + n <= u64::MAX ==> posted_chunks(s, t, key, n).next_request
            == s.next_request + n,
    decreases n,
{
    if n > 0 {
        lemma_posted_chunks(s, t, key, (n - 1) as nat);
    }
}

/// The transfer sends chunks: it is in the sending phase, and there is a key for its peer.
pub open spec fn sends(s: StateModel, t: TransferModel) -> bool {
    t.phase == Phase::Sending && has(s.sessions, t.peer)
}

/// A transfer once chunks have gone out; where none is pending or unacknowledged and it has not
/// been asked what is missing, that is asked.
pub open spec fn advanced(t: TransferModel) -> TransferModel {
    let n = burst(t);
    let t1 = TransferModel { pending: t.pending.skip(n as int), in_flight: t.in_flight + n, ..t };
    if asks(t) {
        TransferModel { checked: true, phase: Phase::Checking, ..t1 }
    } else {
        t1
    }
}

/// The transfer asks what is missing.
pub open spec fn asks(t: TransferModel) -> bool {
    t.pending.len() == 0 && t.in_flight == 0 && !t.checked
}

/// The state once the transfer at a position of the table has sent what it may.
pub open spec fn driven_one(s: StateModel, i: int) -> StateModel {
    let t = s.outgoing_files[i].1;
    if sends(s, t) {
        let key = at(s.sessions, t.peer);
        let s1 = posted_chunks(s, t, key, burst(t));
        let s2 = if asks(t) {
            let msg = FileMsgModel::Check { file_id: t.file_id, total: t.chunks.len() as u32 };
            posted(s1, t.peer, key, msg, Some((t.file_id, OutboundReq::Check)))
        } else {
            s1
        };
        StateModel {
            outgoing_files: s.outgoing_files.update(i, (s.outgoing_files[i].0, advanced(t))),
            ..s2
        }
    } else {
        s
    }
}

/// The state once the first transfers of the table have sent what they may.
pub open spec fn driven_upto(s: StateModel, n: nat) -> StateModel
    decreases n,
{
    if n == 0 {
        s
    } else {
        driven_one(driven_upto(s, (n - 1) as nat), n - 1)
    }
}

/// The state once all transfers have sent what they may.
pub open spec fn driven(s: StateModel) -> StateModel {
    driven_upto(s, s.outgoing_files.len())
}

/// The chunks that a transfer is about to send are there.
pub open spec fn has_chunks(t: TransferModel) -> bool {
    forall|k: int| 0 <= k < burst(t) ==> (#[trigger] t.pending[k]) < t.chunks.len()
}

/// The chunks that a transfer is about to send are read as what they are.
pub open spec fn sound_chunks(t: TransferModel) -> bool {
    forall|k: int|
        0 <= k < burst(t) ==> round_trips(t.chunks[(#[trigger] t.pending[k]) as int])
}

/// The chunks that the transfers are about to send are there.
pub open spec fn drivable(s: StateModel) -> bool {
    forall|i: int|
        0 <= i < s.outgoing_files.len() && sends(s, #[trigger] s.outgoing_files[i].1) ==> has_chunks(
            s.outgoing_files[i].1,
        )
}

/// The chunks that the transfers are about to send are read as what they are.
pub open spec fn sound(s: StateModel) -> bool {
    forall|i: int|
        0 <= i < s.outgoing_files.len() && sends(s, #[trigger] s.outgoing_files[i].1)
            ==> sound_chunks(s.outgoing_files[i].1)
}

/// There are numbers left for the requests that the transfers may make.
pub open spec fn numbered(s: StateModel) -> bool {
    s.next_request + MAX_IN_FLIGHT * s.outgoing_files.len() <= u64::MAX
}

/// Whether the chunks that a transfer is about to send are there.
fn chunks_there(t: &OutgoingTransfer) -> (there: bool)
    ensures
        there == has_chunks(t@),
{
    let mut k: usize = 0;
    while k < t.pending.len() && k < MAX_IN_FLIGHT && t.in_flight < MAX_IN_FLIGHT - k
        invariant
            k <= burst(t@),
            forall|j: int| 0 <= j < k ==> (#[trigger] t.pending@[j]) < t.chunks.len(),
        decreases burst(t@) - k,
    {
        if t.pending[k] as usize >= t.chunks.len() {
            assert(t@.pending[k as int] >= t@.chunks.len());
            return false;
        }
        k = k + 1;
    }
    true
}

/// Whether the chunks that the transfers are about to send are there.
pub fn can_drive(state: &AppState) -> (can: bool)
    ensures
        can == drivable(state@),
{
    let mut i: usize = 0;
    while i < state.outgoing_files.len()
        invariant
            i <= state@.outgoing_files.len(),
            forall|j: int|
                0 <= j < i && sends(state@, #[trigger] state@.outgoing_files[j].1) ==> has_chunks(
                    state@.outgoing_files[j].1,
                ),
        decreases state@.outgoing_files.len() - i,
    {
        let t = state.outgoing_files.value_at(i);
        assert(t@ == state@.outgoing_files[i as int].1);
        if t.phase == Phase::Sending && state.sessions.contains(&t.peer) && !chunks_there(t) {
            return false;
        }
        i = i + 1;
    }
    true
}

/// Lets the transfer at a position of the table send what it may.
fn drive_one(state: &mut AppState, i: usize)
    requires
        i < old(state)@.outgoing_files.len(),
        old(state)@.next_request + MAX_IN_FLIGHT <= u64::MAX,
        sends(old(state)@, old(state)@.outgoing_files[i as int].1) ==> has_chunks(
            old(state)@.outgoing_files[i as int].1,
        ),
    ensures
        final(state)@ == driven_one(old(state)@, i as int),
        final(state)@.next_request <= old(state)@.next_request + MAX_IN_FLIGHT,
        sends(old(state)@, old(state)@.outgoing_files[i as int].1) ==> sound_chunks(
            old(state)@.outgoing_files[i as int].1,
        ),
{
    let ghost before = state@;
    let ghost t0 = before.outgoing_files[i as int].1;
    let ghost file_key = before.outgoing_files[i as int].0;
    let (peer, file_id, filename, total) = {
        let t = state.outgoing_files.value_at(i);
        if t.phase != Phase::Sending {
            return;
        }
        let total: u32 = t.chunks.len() as u32;
        (t.peer.dup(), t.file_id, t.filename.clone(), total)
    };
    let key = match state.sessions.get(&peer) {
        Some(key) => *key,
        None => return,
    };
    let ghost all = burst(t0);
    let ghost mut n: nat = 0;
    assert(before.outgoing_files.update(i as int, (file_key, t0)) =~= before.outgoing_files);
    assert(t0.pending.skip(0) =~= t0.pending);
    loop
        invariant
            i < before.outgoing_files.len(),
            t0 == before.outgoing_files[i as int].1,
            file_key == before.outgoing_files[i as int].0,
            n <= all,
            all == burst(t0),
            all <= MAX_IN_FLIGHT,
            has_chunks(t0),
            peer@ == t0.peer,
            file_id == t0.file_id,
            filename@ == t0.filename,
            total == t0.chunks.len() as u32,
            before.next_request + MAX_IN_FLIGHT <= u64::MAX,
            state@ == (StateModel {
                outgoing_files: before.outgoing_files.update(
                    i as int,
                    (
                        file_key,
                        TransferModel {
                            pending: t0.pending.skip(n as int),
                            in_flight: t0.in_flight + n,
                            ..t0
                        },
                    ),
                ),
                ..posted_chunks(before, t0, key@, n)
            }),
            state@.next_request == before.next_request + n,
            forall|k: int|
                0 <= k < n ==> round_trips(t0.chunks[(#[trigger] t0.pending[k]) as int]),
        ensures
            n == all,
        decreases all - n,
    {
        let t = state.outgoing_files.value_at_mut(i);
        if t.in_flight >= MAX_IN_FLIGHT {
            break;
        }
        let index: u32 = match t.pending.pop_front() {
            None => {
                break;
            },
            Some(index) => index,
        };
        assert(index == t0.pending[n as int]);
        let data = base64_encode(&t.chunks[index as usize]);
        assert(t.chunks@[index as int]@ == t0.chunks[index as int]);
        t.in_flight = t.in_flight + 1;
        let msg = FileMsg::Chunk { file_id, filename: filename.clone(), total, index, data };
        post(state, &peer, key, msg, Some((file_id, OutboundReq::Chunk(index))));
        proof {
            assert(t0.pending.skip(n as int).subrange(1, t0.pending.skip(n as int).len() as int)
                =~= t0.pending.skip((n + 1) as int));
            n = n + 1;
        }
    }
    proof {
        lemma_posted_chunks(before, t0, key@, all);
    }
    let t = state.outgoing_files.value_at_mut(i);
    if t.pending.len() == 0 && t.in_flight == 0 && !t.checked {
        t.checked = true;
        t.phase = Phase::Checking;
        let msg = FileMsg::Check { file_id, total };
        post(state, &peer, key, msg, Some((file_id, OutboundReq::Check)));
    }
}

/// The table of transfers keeps its keys, and each transfer is changed by its own turn only.
pub proof fn lemma_driven_upto(s: StateModel, n: nat)
    requires
        n <= s.outgoing_files.len(),
    ensures
        driven_upto(s, n).sessions == s.sessions,
        driven_upto(s, n).outgoing_files.len() == s.outgoing_files.len(),
        forall|i: int|
            0 <= i < s.outgoing_files.len() ==> (#[trigger] driven_upto(s, n).outgoing_files[i])
                == (if i < n && sends(s, s.outgoing_files[i].1) {
                (s.outgoing_files[i].0, advanced(s.outgoing_files[i].1))
            } else {
                s.outgoing_files[i]
            }),
        only_sent(
            s,
            StateModel { outgoing_files: s.outgoing_files, ..driven_upto(s, n) },
        ),
    decreases n,
{
    if n > 0 {
        lemma_driven_upto(s, (n - 1) as nat);
        let s1 = driven_upto(s, (n - 1) as nat);
        let t = s1.outgoing_files[n - 1].1;
        if sends(s1, t) {
            lemma_posted_chunks(s1, t, at(s1.sessions, t.peer), burst(t));
        }
    }
}

/// Lets the transfers send what they may: chunks while few enough are unacknowledged, and, once
/// all are out and acknowledged, the question what is missing. Each chunk goes out in a text that
/// is read as the chunk.
pub fn drive_outgoing(state: &mut AppState)
    requires
        drivable(old(state)@),
        numbered(old(state)@),
    ensures
        final(state)@ == driven(old(state)@),
        sound(old(state)@),
        only_sealed(old(state)@, final(state)@),
{
    let ghost before = state@;
    proof {
        law_transfers_are_served(before);
    }
    let n: usize = state.outgoing_files.len();
    let mut i: usize = 0;
    while i < n
        invariant
            i <= n,
            n == before.outgoing_files.len(),
            state@ == driven_upto(before, i as nat),
            state@.next_request <= before.next_request + MAX_IN_FLIGHT * i,
            drivable(before),
            numbered(before),
            forall|j: int|
                0 <= j < i && sends(before, #[trigger] before.outgoing_files[j].1) ==> sound_chunks(
                    before.outgoing_files[j].1,
                ),
        decreases n - i,
    {
        proof {
            lemma_driven_upto(before, i as nat);
            assert(state@.outgoing_files[i as int] == before.outgoing_files[i as int]);
        }
        drive_one(state, i);
        i = i + 1;
    }
}

/// The note is not about the file.
pub open spec fn not_about(file_id: u64) -> spec_fn((u64, (u64, OutboundReq))) -> bool {
    |e: (u64, (u64, OutboundReq))| e.1.0 != file_id
}

/// The state with the requests about a file forgotten.
pub open spec fn forgotten(s: StateModel, file_id: u64) -> StateModel {
    StateModel { file_outstanding: s.file_outstanding.filter(not_about(file_id)), ..s }
}

/// Forgets the requests about a file.
fn forget(state: &mut AppState, file_id: u64)
    ensures
        final(state)@ == forgotten(old(state)@, file_id),
{
    let other = |k: &u64, v: &(u64, OutboundReq)| -> (b: bool)
        ensures
            b == (v.0 != file_id),
        { v.0 != file_id };
    state.file_outstanding.retain(other, Ghost(not_about(file_id)));
}

/// The state once the reply to a question what is missing has come: missing chunks are sent again
/// after those that are pending; where none is missing, the digest is sent.
pub open spec fn after_missing(s: StateModel, file_id: u64, missing: Seq<u32>) -> StateModel {
    if has(s.outgoing_files, file_id) {
        let t = at(s.outgoing_files, file_id);
        if missing.len() == 0 {
            let s1 = with_transfer(
                s,
                file_id,
                TransferModel { in_flight: 0, checked: false, phase: Phase::Done, ..t },
            );
            if has(s.sessions, t.peer) {
                let msg = FileMsgModel::Done {
                    file_id,
                    filename: t.filename,
                    total: t.chunks.len() as u32,
                    file_hash: t.file_hash,
                };
                posted(
                    s1,
                    t.peer,
                    at(s.sessions, t.peer),
                    msg,
                    Some((file_id, OutboundReq::Done)),
                )
            } else {
                s1
            }
        } else {
            logged(
                with_transfer(
                    s,
                    file_id,
                    TransferModel {
                        pending: t.pending + missing,
                        in_flight: 0,
                        checked: false,
                        phase: Phase::Sending,
                        ..t
                    },
                ),
                "[文件] 传输 "@ + decimal(file_id as nat) + " 缺失 "@ + decimal(missing.len())
                    + " 个分片，正在重发…"@,
            )
        }
    } else {
        s
    }
}

/// How the end of a transfer is reported.
pub open spec fn result_text(file_id: u64, ok: bool, msg: Seq<char>) -> Seq<char> {
    "[文件] 传输 "@ + decimal(file_id as nat) + " "@ + (if ok {
        "成功"@
    } else {
        "失败"@
    }) + "："@ + msg
}

/// The state once the receiver has told how a transfer ended: it is reported, and the transfer is
/// over.
pub open spec fn after_result(
    s: StateModel,
    file_id: u64,
    ok: bool,
    msg: Seq<char>,
    now: NowModel,
) -> StateModel {
    let text = result_text(file_id, ok, msg);
    let s1 = logged(s, text);
    let s2 = if has(s.outgoing_files, file_id) {
        let t = at(s.outgoing_files, file_id);
        noted(s1, t.peer, true, t.filename, text, now)
    } else {
        s1
    };
    StateModel {
        outgoing_files: without(s.outgoing_files, file_id),
        ..forgotten(s2, file_id)
    }
}

/// The state once a reply to a file request has come.
pub open spec fn after_response(
    s: StateModel,
    request: u64,
    response: FileRespModel,
    now: NowModel,
) -> StateModel {
    match response {
        FileRespModel::OfferReply { file_id, ok } => StateModel {
            file_outstanding: without(s.file_outstanding, request),
            ..s
        },
        FileRespModel::ChunkAck { file_id, index } => {
            let s1 = if has(s.outgoing_files, file_id) {
                let t = at(s.outgoing_files, file_id);
                let left = if t.in_flight > 0 {
                    (t.in_flight - 1) as nat
                } else {
                    0
                };
                with_transfer(s, file_id, TransferModel { in_flight: left, ..t })
            } else {
                s
            };
            StateModel { file_outstanding: without(s.file_outstanding, request), ..s1 }
        },
        FileRespModel::Missing { file_id, missing } => after_missing(s, file_id, missing),
        FileRespModel::Result { file_id, ok, msg } => after_result(s, file_id, ok, msg, now),
    }
}

fn on_missing(state: &mut AppState, file_id: u64, missing: &Vec<u32>)
    requires
        old(state)@.next_request < u64::MAX,
    ensures
        final(state)@ == after_missing(old(state)@, file_id, missing@),
{
    let ghost before = state@;
    let none: bool = missing.len() == 0;
    let (peer, done) = match state.outgoing_files.get_mut(&file_id) {
        None => {
            return;
        },
        Some(t) => {
            t.in_flight = 0;
            t.checked = false;
            if none {
                t.phase = Phase::Done;
            } else {
                let ghost pending = t.pending@;
                let mut k: usize = 0;
                while k < missing.len()
                    invariant
                        k <= missing.len(),
                        t.pending@ == pending + missing@.take(k as int),
                        t@ == (TransferModel {
                            pending: t.pending@,
                            in_flight: 0,
                            checked: false,
                            ..at(before.outgoing_files, file_id)
                        }),
                    decreases missing.len() - k,
                {
                    t.pending.push_back(missing[k]);
                    assert(t.pending@ =~= pending + missing@.take(k + 1));
                    k = k + 1;
                }
                assert(missing@.take(k as int) =~= missing@);
                t.phase = Phase::Sending;
            }
            let done = FileMsg::Done {
                file_id,
                filename: t.filename.clone(),
                total: t.chunks.len() as u32,
                file_hash: t.file_hash.clone(),
            };
            (t.peer.dup(), done)
        },
    };
    if none {
        if let Some(key) = state.sessions.get(&peer) {
            let key = *key;
            post(state, &peer, key, done, Some((file_id, OutboundReq::Done)));
        }
    } else {
        let id = dec(file_id);
        let count = dec(missing.len() as u64);
        let line = join5("[文件] 传输 ", &id, " 缺失 ", &count, " 个分片，正在重发…");
        state.log(line);
    }
}

/// Takes in the reply to a file request.
pub fn on_file_response(state: &mut AppState, request: u64, response: FileResp, now: &Now)
    requires
        old(state)@.next_request < u64::MAX,
    ensures
        final(state)@ == after_response(old(state)@, request, response@, now@),
        only_sealed(old(state)@, final(state)@),
{
    proof {
        law_replies_are_sealed(state@, request, response@, now@);
    }
    match response {
        FileResp::OfferReply { file_id: _, ok: _ } => {
            state.file_outstanding.remove(&request);
        },
        FileResp::ChunkAck { file_id, index: _ } => {
            if let Some(t) = state.outgoing_files.get_mut(&file_id) {
                t.in_flight = t.in_flight.saturating_sub(1);
            }
            state.file_outstanding.remove(&request);
        },
        FileResp::Missing { file_id, missing } => {
            on_missing(state, file_id, &missing);
        },
        FileResp::Result { file_id, ok, msg } => {
            let id = dec(file_id);
            let verdict = if ok {
                "成功"
            } else {
                "失败"
            };
            let text = join6("[文件] 传输 ", &id, " ", verdict, "：", &msg);
            state.log_str(&text);
            let known = match state.outgoing_files.get(&file_id) {
                Some(t) => Some((t.peer.dup(), t.filename.clone())),
                None => None,
            };
            if let Some((peer, filename)) = known {
                state.note_file(&peer, true, &filename, &text, now);
            }
            forget(state, file_id);
            state.outgoing_files.remove(&file_id);
        },
    }
}

/// The state once a file request has failed: an offer that nobody answers is withdrawn, a chunk is
/// sent again after those that are pending, and what is missing is asked again.
pub open spec fn after_failure(s: StateModel, request: u64, now: NowModel) -> StateModel {
    if has(s.file_outstanding, request) {
        let note = at(s.file_outstanding, request);
        let file_id = note.0;
        let s1 = StateModel { file_outstanding: without(s.file_outstanding, request), ..s };
        if has(s.outgoing_files, file_id) {
            let t = at(s.outgoing_files, file_id);
            match note.1 {
                OutboundReq::Offer => {
                    let s2 = noted(
                        logged(
                            s1,
                            "[文件] 邀请(传输 "@ + decimal(file_id as nat) + ") 失败：对方无应答"@,
                        ),
                        t.peer,
                        true,
                        t.filename,
                        "[文件] 发送邀请失败（对方无应答）"@,
                        now,
                    );
                    StateModel { outgoing_files: without(s.outgoing_files, file_id), ..s2 }
                },
                OutboundReq::Chunk(index) => logged(
                    with_transfer(
                        s1,
                        file_id,
                        TransferModel {
                            pending: t.pending.push(index),
                            in_flight: if t.in_flight > 0 {
                                (t.in_flight - 1) as nat
                            } else {
                                0
                            },
                            phase: Phase::Sending,
                            ..t
                        },
                    ),
                    "[文件] 分片 "@ + decimal(index as nat) + " 发送失败，待重发"@,
                ),
                OutboundReq::Check | OutboundReq::Done => with_transfer(
                    s1,
                    file_id,
                    TransferModel { checked: false, phase: Phase::Sending, ..t },
                ),
            }
        } else {
            s1
        }
    } else {
        s
    }
}

/// Takes in that a file request has failed.
pub fn on_file_outbound_failure(state: &mut AppState, request: u64, now: &Now)
    ensures
        final(state)@ == after_failure(old(state)@, request, now@),
        only_sealed(old(state)@, final(state)@),
{
    proof {
        law_losses_are_sealed(state@, request, now@);
    }
    let (file_id, req) = match state.file_outstanding.get(&request) {
        Some(note) => (note.0, note.1),
        None => return,
    };
    state.file_outstanding.remove(&request);
    match req {
        OutboundReq::Offer => {
            let (peer, filename) = match state.outgoing_files.get(&file_id) {
                Some(t) => (t.peer.dup(), t.filename.clone()),
                None => return,
            };
            let id = dec(file_id);
            let line = join3("[文件] 邀请(传输 ", &id, ") 失败：对方无应答");
            state.log(line);
            state.note_file(&peer, true, &filename, "[文件] 发送邀请失败（对方无应答）", now);
            state.outgoing_files.remove(&file_id);
        },
        OutboundReq::Chunk(index) => {
            match state.outgoing_files.get_mut(&file_id) {
                Some(t) => {
                    t.pending.push_back(index);
                    t.in_flight = t.in_flight.saturating_sub(1);
                    t.phase = Phase::Sending;
                },
                None => {
                    return;
                },
            }
            let number = dec(index as u64);
            let line = join3("[文件] 分片 ", &number, " 发送失败，待重发");
            state.log(line);
        },
        OutboundReq::Check | OutboundReq::Done => {
            if let Some(t) = state.outgoing_files.get_mut(&file_id) {
                t.checked = false;
                t.phase = Phase::Sending;
            }
        },
    }
}

/// The transfer breaks off when the peer leaves.
pub open spec fn breaks_off(t: TransferModel, peer: Seq<char>) -> bool {
    t.peer == peer && t.phase != Phase::Done
}

/// The state once the broken-off transfers among the first of the table are reported.
pub open spec fn reported(s: StateModel, peer: Seq<char>, n: nat, now: NowModel) -> StateModel
    decreases n,
{
    if n == 0 {
        s
    } else {
        let s1 = reported(s, peer, (n - 1) as nat, now);
        let entry = s.outgoing_files[n - 1];
        if breaks_off(entry.1, peer) {
            noted(
                logged(
                    s1,
                    "[文件] 与 "@ + peer + " 连接中断，传输 "@ + decimal(entry.0 as nat)
                        + " 标记为失败"@,
                ),
                peer,
                true,
                entry.1.filename,
                "[文件] 传输中断（连接断开），标记为失败"@,
                now,
            )
        } else {
            s1
        }
    }
}

/// The transfer goes on without the peer.
pub open spec fn goes_on(peer: Seq<char>) -> spec_fn((u64, TransferModel)) -> bool {
    |e: (u64, TransferModel)| !breaks_off(e.1, peer)
}

/// The note is about a transfer to somebody else.
pub open spec fn about_others(
    outgoing: Seq<(u64, TransferModel)>,
    peer: Seq<char>,
) -> spec_fn((u64, (u64, OutboundReq))) -> bool {
    |e: (u64, (u64, OutboundReq))| has(outgoing, e.1.0) && at(outgoing, e.1.0).peer != peer
}

/// The state once a peer has left: its transfers that were not done are reported as failed and
/// dropped, and so are the requests about its transfers.
pub open spec fn after_disconnect(s: StateModel, peer: Seq<char>, now: NowModel) -> StateModel {
    let s1 = reported(s, peer, s.outgoing_files.len(), now);
    let outgoing = s.outgoing_files.filter(goes_on(peer));
    StateModel {
        outgoing_files: outgoing,
        file_outstanding: s.file_outstanding.filter(about_others(outgoing, peer)),
        ..s1
    }
}

/// Reporting touches no transfer and no request.
pub proof fn lemma_reported(s: StateModel, peer: Seq<char>, n: nat, now: NowModel)
    requires
        n <= s.outgoing_files.len(),
    ensures
        reported(s, peer, n, now).outgoing_files == s.outgoing_files,
        reported(s, peer, n, now).file_outstanding == s.file_outstanding,
    decreases n,
{
    if n > 0 {
        lemma_reported(s, peer, (n - 1) as nat, now);
    }
}

/// Takes in that a peer has left.
pub fn on_peer_disconnect(state: &mut AppState, peer: &PeerId, now: &Now)
    ensures
        final(state)@ == after_disconnect(old(state)@, peer@, now@),
{
    let ghost before = state@;
    let n: usize = state.outgoing_files.len();
    let mut i: usize = 0;
    while i < n
        invariant
            i <= n,
            n == before.outgoing_files.len(),
            state@ == reported(before, peer@, i as nat, now@),
        decreases n - i,
    {
        proof {
            lemma_reported(before, peer@, i as nat, now@);
        }
        let file_id: u64 = *state.outgoing_files.key_at(i);
        let t = state.outgoing_files.value_at(i);
        if t.peer.same(peer) && t.phase != Phase::Done {
            let filename = t.filename.clone();
            let id = dec(file_id);
            let line = join5("[文件] 与 ", &peer.text, " 连接中断，传输 ", &id, " 标记为失败");
            state.log(line);
            state.note_file(
                peer,
                true,
                &filename,
                "[文件] 传输中断（连接断开），标记为失败",
                now,
            );
        }
        i = i + 1;
    }
    proof {
        lemma_reported(before, peer@, n as nat, now@);
    }
    let stays = |k: &u64, t: &OutgoingTransfer| -> (b: bool)
        ensures
            b == !breaks_off(t@, peer@),
        { !(t.peer.same(peer) && t.phase != Phase::Done) };
    state.outgoing_files.retain(stays, Ghost(goes_on(peer@)));
    let outgoing = &state.outgoing_files;
    let other = |k: &u64, note: &(u64, OutboundReq)| -> (b: bool)
        ensures
            b == (has(outgoing@, note.0) && at(outgoing@, note.0).peer != peer@),
        {
            match outgoing.get(&note.0) {
                Some(t) => !t.peer.same(peer),
                None => false,
            }
        };
    let ghost wanted = about_others(outgoing@, peer@);
    state.file_outstanding.retain(other, Ghost(wanted));
}

/// The invitation is not for the file.
pub open spec fn not_for(file_id: u64) -> spec_fn(OfferModel) -> bool {
    |o: OfferModel| o.file_id != file_id
}

/// The state without a peer's invitation for a file.
pub open spec fn decided(s: StateModel, peer: Seq<char>, file_id: u64) -> StateModel {
    if has(s.pending_offers, peer) {
        StateModel {
            pending_offers: put(
                s.pending_offers,
                peer,
                at(s.pending_offers, peer).filter(not_for(file_id)),
            ),
            ..s
        }
    } else {
        s
    }
}

/// Drops the invitation for a file from the list.
fn drop_offer(offers: &mut Offers, file_id: u64)
    ensures
        final(offers)@ == old(offers)@.filter(not_for(file_id)),
{
    let ghost before = offers@;
    let mut rest: Vec<PendingOffer> = Vec::new();
    std::mem::swap(&mut rest, &mut offers.list);
    proof {
        reveal(Seq::filter);
        assert(offers@ =~= Seq::<OfferModel>::empty());
        assert(before.take(0) =~= Seq::<OfferModel>::empty());
    }
    for offer in it: rest
        invariant
            before == views(it.seq()),
            offers@ == before.take(it.index() as int).filter(not_for(file_id)),
    {
        let ghost i = it.index() as int;
        proof {
            reveal(Seq::filter);
            assert(before[i] == offer@);
            assert(before.take(i + 1).drop_last() =~= before.take(i));
            assert(before.take(i + 1).last() == offer@);
        }
        if offer.file_id != file_id {
            proof {
                lemma_views_push(offers.list@, offer);
            }
            offers.list.push(offer);
        }
    }
    assert(before.take(before.len() as int) =~= before);
}

/// Drops a peer's invitation for a file.
fn decide(state: &mut AppState, peer: &PeerId, file_id: u64)
    ensures
        final(state)@ == decided(old(state)@, peer@, file_id),
{
    if let Some(offers) = state.pending_offers.get_mut(peer) {
        drop_offer(offers, file_id);
    }
}

/// A file that was received whole and is to be stored.
#[derive(Debug, PartialEq)]
pub struct ReadyFile {
    pub file_id: u64,
    /// The name of the file.
    pub filename: String,
    /// Where to store it.
    pub path: String,
    /// The file.
    pub data: Vec<u8>,
}

/// What a [`ReadyFile`] holds.
#[verifier::ext_equal]
pub struct ReadyModel {
    pub file_id: u64,
    pub filename: Seq<char>,
    pub path: Seq<char>,
    pub data: Seq<u8>,
}

impl View for ReadyFile {
    type V = ReadyModel;

    open spec fn view(&self) -> ReadyModel {
        ReadyModel {
            file_id: self.file_id,
            filename: self.filename@,
            path: self.path@,
            data: self.data@,
        }
    }
}

/// What a file request calls for.
#[derive(Debug, PartialEq)]
pub enum FileStep {
    /// To reply.
    Reply(FileResp),
    /// To store a file, and to reply once that is done or has failed.
    Store(ReadyFile),
}

/// What a [`FileStep`] says.
#[verifier::ext_equal]
pub enum StepModel {
    Reply(FileRespModel),
    Store(ReadyModel),
}

impl View for FileStep {
    type V = StepModel;

    open spec fn view(&self) -> StepModel {
        match self {
            FileStep::Reply(response) => StepModel::Reply(response@),
            FileStep::Store(file) => StepModel::Store(file@),
        }
    }
}

/// The state once a peer has offered a file.
pub open spec fn after_offer(
    s: StateModel,
    peer: Seq<char>,
    file_id: u64,
    filename: Seq<char>,
    size: u64,
    now: NowModel,
) -> StateModel {
    let offer = OfferModel { file_id, filename, size };
    let before = if has(s.pending_offers, peer) {
        at(s.pending_offers, peer)
    } else {
        Seq::empty()
    };
    noted(
        logged(
            StateModel { pending_offers: put(s.pending_offers, peer, before.push(offer)), ..s },
            "[文件] "@ + peer + " 想发送文件："@ + filename + "（"@ + decimal(size as nat)
                + " 字节）"@,
        ),
        peer,
        false,
        filename,
        "[文件] 对方想给你发送："@ + filename + "（"@ + decimal(size as nat)
            + " 字节）→ 请点击【接受】"@,
        now,
    )
}

/// The acceptance of a file counts: the file was offered, and nothing has been decided yet.
pub open spec fn awaits(s: StateModel, file_id: u64) -> bool {
    has(s.outgoing_files, file_id) && at(s.outgoing_files, file_id).phase == Phase::Offering
}

/// The state once a transfer that was offered begins to send.
pub open spec fn begun(s: StateModel, peer: Seq<char>, file_id: u64) -> StateModel {
    logged(
        with_transfer(
            s,
            file_id,
            TransferModel { phase: Phase::Sending, ..at(s.outgoing_files, file_id) },
        ),
        "[文件] "@ + peer + " 已接受文件，开始发送…"@,
    )
}

/// The state once a file was refused: the transfer is over.
pub open spec fn after_reject(
    s: StateModel,
    peer: Seq<char>,
    file_id: u64,
    now: NowModel,
) -> StateModel {
    let s1 = if has(s.outgoing_files, file_id) {
        noted(
            logged(s, "[文件] "@ + peer + " 拒绝了文件 "@ + decimal(file_id as nat)),
            peer,
            true,
            at(s.outgoing_files, file_id).filename,
            "[文件] 对方拒绝了该文件发送"@,
            now,
        )
    } else {
        s
    };
    StateModel {
        outgoing_files: without(s.outgoing_files, file_id),
        ..forgotten(s1, file_id)
    }
}

/// The file that comes in under an id; a new one, under the name and total of the chunk, where
/// nothing has come yet.
pub open spec fn incoming_of(
    s: StateModel,
    file_id: u64,
    filename: Seq<char>,
    total: u32,
) -> IncomingModel {
    if has(s.incoming_files, file_id) {
        at(s.incoming_files, file_id)
    } else {
        IncomingModel { filename, total, chunks: Map::empty() }
    }
}

/// The state once a chunk has arrived.
pub open spec fn after_chunk(
    s: StateModel,
    file_id: u64,
    filename: Seq<char>,
    total: u32,
    index: u32,
    chunk: Seq<u8>,
) -> StateModel {
    let inc = incoming_of(s, file_id, filename, total);
    StateModel {
        incoming_files: put(
            s.incoming_files,
            file_id,
            IncomingModel { chunks: inc.chunks.insert(index, chunk), ..inc },
        ),
        ..s
    }
}

/// The chunks of a file that have arrived, by their index; none where nothing has come.
pub open spec fn arrived(s: StateModel, file_id: u64) -> Set<u32> {
    if has(s.incoming_files, file_id) {
        at(s.incoming_files, file_id).chunks.dom()
    } else {
        Set::empty()
    }
}

/// The first chunks, put together.
pub open spec fn assembled(chunks: Map<u32, Seq<u8>>, total: u32) -> Seq<u8> {
    joined(Seq::new(total as nat, |i: int| chunks[i as u32]))
}

/// The outcome of putting a file together: why it fails, or the file.
pub open spec fn verdict(s: StateModel, file_id: u64, filename: Seq<char>, file_hash: Seq<char>)
    -> Result<ReadyModel, Seq<char>> {
    if !(has(s.incoming_files, file_id)) {
        Err("没有收到任何分片"@)
    } else {
        let inc = at(s.incoming_files, file_id);
        if inc.chunks.dom().len() != inc.total || missing_of(inc.chunks.dom(), inc.total).len() > 0 {
            Err(
                "分片不完整("@ + inc.filename + "), 缺 "@ + list_text(
                    missing_of(inc.chunks.dom(), inc.total),
                ),
            )
        } else {
            let data = assembled(inc.chunks, inc.total);
            let actual = hex_text(sha256_digest(data));
            if actual != file_hash {
                Err("SHA-256 校验失败: 期望 "@ + file_hash + " 实际 "@ + actual)
            } else {
                Ok(
                    ReadyModel {
                        file_id,
                        filename,
                        path: "downloads"@ + "/"@ + inc.filename,
                        data,
                    },
                )
            }
        }
    }
}

/// How the end of a reception is reported.
pub open spec fn received_text(ok: bool, filename: Seq<char>, msg: Seq<char>) -> Seq<char> {
    if ok {
        "[文件] 接收成功（"@ + filename + "）："@ + msg
    } else {
        "[文件] 接收失败："@ + msg
    }
}

/// The state once the reception of a file has ended: it is reported, and what was kept of it is
/// dropped.
pub open spec fn finished(
    s: StateModel,
    peer: Seq<char>,
    file_id: u64,
    filename: Seq<char>,
    ok: bool,
    msg: Seq<char>,
    now: NowModel,
) -> StateModel {
    let text = received_text(ok, filename, msg);
    let s1 = decided(s, peer, file_id);
    noted(
        logged(StateModel { incoming_files: without(s1.incoming_files, file_id), ..s1 }, text),
        peer,
        false,
        filename,
        text,
        now,
    )
}

/// The state once a file message has arrived.
pub open spec fn after_message(s: StateModel, peer: Seq<char>, msg: FileMsgModel, now: NowModel)
    -> StateModel {
    match msg {
        FileMsgModel::Offer { file_id, filename, size, total, file_hash } => after_offer(
            s,
            peer,
            file_id,
            filename,
            size,
            now,
        ),
        FileMsgModel::OfferAccept { file_id } => if awaits(s, file_id) {
            driven(begun(s, peer, file_id))
        } else {
            s
        },
        FileMsgModel::OfferReject { file_id } => after_reject(s, peer, file_id, now),
        FileMsgModel::Chunk { file_id, filename, total, index, data } => after_chunk(
            s,
            file_id,
            filename,
            total,
            index,
            base64_outcome(data)->Ok_0,
        ),
        FileMsgModel::Check { file_id, total } => s,
        FileMsgModel::Done { file_id, filename, total, file_hash } => match verdict(
            s,
            file_id,
            filename,
            file_hash,
        ) {
            Err(why) => finished(s, peer, file_id, filename, false, why, now),
            Ok(_) => s,
        },
    }
}

/// What a file message calls for.
pub open spec fn called_for(s: StateModel, msg: FileMsgModel) -> StepModel {
    match msg {
        FileMsgModel::Offer { file_id, filename, size, total, file_hash } => StepModel::Reply(
            FileRespModel::OfferReply { file_id, ok: true },
        ),
        FileMsgModel::OfferAccept { file_id } => StepModel::Reply(
            FileRespModel::OfferReply { file_id, ok: awaits(s, file_id) },
        ),
        FileMsgModel::OfferReject { file_id } => StepModel::Reply(
            FileRespModel::OfferReply { file_id, ok: false },
        ),
        FileMsgModel::Chunk { file_id, filename, total, index, data } => StepModel::Reply(
            FileRespModel::ChunkAck { file_id, index },
        ),
        FileMsgModel::Check { file_id, total } => StepModel::Reply(
            FileRespModel::Missing { file_id, missing: missing_of(arrived(s, file_id), total) },
        ),
        FileMsgModel::Done { file_id, filename, total, file_hash } => match verdict(
            s,
            file_id,
            filename,
            file_hash,
        ) {
            Err(why) => StepModel::Reply(FileRespModel::Result { file_id, ok: false, msg: why }),
            Ok(file) => StepModel::Store(file),
        },
    }
}

/// The state once a file request has arrived.
pub open spec fn after_request(
    s: StateModel,
    peer: Seq<char>,
    request: RequestModel<FileMsgModel>,
    now: NowModel,
) -> StateModel {
    match request {
        RequestModel::NoSession => s,
        RequestModel::Unreadable(error) => logged(
            s,
            "[文件] 收到无法通过完整性校验的消息: "@ + error,
        ),
        RequestModel::Message(msg) => after_message(s, peer, msg, now),
    }
}

/// What a file request calls for.
pub open spec fn step_of(s: StateModel, request: RequestModel<FileMsgModel>) -> StepModel {
    match request {
        RequestModel::NoSession => StepModel::Reply(
            FileRespModel::Result { file_id: 0, ok: false, msg: "尚未完成密钥协商"@ },
        ),
        RequestModel::Unreadable(error) => StepModel::Reply(
            FileRespModel::Result { file_id: 0, ok: false, msg: "解密/完整性校验失败"@ },
        ),
        RequestModel::Message(msg) => called_for(s, msg),
    }
}

/// The message can be taken in: a chunk is base64, and the chunks that are sent on an acceptance
/// are there.
pub open spec fn receivable(s: StateModel, peer: Seq<char>, msg: FileMsgModel) -> bool {
    match msg {
        FileMsgModel::OfferAccept { file_id } => awaits(s, file_id) ==> drivable(
            begun(s, peer, file_id),
        ),
        FileMsgModel::Chunk { file_id, filename, total, index, data } => base64_outcome(
            data,
        ) is Ok,
        _ => true,
    }
}

/// The request can be taken in.
pub open spec fn takes(
    s: StateModel,
    peer: Seq<char>,
    request: RequestModel<FileMsgModel>,
) -> bool {
    request matches RequestModel::Message(msg) ==> receivable(s, peer, msg)
}

/// Takes in an offer.
fn on_offer(
    state: &mut AppState,
    peer: &PeerId,
    file_id: u64,
    filename: String,
    size: u64,
    now: &Now,
)
    ensures
        final(state)@ == after_offer(old(state)@, peer@, file_id, filename@, size, now@),
{
    let bytes = dec(size);
    let line = join6("[文件] ", &peer.text, " 想发送文件：", &filename, "（", &bytes);
    let line = join2(&line, " 字节）");
    let text = join5(
        "[文件] 对方想给你发送：",
        &filename,
        "（",
        &bytes,
        " 字节）→ 请点击【接受】",
    );
    let offer = PendingOffer { file_id, filename: filename.clone(), size };
    match state.pending_offers.get_mut(peer) {
        Some(offers) => {
            proof {
                lemma_views_push(offers.list@, offer);
            }
            offers.list.push(offer);
        },
        None => {
            let mut list: Vec<PendingOffer> = Vec::new();
            proof {
                lemma_views_push(list@, offer);
                assert(views(list@) =~= Seq::<OfferModel>::empty());
            }
            list.push(offer);
            state.pending_offers.insert(peer.dup(), Offers { list });
        },
    }
    state.log(line);
    state.note_file(peer, false, &filename, &text, now);
}

/// Takes in a refusal.
fn on_reject(state: &mut AppState, peer: &PeerId, file_id: u64, now: &Now)
    ensures
        final(state)@ == after_reject(old(state)@, peer@, file_id, now@),
{
    let known = match state.outgoing_files.get(&file_id) {
        Some(t) => Some(t.filename.clone()),
        None => None,
    };
    if let Some(filename) = known {
        let id = dec(file_id);
        let line = join4("[文件] ", &peer.text, " 拒绝了文件 ", &id);
        state.log(line);
        state.note_file(peer, true, &filename, "[文件] 对方拒绝了该文件发送", now);
    }
    state.outgoing_files.remove(&file_id);
    forget(state, file_id);
}

proof fn lemma_chunk_map_insert(chunks: Map<u32, Vec<u8>>, index: u32, chunk: Vec<u8>)
    ensures
        chunk_map(chunks.insert(index, chunk)) == chunk_map(chunks).insert(index, chunk@),
{
    assert(chunk_map(chunks.insert(index, chunk)) =~= chunk_map(chunks).insert(index, chunk@));
}

/// Takes in a chunk.
fn on_chunk(
    state: &mut AppState,
    file_id: u64,
    filename: String,
    total: u32,
    index: u32,
    chunk: Vec<u8>,
)
    ensures
        final(state)@ == after_chunk(old(state)@, file_id, filename@, total, index, chunk@),
{
    broadcast use vstd::std_specs::hash::group_hash_axioms;

    match state.incoming_files.get_mut(&file_id) {
        Some(inc) => {
            proof {
                lemma_chunk_map_insert(inc.chunks@, index, chunk);
            }
            inc.chunks.insert(index, chunk);
        },
        None => {
            let mut chunks: HashMap<u32, Vec<u8>> = HashMap::new();
            proof {
                lemma_chunk_map_insert(chunks@, index, chunk);
                assert(chunk_map(chunks@) =~= Map::<u32, Seq<u8>>::empty());
            }
            chunks.insert(index, chunk);
            state.incoming_files.insert(file_id, IncomingTransfer { filename, total, chunks });
        },
    }
}

/// What is missing of a file, as far as it has come.
fn missing(state: &AppState, file_id: u64, total: u32) -> (missing: Vec<u32>)
    ensures
        missing@ == missing_of(arrived(state@, file_id), total),
{
    match state.incoming_files.get(&file_id) {
        Some(inc) => {
            assert(inc.chunks@.dom() =~= inc@.chunks.dom());
            compute_missing(&inc.chunks, total)
        },
        None => {
            let none: HashMap<u32, Vec<u8>> = HashMap::new();
            assert(none@.dom() =~= Set::<u32>::empty());
            compute_missing(&none, total)
        },
    }
}

/// Puts the chunks of a file together.
fn assemble(inc: &IncomingTransfer) -> (data: Vec<u8>)
    requires
        forall|i: u32| i < inc.total ==> #[trigger] inc.chunks@.dom().contains(i),
    ensures
        data@ == assembled(inc@.chunks, inc.total),
{
    broadcast use vstd::std_specs::hash::group_hash_axioms;

    let ghost all = Seq::new(inc.total as nat, |i: int| inc@.chunks[i as u32]);
    let mut data: Vec<u8> = Vec::new();
    let mut i: u32 = 0;
    assert(all.take(0) =~= Seq::<Seq<u8>>::empty());
    while i < inc.total
        invariant
            i <= inc.total,
            all == Seq::new(inc.total as nat, |i: int| inc@.chunks[i as u32]),
            data@ == joined(all.take(i as int)),
            forall|i: u32| i < inc.total ==> #[trigger] inc.chunks@.dom().contains(i),
        decreases inc.total - i,
    {
        broadcast use vstd::std_specs::hash::group_hash_axioms;

        let ghost now = all.take(i + 1);
        proof {
            assert(now.drop_last() =~= all.take(i as int));
            assert(inc.chunks@.dom().contains(i));
            assert(now.last() == inc@.chunks[i]);
        }
        if let Some(chunk) = inc.chunks.get(&i) {
            let mut copy = chunk.dup();
            data.append(&mut copy);
        }
        i = i + 1;
    }
    assert(all.take(i as int) =~= all);
    data
}

/// What came of putting a file together.
pub open spec fn outcome_view(outcome: Result<ReadyFile, String>) -> Result<ReadyModel, Seq<char>> {
    match outcome {
        Ok(file) => Ok(file@),
        Err(why) => Err(why@),
    }
}

/// Puts a file together and checks it against its digest.
fn put_together(state: &AppState, file_id: u64, filename: &str, file_hash: &str) -> (outcome:
    Result<ReadyFile, String>)
    ensures
        outcome_view(outcome) == verdict(state@, file_id, filename@, file_hash@),
{
    broadcast use vstd::std_specs::hash::group_hash_axioms;

    match state.incoming_files.get(&file_id) {
        None => Err("没有收到任何分片".to_owned()),
        Some(inc) => {
            assert(inc.chunks@.dom() =~= inc@.chunks.dom());
            let missing = compute_missing(&inc.chunks, inc.total);
            if inc.chunks.len() != inc.total as usize || missing.len() > 0 {
                let gaps = list(&missing);
                Err(join4("分片不完整(", &inc.filename, "), 缺 ", &gaps))
            } else {
                proof {
                    law_missing(inc.chunks@.dom(), inc.total);
                }
                let data = assemble(inc);
                let actual = sha256_hex(&data);
                if !same_text(&actual, file_hash) {
                    Err(join4("SHA-256 校验失败: 期望 ", file_hash, " 实际 ", &actual))
                } else {
                    let path = join3("downloads", "/", &inc.filename);
                    Ok(ReadyFile { file_id, filename: filename.to_owned(), path, data })
                }
            }
        },
    }
}

/// Ends the reception of a file.
fn finish(
    state: &mut AppState,
    peer: &PeerId,
    file_id: u64,
    filename: &str,
    ok: bool,
    msg: &str,
    now: &Now,
)
    ensures
        final(state)@ == finished(old(state)@, peer@, file_id, filename@, ok, msg@, now@),
{
    decide(state, peer, file_id);
    state.incoming_files.remove(&file_id);
    let text = if ok {
        join4("[文件] 接收成功（", filename, "）：", msg)
    } else {
        join2("[文件] 接收失败：", msg)
    };
    state.log_str(&text);
    state.note_file(peer, false, filename, &text, now);
}

/// What is sent on an acceptance is read as what it is.
pub open spec fn begins_sound(s: StateModel, peer: Seq<char>, request: RequestModel<FileMsgModel>)
    -> bool {
    request matches RequestModel::Message(msg) ==> (msg matches FileMsgModel::OfferAccept {
        file_id,
    } ==> (awaits(s, file_id) ==> sound(begun(s, peer, file_id))))
}

/// Takes in a file message.
fn on_message(state: &mut AppState, peer: &PeerId, msg: FileMsg, now: &Now) -> (step: FileStep)
    requires
        receivable(old(state)@, peer@, msg@),
        numbered(old(state)@),
    ensures
        final(state)@ == after_message(old(state)@, peer@, msg@, now@),
        step@ == called_for(old(state)@, msg@),
        begins_sound(old(state)@, peer@, RequestModel::Message(msg@)),
{
    match msg {
        FileMsg::Offer { file_id, filename, size, total: _, file_hash: _ } => {
            on_offer(state, peer, file_id, filename, size, now);
            FileStep::Reply(FileResp::OfferReply { file_id, ok: true })
        },
        FileMsg::OfferAccept { file_id } => {
            let accepted = match state.outgoing_files.get(&file_id) {
                Some(t) => t.phase == Phase::Offering,
                None => false,
            };
            if accepted {
                proof {
                    lemma_has(state@.outgoing_files, file_id);
                }
                if let Some(t) = state.outgoing_files.get_mut(&file_id) {
                    t.phase = Phase::Sending;
                }
                let line = join3("[文件] ", &peer.text, " 已接受文件，开始发送…");
                state.log(line);
                drive_outgoing(state);
            }
            FileStep::Reply(FileResp::OfferReply { file_id, ok: accepted })
        },
        FileMsg::OfferReject { file_id } => {
            on_reject(state, peer, file_id, now);
            FileStep::Reply(FileResp::OfferReply { file_id, ok: false })
        },
        FileMsg::Chunk { file_id, filename, total, index, data } => {
            if let Ok(chunk) = base64_decode(&data) {
                on_chunk(state, file_id, filename, total, index, chunk);
            }
            FileStep::Reply(FileResp::ChunkAck { file_id, index })
        },
        FileMsg::Check { file_id, total } => {
            let missing = missing(state, file_id, total);
            FileStep::Reply(FileResp::Missing { file_id, missing })
        },
        FileMsg::Done { file_id, filename, total: _, file_hash } => {
            match put_together(state, file_id, &filename, &file_hash) {
                Ok(file) => FileStep::Store(file),
                Err(why) => {
                    finish(state, peer, file_id, &filename, false, &why, now);
                    FileStep::Reply(FileResp::Result { file_id, ok: false, msg: why })
                },
            }
        },
    }
}

/// Takes in a file request: an offer, an answer to one, a chunk, the question what is missing, or
/// the digest that ends a transfer.
pub fn on_file_request(
    state: &mut AppState,
    peer: &PeerId,
    request: Request<FileMsg>,
    now: &Now,
) -> (step: FileStep)
    requires
        takes(old(state)@, peer@, request@),
        numbered(old(state)@),
    ensures
        final(state)@ == after_request(old(state)@, peer@, request@, now@),
        step@ == step_of(old(state)@, request@),
        begins_sound(old(state)@, peer@, request@),
        only_sealed(old(state)@, final(state)@),
{
    proof {
        law_requests_are_sealed(state@, peer@, request@, now@);
    }
    match request {
        Request::NoSession => FileStep::Reply(
            FileResp::Result { file_id: 0, ok: false, msg: "尚未完成密钥协商".to_owned() },
        ),
        Request::Unreadable(error) => {
            let line = join2("[文件] 收到无法通过完整性校验的消息: ", &error);
            state.log(line);
            FileStep::Reply(
                FileResp::Result { file_id: 0, ok: false, msg: "解密/完整性校验失败".to_owned() },
            )
        },
        Request::Message(msg) => on_message(state, peer, msg, now),
    }
}

/// Whether the chunks that are sent on an acceptance are there.
fn can_begin(state: &AppState, Ghost(peer): Ghost<Seq<char>>, file_id: u64) -> (can: bool)
    requires
        awaits(state@, file_id),
    ensures
        can == drivable(begun(state@, peer, file_id)),
{
    let ghost s = state@;
    let ghost after = begun(s, peer, file_id);
    let accepted: usize = match state.outgoing_files.find(&file_id) {
        Some(p) => p,
        None => 0,
    };
    let mut i: usize = 0;
    while i < state.outgoing_files.len()
        invariant
            i <= s.outgoing_files.len(),
            s == state@,
            awaits(s, file_id),
            after == begun(s, peer, file_id),
            accepted == pos(s.outgoing_files, file_id),
            accepted < s.outgoing_files.len(),
            forall|j: int|
                0 <= j < i && sends(after, #[trigger] after.outgoing_files[j].1) ==> has_chunks(
                    after.outgoing_files[j].1,
                ),
        decreases s.outgoing_files.len() - i,
    {
        let t = state.outgoing_files.value_at(i);
        let ghost t1 = after.outgoing_files[i as int].1;
        assert(t1.pending == t@.pending && t1.chunks == t@.chunks && t1.in_flight == t@.in_flight);
        assert(burst(t1) == burst(t@));
        if (i == accepted || t.phase == Phase::Sending) && state.sessions.contains(&t.peer)
            && !chunks_there(t) {
            assert(sends(after, t1));
            assert(!has_chunks(t1));
            return false;
        }
        i = i + 1;
    }
    true
}

/// Whether a file request can be taken in.
fn can_take(state: &AppState, peer: &PeerId, request: &Request<FileMsg>) -> (can: bool)
    ensures
        can == takes(state@, peer@, request@),
{
    match request {
        Request::Message(FileMsg::OfferAccept { file_id }) => {
            let accepted = match state.outgoing_files.get(file_id) {
                Some(t) => t.phase == Phase::Offering,
                None => false,
            };
            !accepted || can_begin(state, Ghost(peer@), *file_id)
        },
        Request::Message(FileMsg::Chunk { file_id: _, filename: _, total: _, index: _, data }) => {
            base64_decode(data).is_ok()
        },
        _ => true,
    }
}

/// Takes in a file request where it can be taken in; else nothing changes, and nothing is to be
/// replied.
pub fn try_on_file_request(
    state: &mut AppState,
    peer: &PeerId,
    request: Request<FileMsg>,
    now: &Now,
) -> (step: Option<FileStep>)
    requires
        numbered(old(state)@),
    ensures
        step is Some <==> takes(old(state)@, peer@, request@),
        step matches Some(done) ==> {
            &&& final(state)@ == after_request(old(state)@, peer@, request@, now@)
            &&& done@ == step_of(old(state)@, request@)
            &&& begins_sound(old(state)@, peer@, request@)
            &&& only_sealed(old(state)@, final(state)@)
        },
        step is None ==> final(state)@ == old(state)@,
{
    if can_take(state, peer, &request) {
        Some(on_file_request(state, peer, request, now))
    } else {
        None
    }
}

/// Why a file could not be stored, in words.
#[derive(Debug, PartialEq)]
pub enum StoreError {
    /// The directory could not be made.
    Directory(String),
    /// The file could not be written.
    Write(String),
}

/// What a [`StoreError`] says.
pub enum StoreErrorModel {
    Directory(Seq<char>),
    Write(Seq<char>),
}

impl View for StoreError {
    type V = StoreErrorModel;

    open spec fn view(&self) -> StoreErrorModel {
        match self {
            StoreError::Directory(error) => StoreErrorModel::Directory(error@),
            StoreError::Write(error) => StoreErrorModel::Write(error@),
        }
    }
}

/// What the sender is told of a file that was, or was not, stored.
pub open spec fn stored_msg(file: ReadyModel, error: Option<StoreErrorModel>) -> Seq<char> {
    match error {
        None => "完整收到并已保存为 "@ + file.path + "（"@ + decimal(file.data.len())
            + " 字节）"@,
        Some(StoreErrorModel::Directory(e)) => "创建 "@ + "downloads"@ + " 目录失败: "@ + e,
        Some(StoreErrorModel::Write(e)) => "写入失败: "@ + e,
    }
}

/// The state once a file was stored, or could not be.
pub open spec fn after_storing(
    s: StateModel,
    peer: Seq<char>,
    file: ReadyModel,
    error: Option<StoreErrorModel>,
    now: NowModel,
) -> StateModel {
    let s1 = if error is None {
        logged(
            s,
            "[文件] 签收完成："@ + file.path + "（"@ + decimal(file.data.len()) + " 字节）"@,
        )
    } else {
        s
    };
    finished(
        s1,
        peer,
        file.file_id,
        file.filename,
        error is None,
        stored_msg(file, error),
        now,
    )
}

/// Takes in that a file was stored, or why it could not be; says what to reply.
pub fn on_file_stored(
    state: &mut AppState,
    peer: &PeerId,
    file: &ReadyFile,
    error: Option<StoreError>,
    now: &Now,
) -> (response: FileResp)
    ensures
        final(state)@ == after_storing(old(state)@, peer@, file@, opt(error), now@),
        response@ == (FileRespModel::Result {
            file_id: file.file_id,
            ok: error is None,
            msg: stored_msg(file@, opt(error)),
        }),
{
    let size = dec(file.data.len() as u64);
    let ok = error.is_none();
    let msg = match &error {
        None => {
            let line = join5("[文件] 签收完成：", &file.path, "（", &size, " 字节）");
            state.log(line);
            join5("完整收到并已保存为 ", &file.path, "（", &size, " 字节）")
        },
        Some(StoreError::Directory(e)) => join4("创建 ", "downloads", " 目录失败: ", e),
        Some(StoreError::Write(e)) => join2("写入失败: ", e),
    };
    finish(state, peer, file.file_id, &file.filename, ok, &msg, now);
    FileResp::Result { file_id: file.file_id, ok, msg }
}

/// The state once the user has decided on an invitation: it is gone, a record is left, and the
/// peer is told.
pub open spec fn answered(
    s: StateModel,
    peer: Seq<char>,
    file_id: u64,
    text: Seq<char>,
    msg: FileMsgModel,
    now: NowModel,
) -> StateModel {
    posted(
        noted(decided(s, peer, file_id), peer, false, decimal(file_id as nat), text, now),
        peer,
        at(s.sessions, peer),
        msg,
        None,
    )
}

/// The state once the user has accepted a file.
pub open spec fn accepted(
    s: StateModel,
    peer: Seq<char>,
    file_id: u64,
    now: NowModel,
) -> StateModel {
    if has(s.sessions, peer) {
        answered(
            s,
            peer,
            file_id,
            "[文件] 你已接受该文件，等待接收…"@,
            FileMsgModel::OfferAccept { file_id },
            now,
        )
    } else {
        logged(s, "[文件] 尚无法接受（未完成密钥协商）"@)
    }
}

/// The state once the user has refused a file.
pub open spec fn rejected(
    s: StateModel,
    peer: Seq<char>,
    file_id: u64,
    now: NowModel,
) -> StateModel {
    if has(s.sessions, peer) {
        answered(
            s,
            peer,
            file_id,
            "[文件] 你已拒绝该文件"@,
            FileMsgModel::OfferReject { file_id },
            now,
        )
    } else {
        s
    }
}

/// Tells a peer what the user has decided on its invitation.
fn answer(
    state: &mut AppState,
    peer: &PeerId,
    key: [u8; 32],
    file_id: u64,
    text: &str,
    msg: FileMsg,
    now: &Now,
)
    requires
        old(state)@.next_request < u64::MAX,
        key@ == at(old(state)@.sessions, peer@),
    ensures
        final(state)@ == answered(old(state)@, peer@, file_id, text@, msg@, now@),
{
    decide(state, peer, file_id);
    let id = dec(file_id);
    state.note_file(peer, false, &id, text, now);
    post(state, peer, key, msg, None);
}

/// The user accepts a file.
pub fn accept_file(state: &mut AppState, peer: &PeerId, file_id: u64, now: &Now)
    requires
        old(state)@.next_request < u64::MAX,
    ensures
        final(state)@ == accepted(old(state)@, peer@, file_id, now@),
        only_sealed(old(state)@, final(state)@),
{
    proof {
        law_decision_is_told(state@, peer@, file_id, now@);
    }
    let key = match state.sessions.get(peer) {
        Some(key) => *key,
        None => {
            state.log_str("[文件] 尚无法接受（未完成密钥协商）");
            return;
        },
    };
    answer(
        state,
        peer,
        key,
        file_id,
        "[文件] 你已接受该文件，等待接收…",
        FileMsg::OfferAccept { file_id },
        now,
    );
}

/// The user refuses a file.
pub fn reject_file(state: &mut AppState, peer: &PeerId, file_id: u64, now: &Now)
    requires
        old(state)@.next_request < u64::MAX,
    ensures
        final(state)@ == rejected(old(state)@, peer@, file_id, now@),
        only_sealed(old(state)@, final(state)@),
{
    proof {
        law_decision_is_told(state@, peer@, file_id, now@);
    }
    let key = match state.sessions.get(peer) {
        Some(key) => *key,
        None => return,
    };
    answer(
        state,
        peer,
        key,
        file_id,
        "[文件] 你已拒绝该文件",
        FileMsg::OfferReject { file_id },
        now,
    );
}

/// The state once a file that the user has chosen is to be sent, under a name.
pub open spec fn picked(
    s: StateModel,
    path: Seq<char>,
    filename: Seq<char>,
    contents: Result<Seq<u8>, Seq<char>>,
    now: NowModel,
) -> StateModel {
    noticed(sending_file(s, path, filename, contents, now), "已选择文件："@ + path)
}

/// Sends the file that the user has chosen, given what reading it gave.
pub fn on_file_picked(
    state: &mut AppState,
    path: &str,
    contents: Result<Vec<u8>, String>,
    now: &Now,
)
    requires
        old(state)@.next_file_id + old(state)@.connected.len() <= u64::MAX,
        old(state)@.next_request + old(state)@.connected.len() <= u64::MAX,
    ensures
        exists|name: Seq<char>|
            names(name, path@) && final(state)@ == #[trigger] picked(
                old(state)@,
                path@,
                name,
                contents_view(contents),
                now@,
            ),
{
    let ghost before = state@;
    let ghost given = contents_view(contents);
    start_file_send(state, path, contents, now);
    let ghost sent = state@;
    let toast = join2("已选择文件：", path);
    state.notice(&toast);
    proof {
        let name = choose|name: Seq<char>|
            names(name, path@) && sent == #[trigger] sending_file(before, path@, name, given, now@);
        assert(state@ == picked(before, path@, name, given, now@));
    }
}

} // verus!
