//! What a running node knows: contacts, sessions, transfers, and what is left to be done outside.
use std::collections::VecDeque;
use vstd::prelude::*;
use crate::chat::{file_record, ChatMsg, ChatMsgModel, ChatRecord, Now, NowModel, RecordModel};
use crate::config::{ConversationFile, ConversationModel};
use crate::crypto::{AppCrypto, CryptoModel};
use crate::file_transfer::{
    FileMsg, FileMsgModel, IncomingModel, IncomingTransfer, OfferModel, Offers, OutboundReq,
    OutgoingTransfer, TransferModel,
};
use crate::identity::PeerId;
use crate::protocol::{Envelope, EnvelopeModel, KeyHello, KeyHelloModel};
use crate::table::{
    at, dup_all, has, keys, lemma_lookup_put, lemma_views_push, lookup, opt, put, views, Dup, Key,
    Table,
};
use crate::text::join2;
use crate::tui::{set_toast, toast_cell, ToastCell};

verus! {

/// How many log lines, and how many records of a conversation, are kept.
pub const HISTORY: usize = 2000;

/// The last items of a list, as many as are kept.
pub open spec fn kept<T>(items: Seq<T>) -> Seq<T> {
    if items.len() > HISTORY {
        items.skip(items.len() - HISTORY)
    } else {
        items
    }
}

/// A contact.
pub struct PeerInfo {
    /// The nickname, as far as it is known.
    pub nickname: String,
    /// Whether there is a connection.
    pub online: bool,
    /// How many messages have not been read.
    pub unread: u32,
    /// The conversation.
    pub records: Vec<ChatRecord>,
    /// The address that was known last.
    pub last_addr: Option<String>,
}

/// What a [`PeerInfo`] holds.
#[verifier::ext_equal]
pub struct PeerModel {
    pub nickname: Seq<char>,
    pub online: bool,
    pub unread: u32,
    pub records: Seq<RecordModel>,
    pub last_addr: Option<Seq<char>>,
}

impl View for PeerInfo {
    type V = PeerModel;

    open spec fn view(&self) -> PeerModel {
        PeerModel {
            nickname: self.nickname@,
            online: self.online,
            unread: self.unread,
            records: views(self.records@),
            last_addr: opt(self.last_addr),
        }
    }
}

/// A contact of which nothing is known yet.
pub open spec fn new_peer() -> PeerModel {
    PeerModel {
        nickname: Seq::empty(),
        online: false,
        unread: 0,
        records: Seq::empty(),
        last_addr: None,
    }
}

/// Something to be done outside.
#[derive(Debug, PartialEq)]
pub enum Effect {
    /// Print a line.
    Print(String),
    /// Begin the key agreement with a peer.
    SendKey { peer: PeerId, hello: KeyHello },
    /// Send a sealed chat message; the reply comes back under the request's number.
    SendChat { request: u64, peer: PeerId, envelope: Envelope },
    /// Seal a file message under the key and send it; the reply comes back under the request's
    /// number.
    SendFile { request: u64, peer: PeerId, key: [u8; 32], msg: FileMsg },
    /// Keep the nickname in the configuration.
    SaveNickname(String),
    /// Keep a friend's address in the configuration.
    SaveFriend(String),
    /// Keep the address of a bootstrap node in the configuration.
    SaveBootstrap(String),
}

/// What an [`Effect`] says.
#[verifier::ext_equal]
pub enum EffectModel {
    Print(Seq<char>),
    SendKey { peer: Seq<char>, hello: KeyHelloModel },
    SendChat { request: u64, peer: Seq<char>, envelope: EnvelopeModel },
    SendFile { request: u64, peer: Seq<char>, key: Seq<u8>, msg: FileMsgModel },
    SaveNickname(Seq<char>),
    SaveFriend(Seq<char>),
    SaveBootstrap(Seq<char>),
}

impl View for Effect {
    type V = EffectModel;

    open spec fn view(&self) -> EffectModel {
        match self {
            Effect::Print(line) => EffectModel::Print(line@),
            Effect::SendKey { peer, hello } => EffectModel::SendKey { peer: peer@, hello: hello@ },
            Effect::SendChat { request, peer, envelope } => EffectModel::SendChat {
                request: *request,
                peer: peer@,
                envelope: envelope@,
            },
            Effect::SendFile { request, peer, key, msg } => EffectModel::SendFile {
                request: *request,
                peer: peer@,
                key: key@,
                msg: msg@,
            },
            Effect::SaveNickname(name) => EffectModel::SaveNickname(name@),
            Effect::SaveFriend(addr) => EffectModel::SaveFriend(addr@),
            Effect::SaveBootstrap(addr) => EffectModel::SaveBootstrap(addr@),
        }
    }
}

/// What came of opening a request that arrived.
pub enum Request<M> {
    /// There is no session key for its sender.
    NoSession,
    /// It did not open, or what it held is no message; the reason in words.
    Unreadable(String),
    /// The message that it held.
    Message(M),
}

/// What a [`Request`] says.
#[verifier::ext_equal]
pub enum RequestModel<M> {
    NoSession,
    Unreadable(Seq<char>),
    Message(M),
}

impl<M: View> View for Request<M> {
    type V = RequestModel<M::V>;

    open spec fn view(&self) -> RequestModel<M::V> {
        match self {
            Request::NoSession => RequestModel::NoSession,
            Request::Unreadable(error) => RequestModel::Unreadable(error@),
            Request::Message(msg) => RequestModel::Message(msg@),
        }
    }
}

/// The state of a node.
pub struct AppState {
    /// The application layer's key pair.
    pub crypto: AppCrypto,
    /// The nickname of this node.
    pub nickname: String,
    /// Whether the terminal interface is on.
    pub tui_enabled: bool,
    /// Whether nodes are sought in the distributed hash table.
    pub dht_enabled: bool,
    /// The id of this node.
    pub local_peer_id: PeerId,
    /// The addresses at which this node listens, each with its id at the end.
    pub listen_addrs: Vec<String>,
    /// The number of nodes in the routing table, for display.
    pub dht_routing_peers: usize,
    /// The peers with a connection.
    pub connected: Table<PeerId, ()>,
    /// The session keys agreed with peers.
    pub sessions: Table<PeerId, [u8; 32]>,
    /// The contacts.
    pub peers: Table<PeerId, PeerInfo>,
    /// The contact whose conversation is shown.
    pub selected_peer: Option<PeerId>,
    /// The log.
    pub logs: VecDeque<String>,
    /// The id of the next chat message.
    pub next_msg_id: u64,
    /// The id of the next outgoing file.
    pub next_file_id: u64,
    /// The next timestamp.
    pub next_ts: u64,
    /// The files on their way out.
    pub outgoing_files: Table<u64, OutgoingTransfer>,
    /// The files on their way in.
    pub incoming_files: Table<u64, IncomingTransfer>,
    /// The invitations that wait for the user's decision.
    pub pending_offers: Table<PeerId, Offers>,
    /// The file requests without a reply: which file, and what about.
    pub file_outstanding: Table<u64, (u64, OutboundReq)>,
    /// The chat messages without a reply: to whom, what, and how often it was sent again.
    pub pending_chat_msgs: Table<u64, (PeerId, ChatMsg, u32)>,
    /// The contacts whose conversation is not saved yet.
    pub dirty_conversations: Table<PeerId, ()>,
    /// The short notice at the bottom of the screen.
    pub toast: ToastCell,
    /// The number of the next request.
    pub next_request: u64,
    /// What is left to be done outside, in this order.
    pub effects: Vec<Effect>,
}

/// What an [`AppState`] holds.
#[verifier::ext_equal]
pub struct StateModel {
    pub crypto: CryptoModel,
    pub nickname: Seq<char>,
    pub tui_enabled: bool,
    pub dht_enabled: bool,
    pub local_peer_id: Seq<char>,
    pub listen_addrs: Seq<Seq<char>>,
    pub dht_routing_peers: usize,
    pub connected: Seq<(Seq<char>, ())>,
    pub sessions: Seq<(Seq<char>, Seq<u8>)>,
    pub peers: Seq<(Seq<char>, PeerModel)>,
    pub selected_peer: Option<Seq<char>>,
    pub logs: Seq<Seq<char>>,
    pub next_msg_id: u64,
    pub next_file_id: u64,
    pub next_ts: u64,
    pub outgoing_files: Seq<(u64, TransferModel)>,
    pub incoming_files: Seq<(u64, IncomingModel)>,
    pub pending_offers: Seq<(Seq<char>, Seq<OfferModel>)>,
    pub file_outstanding: Seq<(u64, (u64, OutboundReq))>,
    pub pending_chat_msgs: Seq<(u64, (Seq<char>, ChatMsgModel, u32))>,
    pub dirty_conversations: Seq<(Seq<char>, ())>,
    pub toast: Option<Seq<char>>,
    pub next_request: u64,
    pub effects: Seq<EffectModel>,
}

impl View for AppState {
    type V = StateModel;

    open spec fn view(&self) -> StateModel {
        StateModel {
            crypto: self.crypto@,
            nickname: self.nickname@,
            tui_enabled: self.tui_enabled,
            dht_enabled: self.dht_enabled,
            local_peer_id: self.local_peer_id@,
            listen_addrs: views(self.listen_addrs@),
            dht_routing_peers: self.dht_routing_peers,
            connected: self.connected@,
            sessions: self.sessions@,
            peers: self.peers@,
            selected_peer: opt(self.selected_peer),
            logs: views(self.logs@),
            next_msg_id: self.next_msg_id,
            next_file_id: self.next_file_id,
            next_ts: self.next_ts,
            outgoing_files: self.outgoing_files@,
            incoming_files: self.incoming_files@,
            pending_offers: self.pending_offers@,
            file_outstanding: self.file_outstanding@,
            pending_chat_msgs: self.pending_chat_msgs@,
            dirty_conversations: self.dirty_conversations@,
            toast: self.toast@,
            next_request: self.next_request,
            effects: views(self.effects@),
        }
    }
}

/// The state with one more thing to be done outside.
pub open spec fn doing(s: StateModel, effect: EffectModel) -> StateModel {
    StateModel { effects: s.effects.push(effect), ..s }
}

/// The state once a line is logged: in the log with the terminal interface, else to be printed.
/// Of a full log the oldest line makes room.
pub open spec fn logged(s: StateModel, line: Seq<char>) -> StateModel {
    if s.tui_enabled {
        StateModel { logs: kept(s.logs.push(line)), ..s }
    } else {
        doing(s, EffectModel::Print(line))
    }
}

/// The state once several lines are logged.
pub open spec fn logged_all(s: StateModel, lines: Seq<Seq<char>>) -> StateModel
    decreases lines.len(),
{
    if lines.len() == 0 {
        s
    } else {
        logged(logged_all(s, lines.drop_last()), lines.last())
    }
}

/// The state with a notice at the bottom of the screen.
pub open spec fn noticed(s: StateModel, text: Seq<char>) -> StateModel {
    StateModel { toast: Some(text), ..s }
}

/// What is known of a peer, where nothing is: a new contact.
pub open spec fn peer_of(s: StateModel, peer: Seq<char>) -> PeerModel {
    if has(s.peers, peer) {
        at(s.peers, peer)
    } else {
        new_peer()
    }
}

/// The state with what is known of a peer replaced.
pub open spec fn with_peer(s: StateModel, peer: Seq<char>, info: PeerModel) -> StateModel {
    StateModel { peers: put(s.peers, peer, info), ..s }
}

/// The record counts as unread: a text from somebody whose conversation is not shown.
pub open spec fn counts_unread(s: StateModel, peer: Seq<char>, record: RecordModel) -> bool {
    record.kind == "text"@ && !record.outbound && s.selected_peer != Some(peer)
}

/// A contact with one more record.
pub open spec fn with_record(info: PeerModel, record: RecordModel, unread: bool) -> PeerModel {
    PeerModel {
        records: kept(info.records.push(record)),
        unread: if unread && info.unread < u32::MAX {
            (info.unread + 1) as u32
        } else {
            info.unread
        },
        ..info
    }
}

/// The state once a record is added to a conversation, which is then to be saved.
pub open spec fn recorded(s: StateModel, peer: Seq<char>, record: RecordModel) -> StateModel {
    let info = with_record(peer_of(s, peer), record, counts_unread(s, peer, record));
    StateModel {
        peers: put(s.peers, peer, info),
        dirty_conversations: put(s.dirty_conversations, peer, ()),
        ..s
    }
}

/// The state once a timestamp is taken.
pub open spec fn ticked(s: StateModel) -> StateModel {
    StateModel { next_ts: (s.next_ts + 1) as u64, ..s }
}

/// The timestamp of an event of a file transfer: what the clock shows, but not less than the next
/// timestamp.
pub open spec fn stamp(s: StateModel, now: NowModel) -> u64 {
    if now.ms > s.next_ts {
        now.ms
    } else {
        s.next_ts
    }
}

/// The state in which timestamps go on behind a given one, as far as there are numbers.
pub open spec fn stamped(s: StateModel, ts: u64) -> StateModel {
    StateModel {
        next_ts: if ts < u64::MAX {
            (ts + 1) as u64
        } else {
            ts
        },
        ..s
    }
}

/// The state once an event of a file transfer is added to a conversation.
pub open spec fn noted(
    s: StateModel,
    peer: Seq<char>,
    outbound: bool,
    filename: Seq<char>,
    text: Seq<char>,
    now: NowModel,
) -> StateModel {
    let ts = stamp(s, now);
    recorded(stamped(s, ts), peer, file_record(outbound, filename, text, ts, now.time))
}

/// The state once the nickname is changed.
pub open spec fn renamed(s: StateModel, name: Seq<char>) -> StateModel {
    logged(
        doing(StateModel { nickname: name, ..s }, EffectModel::SaveNickname(name)),
        "[系统] 昵称已改为："@ + name,
    )
}

/// The state once a contact's conversation is shown: all of it is read.
pub open spec fn selected(s: StateModel, peer: Seq<char>) -> StateModel {
    StateModel {
        selected_peer: Some(peer),
        peers: if has(s.peers, peer) {
            put(s.peers, peer, PeerModel { unread: 0, ..at(s.peers, peer) })
        } else {
            s.peers
        },
        ..s
    }
}

/// The contact of a saved conversation; nobody is connected yet.
pub open spec fn contact(conv: ConversationModel) -> PeerModel {
    PeerModel {
        nickname: conv.nickname,
        online: false,
        unread: 0,
        records: conv.records,
        last_addr: conv.last_addr,
    }
}

/// The contacts of the saved conversations, the later ones in place of the earlier.
pub open spec fn contacts(saved: Seq<(Seq<char>, ConversationModel)>) -> Seq<(Seq<char>, PeerModel)>
    decreases saved.len(),
{
    if saved.len() == 0 {
        Seq::empty()
    } else {
        put(contacts(saved.drop_last()), saved.last().0, contact(saved.last().1))
    }
}

/// A contact's conversation as it is saved.
pub open spec fn saved(info: PeerModel, peer: Seq<char>) -> ConversationModel {
    ConversationModel {
        peer_id: peer,
        nickname: info.nickname,
        last_addr: info.last_addr,
        records: info.records,
    }
}

/// The conversations of those among the peers who are contacts.
pub open spec fn saved_all(s: StateModel, peers: Seq<Seq<char>>) -> Seq<ConversationModel>
    decreases peers.len(),
{
    if peers.len() == 0 {
        Seq::empty()
    } else {
        let before = saved_all(s, peers.drop_last());
        if has(s.peers, peers.last()) {
            before.push(saved(at(s.peers, peers.last()), peers.last()))
        } else {
            before
        }
    }
}

/// The state of a node that has just started.
pub open spec fn fresh(
    crypto: CryptoModel,
    nickname: Seq<char>,
    tui_enabled: bool,
    local_peer_id: Seq<char>,
    saved: Seq<(Seq<char>, ConversationModel)>,
) -> StateModel {
    StateModel {
        crypto,
        nickname,
        tui_enabled,
        dht_enabled: false,
        local_peer_id,
        listen_addrs: Seq::empty(),
        dht_routing_peers: 0,
        connected: Seq::empty(),
        sessions: Seq::empty(),
        peers: contacts(saved),
        selected_peer: None,
        logs: Seq::empty(),
        next_msg_id: 1,
        next_file_id: 1,
        next_ts: 1,
        outgoing_files: Seq::empty(),
        incoming_files: Seq::empty(),
        pending_offers: Seq::empty(),
        file_outstanding: Seq::empty(),
        pending_chat_msgs: Seq::empty(),
        dirty_conversations: Seq::empty(),
        toast: None,
        next_request: 1,
        effects: Seq::empty(),
    }
}

/// Drops the oldest lines beyond those that are kept.
fn drop_oldest(lines: &mut VecDeque<String>)
    ensures
        final(lines)@ == kept(old(lines)@),
{
    let ghost all = lines@;
    assert(all.skip(0) =~= all);
    while lines.len() > HISTORY
        invariant
            lines@.len() <= all.len(),
            all.len() > HISTORY ==> lines@.len() >= HISTORY,
            all.len() <= HISTORY ==> lines@ == all,
            lines@ == all.skip(all.len() - lines@.len()),
        decreases lines@.len(),
    {
        let _ = lines.pop_front();
        assert(lines@ =~= all.skip(all.len() - lines@.len()));
    }
}

impl AppState {
    /// The state of a node that has just started, with the contacts of the saved conversations.
    pub fn new(
        crypto: AppCrypto,
        nickname: String,
        tui_enabled: bool,
        local_peer_id: PeerId,
        known_peers: Vec<(PeerId, ConversationFile)>,
    ) -> (state: Self)
        ensures
            state@ == fresh(
                crypto@,
                nickname@,
                tui_enabled,
                local_peer_id@,
                views(known_peers@),
            ),
    {
        let mut peers: Table<PeerId, PeerInfo> = Table::new();
        let ghost saved = views(known_peers@);
        assert(saved.take(0) =~= Seq::<(Seq<char>, ConversationModel)>::empty());
        for entry in it: known_peers
            invariant
                saved == views(it.seq()),
                peers@ == contacts(saved.take(it.index() as int)),
        {
            let ghost i = it.index() as int;
            let ghost before = saved.take(i + 1);
            proof {
                assert(saved[i] == it.seq()[i]@);
                assert(before.drop_last() =~= saved.take(i));
                assert(before.last() == saved[i]);
            }
            let (id, conv) = entry;
            let info = PeerInfo {
                nickname: conv.nickname,
                online: false,
                unread: 0,
                records: conv.records,
                last_addr: conv.last_addr,
            };
            assert(info@ == contact(conv@));
            peers.insert(id, info);
        }
        assert(saved.take(saved.len() as int) =~= saved);
        AppState {
            crypto,
            nickname,
            tui_enabled,
            dht_enabled: false,
            local_peer_id,
            listen_addrs: Vec::new(),
            dht_routing_peers: 0,
            connected: Table::new(),
            sessions: Table::new(),
            peers,
            selected_peer: None,
            logs: VecDeque::with_capacity(HISTORY),
            next_msg_id: 1,
            next_file_id: 1,
            next_ts: 1,
            outgoing_files: Table::new(),
            incoming_files: Table::new(),
            pending_offers: Table::new(),
            file_outstanding: Table::new(),
            pending_chat_msgs: Table::new(),
            dirty_conversations: Table::new(),
            toast: toast_cell(),
            next_request: 1,
            effects: Vec::new(),
        }
    }

    /// Takes a timestamp, larger than all before it.
    pub fn tick_ts(&mut self) -> (ts: u64)
        requires
            old(self)@.next_ts < u64::MAX,
        ensures
            ts == old(self)@.next_ts,
            final(self)@ == ticked(old(self)@),
    {
        let ts: u64 = self.next_ts;
        self.next_ts = ts + 1;
        ts
    }

    /// Leaves something to be done outside.
    pub fn push_effect(&mut self, effect: Effect)
        ensures
            final(self)@ == doing(old(self)@, effect@),
    {
        proof {
            lemma_views_push(self.effects@, effect);
        }
        self.effects.push(effect);
    }

    /// Logs a line.
    pub fn log(&mut self, line: String)
        ensures
            final(self)@ == logged(old(self)@, line@),
    {
        if self.tui_enabled {
            let ghost before = self.logs@;
            self.logs.push_back(line);
            drop_oldest(&mut self.logs);
            proof {
                let all = before.push(line);
                assert(views(all) =~= views(before).push(line@));
                assert(views(kept(all)) =~= kept(views(all)));
            }
        } else {
            self.push_effect(Effect::Print(line));
        }
    }

    /// Logs a line.
    pub fn log_str(&mut self, line: &str)
        ensures
            final(self)@ == logged(old(self)@, line@),
    {
        self.log(line.to_owned());
    }

    /// What is known of a peer, to be changed in place; a new contact where nothing is known.
    pub fn peer_or_insert(&mut self, peer: &PeerId) -> (info: &mut PeerInfo)
        ensures
            info@ == peer_of(old(self)@, peer@),
            final(self)@ == with_peer(old(self)@, peer@, final(info)@),
    {
        let ghost before = self.peers@;
        let i: usize = match self.peers.find(peer) {
            Some(i) => i,
            None => {
                let n: usize = self.peers.len();
                let info = PeerInfo {
                    nickname: String::new(),
                    online: false,
                    unread: 0,
                    records: Vec::new(),
                    last_addr: None,
                };
                assert(info@ == new_peer());
                self.peers.insert(peer.dup(), info);
                assert(self.peers@.update(n as int, self.peers@[n as int]) =~= self.peers@);
                n
            },
        };
        assert forall|v: PeerModel|
            #![trigger self.peers@.update(i as int, (self.peers@[i as int].0, v))]
            self.peers@.update(i as int, (self.peers@[i as int].0, v)) == put(before, peer@, v) by {
            assert(self.peers@.update(i as int, (self.peers@[i as int].0, v)) =~= put(
                before,
                peer@,
                v,
            ));
        }
        self.peers.value_at_mut(i)
    }

    /// Adds a record to the conversation with a peer, as its last; of a full conversation the oldest
    /// record makes room. A text from a peer whose conversation is not shown counts as unread.
    pub fn record_to_peer(&mut self, peer: &PeerId, record: ChatRecord)
        ensures
            final(self)@ == recorded(old(self)@, peer@, record@),
            at(final(self)@.peers, peer@).records.last() == record@,
            at(final(self)@.peers, peer@).records.len() <= HISTORY,
    {
        proof {
            lemma_lookup_put(
                self@.peers,
                peer@,
                with_record(
                    peer_of(self@, peer@),
                    record@,
                    counts_unread(self@, peer@, record@),
                ),
                peer@,
            );
        }
        let is_msg = record.kind == "text".to_owned();
        let inbound = !record.outbound;
        let shown = match &self.selected_peer {
            Some(p) => p.same(peer),
            None => false,
        };
        let bump_unread = is_msg && inbound && !shown;
        let info = self.peer_or_insert(peer);
        let ghost records = info.records@;
        info.records.push(record);
        let n: usize = info.records.len();
        if n > HISTORY {
            info.records = info.records.split_off(n - HISTORY);
        }
        assert(views(info.records@) =~= kept(views(records).push(record@)));
        if bump_unread {
            info.unread = info.unread.saturating_add(1);
        }
        self.dirty_conversations.insert(peer.dup(), ());
    }

    /// Adds an event of a file transfer to the conversation with a peer, under a timestamp that is
    /// larger than all before it.
    pub fn note_file(
        &mut self,
        peer: &PeerId,
        outbound: bool,
        filename: &str,
        text: &str,
        now: &Now,
    )
        ensures
            final(self)@ == noted(old(self)@, peer@, outbound, filename@, text@, now@),
    {
        let ts: u64 = if now.ms > self.next_ts {
            now.ms
        } else {
            self.next_ts
        };
        self.next_ts = ts.saturating_add(1);
        self.record_to_peer(peer, ChatRecord::file_at(outbound, filename, text, ts, &now.time));
    }

    /// Hands out the conversations that are not saved yet; they then count as saved.
    pub fn flush_conversations(&mut self) -> (files: Vec<ConversationFile>)
        ensures
            views(files@) == saved_all(old(self)@, keys(old(self)@.dirty_conversations)),
            hands_out_unsaved(old(self)@, views(files@)),
            final(self)@ == (StateModel { dirty_conversations: Seq::empty(), ..old(self)@ }),
    {
        let ghost peers = keys(self@.dirty_conversations);
        let mut files: Vec<ConversationFile> = Vec::new();
        let mut i: usize = 0;
        proof {
            assert(peers.take(0) =~= Seq::<Seq<char>>::empty());
            assert(views(files@) =~= Seq::<ConversationModel>::empty());
        }
        while i < self.dirty_conversations.len()
            invariant
                i <= peers.len(),
                *self == *old(self),
                peers == keys(self@.dirty_conversations),
                views(files@) == saved_all(self@, peers.take(i as int)),
            decreases peers.len() - i,
        {
            let ghost now = peers.take(i + 1);
            proof {
                assert(now.drop_last() =~= peers.take(i as int));
                assert(now.last() == peers[i as int]);
            }
            let peer = self.dirty_conversations.key_at(i);
            if let Some(info) = self.peers.get(peer) {
                let file = ConversationFile {
                    peer_id: peer.text.clone(),
                    nickname: info.nickname.clone(),
                    last_addr: match &info.last_addr {
                        Some(addr) => Some(addr.clone()),
                        None => None,
                    },
                    records: dup_all(&info.records),
                };
                proof {
                    assert(file@ == saved(info@, peer@));
                    lemma_views_push(files@, file);
                }
                files.push(file);
            }
            i = i + 1;
        }
        assert(peers.take(peers.len() as int) =~= peers);
        proof {
            law_unsaved_is_handed_out(self@);
        }
        self.dirty_conversations = Table::new();
        files
    }

    /// Sets the nickname, which is then to be kept.
    pub fn set_nickname(&mut self, new: String)
        ensures
            final(self)@ == renamed(old(self)@, new@),
    {
        let line = join2("[系统] 昵称已改为：", &new);
        self.nickname = new.clone();
        self.push_effect(Effect::SaveNickname(new));
        self.log(line);
    }

    /// Shows the conversation with a contact; all of it is read.
    pub fn select_peer(&mut self, peer: PeerId)
        ensures
            final(self)@ == selected(old(self)@, peer@),
    {
        if let Some(info) = self.peers.get_mut(&peer) {
            info.unread = 0;
        }
        self.selected_peer = Some(peer);
    }

    /// Puts a notice at the bottom of the screen.
    pub fn notice(&mut self, text: &str)
        ensures
            final(self)@ == noticed(old(self)@, text@),
    {
        set_toast(&mut self.toast, text);
    }

    /// Hands out what is left to be done outside.
    pub fn take_effects(&mut self) -> (effects: Vec<Effect>)
        ensures
            views(effects@) == old(self)@.effects,
            final(self)@ == (StateModel { effects: Seq::empty(), ..old(self)@ }),
    {
        let mut effects: Vec<Effect> = Vec::new();
        std::mem::swap(&mut effects, &mut self.effects);
        effects
    }
}

/// The file holds the conversation with a contact as it stands.
pub open spec fn is_conversation_of(s: StateModel, file: ConversationModel, peer: Seq<char>) -> bool {
    &&& file.peer_id == peer
    &&& lookup(s.peers, peer) matches Some(info) && {
        &&& file.nickname == info.nickname
        &&& file.last_addr == info.last_addr
        &&& file.records == info.records
    }
}

/// Of every contact whose conversation is not saved the files hold the conversation, and they hold
/// no other.
pub open spec fn hands_out_unsaved(s: StateModel, files: Seq<ConversationModel>) -> bool {
    &&& forall|peer: Seq<char>|
        has(s.dirty_conversations, peer) && #[trigger] has(s.peers, peer) ==> exists|i: int|
            0 <= i < files.len() && is_conversation_of(s, #[trigger] files[i], peer)
    &&& forall|i: int|
        0 <= i < files.len() ==> has(s.dirty_conversations, (#[trigger] files[i]).peer_id)
            && is_conversation_of(s, files[i], files[i].peer_id)
}

proof fn lemma_saved_all(s: StateModel, peers: Seq<Seq<char>>)
    ensures
        forall|k: int|
            0 <= k < peers.len() && has(s.peers, #[trigger] peers[k]) ==> exists|i: int|
                0 <= i < saved_all(s, peers).len() && is_conversation_of(
                    s,
                    #[trigger] saved_all(s, peers)[i],
                    peers[k],
                ),
        forall|i: int|
            0 <= i < saved_all(s, peers).len() ==> is_conversation_of(
                s,
                #[trigger] saved_all(s, peers)[i],
                saved_all(s, peers)[i].peer_id,
            ) && peers.contains(saved_all(s, peers)[i].peer_id),
    decreases peers.len(),
{
    if peers.len() > 0 {
        let front = peers.drop_last();
        let before = saved_all(s, front);
        let files = saved_all(s, peers);
        lemma_saved_all(s, front);
        if has(s.peers, peers.last()) {
            assert(is_conversation_of(s, files[before.len() as int], peers.last()));
        }
        assert forall|k: int| 0 <= k < peers.len() && has(s.peers, #[trigger] peers[k]) implies exists|
            i: int,
        |
            0 <= i < files.len() && is_conversation_of(s, #[trigger] files[i], peers[k]) by {
            if k < front.len() {
                assert(front[k] == peers[k]);
                let i = choose|i: int|
                    0 <= i < before.len() && is_conversation_of(s, #[trigger] before[i], front[k]);
                assert(files[i] == before[i]);
            }
        }
        assert forall|i: int| 0 <= i < files.len() implies is_conversation_of(
            s,
            #[trigger] files[i],
            files[i].peer_id,
        ) && peers.contains(files[i].peer_id) by {
            if i < before.len() {
                assert(files[i] == before[i]);
                let k = choose|k: int| 0 <= k < front.len() && front[k] == before[i].peer_id;
                assert(peers[k] == files[i].peer_id);
            } else {
                assert(peers[peers.len() - 1] == files[i].peer_id);
            }
        }
    }
}

/// Nothing that was said is lost: what is handed out to be saved holds the conversation of every
/// contact with something unsaved, as it stands, and no other conversation.
pub proof fn law_unsaved_is_handed_out(s: StateModel)
    ensures
        hands_out_unsaved(s, saved_all(s, keys(s.dirty_conversations))),
{
    let peers = keys(s.dirty_conversations);
    let files = saved_all(s, peers);
    lemma_saved_all(s, peers);
    assert forall|peer: Seq<char>|
        has(s.dirty_conversations, peer) && #[trigger] has(s.peers, peer) implies exists|i: int|
        0 <= i < files.len() && is_conversation_of(s, #[trigger] files[i], peer) by {
        let k = choose|k: int|
            0 <= k < s.dirty_conversations.len() && (#[trigger] s.dirty_conversations[k]).0 == peer;
        assert(peers[k] == peer);
    }
    assert forall|i: int| 0 <= i < files.len() implies has(
        s.dirty_conversations,
        (#[trigger] files[i]).peer_id,
    ) && is_conversation_of(s, files[i], files[i].peer_id) by {
        let k = choose|k: int| 0 <= k < peers.len() && peers[k] == files[i].peer_id;
        assert(s.dirty_conversations[k].0 == files[i].peer_id);
    }
}

/// The contact is the one of a saved conversation, of whom nothing is unread and who is not online.
pub open spec fn is_restored(info: PeerModel, conv: ConversationModel) -> bool {
    &&& info.nickname == conv.nickname
    &&& info.records == conv.records
    &&& info.last_addr == conv.last_addr
    &&& !info.online
    &&& info.unread == 0
}

/// Every saved conversation is there again after a start: its contact is known, with all that was
/// said, and there is no contact without a saved conversation. Where a peer has several, the last
/// one counts. Nobody is connected, and nothing is under way.
pub proof fn law_contacts_are_restored(
    crypto: CryptoModel,
    nickname: Seq<char>,
    tui_enabled: bool,
    local_peer_id: Seq<char>,
    saved: Seq<(Seq<char>, ConversationModel)>,
)
    ensures
        ({
            let s = fresh(crypto, nickname, tui_enabled, local_peer_id, saved);
            &&& forall|i: int|
                0 <= i < saved.len() && (forall|j: int|
                    i < j < saved.len() ==> saved[j].0 != saved[i].0) ==> (lookup(
                    s.peers,
                    (#[trigger] saved[i]).0,
                ) matches Some(info) && is_restored(info, saved[i].1))
            &&& forall|peer: Seq<char>| #[trigger]
                has(s.peers, peer) ==> exists|i: int|
                    0 <= i < saved.len() && (#[trigger] saved[i]).0 == peer
            &&& s.nickname == nickname && s.crypto == crypto && s.local_peer_id == local_peer_id
            &&& s.tui_enabled == tui_enabled
            &&& s.connected.len() == 0 && s.sessions.len() == 0 && s.selected_peer is None
            &&& s.outgoing_files.len() == 0 && s.incoming_files.len() == 0
            &&& s.pending_offers.len() == 0 && s.dirty_conversations.len() == 0
            &&& s.effects.len() == 0 && s.toast is None && s.logs.len() == 0
        }),
{
    lemma_contacts(saved);
}

proof fn lemma_contacts(saved: Seq<(Seq<char>, ConversationModel)>)
    ensures
        forall|i: int|
            0 <= i < saved.len() && (forall|j: int|
                i < j < saved.len() ==> saved[j].0 != saved[i].0) ==> (lookup(
                contacts(saved),
                (#[trigger] saved[i]).0,
            ) matches Some(info) && is_restored(info, saved[i].1)),
        forall|peer: Seq<char>| #[trigger]
            has(contacts(saved), peer) ==> exists|i: int|
                0 <= i < saved.len() && (#[trigger] saved[i]).0 == peer,
    decreases saved.len(),
{
    if saved.len() > 0 {
        let front = saved.drop_last();
        let last = saved.last();
        lemma_contacts(front);
        assert forall|i: int|
            0 <= i < saved.len() && (forall|j: int| i < j < saved.len() ==> saved[j].0 != saved[i].0)
            implies (lookup(contacts(saved), (#[trigger] saved[i]).0) matches Some(info)
            && is_restored(info, saved[i].1)) by {
            lemma_lookup_put(contacts(front), last.0, contact(last.1), saved[i].0);
            if i < front.len() {
                assert(front[i] == saved[i]);
                assert(saved[saved.len() - 1].0 != saved[i].0);
                assert forall|j: int| i < j < front.len() implies front[j].0 != front[i].0 by {
                    assert(saved[j].0 != saved[i].0);
                }
            }
        }
        assert forall|peer: Seq<char>| #[trigger] has(contacts(saved), peer) implies exists|i: int|
            0 <= i < saved.len() && (#[trigger] saved[i]).0 == peer by {
            lemma_lookup_put(contacts(front), last.0, contact(last.1), peer);
            if peer == last.0 {
                assert(saved[saved.len() - 1].0 == peer);
            } else {
                assert(has(contacts(front), peer));
                let i = choose|i: int| 0 <= i < front.len() && (#[trigger] front[i]).0 == peer;
                assert(saved[i].0 == peer);
            }
        }
    }
}

/// Several lines are logged one after the other, each of them: without the terminal interface all
/// are printed, and with it they stand at the end of the log, as many as are kept.
pub proof fn law_all_lines_are_logged(s: StateModel, lines: Seq<Seq<char>>)
    ensures
        !s.tui_enabled ==> logged_all(s, lines) == (StateModel {
            effects: s.effects + Seq::new(lines.len(), |i: int| EffectModel::Print(lines[i])),
            ..s
        }),
        s.tui_enabled && s.logs.len() + lines.len() <= HISTORY ==> logged_all(s, lines) == (
        StateModel { logs: s.logs + lines, ..s }),
        s.tui_enabled && s.logs.len() <= HISTORY ==> logged_all(s, lines).logs.len() <= HISTORY,
    decreases lines.len(),
{
    if lines.len() > 0 {
        law_all_lines_are_logged(s, lines.drop_last());
        let front = lines.drop_last();
        assert(s.effects + Seq::new(lines.len(), |i: int| EffectModel::Print(lines[i])) =~= (s.effects
            + Seq::new(front.len(), |i: int| EffectModel::Print(front[i]))).push(
            EffectModel::Print(lines.last()),
        ));
        assert(s.logs + lines =~= (s.logs + front).push(lines.last()));
    } else {
        assert(s.effects + Seq::new(lines.len(), |i: int| EffectModel::Print(lines[i]))
            =~= s.effects);
        assert(s.logs + lines =~= s.logs);
    }
}

/// A nickname that is chosen is the one from now on, is kept, and changes nothing that is known of
/// others.
pub proof fn law_nickname_is_kept(s: StateModel, name: Seq<char>)
    ensures
        renamed(s, name).nickname == name,
        renamed(s, name).effects.len() > s.effects.len(),
        renamed(s, name).effects[s.effects.len() as int] == EffectModel::SaveNickname(name),
        renamed(s, name).effects.take(s.effects.len() as int) == s.effects,
        renamed(s, name).peers == s.peers,
        renamed(s, name).sessions == s.sessions,
        renamed(s, name).crypto == s.crypto,
{
    assert(renamed(s, name).effects.take(s.effects.len() as int) =~= s.effects);
}

/// Showing a conversation makes it the one that is shown, leaves nothing unread in it, and touches
/// no other contact.
pub proof fn law_selection_is_shown(s: StateModel, peer: Seq<char>, other: Seq<char>)
    ensures
        selected(s, peer).selected_peer == Some(peer),
        lookup(selected(s, peer).peers, peer) matches Some(info) ==> info.unread == 0 && (lookup(
            s.peers,
            peer,
        ) matches Some(before) && info.records == before.records && info.nickname == before.nickname
            && info.online == before.online && info.last_addr == before.last_addr),
        has(selected(s, peer).peers, other) == has(s.peers, other),
        other != peer ==> lookup(selected(s, peer).peers, other) == lookup(s.peers, other),
        selected(s, peer).sessions == s.sessions,
        selected(s, peer).effects == s.effects,
{
    if has(s.peers, peer) {
        lemma_lookup_put(s.peers, peer, PeerModel { unread: 0, ..at(s.peers, peer) }, peer);
        lemma_lookup_put(s.peers, peer, PeerModel { unread: 0, ..at(s.peers, peer) }, other);
    }
}

/// A node that has just started has its own keys, name and id, knows only those with whom it has
/// spoken, is connected to nobody, and has nothing to send, to save or to show.
pub proof fn law_start_is_quiet(
    crypto: CryptoModel,
    nickname: Seq<char>,
    tui_enabled: bool,
    local_peer_id: Seq<char>,
    conversations: Seq<(Seq<char>, ConversationModel)>,
)
    ensures
        ({
            let s = fresh(crypto, nickname, tui_enabled, local_peer_id, conversations);
            &&& s.crypto == crypto && s.nickname == nickname && s.local_peer_id == local_peer_id
            &&& s.tui_enabled == tui_enabled && !s.dht_enabled
            &&& s.connected.len() == 0 && s.sessions.len() == 0
            &&& s.outgoing_files.len() == 0 && s.incoming_files.len() == 0
            &&& s.pending_offers.len() == 0 && s.pending_chat_msgs.len() == 0
            &&& s.file_outstanding.len() == 0
            &&& s.effects.len() == 0 && s.logs.len() == 0 && s.dirty_conversations.len() == 0
            &&& s.toast is None && s.selected_peer is None
            &&& hands_out_unsaved(s, Seq::empty())
        }),
{
}

/// Of a contact that is new nothing is known but that it is not online: no name, no address, no
/// word said or unread.
pub proof fn law_new_contact_is_unknown(s: StateModel, peer: Seq<char>)
    requires
        lookup(s.peers, peer) is None,
    ensures
        !peer_of(s, peer).online,
        peer_of(s, peer).nickname.len() == 0,
        peer_of(s, peer).unread == 0,
        peer_of(s, peer).records.len() == 0,
        peer_of(s, peer).last_addr is None,
{
}

/// A notice takes the place of the one before, and nothing else is changed by it.
pub proof fn law_notice_takes_its_place(s: StateModel, text: Seq<char>, later: Seq<char>)
    ensures
        noticed(s, text).toast == Some(text),
        s == (StateModel { toast: s.toast, ..noticed(s, text) }),
        noticed(noticed(s, text), later) == noticed(s, later),
{
}

} // verus!
