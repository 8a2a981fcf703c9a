//! Connections: finding nodes, dialling them, and what comes and goes.
use vstd::prelude::*;
use crate::chat::{system_record, ChatRecord, Now, NowModel};
use crate::file_transfer::{after_disconnect, numbered, on_peer_disconnect};
use crate::identity::PeerId;
use crate::net::{
    after_chat_event, after_file_event, after_key_event, chat_action, display_name, file_action,
    handle_chat_event, handle_file_event, handle_key_event, hello, hello_of, name_of, ChatAction,
    ChatActionModel, ChatEvent, FileAction, FileActionModel, FileEvent, KeyEvent,
};
use crate::protocol::{KeyHello, KeyHelloModel};
use crate::state::{
    doing, logged, peer_of, recorded, ticked, with_peer, AppState, Effect, EffectModel, PeerModel,
    StateModel,
};
use crate::table::{
    at, has, lemma_lookup_put, lemma_views_push, lookup, opt, put, views, without, Dup,
};
use crate::text::{dec, decimal, ends, join3, join4, join5, occurs_in, stands_at};
use crate::laws::law_log_is_bounded;

verus! {

/// The state once this node listens at one more address.
pub open spec fn after_listening(s: StateModel, address: Seq<char>) -> StateModel {
    let addr = address + "/p2p/"@ + s.local_peer_id;
    logged(
        StateModel { listen_addrs: s.listen_addrs.push(addr), ..s },
        "[监听] 正在地址: "@ + addr + " 等待连接"@,
    )
}

/// The state once there is a connection to a peer: for the first one the peer is online, and the
/// key agreement begins.
pub open spec fn after_connected(s: StateModel, peer: Seq<char>, addr: Seq<char>) -> StateModel {
    if has(s.connected, peer) {
        StateModel { connected: put(s.connected, peer, ()), ..s }
    } else {
        let s1 = with_peer(
            StateModel { connected: put(s.connected, peer, ()), ..s },
            peer,
            PeerModel { online: true, last_addr: Some(addr), ..peer_of(s, peer) },
        );
        let s2 = logged(s1, "[成功] 已与节点 "@ + peer + " 建立连接（"@ + addr + "）"@);
        doing(s2, EffectModel::SendKey { peer, hello: hello_of(s) })
    }
}

/// The state without the session with a peer.
pub open spec fn unlinked(s: StateModel, peer: Seq<char>) -> StateModel {
    StateModel {
        connected: without(s.connected, peer),
        sessions: without(s.sessions, peer),
        ..s
    }
}

/// The state once a peer is known to be offline.
pub open spec fn offline(s: StateModel, peer: Seq<char>) -> StateModel {
    if has(s.peers, peer) {
        with_peer(s, peer, PeerModel { online: false, ..at(s.peers, peer) })
    } else {
        s
    }
}

/// The state once a connection is closed: with the last connection to the peer the session is
/// over, the peer is offline, and its transfers have failed; while others remain nothing changes.
pub open spec fn after_closed(
    s: StateModel,
    peer: Seq<char>,
    remaining: u32,
    cause: Seq<char>,
    now: NowModel,
) -> StateModel {
    if remaining == 0 {
        let s2 = offline(unlinked(s, peer), peer);
        let s3 = logged(
            s2,
            "[断开] 节点 "@ + name_of(s2, peer) + " 已断开（原因: "@ + cause + "）"@,
        );
        after_disconnect(
            recorded(
                ticked(s3),
                peer,
                system_record("[离线] 对方已下线"@, s.next_ts, now.time),
            ),
            peer,
            now,
        )
    } else {
        s
    }
}

/// The state once a node was discovered: unless connected, its address is noted.
pub open spec fn after_discovered(s: StateModel, peer: Seq<char>, addr: Seq<char>) -> StateModel {
    if has(s.connected, peer) {
        s
    } else {
        with_peer(
            logged(
                s,
                "[发现] mDNS 发现节点: "@ + name_of(s, peer) + " @ "@ + addr,
            ),
            peer,
            PeerModel { last_addr: Some(addr), ..peer_of(s, peer) },
        )
    }
}

/// Something that happened to the node's connections.
pub enum NetEvent {
    /// This node listens at an address.
    NewListenAddr { address: String },
    /// There is a connection; at the peer's side to this address.
    ConnectionEstablished { peer: PeerId, addr: String },
    /// A connection is closed; how many remain to that peer, and the cause in words.
    ConnectionClosed { peer: PeerId, remaining: u32, cause: String },
    /// A peer answered a ping in this time, or did not: in words.
    Ping { peer: PeerId, result: Result<String, String> },
    /// A node was discovered in the local network.
    Discovered { peer: PeerId, addr: String },
    /// A discovered node has not been heard of for long.
    Expired { peer: PeerId },
    Key(KeyEvent),
    Chat(ChatEvent),
    File(FileEvent),
    Kad(KadEvent),
    /// Anything else.
    Other,
}

/// What an event calls for.
pub enum NetAction {
    Nothing,
    /// To dial an address, and to report where that fails.
    Dial { addr: String },
    /// To answer in the key agreement.
    ReplyKey(KeyHello),
    Chat(ChatAction),
    File(FileAction),
    /// To dial peers found in the hash table.
    DialPeers(Vec<Dialing>),
}

/// What a [`NetAction`] says.
#[verifier::ext_equal]
pub enum NetActionModel {
    Nothing,
    Dial { addr: Seq<char> },
    ReplyKey(KeyHelloModel),
    Chat(ChatActionModel),
    File(FileActionModel),
    DialPeers(Seq<DialingModel>),
}

impl View for NetAction {
    type V = NetActionModel;

    open spec fn view(&self) -> NetActionModel {
        match self {
            NetAction::Nothing => NetActionModel::Nothing,
            NetAction::Dial { addr } => NetActionModel::Dial { addr: addr@ },
            NetAction::ReplyKey(hello) => NetActionModel::ReplyKey(hello@),
            NetAction::Chat(action) => NetActionModel::Chat(action@),
            NetAction::File(action) => NetActionModel::File(action@),
            NetAction::DialPeers(dials) => NetActionModel::DialPeers(views(dials@)),
        }
    }
}

/// A peer to be dialled, at an address or wherever it is known to be.
#[derive(Debug, PartialEq)]
pub struct Dialing {
    pub peer: PeerId,
    pub addr: Option<String>,
}

/// What a [`Dialing`] says.
#[verifier::ext_equal]
pub struct DialingModel {
    pub peer: Seq<char>,
    pub addr: Option<Seq<char>>,
}

impl View for Dialing {
    type V = DialingModel;

    open spec fn view(&self) -> DialingModel {
        DialingModel { peer: self.peer@, addr: opt(self.addr) }
    }
}

/// An event of the distributed hash table.
pub enum KadEvent {
    /// A node has come into the routing table.
    RoutingUpdated { peer: PeerId, is_new_peer: bool, addresses: Vec<String> },
    /// Nodes that announce themselves were found.
    FoundProviders { providers: Vec<PeerId> },
    /// A search has ended at these nodes.
    ClosestPeers { peers: Vec<PeerId> },
    /// Anything else.
    Other,
}

/// The peers to be dialled: those without a connection.
pub open spec fn strangers(s: StateModel, peers: Seq<Seq<char>>) -> Seq<DialingModel>
    decreases peers.len(),
{
    if peers.len() == 0 {
        Seq::empty()
    } else {
        let before = strangers(s, peers.drop_last());
        if has(s.connected, peers.last()) {
            before
        } else {
            before.push(DialingModel { peer: peers.last(), addr: None })
        }
    }
}

/// The peer, at each of the addresses.
pub open spec fn at_each(peer: Seq<char>, addresses: Seq<Seq<char>>) -> Seq<DialingModel> {
    Seq::new(
        addresses.len(),
        |i: int| DialingModel { peer, addr: Some(addresses[i]) },
    )
}

/// The state after an event of the hash table.
pub open spec fn after_kad_event(s: StateModel, ev: KadEvent) -> StateModel {
    match ev {
        KadEvent::RoutingUpdated { peer, is_new_peer, addresses } => if is_new_peer && !(has(
            s.connected,
            peer@,
        )) {
            logged(s, "[DHT] 路由表新增节点 "@ + peer@ + "，尝试直连"@)
        } else {
            s
        },
        KadEvent::FoundProviders { providers } => if providers@.len() > 0 {
            logged(
                s,
                "[DHT] 发现 "@ + decimal(providers@.len()) + " 个在线节点（provider）"@,
            )
        } else {
            s
        },
        KadEvent::ClosestPeers { peers } => s,
        KadEvent::Other => s,
    }
}

/// Whom an event of the hash table makes this node dial.
pub open spec fn kad_dials(s: StateModel, ev: KadEvent) -> Seq<DialingModel> {
    match ev {
        KadEvent::RoutingUpdated { peer, is_new_peer, addresses } => if is_new_peer && !(has(
            s.connected,
            peer@,
        )) {
            at_each(peer@, views(addresses@))
        } else {
            Seq::empty()
        },
        KadEvent::FoundProviders { providers } => strangers(s, views(providers@)),
        KadEvent::ClosestPeers { peers } => strangers(s, views(peers@)),
        KadEvent::Other => Seq::empty(),
    }
}

fn dial_strangers(state: &AppState, peers: &Vec<PeerId>) -> (dials: Vec<Dialing>)
    ensures
        views(dials@) == strangers(state@, views(peers@)),
{
    let ghost all = views(peers@);
    let mut dials: Vec<Dialing> = Vec::new();
    let mut i: usize = 0;
    proof {
        assert(all.take(0) =~= Seq::<Seq<char>>::empty());
        assert(views(dials@) =~= Seq::<DialingModel>::empty());
    }
    while i < peers.len()
        invariant
            i <= peers.len(),
            all == views(peers@),
            views(dials@) == strangers(state@, all.take(i as int)),
        decreases peers.len() - i,
    {
        let ghost now = all.take(i + 1);
        proof {
            assert(now.drop_last() =~= all.take(i as int));
            assert(now.last() == peers[i as int]@);
        }
        if !state.connected.contains(&peers[i]) {
            let dial = Dialing { peer: peers[i].dup(), addr: None };
            proof {
                lemma_views_push(dials@, dial);
            }
            dials.push(dial);
        }
        i = i + 1;
    }
    assert(all.take(all.len() as int) =~= all);
    dials
}

fn dial_each(peer: &PeerId, addresses: &Vec<String>) -> (dials: Vec<Dialing>)
    ensures
        views(dials@) == at_each(peer@, views(addresses@)),
{
    let mut dials: Vec<Dialing> = Vec::new();
    let mut i: usize = 0;
    while i < addresses.len()
        invariant
            i <= addresses.len(),
            dials.len() == i,
            forall|j: int|
                0 <= j < i ==> (#[trigger] dials[j])@ == (DialingModel {
                    peer: peer@,
                    addr: Some(addresses[j]@),
                }),
        decreases addresses.len() - i,
    {
        dials.push(Dialing { peer: peer.dup(), addr: Some(addresses[i].clone()) });
        i = i + 1;
    }
    assert(views(dials@) =~= at_each(peer@, views(addresses@)));
    dials
}

/// Takes in an event of the hash table; says whom to dial.
pub fn handle_kad_event(state: &mut AppState, ev: KadEvent) -> (dials: Vec<Dialing>)
    ensures
        final(state)@ == after_kad_event(old(state)@, ev),
        views(dials@) == kad_dials(old(state)@, ev),
        dials_strangers(old(state)@, ev, views(dials@)),
{
    proof {
        law_strangers_are_dialled(state@, ev);
    }
    match &ev {
        KadEvent::RoutingUpdated { peer, is_new_peer, addresses } => {
            if *is_new_peer && !state.connected.contains(peer) {
                let line = join3("[DHT] 路由表新增节点 ", &peer.text, "，尝试直连");
                state.log(line);
                dial_each(peer, addresses)
            } else {
                no_dials()
            }
        },
        KadEvent::FoundProviders { providers } => {
            let dials = dial_strangers(state, providers);
            if providers.len() > 0 {
                let count = dec(providers.len() as u64);
                let line = join3("[DHT] 发现 ", &count, " 个在线节点（provider）");
                state.log(line);
            }
            dials
        },
        KadEvent::ClosestPeers { peers } => dial_strangers(state, peers),
        KadEvent::Other => no_dials(),
    }
}

fn no_dials() -> (dials: Vec<Dialing>)
    ensures
        views(dials@) == Seq::<DialingModel>::empty(),
{
    let dials: Vec<Dialing> = Vec::new();
    assert(views(dials@) =~= Seq::<DialingModel>::empty());
    dials
}

/// Takes in that a peer from the routing table could not be dialled.
pub fn on_kad_dial_failed(state: &mut AppState, peer: &PeerId, error: &str)
    ensures
        final(state)@ == logged(
            old(state)@,
            "[DHT] 拨号 "@ + peer@ + " 失败: "@ + error@,
        ),
{
    let line = join4("[DHT] 拨号 ", &peer.text, " 失败: ", error);
    state.log(line);
}

/// Takes in that a discovered node could not be dialled.
pub fn on_discovery_dial_failed(state: &mut AppState, addr: &str, error: &str)
    ensures
        final(state)@ == logged(
            old(state)@,
            "[发现] 拨号 "@ + addr@ + " 失败: "@ + error@,
        ),
{
    let line = join4("[发现] 拨号 ", addr, " 失败: ", error);
    state.log(line);
}

fn on_listening(state: &mut AppState, address: &str)
    ensures
        final(state)@ == after_listening(old(state)@, address@),
{
    let addr = join3(address, "/p2p/", &state.local_peer_id.text);
    let line = join3("[监听] 正在地址: ", &addr, " 等待连接");
    proof {
        lemma_views_push(state.listen_addrs@, addr);
    }
    state.listen_addrs.push(addr);
    state.log(line);
}

fn on_connected(state: &mut AppState, peer: &PeerId, addr: &str)
    ensures
        final(state)@ == after_connected(old(state)@, peer@, addr@),
{
    let known = state.connected.insert(peer.dup(), ());
    if !known {
        let info = state.peer_or_insert(peer);
        info.online = true;
        info.last_addr = Some(addr.to_owned());
        let line = join5("[成功] 已与节点 ", &peer.text, " 建立连接（", addr, "）");
        state.log(line);
        let hello = hello(state);
        state.push_effect(Effect::SendKey { peer: peer.dup(), hello });
    }
}

fn on_closed(state: &mut AppState, peer: &PeerId, remaining: u32, cause: &str, now: &Now)
    requires
        old(state)@.next_ts < u64::MAX,
    ensures
        final(state)@ == after_closed(old(state)@, peer@, remaining, cause@, now@),
{
    if remaining == 0 {
        state.connected.remove(peer);
        state.sessions.remove(peer);
        if let Some(info) = state.peers.get_mut(peer) {
            info.online = false;
        }
        let name = display_name(state, peer);
        let line = join5("[断开] 节点 ", &name, " 已断开（原因: ", cause, "）");
        state.log(line);
        let ts: u64 = state.tick_ts();
        state.record_to_peer(peer, ChatRecord::system_at("[离线] 对方已下线", ts, &now.time));
        on_peer_disconnect(state, peer, now);
    }
}

fn on_discovered(state: &mut AppState, peer: &PeerId, addr: &str) -> (dial: bool)
    ensures
        final(state)@ == after_discovered(old(state)@, peer@, addr@),
        dial == !(has(old(state)@.connected, peer@)),
{
    if state.connected.contains(peer) {
        false
    } else {
        let name = display_name(state, peer);
        let line = join4("[发现] mDNS 发现节点: ", &name, " @ ", addr);
        state.log(line);
        let info = state.peer_or_insert(peer);
        info.last_addr = Some(addr.to_owned());
        true
    }
}

/// The state after an event.
pub open spec fn after_net_event(s: StateModel, event: NetEvent, now: NowModel) -> StateModel {
    match event {
        NetEvent::NewListenAddr { address } => after_listening(s, address@),
        NetEvent::ConnectionEstablished { peer, addr } => after_connected(s, peer@, addr@),
        NetEvent::ConnectionClosed { peer, remaining, cause } => after_closed(
            s,
            peer@,
            remaining,
            cause@,
            now,
        ),
        NetEvent::Ping { peer, result } => match result {
            Ok(rtt) => logged(
                s,
                "[心跳] 节点 "@ + name_of(s, peer@) + " 在线（RTT = "@ + rtt@ + "）"@,
            ),
            Err(error) => logged(
                s,
                "[心跳] 节点 "@ + name_of(s, peer@) + " 心跳失败: "@ + error@,
            ),
        },
        NetEvent::Discovered { peer, addr } => after_discovered(s, peer@, addr@),
        NetEvent::Expired { peer } => logged(
            s,
            "[发现] 节点 "@ + name_of(s, peer@) + " 的 mDNS 记录已过期"@,
        ),
        NetEvent::Key(ev) => after_key_event(s, ev, now),
        NetEvent::Chat(ev) => after_chat_event(s, ev, now),
        NetEvent::File(ev) => after_file_event(s, ev, now),
        NetEvent::Kad(ev) => after_kad_event(s, ev),
        NetEvent::Other => s,
    }
}

/// What an event calls for.
pub open spec fn net_action(s: StateModel, event: NetEvent) -> NetActionModel {
    match event {
        NetEvent::Discovered { peer, addr } => if has(s.connected, peer@) {
            NetActionModel::Nothing
        } else {
            NetActionModel::Dial { addr: addr@ }
        },
        NetEvent::Key(ev) => if ev is Request {
            NetActionModel::ReplyKey(hello_of(s))
        } else {
            NetActionModel::Nothing
        },
        NetEvent::Chat(ev) => NetActionModel::Chat(chat_action(s, ev)),
        NetEvent::File(ev) => NetActionModel::File(file_action(s, ev)),
        NetEvent::Kad(ev) => NetActionModel::DialPeers(kad_dials(s, ev)),
        _ => NetActionModel::Nothing,
    }
}

/// Takes in something that happened on the network; says what it calls for.
pub fn handle_swarm_event(state: &mut AppState, event: NetEvent, now: &Now) -> (action: NetAction)
    requires
        old(state)@.next_ts < u64::MAX,
        old(state)@.next_request < u64::MAX,
        numbered(old(state)@),
    ensures
        final(state)@ == after_net_event(old(state)@, event, now@),
        action@ == net_action(old(state)@, event),
{
    match event {
        NetEvent::NewListenAddr { address } => {
            on_listening(state, &address);
            NetAction::Nothing
        },
        NetEvent::ConnectionEstablished { peer, addr } => {
            on_connected(state, &peer, &addr);
            NetAction::Nothing
        },
        NetEvent::ConnectionClosed { peer, remaining, cause } => {
            on_closed(state, &peer, remaining, &cause, now);
            NetAction::Nothing
        },
        NetEvent::Ping { peer, result } => {
            let name = display_name(state, &peer);
            let line = match &result {
                Ok(rtt) => join5("[心跳] 节点 ", &name, " 在线（RTT = ", rtt, "）"),
                Err(error) => join4("[心跳] 节点 ", &name, " 心跳失败: ", error),
            };
            state.log(line);
            NetAction::Nothing
        },
        NetEvent::Discovered { peer, addr } => {
            if on_discovered(state, &peer, &addr) {
                NetAction::Dial { addr }
            } else {
                NetAction::Nothing
            }
        },
        NetEvent::Expired { peer } => {
            let name = display_name(state, &peer);
            let line = join3("[发现] 节点 ", &name, " 的 mDNS 记录已过期");
            state.log(line);
            NetAction::Nothing
        },
        NetEvent::Key(ev) => {
            match handle_key_event(state, ev, now) {
                Some(hello) => NetAction::ReplyKey(hello),
                None => NetAction::Nothing,
            }
        },
        NetEvent::Chat(ev) => NetAction::Chat(handle_chat_event(state, ev, now)),
        NetEvent::File(ev) => NetAction::File(handle_file_event(state, ev, now)),
        NetEvent::Kad(ev) => NetAction::DialPeers(handle_kad_event(state, ev)),
        NetEvent::Other => NetAction::Nothing,
    }
}

/// Whom the event has found, and at which address where it is told.
pub open spec fn has_found(ev: KadEvent, dial: DialingModel) -> bool {
    match ev {
        KadEvent::RoutingUpdated { peer, is_new_peer, addresses } => is_new_peer && dial.peer == peer@
            && (dial.addr matches Some(addr) && exists|i: int|
            0 <= i < addresses.len() && (#[trigger] addresses[i])@ == addr),
        KadEvent::FoundProviders { providers } => dial.addr is None && exists|i: int|
            0 <= i < providers.len() && (#[trigger] providers[i])@ == dial.peer,
        KadEvent::ClosestPeers { peers } => dial.addr is None && exists|i: int|
            0 <= i < peers.len() && (#[trigger] peers[i])@ == dial.peer,
        KadEvent::Other => false,
    }
}

/// Everybody who was found and is not connected is dialled, and nobody else.
pub open spec fn dials_strangers(s: StateModel, ev: KadEvent, dials: Seq<DialingModel>) -> bool {
    forall|dial: DialingModel| #[trigger]
        dials.contains(dial) <==> has_found(ev, dial) && !(has(s.connected, dial.peer))
}

proof fn lemma_strangers(s: StateModel, peers: Seq<Seq<char>>, dial: DialingModel)
    ensures
        strangers(s, peers).contains(dial) <==> dial.addr is None && peers.contains(dial.peer) && !(has(
            s.connected,
            dial.peer,
        )),
    decreases peers.len(),
{
    if peers.len() > 0 {
        let front = peers.drop_last();
        let before = strangers(s, front);
        let after = strangers(s, peers);
        lemma_strangers(s, front, dial);
        if before.contains(dial) {
            let i = choose|i: int| 0 <= i < before.len() && before[i] == dial;
            assert(after[i] == dial);
        }
        if after.contains(dial) && !before.contains(dial) {
            let i = choose|i: int| 0 <= i < after.len() && after[i] == dial;
            assert(i == before.len());
            assert(peers[peers.len() - 1] == dial.peer);
        }
        if front.contains(dial.peer) {
            let i = choose|i: int| 0 <= i < front.len() && front[i] == dial.peer;
            assert(peers[i] == dial.peer);
        }
        if peers.contains(dial.peer) && !front.contains(dial.peer) {
            let i = choose|i: int| 0 <= i < peers.len() && peers[i] == dial.peer;
            if i < front.len() {
                assert(front[i] == dial.peer);
            }
            if dial.addr is None && !(has(s.connected, dial.peer)) {
                assert(after[before.len() as int] == dial);
            }
        }
    }
}

proof fn lemma_found(peers: Seq<PeerId>, peer: Seq<char>)
    ensures
        views(peers).contains(peer) <==> exists|i: int|
            0 <= i < peers.len() && (#[trigger] peers[i])@ == peer,
{
    if views(peers).contains(peer) {
        let i = choose|i: int| 0 <= i < peers.len() && views(peers)[i] == peer;
        assert(peers[i]@ == peer);
    }
    if exists|i: int| 0 <= i < peers.len() && (#[trigger] peers[i])@ == peer {
        let i = choose|i: int| 0 <= i < peers.len() && (#[trigger] peers[i])@ == peer;
        assert(views(peers)[i] == peer);
    }
}

/// Whoever is found in the hash table and is not connected is dialled, at every address that is
/// told; nobody who is connected is dialled, and nobody who was not found.
pub proof fn law_strangers_are_dialled(s: StateModel, ev: KadEvent)
    ensures
        dials_strangers(s, ev, kad_dials(s, ev)),
{
    let dials = kad_dials(s, ev);
    assert forall|dial: DialingModel| #[trigger] dials.contains(dial) <==> has_found(ev, dial) && !(has(
        s.connected,
        dial.peer,
    )) by {
        match ev {
            KadEvent::RoutingUpdated { peer, is_new_peer, addresses } => {
                if dials.contains(dial) {
                    let i = choose|i: int| 0 <= i < dials.len() && dials[i] == dial;
                    assert(addresses[i]@ == dial.addr->Some_0);
                }
                if has_found(ev, dial) && !(has(s.connected, dial.peer)) {
                    let i = choose|i: int|
                        0 <= i < addresses.len() && (#[trigger] addresses[i])@ == dial.addr->Some_0;
                    assert(dials[i] == dial);
                }
            },
            KadEvent::FoundProviders { providers } => {
                lemma_strangers(s, views(providers@), dial);
                lemma_found(providers@, dial.peer);
            },
            KadEvent::ClosestPeers { peers } => {
                lemma_strangers(s, views(peers@), dial);
                lemma_found(peers@, dial.peer);
            },
            KadEvent::Other => {},
        }
    }
}

/// The first connection to a peer makes it connected and online, at the address, and begins the key
/// agreement with that peer: it is told this node's nickname and public key. A further connection
/// changes nothing of that. No other contact is touched.
pub proof fn law_connection_begins_agreement(
    s: StateModel,
    peer: Seq<char>,
    addr: Seq<char>,
    other: Seq<char>,
)
    ensures
        ({
            let after = after_connected(s, peer, addr);
            &&& has(after.connected, other) == (other == peer || has(s.connected, other))
            &&& has(s.connected, peer) ==> after.peers == s.peers && after.effects == s.effects
            &&& !(has(s.connected, peer)) ==> {
                &&& lookup(after.peers, peer) matches Some(info) && info.online && info.last_addr
                    == Some(addr) && info.records == peer_of(s, peer).records && info.nickname
                    == peer_of(s, peer).nickname && info.unread == peer_of(s, peer).unread
                &&& after.effects.len() > s.effects.len()
                &&& after.effects.last() matches EffectModel::SendKey { peer: to, hello } && to == peer
                    && hello.nickname == s.nickname && hello.pubkey == s.crypto.pubkey
            }
            &&& other != peer ==> lookup(after.peers, other) == lookup(s.peers, other)
            &&& after.sessions == s.sessions
        }),
{
    lemma_lookup_put(s.connected, peer, (), other);
    let info = PeerModel { online: true, last_addr: Some(addr), ..peer_of(s, peer) };
    lemma_lookup_put(s.peers, peer, info, peer);
    lemma_lookup_put(s.peers, peer, info, other);
}

/// A node that is discovered in the local network is dialled at its address unless it is connected,
/// and its address is known then; no other contact is touched.
pub proof fn law_discovered_is_dialled(s: StateModel, peer: PeerId, addr: String, now: NowModel)
    ensures
        ({
            let event = NetEvent::Discovered { peer, addr };
            let after = after_net_event(s, event, now);
            &&& has(s.connected, peer@) ==> net_action(s, event) is Nothing && after == s
            &&& !(has(s.connected, peer@)) ==> {
                &&& net_action(s, event) == NetActionModel::Dial { addr: addr@ }
                &&& lookup(after.peers, peer@) matches Some(info) && info.last_addr == Some(addr@)
                    && info.records == peer_of(s, peer@).records && info.online == peer_of(
                    s,
                    peer@,
                ).online
            }
            &&& forall|other: Seq<char>|
                other != peer@ ==> #[trigger] lookup(after.peers, other) == lookup(s.peers, other)
        }),
{
    let info = PeerModel { last_addr: Some(addr@), ..peer_of(s, peer@) };
    lemma_lookup_put(s.peers, peer@, info, peer@);
    assert forall|other: Seq<char>| other != peer@ implies #[trigger] lookup(
        after_discovered(s, peer@, addr@).peers,
        other,
    ) == lookup(s.peers, other) by {
        lemma_lookup_put(s.peers, peer@, info, other);
    }
}

/// An address at which this node listens is kept with the node's id at its end, behind those that
/// were there.
pub proof fn law_own_addresses_carry_the_id(s: StateModel, address: Seq<char>)
    ensures
        after_listening(s, address).listen_addrs == s.listen_addrs.push(
            address + "/p2p/"@ + s.local_peer_id,
        ),
        after_listening(s, address).peers == s.peers,
{
}

/// Every event is taken in by what it is about, and what that calls for is called for.
pub proof fn law_events_reach_their_protocol(
    s: StateModel,
    key: KeyEvent,
    chat: ChatEvent,
    file: FileEvent,
    kad: KadEvent,
    now: NowModel,
)
    ensures
        after_net_event(s, NetEvent::Key(key), now) == after_key_event(s, key, now),
        after_net_event(s, NetEvent::Chat(chat), now) == after_chat_event(s, chat, now),
        after_net_event(s, NetEvent::File(file), now) == after_file_event(s, file, now),
        net_action(s, NetEvent::Chat(chat)) == NetActionModel::Chat(chat_action(s, chat)),
        net_action(s, NetEvent::File(file)) == NetActionModel::File(file_action(s, file)),
        net_action(s, NetEvent::Kad(kad)) matches NetActionModel::DialPeers(dials) && dials_strangers(
            s,
            kad,
            dials,
        ),
        key is Request ==> (net_action(s, NetEvent::Key(key)) matches NetActionModel::ReplyKey(hello)
            && hello.nickname == s.nickname && hello.pubkey == s.crypto.pubkey),
{
    law_strangers_are_dialled(s, kad);
}

/// The line stands last in the log, or was left last to be printed; nothing else has changed.
pub open spec fn has_logged(s: StateModel, after: StateModel, line: Seq<char>) -> bool {
    &&& s.tui_enabled ==> after.logs.len() > 0 && after.logs.last() == line && after.effects
        == s.effects
    &&& !s.tui_enabled ==> after.effects == s.effects.push(EffectModel::Print(line)) && after.logs
        == s.logs
    &&& s == (StateModel { logs: s.logs, effects: s.effects, ..after })
}

proof fn lemma_has_logged(s: StateModel, line: Seq<char>)
    ensures
        has_logged(s, logged(s, line), line),
{
    if s.tui_enabled {
        law_log_is_bounded(s, line);
    }
}

/// A heartbeat, a node that has not been heard of for long and a failed agreement are logged, with
/// the name or the id of the peer and what is told of it, and change nothing else.
pub proof fn law_signs_of_life_are_logged(s: StateModel, event: NetEvent, now: NowModel)
    requires
        event is Ping || event is Expired || (event matches NetEvent::Key(ev)
            && ev is OutboundFailure),
    ensures
        exists|line: Seq<char>| #[trigger]
            has_logged(s, after_net_event(s, event, now), line) && match event {
                NetEvent::Ping { peer, result } => occurs_in(name_of(s, peer@), line) && match result {
                    Ok(rtt) => occurs_in(rtt@, line),
                    Err(error) => ends(line, error@),
                },
                NetEvent::Expired { peer } => occurs_in(name_of(s, peer@), line),
                NetEvent::Key(KeyEvent::OutboundFailure { peer, error, id }) => occurs_in(peer@, line)
                    && occurs_in(error@, line),
                _ => true,
            },
        net_action(s, event) is Nothing,
{
    match event {
        NetEvent::Ping { peer, result } => {
            let name = name_of(s, peer@);
            let start = "[心跳] 节点 "@;
            match result {
                Ok(rtt) => {
                    let line = start + name + " 在线（RTT = "@ + rtt@ + "）"@;
                    lemma_part(start, name, " 在线（RTT = "@ + rtt@ + "）"@);
                    assert(start + name + (" 在线（RTT = "@ + rtt@ + "）"@) =~= line);
                    lemma_part(start + name + " 在线（RTT = "@, rtt@, "）"@);
                    lemma_has_logged(s, line);
                },
                Err(error) => {
                    let line = start + name + " 心跳失败: "@ + error@;
                    lemma_part(start, name, " 心跳失败: "@ + error@);
                    assert(start + name + (" 心跳失败: "@ + error@) =~= line);
                    assert(line.subrange(line.len() - error@.len(), line.len() as int) =~= error@);
                    lemma_has_logged(s, line);
                },
            }
        },
        NetEvent::Expired { peer } => {
            lemma_part("[发现] 节点 "@, name_of(s, peer@), " 的 mDNS 记录已过期"@);
            lemma_has_logged(
                s,
                "[发现] 节点 "@ + name_of(s, peer@) + " 的 mDNS 记录已过期"@,
            );
        },
        NetEvent::Key(KeyEvent::OutboundFailure { peer, error, id }) => {
            let start = "[密钥] 与 "@;
            let middle = " 的协商请求失败: "@;
            let tail = " (id="@ + id@ + ")"@;
            let line = start + peer@ + middle + error@ + " (id="@ + id@ + ")"@;
            lemma_part(start, peer@, middle + error@ + tail);
            assert(start + peer@ + (middle + error@ + tail) =~= line);
            lemma_part(start + peer@ + middle, error@, tail);
            assert(start + peer@ + middle + error@ + tail =~= line);
            lemma_has_logged(s, line);
        },
        _ => {},
    }
}

proof fn lemma_part(before: Seq<char>, part: Seq<char>, after: Seq<char>)
    ensures
        occurs_in(part, before + part + after),
{
    let n = before.len() as int;
    assert((before + part + after).subrange(n, n + part.len()) =~= part);
    assert(stands_at(part, before + part + after, n));
}

/// What the hash table finds is logged where there is something new: how many nodes, or which one.
/// Else nothing changes.
pub proof fn law_finds_are_logged(s: StateModel, ev: KadEvent)
    ensures
        match ev {
            KadEvent::RoutingUpdated { peer, is_new_peer, addresses } => if is_new_peer && !(has(
                s.connected,
                peer@,
            )) {
                exists|line: Seq<char>| #[trigger]
                    has_logged(s, after_kad_event(s, ev), line) && occurs_in(peer@, line)
            } else {
                after_kad_event(s, ev) == s
            },
            KadEvent::FoundProviders { providers } => if providers@.len() > 0 {
                exists|line: Seq<char>| #[trigger]
                    has_logged(s, after_kad_event(s, ev), line) && occurs_in(
                        decimal(providers@.len()),
                        line,
                    )
            } else {
                after_kad_event(s, ev) == s
            },
            _ => after_kad_event(s, ev) == s,
        },
{
    match ev {
        KadEvent::RoutingUpdated { peer, is_new_peer, addresses } => {
            lemma_part("[DHT] 路由表新增节点 "@, peer@, "，尝试直连"@);
            lemma_has_logged(s, "[DHT] 路由表新增节点 "@ + peer@ + "，尝试直连"@);
        },
        KadEvent::FoundProviders { providers } => {
            let n = decimal(providers@.len());
            lemma_part("[DHT] 发现 "@, n, " 个在线节点（provider）"@);
            lemma_has_logged(s, "[DHT] 发现 "@ + n + " 个在线节点（provider）"@);
        },
        _ => {},
    }
}

} // verus!
