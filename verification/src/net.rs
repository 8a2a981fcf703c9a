//! What happens on the network, and what a node makes of it.
use vstd::prelude::*;
use crate::chat::{
    system_record, text_record, ChatAck, ChatMsg, ChatMsgModel, ChatRecord, Now, NowModel,
};
use crate::crypto::{base64_outcome, decrypt, opened, session_key, x25519_shared};
use crate::file_transfer::{
    after_failure, after_request, after_response, begins_sound, numbered, on_file_outbound_failure,
    on_file_response, step_of, takes, try_on_file_request, FileMsg, FileMsgModel, FileResp,
    FileRespModel, FileStep, StepModel,
};
use crate::identity::PeerId;
use crate::laws::{law_history_is_bounded, law_record_is_private, law_unread};
use crate::protocol::{Envelope, EnvelopeModel, KeyHello, KeyHelloModel};
use crate::state::{
    logged, noticed, peer_of, recorded, ticked, with_peer, AppState, Effect, EffectModel, HISTORY,
    PeerModel, Request, RequestModel, StateModel,
};
use crate::table::{
    at, has, lemma_lookup_put, lemma_lookup_without, lookup, opt, put, without, Dup,
};
use crate::text::{
    dec, decimal, join2, join3, join4, join6, law_shortened_fits, occurs_in, shorten, shortened,
    stands_at,
};
use crate::transfer_laws::{
    law_chunk_is_kept, law_invitation_waits, law_missing_is_answered, law_unread_request_is_refused,
    lemma_sealed_same, only_sealed,
};

verus! {

/// The name of a peer for display: its nickname, or the beginning of its id where that is not
/// known.
pub open spec fn name_of(s: StateModel, peer: Seq<char>) -> Seq<char> {
    if has(s.peers, peer) && at(s.peers, peer).nickname.len() > 0 {
        at(s.peers, peer).nickname
    } else {
        shortened(peer, 8)
    }
}

/// The name of a peer for display.
pub fn display_name(state: &AppState, peer: &PeerId) -> (name: String)
    ensures
        name@ == name_of(state@, peer@),
{
    if let Some(info) = state.peers.get(peer) {
        if info.nickname.unicode_len() > 0 {
            return info.nickname.clone();
        }
    }
    shorten(&peer.text, 8).to_owned()
}

/// What opening an envelope from a peer gives.
pub open spec fn opened_request(s: StateModel, peer: Seq<char>, envelope: EnvelopeModel)
    -> RequestModel<Seq<u8>> {
    if has(s.sessions, peer) {
        match opened(at(s.sessions, peer), envelope) {
            Ok(message) => RequestModel::Message(message),
            Err(error) => RequestModel::Unreadable(error.text()),
        }
    } else {
        RequestModel::NoSession
    }
}

/// Opens an envelope from a peer with the session key agreed with it.
pub fn open_request(state: &AppState, peer: &PeerId, envelope: &Envelope) -> (request: Request<
    Vec<u8>,
>)
    ensures
        request@ == opened_request(state@, peer@, envelope@),
{
    match state.sessions.get(peer) {
        None => Request::NoSession,
        Some(key) => match decrypt(key, envelope) {
            Ok(message) => Request::Message(message),
            Err(error) => Request::Unreadable(error.text()),
        },
    }
}

/// What this node says of itself in the key agreement.
pub open spec fn hello_of(s: StateModel) -> KeyHelloModel {
    KeyHelloModel { nickname: s.nickname, pubkey: s.crypto.pubkey }
}

/// What this node says of itself in the key agreement.
pub fn hello(state: &AppState) -> (hello: KeyHello)
    ensures
        hello@ == hello_of(state@),
{
    KeyHello { nickname: state.nickname.clone(), pubkey: state.crypto.public_bytes() }
}

/// The state once a peer has said its nickname and public key: the session key is agreed, and one
/// that is new is noted in the conversation.
pub open spec fn agreed(s: StateModel, peer: Seq<char>, hello: KeyHelloModel, now: NowModel)
    -> StateModel {
    let key = session_key(s.crypto.secret, hello.pubkey);
    let s1 = StateModel { sessions: put(s.sessions, peer, key), ..s };
    let s2 = with_peer(s1, peer, PeerModel { nickname: hello.nickname, ..peer_of(s, peer) });
    if has(s.sessions, peer) {
        s2
    } else {
        recorded(
            ticked(s2),
            peer,
            system_record("[在线] "@ + hello.nickname + " 上线"@, s.next_ts, now.time),
        )
    }
}

/// Takes in a peer's nickname and public key.
fn agree(state: &mut AppState, peer: &PeerId, hello: &KeyHello, now: &Now)
    requires
        old(state)@.next_ts < u64::MAX,
    ensures
        final(state)@ == agreed(old(state)@, peer@, hello@, now@),
{
    let key = state.crypto.derive_session_key(&hello.pubkey);
    let known = state.sessions.insert(peer.dup(), key);
    let info = state.peer_or_insert(peer);
    info.nickname = hello.nickname.clone();
    if !known {
        let ts: u64 = state.tick_ts();
        let text = join3("[在线] ", &hello.nickname, " 上线");
        state.record_to_peer(peer, ChatRecord::system_at(&text, ts, &now.time));
    }
}

/// An event of the key agreement.
pub enum KeyEvent {
    /// A peer begins the agreement.
    Request { peer: PeerId, hello: KeyHello },
    /// A peer answers.
    Response { peer: PeerId, hello: KeyHello },
    /// A request has failed: why, and which one, in words.
    OutboundFailure { peer: PeerId, error: String, id: String },
    /// Anything else.
    Other,
}

/// The state after an event of the key agreement.
pub open spec fn after_key_event(s: StateModel, ev: KeyEvent, now: NowModel) -> StateModel {
    match ev {
        KeyEvent::Request { peer, hello } => agreed(s, peer@, hello@, now),
        KeyEvent::Response { peer, hello } => agreed(s, peer@, hello@, now),
        KeyEvent::OutboundFailure { peer, error, id } => logged(
            s,
            "[密钥] 与 "@ + peer@ + " 的协商请求失败: "@ + error@ + " (id="@ + id@ + ")"@,
        ),
        KeyEvent::Other => s,
    }
}

/// Takes in an event of the key agreement; a request is answered with what this node says of
/// itself.
pub fn handle_key_event(state: &mut AppState, ev: KeyEvent, now: &Now) -> (reply: Option<KeyHello>)
    requires
        old(state)@.next_ts < u64::MAX,
    ensures
        final(state)@ == after_key_event(old(state)@, ev, now@),
        opt(reply) == (if ev is Request {
            Some(hello_of(old(state)@))
        } else {
            None
        }),
{
    match ev {
        KeyEvent::Request { peer, hello } => {
            agree(state, &peer, &hello, now);
            Some(self::hello(state))
        },
        KeyEvent::Response { peer, hello } => {
            agree(state, &peer, &hello, now);
            None
        },
        KeyEvent::OutboundFailure { peer, error, id } => {
            let line = join6(
                "[密钥] 与 ",
                &peer.text,
                " 的协商请求失败: ",
                &error,
                " (id=",
                &id,
            );
            let line = join2(&line, ")");
            state.log(line);
            None
        },
        KeyEvent::Other => None,
    }
}

/// An event of the chat protocol.
pub enum ChatEvent {
    /// A message has come.
    Request { peer: PeerId, opened: Request<ChatMsg> },
    /// The reply to a message has come.
    Response { request: u64, ack: ChatAck },
    /// A message could not be delivered: why, and which request it was, in words.
    OutboundFailure { peer: PeerId, request: u64, error: String, id: String },
    /// Anything else.
    Other,
}

/// A message that is to be sent again.
pub struct Resend {
    pub peer: PeerId,
    pub key: [u8; 32],
    pub msg: ChatMsg,
    /// How often it was sent again before.
    pub retries: u32,
}

/// What a [`Resend`] holds.
#[verifier::ext_equal]
pub struct ResendModel {
    pub peer: Seq<char>,
    pub key: Seq<u8>,
    pub msg: ChatMsgModel,
    pub retries: u32,
}

impl View for Resend {
    type V = ResendModel;

    open spec fn view(&self) -> ResendModel {
        ResendModel { peer: self.peer@, key: self.key@, msg: self.msg@, retries: self.retries }
    }
}

/// What a chat event calls for.
pub enum ChatAction {
    Nothing,
    /// To reply.
    Reply(ChatAck),
    /// To seal a message again and send it.
    Resend(Resend),
}

/// What a [`ChatAction`] says.
#[verifier::ext_equal]
pub enum ChatActionModel {
    Nothing,
    Reply(ChatAck),
    Resend(ResendModel),
}

impl View for ChatAction {
    type V = ChatActionModel;

    open spec fn view(&self) -> ChatActionModel {
        match self {
            ChatAction::Nothing => ChatActionModel::Nothing,
            ChatAction::Reply(ack) => ChatActionModel::Reply(*ack),
            ChatAction::Resend(again) => ChatActionModel::Resend(again@),
        }
    }
}

/// The state once a chat message has come.
pub open spec fn after_chat(
    s: StateModel,
    peer: Seq<char>,
    request: RequestModel<ChatMsgModel>,
    now: NowModel,
) -> StateModel {
    match request {
        RequestModel::NoSession => logged(
            s,
            "[聊天] 收到 "@ + peer + " 的消息，但尚未完成密钥协商，无法解密"@,
        ),
        RequestModel::Unreadable(error) => logged(
            s,
            "[聊天] 来自 "@ + peer + " 的消息解密/校验失败: "@ + error,
        ),
        RequestModel::Message(msg) => recorded(
            ticked(s),
            peer,
            text_record(false, msg.nickname, msg.text, s.next_ts, now.time),
        ),
    }
}

/// The acknowledgement of a chat message: a message that could not be read is not acknowledged.
pub open spec fn ack_of(request: RequestModel<ChatMsgModel>) -> ChatAck {
    match request {
        RequestModel::Message(msg) => ChatAck { msg_id: msg.msg_id, ok: true },
        _ => ChatAck { msg_id: 0, ok: false },
    }
}

/// The state once the reply to a message has come: the message is waited for no longer.
pub open spec fn after_ack(s: StateModel, request: u64, ack: ChatAck) -> StateModel {
    let s1 = StateModel { pending_chat_msgs: without(s.pending_chat_msgs, request), ..s };
    if ack.ok {
        noticed(
            logged(
                s1,
                "[聊天] 消息 #"@ + decimal(ack.msg_id as nat) + " 已送达确认(ACK)"@,
            ),
            "✓ 消息已送达"@,
        )
    } else {
        noticed(
            logged(
                s1,
                "[聊天] 消息 #"@ + decimal(ack.msg_id as nat) + " 对方未能正确收到"@,
            ),
            "✗ 消息发送失败（对方未能收到）"@,
        )
    }
}

/// How often a message is sent again.
pub const MAX_RETRIES: u32 = 3;

/// The state once a message could not be delivered: it is announced to be sent again, or given up
/// after the last try.
pub open spec fn after_chat_failure(
    s: StateModel,
    peer: Seq<char>,
    request: u64,
    error: Seq<char>,
    id: Seq<char>,
    now: NowModel,
) -> StateModel {
    if has(s.pending_chat_msgs, request) {
        let (_, msg, retries) = at(s.pending_chat_msgs, request);
        let s1 = StateModel { pending_chat_msgs: without(s.pending_chat_msgs, request), ..s };
        if retries < MAX_RETRIES {
            let count = decimal((retries + 1) as nat);
            noticed(
                logged(
                    s1,
                    "[聊天] 消息 #"@ + decimal(msg.msg_id as nat) + " 发送失败("@ + error
                        + ")，第"@ + count + "次重传…"@,
                ),
                "↻ 消息重传中("@ + count + "/3)"@,
            )
        } else {
            recorded(
                ticked(
                    noticed(
                        logged(
                            s1,
                            "[聊天] 消息 #"@ + decimal(msg.msg_id as nat)
                                + " 重试3次仍失败，放弃"@,
                        ),
                        "✗ 消息发送失败（已重试3次）"@,
                    ),
                ),
                peer,
                system_record(
                    "[系统] 消息「"@ + msg.text + "」发送失败"@,
                    s.next_ts,
                    now.time,
                ),
            )
        }
    } else {
        logged(
            s,
            "[聊天] 发送给 "@ + peer + " 失败: "@ + error + " (id="@ + id + ")"@,
        )
    }
}

/// The message to be sent again once it could not be delivered: none after the last try, and none
/// without a session key.
pub open spec fn resend_of(s: StateModel, peer: Seq<char>, request: u64) -> ChatActionModel {
    if has(s.pending_chat_msgs, request) && at(s.pending_chat_msgs, request).2 < MAX_RETRIES && has(
        s.sessions,
        peer,
    ) {
        let (_, msg, retries) = at(s.pending_chat_msgs, request);
        ChatActionModel::Resend(
            ResendModel { peer, key: at(s.sessions, peer), msg, retries },
        )
    } else {
        ChatActionModel::Nothing
    }
}

/// The state after a chat event.
pub open spec fn after_chat_event(s: StateModel, ev: ChatEvent, now: NowModel) -> StateModel {
    match ev {
        ChatEvent::Request { peer, opened } => after_chat(s, peer@, opened@, now),
        ChatEvent::Response { request, ack } => after_ack(s, request, ack),
        ChatEvent::OutboundFailure { peer, request, error, id } => after_chat_failure(
            s,
            peer@,
            request,
            error@,
            id@,
            now,
        ),
        ChatEvent::Other => s,
    }
}

/// What a chat event calls for.
pub open spec fn chat_action(s: StateModel, ev: ChatEvent) -> ChatActionModel {
    match ev {
        ChatEvent::Request { peer, opened } => ChatActionModel::Reply(ack_of(opened@)),
        ChatEvent::Response { request, ack } => ChatActionModel::Nothing,
        ChatEvent::OutboundFailure { peer, request, error, id } => resend_of(s, peer@, request),
        ChatEvent::Other => ChatActionModel::Nothing,
    }
}

fn on_chat(state: &mut AppState, peer: &PeerId, request: Request<ChatMsg>, now: &Now) -> (ack:
    ChatAck)
    requires
        old(state)@.next_ts < u64::MAX,
    ensures
        final(state)@ == after_chat(old(state)@, peer@, request@, now@),
        ack == ack_of(request@),
{
    match request {
        Request::NoSession => {
            let line = join3(
                "[聊天] 收到 ",
                &peer.text,
                " 的消息，但尚未完成密钥协商，无法解密",
            );
            state.log(line);
            ChatAck { msg_id: 0, ok: false }
        },
        Request::Unreadable(error) => {
            let line = join4("[聊天] 来自 ", &peer.text, " 的消息解密/校验失败: ", &error);
            state.log(line);
            ChatAck { msg_id: 0, ok: false }
        },
        Request::Message(msg) => {
            let ts: u64 = state.tick_ts();
            let record = ChatRecord::text_at(false, &msg.nickname, &msg.text, ts, &now.time);
            state.record_to_peer(peer, record);
            ChatAck { msg_id: msg.msg_id, ok: true }
        },
    }
}

fn on_ack(state: &mut AppState, request: u64, ack: ChatAck)
    ensures
        final(state)@ == after_ack(old(state)@, request, ack),
{
    state.pending_chat_msgs.remove(&request);
    let number = dec(ack.msg_id);
    if ack.ok {
        let line = join3("[聊天] 消息 #", &number, " 已送达确认(ACK)");
        state.log(line);
        state.notice("✓ 消息已送达");
    } else {
        let line = join3("[聊天] 消息 #", &number, " 对方未能正确收到");
        state.log(line);
        state.notice("✗ 消息发送失败（对方未能收到）");
    }
}

fn on_chat_failure(
    state: &mut AppState,
    peer: &PeerId,
    request: u64,
    error: &str,
    id: &str,
    now: &Now,
) -> (action: ChatAction)
    requires
        old(state)@.next_ts < u64::MAX,
    ensures
        final(state)@ == after_chat_failure(old(state)@, peer@, request, error@, id@, now@),
        action@ == resend_of(old(state)@, peer@, request),
{
    let waiting = match state.pending_chat_msgs.get(&request) {
        Some(entry) => Some((entry.1.dup(), entry.2)),
        None => None,
    };
    match waiting {
        None => {
            let line = join6("[聊天] 发送给 ", &peer.text, " 失败: ", error, " (id=", id);
            let line = join2(&line, ")");
            state.log(line);
            ChatAction::Nothing
        },
        Some((msg, retries)) => {
            state.pending_chat_msgs.remove(&request);
            let number = dec(msg.msg_id);
            if retries < MAX_RETRIES {
                let count = dec((retries + 1) as u64);
                let line = join6(
                    "[聊天] 消息 #",
                    &number,
                    " 发送失败(",
                    error,
                    ")，第",
                    &count,
                );
                let line = join2(&line, "次重传…");
                state.log(line);
                let toast = join3("↻ 消息重传中(", &count, "/3)");
                state.notice(&toast);
                match state.sessions.get(peer) {
                    Some(key) => ChatAction::Resend(
                        Resend { peer: peer.dup(), key: *key, msg, retries },
                    ),
                    None => ChatAction::Nothing,
                }
            } else {
                let line = join3("[聊天] 消息 #", &number, " 重试3次仍失败，放弃");
                state.log(line);
                state.notice("✗ 消息发送失败（已重试3次）");
                let ts: u64 = state.tick_ts();
                let text = join3("[系统] 消息「", &msg.text, "」发送失败");
                state.record_to_peer(peer, ChatRecord::system_at(&text, ts, &now.time));
                ChatAction::Nothing
            }
        },
    }
}

/// Takes in a chat event: a message is recorded and acknowledged, a reply ends the wait for it,
/// and a message that could not be delivered is sent again, a few times.
pub fn handle_chat_event(state: &mut AppState, ev: ChatEvent, now: &Now) -> (action: ChatAction)
    requires
        old(state)@.next_ts < u64::MAX,
    ensures
        final(state)@ == after_chat_event(old(state)@, ev, now@),
        action@ == chat_action(old(state)@, ev),
        ev matches ChatEvent::Request { peer, opened } ==> (opened@ matches RequestModel::Message(msg)
            ==> is_received(old(state)@, final(state)@, peer@, msg, now@)),
{
    let ghost event = ev;
    proof {
        if let ChatEvent::Request { peer, opened } = event {
            if let RequestModel::Message(msg) = opened@ {
                law_message_is_received(state@, event, msg, now@);
            }
        }
    }
    match ev {
        ChatEvent::Request { peer, opened } => {
            let ack = on_chat(state, &peer, opened, now);
            ChatAction::Reply(ack)
        },
        ChatEvent::Response { request, ack } => {
            on_ack(state, request, ack);
            ChatAction::Nothing
        },
        ChatEvent::OutboundFailure { peer, request, error, id } => {
            on_chat_failure(state, &peer, request, &error, &id, now)
        },
        ChatEvent::Other => ChatAction::Nothing,
    }
}

/// The state once a sealed chat message is numbered and left to be sent, and waited for.
pub open spec fn chat_posted(
    s: StateModel,
    peer: Seq<char>,
    msg: ChatMsgModel,
    retries: u32,
    envelope: EnvelopeModel,
) -> StateModel {
    StateModel {
        next_request: (s.next_request + 1) as u64,
        effects: s.effects.push(
            EffectModel::SendChat { request: s.next_request, peer, envelope },
        ),
        pending_chat_msgs: put(s.pending_chat_msgs, s.next_request, (peer, msg, retries)),
        ..s
    }
}

/// Numbers a sealed chat message, leaves it to be sent, and waits for its reply.
pub fn post_chat(
    state: &mut AppState,
    peer: &PeerId,
    msg: ChatMsg,
    retries: u32,
    envelope: Envelope,
)
    requires
        old(state)@.next_request < u64::MAX,
    ensures
        final(state)@ == chat_posted(old(state)@, peer@, msg@, retries, envelope@),
{
    let request: u64 = state.next_request;
    state.next_request = request + 1;
    state.pending_chat_msgs.insert(request, (peer.dup(), msg, retries));
    state.push_effect(Effect::SendChat { request, peer: peer.dup(), envelope });
}

/// The state once a message that was to be sent again is sealed; where it could not be, it is
/// dropped.
pub open spec fn after_resend(s: StateModel, again: ResendModel, envelope: Option<EnvelopeModel>)
    -> StateModel {
    match envelope {
        Some(e) => chat_posted(s, again.peer, again.msg, (again.retries + 1) as u32, e),
        None => s,
    }
}

/// Takes in that a message that was to be sent again is sealed, or could not be.
pub fn on_resealed(state: &mut AppState, again: Resend, envelope: Option<Envelope>)
    requires
        old(state)@.next_request < u64::MAX,
        again.retries < MAX_RETRIES,
    ensures
        final(state)@ == after_resend(old(state)@, again@, opt(envelope)),
{
    if let Some(e) = envelope {
        post_chat(state, &again.peer, again.msg, again.retries + 1, e);
    }
}

/// An event of the file protocol.
pub enum FileEvent {
    /// A request has come.
    Request { peer: PeerId, opened: Request<FileMsg> },
    /// The reply to a request has come.
    Response { request: u64, response: FileResp },
    /// A request has failed.
    OutboundFailure { request: u64 },
    /// Anything else.
    Other,
}

/// What a file event calls for.
pub enum FileAction {
    Nothing,
    /// To reply, or to store a file first.
    Step(FileStep),
    /// The request cannot be taken in; nothing was changed.
    Refused,
}

/// What a [`FileAction`] says.
#[verifier::ext_equal]
pub enum FileActionModel {
    Nothing,
    Step(StepModel),
    Refused,
}

impl View for FileAction {
    type V = FileActionModel;

    open spec fn view(&self) -> FileActionModel {
        match self {
            FileAction::Nothing => FileActionModel::Nothing,
            FileAction::Step(step) => FileActionModel::Step(step@),
            FileAction::Refused => FileActionModel::Refused,
        }
    }
}

/// The state after a file event.
pub open spec fn after_file_event(s: StateModel, ev: FileEvent, now: NowModel) -> StateModel {
    match ev {
        FileEvent::Request { peer, opened } => if takes(s, peer@, opened@) {
            after_request(s, peer@, opened@, now)
        } else {
            s
        },
        FileEvent::Response { request, response } => after_response(s, request, response@, now),
        FileEvent::OutboundFailure { request } => after_failure(s, request, now),
        FileEvent::Other => s,
    }
}

/// What a file event calls for.
pub open spec fn file_action(s: StateModel, ev: FileEvent) -> FileActionModel {
    match ev {
        FileEvent::Request { peer, opened } => if takes(s, peer@, opened@) {
            FileActionModel::Step(step_of(s, opened@))
        } else {
            FileActionModel::Refused
        },
        _ => FileActionModel::Nothing,
    }
}

/// Takes in a file event.
pub fn handle_file_event(state: &mut AppState, ev: FileEvent, now: &Now) -> (action: FileAction)
    requires
        numbered(old(state)@),
        old(state)@.next_request < u64::MAX,
    ensures
        final(state)@ == after_file_event(old(state)@, ev, now@),
        action@ == file_action(old(state)@, ev),
        ev matches FileEvent::Request { peer, opened } ==> (takes(
            old(state)@,
            peer@,
            opened@,
        ) ==> begins_sound(old(state)@, peer@, opened@)),
        only_sealed(old(state)@, final(state)@),
{
    proof {
        lemma_sealed_same(state@);
    }
    match ev {
        FileEvent::Request { peer, opened } => {
            match try_on_file_request(state, &peer, opened, now) {
                Some(step) => FileAction::Step(step),
                None => FileAction::Refused,
            }
        },
        FileEvent::Response { request, response } => {
            on_file_response(state, request, response, now);
            FileAction::Nothing
        },
        FileEvent::OutboundFailure { request } => {
            on_file_outbound_failure(state, request, now);
            FileAction::Nothing
        },
        FileEvent::Other => FileAction::Nothing,
    }
}

/// The message of a peer has come into the conversation with that peer: it is the last record, said
/// by the other side under the name and with the words of the message, and what was said before is
/// there still, as far as there is room. It counts as unread unless the conversation is shown. No
/// other conversation is touched, and the conversation is to be saved.
pub open spec fn is_received(
    s: StateModel,
    after: StateModel,
    peer: Seq<char>,
    msg: ChatMsgModel,
    now: NowModel,
) -> bool {
    let before = match lookup(s.peers, peer) {
        Some(info) => info.records,
        None => Seq::empty(),
    };
    let unread = match lookup(s.peers, peer) {
        Some(info) => info.unread,
        None => 0,
    };
    &&& lookup(after.peers, peer) matches Some(info) && {
        &&& info.records.len() > 0
        &&& !info.records.last().outbound
        &&& info.records.last().kind == "text"@
        &&& info.records.last().name == msg.nickname
        &&& info.records.last().text == msg.text
        &&& info.records.last().time == now.time
        &&& info.records.last().ts == s.next_ts
        &&& before.len() < HISTORY ==> info.records.drop_last() == before
        &&& before.len() == HISTORY ==> info.records.drop_last() == before.skip(1)
        &&& s.selected_peer != Some(peer) && unread < u32::MAX ==> info.unread == unread + 1
        &&& s.selected_peer == Some(peer) || unread == u32::MAX ==> info.unread == unread
        &&& lookup(s.peers, peer) matches Some(known) ==> info.nickname == known.nickname
            && info.online == known.online && info.last_addr == known.last_addr
    }
    &&& forall|other: Seq<char>|
        other != peer ==> #[trigger] lookup(after.peers, other) == lookup(s.peers, other)
    &&& has(after.dirty_conversations, peer)
    &&& after.next_ts == (s.next_ts + 1) as u64
    &&& after.sessions == s.sessions && after.effects == s.effects
}

/// A chat message that comes is added to the conversation with its sender as the sender's words,
/// counts as unread unless they are shown, and is acknowledged under its id.
pub proof fn law_message_is_received(s: StateModel, ev: ChatEvent, msg: ChatMsgModel, now: NowModel)
    requires
        ev matches ChatEvent::Request { peer, opened } && opened@ == RequestModel::Message(msg),
    ensures
        ev matches ChatEvent::Request { peer, opened } && is_received(
            s,
            after_chat_event(s, ev, now),
            peer@,
            msg,
            now,
        ),
        chat_action(s, ev) matches ChatActionModel::Reply(ack) && ack.ok && ack.msg_id == msg.msg_id,
{
    if let ChatEvent::Request { peer, opened } = ev {
        let record = text_record(false, msg.nickname, msg.text, s.next_ts, now.time);
        let s1 = ticked(s);
        law_history_is_bounded(s1, peer@, record);
        law_unread(s1, peer@, record);
        let after = recorded(s1, peer@, record);
        let known = peer_of(s, peer@).records;
        assert(known.push(record).drop_last() =~= known);
        assert(known.skip(1).push(record).drop_last() =~= known.skip(1));
        assert forall|other: Seq<char>| other != peer@ implies #[trigger] lookup(
            after.peers,
            other,
        ) == lookup(s.peers, other) by {
            law_record_is_private(s1, peer@, record, other);
        }
        if !(has(s.peers, peer@)) {
            assert(known =~= Seq::empty());
        }
    }
}

/// What could not be read is answered as not received, and leaves every conversation as it was.
pub proof fn law_unreadable_is_told(s: StateModel, ev: ChatEvent, now: NowModel)
    requires
        ev matches ChatEvent::Request { peer, opened } && !(opened@ is Message),
    ensures
        chat_action(s, ev) matches ChatActionModel::Reply(ack) && !ack.ok,
        after_chat_event(s, ev, now).peers == s.peers,
        after_chat_event(s, ev, now).dirty_conversations == s.dirty_conversations,
{
}

/// An envelope is opened with the key agreed with its sender, and with no other: whatever it opens
/// to is the message, one that does not open is unreadable, and without a key there is no session.
pub proof fn law_opened_with_the_senders_key(
    s: StateModel,
    peer: Seq<char>,
    envelope: EnvelopeModel,
)
    ensures
        match lookup(s.sessions, peer) {
            None => opened_request(s, peer, envelope) is NoSession,
            Some(key) => match opened(key, envelope) {
                Ok(message) => opened_request(s, peer, envelope) == RequestModel::Message(message),
                Err(_) => opened_request(s, peer, envelope) is Unreadable,
            },
        },
{
}

/// A reply tells the user whether the message has arrived, and touches no conversation.
pub proof fn law_reply_is_shown(s: StateModel, request: u64, ack: ChatAck, now: NowModel)
    ensures
        ({
            let after = after_chat_event(s, ChatEvent::Response { request, ack }, now);
            &&& ack.ok ==> after.toast == Some("✓ 消息已送达"@)
            &&& !ack.ok ==> after.toast == Some("✗ 消息发送失败（对方未能收到）"@)
            &&& after.peers == s.peers
            &&& lookup(after.pending_chat_msgs, request) is None
            &&& chat_action(s, ChatEvent::Response { request, ack }) is Nothing
        }),
{
    lemma_lookup_without(s.pending_chat_msgs, request, request);
}

/// A message that could not be delivered is sent again: the same message, to the same peer, under
/// the key agreed with that peer, as long as it was not sent again three times and there is a key.
/// After that it is given up, which stands at the end of the conversation, with the words of the
/// message.
pub proof fn law_undelivered_is_sent_again(s: StateModel, ev: ChatEvent, now: NowModel)
    requires
        ev is OutboundFailure,
    ensures
        ev matches ChatEvent::OutboundFailure { peer, request, error, id } && {
            let after = after_chat_event(s, ev, now);
            match lookup(s.pending_chat_msgs, request) {
                None => chat_action(s, ev) is Nothing && after.peers == s.peers,
                Some(waiting) => {
                    &&& waiting.2 < 3 && has(s.sessions, peer@) ==> (chat_action(
                        s,
                        ev,
                    ) matches ChatActionModel::Resend(again) && again.peer == peer@ && again.msg
                        == waiting.1 && again.retries == waiting.2 && lookup(s.sessions, peer@)
                        == Some(again.key))
                    &&& waiting.2 >= 3 || !(has(s.sessions, peer@)) ==> chat_action(s, ev) is Nothing
                    &&& waiting.2 < 3 ==> after.peers == s.peers
                    &&& waiting.2 >= 3 ==> (lookup(after.peers, peer@) matches Some(info)
                        && info.records.len() > 0 && info.records.last().kind == "system"@ && occurs_in(
                        waiting.1.text,
                        info.records.last().text,
                    ) && info.unread == peer_of(s, peer@).unread)
                    &&& lookup(after.pending_chat_msgs, request) is None
                },
            }
        },
{
    if let ChatEvent::OutboundFailure { peer, request, error, id } = ev {
        lemma_lookup_without(s.pending_chat_msgs, request, request);
        if has(s.pending_chat_msgs, request) {
            let (_, msg, retries) = at(s.pending_chat_msgs, request);
            if retries >= MAX_RETRIES {
                let s1 = StateModel {
                    pending_chat_msgs: without(s.pending_chat_msgs, request),
                    ..s
                };
                let s2 = ticked(
                    noticed(
                        logged(
                            s1,
                            "[聊天] 消息 #"@ + decimal(msg.msg_id as nat)
                                + " 重试3次仍失败，放弃"@,
                        ),
                        "✗ 消息发送失败（已重试3次）"@,
                    ),
                );
                let text = "[系统] 消息「"@ + msg.text + "」发送失败"@;
                let record = system_record(text, s.next_ts, now.time);
                law_history_is_bounded(s2, peer@, record);
                law_unread(s2, peer@, record);
                let n = "[系统] 消息「"@.len();
                assert(text.subrange(n as int, (n + msg.text.len()) as int) =~= msg.text);
                assert(stands_at(msg.text, text, n as int));
                reveal_strlit("text");
                reveal_strlit("system");
                assert("text"@.len() != "system"@.len());
            }
        }
    }
}

/// A message that is sealed again goes to its peer in that envelope, and is waited for with one
/// more try counted; nothing else changes. Where it could not be sealed nothing changes.
pub proof fn law_resealed_is_sent(
    s: StateModel,
    again: ResendModel,
    envelope: Option<EnvelopeModel>,
)
    requires
        s.next_request < u64::MAX,
        again.retries < MAX_RETRIES,
    ensures
        envelope is None ==> after_resend(s, again, envelope) == s,
        envelope matches Some(e) ==> {
            let after = after_resend(s, again, envelope);
            &&& after.effects == s.effects.push(
                EffectModel::SendChat { request: s.next_request, peer: again.peer, envelope: e },
            )
            &&& lookup(after.pending_chat_msgs, s.next_request) matches Some(waiting) && waiting.0
                == again.peer && waiting.1 == again.msg && waiting.2 == again.retries + 1
            &&& after.next_request == s.next_request + 1
            &&& after.peers == s.peers
        },
{
    if let Some(e) = envelope {
        lemma_lookup_put(
            s.pending_chat_msgs,
            s.next_request,
            (again.peer, again.msg, (again.retries + 1) as u32),
            s.next_request,
        );
    }
}

/// Once a peer has said who it is, its nickname is known under the peer's id, and a session with
/// that peer is agreed, whoever began. A new session leaves a notice with the nickname at the end
/// of the conversation; one that is agreed anew leaves none. No other contact, and no other
/// session, is touched.
pub proof fn law_agreement_is_noted(s: StateModel, ev: KeyEvent, now: NowModel, other: Seq<char>)
    requires
        ev is Request || ev is Response,
    ensures
        ({
            let (peer, hello) = match ev {
                KeyEvent::Request { peer, hello } => (peer@, hello@),
                KeyEvent::Response { peer, hello } => (peer@, hello@),
                _ => arbitrary(),
            };
            let after = after_key_event(s, ev, now);
            &&& lookup(after.sessions, peer) == Some(session_key(s.crypto.secret, hello.pubkey))
            &&& lookup(after.peers, peer) matches Some(info) && {
                &&& info.nickname == hello.nickname
                &&& info.unread == peer_of(s, peer).unread
                &&& info.online == peer_of(s, peer).online
                &&& info.last_addr == peer_of(s, peer).last_addr
                &&& has(s.sessions, peer) ==> info.records == peer_of(s, peer).records
                &&& !(has(s.sessions, peer)) ==> info.records.len() > 0 && info.records.last().kind
                    == "system"@ && occurs_in(hello.nickname, info.records.last().text)
            }
            &&& other != peer ==> lookup(after.peers, other) == lookup(s.peers, other) && lookup(
                after.sessions,
                other,
            ) == lookup(s.sessions, other)
        }),
{
    let (peer, hello) = match ev {
        KeyEvent::Request { peer, hello } => (peer@, hello@),
        KeyEvent::Response { peer, hello } => (peer@, hello@),
        _ => arbitrary(),
    };
    let key = session_key(s.crypto.secret, hello.pubkey);
    lemma_lookup_put(s.sessions, peer, key, peer);
    lemma_lookup_put(s.sessions, peer, key, other);
    let s1 = StateModel { sessions: put(s.sessions, peer, key), ..s };
    let info = PeerModel { nickname: hello.nickname, ..peer_of(s, peer) };
    let s2 = with_peer(s1, peer, info);
    lemma_lookup_put(s.peers, peer, info, peer);
    lemma_lookup_put(s.peers, peer, info, other);
    if !(has(s.sessions, peer)) {
        let text = "[在线] "@ + hello.nickname + " 上线"@;
        let record = system_record(text, s.next_ts, now.time);
        law_history_is_bounded(ticked(s2), peer, record);
        law_unread(ticked(s2), peer, record);
        if other != peer {
            law_record_is_private(ticked(s2), peer, record, other);
        }
        let n = "[在线] "@.len();
        assert(text.subrange(n as int, (n + hello.nickname.len()) as int) =~= hello.nickname);
        assert(stands_at(hello.nickname, text, n as int));
        reveal_strlit("text");
        reveal_strlit("system");
        assert("text"@.len() != "system"@.len());
    }
}

/// Two nodes that have told each other who they are have the same key: each has it under the id of
/// the other. (That the secret of the one and the public key of the other give the same, either
/// way, is what the key exchange is.)
pub proof fn law_both_have_the_same_key(
    a: StateModel,
    b: StateModel,
    at_a: Seq<char>,
    at_b: Seq<char>,
    now: NowModel,
)
    requires
        x25519_shared(a.crypto.secret, b.crypto.pubkey) == x25519_shared(
            b.crypto.secret,
            a.crypto.pubkey,
        ),
    ensures
        lookup(agreed(a, at_b, hello_of(b), now).sessions, at_b) is Some,
        lookup(agreed(a, at_b, hello_of(b), now).sessions, at_b) == lookup(
            agreed(b, at_a, hello_of(a), now).sessions,
            at_a,
        ),
        hello_of(a).nickname == a.nickname,
{
    lemma_lookup_put(
        a.sessions,
        at_b,
        session_key(a.crypto.secret, b.crypto.pubkey),
        at_b,
    );
    lemma_lookup_put(
        b.sessions,
        at_a,
        session_key(b.crypto.secret, a.crypto.pubkey),
        at_a,
    );
}

/// A peer is shown under its nickname, where one is known, else under the beginning of its id, of
/// eight bytes at most.
pub proof fn law_peers_are_named(s: StateModel, peer: Seq<char>)
    ensures
        lookup(s.peers, peer) matches Some(info) ==> (info.nickname.len() > 0 ==> name_of(s, peer)
            == info.nickname),
        !(lookup(s.peers, peer) matches Some(info) && info.nickname.len() > 0) ==> name_of(
            s,
            peer,
        ).is_prefix_of(peer) && name_of(s, peer).len() <= 8 && (peer.len() > 0 ==> name_of(
            s,
            peer,
        ).len() > 0),
{
    law_shortened_fits(peer, 8);
}

/// An invitation that comes is answered and waits with its sender's; a chunk that comes is
/// acknowledged and kept, unless it is not base64, which is refused and changes nothing; the
/// question what is missing is answered; and a request that could not be read is refused.
pub proof fn law_file_requests_are_answered(s: StateModel, ev: FileEvent, now: NowModel)
    ensures
        ev matches FileEvent::Request { peer, opened } ==> {
            let after = after_file_event(s, ev, now);
            let action = file_action(s, ev);
            match opened@ {
                RequestModel::Message(FileMsgModel::Offer {
                    file_id,
                    filename,
                    size,
                    total,
                    file_hash,
                }) => {
                    &&& action == FileActionModel::Step(
                        StepModel::Reply(FileRespModel::OfferReply { file_id, ok: true }),
                    )
                    &&& lookup(after.pending_offers, peer@) matches Some(offers) && offers.len() > 0
                        && offers.last().file_id == file_id && offers.last().filename == filename
                        && offers.last().size == size
                },
                RequestModel::Message(FileMsgModel::Chunk {
                    file_id,
                    filename,
                    total,
                    index,
                    data,
                }) => {
                    &&& base64_outcome(data) matches Ok(bytes) ==> {
                        &&& action == FileActionModel::Step(
                            StepModel::Reply(FileRespModel::ChunkAck { file_id, index }),
                        )
                        &&& lookup(after.incoming_files, file_id) matches Some(inc)
                            && inc.chunks.dom().contains(index) && inc.chunks[index] == bytes
                    }
                    &&& base64_outcome(data) is Err ==> action is Refused && after == s
                },
                RequestModel::Message(FileMsgModel::Check { file_id, total }) => {
                    &&& action matches FileActionModel::Step(
                        StepModel::Reply(FileRespModel::Missing { file_id: id, missing }),
                    ) && id == file_id && forall|i: u32| #[trigger]
                        missing.contains(i) <==> i < total && !(lookup(
                            s.incoming_files,
                            file_id,
                        ) matches Some(inc) && inc.chunks.dom().contains(i))
                    &&& after == s
                },
                RequestModel::Message(_) => true,
                _ => {
                    &&& action matches FileActionModel::Step(
                        StepModel::Reply(FileRespModel::Result { file_id, ok, msg }),
                    ) && !ok
                    &&& after.peers == s.peers && after.incoming_files == s.incoming_files
                },
            }
        },
        !(ev is Request) ==> file_action(s, ev) is Nothing,
        ev matches FileEvent::OutboundFailure { request } ==> lookup(
            after_file_event(s, ev, now).file_outstanding,
            request,
        ) is None,
{
    match ev {
        FileEvent::Request { peer, opened } => {
            match opened@ {
                RequestModel::Message(msg) => {
                    match msg {
                        FileMsgModel::Offer { file_id, filename, size, total, file_hash } => {
                            law_invitation_waits(
                                s,
                                peer@,
                                file_id,
                                filename,
                                size,
                                total,
                                file_hash,
                                now,
                                peer@,
                            );
                        },
                        FileMsgModel::Chunk { file_id, filename, total, index, data } => {
                            if base64_outcome(data) is Ok {
                                law_chunk_is_kept(
                                    s,
                                    peer@,
                                    file_id,
                                    filename,
                                    total,
                                    index,
                                    data,
                                    now,
                                    file_id,
                                );
                            }
                        },
                        FileMsgModel::Check { file_id, total } => {
                            law_missing_is_answered(s, peer@, file_id, total, now);
                        },
                        _ => {},
                    }
                },
                _ => {
                    law_unread_request_is_refused(s, peer@, opened@, now);
                },
            }
        },
        FileEvent::OutboundFailure { request } => {
            lemma_lookup_without(s.file_outstanding, request, request);
        },
        _ => {},
    }
}

} // verus!
