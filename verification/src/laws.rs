//! What every step of a node keeps, and what holds of several steps together.
use vstd::prelude::*;
use crate::chat::{
    file_record, system_record, text_record, ChatAck, ChatMsgModel, NowModel, RecordModel,
};
use crate::cli::{after_line, after_sealing, after_send, plan_of, ChatPlanModel, CliModel};
use crate::config::{law_address_once, with_address, ConfigModel, ConversationModel};
use crate::crypto::{
    base64_outcome, hex_text, opened, session_key, sha256_digest, CryptoModel, Opened,
};
use crate::file_transfer::{
    about_others, accepted, advanced, after_disconnect, after_failure, after_message, after_missing,
    after_offer, after_request, after_response, after_storing, answered, asks, awaits, begun,
    breaks_off, burst, chunk_msg, chunks_of, decided, driven, driven_one, driven_upto, finished,
    forgotten, goes_on, incoming_of, lemma_posted_chunks, nickname_of, not_about, not_for, numbered,
    offered, offered_to, offered_to_all, offered_transfer, posted, posted_chunks, received_text,
    rejected, reported, result_text, sends, stored_msg, verdict, with_transfer, FileMsgModel,
    FileRespModel, IncomingModel, MAX_IN_FLIGHT, OfferModel, OutboundReq, Phase, ReadyModel,
    StoreErrorModel, TransferModel,
};
use crate::friends::{after_adding, after_joining, bootstrap_list, dial_list, uses_dht};
use crate::identity::Parsed;
use crate::net::{
    ack_of, after_ack, after_chat, after_chat_event, after_chat_failure, after_resend, agreed,
    chat_posted, name_of, opened_request, resend_of, ChatActionModel, ChatEvent, FileEvent,
    KeyEvent, MAX_RETRIES, ResendModel,
};
use crate::protocol::{EnvelopeModel, KeyHelloModel};
use crate::state::{
    contact, contacts, counts_unread, fresh, logged, noted, noticed, peer_of, recorded, renamed,
    saved, selected, stamp, stamped, ticked, with_peer, with_record, HISTORY, PeerModel,
    RequestModel, StateModel,
};
use crate::swarm::{after_closed, after_net_event, offline, unlinked, NetEvent};
use crate::table::{
    at, distinct, has, keys, lemma_filter_distinct, lemma_filter_from, lemma_has, lemma_lookup_put,
    lemma_lookup_without, lemma_put_distinct, lemma_without_distinct, lemma_without_from, lookup,
    pos, put, without,
};
use crate::text::decimal;

verus! {

/// All entries of a table are as they should be.
pub open spec fn all_of<T>(entries: Seq<T>, ok: spec_fn(T) -> bool) -> bool {
    forall|i: int| 0 <= i < entries.len() ==> ok(#[trigger] entries[i])
}

proof fn lemma_put_all<K, V>(
    table: Seq<(K, V)>,
    key: K,
    value: V,
    ok: spec_fn((K, V)) -> bool,
)
    requires
        all_of(table, ok),
        ok((key, value)),
    ensures
        all_of(put(table, key, value), ok),
{
    if has(table, key) {
        lemma_has(table, key);
    }
}

proof fn lemma_filter_keeps<T>(entries: Seq<T>, wanted: spec_fn(T) -> bool, ok: spec_fn(T) -> bool)
    requires
        all_of(entries, ok),
    ensures
        all_of(entries.filter(wanted), ok),
{
    let rest = entries.filter(wanted);
    assert forall|i: int| 0 <= i < rest.len() implies ok(#[trigger] rest[i]) by {
        lemma_filter_from(entries, wanted, i);
    }
}

proof fn lemma_without_keeps<K, V>(table: Seq<(K, V)>, key: K, ok: spec_fn((K, V)) -> bool)
    requires
        all_of(table, ok),
    ensures
        all_of(without(table, key), ok),
{
    let rest = without(table, key);
    assert forall|i: int| 0 <= i < rest.len() implies ok(#[trigger] rest[i]) by {
        lemma_without_from(table, key, i);
    }
}

/// A transfer is kept under its id, which was given out, and has no more chunks unacknowledged
/// than may be.
pub open spec fn transfer_ok(next_file_id: u64) -> spec_fn((u64, TransferModel)) -> bool {
    |e: (u64, TransferModel)|
        e.0 == e.1.file_id && e.0 < next_file_id && e.1.in_flight <= MAX_IN_FLIGHT
}

/// A note is kept under a request number that was given out.
pub open spec fn note_ok(next_request: u64) -> spec_fn((u64, (u64, OutboundReq))) -> bool {
    |e: (u64, (u64, OutboundReq))| e.0 < next_request
}

/// A message is waited for under a request number that was given out, and was not sent again more
/// often than may be.
pub open spec fn waiting_ok(next_request: u64) -> spec_fn(
    (u64, (Seq<char>, ChatMsgModel, u32)),
) -> bool {
    |e: (u64, (Seq<char>, ChatMsgModel, u32))| e.0 < next_request && e.1.2 <= MAX_RETRIES
}

/// What every step keeps: no table holds a key twice, ids and request numbers were given out
/// before they are used, no transfer has more chunks unacknowledged than may be, no message was
/// sent again more often than may be, and the log is not longer than may be.
pub open spec fn consistent(s: StateModel) -> bool {
    &&& distinct(s.connected)
    &&& distinct(s.sessions)
    &&& distinct(s.peers)
    &&& distinct(s.outgoing_files)
    &&& distinct(s.incoming_files)
    &&& distinct(s.pending_offers)
    &&& distinct(s.file_outstanding)
    &&& distinct(s.pending_chat_msgs)
    &&& distinct(s.dirty_conversations)
    &&& all_of(s.outgoing_files, transfer_ok(s.next_file_id))
    &&& all_of(s.file_outstanding, note_ok(s.next_request))
    &&& all_of(s.pending_chat_msgs, waiting_ok(s.next_request))
    &&& s.logs.len() <= HISTORY
}

proof fn lemma_logged(s: StateModel, line: Seq<char>)
    requires
        consistent(s),
    ensures
        consistent(logged(s, line)),
{
}

proof fn lemma_recorded(s: StateModel, peer: Seq<char>, record: RecordModel)
    requires
        consistent(s),
    ensures
        consistent(recorded(s, peer, record)),
{
    lemma_put_distinct(
        s.peers,
        peer,
        with_record(
            peer_of(s, peer),
            record,
            counts_unread(s, peer, record),
        ),
    );
    lemma_put_distinct(s.dirty_conversations, peer, ());
}

proof fn lemma_noted(
    s: StateModel,
    peer: Seq<char>,
    outbound: bool,
    filename: Seq<char>,
    text: Seq<char>,
    now: NowModel,
)
    requires
        consistent(s),
    ensures
        consistent(noted(s, peer, outbound, filename, text, now)),
        noted(s, peer, outbound, filename, text, now).next_file_id == s.next_file_id,
        noted(s, peer, outbound, filename, text, now).next_request == s.next_request,
{
    let ts = stamp(s, now);
    lemma_recorded(
        stamped(s, ts),
        peer,
        file_record(outbound, filename, text, ts, now.time),
    );
}

proof fn lemma_with_peer(s: StateModel, peer: Seq<char>, info: PeerModel)
    requires
        consistent(s),
    ensures
        consistent(with_peer(s, peer, info)),
{
    lemma_put_distinct(s.peers, peer, info);
}

proof fn lemma_with_transfer(s: StateModel, file_id: u64, t: TransferModel)
    requires
        consistent(s),
        t.file_id == file_id,
        file_id < s.next_file_id,
        t.in_flight <= MAX_IN_FLIGHT,
    ensures
        consistent(with_transfer(s, file_id, t)),
{
    lemma_put_distinct(s.outgoing_files, file_id, t);
    lemma_put_all(s.outgoing_files, file_id, t, transfer_ok(s.next_file_id));
}

/// What is found under a key is as it should be.
proof fn lemma_at_ok<K, V>(table: Seq<(K, V)>, key: K, ok: spec_fn((K, V)) -> bool)
    requires
        all_of(table, ok),
        has(table, key),
    ensures
        ok((key, at(table, key))),
{
    lemma_has(table, key);
    assert(table[pos(table, key)] == (key, at(table, key)));
}

proof fn lemma_posted(
    s: StateModel,
    peer: Seq<char>,
    key: Seq<u8>,
    msg: FileMsgModel,
    note: Option<(u64, OutboundReq)>,
)
    requires
        consistent(s),
        s.next_request < u64::MAX,
    ensures
        consistent(posted(s, peer, key, msg, note)),
{
    let next = (s.next_request + 1) as u64;
    assert(all_of(s.file_outstanding, note_ok(next)));
    assert(all_of(s.pending_chat_msgs, waiting_ok(next)));
    if let Some(n) = note {
        lemma_put_distinct(s.file_outstanding, s.next_request, n);
        lemma_put_all(s.file_outstanding, s.next_request, n, note_ok(next));
    }
}

proof fn lemma_chat_posted(
    s: StateModel,
    peer: Seq<char>,
    msg: ChatMsgModel,
    retries: u32,
    envelope: EnvelopeModel,
)
    requires
        consistent(s),
        s.next_request < u64::MAX,
        retries <= MAX_RETRIES,
    ensures
        consistent(chat_posted(s, peer, msg, retries, envelope)),
{
    let next = (s.next_request + 1) as u64;
    assert(all_of(s.file_outstanding, note_ok(next)));
    assert(all_of(s.pending_chat_msgs, waiting_ok(next)));
    lemma_put_distinct(s.pending_chat_msgs, s.next_request, (peer, msg, retries));
    lemma_put_all(
        s.pending_chat_msgs,
        s.next_request,
        (peer, msg, retries),
        waiting_ok(next),
    );
}

proof fn lemma_forgotten(s: StateModel, file_id: u64)
    requires
        consistent(s),
    ensures
        consistent(forgotten(s, file_id)),
{
    lemma_filter_distinct(s.file_outstanding, not_about(file_id));
    lemma_filter_keeps(s.file_outstanding, not_about(file_id), note_ok(s.next_request));
}

proof fn lemma_transfer_gone(s: StateModel, file_id: u64)
    requires
        consistent(s),
    ensures
        consistent(StateModel { outgoing_files: without(s.outgoing_files, file_id), ..s }),
{
    lemma_without_distinct(s.outgoing_files, file_id);
    lemma_without_keeps(s.outgoing_files, file_id, transfer_ok(s.next_file_id));
}

proof fn lemma_note_gone(s: StateModel, request: u64)
    requires
        consistent(s),
    ensures
        consistent(StateModel { file_outstanding: without(s.file_outstanding, request), ..s }),
{
    lemma_without_distinct(s.file_outstanding, request);
    lemma_without_keeps(s.file_outstanding, request, note_ok(s.next_request));
}

proof fn lemma_wait_over(s: StateModel, request: u64)
    requires
        consistent(s),
    ensures
        consistent(
            StateModel { pending_chat_msgs: without(s.pending_chat_msgs, request), ..s },
        ),
{
    lemma_without_distinct(s.pending_chat_msgs, request);
    lemma_without_keeps(s.pending_chat_msgs, request, waiting_ok(s.next_request));
}

proof fn lemma_decided(s: StateModel, peer: Seq<char>, file_id: u64)
    requires
        consistent(s),
    ensures
        consistent(decided(s, peer, file_id)),
{
    if has(s.pending_offers, peer) {
        lemma_put_distinct(
            s.pending_offers,
            peer,
            at(s.pending_offers, peer).filter(not_for(file_id)),
        );
    }
}

proof fn lemma_incoming_put(s: StateModel, file_id: u64, inc: IncomingModel)
    requires
        consistent(s),
    ensures
        consistent(StateModel { incoming_files: put(s.incoming_files, file_id, inc), ..s }),
{
    lemma_put_distinct(s.incoming_files, file_id, inc);
}

proof fn lemma_incoming_gone(s: StateModel, file_id: u64)
    requires
        consistent(s),
    ensures
        consistent(StateModel { incoming_files: without(s.incoming_files, file_id), ..s }),
{
    lemma_without_distinct(s.incoming_files, file_id);
}

proof fn lemma_posted_chunks_consistent(s: StateModel, t: TransferModel, key: Seq<u8>, n: nat)
    requires
        consistent(s),
        s.next_request + n <= u64::MAX,
    ensures
        consistent(posted_chunks(s, t, key, n)),
    decreases n,
{
    if n > 0 {
        lemma_posted_chunks_consistent(s, t, key, (n - 1) as nat);
        lemma_posted_chunks(s, t, key, (n - 1) as nat);
        let index = t.pending[n - 1];
        lemma_posted(
            posted_chunks(s, t, key, (n - 1) as nat),
            t.peer,
            key,
            chunk_msg(t, index),
            Some((t.file_id, OutboundReq::Chunk(index))),
        );
    }
}

proof fn lemma_driven_one(s: StateModel, i: int)
    requires
        consistent(s),
        0 <= i < s.outgoing_files.len(),
        s.next_request + MAX_IN_FLIGHT <= u64::MAX,
    ensures
        consistent(driven_one(s, i)),
        driven_one(s, i).next_request <= s.next_request + MAX_IN_FLIGHT,
        driven_one(s, i).outgoing_files.len() == s.outgoing_files.len(),
{
    let t = s.outgoing_files[i].1;
    assert(transfer_ok(s.next_file_id)(s.outgoing_files[i]));
    if sends(s, t) {
        let key = at(s.sessions, t.peer);
        let n = burst(t);
        lemma_posted_chunks_consistent(s, t, key, n);
        lemma_posted_chunks(s, t, key, n);
        let s1 = posted_chunks(s, t, key, n);
        let s2 = if asks(t) {
            let msg = FileMsgModel::Check { file_id: t.file_id, total: t.chunks.len() as u32 };
            posted(s1, t.peer, key, msg, Some((t.file_id, OutboundReq::Check)))
        } else {
            s1
        };
        if asks(t) {
            assert(n == 0);
            let msg = FileMsgModel::Check { file_id: t.file_id, total: t.chunks.len() as u32 };
            lemma_posted(s1, t.peer, key, msg, Some((t.file_id, OutboundReq::Check)));
        }
        assert(consistent(s2));
        let after = s.outgoing_files.update(i, (s.outgoing_files[i].0, advanced(t)));
        assert(distinct(after)) by {
            assert forall|a: int, b: int| 0 <= a < b < after.len() implies (#[trigger] after[a]).0
                != (#[trigger] after[b]).0 by {
                assert(s.outgoing_files[a].0 != s.outgoing_files[b].0);
            }
        }
        assert(all_of(after, transfer_ok(s.next_file_id)));
    }
}

proof fn lemma_driven(s: StateModel, n: nat)
    requires
        consistent(s),
        n <= s.outgoing_files.len(),
        s.next_request + MAX_IN_FLIGHT * n <= u64::MAX,
    ensures
        consistent(driven_upto(s, n)),
        driven_upto(s, n).next_request <= s.next_request + MAX_IN_FLIGHT * n,
        driven_upto(s, n).outgoing_files.len() == s.outgoing_files.len(),
    decreases n,
{
    if n > 0 {
        lemma_driven(s, (n - 1) as nat);
        lemma_driven_one(driven_upto(s, (n - 1) as nat), n - 1);
    }
}

/// A node that has just started is consistent.
pub proof fn law_fresh_is_consistent(
    crypto: CryptoModel,
    nickname: Seq<char>,
    tui_enabled: bool,
    local_peer_id: Seq<char>,
    saved: Seq<(Seq<char>, ConversationModel)>,
)
    ensures
        consistent(fresh(crypto, nickname, tui_enabled, local_peer_id, saved)),
{
    lemma_contacts_distinct(saved);
}

proof fn lemma_contacts_distinct(saved: Seq<(Seq<char>, ConversationModel)>)
    ensures
        distinct(contacts(saved)),
    decreases saved.len(),
{
    if saved.len() > 0 {
        lemma_contacts_distinct(saved.drop_last());
        lemma_put_distinct(
            contacts(saved.drop_last()),
            saved.last().0,
            contact(saved.last().1),
        );
    }
}

/// Driving the transfers keeps a node consistent.
pub proof fn law_driving_keeps_consistent(s: StateModel)
    requires
        consistent(s),
        numbered(s),
    ensures
        consistent(driven(s)),
{
    lemma_driven(s, s.outgoing_files.len());
}

/// The reply to a file request keeps a node consistent.
pub proof fn law_response_keeps_consistent(
    s: StateModel,
    request: u64,
    response: FileRespModel,
    now: NowModel,
)
    requires
        consistent(s),
        s.next_request < u64::MAX,
    ensures
        consistent(after_response(s, request, response, now)),
{
    match response {
        FileRespModel::OfferReply { file_id, ok } => {
            lemma_note_gone(s, request);
        },
        FileRespModel::ChunkAck { file_id, index } => {
            if has(s.outgoing_files, file_id) {
                lemma_at_ok(s.outgoing_files, file_id, transfer_ok(s.next_file_id));
                let t = at(s.outgoing_files, file_id);
                let left = if t.in_flight > 0 {
                    (t.in_flight - 1) as nat
                } else {
                    0
                };
                let s1 = with_transfer(s, file_id, TransferModel { in_flight: left, ..t });
                lemma_with_transfer(s, file_id, TransferModel { in_flight: left, ..t });
                lemma_note_gone(s1, request);
            } else {
                lemma_note_gone(s, request);
            }
        },
        FileRespModel::Missing { file_id, missing } => {
            lemma_missing_consistent(s, file_id, missing);
        },
        FileRespModel::Result { file_id, ok, msg } => {
            let text = result_text(file_id, ok, msg);
            let s1 = logged(s, text);
            lemma_logged(s, text);
            let s2 = if has(s.outgoing_files, file_id) {
                let t = at(s.outgoing_files, file_id);
                lemma_noted(s1, t.peer, true, t.filename, text, now);
                noted(s1, t.peer, true, t.filename, text, now)
            } else {
                s1
            };
            lemma_forgotten(s2, file_id);
            lemma_transfer_gone(forgotten(s2, file_id), file_id);
        },
    }
}

proof fn lemma_missing_consistent(s: StateModel, file_id: u64, missing: Seq<u32>)
    requires
        consistent(s),
        s.next_request < u64::MAX,
    ensures
        consistent(after_missing(s, file_id, missing)),
{
    if has(s.outgoing_files, file_id) {
        lemma_at_ok(s.outgoing_files, file_id, transfer_ok(s.next_file_id));
        let t = at(s.outgoing_files, file_id);
        if missing.len() == 0 {
            let t1 = TransferModel { in_flight: 0, checked: false, phase: Phase::Done, ..t };
            lemma_with_transfer(s, file_id, t1);
            if has(s.sessions, t.peer) {
                lemma_posted(
                    with_transfer(s, file_id, t1),
                    t.peer,
                    at(s.sessions, t.peer),
                    FileMsgModel::Done {
                        file_id,
                        filename: t.filename,
                        total: t.chunks.len() as u32,
                        file_hash: t.file_hash,
                    },
                    Some((file_id, OutboundReq::Done)),
                );
            }
        } else {
            lemma_with_transfer(
                s,
                file_id,
                TransferModel {
                    pending: t.pending + missing,
                    in_flight: 0,
                    checked: false,
                    phase: Phase::Sending,
                    ..t
                },
            );
        }
    }
}

/// The failure of a file request keeps a node consistent.
pub proof fn law_failure_keeps_consistent(s: StateModel, request: u64, now: NowModel)
    requires
        consistent(s),
    ensures
        consistent(after_failure(s, request, now)),
{
    if has(s.file_outstanding, request) {
        let note = at(s.file_outstanding, request);
        let file_id = note.0;
        lemma_note_gone(s, request);
        let s1 = StateModel { file_outstanding: without(s.file_outstanding, request), ..s };
        if has(s.outgoing_files, file_id) {
            lemma_at_ok(s.outgoing_files, file_id, transfer_ok(s.next_file_id));
            let t = at(s.outgoing_files, file_id);
            match note.1 {
                OutboundReq::Offer => {
                    let line = "[文件] 邀请(传输 "@ + decimal(file_id as nat)
                        + ") 失败：对方无应答"@;
                    lemma_logged(s1, line);
                    lemma_noted(
                        logged(s1, line),
                        t.peer,
                        true,
                        t.filename,
                        "[文件] 发送邀请失败（对方无应答）"@,
                        now,
                    );
                    let s2 = noted(
                        logged(s1, line),
                        t.peer,
                        true,
                        t.filename,
                        "[文件] 发送邀请失败（对方无应答）"@,
                        now,
                    );
                    lemma_transfer_gone(s2, file_id);
                },
                OutboundReq::Chunk(index) => {
                    lemma_with_transfer(
                        s1,
                        file_id,
                        TransferModel {
                            pending: t.pending.push(index),
                            in_flight: if t.in_flight > 0 {
                                (t.in_flight - 1) as nat
                            } else {
                                0
                            },
                            phase: Phase::Sending,
                            ..t
                        },
                    );
                },
                OutboundReq::Check | OutboundReq::Done => {
                    lemma_with_transfer(
                        s1,
                        file_id,
                        TransferModel { checked: false, phase: Phase::Sending, ..t },
                    );
                },
            }
        }
    }
}

proof fn lemma_reported_consistent(s: StateModel, peer: Seq<char>, n: nat, now: NowModel)
    requires
        consistent(s),
        n <= s.outgoing_files.len(),
    ensures
        consistent(reported(s, peer, n, now)),
        reported(s, peer, n, now).next_file_id == s.next_file_id,
        reported(s, peer, n, now).next_request == s.next_request,
    decreases n,
{
    if n > 0 {
        lemma_reported_consistent(s, peer, (n - 1) as nat, now);
        let s1 = reported(s, peer, (n - 1) as nat, now);
        let entry = s.outgoing_files[n - 1];
        if breaks_off(entry.1, peer) {
            let line = "[文件] 与 "@ + peer + " 连接中断，传输 "@ + decimal(
                entry.0 as nat,
            ) + " 标记为失败"@;
            lemma_logged(s1, line);
            lemma_noted(
                logged(s1, line),
                peer,
                true,
                entry.1.filename,
                "[文件] 传输中断（连接断开），标记为失败"@,
                now,
            );
        }
    }
}

/// A peer's leaving keeps a node consistent.
pub proof fn law_disconnect_keeps_consistent(s: StateModel, peer: Seq<char>, now: NowModel)
    requires
        consistent(s),
    ensures
        consistent(after_disconnect(s, peer, now)),
{
    let n = s.outgoing_files.len();
    lemma_reported_consistent(s, peer, n, now);
    lemma_filter_distinct(s.outgoing_files, goes_on(peer));
    lemma_filter_keeps(s.outgoing_files, goes_on(peer), transfer_ok(s.next_file_id));
    let outgoing = s.outgoing_files.filter(goes_on(peer));
    lemma_filter_distinct(s.file_outstanding, about_others(outgoing, peer));
    lemma_filter_keeps(
        s.file_outstanding,
        about_others(outgoing, peer),
        note_ok(s.next_request),
    );
}

proof fn lemma_finished(
    s: StateModel,
    peer: Seq<char>,
    file_id: u64,
    filename: Seq<char>,
    ok: bool,
    msg: Seq<char>,
    now: NowModel,
)
    requires
        consistent(s),
    ensures
        consistent(finished(s, peer, file_id, filename, ok, msg, now)),
{
    let text = received_text(ok, filename, msg);
    lemma_decided(s, peer, file_id);
    let s1 = decided(s, peer, file_id);
    lemma_incoming_gone(s1, file_id);
    let s2 = StateModel { incoming_files: without(s1.incoming_files, file_id), ..s1 };
    lemma_logged(s2, text);
    lemma_noted(logged(s2, text), peer, false, filename, text, now);
}

/// A file request keeps a node consistent.
pub proof fn law_request_keeps_consistent(
    s: StateModel,
    peer: Seq<char>,
    request: RequestModel<FileMsgModel>,
    now: NowModel,
)
    requires
        consistent(s),
        numbered(s),
    ensures
        consistent(after_request(s, peer, request, now)),
{
    match request {
        RequestModel::Message(msg) => {
            lemma_message_consistent(s, peer, msg, now);
        },
        _ => {},
    }
}

proof fn lemma_message_consistent(s: StateModel, peer: Seq<char>, msg: FileMsgModel, now: NowModel)
    requires
        consistent(s),
        numbered(s),
    ensures
        consistent(after_message(s, peer, msg, now)),
{
    match msg {
        FileMsgModel::Offer { file_id, filename, size, total, file_hash } => {
            lemma_offer_consistent(s, peer, file_id, filename, size, now);
        },
        FileMsgModel::OfferAccept { file_id } => {
            if awaits(s, file_id) {
                lemma_at_ok(s.outgoing_files, file_id, transfer_ok(s.next_file_id));
                lemma_has(s.outgoing_files, file_id);
                let t = TransferModel { phase: Phase::Sending, ..at(s.outgoing_files, file_id) };
                lemma_with_transfer(s, file_id, t);
                let s1 = begun(s, peer, file_id);
                assert(s1.outgoing_files.len() == s.outgoing_files.len());
                lemma_driven(s1, s1.outgoing_files.len());
            }
        },
        FileMsgModel::OfferReject { file_id } => {
            let s1 = if has(s.outgoing_files, file_id) {
                let line = "[文件] "@ + peer + " 拒绝了文件 "@ + decimal(
                    file_id as nat,
                );
                lemma_logged(s, line);
                lemma_noted(
                    logged(s, line),
                    peer,
                    true,
                    at(s.outgoing_files, file_id).filename,
                    "[文件] 对方拒绝了该文件发送"@,
                    now,
                );
                noted(
                    logged(s, line),
                    peer,
                    true,
                    at(s.outgoing_files, file_id).filename,
                    "[文件] 对方拒绝了该文件发送"@,
                    now,
                )
            } else {
                s
            };
            lemma_forgotten(s1, file_id);
            lemma_transfer_gone(forgotten(s1, file_id), file_id);
        },
        FileMsgModel::Chunk { file_id, filename, total, index, data } => {
            let chunk = base64_outcome(data)->Ok_0;
            let inc = incoming_of(s, file_id, filename, total);
            lemma_incoming_put(
                s,
                file_id,
                IncomingModel {
                    chunks: inc.chunks.insert(index, chunk),
                    ..inc
                },
            );
        },
        FileMsgModel::Check { file_id, total } => {},
        FileMsgModel::Done { file_id, filename, total, file_hash } => {
            match verdict(s, file_id, filename, file_hash) {
                Err(why) => {
                    lemma_finished(s, peer, file_id, filename, false, why, now);
                },
                Ok(_) => {},
            }
        },
    }
}

proof fn lemma_offer_consistent(
    s: StateModel,
    peer: Seq<char>,
    file_id: u64,
    filename: Seq<char>,
    size: u64,
    now: NowModel,
)
    requires
        consistent(s),
    ensures
        consistent(after_offer(s, peer, file_id, filename, size, now)),
{
    let offer = OfferModel { file_id, filename, size };
    let before = if has(s.pending_offers, peer) {
        at(s.pending_offers, peer)
    } else {
        Seq::empty()
    };
    lemma_put_distinct(s.pending_offers, peer, before.push(offer));
    let s1 = StateModel { pending_offers: put(s.pending_offers, peer, before.push(offer)), ..s };
    let line = "[文件] "@ + peer + " 想发送文件："@ + filename + "（"@ + decimal(
        size as nat,
    ) + " 字节）"@;
    lemma_logged(s1, line);
    lemma_noted(
        logged(s1, line),
        peer,
        false,
        filename,
        "[文件] 对方想给你发送："@ + filename + "（"@ + decimal(size as nat)
            + " 字节）→ 请点击【接受】"@,
        now,
    );
}

/// Storing a file, and the user's decisions on invitations, keep a node consistent.
pub proof fn law_decisions_keep_consistent(
    s: StateModel,
    peer: Seq<char>,
    file: ReadyModel,
    error: Option<StoreErrorModel>,
    file_id: u64,
    now: NowModel,
)
    requires
        consistent(s),
        s.next_request < u64::MAX,
    ensures
        consistent(after_storing(s, peer, file, error, now)),
        consistent(accepted(s, peer, file_id, now)),
        consistent(rejected(s, peer, file_id, now)),
{
    let s1 = if error is None {
        logged(
            s,
            "[文件] 签收完成："@ + file.path + "（"@ + decimal(file.data.len())
                + " 字节）"@,
        )
    } else {
        s
    };
    lemma_finished(
        s1,
        peer,
        file.file_id,
        file.filename,
        error is None,
        stored_msg(file, error),
        now,
    );
    if has(s.sessions, peer) {
        lemma_answered(
            s,
            peer,
            file_id,
            "[文件] 你已接受该文件，等待接收…"@,
            FileMsgModel::OfferAccept { file_id },
            now,
        );
        lemma_answered(
            s,
            peer,
            file_id,
            "[文件] 你已拒绝该文件"@,
            FileMsgModel::OfferReject { file_id },
            now,
        );
    }
}

proof fn lemma_answered(
    s: StateModel,
    peer: Seq<char>,
    file_id: u64,
    text: Seq<char>,
    msg: FileMsgModel,
    now: NowModel,
)
    requires
        consistent(s),
        s.next_request < u64::MAX,
    ensures
        consistent(answered(s, peer, file_id, text, msg, now)),
{
    lemma_decided(s, peer, file_id);
    lemma_noted(decided(s, peer, file_id), peer, false, decimal(file_id as nat), text, now);
    lemma_posted(
        noted(decided(s, peer, file_id), peer, false, decimal(file_id as nat), text, now),
        peer,
        at(s.sessions, peer),
        msg,
        None,
    );
}

proof fn lemma_offered_to(
    s: StateModel,
    peer: Seq<char>,
    filename: Seq<char>,
    data: Seq<u8>,
    now: NowModel,
)
    requires
        consistent(s),
        s.next_file_id < u64::MAX,
        s.next_request < u64::MAX,
    ensures
        consistent(offered_to(s, peer, filename, data, now)),
        offered_to(s, peer, filename, data, now).next_file_id == s.next_file_id + 1,
        offered_to(s, peer, filename, data, now).next_request <= s.next_request + 1,
{
    let file_id = s.next_file_id;
    let s0 = StateModel { next_file_id: (file_id + 1) as u64, ..s };
    assert(all_of(s.outgoing_files, transfer_ok((file_id + 1) as u64)));
    let t = offered_transfer(peer, file_id, filename, data);
    lemma_with_transfer(s0, file_id, t);
    let s1 = with_transfer(s0, file_id, t);
    if has(s.sessions, peer) {
        let offer = FileMsgModel::Offer {
            file_id,
            filename,
            size: data.len() as u64,
            total: chunks_of(data).len() as u32,
            file_hash: hex_text(sha256_digest(data)),
        };
        let note = Some((file_id, OutboundReq::Offer));
        lemma_posted(s1, peer, at(s.sessions, peer), offer, note);
        lemma_noted(
            posted(s1, peer, at(s.sessions, peer), offer, note),
            peer,
            true,
            filename,
            "我正在发送 "@ + filename + " 给 "@ + nickname_of(s, peer),
            now,
        );
    }
}

proof fn lemma_offered_to_all(
    s: StateModel,
    peers: Seq<Seq<char>>,
    filename: Seq<char>,
    data: Seq<u8>,
    now: NowModel,
)
    requires
        consistent(s),
        s.next_file_id + peers.len() <= u64::MAX,
        s.next_request + peers.len() <= u64::MAX,
    ensures
        consistent(offered_to_all(s, peers, filename, data, now)),
        offered_to_all(s, peers, filename, data, now).next_file_id == s.next_file_id + peers.len(),
        offered_to_all(s, peers, filename, data, now).next_request <= s.next_request + peers.len(),
    decreases peers.len(),
{
    if peers.len() > 0 {
        lemma_offered_to_all(s, peers.drop_last(), filename, data, now);
        lemma_offered_to(
            offered_to_all(s, peers.drop_last(), filename, data, now),
            peers.last(),
            filename,
            data,
            now,
        );
    }
}

/// Offering a file keeps a node consistent, and gives out one id for each peer.
pub proof fn law_offering_keeps_consistent(
    s: StateModel,
    path: Seq<char>,
    filename: Seq<char>,
    data: Seq<u8>,
    now: NowModel,
)
    requires
        consistent(s),
        s.next_file_id + s.connected.len() <= u64::MAX,
        s.next_request + s.connected.len() <= u64::MAX,
    ensures
        consistent(offered(s, path, filename, data, now)),
        offered(s, path, filename, data, now).next_file_id == s.next_file_id + s.connected.len(),
{
    let line = "[文件] 已读入 "@ + path + "："@ + decimal(data.len())
        + " 字节，切为 "@ + decimal(
        chunks_of(data).len(),
    ) + " 片"@;
    lemma_logged(s, line);
    let s1 = noticed(logged(s, line), "正在发送文件："@ + filename);
    lemma_offered_to_all(s1, keys(s.connected), filename, data, now);
}

proof fn lemma_agreed(s: StateModel, peer: Seq<char>, hello: KeyHelloModel, now: NowModel)
    requires
        consistent(s),
    ensures
        consistent(agreed(s, peer, hello, now)),
{
    let key = session_key(s.crypto.secret, hello.pubkey);
    lemma_put_distinct(s.sessions, peer, key);
    let s1 = StateModel { sessions: put(s.sessions, peer, key), ..s };
    let info = PeerModel { nickname: hello.nickname, ..peer_of(s, peer) };
    lemma_with_peer(s1, peer, info);
    lemma_recorded(
        ticked(with_peer(s1, peer, info)),
        peer,
        system_record(
            "[在线] "@ + hello.nickname + " 上线"@,
            s.next_ts,
            now.time,
        ),
    );
}

proof fn lemma_chat_event(s: StateModel, ev: ChatEvent, now: NowModel)
    requires
        consistent(s),
    ensures
        consistent(after_chat_event(s, ev, now)),
{
    match ev {
        ChatEvent::Request { peer, opened } => {
            if let RequestModel::Message(msg) = opened@ {
                lemma_recorded(
                    ticked(s),
                    peer@,
                    text_record(
                        false,
                        msg.nickname,
                        msg.text,
                        s.next_ts,
                        now.time,
                    ),
                );
            }
        },
        ChatEvent::Response { request, ack } => {
            lemma_wait_over(s, request);
        },
        ChatEvent::OutboundFailure { peer, request, error, id } => {
            lemma_wait_over(s, request);
            if has(s.pending_chat_msgs, request) {
                let (_, msg, retries) = at(s.pending_chat_msgs, request);
                let s1 = StateModel {
                    pending_chat_msgs: without(s.pending_chat_msgs, request),
                    ..s
                };
                if retries >= MAX_RETRIES {
                    let s2 = ticked(
                        noticed(
                            logged(
                                s1,
                                "[聊天] 消息 #"@ + decimal(msg.msg_id as nat)
                                    + " 重试3次仍失败，放弃"@,
                            ),
                            "✗ 消息发送失败（已重试3次）"@,
                        ),
                    );
                    lemma_recorded(
                        s2,
                        peer@,
                        system_record(
                            "[系统] 消息「"@ + msg.text + "」发送失败"@,
                            s.next_ts,
                            now.time,
                        ),
                    );
                }
            }
        },
        ChatEvent::Other => {},
    }
}

proof fn lemma_closed(
    s: StateModel,
    peer: Seq<char>,
    remaining: u32,
    cause: Seq<char>,
    now: NowModel,
)
    requires
        consistent(s),
    ensures
        consistent(after_closed(s, peer, remaining, cause, now)),
{
    if remaining == 0 {
        lemma_without_distinct(s.connected, peer);
        lemma_without_distinct(s.sessions, peer);
        let s1 = unlinked(s, peer);
        let s2 = offline(s1, peer);
        if has(s1.peers, peer) {
            lemma_with_peer(s1, peer, PeerModel { online: false, ..at(s1.peers, peer) });
        }
        let s3 = logged(
            s2,
            "[断开] 节点 "@ + name_of(s2, peer) + " 已断开（原因: "@ + cause
                + "）"@,
        );
        let record = system_record("[离线] 对方已下线"@, s.next_ts, now.time);
        lemma_recorded(ticked(s3), peer, record);
        law_disconnect_keeps_consistent(recorded(ticked(s3), peer, record), peer, now);
    }
}

/// Whatever happens on the network keeps a node consistent.
pub proof fn law_events_keep_consistent(s: StateModel, event: NetEvent, now: NowModel)
    requires
        consistent(s),
        numbered(s),
        s.next_request < u64::MAX,
    ensures
        consistent(after_net_event(s, event, now)),
{
    match event {
        NetEvent::ConnectionEstablished { peer, addr } => {
            lemma_put_distinct(s.connected, peer@, ());
            let s1 = StateModel { connected: put(s.connected, peer@, ()), ..s };
            lemma_with_peer(
                s1,
                peer@,
                PeerModel { online: true, last_addr: Some(addr@), ..peer_of(s, peer@) },
            );
        },
        NetEvent::ConnectionClosed { peer, remaining, cause } => {
            lemma_closed(s, peer@, remaining, cause@, now);
        },
        NetEvent::Discovered { peer, addr } => {
            let line = "[发现] mDNS 发现节点: "@ + name_of(s, peer@) + " @ "@ + addr@;
            lemma_with_peer(
                logged(s, line),
                peer@,
                PeerModel { last_addr: Some(addr@), ..peer_of(s, peer@) },
            );
        },
        NetEvent::Key(ev) => {
            match ev {
                KeyEvent::Request { peer, hello } => {
                    lemma_agreed(s, peer@, hello@, now);
                },
                KeyEvent::Response { peer, hello } => {
                    lemma_agreed(s, peer@, hello@, now);
                },
                _ => {},
            }
        },
        NetEvent::Chat(ev) => {
            lemma_chat_event(s, ev, now);
        },
        NetEvent::File(ev) => {
            match ev {
                FileEvent::Request { peer, opened } => {
                    law_request_keeps_consistent(s, peer@, opened@, now);
                },
                FileEvent::Response { request, response } => {
                    law_response_keeps_consistent(s, request, response@, now);
                },
                FileEvent::OutboundFailure { request } => {
                    law_failure_keeps_consistent(s, request, now);
                },
                FileEvent::Other => {},
            }
        },
        _ => {},
    }
}

/// Sending a chat message, anew or again, keeps a node consistent.
pub proof fn law_chatting_keeps_consistent(
    s: StateModel,
    plan: ChatPlanModel,
    peer: Seq<char>,
    sealed: Result<EnvelopeModel, Seq<char>>,
    again: ResendModel,
    envelope: Option<EnvelopeModel>,
    now: NowModel,
)
    requires
        consistent(s),
        s.next_request < u64::MAX,
        again.retries < MAX_RETRIES,
    ensures
        consistent(after_send(s)),
        consistent(after_sealing(s, plan, peer, sealed, now)),
        consistent(after_resend(s, again, envelope)),
{
    if let Ok(e) = sealed {
        lemma_chat_posted(s, peer, plan.msg, 0, e);
        lemma_recorded(
            chat_posted(s, peer, plan.msg, 0, e),
            peer,
            text_record(true, s.nickname, plan.msg.text, plan.ts, now.time),
        );
    }
    if let Some(e) = envelope {
        lemma_chat_posted(s, again.peer, again.msg, (again.retries + 1) as u32, e);
    }
}

/// Choosing a contact, a nickname or a friend, and lines that are typed, keep a node consistent.
pub proof fn law_choices_keep_consistent(
    s: StateModel,
    peer: Seq<char>,
    text: Seq<char>,
    bootstrap: bool,
    parsed: Parsed,
    error: Option<Seq<char>>,
)
    requires
        consistent(s),
    ensures
        consistent(selected(s, peer)),
        consistent(renamed(s, text)),
        consistent(after_line(s, text)),
        consistent(after_adding(s, text, bootstrap, parsed)),
        consistent(after_joining(s, text, error)),
{
    if has(s.peers, peer) {
        lemma_put_distinct(s.peers, peer, PeerModel { unread: 0, ..at(s.peers, peer) });
    }
    if let Ok((Some(id), rest)) = parsed {
        lemma_with_peer(s, id, PeerModel { last_addr: Some(text), ..peer_of(s, id) });
    }
}

/// A new record is the last of its conversation, which does not grow beyond what is kept: the
/// records before it are those that were there, without the oldest where there is no room.
pub proof fn law_history_is_bounded(s: StateModel, peer: Seq<char>, record: RecordModel)
    ensures
        lookup(recorded(s, peer, record).peers, peer) == Some(
            with_record(
                peer_of(s, peer),
                record,
                counts_unread(s, peer, record),
            ),
        ),
        at(recorded(s, peer, record).peers, peer).records.len() <= HISTORY,
        at(recorded(s, peer, record).peers, peer).records.last() == record,
        peer_of(s, peer).records.len() < HISTORY ==> at(
            recorded(s, peer, record).peers,
            peer,
        ).records == peer_of(s, peer).records.push(record),
        peer_of(s, peer).records.len() == HISTORY ==> at(
            recorded(s, peer, record).peers,
            peer,
        ).records == peer_of(s, peer).records.skip(1).push(record),
        has(recorded(s, peer, record).dirty_conversations, peer),
{
    lemma_lookup_put(
        s.peers,
        peer,
        with_record(
            peer_of(s, peer),
            record,
            counts_unread(s, peer, record),
        ),
        peer,
    );
    lemma_lookup_put(s.dirty_conversations, peer, (), peer);
    if peer_of(s, peer).records.len() == HISTORY {
        assert(peer_of(s, peer).records.push(record).skip(1) =~= peer_of(s, peer).records.skip(
            1,
        ).push(record));
    }
}

/// A line that is logged on the screen is the last of the log, which does not grow beyond what is
/// kept.
pub proof fn law_log_is_bounded(s: StateModel, line: Seq<char>)
    requires
        s.tui_enabled,
    ensures
        logged(s, line).logs.last() == line,
        logged(s, line).logs.len() <= HISTORY,
        s.logs.len() < HISTORY ==> logged(s, line).logs == s.logs.push(line),
        s.logs.len() == HISTORY ==> logged(s, line).logs == s.logs.skip(1).push(line),
{
    if s.logs.len() == HISTORY {
        assert(s.logs.push(line).skip(1) =~= s.logs.skip(1).push(line));
    }
}

/// A record touches no other contact.
pub proof fn law_record_is_private(
    s: StateModel,
    peer: Seq<char>,
    record: RecordModel,
    other: Seq<char>,
)
    requires
        other != peer,
    ensures
        lookup(recorded(s, peer, record).peers, other) == lookup(s.peers, other),
{
    lemma_lookup_put(
        s.peers,
        peer,
        with_record(
            peer_of(s, peer),
            record,
            counts_unread(s, peer, record),
        ),
        other,
    );
}

/// How many messages are unread: a text from a peer whose conversation is not shown adds one, no
/// other record does, and showing the conversation leaves none.
pub proof fn law_unread(s: StateModel, peer: Seq<char>, record: RecordModel)
    ensures
        at(recorded(s, peer, record).peers, peer).unread == (if record.kind == "text"@
            && !record.outbound && s.selected_peer != Some(peer) && peer_of(s, peer).unread
            < u32::MAX {
            peer_of(s, peer).unread + 1
        } else {
            peer_of(s, peer).unread as int
        }),
        has(s.peers, peer) ==> lookup(selected(s, peer).peers, peer) == Some(
            PeerModel { unread: 0, ..at(s.peers, peer) },
        ),
        at(recorded(selected(s, peer), peer, record).peers, peer).unread == 0,
{
    law_history_is_bounded(s, peer, record);
    let s1 = selected(s, peer);
    if has(s.peers, peer) {
        lemma_lookup_put(s.peers, peer, PeerModel { unread: 0, ..at(s.peers, peer) }, peer);
    }
    law_history_is_bounded(s1, peer, record);
}

/// Timestamps and message ids grow: what is given out next is larger than what was given out.
pub proof fn law_numbers_grow(s: StateModel, text: Seq<char>, later: Seq<char>)
    requires
        s.next_ts < u64::MAX - 1,
        s.next_msg_id < u64::MAX - 1,
    ensures
        ticked(s).next_ts > s.next_ts,
        after_send(s).next_msg_id > s.next_msg_id,
        plan_of(s, text) matches Some(first) ==> (plan_of(after_send(s), later) matches Some(
            second,
        ) ==> first.msg.msg_id < second.msg.msg_id && first.ts < second.ts),
{
}

proof fn lemma_posted_chunks_ts(s: StateModel, t: TransferModel, key: Seq<u8>, n: nat)
    ensures
        posted_chunks(s, t, key, n).next_ts == s.next_ts,
    decreases n,
{
    if n > 0 {
        lemma_posted_chunks_ts(s, t, key, (n - 1) as nat);
    }
}

proof fn lemma_driven_ts(s: StateModel, n: nat)
    ensures
        driven_upto(s, n).next_ts == s.next_ts,
    decreases n,
{
    if n > 0 {
        lemma_driven_ts(s, (n - 1) as nat);
        let s1 = driven_upto(s, (n - 1) as nat);
        let t = s1.outgoing_files[n - 1].1;
        if sends(s1, t) {
            lemma_posted_chunks_ts(s1, t, at(s1.sessions, t.peer), burst(t));
        }
    }
}

proof fn lemma_reported_ts(s: StateModel, peer: Seq<char>, n: nat, now: NowModel)
    ensures
        reported(s, peer, n, now).next_ts >= s.next_ts,
    decreases n,
{
    if n > 0 {
        lemma_reported_ts(s, peer, (n - 1) as nat, now);
    }
}

proof fn lemma_offered_ts(
    s: StateModel,
    peers: Seq<Seq<char>>,
    filename: Seq<char>,
    data: Seq<u8>,
    now: NowModel,
)
    ensures
        offered_to_all(s, peers, filename, data, now).next_ts >= s.next_ts,
    decreases peers.len(),
{
    if peers.len() > 0 {
        lemma_offered_ts(s, peers.drop_last(), filename, data, now);
    }
}

/// The timestamps of the records rise: a chat message and an event of a file transfer carry one
/// that is not below the next timestamp, which is then above theirs; and nothing that happens takes
/// the next timestamp back.
pub proof fn law_timestamps_rise(
    s: StateModel,
    peer: Seq<char>,
    msg: ChatMsgModel,
    outbound: bool,
    filename: Seq<char>,
    text: Seq<char>,
    event: NetEvent,
    file: ReadyModel,
    error: Option<StoreErrorModel>,
    file_id: u64,
    path: Seq<char>,
    data: Seq<u8>,
    now: NowModel,
)
    requires
        s.next_ts < u64::MAX,
        now.ms < u64::MAX,
    ensures
        ({
            let after = after_chat(s, peer, RequestModel::Message(msg), now);
            let ts = at(after.peers, peer).records.last().ts;
            s.next_ts <= ts < after.next_ts
        }),
        ({
            let after = noted(s, peer, outbound, filename, text, now);
            let ts = at(after.peers, peer).records.last().ts;
            s.next_ts <= ts < after.next_ts && now.ms <= ts
        }),
        after_net_event(s, event, now).next_ts >= s.next_ts,
        after_storing(s, peer, file, error, now).next_ts >= s.next_ts,
        accepted(s, peer, file_id, now).next_ts >= s.next_ts,
        rejected(s, peer, file_id, now).next_ts >= s.next_ts,
        offered(s, path, filename, data, now).next_ts >= s.next_ts,
        after_send(s).next_ts >= s.next_ts,
{
    law_history_is_bounded(
        ticked(s),
        peer,
        text_record(false, msg.nickname, msg.text, s.next_ts, now.time),
    );
    let ts = stamp(s, now);
    law_history_is_bounded(
        stamped(s, ts),
        peer,
        file_record(outbound, filename, text, ts, now.time),
    );
    let line = "[文件] 已读入 "@ + path + "："@ + decimal(data.len())
        + " 字节，切为 "@ + decimal(
        chunks_of(data).len(),
    ) + " 片"@;
    let s1 = noticed(logged(s, line), "正在发送文件："@ + filename);
    lemma_offered_ts(s1, keys(s.connected), filename, data, now);
    match event {
        NetEvent::ConnectionClosed { peer, remaining, cause } => {
            if remaining == 0 {
                let s2 = offline(unlinked(s, peer@), peer@);
                let s3 = logged(
                    s2,
                    "[断开] 节点 "@ + name_of(s2, peer@) + " 已断开（原因: "@ + cause@
                        + "）"@,
                );
                let s4 = recorded(
                    ticked(s3),
                    peer@,
                    system_record("[离线] 对方已下线"@, s.next_ts, now.time),
                );
                lemma_reported_ts(s4, peer@, s4.outgoing_files.len(), now);
            }
        },
        NetEvent::File(FileEvent::Request { peer, opened }) => {
            if let RequestModel::Message(FileMsgModel::OfferAccept { file_id }) = opened@ {
                let s2 = begun(s, peer@, file_id);
                lemma_driven_ts(s2, s2.outgoing_files.len());
            }
        },
        _ => {},
    }
}

/// A message that is acknowledged, or given up, is waited for no longer; the others still are.
pub proof fn law_reply_ends_wait(
    s: StateModel,
    request: u64,
    ack: ChatAck,
    peer: Seq<char>,
    error: Seq<char>,
    id: Seq<char>,
    now: NowModel,
    other: u64,
)
    ensures
        lookup(after_ack(s, request, ack).pending_chat_msgs, other) == (if other == request {
            None
        } else {
            lookup(s.pending_chat_msgs, other)
        }),
        lookup(
            after_chat_failure(s, peer, request, error, id, now).pending_chat_msgs,
            other,
        ) == (if other == request {
            None
        } else {
            lookup(s.pending_chat_msgs, other)
        }),
{
    lemma_lookup_without(s.pending_chat_msgs, request, other);
}

/// A message is sent again at most three times: each time it counts one more, and after the third
/// it is not sent again.
pub proof fn law_retries_are_counted(
    s: StateModel,
    peer: Seq<char>,
    request: u64,
    envelope: EnvelopeModel,
)
    requires
        consistent(s),
        s.next_request < u64::MAX,
    ensures
        resend_of(s, peer, request) matches ChatActionModel::Resend(again) ==> {
            &&& again.retries < MAX_RETRIES
            &&& lookup(
                after_resend(s, again, Some(envelope)).pending_chat_msgs,
                s.next_request,
            ) == Some((peer, again.msg, (again.retries + 1) as u32))
        },
        lookup(s.pending_chat_msgs, request) matches Some(entry) ==> (entry.2 == MAX_RETRIES
            ==> resend_of(s, peer, request) is Nothing),
{
    if let ChatActionModel::Resend(again) = resend_of(s, peer, request) {
        lemma_lookup_put(
            s.pending_chat_msgs,
            s.next_request,
            (again.peer, again.msg, (again.retries + 1) as u32),
            s.next_request,
        );
    }
}

/// Nobody counts as connected, or has a session key, once the last connection to them is closed,
/// until keys are agreed again. While other connections to a peer remain, closing one changes
/// nothing. What is agreed with one peer touches the session of no other.
pub proof fn law_session_ends(
    s: StateModel,
    peer: Seq<char>,
    remaining: u32,
    cause: Seq<char>,
    hello: KeyHelloModel,
    now: NowModel,
    other: Seq<char>,
)
    ensures
        remaining > 0 ==> after_closed(s, peer, remaining, cause, now) == s,
        remaining == 0 ==> lookup(after_closed(s, peer, remaining, cause, now).sessions, other) == (
        if other == peer {
            None
        } else {
            lookup(s.sessions, other)
        }),
        remaining == 0 ==> lookup(after_closed(s, peer, remaining, cause, now).connected, other)
            == (if other == peer {
            None
        } else {
            lookup(s.connected, other)
        }),
        lookup(agreed(s, peer, hello, now).sessions, other) == (if other == peer {
            Some(session_key(s.crypto.secret, hello.pubkey))
        } else {
            lookup(s.sessions, other)
        }),
{
    lemma_lookup_without(s.sessions, peer, other);
    lemma_lookup_without(s.connected, peer, other);
    lemma_lookup_put(
        s.sessions,
        peer,
        session_key(s.crypto.secret, hello.pubkey),
        other,
    );
    let s1 = unlinked(s, peer);
    if remaining == 0 {
        let s2 = offline(s1, peer);
        let s3 = logged(
            s2,
            "[断开] 节点 "@ + name_of(s2, peer) + " 已断开（原因: "@ + cause
                + "）"@,
        );
        let s4 = recorded(
            ticked(s3),
            peer,
            system_record("[离线] 对方已下线"@, s.next_ts, now.time),
        );
        lemma_reported_sessions(s4, peer, s4.outgoing_files.len(), now);
    }
}

proof fn lemma_reported_sessions(s: StateModel, peer: Seq<char>, n: nat, now: NowModel)
    ensures
        reported(s, peer, n, now).sessions == s.sessions,
        reported(s, peer, n, now).connected == s.connected,
    decreases n,
{
    if n > 0 {
        lemma_reported_sessions(s, peer, (n - 1) as nat, now);
    }
}

/// What was sealed under the session key is read as it was; without a session nothing is read, and
/// what does not open is not taken for a message.
pub proof fn law_sealed_is_read(
    s: StateModel,
    peer: Seq<char>,
    key: Seq<u8>,
    envelope: EnvelopeModel,
    message: Seq<u8>,
)
    requires
        opened(key, envelope) == Opened::Ok(message),
    ensures
        lookup(s.sessions, peer) == Some(key) ==> opened_request(s, peer, envelope)
            == RequestModel::Message(message),
        lookup(s.sessions, peer) is None ==> opened_request(s, peer, envelope)
            == RequestModel::<Seq<u8>>::NoSession,
{
}

/// A message that could not be read is neither recorded nor acknowledged.
pub proof fn law_unread_is_not_acknowledged(
    s: StateModel,
    peer: Seq<char>,
    request: RequestModel<ChatMsgModel>,
    now: NowModel,
)
    requires
        !(request is Message),
    ensures
        after_chat(s, peer, request, now).peers == s.peers,
        after_chat(s, peer, request, now).next_ts == s.next_ts,
        !ack_of(request).ok,
{
}

/// A conversation outlives the program: what is saved of a contact is what is known of it after
/// the next start, when nobody is connected yet and everything is read.
pub proof fn law_conversation_survives(info: PeerModel, peer: Seq<char>)
    ensures
        contact(saved(info, peer)) == (PeerModel { online: false, unread: 0, ..info }),
        lookup(contacts(seq![(peer, saved(info, peer))]), peer) == Some(
            PeerModel { online: false, unread: 0, ..info },
        ),
{
    let one = seq![(peer, saved(info, peer))];
    assert(one.drop_last() =~= Seq::<(Seq<char>, ConversationModel)>::empty());
    assert(contacts(one.drop_last()) =~= Seq::<(Seq<char>, PeerModel)>::empty());
    assert(one.last() == (peer, saved(info, peer)));
    lemma_lookup_put(
        contacts(one.drop_last()),
        peer,
        contact(saved(info, peer)),
        peer,
    );
}

/// A friend that was added is dialled at the next start, and a bootstrap node that was added is
/// joined.
pub proof fn law_friend_is_remembered(cli: CliModel, config: ConfigModel, addr: Seq<char>)
    ensures
        dial_list(
            cli,
            ConfigModel { friends: with_address(config.friends, addr), ..config },
        ).contains(addr),
        bootstrap_list(
            cli,
            ConfigModel { bootstrap_nodes: with_address(config.bootstrap_nodes, addr), ..config },
        ).contains(addr),
        uses_dht(
            cli,
            ConfigModel { bootstrap_nodes: with_address(config.bootstrap_nodes, addr), ..config },
        ),
{
    law_address_once(config.friends, addr);
    law_address_once(config.bootstrap_nodes, addr);
    lemma_in_second(cli.dial, with_address(config.friends, addr), addr);
    lemma_in_second(cli.bootstrap, with_address(config.bootstrap_nodes, addr), addr);
}

proof fn lemma_in_second(first: Seq<Seq<char>>, second: Seq<Seq<char>>, value: Seq<char>)
    requires
        second.contains(value),
    ensures
        (first + second).contains(value),
        (first + second).len() > 0,
{
    let i = choose|i: int| 0 <= i < second.len() && second[i] == value;
    assert((first + second)[first.len() + i] == value);
}

/// The last record of the conversation with a peer is this event of a file transfer; what else is
/// known of the contact, and every other contact, is as it was.
pub open spec fn notes_file(
    s: StateModel,
    after: StateModel,
    peer: Seq<char>,
    outbound: bool,
    filename: Seq<char>,
    text: Seq<char>,
    now: NowModel,
) -> bool {
    &&& lookup(after.peers, peer) matches Some(info) && {
        &&& 0 < info.records.len() <= HISTORY
        &&& info.records.last().outbound == outbound
        &&& info.records.last().kind == "file"@
        &&& info.records.last().name == filename
        &&& info.records.last().text == text
        &&& info.records.last().time == now.time
        &&& info.online == peer_of(s, peer).online
        &&& info.nickname == peer_of(s, peer).nickname
        &&& info.last_addr == peer_of(s, peer).last_addr
        &&& info.unread == peer_of(s, peer).unread
    }
    &&& forall|other: Seq<char>|
        other != peer ==> #[trigger] lookup(after.peers, other) == lookup(s.peers, other)
    &&& has(after.dirty_conversations, peer)
}

/// An event of a file transfer stands at the end of the conversation with the peer, as one of this
/// side or of the other, under the name of the file and in its words; it does not count as unread,
/// touches no other contact, and the conversation is to be saved.
pub proof fn law_file_event_is_noted(
    s: StateModel,
    peer: Seq<char>,
    outbound: bool,
    filename: Seq<char>,
    text: Seq<char>,
    now: NowModel,
)
    ensures
        notes_file(
            s,
            noted(s, peer, outbound, filename, text, now),
            peer,
            outbound,
            filename,
            text,
            now,
        ),
        noted(s, peer, outbound, filename, text, now) == (StateModel {
            peers: noted(s, peer, outbound, filename, text, now).peers,
            dirty_conversations: noted(
                s,
                peer,
                outbound,
                filename,
                text,
                now,
            ).dirty_conversations,
            next_ts: noted(s, peer, outbound, filename, text, now).next_ts,
            ..s
        }),
{
    let ts = stamp(s, now);
    let s1 = stamped(s, ts);
    let record = file_record(outbound, filename, text, ts, now.time);
    law_history_is_bounded(s1, peer, record);
    law_unread(s1, peer, record);
    reveal_strlit("text");
    reveal_strlit("file");
    assert("text"@[0] != "file"@[0]);
    assert forall|other: Seq<char>| other != peer implies #[trigger] lookup(
        noted(s, peer, outbound, filename, text, now).peers,
        other,
    ) == lookup(s.peers, other) by {
        law_record_is_private(s1, peer, record, other);
    }
}

proof fn lemma_reported_peers(s: StateModel, peer: Seq<char>, n: nat, now: NowModel)
    requires
        n <= s.outgoing_files.len(),
        has(s.peers, peer),
    ensures
        ({
            let after = reported(s, peer, n, now);
            &&& lookup(after.peers, peer) matches Some(info) && info.online == at(
                s.peers,
                peer,
            ).online && info.nickname == at(s.peers, peer).nickname && info.unread == at(
                s.peers,
                peer,
            ).unread && info.last_addr == at(s.peers, peer).last_addr
            &&& forall|other: Seq<char>|
                other != peer ==> #[trigger] lookup(after.peers, other) == lookup(s.peers, other)
            &&& after.dirty_conversations == s.dirty_conversations || has(
                after.dirty_conversations,
                peer,
            )
            &&& (forall|i: int|
                0 <= i < n ==> (#[trigger] s.outgoing_files[i]).1.peer != peer
                    || s.outgoing_files[i].1.phase == Phase::Done) ==> after == s
            &&& (exists|i: int|
                0 <= i < n && (#[trigger] s.outgoing_files[i]).1.peer == peer
                    && s.outgoing_files[i].1.phase != Phase::Done) ==> at(
                after.peers,
                peer,
            ).records.len() > 0 && at(after.peers, peer).records.last().kind == "file"@ && at(
                after.peers,
                peer,
            ).records.last().outbound
        }),
    decreases n,
{
    if n > 0 {
        lemma_reported_peers(s, peer, (n - 1) as nat, now);
        let s1 = reported(s, peer, (n - 1) as nat, now);
        let entry = s.outgoing_files[n - 1];
        if breaks_off(entry.1, peer) {
            let s2 = logged(
                s1,
                "[文件] 与 "@ + peer + " 连接中断，传输 "@ + decimal(entry.0 as nat)
                    + " 标记为失败"@,
            );
            law_file_event_is_noted(
                s2,
                peer,
                true,
                entry.1.filename,
                "[文件] 传输中断（连接断开），标记为失败"@,
                now,
            );
            assert(s2.peers == s1.peers);
        }
    }
}

/// With the last connection to a peer it is offline, which the conversation says; what is known of
/// it else stays, and so does every other contact. The end of its transfers is said as well.
pub proof fn law_last_connection_closed(
    s: StateModel,
    peer: Seq<char>,
    cause: Seq<char>,
    now: NowModel,
)
    ensures
        ({
            let after = after_closed(s, peer, 0, cause, now);
            &&& lookup(after.peers, peer) matches Some(info) && {
                &&& !info.online
                &&& info.nickname == peer_of(s, peer).nickname
                &&& info.last_addr == peer_of(s, peer).last_addr
                &&& info.unread == peer_of(s, peer).unread
                &&& info.records.len() > 0
                &&& (forall|i: int|
                    0 <= i < s.outgoing_files.len() ==> (#[trigger] s.outgoing_files[i]).1.peer
                        != peer || s.outgoing_files[i].1.phase == Phase::Done)
                    ==> info.records.last().kind == "system"@
                    && info.records.last().text == "[离线] 对方已下线"@
                &&& (exists|i: int|
                    0 <= i < s.outgoing_files.len() && (#[trigger] s.outgoing_files[i]).1.peer == peer
                        && s.outgoing_files[i].1.phase != Phase::Done) ==> info.records.last().kind
                    == "file"@ && info.records.last().outbound
            }
            &&& forall|other: Seq<char>|
                other != peer ==> #[trigger] lookup(after.peers, other) == lookup(s.peers, other)
            &&& has(after.dirty_conversations, peer)
        }),
{
    let s1 = unlinked(s, peer);
    let s2 = offline(s1, peer);
    let s3 = logged(
        s2,
        "[断开] 节点 "@ + name_of(s2, peer) + " 已断开（原因: "@ + cause + "）"@,
    );
    let record = system_record("[离线] 对方已下线"@, s.next_ts, now.time);
    let s4 = recorded(ticked(s3), peer, record);
    if has(s.peers, peer) {
        lemma_lookup_put(
            s.peers,
            peer,
            PeerModel { online: false, ..at(s.peers, peer) },
            peer,
        );
    }
    law_history_is_bounded(ticked(s3), peer, record);
    law_unread(ticked(s3), peer, record);
    reveal_strlit("text");
    reveal_strlit("system");
    assert("text"@.len() != "system"@.len());
    assert(s4.outgoing_files == s.outgoing_files);
    lemma_reported_peers(s4, peer, s4.outgoing_files.len(), now);
    let s5 = reported(s4, peer, s4.outgoing_files.len(), now);
    assert forall|other: Seq<char>| other != peer implies #[trigger] lookup(s5.peers, other)
        == lookup(s.peers, other) by {
        law_record_is_private(ticked(s3), peer, record, other);
        if has(s.peers, peer) {
            lemma_lookup_put(
                s.peers,
                peer,
                PeerModel { online: false, ..at(s.peers, peer) },
                other,
            );
        }
    }
}

} // verus!
