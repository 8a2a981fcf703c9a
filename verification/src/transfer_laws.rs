//! What holds of file transfers as a whole.
use vstd::prelude::*;
use crate::chat::{file_record, NowModel, RecordModel};
use crate::crypto::{base64_outcome, base64_text, hex_text, sha256_digest, Decoded};
use crate::file_transfer::{
    about_others, accepted, advanced, after_disconnect, after_failure, after_message, after_missing,
    after_offer, after_reject, after_request, after_response, after_slash, after_storing, arrived,
    asks, assembled, awaits, begun, breaks_off, burst, called_for, chunk_msg, chunks_of, decided,
    driven, driven_upto, goes_on, incoming_of, joined, last_component, law_chunks_make_the_file,
    law_missing, lemma_driven_upto, missing_of, nickname_of, not_about, not_for, numbered, offered,
    offered_to, offered_to_all, offered_transfer, posted, posted_chunks, receivable, received_text,
    rejected, reported, result_text, round_trips, sending_file, sends, step_of, stored_msg, upto,
    verdict, with_transfer, FileMsgModel, FileRespModel, IncomingModel, MAX_IN_FLIGHT, OfferModel,
    OutboundReq, Phase, ReadyModel, StepModel, StoreErrorModel, TransferModel,
};
use crate::state::{
    logged, noticed, peer_of, stamp, stamped, EffectModel, HISTORY, RequestModel, StateModel,
};
use crate::table::{
    at, distinct, has, keys, lemma_filter_from, lemma_has, lemma_lookup_filter, lemma_lookup_put,
    lemma_lookup_without, lookup, pos, put, without,
};
use crate::laws::{law_file_event_is_noted, law_history_is_bounded};
use crate::text::{decimal, ends, occurs_in, stands_at};
use crate::draw::is_bad_news;

verus! {

/// The receiver's state once the first of the messages have arrived, one after the other.
pub open spec fn received(
    s: StateModel,
    peer: Seq<char>,
    msgs: Seq<FileMsgModel>,
    n: nat,
    now: NowModel,
) -> StateModel
    decreases n,
{
    if n == 0 {
        s
    } else {
        after_message(received(s, peer, msgs, (n - 1) as nat, now), peer, msgs[n - 1], now)
    }
}

/// The message carries a chunk of the file that a transfer sends, in a text that is read as the
/// chunk.
pub open spec fn carries(t: TransferModel, msg: FileMsgModel, index: u32) -> bool {
    &&& index < t.chunks.len()
    &&& msg == chunk_msg(t, index)
    &&& round_trips(t.chunks[index as int])
}

/// The messages carry the chunks with these indices.
pub open spec fn carry(t: TransferModel, msgs: Seq<FileMsgModel>, order: Seq<u32>) -> bool {
    &&& msgs.len() == order.len()
    &&& forall|k: int| 0 <= k < order.len() ==> #[trigger] carries(t, msgs[k], order[k])
}

/// The transfer sends this file.
pub open spec fn sends_file(t: TransferModel, data: Seq<u8>) -> bool {
    &&& t.chunks == chunks_of(data)
    &&& t.chunks.len() <= u32::MAX
    &&& t.file_hash == hex_text(sha256_digest(data))
}

/// The chunks with the first of the indices.
pub open spec fn gathered(t: TransferModel, order: Seq<u32>, n: nat) -> Map<u32, Seq<u8>>
    decreases n,
{
    if n == 0 {
        Map::empty()
    } else {
        gathered(t, order, (n - 1) as nat).insert(
            order[n - 1],
            t.chunks[order[n - 1] as int],
        )
    }
}

proof fn lemma_gathered(t: TransferModel, order: Seq<u32>, n: nat)
    requires
        n <= order.len(),
    ensures
        gathered(t, order, n).dom() == order.take(n as int).to_set(),
        gathered(t, order, n).dom().finite(),
        forall|i: u32| #[trigger]
            gathered(t, order, n).dom().contains(i) ==> gathered(t, order, n)[i]
                == t.chunks[i as int],
    decreases n,
{
    if n > 0 {
        lemma_gathered(t, order, (n - 1) as nat);
        let before = order.take(n - 1);
        let now = order.take(n as int);
        assert(now =~= before.push(order[n - 1]));
        assert(now.to_set() =~= before.to_set().insert(order[n - 1])) by {
            assert forall|i: u32| now.to_set().contains(i) <==> before.to_set().insert(
                order[n - 1],
            ).contains(i) by {
                if before.contains(i) {
                    let k = choose|k: int| 0 <= k < before.len() && before[k] == i;
                    assert(now[k] == i);
                }
                if i == order[n - 1] {
                    assert(now[n - 1] == i);
                }
                if now.contains(i) {
                    let k = choose|k: int| 0 <= k < now.len() && now[k] == i;
                    if k < n - 1 {
                        assert(before[k] == i);
                    }
                }
            }
        }
    } else {
        assert(order.take(0) =~= Seq::<u32>::empty());
        assert(order.take(0).to_set() =~= Set::<u32>::empty());
    }
}

proof fn lemma_received(
    s: StateModel,
    peer: Seq<char>,
    t: TransferModel,
    msgs: Seq<FileMsgModel>,
    order: Seq<u32>,
    n: nat,
    now: NowModel,
)
    requires
        carry(t, msgs, order),
        n <= msgs.len(),
        !(has(s.incoming_files, t.file_id)),
    ensures
        n > 0 ==> lookup(received(s, peer, msgs, n, now).incoming_files, t.file_id) == Some(
            IncomingModel {
                filename: t.filename,
                total: t.chunks.len() as u32,
                chunks: gathered(t, order, n),
            },
        ),
        n == 0 ==> !(has(received(s, peer, msgs, n, now).incoming_files, t.file_id)),
    decreases n,
{
    if n > 0 {
        lemma_received(s, peer, t, msgs, order, (n - 1) as nat, now);
        let before = received(s, peer, msgs, (n - 1) as nat, now);
        assert(carries(t, msgs[n - 1], order[n - 1]));
        let inc = incoming_of(before, t.file_id, t.filename, t.chunks.len() as u32);
        let chunk = t.chunks[order[n - 1] as int];
        let more = IncomingModel { chunks: inc.chunks.insert(order[n - 1], chunk), ..inc };
        lemma_lookup_put(before.incoming_files, t.file_id, more, t.file_id);
        if n > 1 {
            assert(has(before.incoming_files, t.file_id));
        }
    }
}

/// Whatever chunks have arrived, in whatever order and however often each, the receiver answers
/// the question what is missing with exactly the indices that have not come.
pub proof fn law_missing_is_told(
    s: StateModel,
    peer: Seq<char>,
    t: TransferModel,
    msgs: Seq<FileMsgModel>,
    order: Seq<u32>,
    total: u32,
    now: NowModel,
)
    requires
        carry(t, msgs, order),
        !(has(s.incoming_files, t.file_id)),
    ensures
        called_for(
            received(s, peer, msgs, msgs.len(), now),
            FileMsgModel::Check { file_id: t.file_id, total },
        ) == StepModel::Reply(
            FileRespModel::Missing {
                file_id: t.file_id,
                missing: missing_of(order.to_set(), total),
            },
        ),
{
    let n = msgs.len();
    lemma_received(s, peer, t, msgs, order, n, now);
    lemma_gathered(t, order, n);
    assert(order.take(n as int) =~= order);
    if n == 0 {
        assert(order.to_set() =~= Set::<u32>::empty());
    }
}

/// A file arrives as it was sent: once every chunk has come, in whatever order and however often,
/// nothing is missing, and the digest of the file lets it be stored, byte for byte. (A file of no
/// bytes has no chunk that could come.)
pub proof fn law_file_arrives(
    s: StateModel,
    peer: Seq<char>,
    t: TransferModel,
    data: Seq<u8>,
    msgs: Seq<FileMsgModel>,
    order: Seq<u32>,
    now: NowModel,
)
    requires
        carry(t, msgs, order),
        sends_file(t, data),
        data.len() > 0,
        !(has(s.incoming_files, t.file_id)),
        forall|i: u32| i < t.chunks.len() ==> #[trigger] order.contains(i),
    ensures
        missing_of(order.to_set(), t.chunks.len() as u32).len() == 0,
        receivable(
            received(s, peer, msgs, msgs.len(), now),
            peer,
            FileMsgModel::Done {
                file_id: t.file_id,
                filename: t.filename,
                total: t.chunks.len() as u32,
                file_hash: t.file_hash,
            },
        ),
        called_for(
            received(s, peer, msgs, msgs.len(), now),
            FileMsgModel::Done {
                file_id: t.file_id,
                filename: t.filename,
                total: t.chunks.len() as u32,
                file_hash: t.file_hash,
            },
        ) == StepModel::Store(
            ReadyModel {
                file_id: t.file_id,
                filename: t.filename,
                path: "downloads"@ + "/"@ + t.filename,
                data,
            },
        ),
{
    let n = msgs.len();
    let total = t.chunks.len() as u32;
    lemma_received(s, peer, t, msgs, order, n, now);
    lemma_gathered(t, order, n);
    assert(order.take(n as int) =~= order);
    assert(t.chunks.len() > 0);
    assert(order.contains(0u32));
    let chunks = gathered(t, order, n);
    assert forall|i: u32| i < total implies #[trigger] order.to_set().contains(i) by {
        assert(order.contains(i));
    }
    law_missing(order.to_set(), total);
    assert(chunks.dom().len() == total) by {
        assert forall|i: u32| #[trigger] chunks.dom().contains(i) <==> i < total by {
            if order.contains(i) {
                let k = choose|k: int| 0 <= k < order.len() && order[k] == i;
                assert(carries(t, msgs[k], order[k]));
            }
            if i < total {
                assert(order.contains(i));
            }
        }
        lemma_below(chunks.dom(), total);
    }
    assert(Seq::new(total as nat, |i: int| chunks[i as u32]) =~= t.chunks) by {
        assert forall|i: int| 0 <= i < total implies chunks[i as u32] == #[trigger] t.chunks[i] by {
            assert(order.contains(i as u32));
            assert(chunks.dom().contains(i as u32));
        }
    }
    law_chunks_make_the_file(data);
}

/// As many numbers as the total are below it.
proof fn lemma_below(set: Set<u32>, total: u32)
    requires
        forall|i: u32| #[trigger] set.contains(i) <==> i < total,
    ensures
        set.finite(),
        set.len() == total,
    decreases total,
{
    if total == 0 {
        assert(set =~= Set::<u32>::empty());
    } else {
        let last = (total - 1) as u32;
        let rest = set.remove(last);
        lemma_below(rest, last);
        assert(set =~= rest.insert(last));
    }
}

/// What is offered is the file that was read.
pub proof fn law_offer_is_of_the_file(
    peer: Seq<char>,
    file_id: u64,
    filename: Seq<char>,
    data: Seq<u8>,
)
    requires
        chunks_of(data).len() <= u32::MAX,
    ensures
        sends_file(offered_transfer(peer, file_id, filename, data), data),
        offered_transfer(peer, file_id, filename, data).phase == Phase::Offering,
        offered_transfer(peer, file_id, filename, data).pending == upto(
            chunks_of(data).len() as u32,
        ),
{
}

/// The effect is a chunk of the transfer, or its question what is missing.
pub open spec fn is_sent_by(t: TransferModel, effect: EffectModel) -> bool {
    effect matches EffectModel::SendFile { request, peer, key, msg } && peer == t.peer && (msg
        == (FileMsgModel::Check { file_id: t.file_id, total: t.chunks.len() as u32 }) || exists|
        k: int,
    | 0 <= k < t.pending.len() && msg == chunk_msg(t, #[trigger] t.pending[k]))
}

/// The effect is sent by a transfer whose file was accepted, to a peer with a session key.
pub open spec fn has_consent(s: StateModel, effect: EffectModel) -> bool {
    exists|i: int|
        0 <= i < s.outgoing_files.len() && sends(s, s.outgoing_files[i].1) && #[trigger] is_sent_by(
            s.outgoing_files[i].1,
            effect,
        )
}

proof fn lemma_chunks_consented(s: StateModel, i: int, s1: StateModel, key: Seq<u8>, n: nat)
    requires
        0 <= i < s.outgoing_files.len(),
        sends(s, s.outgoing_files[i].1),
        n <= burst(s.outgoing_files[i].1),
    ensures
        posted_chunks(s1, s.outgoing_files[i].1, key, n).effects.len() == s1.effects.len() + n,
        posted_chunks(s1, s.outgoing_files[i].1, key, n).effects.take(s1.effects.len() as int)
            == s1.effects,
        forall|k: int|
            s1.effects.len() <= k < s1.effects.len() + n ==> has_consent(
                s,
                #[trigger] posted_chunks(s1, s.outgoing_files[i].1, key, n).effects[k],
            ),
    decreases n,
{
    let t = s.outgoing_files[i].1;
    let after = posted_chunks(s1, t, key, n);
    if n == 0 {
        assert(s1.effects.take(s1.effects.len() as int) =~= s1.effects);
    } else {
        lemma_chunks_consented(s, i, s1, key, (n - 1) as nat);
        let before = posted_chunks(s1, t, key, (n - 1) as nat);
        let last = after.effects.last();
        assert(t.pending[n - 1] == t.pending[n - 1]);
        assert(is_sent_by(t, last));
        assert(has_consent(s, last));
        assert(after.effects.take(s1.effects.len() as int) =~= before.effects.take(
            s1.effects.len() as int,
        ));
        assert forall|k: int| s1.effects.len() <= k < s1.effects.len() + n implies has_consent(
            s,
            #[trigger] after.effects[k],
        ) by {
            if k < s1.effects.len() + n - 1 {
                assert(after.effects[k] == before.effects[k]);
            }
        }
    }
}

proof fn lemma_driven_consented(s: StateModel, n: nat)
    requires
        n <= s.outgoing_files.len(),
    ensures
        driven_upto(s, n).effects.len() >= s.effects.len(),
        driven_upto(s, n).effects.take(s.effects.len() as int) == s.effects,
        forall|k: int|
            s.effects.len() <= k < driven_upto(s, n).effects.len() ==> has_consent(
                s,
                #[trigger] driven_upto(s, n).effects[k],
            ),
    decreases n,
{
    let after = driven_upto(s, n);
    if n == 0 {
        assert(s.effects.take(s.effects.len() as int) =~= s.effects);
    } else {
        lemma_driven_consented(s, (n - 1) as nat);
        lemma_driven_upto(s, (n - 1) as nat);
        let before = driven_upto(s, (n - 1) as nat);
        let i = n - 1;
        assert(before.outgoing_files[i] == s.outgoing_files[i]);
        let t = s.outgoing_files[i].1;
        if sends(s, t) {
            let key = at(before.sessions, t.peer);
            lemma_chunks_consented(s, i, before, key, burst(t));
            let sent = posted_chunks(before, t, key, burst(t));
            assert(sent.effects.take(s.effects.len() as int) =~= sent.effects.take(
                before.effects.len() as int,
            ).take(s.effects.len() as int));
            assert forall|k: int| s.effects.len() <= k < after.effects.len() implies has_consent(
                s,
                #[trigger] after.effects[k],
            ) by {
                if k < before.effects.len() {
                    assert(sent.effects[k] == sent.effects.take(before.effects.len() as int)[k]);
                    assert(after.effects[k] == before.effects[k]);
                } else if k < sent.effects.len() {
                    assert(after.effects[k] == sent.effects[k]);
                } else {
                    assert(is_sent_by(t, after.effects[k]));
                }
            }
            assert(after.effects.take(s.effects.len() as int) =~= sent.effects.take(
                s.effects.len() as int,
            ));
        }
    }
}

/// Nothing of a file goes out before the receiver has accepted it: driving the transfers leaves
/// what was to be done before, and whatever it adds is sent by a transfer in its sending phase, to
/// a peer with a session key. A transfer that is only offered stays as it is, with all its chunks
/// pending.
pub proof fn law_no_chunk_without_consent(s: StateModel)
    ensures
        driven(s).effects.len() >= s.effects.len(),
        driven(s).effects.take(s.effects.len() as int) == s.effects,
        forall|k: int|
            s.effects.len() <= k < driven(s).effects.len() ==> has_consent(
                s,
                #[trigger] driven(s).effects[k],
            ),
        driven(s).outgoing_files.len() == s.outgoing_files.len(),
        forall|i: int|
            0 <= i < s.outgoing_files.len() && s.outgoing_files[i].1.phase == Phase::Offering
                ==> #[trigger] driven(s).outgoing_files[i] == s.outgoing_files[i],
{
    lemma_driven_consented(s, s.outgoing_files.len());
    lemma_driven_upto(s, s.outgoing_files.len());
}

/// A transfer never has more chunks unacknowledged than the limit because of what it sends.
pub proof fn law_burst_is_bounded(t: TransferModel)
    requires
        t.in_flight <= MAX_IN_FLIGHT,
    ensures
        advanced(t).in_flight <= MAX_IN_FLIGHT,
        advanced(t).in_flight == t.in_flight + burst(t),
        advanced(t).pending == t.pending.skip(burst(t) as int),
        advanced(t).chunks == t.chunks,
{
}

/// When a peer leaves, its transfers that were not done are gone; every other transfer stays as it
/// was; and no request about a transfer of that peer is waited for.
pub proof fn law_disconnect_fails_transfers(s: StateModel, peer: Seq<char>, now: NowModel, id: u64)
    requires
        distinct(s.outgoing_files),
    ensures
        lookup(after_disconnect(s, peer, now).outgoing_files, id) == (match lookup(
            s.outgoing_files,
            id,
        ) {
            Some(t) => if breaks_off(t, peer) {
                None
            } else {
                Some(t)
            },
            None => None,
        }),
        forall|k: int|
            0 <= k < after_disconnect(s, peer, now).file_outstanding.len() ==> {
                let note = (#[trigger] after_disconnect(s, peer, now).file_outstanding[k]).1;
                has(after_disconnect(s, peer, now).outgoing_files, note.0) && at(
                    after_disconnect(s, peer, now).outgoing_files,
                    note.0,
                ).peer != peer
            },
{
    let after = after_disconnect(s, peer, now);
    lemma_lookup_filter(s.outgoing_files, goes_on(peer), id);
    if has(s.outgoing_files, id) {
        lemma_has(s.outgoing_files, id);
        let p = pos(s.outgoing_files, id);
        assert forall|i: int|
            0 <= i < s.outgoing_files.len() && (#[trigger] s.outgoing_files[i]).0 == id implies i
            == p by {
            if i < p {
                assert(s.outgoing_files[i].0 != s.outgoing_files[p].0);
            } else if p < i {
                assert(s.outgoing_files[p].0 != s.outgoing_files[i].0);
            }
        }
    }
    assert forall|k: int| 0 <= k < after.file_outstanding.len() implies {
        let note = (#[trigger] after.file_outstanding[k]).1;
        has(after.outgoing_files, note.0) && at(after.outgoing_files, note.0).peer != peer
    } by {
        lemma_filter_from(s.file_outstanding, about_others(after.outgoing_files, peer), k);
    }
}

/// A transfer whose file was refused is gone, no request about it is waited for, and every other
/// transfer stays as it was.
pub proof fn law_reject_ends_transfer(
    s: StateModel,
    peer: Seq<char>,
    file_id: u64,
    now: NowModel,
    id: u64,
)
    ensures
        lookup(after_reject(s, peer, file_id, now).outgoing_files, id) == (if id == file_id {
            None
        } else {
            lookup(s.outgoing_files, id)
        }),
        forall|k: int|
            0 <= k < after_reject(s, peer, file_id, now).file_outstanding.len() ==> (
            #[trigger] after_reject(s, peer, file_id, now).file_outstanding[k]).1.0 != file_id,
{
    lemma_lookup_without(s.outgoing_files, file_id, id);
    let after = after_reject(s, peer, file_id, now);
    assert forall|k: int| 0 <= k < after.file_outstanding.len() implies (
    #[trigger] after.file_outstanding[k]).1.0 != file_id by {
        lemma_filter_from(s.file_outstanding, not_about(file_id), k);
    }
}

/// What is missing is sent again: the transfer goes back to sending, with exactly the missing
/// chunks after those that are pending. Once nothing is missing, the digest of the file is sent,
/// where there is a session key.
pub proof fn law_missing_is_resent(s: StateModel, file_id: u64, missing: Seq<u32>)
    requires
        has(s.outgoing_files, file_id),
    ensures
        missing.len() > 0 ==> lookup(after_missing(s, file_id, missing).outgoing_files, file_id)
            == Some(
            TransferModel {
                pending: at(s.outgoing_files, file_id).pending + missing,
                in_flight: 0,
                checked: false,
                phase: Phase::Sending,
                ..at(s.outgoing_files, file_id)
            },
        ),
        missing.len() == 0 && has(s.sessions, at(s.outgoing_files, file_id).peer) ==> after_missing(
            s,
            file_id,
            missing,
        ).effects == s.effects.push(
            EffectModel::SendFile {
                request: s.next_request,
                peer: at(s.outgoing_files, file_id).peer,
                key: at(s.sessions, at(s.outgoing_files, file_id).peer),
                msg: FileMsgModel::Done {
                    file_id,
                    filename: at(s.outgoing_files, file_id).filename,
                    total: at(s.outgoing_files, file_id).chunks.len() as u32,
                    file_hash: at(s.outgoing_files, file_id).file_hash,
                },
            },
        ),
{
    let t = at(s.outgoing_files, file_id);
    lemma_lookup_put(
        s.outgoing_files,
        file_id,
        TransferModel {
            pending: t.pending + missing,
            in_flight: 0,
            checked: false,
            phase: Phase::Sending,
            ..t
        },
        file_id,
    );
}

/// An acceptance lets a transfer that was offered begin to send, once: a second acceptance is
/// answered with a refusal and changes nothing.
pub proof fn law_accept_begins_once(s: StateModel, peer: Seq<char>, file_id: u64, now: NowModel)
    requires
        awaits(s, file_id),
    ensures
        lookup(begun(s, peer, file_id).outgoing_files, file_id) == Some(
            TransferModel { phase: Phase::Sending, ..at(s.outgoing_files, file_id) },
        ),
        !awaits(begun(s, peer, file_id), file_id),
        after_message(
            begun(s, peer, file_id),
            peer,
            FileMsgModel::OfferAccept { file_id },
            now,
        ) == begun(s, peer, file_id),
        called_for(begun(s, peer, file_id), FileMsgModel::OfferAccept { file_id })
            == StepModel::Reply(FileRespModel::OfferReply { file_id, ok: false }),
{
    lemma_lookup_put(
        s.outgoing_files,
        file_id,
        TransferModel { phase: Phase::Sending, ..at(s.outgoing_files, file_id) },
        file_id,
    );
}

/// A decision on an invitation takes it off the list, and no other.
pub proof fn law_decision_settles_offer(s: StateModel, peer: Seq<char>, file_id: u64)
    requires
        has(s.pending_offers, peer),
    ensures
        lookup(decided(s, peer, file_id).pending_offers, peer) == Some(
            at(s.pending_offers, peer).filter(not_for(file_id)),
        ),
        forall|i: int|
            0 <= i < at(s.pending_offers, peer).filter(not_for(file_id)).len() ==> (
            #[trigger] at(s.pending_offers, peer).filter(not_for(file_id))[i]).file_id != file_id,
        forall|i: int|
            0 <= i < at(s.pending_offers, peer).len() && (#[trigger] at(
                s.pending_offers,
                peer,
            )[i]).file_id != file_id ==> at(s.pending_offers, peer).filter(
                not_for(file_id),
            ).contains(at(s.pending_offers, peer)[i]),
{
    broadcast use vstd::seq_lib::group_filter_ensures;

    let offers = at(s.pending_offers, peer);
    lemma_lookup_put(s.pending_offers, peer, offers.filter(not_for(file_id)), peer);
    assert forall|i: int| 0 <= i < offers.filter(not_for(file_id)).len() implies (
    #[trigger] offers.filter(not_for(file_id))[i]).file_id != file_id by {
        lemma_filter_from(offers, not_for(file_id), i);
    }
    assert forall|i: int|
        0 <= i < offers.len() && (#[trigger] offers[i]).file_id != file_id implies offers.filter(
        not_for(file_id),
    ).contains(offers[i]) by {
        assert(not_for(file_id)(offers[i]));
    }
}

/// A transfer after rounds in which what may be sent is sent, and all of it is acknowledged.
pub open spec fn rounds(t: TransferModel, k: nat) -> TransferModel
    decreases k,
{
    if k == 0 {
        t
    } else {
        let before = rounds(t, (k - 1) as nat);
        if asks(before) {
            before
        } else {
            TransferModel { in_flight: 0, ..advanced(before) }
        }
    }
}

/// The chunks that are sent in these rounds, in the order in which they are.
pub open spec fn sent_in(t: TransferModel, k: nat) -> Seq<u32>
    decreases k,
{
    if k == 0 {
        Seq::empty()
    } else {
        let before = rounds(t, (k - 1) as nat);
        sent_in(t, (k - 1) as nat) + before.pending.take(burst(before) as int)
    }
}

/// Every chunk goes out, once and in order, a few at a time; and when all are out, what is missing
/// is asked.
pub proof fn law_every_chunk_goes_out(t: TransferModel, k: nat)
    requires
        t.phase == Phase::Sending,
        t.in_flight == 0,
        !t.checked,
    ensures
        sent_in(t, k) + rounds(t, k).pending == t.pending,
        rounds(t, k).pending.len() == (if t.pending.len() > MAX_IN_FLIGHT * k {
            t.pending.len() - MAX_IN_FLIGHT * k
        } else {
            0
        }),
        rounds(t, k).chunks == t.chunks,
        rounds(t, k).phase == Phase::Sending,
        MAX_IN_FLIGHT * k >= t.pending.len() ==> asks(rounds(t, k)) && sent_in(t, k) == t.pending,
    decreases k,
{
    if k == 0 {
        assert(sent_in(t, k) + rounds(t, k).pending =~= t.pending);
        assert(t.pending.len() == 0 ==> t.pending =~= Seq::<u32>::empty());
    } else {
        law_every_chunk_goes_out(t, (k - 1) as nat);
        lemma_rounds_idle(t, (k - 1) as nat);
        let before = rounds(t, (k - 1) as nat);
        let n = burst(before) as int;
        assert(before.pending =~= before.pending.take(n) + before.pending.skip(n));
        assert(sent_in(t, k) + rounds(t, k).pending =~= sent_in(t, (k - 1) as nat)
            + before.pending);
        if rounds(t, k).pending.len() == 0 {
            assert(sent_in(t, k) =~= t.pending);
        }
        lemma_rounds_idle(t, k);
    }
}

proof fn lemma_rounds_idle(t: TransferModel, k: nat)
    requires
        t.phase == Phase::Sending,
        t.in_flight == 0,
        !t.checked,
    ensures
        rounds(t, k).in_flight == 0,
        !rounds(t, k).checked,
        rounds(t, k).phase == Phase::Sending,
    decreases k,
{
    if k > 0 {
        lemma_rounds_idle(t, (k - 1) as nat);
    }
}

/// Of the file exactly those chunks have come that it has.
pub open spec fn is_whole(inc: IncomingModel) -> bool {
    &&& inc.chunks.dom().len() == inc.total
    &&& forall|i: u32| i < inc.total ==> #[trigger] inc.chunks.dom().contains(i)
}

/// What the sender is told once it has sent the digest of a file, given whether the file could be
/// stored where that was tried.
pub open spec fn told(s: StateModel, msg: FileMsgModel, error: Option<StoreErrorModel>)
    -> FileRespModel {
    match called_for(s, msg) {
        StepModel::Reply(response) => response,
        StepModel::Store(file) => FileRespModel::Result {
            file_id: file.file_id,
            ok: error is None,
            msg: stored_msg(file, error),
        },
    }
}

/// The receiver's state once the sender is told.
pub open spec fn once_told(
    s: StateModel,
    peer: Seq<char>,
    msg: FileMsgModel,
    error: Option<StoreErrorModel>,
    now: NowModel,
) -> StateModel {
    match called_for(s, msg) {
        StepModel::Reply(_) => after_message(s, peer, msg, now),
        StepModel::Store(file) => after_storing(
            after_message(s, peer, msg, now),
            peer,
            file,
            error,
            now,
        ),
    }
}

/// The digest that ends a transfer is always answered, with success exactly when the file is whole,
/// has the digest, and could be stored. In any case what was kept of the file, and the invitation
/// for it, are dropped, and no other file is touched.
pub proof fn law_every_transfer_is_answered(
    s: StateModel,
    peer: Seq<char>,
    file_id: u64,
    filename: Seq<char>,
    total: u32,
    file_hash: Seq<char>,
    error: Option<StoreErrorModel>,
    now: NowModel,
    other: u64,
)
    ensures
        ({
            let msg = FileMsgModel::Done { file_id, filename, total, file_hash };
            let after = once_told(s, peer, msg, error, now);
            &&& receivable(s, peer, msg)
            &&& told(s, msg, error) matches FileRespModel::Result { file_id: id, ok, msg: _ } && {
                &&& id == file_id
                &&& ok <==> {
                    let inc = at(s.incoming_files, file_id);
                    &&& has(s.incoming_files, file_id)
                    &&& is_whole(inc)
                    &&& hex_text(sha256_digest(assembled(inc.chunks, inc.total))) == file_hash
                    &&& error is None
                }
            }
            &&& lookup(after.incoming_files, other) == (if other == file_id {
                None
            } else {
                lookup(s.incoming_files, other)
            })
            &&& after.pending_offers == decided(s, peer, file_id).pending_offers
        }),
{
    let msg = FileMsgModel::Done { file_id, filename, total, file_hash };
    if has(s.incoming_files, file_id) {
        let inc = at(s.incoming_files, file_id);
        law_missing(inc.chunks.dom(), inc.total);
    }
    lemma_lookup_without(s.incoming_files, file_id, other);
}

/// Only a file that is whole is stored: its chunks have come and no others, and put
/// together have the digest that its sender has told. It goes into the directory of downloads,
/// under the name that came with its first chunk.
pub proof fn law_only_whole_files_are_stored(s: StateModel, msg: FileMsgModel, file: ReadyModel)
    requires
        called_for(s, msg) == StepModel::Store(file),
    ensures
        msg matches FileMsgModel::Done { file_id, filename, file_hash, .. } && {
            let inc = at(s.incoming_files, file_id);
            &&& has(s.incoming_files, file_id)
            &&& file.file_id == file_id
            &&& is_whole(inc)
            &&& file.data == assembled(inc.chunks, inc.total)
            &&& hex_text(sha256_digest(file.data)) == file_hash
            &&& file.filename == filename
            &&& file.path == "downloads"@ + "/"@ + inc.filename
        },
{
    if let FileMsgModel::Done { file_id, filename, total, file_hash } = msg {
        let inc = at(s.incoming_files, file_id);
        law_missing(inc.chunks.dom(), inc.total);
    }
}

/// What got lost on the way is sent again: a chunk is pending again, behind the others, and no
/// longer counts as unacknowledged; a lost question what is missing, or a lost digest, lets the
/// transfer ask again as soon as nothing is pending or unacknowledged. The lost request is no
/// longer waited for.
pub proof fn law_lost_is_sent_again(s: StateModel, request: u64, now: NowModel)
    requires
        has(s.file_outstanding, request),
        has(s.outgoing_files, at(s.file_outstanding, request).0),
    ensures
        ({
            let (file_id, about) = at(s.file_outstanding, request);
            let t = at(s.outgoing_files, file_id);
            let after = lookup(after_failure(s, request, now).outgoing_files, file_id);
            match about {
                OutboundReq::Offer => after is None,
                OutboundReq::Chunk(index) => after == Some(
                    TransferModel {
                        pending: t.pending.push(index),
                        in_flight: if t.in_flight > 0 {
                            (t.in_flight - 1) as nat
                        } else {
                            0
                        },
                        phase: Phase::Sending,
                        ..t
                    },
                ),
                OutboundReq::Check | OutboundReq::Done => after matches Some(next) && next.phase
                    == Phase::Sending && (t.pending.len() == 0 && t.in_flight == 0 ==> asks(next)),
            }
        }),
        lookup(after_failure(s, request, now).file_outstanding, request) is None,
{
    let (file_id, about) = at(s.file_outstanding, request);
    let t = at(s.outgoing_files, file_id);
    lemma_lookup_without(s.file_outstanding, request, request);
    match about {
        OutboundReq::Offer => {
            lemma_lookup_without(s.outgoing_files, file_id, file_id);
        },
        OutboundReq::Chunk(index) => {
            let next = TransferModel {
                pending: t.pending.push(index),
                in_flight: if t.in_flight > 0 {
                    (t.in_flight - 1) as nat
                } else {
                    0
                },
                phase: Phase::Sending,
                ..t
            };
            lemma_lookup_put(s.outgoing_files, file_id, next, file_id);
        },
        OutboundReq::Check | OutboundReq::Done => {
            let next = TransferModel { checked: false, phase: Phase::Sending, ..t };
            lemma_lookup_put(s.outgoing_files, file_id, next, file_id);
        },
    }
}

/// What was to be done before is still to be done, in the same order, before anything that was
/// added; and every file message that was added is for its peer under the key agreed with that very
/// peer.
pub open spec fn only_sealed(s: StateModel, after: StateModel) -> bool {
    &&& s.effects.len() <= after.effects.len()
    &&& after.effects.take(s.effects.len() as int) == s.effects
    &&& forall|e: int|
        s.effects.len() <= e < after.effects.len() ==> (#[trigger] after.effects[e] matches
            EffectModel::SendFile { request, peer, key, msg } ==> lookup(s.sessions, peer) == Some(key))
}

/// The message was added for the peer of a transfer, under the key agreed with that peer, and its
/// reply is waited for as one about the transfer.
pub open spec fn is_sent(
    s: StateModel,
    after: StateModel,
    t: TransferModel,
    about: OutboundReq,
    msg: FileMsgModel,
) -> bool {
    exists|e: int|
        s.effects.len() <= e < after.effects.len() && #[trigger] is_sending(
            s,
            after,
            after.effects[e],
            t,
            about,
            msg,
        )
}

/// The effect sends the message to the peer of a transfer, under the key agreed with that peer, and
/// its reply is waited for as one about the transfer.
pub open spec fn is_sending(
    s: StateModel,
    after: StateModel,
    effect: EffectModel,
    t: TransferModel,
    about: OutboundReq,
    msg: FileMsgModel,
) -> bool {
    effect matches EffectModel::SendFile { request, peer, key, msg: m } && {
        &&& peer == t.peer
        &&& lookup(s.sessions, peer) == Some(key)
        &&& m == msg
        &&& lookup(after.file_outstanding, request) == Some((t.file_id, about))
    }
}

/// One more thing to be done that is sealed for its peer.
proof fn lemma_sealed_push(s: StateModel, mid: StateModel, effect: EffectModel)
    requires
        only_sealed(s, mid),
        effect matches EffectModel::SendFile { request, peer, key, msg } ==> lookup(s.sessions, peer)
            == Some(key),
    ensures
        only_sealed(s, StateModel { effects: mid.effects.push(effect), ..mid }),
{
    let more = mid.effects.push(effect);
    assert(more.take(s.effects.len() as int) =~= mid.effects.take(s.effects.len() as int));
    assert forall|e: int| s.effects.len() <= e < more.len() implies (#[trigger] more[e] matches
        EffectModel::SendFile { request, peer, key, msg } ==> lookup(s.sessions, peer) == Some(key)) by {
        if e < mid.effects.len() {
            assert(more[e] == mid.effects[e]);
        }
    }
}

/// Where nothing is sent, nothing is sent unsealed.
pub proof fn lemma_sealed_same(s: StateModel)
    ensures
        only_sealed(s, s),
{
    assert(s.effects.take(s.effects.len() as int) =~= s.effects);
}

/// Only what is to be done, and the sessions, matter.
proof fn lemma_sealed_alike(a: StateModel, b: StateModel, after: StateModel, then: StateModel)
    requires
        only_sealed(a, after),
        a.effects == b.effects,
        a.sessions == b.sessions,
        after.effects == then.effects,
    ensures
        only_sealed(b, then),
{
}

proof fn lemma_sealed_logged(s: StateModel, mid: StateModel, line: Seq<char>)
    requires
        only_sealed(s, mid),
    ensures
        only_sealed(s, logged(mid, line)),
{
    lemma_sealed_push(s, mid, EffectModel::Print(line));
}

proof fn lemma_chunks_sent(s: StateModel, mid: StateModel, t: TransferModel, key: Seq<u8>, n: nat)
    requires
        only_sealed(s, mid),
        lookup(s.sessions, t.peer) == Some(key),
        n <= t.pending.len(),
        mid.next_request + n <= u64::MAX,
    ensures
        ({
            let after = posted_chunks(mid, t, key, n);
            &&& only_sealed(s, after)
            &&& after.effects.len() == mid.effects.len() + n
            &&& after.next_request == mid.next_request + n
            &&& after.effects.take(mid.effects.len() as int) == mid.effects
            &&& forall|k: int|
                0 <= k < n ==> #[trigger] after.effects[mid.effects.len() + k]
                    == (EffectModel::SendFile {
                    request: (mid.next_request + k) as u64,
                    peer: t.peer,
                    key,
                    msg: chunk_msg(t, t.pending[k]),
                }) && lookup(after.file_outstanding, (mid.next_request + k) as u64) == Some(
                    (t.file_id, OutboundReq::Chunk(t.pending[k])),
                )
            &&& forall|r: u64|
                r < mid.next_request ==> #[trigger] lookup(after.file_outstanding, r) == lookup(
                    mid.file_outstanding,
                    r,
                )
        }),
    decreases n,
{
    let after = posted_chunks(mid, t, key, n);
    if n == 0 {
        assert(mid.effects.take(mid.effects.len() as int) =~= mid.effects);
    } else {
        lemma_chunks_sent(s, mid, t, key, (n - 1) as nat);
        let before = posted_chunks(mid, t, key, (n - 1) as nat);
        let index = t.pending[n - 1];
        let note = (t.file_id, OutboundReq::Chunk(index));
        let effect = EffectModel::SendFile {
            request: before.next_request,
            peer: t.peer,
            key,
            msg: chunk_msg(t, index),
        };
        lemma_sealed_push(s, before, effect);
        assert(after.effects == before.effects.push(effect));
        assert(after.effects.take(mid.effects.len() as int) =~= before.effects.take(
            mid.effects.len() as int,
        ));
        assert forall|k: int| 0 <= k < n implies #[trigger] after.effects[mid.effects.len() + k] == (
        EffectModel::SendFile {
            request: (mid.next_request + k) as u64,
            peer: t.peer,
            key,
            msg: chunk_msg(t, t.pending[k]),
        }) && lookup(after.file_outstanding, (mid.next_request + k) as u64) == Some(
            (t.file_id, OutboundReq::Chunk(t.pending[k])),
        ) by {
            lemma_lookup_put(
                before.file_outstanding,
                before.next_request,
                note,
                (mid.next_request + k) as u64,
            );
            if k < n - 1 {
                assert(after.effects[mid.effects.len() + k] == before.effects[mid.effects.len()
                    + k]);
            }
        }
        assert forall|r: u64| r < mid.next_request implies #[trigger] lookup(
            after.file_outstanding,
            r,
        ) == lookup(mid.file_outstanding, r) by {
            lemma_lookup_put(before.file_outstanding, before.next_request, note, r);
        }
    }
}

/// The transfer may send the chunk at this position of those that are pending: it is under way,
/// there is a key for its peer, and not too many chunks are unacknowledged.
pub open spec fn may_send(s: StateModel, t: TransferModel, k: int) -> bool {
    &&& t.phase == Phase::Sending
    &&& has(s.sessions, t.peer)
    &&& 0 <= k < t.pending.len()
    &&& t.in_flight + k < MAX_IN_FLIGHT
}

/// The transfer has sent everything and it was all acknowledged; what is missing is to be asked.
pub open spec fn is_due_to_ask(s: StateModel, t: TransferModel) -> bool {
    &&& t.phase == Phase::Sending
    &&& has(s.sessions, t.peer)
    &&& t.pending.len() == 0
    &&& t.in_flight == 0
    &&& !t.checked
}

/// What a transfer is to send is sent: its chunks, each with its bytes, its index and the number of
/// all chunks; or the question what is missing.
pub open spec fn is_served(s: StateModel, after: StateModel, t: TransferModel) -> bool {
    &&& forall|k: int| #[trigger]
        may_send(s, t, k) ==> is_sent(
            s,
            after,
            t,
            OutboundReq::Chunk(t.pending[k]),
            FileMsgModel::Chunk {
                file_id: t.file_id,
                filename: t.filename,
                total: t.chunks.len() as u32,
                index: t.pending[k],
                data: base64_text(t.chunks[t.pending[k] as int]),
            },
        )
    &&& is_due_to_ask(s, t) ==> is_sent(
        s,
        after,
        t,
        OutboundReq::Check,
        FileMsgModel::Check { file_id: t.file_id, total: t.chunks.len() as u32 },
    )
}

/// What was sent stays sent.
proof fn lemma_served_on(s: StateModel, mid: StateModel, after: StateModel, t: TransferModel)
    requires
        is_served(s, mid, t),
        mid.effects.len() <= after.effects.len(),
        after.effects.take(mid.effects.len() as int) == mid.effects,
        forall|e: int|
            s.effects.len() <= e < mid.effects.len() ==> (#[trigger] mid.effects[e] matches
                EffectModel::SendFile { request, peer, key, msg } ==> lookup(
                after.file_outstanding,
                request,
            ) == lookup(mid.file_outstanding, request)),
    ensures
        is_served(s, after, t),
{
    assert forall|k: int| #[trigger] may_send(s, t, k) implies is_sent(
        s,
        after,
        t,
        OutboundReq::Chunk(t.pending[k]),
        FileMsgModel::Chunk {
            file_id: t.file_id,
            filename: t.filename,
            total: t.chunks.len() as u32,
            index: t.pending[k],
            data: base64_text(t.chunks[t.pending[k] as int]),
        },
    ) by {
        lemma_sent_on(s, mid, after, t, OutboundReq::Chunk(t.pending[k]), chunk_msg(t, t.pending[k]));
    }
    if is_due_to_ask(s, t) {
        lemma_sent_on(
            s,
            mid,
            after,
            t,
            OutboundReq::Check,
            FileMsgModel::Check { file_id: t.file_id, total: t.chunks.len() as u32 },
        );
    }
}

proof fn lemma_sent_on(
    s: StateModel,
    mid: StateModel,
    after: StateModel,
    t: TransferModel,
    about: OutboundReq,
    msg: FileMsgModel,
)
    requires
        is_sent(s, mid, t, about, msg),
        mid.effects.len() <= after.effects.len(),
        after.effects.take(mid.effects.len() as int) == mid.effects,
        forall|e: int|
            s.effects.len() <= e < mid.effects.len() ==> (#[trigger] mid.effects[e] matches
                EffectModel::SendFile { request, peer, key, msg } ==> lookup(
                after.file_outstanding,
                request,
            ) == lookup(mid.file_outstanding, request)),
    ensures
        is_sent(s, after, t, about, msg),
{
    let e = choose|e: int|
        s.effects.len() <= e < mid.effects.len() && #[trigger] is_sending(
            s,
            mid,
            mid.effects[e],
            t,
            about,
            msg,
        );
    assert(after.effects[e] == after.effects.take(mid.effects.len() as int)[e]);
    assert(is_sending(s, after, after.effects[e], t, about, msg));
}

/// The requests that were added have numbers that were given out.
pub open spec fn given_out(s: StateModel, after: StateModel) -> bool {
    forall|e: int|
        s.effects.len() <= e < after.effects.len() ==> (#[trigger] after.effects[e] matches
            EffectModel::SendFile { request, peer, key, msg } ==> request < after.next_request)
}

proof fn lemma_driven_served(s: StateModel, n: nat)
    requires
        n <= s.outgoing_files.len(),
        s.next_request + MAX_IN_FLIGHT * n <= u64::MAX,
    ensures
        ({
            let after = driven_upto(s, n);
            &&& only_sealed(s, after)
            &&& given_out(s, after)
            &&& after.next_request <= s.next_request + MAX_IN_FLIGHT * n
            &&& forall|i: int| 0 <= i < n ==> is_served(s, after, (#[trigger] s.outgoing_files[i]).1)
        }),
    decreases n,
{
    let after = driven_upto(s, n);
    if n == 0 {
        lemma_sealed_same(s);
    } else {
        lemma_driven_served(s, (n - 1) as nat);
        lemma_driven_upto(s, (n - 1) as nat);
        let before = driven_upto(s, (n - 1) as nat);
        let i = n - 1;
        assert(before.outgoing_files[i] == s.outgoing_files[i]);
        let t = s.outgoing_files[i].1;
        if sends(s, t) {
            let key = at(s.sessions, t.peer);
            let sent = posted_chunks(before, t, key, burst(t));
            lemma_chunks_sent(s, before, t, key, burst(t));
            let ask = FileMsgModel::Check { file_id: t.file_id, total: t.chunks.len() as u32 };
            let note = (t.file_id, OutboundReq::Check);
            let effect = EffectModel::SendFile {
                request: sent.next_request,
                peer: t.peer,
                key,
                msg: ask,
            };
            if asks(t) {
                assert(burst(t) == 0);
                lemma_sealed_push(s, sent, effect);
                lemma_lookup_put(sent.file_outstanding, sent.next_request, note, sent.next_request);
                assert(after.effects == sent.effects.push(effect));
            } else {
                assert(after.effects == sent.effects);
            }
            lemma_sealed_alike(
                s,
                s,
                if asks(t) {
                    StateModel { effects: sent.effects.push(effect), ..sent }
                } else {
                    sent
                },
                after,
            );
            assert(after.effects.take(before.effects.len() as int) =~= before.effects) by {
                assert(after.effects.take(before.effects.len() as int) =~= sent.effects.take(
                    before.effects.len() as int,
                ));
            }
            assert forall|r: u64| r < before.next_request implies #[trigger] lookup(
                after.file_outstanding,
                r,
            ) == lookup(before.file_outstanding, r) by {
                assert(lookup(sent.file_outstanding, r) == lookup(before.file_outstanding, r));
                lemma_lookup_put(sent.file_outstanding, sent.next_request, note, r);
            }
            assert(given_out(s, after)) by {
                assert forall|e: int| s.effects.len() <= e < after.effects.len() implies (
                #[trigger] after.effects[e] matches EffectModel::SendFile {
                    request,
                    peer,
                    key,
                    msg,
                } ==> request < after.next_request) by {
                    if e < before.effects.len() {
                        assert(after.effects[e] == after.effects.take(
                            before.effects.len() as int,
                        )[e]);
                        assert(before.effects[e] == after.effects[e]);
                    } else if e < sent.effects.len() {
                        let k = e - before.effects.len();
                        assert(after.effects[e] == sent.effects[before.effects.len() + k]);
                    }
                }
            }
            assert forall|j: int| 0 <= j < n implies is_served(
                s,
                after,
                (#[trigger] s.outgoing_files[j]).1,
            ) by {
                if j < n - 1 {
                    lemma_served_on(s, before, after, s.outgoing_files[j].1);
                } else {
                    lemma_own_turn(s, before, sent, after, t, key);
                }
            }
        } else {
            assert(after == before);
            assert forall|j: int| 0 <= j < n implies is_served(
                s,
                after,
                (#[trigger] s.outgoing_files[j]).1,
            ) by {
                if j == n - 1 {
                    assert forall|k: int| #[trigger] may_send(s, t, k) implies false by {}
                }
            }
        }
    }
}

/// A transfer is served by its own turn.
proof fn lemma_own_turn(
    s: StateModel,
    before: StateModel,
    sent: StateModel,
    after: StateModel,
    t: TransferModel,
    key: Seq<u8>,
)
    requires
        s.effects.len() <= before.effects.len(),
        before.next_request + MAX_IN_FLIGHT <= u64::MAX,
        lookup(s.sessions, t.peer) == Some(key),
        sent == posted_chunks(before, t, key, burst(t)),
        only_sealed(s, before),
        asks(t) ==> after.effects == sent.effects.push(
            EffectModel::SendFile {
                request: sent.next_request,
                peer: t.peer,
                key,
                msg: FileMsgModel::Check { file_id: t.file_id, total: t.chunks.len() as u32 },
            },
        ) && lookup(after.file_outstanding, sent.next_request) == Some(
            (t.file_id, OutboundReq::Check),
        ),
        !asks(t) ==> after.effects == sent.effects && after.file_outstanding
            == sent.file_outstanding,
    ensures
        is_served(s, after, t),
{
    lemma_chunks_sent(s, before, t, key, burst(t));
    assert forall|k: int| #[trigger] may_send(s, t, k) implies is_sent(
        s,
        after,
        t,
        OutboundReq::Chunk(t.pending[k]),
        FileMsgModel::Chunk {
            file_id: t.file_id,
            filename: t.filename,
            total: t.chunks.len() as u32,
            index: t.pending[k],
            data: base64_text(t.chunks[t.pending[k] as int]),
        },
    ) by {
        assert(k < burst(t));
        assert(!asks(t));
        let e = before.effects.len() + k;
        assert(is_sending(
            s,
            after,
            after.effects[e],
            t,
            OutboundReq::Chunk(t.pending[k]),
            chunk_msg(t, t.pending[k]),
        ));
    }
    if is_due_to_ask(s, t) {
        let e = sent.effects.len() as int;
        assert(is_sending(
            s,
            after,
            after.effects[e],
            t,
            OutboundReq::Check,
            FileMsgModel::Check { file_id: t.file_id, total: t.chunks.len() as u32 },
        ));
    }
}

/// Every transfer that was accepted sends what it may, and nothing is kept back: each of the next
/// pending chunks, as long as few enough are unacknowledged, goes to the peer of the transfer under
/// the key agreed with that peer, and its acknowledgement is waited for; and once all are out and
/// acknowledged, what is missing is asked.
pub proof fn law_transfers_are_served(s: StateModel)
    requires
        numbered(s),
    ensures
        only_sealed(s, driven(s)),
        forall|i: int|
            0 <= i < s.outgoing_files.len() ==> is_served(
                s,
                driven(s),
                (#[trigger] s.outgoing_files[i]).1,
            ),
        driven(s).peers == s.peers,
        driven(s).sessions == s.sessions,
{
    lemma_driven_served(s, s.outgoing_files.len());
    lemma_driven_upto(s, s.outgoing_files.len());
}

/// The file was offered to the peer under an id of its own: a transfer of the whole file waits for
/// the peer's consent, with all its chunks to be sent in their order; and, where there is a
/// session, the peer is invited, under its own key, and told the name, the size, the number of
/// chunks and the digest of the file; the conversation says so.
pub open spec fn is_invited(
    s: StateModel,
    after: StateModel,
    file_id: u64,
    peer: Seq<char>,
    filename: Seq<char>,
    data: Seq<u8>,
) -> bool {
    &&& lookup(after.outgoing_files, file_id) matches Some(t) && {
        &&& t.peer == peer
        &&& t.file_id == file_id
        &&& t.filename == filename
        &&& joined(t.chunks) == data
        &&& t.file_hash == hex_text(sha256_digest(data))
        &&& t.phase == Phase::Offering
        &&& t.in_flight == 0 && !t.checked
        &&& t.pending.len() == t.chunks.len()
        &&& forall|k: int| 0 <= k < t.pending.len() ==> #[trigger] t.pending[k] == k
        &&& has(s.sessions, peer) ==> is_sent(
            s,
            after,
            t,
            OutboundReq::Offer,
            FileMsgModel::Offer {
                file_id,
                filename,
                size: data.len() as u64,
                total: t.chunks.len() as u32,
                file_hash: hex_text(sha256_digest(data)),
            },
        )
    }
    &&& has(s.sessions, peer) ==> (lookup(after.peers, peer) matches Some(info) && info.records.len()
        > 0 && info.records.last().kind == "file"@ && info.records.last().outbound
        && info.records.last().name == filename && occurs_in(filename, info.records.last().text))
}

proof fn lemma_invited_on(
    s: StateModel,
    mid: StateModel,
    next: Seq<char>,
    file_id: u64,
    peer: Seq<char>,
    filename: Seq<char>,
    data: Seq<u8>,
    now: NowModel,
)
    requires
        is_invited(s, mid, file_id, peer, filename, data),
        file_id < mid.next_file_id < u64::MAX,
        given_out(s, mid),
        mid.next_request < u64::MAX,
        s.effects.len() <= mid.effects.len(),
        peer != next,
    ensures
        is_invited(s, offered_to(mid, next, filename, data, now), file_id, peer, filename, data),
{
    let after = offered_to(mid, next, filename, data, now);
    let id = mid.next_file_id;
    let other = offered_transfer(next, id, filename, data);
    lemma_lookup_put(mid.outgoing_files, id, other, file_id);
    let t = at(mid.outgoing_files, file_id);
    if has(mid.sessions, next) {
        let s1 = with_transfer(
            StateModel { next_file_id: (id + 1) as u64, ..mid },
            id,
            other,
        );
        let offer = FileMsgModel::Offer {
            file_id: id,
            filename,
            size: data.len() as u64,
            total: chunks_of(data).len() as u32,
            file_hash: hex_text(sha256_digest(data)),
        };
        let s2 = posted(s1, next, at(mid.sessions, next), offer, Some((id, OutboundReq::Offer)));
        law_file_event_is_noted(
            s2,
            next,
            true,
            filename,
            "我正在发送 "@ + filename + " 给 "@ + nickname_of(mid, next),
            now,
        );
        assert(lookup(after.peers, peer) == lookup(s2.peers, peer));
        assert(after.effects.take(mid.effects.len() as int) =~= mid.effects);
        assert forall|e: int| s.effects.len() <= e < mid.effects.len() implies (
        #[trigger] mid.effects[e] matches EffectModel::SendFile { request, peer, key, msg } ==> lookup(
            after.file_outstanding,
            request,
        ) == lookup(mid.file_outstanding, request)) by {
            if let EffectModel::SendFile { request, peer, key, msg } = mid.effects[e] {
                lemma_lookup_put(
                    mid.file_outstanding,
                    mid.next_request,
                    (id, OutboundReq::Offer),
                    request,
                );
            }
        }
    } else {
        assert(after.effects.take(mid.effects.len() as int) =~= mid.effects);
    }
    if has(s.sessions, peer) {
        lemma_sent_on(
            s,
            mid,
            after,
            t,
            OutboundReq::Offer,
            FileMsgModel::Offer {
                file_id,
                filename,
                size: data.len() as u64,
                total: t.chunks.len() as u32,
                file_hash: hex_text(sha256_digest(data)),
            },
        );
    }
}

/// The peers are offered a file one after the other.
proof fn lemma_all_invited(
    s: StateModel,
    start: StateModel,
    peers: Seq<Seq<char>>,
    filename: Seq<char>,
    data: Seq<u8>,
    now: NowModel,
)
    requires
        only_sealed(s, start),
        given_out(s, start),
        start.sessions == s.sessions,
        peers.no_duplicates(),
        start.next_file_id + peers.len() <= u64::MAX,
        start.next_request + peers.len() <= u64::MAX,
        chunks_of(data).len() <= u32::MAX,
    ensures
        ({
            let after = offered_to_all(start, peers, filename, data, now);
            &&& only_sealed(s, after)
            &&& given_out(s, after)
            &&& after.sessions == s.sessions
            &&& after.next_file_id == start.next_file_id + peers.len()
            &&& after.next_request <= start.next_request + peers.len()
            &&& forall|j: int|
                0 <= j < peers.len() ==> is_invited(
                    s,
                    after,
                    (start.next_file_id + j) as u64,
                    #[trigger] peers[j],
                    filename,
                    data,
                )
            &&& forall|id: u64|
                id < start.next_file_id ==> #[trigger] lookup(after.outgoing_files, id) == lookup(
                    start.outgoing_files,
                    id,
                )
            &&& forall|other: Seq<char>|
                !peers.contains(other) ==> #[trigger] lookup(after.peers, other) == lookup(
                    start.peers,
                    other,
                )
        }),
    decreases peers.len(),
{
    if peers.len() > 0 {
        let front = peers.drop_last();
        let peer = peers.last();
        assert(front.no_duplicates());
        lemma_all_invited(s, start, front, filename, data, now);
        let mid = offered_to_all(start, front, filename, data, now);
        let after = offered_to_all(start, peers, filename, data, now);
        let id = mid.next_file_id;
        let t = offered_transfer(peer, id, filename, data);
        lemma_lookup_put(mid.outgoing_files, id, t, id);
        law_chunks_make_the_file(data);
        let s1 = with_transfer(StateModel { next_file_id: (id + 1) as u64, ..mid }, id, t);
        if has(mid.sessions, peer) {
            let key = at(mid.sessions, peer);
            let offer = FileMsgModel::Offer {
                file_id: id,
                filename,
                size: data.len() as u64,
                total: chunks_of(data).len() as u32,
                file_hash: hex_text(sha256_digest(data)),
            };
            let effect = EffectModel::SendFile {
                request: mid.next_request,
                peer,
                key,
                msg: offer,
            };
            let s2 = posted(s1, peer, key, offer, Some((id, OutboundReq::Offer)));
            law_file_event_is_noted(
                s2,
                peer,
                true,
                filename,
                "我正在发送 "@ + filename + " 给 "@ + nickname_of(mid, peer),
                now,
            );
            let text = "我正在发送 "@ + filename + " 给 "@ + nickname_of(mid, peer);
            let n = "我正在发送 "@.len() as int;
            assert(text.subrange(n, n + filename.len()) =~= filename);
            assert(stands_at(filename, text, n));
            lemma_sealed_push(s, mid, effect);
            assert(after.effects == mid.effects.push(effect));
            lemma_lookup_put(
                mid.file_outstanding,
                mid.next_request,
                (id, OutboundReq::Offer),
                mid.next_request,
            );
            assert(is_sending(
                s,
                after,
                after.effects[mid.effects.len() as int],
                t,
                OutboundReq::Offer,
                offer,
            ));
        } else {
            assert(after == s1);
        }
        assert(is_invited(s, after, id, peer, filename, data));
        assert forall|j: int| 0 <= j < peers.len() implies is_invited(
            s,
            after,
            (start.next_file_id + j) as u64,
            #[trigger] peers[j],
            filename,
            data,
        ) by {
            if j < front.len() {
                assert(front[j] == peers[j]);
                assert(peers[j] != peers[peers.len() - 1]);
                lemma_invited_on(
                    s,
                    mid,
                    peer,
                    (start.next_file_id + j) as u64,
                    peers[j],
                    filename,
                    data,
                    now,
                );
            }
        }
        assert forall|i: u64| i < start.next_file_id implies #[trigger] lookup(
            after.outgoing_files,
            i,
        ) == lookup(start.outgoing_files, i) by {
            lemma_lookup_put(mid.outgoing_files, id, t, i);
            assert(lookup(mid.outgoing_files, i) == lookup(start.outgoing_files, i));
        }
        assert forall|other: Seq<char>| !peers.contains(other) implies #[trigger] lookup(
            after.peers,
            other,
        ) == lookup(start.peers, other) by {
            assert(peers[peers.len() - 1] == peer);
            assert(other != peer);
            if front.contains(other) {
                let k = choose|k: int| 0 <= k < front.len() && front[k] == other;
                assert(peers[k] == other);
            }
            assert(lookup(mid.peers, other) == lookup(start.peers, other));
        }
    }
}

/// A file that is sent is offered to everybody connected, each under an id of its own: nobody is
/// left out, and everybody with a session is invited to the whole file under the key agreed with
/// them. Transfers that were there before stay as they were, and nobody else's conversation is
/// touched.
pub proof fn law_everybody_is_invited(
    s: StateModel,
    path: Seq<char>,
    filename: Seq<char>,
    data: Seq<u8>,
    now: NowModel,
)
    requires
        distinct(s.connected),
        s.next_file_id + s.connected.len() <= u64::MAX,
        s.next_request + s.connected.len() <= u64::MAX,
        chunks_of(data).len() <= u32::MAX,
    ensures
        ({
            let after = offered(s, path, filename, data, now);
            &&& only_sealed(s, after)
            &&& forall|j: int|
                0 <= j < s.connected.len() ==> is_invited(
                    s,
                    after,
                    (s.next_file_id + j) as u64,
                    (#[trigger] s.connected[j]).0,
                    filename,
                    data,
                )
            &&& forall|id: u64|
                id < s.next_file_id ==> #[trigger] lookup(after.outgoing_files, id) == lookup(
                    s.outgoing_files,
                    id,
                )
            &&& forall|other: Seq<char>|
                !(has(s.connected, other)) ==> #[trigger] lookup(after.peers, other) == lookup(
                    s.peers,
                    other,
                )
        }),
        s.connected.len() > 0 ==> sending_file(s, path, filename, Ok(data), now) == offered(
            s,
            path,
            filename,
            data,
            now,
        ),
        s.connected.len() == 0 ==> sending_file(s, path, filename, Ok(data), now).outgoing_files
            == s.outgoing_files && only_sealed(s, sending_file(s, path, filename, Ok(data), now)),
        forall|error: Seq<char>| #[trigger]
            sending_file(s, path, filename, Err(error), now).outgoing_files == s.outgoing_files,
{
    let line = "[文件] 已读入 "@ + path + "："@ + decimal(data.len())
        + " 字节，切为 "@ + decimal(chunks_of(data).len()) + " 片"@;
    let start = noticed(logged(s, line), "正在发送文件："@ + filename);
    let peers = keys(s.connected);
    lemma_sealed_same(s);
    lemma_sealed_logged(s, s, line);
    lemma_sealed_alike(s, s, logged(s, line), start);
    lemma_sealed_logged(s, s, "[文件] 当前没有任何已连接的节点，无法发送"@);
    assert(given_out(s, start));
    assert forall|i: int, j: int| 0 <= i < j < peers.len() implies peers[i] != peers[j] by {
        assert(s.connected[i].0 != s.connected[j].0);
    }
    lemma_all_invited(s, start, peers, filename, data, now);
    let after = offered(s, path, filename, data, now);
    assert forall|j: int| 0 <= j < s.connected.len() implies is_invited(
        s,
        after,
        (s.next_file_id + j) as u64,
        (#[trigger] s.connected[j]).0,
        filename,
        data,
    ) by {
        assert(peers[j] == s.connected[j].0);
    }
    assert forall|other: Seq<char>| !(has(s.connected, other)) implies #[trigger] lookup(
        after.peers,
        other,
    ) == lookup(s.peers, other) by {
        if peers.contains(other) {
            let k = choose|k: int| 0 <= k < peers.len() && peers[k] == other;
            assert(s.connected[k].0 == other);
        }
    }
}

/// An invitation waits for the user's decision, behind those that were there, with the name and the
/// size that it tells; the conversation with its sender says so, as the sender's doing; and it is
/// answered that it has arrived, which is no consent: nothing is sent. No other peer's invitations
/// are touched.
pub proof fn law_invitation_waits(
    s: StateModel,
    peer: Seq<char>,
    file_id: u64,
    filename: Seq<char>,
    size: u64,
    total: u32,
    file_hash: Seq<char>,
    now: NowModel,
    other: Seq<char>,
)
    ensures
        ({
            let msg = FileMsgModel::Offer { file_id, filename, size, total, file_hash };
            let after = after_message(s, peer, msg, now);
            let before = match lookup(s.pending_offers, peer) {
                Some(list) => list,
                None => Seq::empty(),
            };
            &&& lookup(after.pending_offers, peer) == Some(
                before.push(OfferModel { file_id, filename, size }),
            )
            &&& other != peer ==> lookup(after.pending_offers, other) == lookup(
                s.pending_offers,
                other,
            )
            &&& lookup(after.peers, peer) matches Some(info) && info.records.len() > 0
                && info.records.last().kind == "file"@ && !info.records.last().outbound
                && info.records.last().name == filename && occurs_in(
                filename,
                info.records.last().text,
            )
            &&& other != peer ==> lookup(after.peers, other) == lookup(s.peers, other)
            &&& called_for(s, msg) == StepModel::Reply(
                FileRespModel::OfferReply { file_id, ok: true },
            )
            &&& after.incoming_files == s.incoming_files && after.outgoing_files
                == s.outgoing_files && after.next_request == s.next_request
        }),
{
    let before = if has(s.pending_offers, peer) {
        at(s.pending_offers, peer)
    } else {
        Seq::empty()
    };
    let offer = OfferModel { file_id, filename, size };
    lemma_lookup_put(s.pending_offers, peer, before.push(offer), peer);
    lemma_lookup_put(s.pending_offers, peer, before.push(offer), other);
    let s1 = logged(
        StateModel { pending_offers: put(s.pending_offers, peer, before.push(offer)), ..s },
        "[文件] "@ + peer + " 想发送文件："@ + filename + "（"@ + decimal(size as nat)
            + " 字节）"@,
    );
    let text = "[文件] 对方想给你发送："@ + filename + "（"@ + decimal(size as nat)
        + " 字节）→ 请点击【接受】"@;
    law_file_event_is_noted(s1, peer, false, filename, text, now);
    let n = "[文件] 对方想给你发送："@.len();
    assert(text.subrange(n as int, (n + filename.len()) as int) =~= filename);
    assert(stands_at(filename, text, n as int));
    assert(s1.peers == s.peers);
    let after = after_offer(s, peer, file_id, filename, size, now);
    assert(other != peer ==> lookup(after.peers, other) == lookup(s1.peers, other));
}

/// The user's decision is told to the peer who invited, under the key agreed with that peer, and is
/// the decision about that file; the invitation is gone and no other; the conversation says so.
/// Without a session nothing is sent, and the invitation stays.
pub proof fn law_decision_is_told(s: StateModel, peer: Seq<char>, file_id: u64, now: NowModel)
    requires
        s.next_request < u64::MAX,
    ensures
        has(s.sessions, peer) ==> {
            &&& accepted(s, peer, file_id, now).effects == s.effects.push(
                EffectModel::SendFile {
                    request: s.next_request,
                    peer,
                    key: lookup(s.sessions, peer)->Some_0,
                    msg: FileMsgModel::OfferAccept { file_id },
                },
            )
            &&& rejected(s, peer, file_id, now).effects == s.effects.push(
                EffectModel::SendFile {
                    request: s.next_request,
                    peer,
                    key: lookup(s.sessions, peer)->Some_0,
                    msg: FileMsgModel::OfferReject { file_id },
                },
            )
            &&& accepted(s, peer, file_id, now).pending_offers == decided(
                s,
                peer,
                file_id,
            ).pending_offers
            &&& rejected(s, peer, file_id, now).pending_offers == decided(
                s,
                peer,
                file_id,
            ).pending_offers
            &&& lookup(accepted(s, peer, file_id, now).peers, peer) matches Some(info)
                && info.records.len() > 0 && info.records.last().kind == "file"@
                && !info.records.last().outbound && info.records.last().text
                == "[文件] 你已接受该文件，等待接收…"@
            &&& lookup(rejected(s, peer, file_id, now).peers, peer) matches Some(info)
                && info.records.len() > 0 && info.records.last().kind == "file"@
                && !info.records.last().outbound && info.records.last().text
                == "[文件] 你已拒绝该文件"@
        },
        !(has(s.sessions, peer)) ==> {
            &&& accepted(s, peer, file_id, now).pending_offers == s.pending_offers
            &&& accepted(s, peer, file_id, now).next_request == s.next_request
            &&& rejected(s, peer, file_id, now) == s
        },
        only_sealed(s, accepted(s, peer, file_id, now)),
        only_sealed(s, rejected(s, peer, file_id, now)),
{
    let s1 = decided(s, peer, file_id);
    let name = decimal(file_id as nat);
    law_file_event_is_noted(
        s1,
        peer,
        false,
        name,
        "[文件] 你已接受该文件，等待接收…"@,
        now,
    );
    law_file_event_is_noted(s1, peer, false, name, "[文件] 你已拒绝该文件"@, now);
    lemma_sealed_same(s);
    if has(s.sessions, peer) {
        let key = at(s.sessions, peer);
        let request = s.next_request;
        let accept = EffectModel::SendFile {
            request,
            peer,
            key,
            msg: FileMsgModel::OfferAccept { file_id },
        };
        let reject = EffectModel::SendFile {
            request,
            peer,
            key,
            msg: FileMsgModel::OfferReject { file_id },
        };
        lemma_sealed_push(s, s, accept);
        lemma_sealed_push(s, s, reject);
        lemma_sealed_alike(
            s,
            s,
            StateModel { effects: s.effects.push(accept), ..s },
            accepted(s, peer, file_id, now),
        );
        lemma_sealed_alike(
            s,
            s,
            StateModel { effects: s.effects.push(reject), ..s },
            rejected(s, peer, file_id, now),
        );
    } else {
        lemma_sealed_logged(s, s, "[文件] 尚无法接受（未完成密钥协商）"@);
    }
}

/// A decision touches the invitations of that peer only, and drops those for that file only, in
/// whatever way it comes.
pub proof fn law_other_invitations_stay(
    s: StateModel,
    peer: Seq<char>,
    file_id: u64,
    other: Seq<char>,
)
    requires
        other != peer,
    ensures
        lookup(decided(s, peer, file_id).pending_offers, other) == lookup(s.pending_offers, other),
        decided(s, peer, file_id).peers == s.peers,
        decided(s, peer, file_id).effects == s.effects,
{
    if has(s.pending_offers, peer) {
        lemma_lookup_put(
            s.pending_offers,
            peer,
            at(s.pending_offers, peer).filter(not_for(file_id)),
            other,
        );
    }
}

/// An acceptance counts exactly for a file that was offered and not yet decided on, is answered
/// with whether it counts, and lets that transfer, and no other, begin; one that does not count
/// changes nothing.
pub proof fn law_acceptance_begins(
    s: StateModel,
    peer: Seq<char>,
    file_id: u64,
    now: NowModel,
    other: u64,
)
    ensures
        ({
            let msg = FileMsgModel::OfferAccept { file_id };
            let counts = lookup(s.outgoing_files, file_id) matches Some(t) && t.phase
                == Phase::Offering;
            &&& called_for(s, msg) == StepModel::Reply(
                FileRespModel::OfferReply { file_id, ok: counts },
            )
            &&& !counts ==> after_message(s, peer, msg, now) == s
            &&& counts ==> {
                &&& lookup(begun(s, peer, file_id).outgoing_files, file_id) matches Some(t) && t.phase
                    == Phase::Sending && t.pending == at(s.outgoing_files, file_id).pending
                    && t.chunks == at(s.outgoing_files, file_id).chunks && t.peer == at(
                    s.outgoing_files,
                    file_id,
                ).peer
                &&& other != file_id ==> lookup(begun(s, peer, file_id).outgoing_files, other)
                    == lookup(s.outgoing_files, other)
                &&& after_message(s, peer, msg, now) == driven(begun(s, peer, file_id))
            }
        }),
{
    let t = TransferModel { phase: Phase::Sending, ..at(s.outgoing_files, file_id) };
    lemma_lookup_put(s.outgoing_files, file_id, t, file_id);
    lemma_lookup_put(s.outgoing_files, file_id, t, other);
}

/// A refusal is answered, is said in the conversation with the peer, and ends that transfer only.
pub proof fn law_refusal_is_noted(s: StateModel, peer: Seq<char>, file_id: u64, now: NowModel)
    requires
        has(s.outgoing_files, file_id),
    ensures
        ({
            let msg = FileMsgModel::OfferReject { file_id };
            let after = after_message(s, peer, msg, now);
            &&& called_for(s, msg) == StepModel::Reply(
                FileRespModel::OfferReply { file_id, ok: false },
            )
            &&& lookup(after.outgoing_files, file_id) is None
            &&& lookup(after.peers, peer) matches Some(info) && info.records.len() > 0
                && info.records.last().kind == "file"@ && info.records.last().outbound
                && info.records.last().name == at(s.outgoing_files, file_id).filename
                && info.records.last().text == "[文件] 对方拒绝了该文件发送"@
            &&& only_sealed(s, after)
        }),
{
    let line = "[文件] "@ + peer + " 拒绝了文件 "@ + decimal(file_id as nat);
    law_file_event_is_noted(
        logged(s, line),
        peer,
        true,
        at(s.outgoing_files, file_id).filename,
        "[文件] 对方拒绝了该文件发送"@,
        now,
    );
    lemma_lookup_without(s.outgoing_files, file_id, file_id);
    lemma_sealed_same(s);
    lemma_sealed_logged(s, s, line);
    lemma_sealed_alike(s, s, logged(s, line), after_reject(s, peer, file_id, now));
}

/// A chunk that comes is kept under its index, beside those that have come, whatever has come
/// before, and is acknowledged under its file and index; the name and the number of chunks are
/// those of the first chunk. No other file is touched.
pub proof fn law_chunk_is_kept(
    s: StateModel,
    peer: Seq<char>,
    file_id: u64,
    filename: Seq<char>,
    total: u32,
    index: u32,
    data: Seq<char>,
    now: NowModel,
    other: u64,
)
    requires
        base64_outcome(data) is Ok,
    ensures
        ({
            let msg = FileMsgModel::Chunk { file_id, filename, total, index, data };
            let after = after_message(s, peer, msg, now);
            &&& lookup(after.incoming_files, file_id) matches Some(inc) && {
                &&& inc.chunks.dom().contains(index)
                &&& base64_outcome(data) == Decoded::Ok(inc.chunks[index])
                &&& forall|i: u32|
                    i != index ==> (#[trigger] inc.chunks.dom().contains(i) <==> arrived(
                        s,
                        file_id,
                    ).contains(i))
                &&& lookup(s.incoming_files, file_id) matches Some(before) ==> inc.filename
                    == before.filename && inc.total == before.total && forall|i: u32|
                    i != index && before.chunks.dom().contains(i) ==> #[trigger] inc.chunks[i]
                        == before.chunks[i]
                &&& lookup(s.incoming_files, file_id) is None ==> inc.filename == filename
                    && inc.total == total
            }
            &&& other != file_id ==> lookup(after.incoming_files, other) == lookup(
                s.incoming_files,
                other,
            )
            &&& called_for(s, msg) == StepModel::Reply(FileRespModel::ChunkAck { file_id, index })
            &&& after.effects == s.effects && after.peers == s.peers
        }),
{
    let inc = incoming_of(s, file_id, filename, total);
    let more = IncomingModel {
        chunks: inc.chunks.insert(index, base64_outcome(data)->Ok_0),
        ..inc
    };
    lemma_lookup_put(s.incoming_files, file_id, more, file_id);
    lemma_lookup_put(s.incoming_files, file_id, more, other);
}

/// The question what is missing is answered with exactly the indices below the number asked for
/// that have not come, each once and in order, and changes nothing.
pub proof fn law_missing_is_answered(
    s: StateModel,
    peer: Seq<char>,
    file_id: u64,
    total: u32,
    now: NowModel,
)
    ensures
        ({
            let msg = FileMsgModel::Check { file_id, total };
            &&& after_message(s, peer, msg, now) == s
            &&& called_for(s, msg) matches StepModel::Reply(
                FileRespModel::Missing { file_id: id, missing },
            ) && {
                &&& id == file_id
                &&& forall|i: u32| #[trigger]
                    missing.contains(i) <==> i < total && !(lookup(
                        s.incoming_files,
                        file_id,
                    ) matches Some(inc) && inc.chunks.dom().contains(i))
            }
        }),
{
    law_missing(arrived(s, file_id), total);
}

/// The end of a reception is said in the conversation with the sender, as the sender's doing, with
/// the reason, or with where the file is.
pub proof fn law_reception_is_noted(
    s: StateModel,
    peer: Seq<char>,
    file: ReadyModel,
    error: Option<StoreErrorModel>,
    now: NowModel,
)
    ensures
        ({
            let after = after_storing(s, peer, file, error, now);
            &&& lookup(after.peers, peer) matches Some(info) && info.records.len() > 0
                && info.records.last().kind == "file"@ && !info.records.last().outbound
                && info.records.last().name == file.filename && occurs_in(
                stored_msg(file, error),
                info.records.last().text,
            )
            &&& error is None ==> occurs_in(file.path, stored_msg(file, error))
            &&& error matches Some(StoreErrorModel::Write(e)) ==> occurs_in(
                e,
                stored_msg(file, error),
            )
            &&& error matches Some(StoreErrorModel::Directory(e)) ==> occurs_in(
                e,
                stored_msg(file, error),
            )
            &&& lookup(after.incoming_files, file.file_id) is None
            &&& error is Some ==> is_bad_news(at(after.peers, peer).records.last().text)
            &&& error is None ==> occurs_in("成功"@, at(after.peers, peer).records.last().text)
            &&& s.tui_enabled && s.logs.len() + 2 <= HISTORY ==> after.logs.len() == s.logs.len()
                + (if error is None {
                2int
            } else {
                1
            })
        }),
{
    let msg = stored_msg(file, error);
    let s1 = if error is None {
        logged(
            s,
            "[文件] 签收完成："@ + file.path + "（"@ + decimal(file.data.len())
                + " 字节）"@,
        )
    } else {
        s
    };
    let text = received_text(error is None, file.filename, msg);
    let s2 = decided(s1, peer, file.file_id);
    law_file_event_is_noted(
        logged(
            StateModel { incoming_files: without(s2.incoming_files, file.file_id), ..s2 },
            text,
        ),
        peer,
        false,
        file.filename,
        text,
        now,
    );
    lemma_lookup_without(s.incoming_files, file.file_id, file.file_id);
    let n = text.len() - msg.len();
    assert(text.subrange(n, n + msg.len()) =~= msg);
    assert(stands_at(msg, text, n));
    reveal_strlit("[文件] 接收失败：");
    reveal_strlit("[文件] 接收成功（");
    reveal_strlit("失败");
    reveal_strlit("成功");
    if error is None {
        assert(text.subrange(7, 9) =~= "成功"@);
        assert(stands_at("成功"@, text, 7));
    } else {
        assert(text.subrange(7, 9) =~= "失败"@);
        assert(stands_at("失败"@, text, 7));
    }
    match error {
        None => {
            let k = "完整收到并已保存为 "@.len();
            assert(msg.subrange(k as int, (k + file.path.len()) as int) =~= file.path);
            assert(stands_at(file.path, msg, k as int));
        },
        Some(StoreErrorModel::Write(e)) => {
            let k = msg.len() - e.len();
            assert(msg.subrange(k, k + e.len()) =~= e);
            assert(stands_at(e, msg, k));
        },
        Some(StoreErrorModel::Directory(e)) => {
            let k = msg.len() - e.len();
            assert(msg.subrange(k, k + e.len()) =~= e);
            assert(stands_at(e, msg, k));
        },
    }
}

/// An acknowledgement makes room for one more chunk of that transfer, and of no other, and is
/// waited for no longer; one that an invitation has arrived touches no transfer.
pub proof fn law_acknowledgement_makes_room(
    s: StateModel,
    request: u64,
    file_id: u64,
    index: u32,
    ok: bool,
    now: NowModel,
    other: u64,
)
    ensures
        ({
            let after = after_response(s, request, FileRespModel::ChunkAck { file_id, index }, now);
            &&& lookup(s.outgoing_files, file_id) matches Some(t) ==> (lookup(
                after.outgoing_files,
                file_id,
            ) matches Some(next) && next.in_flight == (if t.in_flight > 0 {
                t.in_flight - 1
            } else {
                0
            }) && next.pending == t.pending && next.chunks == t.chunks && next.phase == t.phase
                && next.peer == t.peer && next.checked == t.checked)
            &&& other != file_id ==> lookup(after.outgoing_files, other) == lookup(
                s.outgoing_files,
                other,
            )
            &&& lookup(after.file_outstanding, request) is None
            &&& after.effects == s.effects && after.peers == s.peers
        }),
        ({
            let after = after_response(s, request, FileRespModel::OfferReply { file_id, ok }, now);
            &&& after.outgoing_files == s.outgoing_files
            &&& lookup(after.file_outstanding, request) is None
            &&& after.effects == s.effects && after.peers == s.peers
        }),
{
    lemma_lookup_without(s.file_outstanding, request, request);
    if has(s.outgoing_files, file_id) {
        let t = at(s.outgoing_files, file_id);
        let left = if t.in_flight > 0 {
            (t.in_flight - 1) as nat
        } else {
            0
        };
        let next = TransferModel { in_flight: left, ..t };
        lemma_lookup_put(s.outgoing_files, file_id, next, file_id);
        lemma_lookup_put(s.outgoing_files, file_id, next, other);
    }
}

/// How a transfer ended is said in the conversation with its receiver, with the receiver's words
/// and whether it succeeded, as this node's doing; the transfer is over, and no other.
pub proof fn law_result_is_noted(
    s: StateModel,
    request: u64,
    file_id: u64,
    ok: bool,
    msg: Seq<char>,
    now: NowModel,
    other: u64,
)
    ensures
        ({
            let after = after_response(s, request, FileRespModel::Result { file_id, ok, msg }, now);
            &&& lookup(s.outgoing_files, file_id) matches Some(t) ==> (lookup(
                after.peers,
                t.peer,
            ) matches Some(info) && info.records.len() > 0 && info.records.last().kind == "file"@
                && info.records.last().outbound && info.records.last().name == t.filename && occurs_in(
                msg,
                info.records.last().text,
            ) && occurs_in(
                if ok {
                    "成功"@
                } else {
                    "失败"@
                },
                info.records.last().text,
            ))
            &&& lookup(after.outgoing_files, other) == (if other == file_id {
                None
            } else {
                lookup(s.outgoing_files, other)
            })
            &&& only_sealed(s, after)
        }),
{
    let text = result_text(file_id, ok, msg);
    if has(s.outgoing_files, file_id) {
        let t = at(s.outgoing_files, file_id);
        law_file_event_is_noted(logged(s, text), t.peer, true, t.filename, text, now);
    }
    lemma_lookup_without(s.outgoing_files, file_id, other);
    let n = text.len() - msg.len();
    assert(text.subrange(n, n + msg.len()) =~= msg);
    assert(stands_at(msg, text, n));
    let word = if ok {
        "成功"@
    } else {
        "失败"@
    };
    let k = ("[文件] 传输 "@ + decimal(file_id as nat) + " "@).len() as int;
    assert(text.subrange(k, k + word.len()) =~= word);
    assert(stands_at(word, text, k));
    lemma_sealed_same(s);
    lemma_sealed_logged(s, s, text);
    lemma_sealed_alike(
        s,
        s,
        logged(s, text),
        after_response(s, request, FileRespModel::Result { file_id, ok, msg }, now),
    );
}

/// What got lost concerns its own transfer only; an invitation that got lost is said in the
/// conversation with the peer.
pub proof fn law_loss_concerns_one(s: StateModel, request: u64, now: NowModel, other: u64)
    requires
        has(s.file_outstanding, request),
        has(s.outgoing_files, at(s.file_outstanding, request).0),
        other != at(s.file_outstanding, request).0,
    ensures
        ({
            let (file_id, about) = at(s.file_outstanding, request);
            let t = at(s.outgoing_files, file_id);
            let after = after_failure(s, request, now);
            &&& lookup(after.outgoing_files, other) == lookup(s.outgoing_files, other)
            &&& about == OutboundReq::Offer ==> (lookup(after.peers, t.peer) matches Some(info)
                && info.records.len() > 0 && info.records.last().kind == "file"@
                && info.records.last().outbound && info.records.last().name == t.filename)
            &&& about != OutboundReq::Offer ==> after.peers == s.peers
        }),
{
    let (file_id, about) = at(s.file_outstanding, request);
    let t = at(s.outgoing_files, file_id);
    let s1 = StateModel { file_outstanding: without(s.file_outstanding, request), ..s };
    match about {
        OutboundReq::Offer => {
            lemma_lookup_without(s.outgoing_files, file_id, other);
            law_file_event_is_noted(
                logged(
                    s1,
                    "[文件] 邀请(传输 "@ + decimal(file_id as nat)
                        + ") 失败：对方无应答"@,
                ),
                t.peer,
                true,
                t.filename,
                "[文件] 发送邀请失败（对方无应答）"@,
                now,
            );
        },
        OutboundReq::Chunk(index) => {
            let next = TransferModel {
                pending: t.pending.push(index),
                in_flight: if t.in_flight > 0 {
                    (t.in_flight - 1) as nat
                } else {
                    0
                },
                phase: Phase::Sending,
                ..t
            };
            lemma_lookup_put(s.outgoing_files, file_id, next, other);
        },
        OutboundReq::Check | OutboundReq::Done => {
            let next = TransferModel { checked: false, phase: Phase::Sending, ..t };
            lemma_lookup_put(s.outgoing_files, file_id, next, other);
        },
    }
}

/// A file request that was not read is refused, whatever it held, and changes neither transfers nor
/// conversations.
pub proof fn law_unread_request_is_refused(
    s: StateModel,
    peer: Seq<char>,
    request: RequestModel<FileMsgModel>,
    now: NowModel,
)
    requires
        !(request is Message),
    ensures
        step_of(s, request) matches StepModel::Reply(FileRespModel::Result { file_id, ok, msg })
            && !ok,
        after_request(s, peer, request, now).outgoing_files == s.outgoing_files,
        after_request(s, peer, request, now).incoming_files == s.incoming_files,
        after_request(s, peer, request, now).pending_offers == s.pending_offers,
        after_request(s, peer, request, now).peers == s.peers,
        only_sealed(s, after_request(s, peer, request, now)),
{
    lemma_sealed_same(s);
    if let RequestModel::Unreadable(error) = request {
        lemma_sealed_logged(s, s, "[文件] 收到无法通过完整性校验的消息: "@ + error);
    }
}

/// When a peer leaves, what breaks off is exactly what was on its way to that peer and not done.
pub proof fn law_leaving_breaks_off(
    s: StateModel,
    peer: Seq<char>,
    now: NowModel,
    id: u64,
)
    requires
        distinct(s.outgoing_files),
    ensures
        match lookup(s.outgoing_files, id) {
            None => lookup(after_disconnect(s, peer, now).outgoing_files, id) is None,
            Some(t) => lookup(after_disconnect(s, peer, now).outgoing_files, id) == (if t.peer == peer
                && t.phase != Phase::Done {
                None
            } else {
                Some(t)
            }),
        },
{
    law_disconnect_fails_transfers(s, peer, now, id);
}

/// Whatever a file message from a peer makes this node send, it is sealed for whom it is sent to.
pub proof fn law_requests_are_sealed(
    s: StateModel,
    peer: Seq<char>,
    request: RequestModel<FileMsgModel>,
    now: NowModel,
)
    requires
        numbered(s),
    ensures
        only_sealed(s, after_request(s, peer, request, now)),
{
    lemma_sealed_same(s);
    match request {
        RequestModel::Message(msg) => {
            match msg {
                FileMsgModel::OfferAccept { file_id } => {
                    if awaits(s, file_id) {
                        let line = "[文件] "@ + peer + " 已接受文件，开始发送…"@;
                        let s1 = begun(s, peer, file_id);
                        lemma_has(s.outgoing_files, file_id);
                        assert(s1.outgoing_files.len() == s.outgoing_files.len());
                        law_transfers_are_served(s1);
                        lemma_sealed_logged(s, s, line);
                        lemma_sealed_alike(s, s, logged(s, line), s1);
                        lemma_sealed_then(s, s1, driven(s1));
                    }
                },
                FileMsgModel::OfferReject { file_id } => {
                    if has(s.outgoing_files, file_id) {
                        law_refusal_is_noted(s, peer, file_id, now);
                    } else {
                        lemma_sealed_alike(s, s, s, after_reject(s, peer, file_id, now));
                    }
                },
                FileMsgModel::Offer { file_id, filename, size, total, file_hash } => {
                    let line = "[文件] "@ + peer + " 想发送文件："@ + filename + "（"@ + decimal(
                        size as nat,
                    ) + " 字节）"@;
                    lemma_sealed_logged(s, s, line);
                    lemma_sealed_alike(
                        s,
                        s,
                        logged(s, line),
                        after_offer(s, peer, file_id, filename, size, now),
                    );
                },
                FileMsgModel::Chunk { file_id, filename, total, index, data } => {
                    lemma_sealed_alike(s, s, s, after_message(s, peer, msg, now));
                },
                FileMsgModel::Check { file_id, total } => {},
                FileMsgModel::Done { file_id, filename, total, file_hash } => {
                    if let Err(why) = verdict(s, file_id, filename, file_hash) {
                        let text = received_text(false, filename, why);
                        lemma_sealed_logged(s, s, text);
                        lemma_sealed_alike(
                            s,
                            s,
                            logged(s, text),
                            after_message(s, peer, msg, now),
                        );
                    }
                },
            }
        },
        _ => {
            law_unread_request_is_refused(s, peer, request, now);
        },
    }
}

/// Whatever a reply makes this node send, it is sealed for whom it is sent to.
pub proof fn law_replies_are_sealed(
    s: StateModel,
    reply_to: u64,
    response: FileRespModel,
    now: NowModel,
)
    requires
        s.next_request < u64::MAX,
    ensures
        only_sealed(s, after_response(s, reply_to, response, now)),
{
    lemma_sealed_same(s);
    match response {
        FileRespModel::Result { file_id, ok, msg } => {
            law_result_is_noted(s, reply_to, file_id, ok, msg, now, file_id);
        },
        FileRespModel::Missing { file_id, missing } => {
            let after = after_missing(s, file_id, missing);
            if has(s.outgoing_files, file_id) {
                let t = at(s.outgoing_files, file_id);
                if missing.len() == 0 {
                    if has(s.sessions, t.peer) {
                        let effect = EffectModel::SendFile {
                            request: s.next_request,
                            peer: t.peer,
                            key: at(s.sessions, t.peer),
                            msg: FileMsgModel::Done {
                                file_id,
                                filename: t.filename,
                                total: t.chunks.len() as u32,
                                file_hash: t.file_hash,
                            },
                        };
                        lemma_sealed_push(s, s, effect);
                        lemma_sealed_alike(
                            s,
                            s,
                            StateModel { effects: s.effects.push(effect), ..s },
                            after,
                        );
                    } else {
                        lemma_sealed_alike(s, s, s, after);
                    }
                } else {
                    let line = "[文件] 传输 "@ + decimal(file_id as nat) + " 缺失 "@ + decimal(
                        missing.len(),
                    ) + " 个分片，正在重发…"@;
                    lemma_sealed_logged(s, s, line);
                    lemma_sealed_alike(s, s, logged(s, line), after);
                }
            }
        },
        _ => {
            lemma_sealed_alike(s, s, s, after_response(s, reply_to, response, now));
        },
    }
}

/// What got lost makes this node send nothing at once.
pub proof fn law_losses_are_sealed(s: StateModel, reply_to: u64, now: NowModel)
    ensures
        only_sealed(s, after_failure(s, reply_to, now)),
{
    lemma_sealed_same(s);
    if has(s.file_outstanding, reply_to) && has(
        s.outgoing_files,
        at(s.file_outstanding, reply_to).0,
    ) {
        let (file_id, about) = at(s.file_outstanding, reply_to);
        let line = match about {
            OutboundReq::Offer => "[文件] 邀请(传输 "@ + decimal(file_id as nat)
                + ") 失败：对方无应答"@,
            OutboundReq::Chunk(index) => "[文件] 分片 "@ + decimal(index as nat)
                + " 发送失败，待重发"@,
            _ => Seq::empty(),
        };
        lemma_sealed_logged(s, s, line);
        if about is Offer || about is Chunk {
            lemma_sealed_alike(s, s, logged(s, line), after_failure(s, reply_to, now));
        } else {
            lemma_sealed_alike(s, s, s, after_failure(s, reply_to, now));
        }
    } else {
        lemma_sealed_alike(s, s, s, after_failure(s, reply_to, now));
    }
}

proof fn lemma_sealed_then(s: StateModel, mid: StateModel, after: StateModel)
    requires
        only_sealed(s, mid),
        only_sealed(mid, after),
        mid.sessions == s.sessions,
    ensures
        only_sealed(s, after),
{
    assert(after.effects.take(s.effects.len() as int) =~= mid.effects.take(
        s.effects.len() as int,
    )) by {
        assert forall|e: int| 0 <= e < s.effects.len() implies after.effects[e]
            == mid.effects[e] by {
            assert(after.effects.take(mid.effects.len() as int)[e] == mid.effects[e]);
        }
    }
    assert forall|e: int| s.effects.len() <= e < after.effects.len() implies (
    #[trigger] after.effects[e] matches EffectModel::SendFile { request, peer, key, msg } ==> lookup(
        s.sessions,
        peer,
    ) == Some(key)) by {
        if e < mid.effects.len() {
            assert(after.effects[e] == after.effects.take(mid.effects.len() as int)[e]);
            assert(mid.effects[e] == after.effects[e]);
        }
    }
}

/// One of the records, from a position on, is the end of the transfer of a file, as this node's
/// doing, and bad news.
pub open spec fn tells_of_end(records: Seq<RecordModel>, from: int, filename: Seq<char>) -> bool {
    exists|i: int|
        from <= i < records.len() && (#[trigger] records[i]).kind == "file"@ && records[i].outbound
            && records[i].name == filename && is_bad_news(records[i].text)
}

proof fn lemma_reported_all(s: StateModel, peer: Seq<char>, n: nat, now: NowModel)
    requires
        n <= s.outgoing_files.len(),
        peer_of(s, peer).records.len() + n <= HISTORY,
    ensures
        ({
            let before = peer_of(s, peer).records;
            let records = peer_of(reported(s, peer, n, now), peer).records;
            &&& before.len() <= records.len() <= before.len() + n
            &&& records.take(before.len() as int) == before
            &&& forall|k: int|
                0 <= k < n && (#[trigger] s.outgoing_files[k]).1.peer == peer
                    && s.outgoing_files[k].1.phase != Phase::Done ==> tells_of_end(
                    records,
                    before.len() as int,
                    s.outgoing_files[k].1.filename,
                )
        }),
    decreases n,
{
    let before = peer_of(s, peer).records;
    if n == 0 {
        assert(before.take(before.len() as int) =~= before);
    } else {
        lemma_reported_all(s, peer, (n - 1) as nat, now);
        let s1 = reported(s, peer, (n - 1) as nat, now);
        let entry = s.outgoing_files[n - 1];
        let early = peer_of(s1, peer).records;
        let records = peer_of(reported(s, peer, n, now), peer).records;
        if breaks_off(entry.1, peer) {
            let text = "[文件] 传输中断（连接断开），标记为失败"@;
            let s2 = logged(
                s1,
                "[文件] 与 "@ + peer + " 连接中断，传输 "@ + decimal(entry.0 as nat)
                    + " 标记为失败"@,
            );
            assert(s2.peers == s1.peers);
            let ts = stamp(s2, now);
            let record = file_record(true, entry.1.filename, text, ts, now.time);
            law_history_is_bounded(stamped(s2, ts), peer, record);
            assert(records == early.push(record));
            assert(records.take(before.len() as int) =~= early.take(before.len() as int));
            reveal_strlit("[文件] 传输中断（连接断开），标记为失败");
            reveal_strlit("中断");
            assert(text.subrange(7, 9) =~= "中断"@);
            assert(stands_at("中断"@, text, 7));
            assert(is_bad_news(text));
            assert(records[early.len() as int] == record);
        }
        assert forall|k: int|
            0 <= k < n && (#[trigger] s.outgoing_files[k]).1.peer == peer
                && s.outgoing_files[k].1.phase != Phase::Done implies tells_of_end(
            records,
            before.len() as int,
            s.outgoing_files[k].1.filename,
        ) by {
            if k < n - 1 {
                let name = s.outgoing_files[k].1.filename;
                assert(tells_of_end(early, before.len() as int, name));
                let i = choose|i: int|
                    before.len() <= i < early.len() && (#[trigger] early[i]).kind == "file"@
                        && early[i].outbound && early[i].name == name && is_bad_news(
                        early[i].text,
                    );
                assert(records[i] == early[i]);
            }
        }
    }
}

/// When a peer leaves, the end of every transfer that was on its way to that peer and not done is
/// said in the conversation, as bad news, behind what was said before.
pub proof fn law_all_that_breaks_off_is_noted(
    s: StateModel,
    peer: Seq<char>,
    now: NowModel,
    id: u64,
    t: TransferModel,
)
    requires
        lookup(s.outgoing_files, id) == Some(t),
        t.peer == peer,
        t.phase != Phase::Done,
        peer_of(s, peer).records.len() + s.outgoing_files.len() <= HISTORY,
    ensures
        ({
            let before = peer_of(s, peer).records;
            let records = peer_of(after_disconnect(s, peer, now), peer).records;
            &&& tells_of_end(records, before.len() as int, t.filename)
            &&& records.take(before.len() as int) == before
        }),
{
    lemma_has(s.outgoing_files, id);
    lemma_reported_all(s, peer, s.outgoing_files.len(), now);
    assert(s.outgoing_files[pos(s.outgoing_files, id)].1 == t);
}

/// When a peer leaves, replies about the transfers to others are waited for as before.
pub proof fn law_waits_for_others_stay(s: StateModel, peer: Seq<char>, now: NowModel, request: u64)
    requires
        distinct(s.outgoing_files),
        distinct(s.file_outstanding),
        has(s.file_outstanding, request),
        has(s.outgoing_files, at(s.file_outstanding, request).0),
        at(s.outgoing_files, at(s.file_outstanding, request).0).peer != peer,
    ensures
        lookup(after_disconnect(s, peer, now).file_outstanding, request) == lookup(
            s.file_outstanding,
            request,
        ),
{
    let outgoing = s.outgoing_files.filter(goes_on(peer));
    let id = at(s.file_outstanding, request).0;
    law_disconnect_fails_transfers(s, peer, now, id);
    assert(lookup(outgoing, id) == Some(at(s.outgoing_files, id)));
    lemma_kept_by_filter(s.file_outstanding, about_others(outgoing, peer), request);
}

proof fn lemma_kept_by_filter(
    t: Seq<(u64, (u64, OutboundReq))>,
    keep: spec_fn((u64, (u64, OutboundReq))) -> bool,
    request: u64,
)
    requires
        distinct(t),
        has(t, request),
        keep(t[pos(t, request)]),
    ensures
        lookup(t.filter(keep), request) == lookup(t, request),
{
    lemma_lookup_filter(t, keep, request);
    lemma_has(t, request);
    let p = pos(t, request);
    assert forall|i: int| 0 <= i < t.len() && (#[trigger] t[i]).0 == request implies i == p by {
        if i < p {
            assert(t[i].0 != t[p].0);
        } else if p < i {
            assert(t[p].0 != t[i].0);
        }
    }
}

/// When a transfer is refused or has ended, replies about the other transfers are waited for as
/// before.
pub proof fn law_other_waits_stay(
    s: StateModel,
    peer: Seq<char>,
    file_id: u64,
    reply_to: u64,
    ok: bool,
    msg: Seq<char>,
    now: NowModel,
    request: u64,
)
    requires
        distinct(s.file_outstanding),
        has(s.file_outstanding, request),
        at(s.file_outstanding, request).0 != file_id,
    ensures
        lookup(after_reject(s, peer, file_id, now).file_outstanding, request) == lookup(
            s.file_outstanding,
            request,
        ),
        lookup(
            after_response(
                s,
                reply_to,
                FileRespModel::Result { file_id, ok, msg },
                now,
            ).file_outstanding,
            request,
        ) == lookup(s.file_outstanding, request),
{
    lemma_has(s.file_outstanding, request);
    lemma_kept_by_filter(s.file_outstanding, not_about(file_id), request);
}

/// Once nothing is missing the transfer is done, and the reply to the digest, where one is sent, is
/// waited for as one about it; what is known of the other transfers, missing chunks or not, stays.
pub proof fn law_end_is_waited_for(s: StateModel, file_id: u64, missing: Seq<u32>, other: u64)
    requires
        has(s.outgoing_files, file_id),
    ensures
        ({
            let t = at(s.outgoing_files, file_id);
            let after = after_missing(s, file_id, missing);
            &&& missing.len() == 0 ==> {
                &&& lookup(after.outgoing_files, file_id) matches Some(next) && next.phase
                    == Phase::Done && next.in_flight == 0 && !next.checked && next.pending
                    == t.pending
                    && next.chunks == t.chunks && next.peer == t.peer
                &&& has(s.sessions, t.peer) ==> lookup(after.file_outstanding, s.next_request)
                    == Some((file_id, OutboundReq::Done))
            }
            &&& other != file_id ==> lookup(after.outgoing_files, other) == lookup(
                s.outgoing_files,
                other,
            )
            &&& after.peers == s.peers
        }),
{
    let t = at(s.outgoing_files, file_id);
    let done = TransferModel { in_flight: 0, checked: false, phase: Phase::Done, ..t };
    let again = TransferModel {
        pending: t.pending + missing,
        in_flight: 0,
        checked: false,
        phase: Phase::Sending,
        ..t
    };
    lemma_lookup_put(s.outgoing_files, file_id, done, file_id);
    lemma_lookup_put(s.outgoing_files, file_id, done, other);
    lemma_lookup_put(s.outgoing_files, file_id, again, other);
    lemma_lookup_put(
        s.file_outstanding,
        s.next_request,
        (file_id, OutboundReq::Done),
        s.next_request,
    );
}

/// A transfer has nothing to send for now: it is not sending, or its peer has no session; or enough
/// is unacknowledged or nothing pending, and it does not have to ask what is missing.
pub open spec fn is_quiet(s: StateModel, t: TransferModel) -> bool {
    t.phase == Phase::Sending && has(s.sessions, t.peer) ==> {
        &&& t.pending.len() == 0 || t.in_flight >= MAX_IN_FLIGHT
        &&& t.pending.len() > 0 || t.in_flight > 0 || t.checked
    }
}

/// A transfer was let send: what it sent is no longer pending but unacknowledged, up to as much as
/// there may be; where it had to ask what is missing, it has asked. Nothing else of it changes, and
/// of a transfer that does not send nothing at all.
pub open spec fn was_let_send(s: StateModel, t: TransferModel, next: TransferModel) -> bool {
    &&& next.pending.len() + next.in_flight == t.pending.len() + t.in_flight
    &&& next.in_flight >= t.in_flight
    &&& next.in_flight <= MAX_IN_FLIGHT || next.in_flight == t.in_flight
    &&& next.pending == t.pending.skip(next.in_flight - t.in_flight)
    &&& next.chunks == t.chunks && next.peer == t.peer && next.file_id == t.file_id
        && next.filename == t.filename && next.file_hash == t.file_hash
    &&& is_due_to_ask(s, t) ==> next.phase == Phase::Checking && next.checked
    &&& !is_due_to_ask(s, t) ==> next.phase == t.phase && next.checked == t.checked
    &&& t.phase != Phase::Sending || !(has(s.sessions, t.peer)) ==> next == t
    &&& is_quiet(s, next)
}

/// The transfers that are driven send what they may, and all of it at once: driving them a second
/// time does nothing, until something has come.
pub proof fn law_driving_leaves_nothing_to_send(s: StateModel)
    ensures
        driven(s).outgoing_files.len() == s.outgoing_files.len(),
        forall|i: int|
            0 <= i < s.outgoing_files.len() ==> (#[trigger] driven(s).outgoing_files[i]).0
                == s.outgoing_files[i].0 && was_let_send(
                s,
                s.outgoing_files[i].1,
                driven(s).outgoing_files[i].1,
            ),
        driven(driven(s)) == driven(s),
{
    let after = driven(s);
    lemma_driven_upto(s, s.outgoing_files.len());
    assert forall|i: int| 0 <= i < s.outgoing_files.len() implies (
    #[trigger] after.outgoing_files[i]).0 == s.outgoing_files[i].0 && was_let_send(
        s,
        s.outgoing_files[i].1,
        after.outgoing_files[i].1,
    ) by {
        let t = s.outgoing_files[i].1;
        assert(t.pending.skip(0) =~= t.pending);
    }
    lemma_quiet_stays(after, after.outgoing_files.len());
}

proof fn lemma_quiet_stays(s: StateModel, n: nat)
    requires
        n <= s.outgoing_files.len(),
        forall|i: int|
            0 <= i < s.outgoing_files.len() ==> is_quiet(s, (#[trigger] s.outgoing_files[i]).1),
    ensures
        driven_upto(s, n) == s,
    decreases n,
{
    if n > 0 {
        lemma_quiet_stays(s, (n - 1) as nat);
        let entry = s.outgoing_files[n - 1];
        let t = entry.1;
        if sends(s, t) {
            assert(is_quiet(s, t));
            assert(burst(t) == 0 && !asks(t));
            assert(t.pending.skip(0) =~= t.pending);
            assert(advanced(t) == t);
            assert(s.outgoing_files.update(n - 1, (entry.0, t)) =~= s.outgoing_files);
        }
    }
}

/// How many replies the transfers wait for: to their chunks, and to what they have asked.
pub open spec fn awaiting(files: Seq<(u64, TransferModel)>) -> nat
    decreases files.len(),
{
    if files.len() == 0 {
        0
    } else {
        let t = files.last().1;
        awaiting(files.drop_last()) + t.in_flight + (if t.phase == Phase::Checking {
            1nat
        } else {
            0
        })
    }
}

proof fn lemma_awaiting_update(
    files: Seq<(u64, TransferModel)>,
    i: int,
    entry: (u64, TransferModel),
)
    requires
        0 <= i < files.len(),
    ensures
        awaiting(files.update(i, entry)) + files[i].1.in_flight + (if files[i].1.phase
            == Phase::Checking {
            1nat
        } else {
            0
        }) == awaiting(files) + entry.1.in_flight + (if entry.1.phase == Phase::Checking {
            1nat
        } else {
            0
        }),
    decreases files.len(),
{
    let after = files.update(i, entry);
    if i == files.len() - 1 {
        assert(after.drop_last() =~= files.drop_last());
    } else {
        lemma_awaiting_update(files.drop_last(), i, entry);
        assert(after.drop_last() =~= files.drop_last().update(i, entry));
    }
}

proof fn lemma_chunks_counted(s: StateModel, t: TransferModel, key: Seq<u8>, n: nat)
    ensures
        posted_chunks(s, t, key, n).effects.len() == s.effects.len() + n,
    decreases n,
{
    if n > 0 {
        lemma_chunks_counted(s, t, key, (n - 1) as nat);
    }
}

/// Driving the transfers sends exactly as many messages as replies are newly waited for: no chunk
/// goes out twice, and nothing is asked twice.
pub proof fn law_nothing_is_sent_twice(s: StateModel)
    ensures
        driven(s).effects.len() + awaiting(s.outgoing_files) == s.effects.len() + awaiting(
            driven(s).outgoing_files,
        ),
{
    lemma_sent_counted(s, s.outgoing_files.len());
}

proof fn lemma_sent_counted(s: StateModel, n: nat)
    requires
        n <= s.outgoing_files.len(),
    ensures
        driven_upto(s, n).effects.len() + awaiting(s.outgoing_files) == s.effects.len() + awaiting(
            driven_upto(s, n).outgoing_files,
        ),
    decreases n,
{
    if n > 0 {
        lemma_sent_counted(s, (n - 1) as nat);
        lemma_driven_upto(s, (n - 1) as nat);
        let s1 = driven_upto(s, (n - 1) as nat);
        let entry = s1.outgoing_files[n - 1];
        let t = entry.1;
        if sends(s1, t) {
            let key = at(s1.sessions, t.peer);
            lemma_chunks_counted(s1, t, key, burst(t));
            lemma_awaiting_update(s1.outgoing_files, n - 1, (entry.0, advanced(t)));
        }
    }
}

/// A file that did not come whole, or not as its sender has told, is said to have failed in the
/// conversation with its sender, with the reason that the sender is told.
pub proof fn law_failed_reception_is_noted(
    s: StateModel,
    peer: Seq<char>,
    file_id: u64,
    filename: Seq<char>,
    total: u32,
    file_hash: Seq<char>,
    now: NowModel,
)
    ensures
        ({
            let msg = FileMsgModel::Done { file_id, filename, total, file_hash };
            let after = after_message(s, peer, msg, now);
            called_for(s, msg) matches StepModel::Reply(reply) ==> {
                &&& reply matches FileRespModel::Result { file_id: id, ok, msg: why } && id
                    == file_id && !ok && (lookup(after.peers, peer) matches Some(info) && {
                    &&& info.records.len() > 0
                    &&& info.records.last().kind == "file"@ && !info.records.last().outbound
                    &&& info.records.last().name == filename
                    &&& ends(info.records.last().text, why)
                    &&& is_bad_news(info.records.last().text)
                })
                &&& forall|other: Seq<char>|
                    other != peer ==> #[trigger] lookup(after.peers, other) == lookup(s.peers, other)
            }
        }),
{
    if let Err(why) = verdict(s, file_id, filename, file_hash) {
        let text = received_text(false, filename, why);
        let s1 = decided(s, peer, file_id);
        let s2 = logged(
            StateModel { incoming_files: without(s1.incoming_files, file_id), ..s1 },
            text,
        );
        law_file_event_is_noted(s2, peer, false, filename, text, now);
        assert(s2.peers == s.peers);
        let start = "[文件] 接收失败："@;
        reveal_strlit("[文件] 接收失败：");
        reveal_strlit("失败");
        assert(text.subrange(7, 9) =~= "失败"@);
        assert(stands_at("失败"@, text, 7));
        assert(text.subrange(start.len() as int, text.len() as int) =~= why);
    }
}

/// The name of a file is what stands behind the last slash of its path, whatever stands before; a
/// slash behind it does not count. A path without a slash is a name itself.
pub proof fn law_name_is_the_last_part(dir: Seq<char>, name: Seq<char>)
    requires
        name.len() > 0,
        !name.contains('/'),
        name != "."@,
        name != ".."@,
    ensures
        last_component(name) == Some(name),
        last_component(dir + "/"@ + name) == Some(name),
        last_component(dir + "/"@ + name + "/"@) == Some(name),
{
    reveal_strlit("/");
    reveal_strlit(".");
    reveal_strlit("..");
    lemma_after_slash(Seq::empty(), name);
    lemma_after_slash(dir + "/"@, name);
    assert(Seq::empty() + name =~= name);
    let path = dir + "/"@ + name;
    let more = path + "/"@;
    assert(more.last() == '/');
    assert(after_slash(more).len() == 0);
    assert(more.take(more.len() - 1) =~= path);
    reveal_with_fuel(last_component, 2);
}

proof fn lemma_after_slash(start: Seq<char>, name: Seq<char>)
    requires
        !name.contains('/'),
        start.len() == 0 || start.last() == '/',
    ensures
        after_slash(start + name) == name,
    decreases name.len(),
{
    if name.len() == 0 {
        assert(start + name =~= start);
    } else {
        let front = name.drop_last();
        assert forall|k: int| 0 <= k < front.len() implies front[k] != '/' by {
            assert(name[k] == front[k]);
        }
        lemma_after_slash(start, front);
        assert((start + name).drop_last() =~= start + front);
        assert((start + name).last() == name[name.len() - 1]);
        assert(front.push(name.last()) =~= name);
    }
}

} // verus!
