use peerchat::chat::Now;
use peerchat::crypto::{sha256_hex, AppCrypto};
use peerchat::file_transfer::{
    accept_file, anyone_connected, can_drive, chunk_file, compute_missing, drive_outgoing,
    file_name_of, offer_file, on_file_outbound_failure, on_file_picked, on_file_request,
    on_file_response, on_file_stored, on_peer_disconnect, reject_file, start_file_send,
    try_on_file_request, FileMsg, FileResp, FileStep, OutboundReq, Phase, ReadyFile, StoreError,
    CHUNK_SIZE, MAX_IN_FLIGHT,
};
use peerchat::identity::PeerId;
use peerchat::state::{AppState, Effect, Request};
use std::collections::HashMap;

fn peer(name: &str) -> PeerId {
    PeerId { text: name.to_string() }
}

fn now() -> Now {
    Now { time: "01:02:03".to_string(), ms: 42 }
}

fn node() -> AppState {
    AppState::new(AppCrypto::new(), "我".to_string(), true, peer("self"), vec![])
}

fn linked(names: &[&str]) -> AppState {
    let mut state = node();
    for name in names {
        state.connected.insert(peer(name), ());
        state.sessions.insert(peer(name), [name.len() as u8; 32]);
    }
    state
}

fn sent(state: &mut AppState) -> Vec<(u64, String, FileMsg)> {
    state
        .take_effects()
        .into_iter()
        .filter_map(|e| match e {
            Effect::SendFile { request, peer, msg, .. } => Some((request, peer.text, msg)),
            _ => None,
        })
        .collect()
}

fn data(n: usize) -> Vec<u8> {
    (0..n).map(|i| (i % 251) as u8).collect()
}

fn log(state: &AppState) -> Vec<String> {
    state.logs.iter().cloned().collect()
}

fn last_record(state: &AppState, name: &str) -> String {
    state.peers.get(&peer(name)).unwrap().records.last().unwrap().text.clone()
}

#[test]
fn limits() {
    assert_eq!(CHUNK_SIZE, 64 * 1024);
    assert_eq!(MAX_IN_FLIGHT, 4);
}

#[test]
fn chunks_of_a_file() {
    assert!(chunk_file(&[]).is_empty());
    assert_eq!(chunk_file(&[1, 2, 3]), vec![vec![1, 2, 3]]);
    let exact = data(2 * CHUNK_SIZE);
    assert_eq!(chunk_file(&exact).len(), 2);
    let more = data(2 * CHUNK_SIZE + 10);
    let chunks = chunk_file(&more);
    let sizes: Vec<usize> = chunks.iter().map(|c| c.len()).collect();
    assert_eq!(sizes, vec![CHUNK_SIZE, CHUNK_SIZE, 10]);
    assert_eq!(chunks.concat(), more);
}

#[test]
fn what_is_missing() {
    let mut chunks = HashMap::new();
    assert_eq!(compute_missing(&chunks, 3), vec![0, 1, 2]);
    chunks.insert(1u32, vec![]);
    chunks.insert(7u32, vec![]);
    assert_eq!(compute_missing(&chunks, 3), vec![0, 2]);
    chunks.insert(0u32, vec![]);
    chunks.insert(2u32, vec![]);
    assert!(compute_missing(&chunks, 3).is_empty());
    assert!(compute_missing(&chunks, 0).is_empty());
}

#[test]
fn names_of_files() {
    assert_eq!(file_name_of("a.txt"), "a.txt");
    assert_eq!(file_name_of("dir/sub/b.txt"), "b.txt");
    assert_eq!(file_name_of("dir/.."), "dir/..");
    assert_eq!(file_name_of(""), "");
    assert_eq!(file_name_of("/tmp/c.txt"), "c.txt");
    assert_eq!(file_name_of("dir/"), "dir");
    assert_eq!(file_name_of("dir/./"), "dir");
    assert_eq!(file_name_of("dir/d.txt/."), "d.txt");
    assert_eq!(file_name_of("./"), "./");
    assert_eq!(file_name_of("/"), "/");
    for path in ["C:x/y", "a\\b:c", "//host/share/f", "\\\\?\\a/b"] {
        let name = std::path::Path::new(path).file_name().map(|n| n.to_string_lossy());
        assert_eq!(Some(file_name_of(path)), name.map(|n| n.into_owned()));
    }
}

#[test]
fn nobody_to_send_to() {
    let mut state = node();
    assert!(!anyone_connected(&state));
    start_file_send(&mut state, "a.txt", Ok(vec![1]), &now());
    assert_eq!(log(&state), vec!["[文件] 当前没有任何已连接的节点，无法发送"]);
    assert_eq!(state.outgoing_files.len(), 0);
}

#[test]
fn file_that_cannot_be_read() {
    let mut state = linked(&["a"]);
    start_file_send(&mut state, "x/y", Err("不存在".to_string()), &now());
    assert_eq!(log(&state), vec!["[文件] 读取 x/y 失败: 不存在"]);
    assert!(sent(&mut state).is_empty());
}

#[test]
fn offering_to_everybody() {
    let mut state = linked(&["a", "bb"]);
    state.connected.insert(peer("nokey"), ());
    state.peer_or_insert(&peer("a")).nickname = "甲".to_string();
    let file = data(CHUNK_SIZE + 1);
    start_file_send(&mut state, "dir/f.bin", Ok(file.clone()), &now());
    assert_eq!(log(&state), vec!["[文件] 已读入 dir/f.bin：65537 字节，切为 2 片"]);
    assert_eq!(state.toast.message, Some("正在发送文件：f.bin".to_string()));
    assert_eq!(state.outgoing_files.len(), 3);
    let offer = |id| FileMsg::Offer {
        file_id: id,
        filename: "f.bin".to_string(),
        size: 65537,
        total: 2,
        file_hash: sha256_hex(&file),
    };
    assert_eq!(
        sent(&mut state),
        vec![(1, "a".to_string(), offer(1)), (2, "bb".to_string(), offer(2))]
    );
    assert_eq!(last_record(&state, "a"), "我正在发送 f.bin 给 甲");
    assert_eq!(last_record(&state, "bb"), "我正在发送 f.bin 给 ");
    assert!(state.peers.get(&peer("nokey")).is_none());
    assert_eq!(state.file_outstanding.get(&1), Some(&(1, OutboundReq::Offer)));
    for i in 0..3 {
        let t = state.outgoing_files.value_at(i);
        assert_eq!(t.phase, Phase::Offering);
        assert_eq!(t.pending, [0u32, 1]);
    }
}

#[test]
fn picking_a_file() {
    let mut state = linked(&["a"]);
    on_file_picked(&mut state, "/tmp/z.txt", Ok(vec![1, 2]), &now());
    assert_eq!(state.toast.message, Some("已选择文件：/tmp/z.txt".to_string()));
    assert_eq!(state.outgoing_files.value_at(0).filename, "z.txt");
}

#[test]
fn no_chunk_before_acceptance() {
    let mut state = linked(&["a"]);
    offer_file(&mut state, "f", "f", &data(10), &now());
    state.take_effects();
    assert!(can_drive(&state));
    drive_outgoing(&mut state);
    assert!(sent(&mut state).is_empty());
    assert_eq!(state.outgoing_files.value_at(0).phase, Phase::Offering);
}

#[test]
fn acceptance_starts_a_few_chunks() {
    let mut state = linked(&["a"]);
    offer_file(&mut state, "f", "f", &data(6 * CHUNK_SIZE), &now());
    state.take_effects();
    let request = Request::Message(FileMsg::OfferAccept { file_id: 1 });
    let step = on_file_request(&mut state, &peer("a"), request, &now());
    assert_eq!(step, FileStep::Reply(FileResp::OfferReply { file_id: 1, ok: true }));
    let first = sent(&mut state);
    let indices: Vec<u32> = first
        .iter()
        .map(|(_, _, m)| match m {
            FileMsg::Chunk { index, total: 6, .. } => *index,
            other => panic!("unexpected {other:?}"),
        })
        .collect();
    assert_eq!(indices, vec![0, 1, 2, 3]);
    assert_eq!(state.outgoing_files.value_at(0).in_flight, 4);
    // a second acceptance is refused
    let again = Request::Message(FileMsg::OfferAccept { file_id: 1 });
    let step = on_file_request(&mut state, &peer("a"), again, &now());
    assert_eq!(step, FileStep::Reply(FileResp::OfferReply { file_id: 1, ok: false }));
    // an acknowledgement makes room for one more
    let request = first[0].0;
    on_file_response(&mut state, request, FileResp::ChunkAck { file_id: 1, index: 0 }, &now());
    assert!(!state.file_outstanding.contains(&request));
    drive_outgoing(&mut state);
    assert_eq!(sent(&mut state).len(), 1);
    assert_eq!(state.outgoing_files.value_at(0).in_flight, 4);
}

#[test]
fn whole_transfer_with_losses() {
    let file = data(5 * CHUNK_SIZE + 77);
    let mut sender = linked(&["receiver"]);
    let mut receiver = linked(&["sender"]);
    let from = peer("sender");
    offer_file(&mut sender, "f", "文件.bin", &file, &now());
    let mut queue: Vec<(u64, FileMsg)> =
        sent(&mut sender).into_iter().map(|(r, _, m)| (r, m)).collect();
    let mut lost = 0;
    let mut stored: Option<ReadyFile> = None;
    let mut turns = 0;
    while let Some((request, msg)) = queue.pop() {
        turns += 1;
        assert!(turns < 1000);
        // the third and fifth chunk are lost on their first way
        if let FileMsg::Chunk { index: 2 | 4, .. } = msg {
            if lost < 2 {
                lost += 1;
                on_file_outbound_failure(&mut sender, request, &now());
                drive_outgoing(&mut sender);
                queue.extend(sent(&mut sender).into_iter().map(|(r, _, m)| (r, m)));
                continue;
            }
        }
        let is_offer = matches!(msg, FileMsg::Offer { .. });
        let step = on_file_request(&mut receiver, &from, Request::Message(msg), &now());
        let reply = match step {
            FileStep::Reply(reply) => reply,
            FileStep::Store(ready) => {
                let reply = on_file_stored(&mut receiver, &from, &ready, None, &now());
                stored = Some(ready);
                reply
            }
        };
        on_file_response(&mut sender, request, reply, &now());
        if is_offer {
            accept_file(&mut receiver, &from, 1, &now());
            let accept = sent(&mut receiver).pop().unwrap().2;
            assert_eq!(accept, FileMsg::OfferAccept { file_id: 1 });
            on_file_request(&mut sender, &peer("receiver"), Request::Message(accept), &now());
        }
        drive_outgoing(&mut sender);
        queue.extend(sent(&mut sender).into_iter().map(|(r, _, m)| (r, m)));
        for i in 0..sender.outgoing_files.len() {
            assert!(sender.outgoing_files.value_at(i).in_flight <= MAX_IN_FLIGHT);
        }
    }
    assert_eq!(lost, 2);
    let ready = stored.unwrap();
    assert_eq!(ready.data, file);
    assert_eq!(ready.path, "downloads/文件.bin");
    assert_eq!(sender.outgoing_files.len(), 0);
    assert_eq!(sender.file_outstanding.len(), 0);
    assert_eq!(receiver.incoming_files.len(), 0);
    assert_eq!(receiver.pending_offers.get(&from).unwrap().list.len(), 0);
    assert!(last_record(&sender, "receiver").starts_with("[文件] 传输 1 成功："));
}

#[test]
fn offer_waits_for_the_user() {
    let mut state = linked(&["a"]);
    let offer = FileMsg::Offer {
        file_id: 9,
        filename: "照片".to_string(),
        size: 12,
        total: 1,
        file_hash: "h".to_string(),
    };
    let step = on_file_request(&mut state, &peer("a"), Request::Message(offer), &now());
    assert_eq!(step, FileStep::Reply(FileResp::OfferReply { file_id: 9, ok: true }));
    assert_eq!(log(&state), vec!["[文件] a 想发送文件：照片（12 字节）"]);
    assert_eq!(
        last_record(&state, "a"),
        "[文件] 对方想给你发送：照片（12 字节）→ 请点击【接受】"
    );
    assert_eq!(state.pending_offers.get(&peer("a")).unwrap().list[0].file_id, 9);
    reject_file(&mut state, &peer("a"), 9, &now());
    assert!(state.pending_offers.get(&peer("a")).unwrap().list.is_empty());
    assert_eq!(
        sent(&mut state),
        vec![(1, "a".to_string(), FileMsg::OfferReject { file_id: 9 })]
    );
    assert_eq!(last_record(&state, "a"), "[文件] 你已拒绝该文件");
    assert_eq!(state.peers.get(&peer("a")).unwrap().records.last().unwrap().name, "9");
}

#[test]
fn deciding_without_a_session() {
    let mut state = node();
    accept_file(&mut state, &peer("a"), 1, &now());
    assert_eq!(log(&state), vec!["[文件] 尚无法接受（未完成密钥协商）"]);
    reject_file(&mut state, &peer("a"), 1, &now());
    assert_eq!(state.logs.len(), 1);
    assert!(sent(&mut state).is_empty());
}

#[test]
fn refusal_ends_the_transfer() {
    let mut state = linked(&["a", "bb"]);
    offer_file(&mut state, "f", "f", &data(3), &now());
    state.take_effects();
    let msg = FileMsg::OfferReject { file_id: 1 };
    let step = on_file_request(&mut state, &peer("a"), Request::Message(msg), &now());
    assert_eq!(step, FileStep::Reply(FileResp::OfferReply { file_id: 1, ok: false }));
    assert_eq!(state.outgoing_files.len(), 1);
    assert!(state.outgoing_files.contains(&2));
    assert!(state.file_outstanding.get(&1).is_none());
    assert_eq!(last_record(&state, "a"), "[文件] 对方拒绝了该文件发送");
    assert_eq!(log(&state).last().unwrap(), "[文件] a 拒绝了文件 1");
}

#[test]
fn requests_that_are_not_read() {
    let mut state = linked(&["a"]);
    let step = on_file_request(&mut state, &peer("a"), Request::NoSession, &now());
    assert_eq!(
        step,
        FileStep::Reply(FileResp::Result {
            file_id: 0,
            ok: false,
            msg: "尚未完成密钥协商".to_string()
        })
    );
    assert!(state.logs.is_empty());
    let bad = Request::Unreadable("aead::Error".to_string());
    let step = on_file_request(&mut state, &peer("a"), bad, &now());
    assert_eq!(
        step,
        FileStep::Reply(FileResp::Result {
            file_id: 0,
            ok: false,
            msg: "解密/完整性校验失败".to_string()
        })
    );
    assert_eq!(log(&state), vec!["[文件] 收到无法通过完整性校验的消息: aead::Error"]);
}

fn chunk(index: u32, total: u32, text: &str) -> Request<FileMsg> {
    Request::Message(FileMsg::Chunk {
        file_id: 5,
        filename: "名".to_string(),
        total,
        index,
        data: text.to_string(),
    })
}

fn done(hash: &str) -> Request<FileMsg> {
    Request::Message(FileMsg::Done {
        file_id: 5,
        filename: "名".to_string(),
        total: 2,
        file_hash: hash.to_string(),
    })
}

#[test]
fn chunks_are_gathered_and_checked() {
    let mut state = linked(&["a"]);
    let a = peer("a");
    let check = || Request::Message(FileMsg::Check { file_id: 5, total: 2 });
    assert_eq!(
        on_file_request(&mut state, &a, check(), &now()),
        FileStep::Reply(FileResp::Missing { file_id: 5, missing: vec![0, 1] })
    );
    assert_eq!(
        on_file_request(&mut state, &a, chunk(1, 2, "IHdvcmxk"), &now()),
        FileStep::Reply(FileResp::ChunkAck { file_id: 5, index: 1 })
    );
    assert_eq!(
        on_file_request(&mut state, &a, check(), &now()),
        FileStep::Reply(FileResp::Missing { file_id: 5, missing: vec![0] })
    );
    on_file_request(&mut state, &a, chunk(0, 2, "aGVsbG8="), &now());
    on_file_request(&mut state, &a, chunk(0, 2, "aGVsbG8="), &now());
    let hash = sha256_hex(b"hello world");
    let step = on_file_request(&mut state, &a, done(&hash), &now());
    assert_eq!(
        step,
        FileStep::Store(ReadyFile {
            file_id: 5,
            filename: "名".to_string(),
            path: "downloads/名".to_string(),
            data: b"hello world".to_vec(),
        })
    );
}

#[test]
fn files_that_do_not_come_together() {
    let a = peer("a");
    let mut state = linked(&["a"]);
    let reply = |msg: &str| {
        FileStep::Reply(FileResp::Result { file_id: 5, ok: false, msg: msg.to_string() })
    };
    assert_eq!(
        on_file_request(&mut state, &a, done("h"), &now()),
        reply("没有收到任何分片")
    );
    assert_eq!(last_record(&state, "a"), "[文件] 接收失败：没有收到任何分片");
    on_file_request(&mut state, &a, chunk(1, 3, "aGVsbG8="), &now());
    assert_eq!(
        on_file_request(&mut state, &a, done("h"), &now()),
        reply("分片不完整(名), 缺 [0, 2]")
    );
    assert_eq!(state.incoming_files.len(), 0);
    on_file_request(&mut state, &a, chunk(0, 1, "aGVsbG8="), &now());
    let actual = sha256_hex(b"hello");
    assert_eq!(
        on_file_request(&mut state, &a, done("h"), &now()),
        reply(&format!("SHA-256 校验失败: 期望 h 实际 {actual}"))
    );
}

#[test]
fn wrong_chunks_are_answered() {
    let a = peer("a");
    let mut state = linked(&["a"]);
    let offer = FileMsg::Offer {
        file_id: 5,
        filename: "名".to_string(),
        size: 5,
        total: 1,
        file_hash: "h".to_string(),
    };
    on_file_request(&mut state, &a, Request::Message(offer), &now());
    // as many chunks as the total, but not the right ones
    on_file_request(&mut state, &a, chunk(7, 1, "aGVsbG8="), &now());
    assert_eq!(
        try_on_file_request(&mut state, &a, done("h"), &now()),
        Some(FileStep::Reply(FileResp::Result {
            file_id: 5,
            ok: false,
            msg: "分片不完整(名), 缺 [0]".to_string()
        }))
    );
    assert_eq!(state.incoming_files.len(), 0);
    assert!(state.pending_offers.get(&a).unwrap().list.is_empty());
    // one chunk more than there are
    on_file_request(&mut state, &a, chunk(0, 1, "aGVsbG8="), &now());
    on_file_request(&mut state, &a, chunk(7, 1, "aGVsbG8="), &now());
    assert_eq!(
        on_file_request(&mut state, &a, done("h"), &now()),
        FileStep::Reply(FileResp::Result {
            file_id: 5,
            ok: false,
            msg: "分片不完整(名), 缺 []".to_string()
        })
    );
    assert_eq!(state.incoming_files.len(), 0);
}

#[test]
fn storing_a_file() {
    let a = peer("a");
    let file = ReadyFile {
        file_id: 5,
        filename: "名".to_string(),
        path: "downloads/名".to_string(),
        data: vec![1, 2, 3],
    };
    let mut state = linked(&["a"]);
    let reply = on_file_stored(&mut state, &a, &file, None, &now());
    assert_eq!(
        reply,
        FileResp::Result {
            file_id: 5,
            ok: true,
            msg: "完整收到并已保存为 downloads/名（3 字节）".to_string()
        }
    );
    assert_eq!(
        log(&state),
        vec![
            "[文件] 签收完成：downloads/名（3 字节）",
            "[文件] 接收成功（名）：完整收到并已保存为 downloads/名（3 字节）",
        ]
    );
    let full = StoreError::Write("磁盘满".to_string());
    let reply = on_file_stored(&mut state, &a, &file, Some(full), &now());
    assert!(matches!(reply, FileResp::Result { ok: false, ref msg, .. } if msg == "写入失败: 磁盘满"));
    let denied = StoreError::Directory("拒绝".to_string());
    let reply = on_file_stored(&mut state, &a, &file, Some(denied), &now());
    assert!(
        matches!(reply, FileResp::Result { ok: false, ref msg, .. } if msg == "创建 downloads 目录失败: 拒绝")
    );
}

#[test]
fn requests_that_cannot_be_taken_in() {
    let a = peer("a");
    let mut state = linked(&["a"]);
    assert_eq!(try_on_file_request(&mut state, &a, chunk(0, 1, "%%%"), &now()), None);
    assert_eq!(state.incoming_files.len(), 0);
    // an acceptance of a transfer whose pending chunks do not exist
    offer_file(&mut state, "f", "f", &data(3), &now());
    state.outgoing_files.value_at_mut(0).pending.push_front(9);
    let accept = Request::Message(FileMsg::OfferAccept { file_id: 1 });
    assert_eq!(try_on_file_request(&mut state, &a, accept, &now()), None);
    assert_eq!(state.outgoing_files.value_at(0).phase, Phase::Offering);
}

#[test]
fn missing_chunks_are_sent_again() {
    let mut state = linked(&["a"]);
    offer_file(&mut state, "f", "f", &data(3 * CHUNK_SIZE), &now());
    let t = state.outgoing_files.value_at_mut(0);
    t.phase = Phase::Checking;
    t.checked = true;
    t.pending.clear();
    state.take_effects();
    let missing = FileResp::Missing { file_id: 1, missing: vec![2, 0] };
    on_file_response(&mut state, 77, missing, &now());
    assert_eq!(log(&state).last().unwrap(), "[文件] 传输 1 缺失 2 个分片，正在重发…");
    drive_outgoing(&mut state);
    let again: Vec<u32> = sent(&mut state)
        .into_iter()
        .map(|(_, _, m)| if let FileMsg::Chunk { index, .. } = m { index } else { 99 })
        .collect();
    assert_eq!(again, vec![2, 0]);
    let nothing = FileResp::Missing { file_id: 1, missing: vec![] };
    on_file_response(&mut state, 78, nothing, &now());
    assert_eq!(state.outgoing_files.value_at(0).phase, Phase::Done);
    let last = sent(&mut state);
    assert!(matches!(last[0].2, FileMsg::Done { file_id: 1, total: 3, .. }));
    assert_eq!(state.file_outstanding.get(&last[0].0), Some(&(1, OutboundReq::Done)));
    // unknown transfers are passed over
    on_file_response(&mut state, 79, FileResp::Missing { file_id: 8, missing: vec![] }, &now());
    assert!(sent(&mut state).is_empty());
}

#[test]
fn out_of_range_chunks_are_noticed() {
    let mut state = linked(&["a"]);
    offer_file(&mut state, "f", "f", &data(3), &now());
    assert!(can_drive(&state));
    on_file_response(&mut state, 77, FileResp::Missing { file_id: 1, missing: vec![4] }, &now());
    assert!(!can_drive(&state));
}

#[test]
fn question_follows_the_last_acknowledgement() {
    let mut state = linked(&["a"]);
    offer_file(&mut state, "f", "f", &data(3), &now());
    state.take_effects();
    state.outgoing_files.value_at_mut(0).phase = Phase::Sending;
    drive_outgoing(&mut state);
    assert!(matches!(sent(&mut state)[0].2, FileMsg::Chunk { index: 0, .. }));
    drive_outgoing(&mut state);
    assert!(sent(&mut state).is_empty());
    on_file_response(&mut state, 2, FileResp::ChunkAck { file_id: 1, index: 0 }, &now());
    drive_outgoing(&mut state);
    let asked = sent(&mut state);
    assert_eq!(asked[0].2, FileMsg::Check { file_id: 1, total: 1 });
    assert_eq!(state.outgoing_files.value_at(0).phase, Phase::Checking);
    drive_outgoing(&mut state);
    assert!(sent(&mut state).is_empty());
    // the question got lost and is asked again
    on_file_outbound_failure(&mut state, asked[0].0, &now());
    drive_outgoing(&mut state);
    assert_eq!(sent(&mut state)[0].2, FileMsg::Check { file_id: 1, total: 1 });
}

#[test]
fn results_end_transfers() {
    let mut state = linked(&["a"]);
    offer_file(&mut state, "f", "f", &data(3), &now());
    let result = |ok| FileResp::Result { file_id: 1, ok, msg: "好".to_string() };
    on_file_response(&mut state, 1, result(false), &now());
    assert_eq!(state.outgoing_files.len(), 0);
    assert_eq!(state.file_outstanding.len(), 0);
    assert_eq!(last_record(&state, "a"), "[文件] 传输 1 失败：好");
    on_file_response(&mut state, 1, result(true), &now());
    assert_eq!(log(&state).last().unwrap(), "[文件] 传输 1 成功：好");
}

#[test]
fn failed_requests() {
    let mut state = linked(&["a"]);
    offer_file(&mut state, "f", "f", &data(2 * CHUNK_SIZE), &now());
    on_file_outbound_failure(&mut state, 999, &now());
    assert_eq!(state.outgoing_files.len(), 1);
    // a chunk goes back to the end of the queue
    state.file_outstanding.insert(50, (1, OutboundReq::Chunk(0)));
    let t = state.outgoing_files.value_at_mut(0);
    t.phase = Phase::Sending;
    t.pending.pop_front();
    t.in_flight = 1;
    on_file_outbound_failure(&mut state, 50, &now());
    let t = state.outgoing_files.value_at(0);
    assert_eq!(t.pending, [1u32, 0]);
    assert_eq!(t.in_flight, 0);
    assert_eq!(log(&state).last().unwrap(), "[文件] 分片 0 发送失败，待重发");
    // an offer that nobody answers ends the transfer
    on_file_outbound_failure(&mut state, 1, &now());
    assert_eq!(state.outgoing_files.len(), 0);
    assert_eq!(log(&state).last().unwrap(), "[文件] 邀请(传输 1) 失败：对方无应答");
    assert_eq!(last_record(&state, "a"), "[文件] 发送邀请失败（对方无应答）");
}

#[test]
fn disconnect_fails_the_transfers_of_that_peer() {
    let mut state = linked(&["a", "bb"]);
    offer_file(&mut state, "f", "f", &data(3), &now());
    offer_file(&mut state, "g", "g", &data(3), &now());
    state.outgoing_files.get_mut(&3).unwrap().phase = Phase::Done;
    on_peer_disconnect(&mut state, &peer("a"), &now());
    assert!(!state.outgoing_files.contains(&1));
    assert!(state.outgoing_files.contains(&2));
    assert!(state.outgoing_files.contains(&3));
    assert!(state.outgoing_files.contains(&4));
    assert_eq!(
        log(&state).last().unwrap(),
        "[文件] 与 a 连接中断，传输 1 标记为失败"
    );
    assert_eq!(last_record(&state, "a"), "[文件] 传输中断（连接断开），标记为失败");
    let left: Vec<u64> =
        (0..state.file_outstanding.len()).map(|i| state.file_outstanding.value_at(i).0).collect();
    assert_eq!(left, vec![2, 4]);
}

#[test]
fn empty_file_has_nothing_to_receive() {
    let mut sender = linked(&["r"]);
    offer_file(&mut sender, "f", "f", &vec![], &now());
    sender.take_effects();
    let accept = Request::Message(FileMsg::OfferAccept { file_id: 1 });
    on_file_request(&mut sender, &peer("r"), accept, &now());
    assert_eq!(sent(&mut sender)[0].2, FileMsg::Check { file_id: 1, total: 0 });
    let mut receiver = linked(&["s"]);
    let check = Request::Message(FileMsg::Check { file_id: 1, total: 0 });
    assert_eq!(
        on_file_request(&mut receiver, &peer("s"), check, &now()),
        FileStep::Reply(FileResp::Missing { file_id: 1, missing: vec![] })
    );
}
