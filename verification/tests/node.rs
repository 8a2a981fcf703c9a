use peerchat::chat::{ChatAck, ChatMsg, ChatRecord, Now};
use peerchat::cli::{handle_cmd, on_sealed, parse_args, send_chat, CliArgs, Command};
use peerchat::config::{AppConfig, ConversationFile};
use peerchat::crypto::{encrypt, seal, AppCrypto};
use peerchat::file_transfer::{FileMsg, FileResp, FileStep};
use peerchat::friends::{
    add_friend, announce, on_bootstrap, on_dialed, on_friend_bootstrap, on_providing, plan_startup,
    prepare_dial, show_my_addr, FriendAction,
};
use peerchat::identity::PeerId;
use peerchat::net::{
    display_name, handle_chat_event, handle_file_event, handle_key_event, hello, on_resealed,
    open_request, ChatAction, ChatEvent, FileAction, FileEvent, KeyEvent, MAX_RETRIES,
};
use peerchat::protocol::{Envelope, KeyHello};
use peerchat::state::{AppState, Effect, Request, HISTORY};
use peerchat::swarm::{
    handle_kad_event, handle_swarm_event, on_discovery_dial_failed, on_kad_dial_failed, Dialing,
    KadEvent, NetAction, NetEvent,
};

const PEER: &str = "12D3KooWQYV9dGMFoRzNStwpXztXaBUjtPqi6aU76ZgUriHhKust";

fn peer(name: &str) -> PeerId {
    PeerId { text: name.to_string() }
}

fn now() -> Now {
    Now { time: "01:02:03".to_string(), ms: 42 }
}

fn node(tui: bool) -> AppState {
    AppState::new(AppCrypto::new(), "我".to_string(), tui, peer("self"), vec![])
}

fn log(state: &AppState) -> Vec<String> {
    state.logs.iter().cloned().collect()
}

fn last_log(state: &AppState) -> String {
    state.logs.back().cloned().unwrap()
}

fn record(state: &AppState, name: &str) -> (String, String) {
    let r = state.peers.get(&peer(name)).unwrap().records.last().unwrap();
    (r.kind.clone(), r.text.clone())
}

fn envelope() -> Envelope {
    seal(&[1u8; 32], &[2u8; 12], b"x").unwrap()
}

fn toast(state: &AppState) -> Option<&str> {
    state.toast.message.as_deref()
}

#[test]
fn contacts_are_restored() {
    let conv = |nick: &str| ConversationFile {
        peer_id: "p".to_string(),
        nickname: nick.to_string(),
        last_addr: None,
        records: vec![ChatRecord::system_at("x", 1, "")],
    };
    let state = AppState::new(
        AppCrypto::new(),
        "我".to_string(),
        true,
        peer("self"),
        vec![(peer("p"), conv("旧")), (peer("q"), conv("乙")), (peer("p"), conv("新"))],
    );
    assert_eq!(state.peers.len(), 2);
    let p = state.peers.get(&peer("p")).unwrap();
    assert_eq!(p.nickname, "新");
    assert!(!p.online);
    assert_eq!(p.unread, 0);
    assert_eq!(p.records.len(), 1);
    assert_eq!(state.next_msg_id, 1);
    assert_eq!(state.next_file_id, 1);
    assert_eq!(state.next_ts, 1);
}

#[test]
fn timestamps_grow() {
    let mut state = node(true);
    assert_eq!(state.tick_ts(), 1);
    assert_eq!(state.tick_ts(), 2);
    assert_eq!(state.next_ts, 3);
}

#[test]
fn timestamps_of_messages_and_files_rise_together() {
    let mut state = node(true);
    state.note_file(&peer("p"), true, "f", "甲", &now());
    assert_eq!(state.next_ts, 43);
    assert_eq!(state.tick_ts(), 43);
    // the clock has fallen behind the counter
    state.note_file(&peer("p"), false, "g", "乙", &now());
    let records = &state.peers.get(&peer("p")).unwrap().records;
    let stamps: Vec<u64> = records.iter().map(|r| r.ts).collect();
    assert_eq!(stamps, vec![42, 44]);
    assert_eq!((records[1].outbound, records[1].name.as_str()), (false, "g"));
    assert_eq!((records[1].time.as_str(), records[1].text.as_str()), ("01:02:03", "乙"));
    assert_eq!(state.tick_ts(), 45);
}

#[test]
fn log_goes_to_the_screen_or_is_printed() {
    let mut state = node(true);
    state.log("一".to_string());
    assert_eq!(log(&state), vec!["一"]);
    assert!(state.take_effects().is_empty());
    let mut plain = node(false);
    plain.log("二".to_string());
    assert!(plain.logs.is_empty());
    assert_eq!(plain.take_effects(), vec![Effect::Print("二".to_string())]);
    assert!(plain.take_effects().is_empty());
}

#[test]
fn log_and_history_are_bounded() {
    assert_eq!(HISTORY, 2000);
    let mut state = node(true);
    for i in 0..2001 {
        state.log(format!("{i}"));
        state.record_to_peer(&peer("p"), ChatRecord::system_at(&format!("{i}"), i, ""));
    }
    assert_eq!(state.logs.len(), 2000);
    assert_eq!(log(&state)[0], "1");
    assert_eq!(last_log(&state), "2000");
    let p = state.peers.get(&peer("p")).unwrap();
    assert_eq!(p.records.len(), 2000);
    assert_eq!(p.records[0].text, "1");
    assert_eq!(p.records.last().unwrap().text, "2000");
}

#[test]
fn unread_messages_are_counted() {
    let mut state = node(true);
    let text = |outbound| ChatRecord::text_at(outbound, "甲", "嗨", 1, "");
    state.record_to_peer(&peer("p"), text(false));
    state.record_to_peer(&peer("p"), text(true));
    state.record_to_peer(&peer("p"), ChatRecord::system_at("x", 1, ""));
    state.record_to_peer(&peer("p"), ChatRecord::file_at(false, "f", "x", 1, ""));
    assert_eq!(state.peers.get(&peer("p")).unwrap().unread, 1);
    state.select_peer(peer("p"));
    assert_eq!(state.peers.get(&peer("p")).unwrap().unread, 0);
    state.record_to_peer(&peer("p"), text(false));
    assert_eq!(state.peers.get(&peer("p")).unwrap().unread, 0);
    state.record_to_peer(&peer("q"), text(false));
    assert_eq!(state.peers.get(&peer("q")).unwrap().unread, 1);
    state.peers.get_mut(&peer("q")).unwrap().unread = u32::MAX;
    state.record_to_peer(&peer("q"), text(false));
    assert_eq!(state.peers.get(&peer("q")).unwrap().unread, u32::MAX);
}

#[test]
fn conversations_are_flushed_once() {
    let mut state = node(true);
    state.record_to_peer(&peer("p"), ChatRecord::text_at(false, "甲", "嗨", 1, "t"));
    state.peer_or_insert(&peer("p")).nickname = "甲".to_string();
    state.record_to_peer(&peer("p"), ChatRecord::text_at(true, "我", "好", 2, "t"));
    let files = state.flush_conversations();
    assert_eq!(files.len(), 1);
    assert_eq!(files[0].peer_id, "p");
    assert_eq!(files[0].nickname, "甲");
    assert_eq!(files[0].records.len(), 2);
    assert!(state.flush_conversations().is_empty());
}

#[test]
fn nickname_is_kept() {
    let mut state = node(true);
    state.set_nickname("阿明".to_string());
    assert_eq!(state.nickname, "阿明");
    assert_eq!(log(&state), vec!["[系统] 昵称已改为：阿明"]);
    assert_eq!(state.take_effects(), vec![Effect::SaveNickname("阿明".to_string())]);
}

#[test]
fn names_for_display() {
    let mut state = node(true);
    assert_eq!(display_name(&state, &peer("p")), "p");
    state.peer_or_insert(&peer("p"));
    assert_eq!(display_name(&state, &peer("p")), "p");
    state.peer_or_insert(&peer("p")).nickname = "甲".to_string();
    assert_eq!(display_name(&state, &peer("p")), "甲");
    assert_eq!(display_name(&state, &peer(PEER)), "12D3KooW");
    state.peer_or_insert(&peer(PEER)).nickname = "一二三四五".to_string();
    assert_eq!(display_name(&state, &peer(PEER)), "一二三四五");
}

#[test]
fn keys_are_agreed() {
    let mut a = node(true);
    let mut b = node(true);
    let request = KeyEvent::Request { peer: peer("a"), hello: hello(&a) };
    let reply = handle_key_event(&mut b, request, &now()).unwrap();
    assert_eq!(reply, KeyHello { nickname: "我".to_string(), pubkey: b.crypto.pubkey });
    let answer = KeyEvent::Response { peer: peer("b"), hello: reply };
    assert!(handle_key_event(&mut a, answer, &now()).is_none());
    assert_eq!(a.sessions.get(&peer("b")), b.sessions.get(&peer("a")));
    assert_eq!(record(&b, "a"), ("system".to_string(), "[在线] 我 上线".to_string()));
    // agreeing again is not noted again
    let again = KeyEvent::Response { peer: peer("b"), hello: hello(&b) };
    handle_key_event(&mut a, again, &now());
    assert_eq!(a.peers.get(&peer("b")).unwrap().records.len(), 1);
    // sealed by one, opened by the other
    let key = *a.sessions.get(&peer("b")).unwrap();
    let sealed = encrypt(&key, "早".as_bytes()).unwrap();
    match open_request(&b, &peer("a"), &sealed) {
        Request::Message(bytes) => assert_eq!(bytes, "早".as_bytes()),
        _ => panic!("did not open"),
    }
}

#[test]
fn key_agreement_fails() {
    let mut state = node(true);
    let ev = KeyEvent::OutboundFailure {
        peer: peer("p"),
        error: "Timeout".to_string(),
        id: "3".to_string(),
    };
    assert!(handle_key_event(&mut state, ev, &now()).is_none());
    assert_eq!(log(&state), vec!["[密钥] 与 p 的协商请求失败: Timeout (id=3)"]);
    assert!(handle_key_event(&mut state, KeyEvent::Other, &now()).is_none());
}

#[test]
fn requests_are_opened_with_the_session_key() {
    let mut state = node(true);
    assert!(matches!(open_request(&state, &peer("p"), &envelope()), Request::NoSession));
    state.sessions.insert(peer("p"), [1u8; 32]);
    assert!(matches!(open_request(&state, &peer("p"), &envelope()), Request::Message(ref m) if m == b"x"));
    state.sessions.insert(peer("p"), [9u8; 32]);
    assert!(matches!(open_request(&state, &peer("p"), &envelope()), Request::Unreadable(ref e) if e == "aead::Error"));
}

fn reply(action: ChatAction) -> ChatAck {
    match action {
        ChatAction::Reply(ack) => ack,
        _ => panic!("no reply"),
    }
}

#[test]
fn chat_messages_are_recorded_and_acknowledged() {
    let mut state = node(true);
    let msg = ChatMsg { msg_id: 8, nickname: "甲".to_string(), text: "嗨".to_string() };
    let ev = ChatEvent::Request { peer: peer("p"), opened: Request::Message(msg) };
    assert_eq!(
        reply(handle_chat_event(&mut state, ev, &now())),
        ChatAck { msg_id: 8, ok: true }
    );
    assert_eq!(record(&state, "p"), ("text".to_string(), "嗨".to_string()));
    assert_eq!(state.peers.get(&peer("p")).unwrap().records[0].time, "01:02:03");
    let ev = ChatEvent::Request { peer: peer("p"), opened: Request::NoSession };
    assert_eq!(
        reply(handle_chat_event(&mut state, ev, &now())),
        ChatAck { msg_id: 0, ok: false }
    );
    assert_eq!(last_log(&state), "[聊天] 收到 p 的消息，但尚未完成密钥协商，无法解密");
    let ev = ChatEvent::Request {
        peer: peer("p"),
        opened: Request::Unreadable("坏".to_string()),
    };
    assert_eq!(
        reply(handle_chat_event(&mut state, ev, &now())),
        ChatAck { msg_id: 0, ok: false }
    );
    assert_eq!(last_log(&state), "[聊天] 来自 p 的消息解密/校验失败: 坏");
    assert_eq!(state.peers.get(&peer("p")).unwrap().records.len(), 1);
}

#[test]
fn acknowledgements_end_the_wait() {
    let mut state = node(true);
    let msg = || ChatMsg { msg_id: 1, nickname: "我".to_string(), text: "嗨".to_string() };
    state.pending_chat_msgs.insert(4, (peer("p"), msg(), 0));
    state.pending_chat_msgs.insert(5, (peer("p"), msg(), 0));
    let ev = ChatEvent::Response { request: 4, ack: ChatAck { msg_id: 1, ok: true } };
    assert!(matches!(handle_chat_event(&mut state, ev, &now()), ChatAction::Nothing));
    assert!(!state.pending_chat_msgs.contains(&4));
    assert!(state.pending_chat_msgs.contains(&5));
    assert_eq!(last_log(&state), "[聊天] 消息 #1 已送达确认(ACK)");
    assert_eq!(toast(&state), Some("✓ 消息已送达"));
    let ev = ChatEvent::Response { request: 5, ack: ChatAck { msg_id: 1, ok: false } };
    handle_chat_event(&mut state, ev, &now());
    assert_eq!(last_log(&state), "[聊天] 消息 #1 对方未能正确收到");
    assert_eq!(toast(&state), Some("✗ 消息发送失败（对方未能收到）"));
}

#[test]
fn messages_are_sent_again_three_times() {
    assert_eq!(MAX_RETRIES, 3);
    let mut state = node(true);
    state.sessions.insert(peer("p"), [1u8; 32]);
    state.select_peer(peer("p"));
    let plan = send_chat(&mut state, "嗨").unwrap();
    on_sealed(&mut state, &plan, &peer("p"), Ok(envelope()), &now());
    let mut request = 1;
    for n in 1..=3 {
        let ev = ChatEvent::OutboundFailure {
            peer: peer("p"),
            request,
            error: "Timeout".to_string(),
            id: "9".to_string(),
        };
        let again = match handle_chat_event(&mut state, ev, &now()) {
            ChatAction::Resend(again) => again,
            _ => panic!("not sent again"),
        };
        assert_eq!(again.retries, n - 1);
        assert_eq!(
            last_log(&state),
            format!("[聊天] 消息 #1 发送失败(Timeout)，第{n}次重传…")
        );
        assert_eq!(toast(&state), Some(format!("↻ 消息重传中({n}/3)").as_str()));
        on_resealed(&mut state, again, Some(envelope()));
        request += 1;
        assert_eq!(state.pending_chat_msgs.get(&request).unwrap().2, n);
    }
    let ev = ChatEvent::OutboundFailure {
        peer: peer("p"),
        request,
        error: "Timeout".to_string(),
        id: "9".to_string(),
    };
    assert!(matches!(handle_chat_event(&mut state, ev, &now()), ChatAction::Nothing));
    assert_eq!(last_log(&state), "[聊天] 消息 #1 重试3次仍失败，放弃");
    assert_eq!(toast(&state), Some("✗ 消息发送失败（已重试3次）"));
    assert_eq!(
        record(&state, "p"),
        ("system".to_string(), "[系统] 消息「嗨」发送失败".to_string())
    );
    assert_eq!(state.pending_chat_msgs.len(), 0);
    let ev = ChatEvent::OutboundFailure {
        peer: peer("p"),
        request,
        error: "Timeout".to_string(),
        id: "9".to_string(),
    };
    handle_chat_event(&mut state, ev, &now());
    assert_eq!(last_log(&state), "[聊天] 发送给 p 失败: Timeout (id=9)");
}

#[test]
fn no_resend_without_a_session() {
    let mut state = node(true);
    let msg = ChatMsg { msg_id: 1, nickname: "我".to_string(), text: "嗨".to_string() };
    state.pending_chat_msgs.insert(4, (peer("p"), msg, 0));
    let ev = ChatEvent::OutboundFailure {
        peer: peer("p"),
        request: 4,
        error: "E".to_string(),
        id: "4".to_string(),
    };
    assert!(matches!(handle_chat_event(&mut state, ev, &now()), ChatAction::Nothing));
    assert_eq!(state.pending_chat_msgs.len(), 0);
}

#[test]
fn resend_that_cannot_be_sealed_is_dropped() {
    let mut state = node(true);
    let again = peerchat::net::Resend {
        peer: peer("p"),
        key: [0; 32],
        msg: ChatMsg { msg_id: 1, nickname: String::new(), text: String::new() },
        retries: 0,
    };
    on_resealed(&mut state, again, None);
    assert_eq!(state.pending_chat_msgs.len(), 0);
    assert!(state.take_effects().is_empty());
}

#[test]
fn file_events_are_passed_on() {
    let mut state = node(true);
    state.sessions.insert(peer("p"), [1u8; 32]);
    let ev = FileEvent::Request {
        peer: peer("p"),
        opened: Request::Message(FileMsg::Check { file_id: 3, total: 1 }),
    };
    match handle_file_event(&mut state, ev, &now()) {
        FileAction::Step(FileStep::Reply(FileResp::Missing { file_id: 3, missing })) => {
            assert_eq!(missing, vec![0])
        }
        _ => panic!("no reply"),
    }
    let bad = FileMsg::Chunk {
        file_id: 3,
        filename: "f".to_string(),
        total: 1,
        index: 0,
        data: "%".to_string(),
    };
    let ev = FileEvent::Request { peer: peer("p"), opened: Request::Message(bad) };
    assert!(matches!(handle_file_event(&mut state, ev, &now()), FileAction::Refused));
    let ev = FileEvent::Response {
        request: 1,
        response: FileResp::OfferReply { file_id: 1, ok: true },
    };
    assert!(matches!(handle_file_event(&mut state, ev, &now()), FileAction::Nothing));
    let ev = FileEvent::OutboundFailure { request: 1 };
    assert!(matches!(handle_file_event(&mut state, ev, &now()), FileAction::Nothing));
    assert!(matches!(handle_file_event(&mut state, FileEvent::Other, &now()), FileAction::Nothing));
}

#[test]
fn connections_come_and_go() {
    let mut state = node(true);
    let ev = NetEvent::NewListenAddr { address: "/ip4/127.0.0.1/tcp/1".to_string() };
    handle_swarm_event(&mut state, ev, &now());
    assert_eq!(state.listen_addrs, vec!["/ip4/127.0.0.1/tcp/1/p2p/self"]);
    assert_eq!(last_log(&state), "[监听] 正在地址: /ip4/127.0.0.1/tcp/1/p2p/self 等待连接");
    let up = || NetEvent::ConnectionEstablished {
        peer: peer("p"),
        addr: "/ip4/10.0.0.1/tcp/2".to_string(),
    };
    handle_swarm_event(&mut state, up(), &now());
    assert_eq!(last_log(&state), "[成功] 已与节点 p 建立连接（/ip4/10.0.0.1/tcp/2）");
    assert!(state.peers.get(&peer("p")).unwrap().online);
    let first = state.take_effects();
    assert_eq!(first, vec![Effect::SendKey { peer: peer("p"), hello: hello(&state) }]);
    handle_swarm_event(&mut state, up(), &now());
    assert!(state.take_effects().is_empty());
    state.sessions.insert(peer("p"), [1u8; 32]);
    let down = |remaining| NetEvent::ConnectionClosed {
        peer: peer("p"),
        remaining,
        cause: "None".to_string(),
    };
    let before = log(&state);
    handle_swarm_event(&mut state, down(1), &now());
    assert!(state.connected.contains(&peer("p")));
    assert!(state.sessions.contains(&peer("p")));
    assert!(state.peers.get(&peer("p")).unwrap().online);
    assert_eq!(log(&state), before);
    handle_swarm_event(&mut state, down(0), &now());
    assert!(!state.connected.contains(&peer("p")));
    assert!(!state.sessions.contains(&peer("p")));
    assert!(!state.peers.get(&peer("p")).unwrap().online);
    assert_eq!(last_log(&state), "[断开] 节点 p 已断开（原因: None）");
    assert_eq!(
        record(&state, "p"),
        ("system".to_string(), "[离线] 对方已下线".to_string())
    );
}

#[test]
fn heartbeats_and_discovery() {
    let mut state = node(true);
    let ping = |result| NetEvent::Ping { peer: peer("p"), result };
    handle_swarm_event(&mut state, ping(Ok("1ms".to_string())), &now());
    assert_eq!(last_log(&state), "[心跳] 节点 p 在线（RTT = 1ms）");
    handle_swarm_event(&mut state, ping(Err("慢".to_string())), &now());
    assert_eq!(last_log(&state), "[心跳] 节点 p 心跳失败: 慢");
    let found = || NetEvent::Discovered { peer: peer("p"), addr: "/ip4/1.1.1.1".to_string() };
    match handle_swarm_event(&mut state, found(), &now()) {
        NetAction::Dial { addr } => assert_eq!(addr, "/ip4/1.1.1.1"),
        _ => panic!("not dialled"),
    }
    assert_eq!(last_log(&state), "[发现] mDNS 发现节点: p @ /ip4/1.1.1.1");
    assert_eq!(
        state.peers.get(&peer("p")).unwrap().last_addr,
        Some("/ip4/1.1.1.1".to_string())
    );
    on_discovery_dial_failed(&mut state, "/ip4/1.1.1.1", "拒绝");
    assert_eq!(last_log(&state), "[发现] 拨号 /ip4/1.1.1.1 失败: 拒绝");
    state.connected.insert(peer("p"), ());
    assert!(matches!(handle_swarm_event(&mut state, found(), &now()), NetAction::Nothing));
    handle_swarm_event(&mut state, NetEvent::Expired { peer: peer("p") }, &now());
    assert_eq!(last_log(&state), "[发现] 节点 p 的 mDNS 记录已过期");
    let n = state.logs.len();
    assert!(matches!(handle_swarm_event(&mut state, NetEvent::Other, &now()), NetAction::Nothing));
    assert_eq!(state.logs.len(), n);
}

#[test]
fn events_are_passed_on() {
    let mut state = node(true);
    let hi = KeyHello { nickname: "甲".to_string(), pubkey: [3u8; 32] };
    let ev = NetEvent::Key(KeyEvent::Request { peer: peer("p"), hello: hi });
    match handle_swarm_event(&mut state, ev, &now()) {
        NetAction::ReplyKey(reply) => assert_eq!(reply, hello(&state)),
        _ => panic!("no reply"),
    }
    let ev = NetEvent::Key(KeyEvent::Other);
    assert!(matches!(handle_swarm_event(&mut state, ev, &now()), NetAction::Nothing));
    let ev = NetEvent::Chat(ChatEvent::Other);
    assert!(matches!(
        handle_swarm_event(&mut state, ev, &now()),
        NetAction::Chat(ChatAction::Nothing)
    ));
    let ev = NetEvent::File(FileEvent::Other);
    assert!(matches!(
        handle_swarm_event(&mut state, ev, &now()),
        NetAction::File(FileAction::Nothing)
    ));
    let ev = NetEvent::Kad(KadEvent::Other);
    assert!(
        matches!(handle_swarm_event(&mut state, ev, &now()), NetAction::DialPeers(ref d) if d.is_empty())
    );
}

#[test]
fn nodes_found_in_the_hash_table_are_dialled() {
    let mut state = node(true);
    state.connected.insert(peer("known"), ());
    let update = |name: &str, new| KadEvent::RoutingUpdated {
        peer: peer(name),
        is_new_peer: new,
        addresses: vec!["/ip4/1.1.1.1".to_string(), "/ip4/2.2.2.2".to_string()],
    };
    let dials = handle_kad_event(&mut state, update("p", true));
    let at = |addr: &str| Dialing { peer: peer("p"), addr: Some(addr.to_string()) };
    assert_eq!(dials, vec![at("/ip4/1.1.1.1"), at("/ip4/2.2.2.2")]);
    assert_eq!(last_log(&state), "[DHT] 路由表新增节点 p，尝试直连");
    assert!(handle_kad_event(&mut state, update("p", false)).is_empty());
    assert!(handle_kad_event(&mut state, update("known", true)).is_empty());
    assert_eq!(state.logs.len(), 1);
    let found = KadEvent::FoundProviders { providers: vec![peer("known"), peer("q")] };
    let dials = handle_kad_event(&mut state, found);
    assert_eq!(dials, vec![Dialing { peer: peer("q"), addr: None }]);
    assert_eq!(last_log(&state), "[DHT] 发现 2 个在线节点（provider）");
    let none = KadEvent::FoundProviders { providers: vec![] };
    assert!(handle_kad_event(&mut state, none).is_empty());
    assert_eq!(state.logs.len(), 2);
    let closest = KadEvent::ClosestPeers { peers: vec![peer("r"), peer("known")] };
    assert_eq!(handle_kad_event(&mut state, closest).len(), 1);
    on_kad_dial_failed(&mut state, &peer("p"), "无路由");
    assert_eq!(last_log(&state), "[DHT] 拨号 p 失败: 无路由");
}

fn args(list: &[&str]) -> Vec<String> {
    let mut all = vec!["peerchat".to_string()];
    all.extend(list.iter().map(|s| s.to_string()));
    all
}

fn none() -> CliArgs {
    CliArgs {
        nickname: None,
        duration: None,
        no_tui: false,
        dht: false,
        bootstrap: vec![],
        dial: vec![],
    }
}

#[test]
fn command_line() {
    assert_eq!(parse_args(&args(&[])), none());
    assert_eq!(parse_args(&vec![]), none());
    let cli = parse_args(&args(&[
        "--nick", "小明", "--duration", "30", "--no-tui", "--dht", "--bootstrap", "a", "--dial",
        "b", "--bootstrap", "c", "--dial", "d", "junk",
    ]));
    assert_eq!(cli.nickname, Some("小明".to_string()));
    assert_eq!(cli.duration, Some(30));
    assert!(cli.no_tui);
    assert!(cli.dht);
    assert_eq!(cli.bootstrap, vec!["a", "c"]);
    assert_eq!(cli.dial, vec!["b", "d"]);
    assert_eq!(parse_args(&args(&["--nick"])), none());
    assert_eq!(parse_args(&args(&["--duration", "x"])), none());
    assert_eq!(parse_args(&args(&["--nick", "--dht"])).nickname, Some("--dht".to_string()));
    assert!(!parse_args(&args(&["--nick", "--dht"])).dht);
    assert_eq!(parse_args(&args(&["--duration", "5", "--duration", "x"])).duration, None);
}

#[test]
fn chat_goes_to_the_contact_shown() {
    let mut state = node(true);
    assert!(send_chat(&mut state, "嗨").is_none());
    assert_eq!(last_log(&state), "[聊天] 请先在左侧选择一个联系人");
    assert_eq!(state.next_msg_id, 2);
    assert_eq!(state.next_ts, 1);
    state.select_peer(peer("p"));
    let plan = send_chat(&mut state, "嗨").unwrap();
    assert!(plan.targets.is_empty());
    state.sessions.insert(peer("p"), [1u8; 32]);
    state.sessions.insert(peer("q"), [2u8; 32]);
    let plan = send_chat(&mut state, "嗨").unwrap();
    assert_eq!(plan.msg, ChatMsg { msg_id: 3, nickname: "我".to_string(), text: "嗨".to_string() });
    assert_eq!(plan.ts, 2);
    assert_eq!(plan.targets.len(), 1);
    assert_eq!(plan.targets[0].peer, peer("p"));
    assert_eq!(plan.targets[0].key, [1u8; 32]);
    on_sealed(&mut state, &plan, &peer("p"), Ok(envelope()), &now());
    assert_eq!(
        state.take_effects(),
        vec![Effect::SendChat { request: 1, peer: peer("p"), envelope: envelope() }]
    );
    assert_eq!(record(&state, "p"), ("text".to_string(), "嗨".to_string()));
    assert_eq!(state.pending_chat_msgs.get(&1).unwrap().2, 0);
    on_sealed(&mut state, &plan, &peer("p"), Err("太长".to_string()), &now());
    assert_eq!(last_log(&state), "[聊天] 加密失败: 太长");
    assert_eq!(state.pending_chat_msgs.len(), 1);
}

#[test]
fn chat_without_a_screen_goes_to_everybody() {
    let mut state = node(false);
    assert!(send_chat(&mut state, "嗨").is_none());
    assert_eq!(
        state.take_effects(),
        vec![Effect::Print("[聊天] 还没有任何可发送的对象（尚未发现/协商完成）".to_string())]
    );
    state.sessions.insert(peer("p"), [1u8; 32]);
    state.sessions.insert(peer("q"), [2u8; 32]);
    let plan = send_chat(&mut state, "嗨").unwrap();
    let names: Vec<&str> = plan.targets.iter().map(|t| t.peer.text.as_str()).collect();
    assert_eq!(names, vec!["p", "q"]);
}

#[test]
fn lines_that_are_typed() {
    let mut state = node(false);
    state.sessions.insert(peer("p"), [1u8; 32]);
    assert!(matches!(handle_cmd(&mut state, "   "), Command::Nothing));
    assert!(state.take_effects().is_empty());
    assert!(matches!(handle_cmd(&mut state, " send  a b.txt \n"), Command::SendFile(ref p) if p == "a b.txt"));
    assert!(matches!(handle_cmd(&mut state, "help"), Command::Nothing));
    assert_eq!(
        state.take_effects(),
        vec![Effect::Print(
            "直接输入=群发聊天；`send <路径>`=发文件；`nick <名称>`=改名；Ctrl+C=退出".to_string()
        )]
    );
    handle_cmd(&mut state, "nick  阿花 ");
    assert_eq!(state.nickname, "阿花");
    state.take_effects();
    handle_cmd(&mut state, "/quit");
    assert_eq!(
        state.take_effects(),
        vec![Effect::Print("[提示] 未知命令，输入 help 查看帮助".to_string())]
    );
    match handle_cmd(&mut state, "  大家好 ") {
        Command::SendChat(plan) => {
            assert_eq!(plan.msg.text, "大家好");
            assert_eq!(plan.targets.len(), 1);
        }
        _ => panic!("not sent"),
    }
    assert!(matches!(handle_cmd(&mut state, "send"), Command::SendChat(_)));
}

fn config() -> AppConfig {
    AppConfig {
        nickname: "我".to_string(),
        keypair_b64: String::new(),
        appkey_b64: String::new(),
        friends: vec!["/ip4/5.5.5.5/tcp/5".to_string()],
        bootstrap_nodes: vec![],
    }
}

#[test]
fn announcing() {
    let mut secret = [0u8; 32];
    secret[0] = 1;
    let crypto = AppCrypto::from_secret_bytes(&secret);
    let hex: String = crypto.pubkey.iter().map(|b| format!("{b:02x}")).collect();
    let mut state = AppState::new(crypto, "我".to_string(), true, peer("self"), vec![]);
    announce(&mut state);
    assert_eq!(
        log(&state),
        vec![
            "[启动] 昵称: 我, PeerID: self".to_string(),
            "[启动] 配置已保存到 config.json；聊天记录保存到 conversations/".to_string(),
            format!("[启动] 应用层 X25519 公钥: {hex}"),
        ]
    );
}

#[test]
fn start_without_the_hash_table() {
    let mut state = node(true);
    let mut cli = none();
    cli.dial.push("/ip4/1.1.1.1/tcp/1".to_string());
    let plan = plan_startup(&mut state, &cli, &config());
    assert!(!state.dht_enabled);
    assert!(plan.joins.is_empty());
    assert_eq!(plan.dials, vec!["/ip4/1.1.1.1/tcp/1", "/ip4/5.5.5.5/tcp/5"]);
    assert!(state.logs.is_empty());
}

#[test]
fn start_with_the_hash_table() {
    let mut state = node(true);
    let mut cli = none();
    cli.bootstrap = vec![
        format!("/ip4/1.2.3.4/tcp/4001/p2p/{PEER}"),
        "/ip4/1.2.3.4/tcp/4001".to_string(),
        "nonsense".to_string(),
    ];
    let plan = plan_startup(&mut state, &cli, &config());
    assert!(state.dht_enabled);
    assert_eq!(plan.joins.len(), 1);
    assert_eq!(plan.joins[0].peer, peer(PEER));
    assert_eq!(plan.joins[0].addr, "/ip4/1.2.3.4/tcp/4001");
    let error = "nonsense".parse::<libp2p::Multiaddr>().unwrap_err().to_string();
    assert_eq!(
        log(&state),
        vec![
            "[DHT] 引导地址缺少 /p2p/<id>，已跳过：/ip4/1.2.3.4/tcp/4001".to_string(),
            format!("[DHT] 引导地址解析失败 nonsense：{error}"),
        ]
    );
    let mut passive = node(true);
    let mut cli = none();
    cli.dht = true;
    plan_startup(&mut passive, &cli, &config());
    assert_eq!(
        log(&passive),
        vec!["[DHT] 未提供可用的引导站点，DHT 仅作为被动节点（可由他人发现）"]
    );
}

#[test]
fn outcomes_of_dialling() {
    let mut state = node(true);
    assert!(prepare_dial(&mut state, "/ip4/1.1.1.1/tcp/1"));
    assert!(!prepare_dial(&mut state, "nonsense"));
    assert!(last_log(&state).starts_with("[直连] 地址解析失败 nonsense："));
    on_dialed(&mut state, "x", Ok(()));
    assert_eq!(last_log(&state), "[直连] 正在连接：x");
    on_dialed(&mut state, "x", Err("坏".to_string()));
    assert_eq!(last_log(&state), "[直连] 拨号失败 x：坏");
    on_bootstrap(&mut state, Ok(()));
    assert_eq!(last_log(&state), "[DHT] 已向引导站点发起 bootstrap，正在加入分布式哈希表…");
    on_bootstrap(&mut state, Err("空".to_string()));
    assert_eq!(last_log(&state), "[DHT] bootstrap 失败：空");
    on_providing(&mut state, Ok(()));
    assert_eq!(last_log(&state), "[DHT] 已在 DHT 上宣告自己在线（供他人发现）");
    on_providing(&mut state, Err("满".to_string()));
    assert_eq!(last_log(&state), "[DHT] 宣告在线失败：满");
}

#[test]
fn friends_are_added() {
    let mut state = node(true);
    let addr = format!("/ip4/9.9.9.9/tcp/5000/p2p/{PEER}");
    assert!(matches!(add_friend(&mut state, &addr, false), FriendAction::Dial));
    assert_eq!(state.peers.get(&peer(PEER)).unwrap().last_addr, Some(addr.clone()));
    assert!(!state.peers.get(&peer(PEER)).unwrap().online);
    assert_eq!(state.take_effects(), vec![Effect::SaveFriend(addr.clone())]);
    assert_eq!(last_log(&state), "[好友] 已保存，重启后自动直连");
    assert!(matches!(
        add_friend(&mut state, "/ip4/9.9.9.9/tcp/5000", false),
        FriendAction::Dial
    ));
    assert!(state.take_effects().is_empty());
    assert!(matches!(add_friend(&mut state, "nonsense", true), FriendAction::Nothing));
    assert!(last_log(&state).starts_with("[加好友] 地址解析失败 nonsense："));
    assert!(!state.dht_enabled);
    assert!(matches!(
        add_friend(&mut state, "/ip4/9.9.9.9/tcp/5000", true),
        FriendAction::Nothing
    ));
    assert_eq!(last_log(&state), "[DHT] 引导地址须带 /p2p/<id>，已跳过");
    assert!(state.dht_enabled);
    match add_friend(&mut state, &addr, true) {
        FriendAction::Join(node) => {
            assert_eq!(node.peer, peer(PEER));
            assert_eq!(node.addr, "/ip4/9.9.9.9/tcp/5000");
        }
        _ => panic!("not joined"),
    }
    on_friend_bootstrap(&mut state, &addr, Ok(()));
    assert_eq!(state.take_effects(), vec![Effect::SaveBootstrap(addr.clone())]);
    assert_eq!(last_log(&state), "[DHT] 引导站点已保存，重启后自动加入");
    on_friend_bootstrap(&mut state, &addr, Err("空".to_string()));
    assert!(log(&state).contains(&"[DHT] bootstrap 失败：空".to_string()));
}

#[test]
fn own_address_is_shown() {
    let mut state = AppState::new(AppCrypto::new(), "我".to_string(), true, peer(PEER), vec![]);
    show_my_addr(&mut state);
    assert_eq!(log(&state)[0], format!("[我的信息] PeerId: {PEER}"));
    assert_eq!(last_log(&state), "[我的信息] 尚未获取到监听地址（可能还在初始化）");
    assert_eq!(toast(&state), Some("ID: 12D3KooW"));
    let long = format!("/ip4/127.0.0.1/tcp/1/p2p/{PEER}");
    state.listen_addrs = vec![long.clone(), "b".to_string()];
    show_my_addr(&mut state);
    assert_eq!(last_log(&state), "[我的信息] 监听地址: b");
    assert_eq!(
        toast(&state),
        Some(format!("地址已显示在日志页: {}", &long[..40]).as_str())
    );
}
