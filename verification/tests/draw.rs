use peerchat::chat::ChatRecord;
use peerchat::crypto::AppCrypto;
use peerchat::draw::{
    draw, draw_bottom, draw_chat, draw_contacts, draw_files, draw_log, draw_progress, draw_received,
    is_negative, peer_short, phase_name, render_record, Align, Color, DrawOp, Line, Span, Style,
};
use peerchat::file_transfer::{IncomingTransfer, Offers, OutgoingTransfer, PendingOffer, Phase};
use peerchat::identity::PeerId;
use peerchat::state::AppState;
use peerchat::tui::{handle_mouse, DirEntry, MouseKind, Rect, Tab, UiCmd, UiState};
use std::collections::{HashMap, VecDeque};

const PLAIN: Style = Style { fg: None, bg: None, bold: false };
const BOLD: Style = Style { fg: Some(Color::Blue), bg: None, bold: true };

fn peer(name: &str) -> PeerId {
    PeerId { text: name.to_string() }
}

fn node() -> AppState {
    AppState::new(AppCrypto::new(), "我自己".to_string(), true, peer("self"), vec![])
}

fn rect(x: u16, y: u16, width: u16, height: u16) -> Rect {
    Rect { x, y, width, height }
}

fn fg(color: Color) -> Style {
    Style { fg: Some(color), bg: None, bold: false }
}

fn on(color: Color, ground: Color) -> Style {
    Style { fg: Some(color), bg: Some(ground), bold: false }
}

fn span(text: &str, style: Style) -> Span {
    Span { text: text.to_string(), style }
}

fn raw(text: &str, style: Style, area: Rect) -> DrawOp {
    DrawOp::Raw { text: text.to_string(), style, align: Align::Left, area }
}

fn one_line(text: &str, style: Style, align: Align, area: Rect) -> DrawOp {
    let lines = vec![Line { spans: vec![span(text, style)], align: None }];
    DrawOp::Lines { lines, align, wrap: false, area }
}

fn panel(title: &str, area: Rect) -> DrawOp {
    DrawOp::Panel { title: title.to_string(), area }
}

fn file(name: &str) -> DirEntry {
    DirEntry { name: name.to_string(), is_file: true }
}

fn clicks(ui: &mut UiState, column: u16, row: u16) -> Vec<UiCmd> {
    let mut cmds = Vec::new();
    handle_mouse(ui, MouseKind::LeftDown, column, row, &mut cmds);
    cmds
}

#[test]
fn bad_news_is_recognised() {
    let bad = [
        "发送失败了", "拒绝", "传输中断", "无法", "错误", "无应答", "未送达", "不能", "超时", "未收到",
    ];
    for text in bad {
        assert!(is_negative(text), "{text}");
    }
    assert!(!is_negative("接收成功"));
    assert!(!is_negative(""));
    assert!(!is_negative("失 败"));
}

#[test]
fn records_as_lines() {
    let gray = fg(Color::DarkGray);
    let line = |a: Span, b: Span, align| Line { spans: vec![a, b], align: Some(align) };
    let mine = |text: &str| render_record(&ChatRecord::text_at(true, "我", text, 1, "T"));
    assert_eq!(
        mine("嗨"),
        line(span("我：嗨", fg(Color::Blue)), span("  T", gray), Align::Right)
    );
    assert_eq!(
        mine("失败"),
        line(span("我：失败", on(Color::White, Color::Red)), span("  T", gray), Align::Right)
    );
    let theirs = |text: &str| render_record(&ChatRecord::text_at(false, "甲", text, 1, "T"));
    assert_eq!(
        theirs("嗨"),
        line(span("T ", gray), span("甲：嗨", fg(Color::White)), Align::Left)
    );
    assert_eq!(
        theirs("超时"),
        line(span("T ", gray), span("甲：超时", on(Color::White, Color::Red)), Align::Left)
    );
    let system = |text: &str| render_record(&ChatRecord::system_at(text, 1, "T"));
    assert_eq!(system("上线"), line(span("T ", gray), span("上线", gray), Align::Center));
    assert_eq!(
        system("拒绝"),
        line(span("T ", gray), span("拒绝", on(Color::White, Color::Red)), Align::Center)
    );
    let of_file = |text: &str| render_record(&ChatRecord::file_at(true, "f", text, 1, "T"));
    assert_eq!(
        of_file("好"),
        line(span("T ", gray), span("〔文件〕好", fg(Color::Blue)), Align::Left)
    );
    assert_eq!(
        of_file("中断"),
        line(span("T ", gray), span("〔文件〕中断", on(Color::White, Color::Red)), Align::Left)
    );
    let mut odd = ChatRecord::system_at("好", 1, "T");
    odd.kind = "?".to_string();
    assert_eq!(
        render_record(&odd),
        line(span("T ", gray), span("好", fg(Color::White)), Align::Left)
    );
}

#[test]
fn names_of_phases_and_peers() {
    assert_eq!(phase_name(Phase::Offering), "等待接受");
    assert_eq!(phase_name(Phase::Sending), "发送中");
    assert_eq!(phase_name(Phase::Checking), "查漏");
    assert_eq!(phase_name(Phase::Done), "完成");
    let mut state = node();
    assert_eq!(peer_short(&state, &peer("0123456789")), "0123456789");
    state.peer_or_insert(&peer("0123456789"));
    assert_eq!(peer_short(&state, &peer("0123456789")), "01234567");
    state.peer_or_insert(&peer("0123456789")).nickname = "甲".to_string();
    assert_eq!(peer_short(&state, &peer("0123456789")), "甲");
}

#[test]
fn contacts_without_any() {
    let mut ui = UiState::default();
    let area = rect(0, 2, 32, 27);
    let ops = draw_contacts(area, &node(), &mut ui);
    assert_eq!(
        ops,
        vec![
            panel("联系人", area),
            one_line(" [+加好友] ", fg(Color::Blue), Align::Left, rect(1, 3, 30, 1)),
            raw(
                "等待局域网发现其他节点…（外网见「+加好友」）",
                fg(Color::DarkGray),
                rect(1, 4, 30, 24)
            ),
        ]
    );
    assert_eq!(ui.addfriend_rect, rect(1, 3, 30, 1));
    assert!(ui.contact_rects.is_empty());
}

#[test]
fn contacts_in_order() {
    let mut state = node();
    let second = state.peer_or_insert(&peer("bbbbbbbbbb"));
    second.online = true;
    second.unread = 2;
    second.nickname = "乙".to_string();
    second.last_addr = Some("/ip4/1.1.1.1".to_string());
    state.peer_or_insert(&peer("aaa"));
    state.selected_peer = Some(peer("bbbbbbbbbb"));
    let mut ui = UiState::default();
    let ops = draw_contacts(rect(0, 0, 20, 10), &state, &mut ui);
    let gray = fg(Color::DarkGray);
    let items = vec![
        Line {
            spans: vec![
                span("○", fg(Color::Red)),
                span(" (未知)", fg(Color::White)),
                span("  aaa", gray),
                span("  —", gray),
            ],
            align: None,
        },
        Line {
            spans: vec![
                span("●", fg(Color::Green)),
                span(" 乙", fg(Color::White)),
                span(" 2 ", on(Color::White, Color::Red)),
                span("  bbbbbbbb", gray),
                span("  /ip4/1.1.1.1", gray),
            ],
            align: None,
        },
    ];
    let mark = on(Color::White, Color::Blue);
    assert_eq!(ops[2], DrawOp::List { items, selected: 1, mark, area: rect(1, 2, 18, 7) });
    assert_eq!(ui.contact_ids, vec![peer("aaa"), peer("bbbbbbbbbb")]);
    assert_eq!(ui.contact_sel, 1);
    assert_eq!(
        ui.contact_rects,
        vec![(rect(1, 2, 18, 1), peer("aaa")), (rect(1, 3, 18, 1), peer("bbbbbbbbbb"))]
    );
    state.selected_peer = None;
    ui.contact_sel = 9;
    draw_contacts(rect(0, 0, 20, 10), &state, &mut ui);
    assert_eq!(ui.contact_sel, 1);
}

#[test]
fn conversation_heading() {
    let area = rect(32, 2, 68, 27);
    let head = |state: &AppState| {
        let ops = draw_chat(area, state, &mut UiState::default());
        match &ops[1] {
            DrawOp::Raw { text, area, .. } => {
                assert_eq!(*area, rect(33, 3, 54, 1));
                text.clone()
            }
            other => panic!("unexpected {other:?}"),
        }
    };
    let mut state = node();
    assert_eq!(head(&state), "在左侧选择一个联系人，回车开始对话");
    state.selected_peer = Some(peer("p"));
    assert_eq!(head(&state), "与 p 聊天");
    state.peer_or_insert(&peer("p"));
    assert_eq!(head(&state), "与 (未知) 聊天   [离线]");
    let info = state.peer_or_insert(&peer("p"));
    info.online = true;
    info.nickname = "甲".to_string();
    assert_eq!(head(&state), "与 甲 聊天   [在线]");
}

fn talk(n: u64) -> AppState {
    let mut state = node();
    state.selected_peer = Some(peer("p"));
    for i in 0..n {
        state.record_to_peer(&peer("p"), ChatRecord::system_at(&format!("{i}"), i, "T"));
    }
    state
}

fn shown(state: &AppState, ui: &mut UiState) -> Vec<String> {
    match draw_chat(rect(32, 2, 68, 27), state, ui).swap_remove(3) {
        DrawOp::Lines { lines, area, wrap, .. } => {
            assert_eq!(area, rect(33, 4, 66, 22));
            assert!(wrap);
            lines.into_iter().map(|l| l.spans.last().unwrap().text.clone()).collect()
        }
        other => panic!("unexpected {other:?}"),
    }
}

#[test]
fn conversation_scrolls() {
    let state = talk(30);
    let mut ui = UiState::default();
    let rows = shown(&state, &mut ui);
    assert_eq!((rows.len(), rows[0].as_str(), rows[21].as_str()), (22, "8", "29"));
    ui.chat_scroll = 3;
    assert_eq!(shown(&state, &mut ui)[0], "5");
    ui.chat_scroll = 99;
    assert_eq!(shown(&state, &mut ui)[0], "0");
    assert_eq!(shown(&talk(2), &mut UiState::default()), vec!["0", "1"]);
}

#[test]
fn wheel_shows_what_was_said_before() {
    let state = talk(30);
    let mut ui = UiState::default();
    let mut turn = |kind| {
        handle_mouse(&mut ui, kind, 40, 10, &mut Vec::new());
        shown(&state, &mut ui).swap_remove(0)
    };
    assert_eq!(turn(MouseKind::ScrollUp), "7");
    assert_eq!(turn(MouseKind::ScrollUp), "6");
    assert_eq!(turn(MouseKind::ScrollDown), "7");
    assert_eq!(turn(MouseKind::ScrollDown), "8");
    assert_eq!(turn(MouseKind::ScrollDown), "8");
}

#[test]
fn conversation_input() {
    let area = rect(32, 2, 68, 27);
    let mut ui = UiState::default();
    ui.chat_input = "早".to_string();
    let ops = draw_chat(area, &node(), &mut ui);
    let place = rect(33, 26, 66, 2);
    assert_eq!(ops[0], panel("聊天", area));
    assert_eq!(
        ops[2],
        one_line(" [发文件] ", fg(Color::Blue), Align::Center, rect(87, 3, 12, 1))
    );
    assert_eq!(ops[4], raw("我自己 › 早_", fg(Color::Blue), place));
    assert_eq!(ui.chat_input_rect, place);
    ui.editing_nick = true;
    let ops = draw_chat(area, &node(), &mut ui);
    assert_eq!(ops[4], raw("（正在修改昵称…）", fg(Color::Blue), place));
}

#[test]
fn list_of_files() {
    let area = rect(0, 0, 20, 10);
    let mut ui = UiState::default();
    assert_eq!(
        draw_files(area, vec![], &mut ui),
        vec![
            panel("文件（当前目录）", area),
            raw("当前目录没有文件", fg(Color::DarkGray), rect(1, 1, 18, 8)),
        ]
    );
    ui.file_sel = 7;
    assert_eq!(
        draw_files(area, vec![file("b"), file("a")], &mut ui),
        vec![
            panel("文件（当前目录）", area),
            raw(" a", PLAIN, rect(1, 1, 18, 1)),
            raw(" b", on(Color::White, Color::Blue), rect(1, 2, 18, 1)),
        ]
    );
    assert_eq!(ui.file_sel, 1);
    assert_eq!(ui.file_list, vec!["a", "b"]);
}

#[test]
fn transfers_in_progress() {
    let area = rect(0, 0, 20, 10);
    let mut state = node();
    assert_eq!(
        draw_progress(area, &state),
        vec![
            panel("进度", area),
            raw("当前没有进行中的文件传输", fg(Color::DarkGray), rect(1, 1, 18, 8)),
        ]
    );
    state.outgoing_files.insert(
        1,
        OutgoingTransfer {
            peer: peer("p"),
            file_id: 1,
            filename: "f".to_string(),
            file_hash: String::new(),
            chunks: vec![vec![0]; 5],
            pending: VecDeque::from(vec![3, 4]),
            in_flight: 0,
            phase: Phase::Sending,
            checked: false,
        },
    );
    let chunks = HashMap::from([(0u32, vec![1u8])]);
    state
        .incoming_files
        .insert(2, IncomingTransfer { filename: "g".to_string(), total: 4, chunks });
    let blue = fg(Color::Blue);
    assert_eq!(
        draw_progress(area, &state),
        vec![
            panel("进度", area),
            raw("↑ p f [发送中]", PLAIN, rect(1, 1, 18, 2)),
            DrawOp::Gauge { done: 3, total: 5, style: blue, area: rect(1, 2, 18, 1) },
            raw("↓ g [接收中]", PLAIN, rect(1, 3, 18, 2)),
            DrawOp::Gauge { done: 1, total: 4, style: blue, area: rect(1, 4, 18, 1) },
        ]
    );
}

#[test]
fn log_page() {
    let mut state = node();
    state.log("一".to_string());
    let area = rect(0, 0, 20, 10);
    let entries = vec!["一".to_string()];
    assert_eq!(
        draw_log(area, &state),
        vec![panel("日志", area), DrawOp::Log { entries, area: rect(1, 1, 18, 8) }]
    );
    // a frame of one cell has nothing within
    let ops = draw_log(rect(3, 3, 1, 1), &state);
    assert!(matches!(ops[1], DrawOp::Log { area, .. } if area == rect(4, 4, 0, 0)));
}

#[test]
fn received_files() {
    let area = rect(0, 0, 20, 10);
    assert_eq!(
        draw_received(area, vec![DirEntry { name: "d".to_string(), is_file: false }]),
        vec![
            panel("已收文件", area),
            raw("downloads/ 目录还没有文件", fg(Color::DarkGray), rect(1, 1, 18, 8)),
        ]
    );
    assert_eq!(
        draw_received(area, vec![file("y"), file("x")]),
        vec![
            panel("已收文件", area),
            raw(" x", fg(Color::White), rect(1, 1, 18, 1)),
            raw(" y", fg(Color::White), rect(1, 2, 18, 1)),
        ]
    );
}

#[test]
fn bottom_of_the_screen() {
    let area = rect(0, 29, 100, 1);
    let mut state = node();
    let mut ui = UiState::default();
    let blue = |text: &str| one_line(text, fg(Color::Blue), Align::Left, area);
    assert_eq!(draw_bottom(area, &mut state, &ui), raw("", PLAIN, area));
    state.notice("好");
    ui.editing_nick = true;
    ui.nick_input = "阿".to_string();
    assert_eq!(
        draw_bottom(area, &mut state, &ui),
        blue("修改昵称：阿_   （回车确认 · Esc 取消）")
    );
    ui.editing_nick = false;
    ui.editing_friend = true;
    ui.friend_input = "/ip4".to_string();
    assert_eq!(
        draw_bottom(area, &mut state, &ui),
        blue("加好友（直连）：/ip4_   （回车确认 · Tab切换类型 · Esc取消）")
    );
    ui.friend_bootstrap = true;
    assert_eq!(
        draw_bottom(area, &mut state, &ui),
        blue("加好友（DHT引导）：/ip4_   （回车确认 · Tab切换类型 · Esc取消）")
    );
    ui.editing_friend = false;
    assert_eq!(draw_bottom(area, &mut state, &ui), blue(" ☞ 好"));
    assert_eq!(draw_bottom(area, &mut state, &ui), raw("", PLAIN, area));
}

#[test]
fn top_of_the_screen() {
    let mut state = node();
    let mut ui = UiState::default();
    ui.tab = Tab::Log;
    let ops = draw(rect(0, 0, 100, 30), vec![], &mut state, &mut ui);
    assert_eq!(ops[0], one_line(" peerchat", BOLD, Align::Left, rect(0, 0, 16, 1)));
    assert_eq!(
        ops[1],
        DrawOp::Raw {
            text: "我: 我自己".to_string(),
            style: fg(Color::DarkGray),
            align: Align::Right,
            area: rect(16, 0, 72, 1),
        }
    );
    assert_eq!(
        ops[2],
        one_line(" [ 设置 ] ", fg(Color::Blue), Align::Center, rect(88, 0, 12, 1))
    );
    assert_eq!(ops[3], one_line("  聊天 ", fg(Color::DarkGray), Align::Left, rect(0, 1, 10, 1)));
    assert_eq!(ops[6], one_line(" ▸日志 ", BOLD, Align::Left, rect(30, 1, 10, 1)));
    assert_eq!(ops[8], panel("联系人", rect(0, 2, 32, 27)));
    assert_eq!(ops[11], panel("日志", rect(32, 2, 68, 27)));
    assert_eq!(*ops.last().unwrap(), raw("", PLAIN, rect(0, 29, 100, 1)));
}

#[test]
fn each_page_is_drawn() {
    let titles = [
        (Tab::Chat, "聊天"),
        (Tab::Files, "文件（当前目录）"),
        (Tab::Progress, "进度"),
        (Tab::Log, "日志"),
        (Tab::Received, "已收文件"),
    ];
    for (tab, title) in titles {
        let mut ui = UiState::default();
        ui.tab = tab;
        let ops = draw(rect(0, 0, 100, 30), vec![file("a")], &mut node(), &mut ui);
        assert_eq!(ops[11], panel(title, rect(32, 2, 68, 27)));
    }
}

#[test]
fn what_is_drawn_is_clicked() {
    let mut state = node();
    state.peer_or_insert(&peer("a"));
    state.peer_or_insert(&peer("p"));
    state.selected_peer = Some(peer("p"));
    let offer = |file_id| PendingOffer { file_id, filename: "f".to_string(), size: 7 };
    state.pending_offers.insert(peer("p"), Offers { list: vec![offer(4), offer(5)] });
    state.record_to_peer(&peer("p"), ChatRecord::system_at("x", 1, "T"));
    let mut ui = UiState::default();
    let ops = draw(rect(0, 0, 100, 30), vec![], &mut state, &mut ui);
    match &ops[14] {
        DrawOp::Lines { lines, area, .. } => {
            assert_eq!(*area, rect(33, 4, 66, 22));
            assert_eq!(
                lines[1].spans,
                vec![span("对方想发来文件：f（7 字节）  点左=接受 点右=拒绝", fg(Color::Blue))]
            );
        }
        other => panic!("unexpected {other:?}"),
    }
    assert!(clicks(&mut ui, 33, 4).is_empty());
    assert_eq!(clicks(&mut ui, 33, 5), vec![UiCmd::AcceptFile(peer("p"), 4)]);
    assert_eq!(clicks(&mut ui, 65, 6), vec![UiCmd::AcceptFile(peer("p"), 5)]);
    assert_eq!(clicks(&mut ui, 66, 6), vec![UiCmd::RejectFile(peer("p"), 5)]);
    assert!(clicks(&mut ui, 33, 7).is_empty());
    assert_eq!(clicks(&mut ui, 1, 4), vec![UiCmd::SelectPeer(peer("a"))]);
    assert_eq!(clicks(&mut ui, 30, 5), vec![UiCmd::SelectPeer(peer("p"))]);
    assert_eq!(clicks(&mut ui, 87, 3), vec![UiCmd::PickFile]);
    assert!(clicks(&mut ui, 1, 3).is_empty());
    assert!(ui.editing_friend);
    assert!(clicks(&mut ui, 88, 0).is_empty());
    assert!(ui.editing_nick);
    assert!(clicks(&mut ui, 25, 1).is_empty());
    assert_eq!(ui.tab, Tab::Progress);
}

#[test]
fn small_screens_are_drawn() {
    for (width, height) in [(0, 0), (1, 1), (10, 3), (3, 40), (65535, 2)] {
        for tab in [Tab::Chat, Tab::Files, Tab::Progress, Tab::Log, Tab::Received] {
            let mut ui = UiState::default();
            ui.tab = tab;
            let size = rect(0, 0, width, height);
            let entries = vec![file("a"), file("b"), file("c")];
            let ops = draw(size, entries, &mut talk(5), &mut ui);
            for r in ui.tab_rects.iter().map(|t| t.0).chain(ui.contact_rects.iter().map(|c| c.0)) {
                assert!(r.x + r.width <= width && r.y + r.height <= height);
            }
            assert!(ops.len() > 10);
        }
    }
}
