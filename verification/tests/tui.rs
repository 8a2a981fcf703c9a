use peerchat::identity::PeerId;
use peerchat::tui::{
    find_row, handle_key, handle_mouse, in_rect, move_sel, next_tab, refresh_file_list, set_toast,
    sorted_files, take_toast, toast_cell, DirEntry, KeyCode, MouseKind, Rect, Tab, UiCmd, UiState,
};

fn peer(name: &str) -> PeerId {
    PeerId { text: name.to_string() }
}

fn keys(ui: &mut UiState, codes: &[KeyCode]) -> Vec<UiCmd> {
    let mut cmds = Vec::new();
    for code in codes {
        handle_key(ui, *code, false, &mut cmds);
    }
    cmds
}

fn click(ui: &mut UiState, column: u16, row: u16) -> Vec<UiCmd> {
    let mut cmds = Vec::new();
    handle_mouse(ui, MouseKind::LeftDown, column, row, &mut cmds);
    cmds
}

fn rect(x: u16, y: u16, width: u16, height: u16) -> Rect {
    Rect { x, y, width, height }
}

#[test]
fn notice_is_shown_once() {
    let mut cell = toast_cell();
    assert_eq!(take_toast(&mut cell), None);
    set_toast(&mut cell, "一");
    set_toast(&mut cell, "二");
    assert_eq!(take_toast(&mut cell), Some("二".to_string()));
    assert_eq!(take_toast(&mut cell), None);
}

#[test]
fn pages_and_titles() {
    let order = [Tab::Chat, Tab::Files, Tab::Progress, Tab::Log, Tab::Received];
    let titles: Vec<&str> = order.iter().map(|t| t.title()).collect();
    assert_eq!(titles, vec!["聊天", "文件", "进度", "日志", "已收文件"]);
    for i in 0..5 {
        assert_eq!(next_tab(order[i]), order[(i + 1) % 5]);
    }
    let mut ui = UiState::default();
    assert!(keys(&mut ui, &[KeyCode::Tab]).is_empty());
    assert_eq!(ui.tab, Tab::Files);
}

#[test]
fn points_in_rectangles() {
    let r = rect(2, 3, 4, 1);
    assert!(in_rect((2, 3), r));
    assert!(in_rect((5, 3), r));
    assert!(!in_rect((6, 3), r));
    assert!(!in_rect((2, 4), r));
    assert!(!in_rect((1, 3), r));
    assert!(!in_rect((0, 0), Rect::none()));
}

#[test]
fn files_are_listed_in_order() {
    let entry = |name: &str, is_file| DirEntry { name: name.to_string(), is_file };
    let entries = || vec![entry("b", true), entry("dir", false), entry("a", true), entry("B", true)];
    assert_eq!(sorted_files(entries()), vec!["B", "a", "b"]);
    let mut ui = UiState::default();
    refresh_file_list(&mut ui, entries());
    assert_eq!(ui.file_list, vec!["B", "a", "b"]);
    refresh_file_list(&mut ui, vec![]);
    assert!(ui.file_list.is_empty());
}

#[test]
fn typing_into_the_chat() {
    let mut ui = UiState::default();
    let typed = [KeyCode::Char('你'), KeyCode::Char('q'), KeyCode::Char('x'), KeyCode::Backspace];
    assert!(keys(&mut ui, &typed).is_empty());
    assert_eq!(ui.chat_input, "你q");
    assert_eq!(keys(&mut ui, &[KeyCode::Enter]), vec![UiCmd::SendChat("你q".to_string())]);
    assert_eq!(ui.chat_input, "");
    assert!(keys(&mut ui, &[KeyCode::Backspace, KeyCode::Enter, KeyCode::Other]).is_empty());
    keys(&mut ui, &[KeyCode::Char('a'), KeyCode::Esc]);
    assert_eq!(ui.chat_input, "");
    assert!(ui.left_focused);
    keys(&mut ui, &[KeyCode::Esc]);
    assert!(!ui.left_focused);
}

#[test]
fn letters_are_typed_on_the_chat_page_only() {
    let mut ui = UiState::default();
    ui.tab = Tab::Log;
    keys(&mut ui, &[KeyCode::Char('a')]);
    assert_eq!(ui.chat_input, "");
    ui.chat_input = "b".to_string();
    keys(&mut ui, &[KeyCode::Backspace]);
    assert_eq!(ui.chat_input, "b");
}

#[test]
fn leaving() {
    let mut ui = UiState::default();
    let mut cmds = Vec::new();
    handle_key(&mut ui, KeyCode::Char('c'), true, &mut cmds);
    handle_key(&mut ui, KeyCode::Char('d'), true, &mut cmds);
    assert_eq!(cmds, vec![UiCmd::Quit]);
    assert_eq!(ui.chat_input, "");
}

#[test]
fn arrows_move_through_contacts() {
    let mut ui = UiState::default();
    assert!(keys(&mut ui, &[KeyCode::Up, KeyCode::Down]).is_empty());
    ui.contact_ids = vec![peer("a"), peer("b")];
    let select = |name: &str| UiCmd::SelectPeer(peer(name));
    assert_eq!(
        keys(&mut ui, &[KeyCode::Down, KeyCode::Down, KeyCode::Up, KeyCode::Enter]),
        vec![select("b"), select("b"), select("a"), select("a")]
    );
    ui.tab = Tab::Log;
    assert!(keys(&mut ui, &[KeyCode::Down]).is_empty());
    assert_eq!(ui.contact_sel, 1);
}

#[test]
fn arrows_move_through_files() {
    let mut ui = UiState::default();
    ui.tab = Tab::Files;
    assert!(keys(&mut ui, &[KeyCode::Enter]).is_empty());
    ui.file_list = vec!["a".to_string(), "b".to_string()];
    ui.contact_ids = vec![peer("p")];
    let got = keys(&mut ui, &[KeyCode::Down, KeyCode::Down, KeyCode::Enter]);
    assert_eq!(got, vec![UiCmd::SendFile("b".to_string())]);
    move_sel(&mut ui, -1);
    assert_eq!(ui.file_sel, 0);
    move_sel(&mut ui, -1);
    assert_eq!(ui.file_sel, 0);
    assert_eq!(ui.contact_sel, 0);
}

#[test]
fn changing_the_nickname() {
    let mut ui = UiState::default();
    ui.editing_nick = true;
    let typed = [KeyCode::Char('阿'), KeyCode::Char('x'), KeyCode::Backspace, KeyCode::Tab];
    assert!(keys(&mut ui, &typed).is_empty());
    assert_eq!(ui.nick_input, "阿");
    assert_eq!(ui.tab, Tab::Chat);
    assert!(!ui.friend_bootstrap);
    assert_eq!(keys(&mut ui, &[KeyCode::Enter]), vec![UiCmd::SetNickname("阿".to_string())]);
    assert!(!ui.editing_nick);
    assert_eq!(ui.nick_input, "");
    ui.editing_nick = true;
    assert!(keys(&mut ui, &[KeyCode::Enter]).is_empty());
    assert!(!ui.editing_nick);
    ui.editing_nick = true;
    keys(&mut ui, &[KeyCode::Char('x'), KeyCode::Esc]);
    assert!(!ui.editing_nick);
    assert_eq!(ui.nick_input, "");
}

#[test]
fn adding_a_friend() {
    let mut ui = UiState::default();
    ui.editing_friend = true;
    let got = keys(&mut ui, &[KeyCode::Char('/'), KeyCode::Tab, KeyCode::Enter]);
    assert_eq!(got, vec![UiCmd::AddFriend { addr: "/".to_string(), bootstrap: true }]);
    assert!(!ui.editing_friend);
    assert_eq!(ui.friend_input, "");
    ui.editing_friend = true;
    keys(&mut ui, &[KeyCode::Char('a'), KeyCode::Char('b'), KeyCode::Backspace, KeyCode::Tab]);
    assert_eq!(ui.friend_input, "a");
    assert!(!ui.friend_bootstrap);
    keys(&mut ui, &[KeyCode::Up, KeyCode::Esc]);
    assert!(!ui.editing_friend);
    assert_eq!(ui.friend_input, "");
}

#[test]
fn scrolling() {
    let mut ui = UiState::default();
    let mut cmds = Vec::new();
    handle_mouse(&mut ui, MouseKind::ScrollDown, 1, 2, &mut cmds);
    assert_eq!(ui.chat_scroll, 0);
    handle_mouse(&mut ui, MouseKind::ScrollUp, 3, 4, &mut cmds);
    handle_mouse(&mut ui, MouseKind::ScrollUp, 3, 4, &mut cmds);
    handle_mouse(&mut ui, MouseKind::ScrollDown, 3, 4, &mut cmds);
    assert_eq!(ui.chat_scroll, 1);
    assert_eq!((ui.mouse_col, ui.mouse_row), (3, 4));
    ui.tab = Tab::Log;
    handle_mouse(&mut ui, MouseKind::ScrollUp, 5, 6, &mut cmds);
    handle_mouse(&mut ui, MouseKind::Other, 5, 6, &mut cmds);
    assert_eq!(ui.chat_scroll, 1);
    assert!(cmds.is_empty());
}

#[test]
fn clicks_in_their_order() {
    let mut ui = UiState::default();
    ui.settings_rect = rect(0, 0, 2, 1);
    ui.addfriend_rect = rect(0, 0, 3, 1);
    ui.sendfile_rect = rect(0, 0, 4, 1);
    ui.tab_rects = vec![(rect(0, 0, 5, 1), Tab::Log), (rect(0, 0, 6, 1), Tab::Chat)];
    ui.contact_ids = vec![peer("a"), peer("b")];
    ui.contact_rects = vec![(rect(0, 0, 7, 1), peer("b"))];
    ui.offer_rects = vec![(rect(0, 0, 12, 1), peer("a"), 5)];
    ui.chat_input_rect = rect(0, 0, 20, 1);
    ui.nick_input = "旧".to_string();
    ui.friend_bootstrap = true;
    assert!(click(&mut ui, 1, 0).is_empty());
    assert!(ui.editing_nick && ui.nick_input.is_empty() && !ui.editing_friend);
    assert!(click(&mut ui, 2, 0).is_empty());
    assert!(ui.editing_friend && !ui.friend_bootstrap);
    assert_eq!(click(&mut ui, 3, 0), vec![UiCmd::PickFile]);
    assert!(click(&mut ui, 4, 0).is_empty());
    assert_eq!(ui.tab, Tab::Log);
    // the button belongs to the chat page
    assert!(click(&mut ui, 3, 0).is_empty());
    assert!(click(&mut ui, 5, 0).is_empty());
    assert_eq!(ui.tab, Tab::Chat);
    assert_eq!(click(&mut ui, 6, 0), vec![UiCmd::SelectPeer(peer("b"))]);
    assert_eq!(ui.contact_sel, 1);
    ui.contact_rects.clear();
    ui.tab_rects.clear();
    assert_eq!(click(&mut ui, 5, 0), vec![UiCmd::AcceptFile(peer("a"), 5)]);
    assert_eq!(click(&mut ui, 6, 0), vec![UiCmd::RejectFile(peer("a"), 5)]);
    assert!(ui.left_focused);
    assert!(click(&mut ui, 13, 0).is_empty());
    assert!(!ui.left_focused);
    assert!(click(&mut ui, 30, 0).is_empty());
}

#[test]
fn rows_of_contacts() {
    let ids = vec![peer("a"), peer("b"), peer("b")];
    assert_eq!(find_row(&ids, &peer("b")), Some(1));
    assert_eq!(find_row(&ids, &peer("c")), None);
}
