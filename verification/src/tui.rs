//! The terminal interface: what it shows where, and what keys and the mouse do.
use vstd::prelude::*;
use crate::identity::PeerId;
use crate::table::{lemma_views_push, opt, views, Dup, Key};
use crate::text::{in_order, sort_by_label};

verus! {

/// A short notice, shown once.
#[derive(Debug, PartialEq)]
pub struct ToastCell {
    pub message: Option<String>,
}

impl View for ToastCell {
    type V = Option<Seq<char>>;

    open spec fn view(&self) -> Option<Seq<char>> {
        opt(self.message)
    }
}

/// A place for notices, with none in it.
pub fn toast_cell() -> (cell: ToastCell)
    ensures
        cell@ is None,
{
    ToastCell { message: None }
}

/// Puts a notice there, in place of one that was not shown yet.
pub fn set_toast(cell: &mut ToastCell, msg: &str)
    ensures
        final(cell)@ == Some(msg@),
{
    cell.message = Some(msg.to_owned());
}

/// Takes the notice out.
pub fn take_toast(cell: &mut ToastCell) -> (msg: Option<String>)
    ensures
        opt(msg) == old(cell)@,
        final(cell)@ is None,
{
    cell.message.take()
}

/// The pages.
#[derive(Debug, Clone, Copy, PartialEq, Eq, Structural)]
pub enum Tab {
    Chat,
    Files,
    Progress,
    Log,
    Received,
}

impl View for Tab {
    type V = Tab;

    open spec fn view(&self) -> Tab {
        *self
    }
}

impl Tab {
    /// The title of the page.
    pub open spec fn title_text(self) -> Seq<char> {
        match self {
            Tab::Chat => "聊天"@,
            Tab::Files => "文件"@,
            Tab::Progress => "进度"@,
            Tab::Log => "日志"@,
            Tab::Received => "已收文件"@,
        }
    }

    /// The title of the page.
    pub fn title(&self) -> (title: &'static str)
        ensures
            title@ == self.title_text(),
    {
        match self {
            Tab::Chat => "聊天",
            Tab::Files => "文件",
            Tab::Progress => "进度",
            Tab::Log => "日志",
            Tab::Received => "已收文件",
        }
    }
}

/// The page after a page; after the last comes the first.
pub open spec fn tab_after(t: Tab) -> Tab {
    match t {
        Tab::Chat => Tab::Files,
        Tab::Files => Tab::Progress,
        Tab::Progress => Tab::Log,
        Tab::Log => Tab::Received,
        Tab::Received => Tab::Chat,
    }
}

/// The page after a page.
pub fn next_tab(t: Tab) -> (next: Tab)
    ensures
        next == tab_after(t),
{
    match t {
        Tab::Chat => Tab::Files,
        Tab::Files => Tab::Progress,
        Tab::Progress => Tab::Log,
        Tab::Log => Tab::Received,
        Tab::Received => Tab::Chat,
    }
}

/// Going on from page to page leads through all of them and back, and to no page twice before.
pub proof fn law_tabs_cycle(t: Tab)
    ensures
        tab_after(tab_after(tab_after(tab_after(tab_after(t))))) == t,
        tab_after(t) != t,
        tab_after(tab_after(t)) != t,
        tab_after(tab_after(tab_after(t))) != t,
        tab_after(tab_after(tab_after(tab_after(t)))) != t,
{
}

/// A rectangle of the screen.
#[derive(Debug, Clone, Copy, PartialEq, Eq, Structural)]
pub struct Rect {
    pub x: u16,
    pub y: u16,
    pub width: u16,
    pub height: u16,
}

impl View for Rect {
    type V = Rect;

    open spec fn view(&self) -> Rect {
        *self
    }
}

impl Rect {
    /// The rectangle does not reach beyond the largest coordinate.
    pub open spec fn fits(self) -> bool {
        self.x + self.width <= u16::MAX && self.y + self.height <= u16::MAX
    }

    /// The empty rectangle in the corner.
    pub open spec fn nowhere() -> Rect {
        Rect { x: 0, y: 0, width: 0, height: 0 }
    }

    /// The empty rectangle in the corner.
    pub fn none() -> (rect: Rect)
        ensures
            rect == Rect::nowhere(),
    {
        Rect { x: 0, y: 0, width: 0, height: 0 }
    }
}

/// The point, column and row, lies in the rectangle.
pub open spec fn inside(p: (u16, u16), r: Rect) -> bool {
    r.x <= p.0 < r.x + r.width && r.y <= p.1 < r.y + r.height
}

/// Whether a point, column and row, lies in a rectangle.
pub fn in_rect(p: (u16, u16), r: Rect) -> (found: bool)
    requires
        r.fits(),
    ensures
        found == inside(p, r),
{
    p.0 >= r.x && p.0 < r.x + r.width && p.1 >= r.y && p.1 < r.y + r.height
}

/// What the user wants.
#[derive(Debug, PartialEq)]
pub enum UiCmd {
    SendChat(String),
    SendFile(String),
    /// To choose a file, and to send it.
    PickFile,
    SelectPeer(PeerId),
    AcceptFile(PeerId, u64),
    RejectFile(PeerId, u64),
    SetNickname(String),
    /// To see the node's own id and addresses.
    ShowMyAddr,
    /// To add a friend by its address: to be dialled, or as a bootstrap node.
    AddFriend { addr: String, bootstrap: bool },
    Quit,
}

/// What a [`UiCmd`] says.
#[verifier::ext_equal]
pub enum UiCmdModel {
    SendChat(Seq<char>),
    SendFile(Seq<char>),
    PickFile,
    SelectPeer(Seq<char>),
    AcceptFile(Seq<char>, u64),
    RejectFile(Seq<char>, u64),
    SetNickname(Seq<char>),
    ShowMyAddr,
    AddFriend { addr: Seq<char>, bootstrap: bool },
    Quit,
}

impl View for UiCmd {
    type V = UiCmdModel;

    open spec fn view(&self) -> UiCmdModel {
        match self {
            UiCmd::SendChat(text) => UiCmdModel::SendChat(text@),
            UiCmd::SendFile(path) => UiCmdModel::SendFile(path@),
            UiCmd::PickFile => UiCmdModel::PickFile,
            UiCmd::SelectPeer(peer) => UiCmdModel::SelectPeer(peer@),
            UiCmd::AcceptFile(peer, id) => UiCmdModel::AcceptFile(peer@, *id),
            UiCmd::RejectFile(peer, id) => UiCmdModel::RejectFile(peer@, *id),
            UiCmd::SetNickname(name) => UiCmdModel::SetNickname(name@),
            UiCmd::ShowMyAddr => UiCmdModel::ShowMyAddr,
            UiCmd::AddFriend { addr, bootstrap } => UiCmdModel::AddFriend {
                addr: addr@,
                bootstrap: *bootstrap,
            },
            UiCmd::Quit => UiCmdModel::Quit,
        }
    }
}

/// The state of the interface.
pub struct UiState {
    /// The page shown.
    pub tab: Tab,
    /// The marked row of the contacts.
    pub contact_sel: usize,
    /// How far the conversation is scrolled up.
    pub chat_scroll: u16,
    /// What is typed into the chat.
    pub chat_input: String,
    /// Whether the nickname is being changed.
    pub editing_nick: bool,
    /// What is typed as the nickname.
    pub nick_input: String,
    /// Whether a friend is being added.
    pub editing_friend: bool,
    /// What is typed as the friend's address.
    pub friend_input: String,
    /// Whether the friend is a bootstrap node.
    pub friend_bootstrap: bool,
    /// Whether the contacts have the focus.
    pub left_focused: bool,
    /// The files of the directory.
    pub file_list: Vec<String>,
    /// The marked row of the files.
    pub file_sel: usize,
    /// The contacts in the order shown.
    pub contact_ids: Vec<PeerId>,
    /// Where each contact is shown.
    pub contact_rects: Vec<(Rect, PeerId)>,
    /// Where each invitation is shown.
    pub offer_rects: Vec<(Rect, PeerId, u64)>,
    /// Where the title of each page is shown.
    pub tab_rects: Vec<(Rect, Tab)>,
    /// Where the chat is typed.
    pub chat_input_rect: Rect,
    /// Where the settings button is shown.
    pub settings_rect: Rect,
    /// Where the button to send a file is shown.
    pub sendfile_rect: Rect,
    /// Where the button to add a friend is shown.
    pub addfriend_rect: Rect,
    /// Where the mouse was last.
    pub mouse_col: u16,
    pub mouse_row: u16,
}

/// What a [`UiState`] holds.
#[verifier::ext_equal]
pub struct UiModel {
    pub tab: Tab,
    pub contact_sel: usize,
    pub chat_scroll: u16,
    pub chat_input: Seq<char>,
    pub editing_nick: bool,
    pub nick_input: Seq<char>,
    pub editing_friend: bool,
    pub friend_input: Seq<char>,
    pub friend_bootstrap: bool,
    pub left_focused: bool,
    pub file_list: Seq<Seq<char>>,
    pub file_sel: usize,
    pub contact_ids: Seq<Seq<char>>,
    pub contact_rects: Seq<(Rect, Seq<char>)>,
    pub offer_rects: Seq<(Rect, Seq<char>, u64)>,
    pub tab_rects: Seq<(Rect, Tab)>,
    pub chat_input_rect: Rect,
    pub settings_rect: Rect,
    pub sendfile_rect: Rect,
    pub addfriend_rect: Rect,
    pub mouse_col: u16,
    pub mouse_row: u16,
}

impl View for UiState {
    type V = UiModel;

    open spec fn view(&self) -> UiModel {
        UiModel {
            tab: self.tab,
            contact_sel: self.contact_sel,
            chat_scroll: self.chat_scroll,
            chat_input: self.chat_input@,
            editing_nick: self.editing_nick,
            nick_input: self.nick_input@,
            editing_friend: self.editing_friend,
            friend_input: self.friend_input@,
            friend_bootstrap: self.friend_bootstrap,
            left_focused: self.left_focused,
            file_list: views(self.file_list@),
            file_sel: self.file_sel,
            contact_ids: views(self.contact_ids@),
            contact_rects: views(self.contact_rects@),
            offer_rects: views(self.offer_rects@),
            tab_rects: views(self.tab_rects@),
            chat_input_rect: self.chat_input_rect,
            settings_rect: self.settings_rect,
            sendfile_rect: self.sendfile_rect,
            addfriend_rect: self.addfriend_rect,
            mouse_col: self.mouse_col,
            mouse_row: self.mouse_row,
        }
    }
}

impl UiModel {
    /// All that can be clicked lies on the screen.
    pub open spec fn wf(self) -> bool {
        &&& forall|i: int|
            0 <= i < self.contact_rects.len() ==> (#[trigger] self.contact_rects[i]).0.fits()
        &&& forall|i: int|
            0 <= i < self.offer_rects.len() ==> (#[trigger] self.offer_rects[i]).0.fits()
        &&& forall|i: int|
            0 <= i < self.tab_rects.len() ==> (#[trigger] self.tab_rects[i]).0.fits()
        &&& self.chat_input_rect.fits()
        &&& self.settings_rect.fits()
        &&& self.sendfile_rect.fits()
        &&& self.addfriend_rect.fits()
    }
}

/// The interface when it begins.
pub open spec fn fresh_ui() -> UiModel {
    UiModel {
        tab: Tab::Chat,
        contact_sel: 0,
        chat_scroll: 0,
        chat_input: Seq::empty(),
        editing_nick: false,
        nick_input: Seq::empty(),
        editing_friend: false,
        friend_input: Seq::empty(),
        friend_bootstrap: false,
        left_focused: true,
        file_list: Seq::empty(),
        file_sel: 0,
        contact_ids: Seq::empty(),
        contact_rects: Seq::empty(),
        offer_rects: Seq::empty(),
        tab_rects: Seq::empty(),
        chat_input_rect: Rect::nowhere(),
        settings_rect: Rect::nowhere(),
        sendfile_rect: Rect::nowhere(),
        addfriend_rect: Rect::nowhere(),
        mouse_col: 0,
        mouse_row: 0,
    }
}

impl Default for UiState {
    /// The interface when it begins.
    fn default() -> (ui: Self)
        ensures
            ui@ == fresh_ui(),
            ui@.wf(),
            ui.tab == Tab::Chat,
            !ui.editing_nick && !ui.editing_friend && !ui.friend_bootstrap,
            ui@.chat_input.len() == 0 && ui@.nick_input.len() == 0 && ui@.friend_input.len() == 0,
            ui.left_focused && ui.chat_scroll == 0,
    {
        UiState {
            tab: Tab::Chat,
            contact_sel: 0,
            chat_scroll: 0,
            chat_input: String::new(),
            editing_nick: false,
            nick_input: String::new(),
            editing_friend: false,
            friend_input: String::new(),
            friend_bootstrap: false,
            left_focused: true,
            file_list: Vec::new(),
            file_sel: 0,
            contact_ids: Vec::new(),
            contact_rects: Vec::new(),
            offer_rects: Vec::new(),
            tab_rects: Vec::new(),
            chat_input_rect: Rect::none(),
            settings_rect: Rect::none(),
            sendfile_rect: Rect::none(),
            addfriend_rect: Rect::none(),
            mouse_col: 0,
            mouse_row: 0,
        }
    }
}

/// An entry of a directory.
#[derive(Debug, PartialEq)]
pub struct DirEntry {
    pub name: String,
    pub is_file: bool,
}

/// What a [`DirEntry`] says.
#[verifier::ext_equal]
pub struct EntryModel {
    pub name: Seq<char>,
    pub is_file: bool,
}

impl View for DirEntry {
    type V = EntryModel;

    open spec fn view(&self) -> EntryModel {
        EntryModel { name: self.name@, is_file: self.is_file }
    }
}

/// The names of the files among the entries.
pub open spec fn files_among(entries: Seq<EntryModel>) -> Seq<Seq<char>>
    decreases entries.len(),
{
    if entries.len() == 0 {
        Seq::empty()
    } else {
        let before = files_among(entries.drop_last());
        if entries.last().is_file {
            before.push(entries.last().name)
        } else {
            before
        }
    }
}

/// The list holds the names of the files among the entries, in order.
pub open spec fn lists_files(list: Seq<Seq<char>>, entries: Seq<EntryModel>) -> bool {
    in_order(list) && list.to_multiset() == files_among(entries).to_multiset()
}

/// The files among the entries of a directory, in the order of their names.
pub fn sorted_files(entries: Vec<DirEntry>) -> (files: Vec<String>)
    ensures
        lists_files(views(files@), views(entries@)),
{
    let ghost all = views(entries@);
    let mut files: Vec<String> = Vec::new();
    proof {
        assert(all.take(0) =~= Seq::<EntryModel>::empty());
        assert(views(files@) =~= Seq::<Seq<char>>::empty());
    }
    for entry in it: entries
        invariant
            all == views(it.seq()),
            views(files@) == files_among(all.take(it.index() as int)),
    {
        let ghost i = it.index() as int;
        proof {
            assert(all[i] == entry@);
            assert(all.take(i + 1).drop_last() =~= all.take(i));
            assert(all.take(i + 1).last() == entry@);
        }
        if entry.is_file {
            proof {
                lemma_views_push(files@, entry.name);
            }
            files.push(entry.name);
        }
    }
    assert(all.take(all.len() as int) =~= all);
    sort_by_label(files)
}

/// Takes in the entries of the directory: its files are listed in order.
pub fn refresh_file_list(ui: &mut UiState, entries: Vec<DirEntry>)
    ensures
        lists_files(final(ui)@.file_list, views(entries@)),
        final(ui)@ == (UiModel { file_list: final(ui)@.file_list, ..old(ui)@ }),
{
    ui.file_list = sorted_files(entries);
}

/// A key.
#[derive(Debug, Clone, Copy, PartialEq)]
pub enum KeyCode {
    Enter,
    Tab,
    Esc,
    Backspace,
    Up,
    Down,
    Char(char),
    /// Any other key.
    Other,
}

/// A row nearer to an end of a list, within the list.
pub open spec fn moved(sel: usize, n: nat, delta: int) -> usize {
    if n == 0 {
        sel
    } else if sel + delta < 0 {
        0
    } else if sel + delta > n - 1 {
        (n - 1) as usize
    } else {
        (sel + delta) as usize
    }
}

/// The interface once the mark of the list shown has moved.
pub open spec fn marked(u: UiModel, delta: int) -> UiModel {
    if u.tab == Tab::Files {
        UiModel { file_sel: moved(u.file_sel, u.file_list.len(), delta), ..u }
    } else {
        UiModel { contact_sel: moved(u.contact_sel, u.contact_ids.len(), delta), ..u }
    }
}

/// The rows can be counted in 32 bits.
pub open spec fn countable(u: UiModel) -> bool {
    &&& u.file_list.len() <= i32::MAX
    &&& u.contact_ids.len() <= i32::MAX
    &&& u.file_sel < i32::MAX
    &&& u.contact_sel < i32::MAX
}

fn moved_to(sel: usize, n: usize, delta: i32) -> (to: usize)
    requires
        n <= i32::MAX,
        sel < i32::MAX,
        -1 <= delta <= 1,
    ensures
        to == moved(sel, n as nat, delta as int),
{
    if n == 0 {
        return sel;
    }
    let at: i32 = sel as i32 + delta;
    let last: i32 = n as i32 - 1;
    if at < 0 {
        0
    } else if at > last {
        last as usize
    } else {
        at as usize
    }
}

/// Moves the mark of the list shown.
pub fn move_sel(ui: &mut UiState, delta: i32)
    requires
        countable(old(ui)@),
        -1 <= delta <= 1,
    ensures
        final(ui)@ == marked(old(ui)@, delta as int),
{
    if ui.tab == Tab::Files {
        ui.file_sel = moved_to(ui.file_sel, ui.file_list.len(), delta);
    } else {
        ui.contact_sel = moved_to(ui.contact_sel, ui.contact_ids.len(), delta);
    }
}

/// A text without its last character.
pub open spec fn popped(s: Seq<char>) -> Seq<char> {
    if s.len() > 0 {
        s.drop_last()
    } else {
        s
    }
}

/// The interface after a key while something is edited.
pub open spec fn edited(u: UiModel, code: KeyCode) -> UiModel {
    match code {
        KeyCode::Enter => if u.editing_nick {
            UiModel { editing_nick: false, nick_input: Seq::empty(), ..u }
        } else {
            UiModel { editing_friend: false, friend_input: Seq::empty(), ..u }
        },
        KeyCode::Tab => if u.editing_friend {
            UiModel { friend_bootstrap: !u.friend_bootstrap, ..u }
        } else {
            u
        },
        KeyCode::Esc => UiModel {
            editing_nick: false,
            editing_friend: false,
            nick_input: Seq::empty(),
            friend_input: Seq::empty(),
            ..u
        },
        KeyCode::Backspace => if u.editing_nick {
            UiModel { nick_input: popped(u.nick_input), ..u }
        } else {
            UiModel { friend_input: popped(u.friend_input), ..u }
        },
        KeyCode::Char(c) => if u.editing_nick {
            UiModel { nick_input: u.nick_input.push(c), ..u }
        } else {
            UiModel { friend_input: u.friend_input.push(c), ..u }
        },
        _ => u,
    }
}

/// What a key asks for while something is edited.
pub open spec fn edit_cmd(u: UiModel, code: KeyCode) -> Option<UiCmdModel> {
    if code != KeyCode::Enter {
        None
    } else if u.editing_nick {
        if u.nick_input.len() > 0 {
            Some(UiCmdModel::SetNickname(u.nick_input))
        } else {
            None
        }
    } else if u.friend_input.len() > 0 {
        Some(
            UiCmdModel::AddFriend { addr: u.friend_input, bootstrap: u.friend_bootstrap },
        )
    } else {
        None
    }
}

/// The conversation with the marked contact is asked for.
pub open spec fn select_cmd(u: UiModel) -> Option<UiCmdModel> {
    if u.contact_sel < u.contact_ids.len() {
        Some(UiCmdModel::SelectPeer(u.contact_ids[u.contact_sel as int]))
    } else {
        None
    }
}

/// The interface after a key.
pub open spec fn after_key(u: UiModel, code: KeyCode, ctrl: bool) -> UiModel {
    if u.editing_nick || u.editing_friend {
        edited(u, code)
    } else {
        match code {
            KeyCode::Tab => UiModel { tab: tab_after(u.tab), ..u },
            KeyCode::Up => marked(u, -1),
            KeyCode::Down => marked(u, 1),
            KeyCode::Enter => if u.tab == Tab::Chat && u.chat_input.len() > 0 {
                UiModel { chat_input: Seq::empty(), ..u }
            } else {
                u
            },
            KeyCode::Backspace => if u.tab == Tab::Chat {
                UiModel { chat_input: popped(u.chat_input), ..u }
            } else {
                u
            },
            KeyCode::Esc => if u.chat_input.len() > 0 {
                UiModel { chat_input: Seq::empty(), ..u }
            } else {
                UiModel { left_focused: !u.left_focused, ..u }
            },
            KeyCode::Char(c) => if !ctrl && u.tab == Tab::Chat {
                UiModel { chat_input: u.chat_input.push(c), ..u }
            } else {
                u
            },
            KeyCode::Other => u,
        }
    }
}

/// What a key asks for.
pub open spec fn key_cmd(u: UiModel, code: KeyCode, ctrl: bool) -> Option<UiCmdModel> {
    if u.editing_nick || u.editing_friend {
        edit_cmd(u, code)
    } else {
        match code {
            KeyCode::Up => if u.tab == Tab::Chat {
                select_cmd(marked(u, -1))
            } else {
                None
            },
            KeyCode::Down => if u.tab == Tab::Chat {
                select_cmd(marked(u, 1))
            } else {
                None
            },
            KeyCode::Enter => if u.tab == Tab::Chat {
                if u.chat_input.len() > 0 {
                    Some(UiCmdModel::SendChat(u.chat_input))
                } else {
                    select_cmd(u)
                }
            } else if u.tab == Tab::Files && u.file_sel < u.file_list.len() {
                Some(UiCmdModel::SendFile(u.file_list[u.file_sel as int]))
            } else {
                None
            },
            KeyCode::Char(c) => if ctrl && c == 'c' {
                Some(UiCmdModel::Quit)
            } else {
                None
            },
            _ => None,
        }
    }
}

/// The list with a command at its end, if there is one.
pub open spec fn with_cmd(cmds: Seq<UiCmdModel>, cmd: Option<UiCmdModel>) -> Seq<UiCmdModel> {
    match cmd {
        Some(c) => cmds.push(c),
        None => cmds,
    }
}

fn push_cmd(cmds: &mut Vec<UiCmd>, cmd: UiCmd)
    ensures
        views(final(cmds)@) == views(old(cmds)@).push(cmd@),
{
    proof {
        lemma_views_push(cmds@, cmd);
    }
    cmds.push(cmd);
}

/// Asks for the conversation with the marked contact.
fn select_marked(ui: &UiState, cmds: &mut Vec<UiCmd>)
    ensures
        views(final(cmds)@) == with_cmd(views(old(cmds)@), select_cmd(ui@)),
{
    if ui.contact_sel < ui.contact_ids.len() {
        let peer = ui.contact_ids[ui.contact_sel].dup();
        push_cmd(cmds, UiCmd::SelectPeer(peer));
    }
}

/// Takes in a key while something is edited.
fn edit_key(ui: &mut UiState, code: KeyCode, cmds: &mut Vec<UiCmd>)
    ensures
        final(ui)@ == edited(old(ui)@, code),
        views(final(cmds)@) == with_cmd(views(old(cmds)@), edit_cmd(old(ui)@, code)),
{
    match code {
        KeyCode::Enter => {
            if ui.editing_nick {
                if ui.nick_input.unicode_len() > 0 {
                    push_cmd(cmds, UiCmd::SetNickname(ui.nick_input.clone()));
                }
                ui.editing_nick = false;
                ui.nick_input.clear();
            } else {
                if ui.friend_input.unicode_len() > 0 {
                    push_cmd(
                        cmds,
                        UiCmd::AddFriend {
                            addr: ui.friend_input.clone(),
                            bootstrap: ui.friend_bootstrap,
                        },
                    );
                }
                ui.editing_friend = false;
                ui.friend_input.clear();
            }
        },
        KeyCode::Tab => {
            if ui.editing_friend {
                ui.friend_bootstrap = !ui.friend_bootstrap;
            }
        },
        KeyCode::Esc => {
            ui.editing_nick = false;
            ui.editing_friend = false;
            ui.nick_input.clear();
            ui.friend_input.clear();
        },
        KeyCode::Backspace => {
            if ui.editing_nick {
                let _ = ui.nick_input.pop();
            } else {
                let _ = ui.friend_input.pop();
            }
        },
        KeyCode::Char(c) => {
            if ui.editing_nick {
                ui.nick_input.push(c);
            } else {
                ui.friend_input.push(c);
            }
        },
        _ => {},
    }
}

/// Takes in a key. While the nickname or a friend's address is typed, all keys go there; else the
/// arrows move through contacts and files, and on the chat page every letter is typed.
pub fn handle_key(ui: &mut UiState, code: KeyCode, ctrl: bool, cmds: &mut Vec<UiCmd>)
    requires
        countable(old(ui)@),
    ensures
        final(ui)@ == after_key(old(ui)@, code, ctrl),
        views(final(cmds)@) == with_cmd(views(old(cmds)@), key_cmd(old(ui)@, code, ctrl)),
{
    if ui.editing_nick || ui.editing_friend {
        edit_key(ui, code, cmds);
        return;
    }
    match code {
        KeyCode::Tab => {
            ui.tab = next_tab(ui.tab);
        },
        KeyCode::Up => {
            move_sel(ui, -1);
            if ui.tab == Tab::Chat {
                select_marked(ui, cmds);
            }
        },
        KeyCode::Down => {
            move_sel(ui, 1);
            if ui.tab == Tab::Chat {
                select_marked(ui, cmds);
            }
        },
        KeyCode::Enter => {
            if ui.tab == Tab::Chat {
                if ui.chat_input.unicode_len() > 0 {
                    push_cmd(cmds, UiCmd::SendChat(ui.chat_input.clone()));
                    ui.chat_input.clear();
                } else {
                    select_marked(ui, cmds);
                }
            } else if ui.tab == Tab::Files {
                if ui.file_sel < ui.file_list.len() {
                    let path = ui.file_list[ui.file_sel].clone();
                    push_cmd(cmds, UiCmd::SendFile(path));
                }
            }
        },
        KeyCode::Backspace => {
            if ui.tab == Tab::Chat {
                let _ = ui.chat_input.pop();
            }
        },
        KeyCode::Esc => {
            if ui.chat_input.unicode_len() > 0 {
                ui.chat_input.clear();
            } else {
                ui.left_focused = !ui.left_focused;
            }
        },
        KeyCode::Char(c) => {
            if !ctrl {
                if ui.tab == Tab::Chat {
                    ui.chat_input.push(c);
                }
            } else if c == 'c' {
                push_cmd(cmds, UiCmd::Quit);
            }
        },
        KeyCode::Other => {},
    }
}

/// What the mouse did.
#[derive(Debug, Clone, Copy, PartialEq, Eq, Structural)]
pub enum MouseKind {
    ScrollUp,
    ScrollDown,
    /// The left button was pressed.
    LeftDown,
    /// Anything else.
    Other,
}

/// The page whose title is at a point: the first of those that are.
pub open spec fn tab_at(rects: Seq<(Rect, Tab)>, p: (u16, u16)) -> Option<Tab>
    decreases rects.len(),
{
    if rects.len() == 0 {
        None
    } else if inside(p, rects[0].0) {
        Some(rects[0].1)
    } else {
        tab_at(rects.skip(1), p)
    }
}

/// The contact at a point: the first of those that are.
pub open spec fn contact_at(rects: Seq<(Rect, Seq<char>)>, p: (u16, u16)) -> Option<Seq<char>>
    decreases rects.len(),
{
    if rects.len() == 0 {
        None
    } else if inside(p, rects[0].0) {
        Some(rects[0].1)
    } else {
        contact_at(rects.skip(1), p)
    }
}

/// The invitation at a point, and where it is shown: the first of those that are.
pub open spec fn offer_at(rects: Seq<(Rect, Seq<char>, u64)>, p: (u16, u16)) -> Option<
    (Rect, Seq<char>, u64),
>
    decreases rects.len(),
{
    if rects.len() == 0 {
        None
    } else if inside(p, rects[0].0) {
        Some(rects[0])
    } else {
        offer_at(rects.skip(1), p)
    }
}

/// The row of a contact: the first one with its id; no row where there is none.
pub open spec fn row_of(ids: Seq<Seq<char>>, peer: Seq<char>) -> Option<nat>
    decreases ids.len(),
{
    if ids.len() == 0 {
        None
    } else if ids[0] == peer {
        Some(0)
    } else {
        match row_of(ids.skip(1), peer) {
            Some(i) => Some(i + 1),
            None => None,
        }
    }
}

/// What a click does, in this order: settings, adding a friend, sending a file, the titles of the
/// pages, the contacts, the invitations, and the place where the chat is typed.
pub open spec fn clicked(u: UiModel, p: (u16, u16)) -> UiModel {
    if inside(p, u.settings_rect) {
        UiModel { editing_nick: true, nick_input: Seq::empty(), ..u }
    } else if inside(p, u.addfriend_rect) {
        UiModel {
            editing_friend: true,
            friend_input: Seq::empty(),
            friend_bootstrap: false,
            ..u
        }
    } else if u.tab == Tab::Chat && inside(p, u.sendfile_rect) {
        u
    } else {
        match (tab_at(u.tab_rects, p), contact_at(u.contact_rects, p), offer_at(u.offer_rects, p)) {
            (Some(tab), _, _) => UiModel { tab, ..u },
            (None, Some(peer), _) => match row_of(u.contact_ids, peer) {
                Some(i) => UiModel { contact_sel: i as usize, ..u },
                None => u,
            },
            (None, None, Some(_)) => u,
            (None, None, None) => if inside(p, u.chat_input_rect) {
                UiModel { left_focused: false, ..u }
            } else {
                u
            },
        }
    }
}

/// What a click asks for. The left half of an invitation accepts it, the right half refuses it.
pub open spec fn click_cmd(u: UiModel, p: (u16, u16)) -> Option<UiCmdModel> {
    if inside(p, u.settings_rect) || inside(p, u.addfriend_rect) {
        None
    } else if u.tab == Tab::Chat && inside(p, u.sendfile_rect) {
        Some(UiCmdModel::PickFile)
    } else {
        match (tab_at(u.tab_rects, p), contact_at(u.contact_rects, p), offer_at(u.offer_rects, p)) {
            (Some(_), _, _) => None,
            (None, Some(peer), _) => Some(UiCmdModel::SelectPeer(peer)),
            (None, None, Some((r, peer, id))) => if p.0 < r.x + r.width / 2 {
                Some(UiCmdModel::AcceptFile(peer, id))
            } else {
                Some(UiCmdModel::RejectFile(peer, id))
            },
            (None, None, None) => None,
        }
    }
}

/// The interface after the mouse did something at a point.
pub open spec fn after_mouse(u: UiModel, kind: MouseKind, p: (u16, u16)) -> UiModel {
    let u1 = UiModel { mouse_col: p.0, mouse_row: p.1, ..u };
    match kind {
        MouseKind::ScrollUp => if u.tab == Tab::Chat {
            UiModel { chat_scroll: (u.chat_scroll + 1) as u16, ..u1 }
        } else {
            u1
        },
        MouseKind::ScrollDown => if u.tab == Tab::Chat && u.chat_scroll > 0 {
            UiModel { chat_scroll: (u.chat_scroll - 1) as u16, ..u1 }
        } else {
            u1
        },
        MouseKind::LeftDown => clicked(u1, p),
        MouseKind::Other => u1,
    }
}

/// What the mouse asks for.
pub open spec fn mouse_cmd(u: UiModel, kind: MouseKind, p: (u16, u16)) -> Option<UiCmdModel> {
    if kind == MouseKind::LeftDown {
        click_cmd(u, p)
    } else {
        None
    }
}

fn find_tab(rects: &Vec<(Rect, Tab)>, p: (u16, u16)) -> (found: Option<Tab>)
    requires
        forall|i: int| 0 <= i < rects.len() ==> (#[trigger] rects[i]).0.fits(),
    ensures
        found == tab_at(views(rects@), p),
{
    let ghost all = views(rects@);
    let mut i: usize = 0;
    assert(all.skip(0) =~= all);
    while i < rects.len()
        invariant
            i <= rects.len(),
            all == views(rects@),
            tab_at(all.skip(i as int), p) == tab_at(all, p),
            forall|i: int| 0 <= i < rects.len() ==> (#[trigger] rects[i]).0.fits(),
        decreases rects.len() - i,
    {
        proof {
            assert(all.skip(i as int)[0] == rects[i as int]@);
            assert(all.skip(i as int).skip(1) =~= all.skip(i + 1));
        }
        if in_rect(p, rects[i].0) {
            return Some(rects[i].1);
        }
        i = i + 1;
    }
    None
}

fn find_contact(rects: &Vec<(Rect, PeerId)>, p: (u16, u16)) -> (found: Option<PeerId>)
    requires
        forall|i: int| 0 <= i < rects.len() ==> (#[trigger] rects[i]).0.fits(),
    ensures
        opt(found) == contact_at(views(rects@), p),
{
    let ghost all = views(rects@);
    let mut i: usize = 0;
    assert(all.skip(0) =~= all);
    while i < rects.len()
        invariant
            i <= rects.len(),
            all == views(rects@),
            contact_at(all.skip(i as int), p) == contact_at(all, p),
            forall|i: int| 0 <= i < rects.len() ==> (#[trigger] rects[i]).0.fits(),
        decreases rects.len() - i,
    {
        proof {
            assert(all.skip(i as int)[0] == rects[i as int]@);
            assert(all.skip(i as int).skip(1) =~= all.skip(i + 1));
        }
        if in_rect(p, rects[i].0) {
            return Some(rects[i].1.dup());
        }
        i = i + 1;
    }
    None
}

fn find_offer(rects: &Vec<(Rect, PeerId, u64)>, p: (u16, u16)) -> (found: Option<
    (Rect, PeerId, u64),
>)
    requires
        forall|i: int| 0 <= i < rects.len() ==> (#[trigger] rects[i]).0.fits(),
    ensures
        opt(found) == offer_at(views(rects@), p),
        found matches Some(offer) ==> offer.0.fits(),
{
    let ghost all = views(rects@);
    let mut i: usize = 0;
    assert(all.skip(0) =~= all);
    while i < rects.len()
        invariant
            i <= rects.len(),
            all == views(rects@),
            offer_at(all.skip(i as int), p) == offer_at(all, p),
            forall|i: int| 0 <= i < rects.len() ==> (#[trigger] rects[i]).0.fits(),
        decreases rects.len() - i,
    {
        proof {
            assert(all.skip(i as int)[0] == rects[i as int]@);
            assert(all.skip(i as int).skip(1) =~= all.skip(i + 1));
        }
        if in_rect(p, rects[i].0) {
            return Some((rects[i].0, rects[i].1.dup(), rects[i].2));
        }
        i = i + 1;
    }
    None
}

/// The row of a contact.
pub fn find_row(ids: &Vec<PeerId>, peer: &PeerId) -> (row: Option<usize>)
    ensures
        match row_of(views(ids@), peer@) {
            Some(i) => row matches Some(r) && r == i && i < ids.len(),
            None => row is None,
        },
{
    let ghost all = views(ids@);
    let mut i: usize = 0;
    assert(all.skip(0) =~= all);
    while i < ids.len()
        invariant
            i <= ids.len(),
            all == views(ids@),
            row_of(all, peer@) == (match row_of(all.skip(i as int), peer@) {
                Some(k) => Some((k + i) as nat),
                None => None,
            }),
        decreases ids.len() - i,
    {
        proof {
            assert(all.skip(i as int)[0] == ids[i as int]@);
            assert(all.skip(i as int).skip(1) =~= all.skip(i + 1));
        }
        if ids[i].same(peer) {
            return Some(i);
        }
        i = i + 1;
    }
    None
}

/// Takes in a click.
fn click(ui: &mut UiState, p: (u16, u16), cmds: &mut Vec<UiCmd>)
    requires
        old(ui)@.wf(),
    ensures
        final(ui)@ == clicked(old(ui)@, p),
        views(final(cmds)@) == with_cmd(views(old(cmds)@), click_cmd(old(ui)@, p)),
{
    proof {
        assert(forall|i: int|
            0 <= i < ui.tab_rects.len() ==> (#[trigger] ui.tab_rects[i])@ == ui@.tab_rects[i]);
        assert(forall|i: int|
            0 <= i < ui.contact_rects.len() ==> (#[trigger] ui.contact_rects[i])@
                == ui@.contact_rects[i]);
        assert(forall|i: int|
            0 <= i < ui.offer_rects.len() ==> (#[trigger] ui.offer_rects[i])@ == ui@.offer_rects[i]);
    }
    if in_rect(p, ui.settings_rect) {
        ui.editing_nick = true;
        ui.nick_input.clear();
        return;
    }
    if in_rect(p, ui.addfriend_rect) {
        ui.editing_friend = true;
        ui.friend_input.clear();
        ui.friend_bootstrap = false;
        return;
    }
    if ui.tab == Tab::Chat && in_rect(p, ui.sendfile_rect) {
        push_cmd(cmds, UiCmd::PickFile);
        return;
    }
    if let Some(tab) = find_tab(&ui.tab_rects, p) {
        ui.tab = tab;
        return;
    }
    if let Some(peer) = find_contact(&ui.contact_rects, p) {
        if let Some(i) = find_row(&ui.contact_ids, &peer) {
            ui.contact_sel = i;
        }
        push_cmd(cmds, UiCmd::SelectPeer(peer));
        return;
    }
    if let Some((r, peer, id)) = find_offer(&ui.offer_rects, p) {
        if p.0 < r.x + r.width / 2 {
            push_cmd(cmds, UiCmd::AcceptFile(peer, id));
        } else {
            push_cmd(cmds, UiCmd::RejectFile(peer, id));
        }
        return;
    }
    if in_rect(p, ui.chat_input_rect) {
        ui.left_focused = false;
    }
}

/// Takes in what the mouse did: scrolling the conversation, and clicks.
pub fn handle_mouse(
    ui: &mut UiState,
    kind: MouseKind,
    column: u16,
    row: u16,
    cmds: &mut Vec<UiCmd>,
)
    requires
        old(ui)@.wf(),
        kind == MouseKind::ScrollUp && old(ui)@.tab == Tab::Chat ==> old(ui)@.chat_scroll
            < u16::MAX,
    ensures
        final(ui)@ == after_mouse(old(ui)@, kind, (column, row)),
        views(final(cmds)@) == with_cmd(
            views(old(cmds)@),
            mouse_cmd(old(ui)@, kind, (column, row)),
        ),
{
    ui.mouse_col = column;
    ui.mouse_row = row;
    match kind {
        MouseKind::ScrollUp => {
            if ui.tab == Tab::Chat {
                ui.chat_scroll = ui.chat_scroll + 1;
            }
        },
        MouseKind::ScrollDown => {
            if ui.tab == Tab::Chat && ui.chat_scroll > 0 {
                ui.chat_scroll = ui.chat_scroll - 1;
            }
        },
        MouseKind::LeftDown => {
            click(ui, (column, row), cmds);
        },
        MouseKind::Other => {},
    }
}

/// Keys and the mouse move nothing that can be clicked off the screen.
pub proof fn law_ui_stays_well_formed(
    u: UiModel,
    code: KeyCode,
    ctrl: bool,
    kind: MouseKind,
    p: (u16, u16),
)
    requires
        u.wf(),
    ensures
        after_key(u, code, ctrl).wf(),
        after_mouse(u, kind, p).wf(),
{
}

/// On the chat page an arrow marks the contact above or below, not beyond the first or the last,
/// and asks for the conversation with the contact that is marked; nothing else changes.
pub proof fn law_arrows_choose_a_contact(u: UiModel, ctrl: bool)
    requires
        u.tab == Tab::Chat,
        !u.editing_nick,
        !u.editing_friend,
        u.contact_sel < u.contact_ids.len() <= usize::MAX,
    ensures
        ({
            let up = after_key(u, KeyCode::Up, ctrl);
            let down = after_key(u, KeyCode::Down, ctrl);
            let last = u.contact_ids.len() - 1;
            &&& up.contact_sel == (if u.contact_sel > 0 {
                u.contact_sel - 1
            } else {
                0
            })
            &&& down.contact_sel == (if u.contact_sel < last {
                u.contact_sel + 1
            } else {
                last
            })
            &&& key_cmd(u, KeyCode::Up, ctrl) == Some(
                UiCmdModel::SelectPeer(u.contact_ids[up.contact_sel as int]),
            )
            &&& key_cmd(u, KeyCode::Down, ctrl) == Some(
                UiCmdModel::SelectPeer(u.contact_ids[down.contact_sel as int]),
            )
            &&& u == (UiModel { contact_sel: u.contact_sel, ..up })
            &&& u == (UiModel { contact_sel: u.contact_sel, ..down })
        }),
{
}

/// On the page of files an arrow marks the file above or below, not beyond the first or the last,
/// and asks for nothing; the enter key sends the file that is marked, and leaves it marked.
pub proof fn law_arrows_choose_a_file(u: UiModel, ctrl: bool)
    requires
        u.tab == Tab::Files,
        !u.editing_nick,
        !u.editing_friend,
        u.file_sel < u.file_list.len() <= usize::MAX,
    ensures
        ({
            let up = after_key(u, KeyCode::Up, ctrl);
            let down = after_key(u, KeyCode::Down, ctrl);
            let last = u.file_list.len() - 1;
            &&& up.file_sel == (if u.file_sel > 0 {
                u.file_sel - 1
            } else {
                0
            })
            &&& down.file_sel == (if u.file_sel < last {
                u.file_sel + 1
            } else {
                last
            })
            &&& key_cmd(u, KeyCode::Up, ctrl) is None
            &&& key_cmd(u, KeyCode::Down, ctrl) is None
            &&& u == (UiModel { file_sel: u.file_sel, ..up })
            &&& u == (UiModel { file_sel: u.file_sel, ..down })
            &&& key_cmd(u, KeyCode::Enter, ctrl) == Some(
                UiCmdModel::SendFile(u.file_list[u.file_sel as int]),
            )
            &&& after_key(u, KeyCode::Enter, ctrl) == u
        }),
{
}

/// A mark that has come to lie beyond its list comes back to the last row.
pub proof fn law_mark_comes_back(u: UiModel, ctrl: bool)
    requires
        !u.editing_nick,
        !u.editing_friend,
        0 < u.contact_ids.len() <= u.contact_sel,
        u.contact_sel < usize::MAX,
        u.tab != Tab::Files,
    ensures
        after_key(u, KeyCode::Down, ctrl).contact_sel == u.contact_ids.len() - 1,
        after_key(u, KeyCode::Up, ctrl).contact_sel == u.contact_ids.len() - 1,
{
}

/// What is typed while the nickname is changed goes there and nowhere else, and the enter key asks
/// for exactly that nickname and ends the change; while a friend is added, likewise for the
/// address. The key that deletes takes back what was typed last.
pub proof fn law_what_is_edited(u: UiModel, c: char, ctrl: bool)
    requires
        u.editing_nick != u.editing_friend,
    ensures
        ({
            let typed = after_key(u, KeyCode::Char(c), ctrl);
            let entered = after_key(u, KeyCode::Enter, ctrl);
            &&& key_cmd(u, KeyCode::Char(c), ctrl) is None
            &&& typed.chat_input == u.chat_input && typed.tab == u.tab
            &&& after_key(typed, KeyCode::Backspace, ctrl) == u
            &&& key_cmd(u, KeyCode::Backspace, ctrl) is None
            &&& u.editing_nick ==> {
                &&& typed.nick_input == u.nick_input + seq![c]
                &&& typed.friend_input == u.friend_input
                &&& u.nick_input.len() > 0 ==> key_cmd(u, KeyCode::Enter, ctrl) == Some(
                    UiCmdModel::SetNickname(u.nick_input),
                )
                &&& u.nick_input.len() == 0 ==> key_cmd(u, KeyCode::Enter, ctrl) is None
                &&& !entered.editing_nick && entered.nick_input.len() == 0
            }
            &&& u.editing_friend ==> {
                &&& typed.friend_input == u.friend_input + seq![c]
                &&& typed.nick_input == u.nick_input
                &&& u.friend_input.len() > 0 ==> key_cmd(u, KeyCode::Enter, ctrl) == Some(
                    UiCmdModel::AddFriend { addr: u.friend_input, bootstrap: u.friend_bootstrap },
                )
                &&& u.friend_input.len() == 0 ==> key_cmd(u, KeyCode::Enter, ctrl) is None
                &&& !entered.editing_friend && entered.friend_input.len() == 0
            }
            &&& entered.chat_input == u.chat_input && entered.tab == u.tab
                && entered.contact_sel == u.contact_sel && entered.file_sel == u.file_sel
        }),
{
    if u.editing_nick {
        assert(u.nick_input.push(c).drop_last() =~= u.nick_input);
        assert(u.nick_input.push(c) =~= u.nick_input + seq![c]);
    } else {
        assert(u.friend_input.push(c).drop_last() =~= u.friend_input);
        assert(u.friend_input.push(c) =~= u.friend_input + seq![c]);
    }
}

/// While a friend is added, the tab key changes whether it is a bootstrap node, and changes it
/// back; it turns no page.
pub proof fn law_bootstrap_is_toggled(u: UiModel, ctrl: bool)
    requires
        u.editing_friend,
    ensures
        after_key(u, KeyCode::Tab, ctrl).friend_bootstrap == !u.friend_bootstrap,
        after_key(u, KeyCode::Tab, ctrl).tab == u.tab,
        after_key(after_key(u, KeyCode::Tab, ctrl), KeyCode::Tab, ctrl) == u,
        key_cmd(u, KeyCode::Tab, ctrl) is None,
{
}

/// Where nothing is edited the tab key turns the page, and changes and asks for nothing else.
pub proof fn law_tab_turns_the_page(u: UiModel, ctrl: bool)
    requires
        !u.editing_nick,
        !u.editing_friend,
    ensures
        after_key(u, KeyCode::Tab, ctrl).tab != u.tab,
        u == (UiModel { tab: u.tab, ..after_key(u, KeyCode::Tab, ctrl) }),
        key_cmd(u, KeyCode::Tab, ctrl) is None,
{
}

/// The escape key throws away what was typed, and asks for nothing: what was being edited is over,
/// or the message is empty. Where there was nothing to throw away it moves the focus.
pub proof fn law_escape_throws_away(u: UiModel, ctrl: bool)
    ensures
        ({
            let after = after_key(u, KeyCode::Esc, ctrl);
            &&& key_cmd(u, KeyCode::Esc, ctrl) is None
            &&& !after.editing_nick && !after.editing_friend
            &&& u.editing_nick || u.editing_friend ==> after.nick_input.len() == 0
                && after.friend_input.len() == 0 && after.chat_input == u.chat_input
                && after.left_focused == u.left_focused
            &&& !u.editing_nick && !u.editing_friend ==> {
                &&& after.chat_input.len() == 0
                &&& u.chat_input.len() > 0 <==> after.left_focused == u.left_focused
            }
            &&& after.tab == u.tab && after.contact_sel == u.contact_sel && after.file_sel
                == u.file_sel
        }),
{
}

/// The key that deletes takes back the last character of the message, on the chat page only.
pub proof fn law_message_is_taken_back(u: UiModel, c: char, ctrl: bool)
    requires
        !u.editing_nick,
        !u.editing_friend,
    ensures
        u.tab == Tab::Chat ==> after_key(
            after_key(u, KeyCode::Char(c), false),
            KeyCode::Backspace,
            ctrl,
        ) == u,
        u.tab != Tab::Chat ==> after_key(u, KeyCode::Backspace, ctrl) == u && after_key(
            u,
            KeyCode::Char(c),
            ctrl,
        ) == u,
        key_cmd(u, KeyCode::Backspace, ctrl) is None,
        u.chat_input.len() == 0 ==> after_key(u, KeyCode::Backspace, ctrl) == u,
{
    assert(u.chat_input.push(c).drop_last() =~= u.chat_input);
}

/// The user leaves with the control key and the letter c, on every page, and with no other key;
/// while something is edited it is a letter like any other.
pub proof fn law_only_control_c_quits(u: UiModel, code: KeyCode, ctrl: bool)
    ensures
        key_cmd(u, code, ctrl) == Some(UiCmdModel::Quit) <==> !u.editing_nick && !u.editing_friend
            && ctrl && code == KeyCode::Char('c'),
{
}

/// On the chat page, with nothing typed, the enter key asks for the conversation with the contact
/// that is marked, and changes nothing; on the other pages but that of files it does nothing.
pub proof fn law_enter_opens_the_conversation(u: UiModel, ctrl: bool)
    requires
        !u.editing_nick,
        !u.editing_friend,
    ensures
        u.tab == Tab::Chat && u.chat_input.len() == 0 ==> {
            &&& after_key(u, KeyCode::Enter, ctrl) == u
            &&& u.contact_sel < u.contact_ids.len() ==> key_cmd(u, KeyCode::Enter, ctrl) == Some(
                UiCmdModel::SelectPeer(u.contact_ids[u.contact_sel as int]),
            )
            &&& u.contact_sel >= u.contact_ids.len() ==> key_cmd(u, KeyCode::Enter, ctrl) is None
        },
        u.tab != Tab::Chat && u.tab != Tab::Files ==> after_key(u, KeyCode::Enter, ctrl) == u
            && key_cmd(u, KeyCode::Enter, ctrl) is None,
{
}

/// A place is the first among others that lie under a point.
pub open spec fn is_first_at<T>(rects: Seq<(Rect, T)>, p: (u16, u16), i: int) -> bool {
    &&& 0 <= i < rects.len()
    &&& inside(p, rects[i].0)
    &&& forall|j: int| 0 <= j < i ==> !inside(p, (#[trigger] rects[j]).0)
}

/// Of several titles under a point the first counts; there is none exactly where no title is.
pub proof fn law_first_title_counts(rects: Seq<(Rect, Tab)>, p: (u16, u16))
    ensures
        tab_at(rects, p) matches Some(tab) ==> exists|i: int| #[trigger]
            is_first_at(rects, p, i) && rects[i].1 == tab,
        tab_at(rects, p) is None ==> forall|i: int|
            0 <= i < rects.len() ==> !inside(p, (#[trigger] rects[i]).0),
    decreases rects.len(),
{
    if rects.len() > 0 {
        let rest = rects.skip(1);
        if inside(p, rects[0].0) {
            assert(is_first_at(rects, p, 0));
        } else {
            law_first_title_counts(rest, p);
            assert forall|i: int| 0 < i < rects.len() implies #[trigger] rects[i] == rest[
                i - 1] by {}
            if let Some(tab) = tab_at(rects, p) {
                let i = choose|i: int| #[trigger] is_first_at(rest, p, i) && rest[i].1 == tab;
                assert forall|j: int| 0 <= j < i + 1 implies !inside(
                    p,
                    (#[trigger] rects[j]).0,
                ) by {
                    if j > 0 {
                        assert(rest[j - 1] == rects[j]);
                    }
                }
                assert(rects[i + 1] == rest[i]);
                assert(is_first_at(rects, p, i + 1));
            }
        }
    }
}

/// Of several contacts under a point the first counts; there is none exactly where no contact is.
pub proof fn law_first_contact_counts(rects: Seq<(Rect, Seq<char>)>, p: (u16, u16))
    ensures
        contact_at(rects, p) matches Some(peer) ==> exists|i: int| #[trigger]
            is_first_at(rects, p, i) && rects[i].1 == peer,
        contact_at(rects, p) is None ==> forall|i: int|
            0 <= i < rects.len() ==> !inside(p, (#[trigger] rects[i]).0),
    decreases rects.len(),
{
    if rects.len() > 0 {
        let rest = rects.skip(1);
        if inside(p, rects[0].0) {
            assert(is_first_at(rects, p, 0));
        } else {
            law_first_contact_counts(rest, p);
            assert forall|i: int| 0 < i < rects.len() implies #[trigger] rects[i] == rest[
                i - 1] by {}
            if let Some(peer) = contact_at(rects, p) {
                let i = choose|i: int| #[trigger] is_first_at(rest, p, i) && rest[i].1 == peer;
                assert forall|j: int| 0 <= j < i + 1 implies !inside(
                    p,
                    (#[trigger] rects[j]).0,
                ) by {
                    if j > 0 {
                        assert(rest[j - 1] == rects[j]);
                    }
                }
                assert(rects[i + 1] == rest[i]);
                assert(is_first_at(rects, p, i + 1));
            }
        }
    }
}

/// An invitation is the first among others that lie under a point.
pub open spec fn is_first_offer(
    rects: Seq<(Rect, Seq<char>, u64)>,
    p: (u16, u16),
    i: int,
) -> bool {
    &&& 0 <= i < rects.len()
    &&& inside(p, rects[i].0)
    &&& forall|j: int| 0 <= j < i ==> !inside(p, (#[trigger] rects[j]).0)
}

/// Of several invitations under a point the first counts; there is none exactly where none is.
pub proof fn law_first_invitation_counts(rects: Seq<(Rect, Seq<char>, u64)>, p: (u16, u16))
    ensures
        offer_at(rects, p) matches Some(offer) ==> exists|i: int| #[trigger]
            is_first_offer(rects, p, i) && rects[i] == offer,
        offer_at(rects, p) is None ==> forall|i: int|
            0 <= i < rects.len() ==> !inside(p, (#[trigger] rects[i]).0),
    decreases rects.len(),
{
    if rects.len() > 0 {
        let rest = rects.skip(1);
        if inside(p, rects[0].0) {
            assert(is_first_offer(rects, p, 0));
        } else {
            law_first_invitation_counts(rest, p);
            assert forall|i: int| 0 < i < rects.len() implies #[trigger] rects[i] == rest[
                i - 1] by {}
            if let Some(offer) = offer_at(rects, p) {
                let i = choose|i: int| #[trigger] is_first_offer(rest, p, i) && rest[i] == offer;
                assert forall|j: int| 0 <= j < i + 1 implies !inside(
                    p,
                    (#[trigger] rects[j]).0,
                ) by {
                    if j > 0 {
                        assert(rest[j - 1] == rects[j]);
                    }
                }
                assert(rects[i + 1] == rest[i]);
                assert(is_first_offer(rects, p, i + 1));
            }
        }
    }
}

/// The row of a contact is where its id stands first; there is none exactly where it stands
/// nowhere.
pub proof fn law_row_holds_the_contact(ids: Seq<Seq<char>>, peer: Seq<char>)
    ensures
        row_of(ids, peer) matches Some(i) ==> i < ids.len() && ids[i as int] == peer && forall|
            j: int,
        |
            0 <= j < i ==> #[trigger] ids[j] != peer,
        row_of(ids, peer) is None <==> !ids.contains(peer),
    decreases ids.len(),
{
    if ids.len() > 0 {
        let rest = ids.skip(1);
        law_row_holds_the_contact(rest, peer);
        if ids[0] != peer {
            if ids.contains(peer) {
                let k = choose|k: int| 0 <= k < ids.len() && ids[k] == peer;
                assert(rest[k - 1] == peer);
            }
            if rest.contains(peer) {
                let k = choose|k: int| 0 <= k < rest.len() && rest[k] == peer;
                assert(ids[k + 1] == peer);
            }
            if let Some(i) = row_of(ids, peer) {
                assert(rest[i - 1] == ids[i as int]);
                assert forall|j: int| 0 <= j < i implies #[trigger] ids[j] != peer by {
                    if j > 0 {
                        assert(rest[j - 1] == ids[j]);
                    }
                }
            }
        }
    }
}

/// The names of the files among the entries are those of the entries that are files, one by one.
pub proof fn law_files_are_listed(list: Seq<Seq<char>>, entries: Seq<EntryModel>)
    requires
        lists_files(list, entries),
    ensures
        list.len() == entries.filter(|e: EntryModel| e.is_file).len(),
        forall|name: Seq<char>| #[trigger]
            list.contains(name) <==> exists|i: int|
                0 <= i < entries.len() && (#[trigger] entries[i]).is_file && entries[i].name
                    == name,
        in_order(list),
{
    let names = files_among(entries);
    lemma_files_among(entries);
    vstd::seq_lib::to_multiset_len(list);
    vstd::seq_lib::to_multiset_len(names);
    assert forall|name: Seq<char>| #[trigger] list.contains(name) <==> names.contains(name) by {
        vstd::seq_lib::to_multiset_contains(list, name);
        vstd::seq_lib::to_multiset_contains(names, name);
    }
}

proof fn lemma_files_among(entries: Seq<EntryModel>)
    ensures
        files_among(entries).len() == entries.filter(|e: EntryModel| e.is_file).len(),
        forall|name: Seq<char>| #[trigger]
            files_among(entries).contains(name) <==> exists|i: int|
                0 <= i < entries.len() && (#[trigger] entries[i]).is_file && entries[i].name
                    == name,
    decreases entries.len(),
{
    reveal(Seq::filter);
    if entries.len() > 0 {
        let front = entries.drop_last();
        let last = entries.last();
        let names = files_among(entries);
        lemma_files_among(front);
        assert forall|name: Seq<char>| #[trigger] names.contains(name) <==> exists|i: int|
            0 <= i < entries.len() && (#[trigger] entries[i]).is_file && entries[i].name == name by {
            if names.contains(name) {
                let k = choose|k: int| 0 <= k < names.len() && names[k] == name;
                if k < files_among(front).len() {
                    assert(files_among(front)[k] == name);
                    assert(files_among(front).contains(name));
                    let i = choose|i: int|
                        0 <= i < front.len() && (#[trigger] front[i]).is_file && front[i].name
                            == name;
                    assert(entries[i] == front[i]);
                } else {
                    assert(entries[entries.len() - 1] == last);
                }
            }
            if exists|i: int|
                0 <= i < entries.len() && (#[trigger] entries[i]).is_file && entries[i].name
                    == name {
                let i = choose|i: int|
                    0 <= i < entries.len() && (#[trigger] entries[i]).is_file && entries[i].name
                        == name;
                if i < front.len() {
                    assert(front[i] == entries[i]);
                    assert(files_among(front).contains(name));
                    let k = choose|k: int|
                        0 <= k < files_among(front).len() && files_among(front)[k] == name;
                    assert(names[k] == name);
                } else {
                    assert(names[names.len() - 1] == name);
                }
            }
        }
    }
}

/// Where the mouse is, is known after whatever it did. Only the left button asks for something, and
/// on the other pages than the chat the wheel does nothing.
pub proof fn law_mouse_is_followed(u: UiModel, kind: MouseKind, p: (u16, u16))
    ensures
        after_mouse(u, kind, p).mouse_col == p.0,
        after_mouse(u, kind, p).mouse_row == p.1,
        kind != MouseKind::LeftDown ==> mouse_cmd(u, kind, p) is None,
        kind == MouseKind::Other || (kind != MouseKind::LeftDown && u.tab != Tab::Chat) ==> u == (
        UiModel {
            mouse_col: u.mouse_col,
            mouse_row: u.mouse_row,
            ..after_mouse(u, kind, p)
        }),
        kind != MouseKind::LeftDown ==> u == (UiModel {
            mouse_col: u.mouse_col,
            mouse_row: u.mouse_row,
            chat_scroll: u.chat_scroll,
            ..after_mouse(u, kind, p)
        }),
{
}

/// A click where the chat is typed moves the focus there; one where nothing is shown changes
/// nothing but where the mouse is. Neither asks for anything.
pub proof fn law_click_moves_the_focus(u: UiModel, p: (u16, u16))
    requires
        !inside(p, u.settings_rect),
        !inside(p, u.addfriend_rect),
        !inside(p, u.sendfile_rect),
        forall|i: int|
            0 <= i < u.tab_rects.len() ==> !inside(p, (#[trigger] u.tab_rects[i]).0),
        forall|i: int|
            0 <= i < u.contact_rects.len() ==> !inside(p, (#[trigger] u.contact_rects[i]).0),
        forall|i: int|
            0 <= i < u.offer_rects.len() ==> !inside(p, (#[trigger] u.offer_rects[i]).0),
    ensures
        ({
            let after = after_mouse(u, MouseKind::LeftDown, p);
            &&& inside(p, u.chat_input_rect) ==> !after.left_focused
            &&& !inside(p, u.chat_input_rect) ==> after.left_focused == u.left_focused
            &&& u == (UiModel {
                mouse_col: u.mouse_col,
                mouse_row: u.mouse_row,
                left_focused: u.left_focused,
                ..after
            })
            &&& mouse_cmd(u, MouseKind::LeftDown, p) is None
        }),
{
    law_first_title_counts(u.tab_rects, p);
    law_first_contact_counts(u.contact_rects, p);
    law_first_invitation_counts(u.offer_rects, p);
    if let Some(tab) = tab_at(u.tab_rects, p) {
        let i = choose|i: int| #[trigger] is_first_at(u.tab_rects, p, i) && u.tab_rects[i].1 == tab;
        assert(!inside(p, u.tab_rects[i].0));
    }
    if let Some(peer) = contact_at(u.contact_rects, p) {
        let i = choose|i: int| #[trigger]
            is_first_at(u.contact_rects, p, i) && u.contact_rects[i].1 == peer;
        assert(!inside(p, u.contact_rects[i].0));
    }
    if let Some(offer) = offer_at(u.offer_rects, p) {
        let i = choose|i: int| #[trigger]
            is_first_offer(u.offer_rects, p, i) && u.offer_rects[i] == offer;
        assert(!inside(p, u.offer_rects[i].0));
    }
}

} // verus!
