//! What the terminal interface shows, as a list of things to be drawn.
use ratatui::layout::{Constraint as RatConstraint, Layout as RatLayout, Rect as RatRect};
use ratatui::widgets::{Block, Borders};
use vstd::prelude::*;
use crate::chat::{ChatRecord, RecordModel};
use crate::file_transfer::{
    IncomingModel, IncomingTransfer, OfferModel, OutgoingTransfer, Phase, TransferModel,
};
use crate::identity::PeerId;
use crate::state::{AppState, PeerInfo, PeerModel, StateModel};
use crate::table::{at, dup_all, has, keys, lemma_views_push, opt, views, Dup};
use crate::text::{
    contains, dec, decimal, in_order, join2, join3, join4, join5, join6, occurs_in, same_text,
    shorten, shortened, sort_by_label,
};
use crate::tui::{
    find_row, lists_files, row_of, sorted_files, take_toast, DirEntry, EntryModel, Rect, Tab,
    UiModel, UiState,
};

verus! {

/// A colour of the terminal.
#[derive(Debug, Clone, Copy, PartialEq, Eq, Structural)]
pub enum Color {
    Blue,
    DarkGray,
    Green,
    Red,
    White,
}

/// How a text is drawn.
#[derive(Debug, Clone, Copy, PartialEq)]
pub struct Style {
    pub fg: Option<Color>,
    pub bg: Option<Color>,
    pub bold: bool,
}

/// Drawn as it is.
pub open spec fn plain() -> Style {
    Style { fg: None, bg: None, bold: false }
}

/// Drawn in a colour.
pub open spec fn in_color(color: Color) -> Style {
    Style { fg: Some(color), bg: None, bold: false }
}

/// Drawn in a colour on a colour.
pub open spec fn in_color_on(color: Color, ground: Color) -> Style {
    Style { fg: Some(color), bg: Some(ground), bold: false }
}

fn style_plain() -> (style: Style)
    ensures
        style == plain(),
{
    Style { fg: None, bg: None, bold: false }
}

fn fg(color: Color) -> (style: Style)
    ensures
        style == in_color(color),
{
    Style { fg: Some(color), bg: None, bold: false }
}

fn fg_on(color: Color, ground: Color) -> (style: Style)
    ensures
        style == in_color_on(color, ground),
{
    Style { fg: Some(color), bg: Some(ground), bold: false }
}

/// To which side a line is drawn.
#[derive(Debug, Clone, Copy, PartialEq, Eq, Structural)]
pub enum Align {
    Left,
    Center,
    Right,
}

/// A text in a style.
#[derive(Debug, PartialEq)]
pub struct Span {
    pub text: String,
    pub style: Style,
}

/// What a [`Span`] says.
#[verifier::ext_equal]
pub struct SpanModel {
    pub text: Seq<char>,
    pub style: Style,
}

impl View for Span {
    type V = SpanModel;

    open spec fn view(&self) -> SpanModel {
        SpanModel { text: self.text@, style: self.style }
    }
}

impl Dup for Span {
    fn dup(&self) -> (copy: Self) {
        Span { text: self.text.clone(), style: self.style }
    }
}

/// A line of texts.
#[derive(Debug, PartialEq)]
pub struct Line {
    pub spans: Vec<Span>,
    pub align: Option<Align>,
}

/// What a [`Line`] says.
#[verifier::ext_equal]
pub struct LineModel {
    pub spans: Seq<SpanModel>,
    pub align: Option<Align>,
}

impl View for Line {
    type V = LineModel;

    open spec fn view(&self) -> LineModel {
        LineModel { spans: views(self.spans@), align: self.align }
    }
}

impl Dup for Line {
    fn dup(&self) -> (copy: Self) {
        Line { spans: dup_all(&self.spans), align: self.align }
    }
}

/// Something to be drawn.
#[derive(Debug, PartialEq)]
pub enum DrawOp {
    /// A frame with a title.
    Panel { title: String, area: Rect },
    /// A text, in one style.
    Raw { text: String, style: Style, align: Align, area: Rect },
    /// Lines, wrapped or not.
    Lines { lines: Vec<Line>, align: Align, wrap: bool, area: Rect },
    /// The log.
    Log { entries: Vec<String>, area: Rect },
    /// A list with a marked row, and the style of that row.
    List { items: Vec<Line>, selected: usize, mark: Style, area: Rect },
    /// How much of a whole is done.
    Gauge { done: u64, total: u64, style: Style, area: Rect },
}

/// What a [`DrawOp`] says.
#[verifier::ext_equal]
pub enum DrawModel {
    Panel { title: Seq<char>, area: Rect },
    Raw { text: Seq<char>, style: Style, align: Align, area: Rect },
    Lines { lines: Seq<LineModel>, align: Align, wrap: bool, area: Rect },
    Log { entries: Seq<Seq<char>>, area: Rect },
    List { items: Seq<LineModel>, selected: usize, mark: Style, area: Rect },
    Gauge { done: u64, total: u64, style: Style, area: Rect },
}

impl View for DrawOp {
    type V = DrawModel;

    open spec fn view(&self) -> DrawModel {
        match self {
            DrawOp::Panel { title, area } => DrawModel::Panel { title: title@, area: *area },
            DrawOp::Raw { text, style, align, area } => DrawModel::Raw {
                text: text@,
                style: *style,
                align: *align,
                area: *area,
            },
            DrawOp::Lines { lines, align, wrap, area } => DrawModel::Lines {
                lines: views(lines@),
                align: *align,
                wrap: *wrap,
                area: *area,
            },
            DrawOp::Log { entries, area } => DrawModel::Log {
                entries: views(entries@),
                area: *area,
            },
            DrawOp::List { items, selected, mark, area } => DrawModel::List {
                items: views(items@),
                selected: *selected,
                mark: *mark,
                area: *area,
            },
            DrawOp::Gauge { done, total, style, area } => DrawModel::Gauge {
                done: *done,
                total: *total,
                style: *style,
                area: *area,
            },
        }
    }
}

/// Which way an area is split.
#[derive(Debug, Clone, Copy, PartialEq, Eq, Structural)]
pub enum Direction {
    Horizontal,
    Vertical,
}

/// How large a part of an area is to be.
#[derive(Debug, Clone, Copy, PartialEq, Eq, Structural)]
pub enum Constraint {
    Length(u16),
    Min(u16),
    Percentage(u16),
}

/// Where a rectangle begins along a direction.
pub open spec fn from(direction: Direction, r: Rect) -> int {
    match direction {
        Direction::Horizontal => r.x as int,
        Direction::Vertical => r.y as int,
    }
}

/// How far a rectangle reaches along a direction.
pub open spec fn extent(direction: Direction, r: Rect) -> int {
    match direction {
        Direction::Horizontal => r.width as int,
        Direction::Vertical => r.height as int,
    }
}

/// Where a rectangle ends along a direction.
pub open spec fn upto(direction: Direction, r: Rect) -> int {
    from(direction, r) + extent(direction, r)
}

/// The part lies in the area, and across the direction it is as wide as the area.
pub open spec fn lies_across(direction: Direction, part: Rect, area: Rect) -> bool {
    &&& from(direction, area) <= from(direction, part)
    &&& upto(direction, part) <= upto(direction, area)
    &&& match direction {
        Direction::Horizontal => part.y == area.y && part.height == area.height,
        Direction::Vertical => part.x == area.x && part.width == area.width,
    }
}

/// The hundredths of a cell that the constraints ask for, at the least.
pub open spec fn hundredths(wanted: Seq<Constraint>, whole: int) -> int
    decreases wanted.len(),
{
    if wanted.len() == 0 {
        0
    } else {
        hundredths(wanted.drop_last(), whole) + match wanted.last() {
            Constraint::Length(n) => 100 * n,
            Constraint::Min(n) => 100 * n,
            Constraint::Percentage(n) => n * whole,
        }
    }
}

/// All the constraints can be met at once. A minimum is taken as a signed number of sixteen bits,
/// and is to be one.
pub open spec fn has_room(wanted: Seq<Constraint>, whole: int) -> bool {
    &&& hundredths(wanted, whole) <= 100 * whole
    &&& forall|i: int|
        0 <= i < wanted.len() ==> match #[trigger] wanted[i] {
            Constraint::Min(n) => n <= 0x7fff,
            _ => true,
        }
}

/// The size meets the constraint: a percentage to the nearest cells.
pub open spec fn meets(size: int, constraint: Constraint, whole: int) -> bool {
    match constraint {
        Constraint::Length(n) => size == n,
        Constraint::Min(n) => size >= n,
        Constraint::Percentage(n) => -100 <= 100 * size - n * whole <= 100,
    }
}

/// Exactly one of the constraints is a minimum.
pub open spec fn one_min(wanted: Seq<Constraint>) -> bool {
    exists|i: int|
        0 <= i < wanted.len() && (#[trigger] wanted[i]) is Min && forall|j: int|
            0 <= j < wanted.len() && j != i ==> (#[trigger] wanted[j]) !is Min
}

/// The parts follow one upon the other from where the area begins, each of the size asked for; one
/// that has a minimum only takes what is left.
pub open spec fn in_a_row(
    parts: Seq<Rect>,
    direction: Direction,
    wanted: Seq<Constraint>,
    area: Rect,
) -> bool {
    &&& parts.len() > 0 ==> from(direction, parts[0]) == from(direction, area)
    &&& forall|i: int|
        0 < i < parts.len() ==> from(direction, #[trigger] parts[i]) == upto(
            direction,
            parts[i - 1],
        )
    &&& forall|i: int|
        0 <= i < parts.len() ==> meets(
            extent(direction, #[trigger] parts[i]),
            wanted[i],
            extent(direction, area),
        )
    &&& one_min(wanted) ==> upto(direction, parts.last()) == upto(direction, area)
}

/// The parts of an area that is split: one for each constraint, each in the area; where all the
/// constraints can be met they are.
pub open spec fn is_split(
    parts: Seq<Rect>,
    direction: Direction,
    wanted: Seq<Constraint>,
    area: Rect,
) -> bool {
    &&& parts.len() == wanted.len()
    &&& forall|i: int|
        0 <= i < parts.len() ==> lies_across(direction, #[trigger] parts[i], area)
    &&& has_room(wanted, extent(direction, area)) ==> in_a_row(parts, direction, wanted, area)
}

/// A constraint, a number of times.
pub open spec fn times(constraint: Constraint, n: nat) -> Seq<Constraint> {
    Seq::new(n, |i: int| constraint)
}

/// `ratatui`'s `Layout::split`, of a layout that has no margin, no spacing and is aligned to the
/// start. No part reaches beyond the area; and as the constraints are satisfied in the order of
/// their priorities, all are satisfied where they can be, and the parts come one after the other
/// from the start. What comes out where they cannot all be satisfied depends on the order in which
/// the solver walks its hash maps, and nothing is claimed of it.
#[verifier::external_body]
fn split(direction: Direction, constraints: &Vec<Constraint>, area: Rect) -> (parts: Vec<Rect>)
    requires
        area.fits(),
    ensures
        is_split(parts@, direction, constraints@, area),
{
    let wanted = constraints.iter().map(|c| match c {
        Constraint::Length(n) => RatConstraint::Length(*n),
        Constraint::Min(n) => RatConstraint::Min(*n),
        Constraint::Percentage(n) => RatConstraint::Percentage(*n),
    });
    let layout = match direction {
        Direction::Horizontal => RatLayout::horizontal(wanted),
        Direction::Vertical => RatLayout::vertical(wanted),
    };
    let whole = RatRect { x: area.x, y: area.y, width: area.width, height: area.height };
    let parts = layout.split(whole);
    parts.iter().map(|r| Rect { x: r.x, y: r.y, width: r.width, height: r.height }).collect()
}

/// The smaller of two numbers.
pub open spec fn least(a: int, b: int) -> int {
    if a < b {
        a
    } else {
        b
    }
}

/// A number less two, but not below zero.
pub open spec fn less_two(n: u16) -> u16 {
    if n < 2 {
        0
    } else {
        (n - 2) as u16
    }
}

/// The area within a frame: one cell less on each side, as far as there are cells.
pub open spec fn within(area: Rect) -> Rect {
    Rect {
        x: least(area.x + 1, area.x + area.width) as u16,
        y: least(area.y + 1, area.y + area.height) as u16,
        width: less_two(area.width),
        height: less_two(area.height),
    }
}

/// `ratatui`'s `Block::inner` of a block with all four borders: the area without them.
#[verifier::external_body]
fn panel_inner(area: Rect) -> (inner: Rect)
    requires
        area.fits(),
    ensures
        inner == within(area),
{
    let whole = RatRect { x: area.x, y: area.y, width: area.width, height: area.height };
    let r = Block::default().borders(Borders::ALL).inner(whole);
    Rect { x: r.x, y: r.y, width: r.width, height: r.height }
}

/// A frame with a title.
pub open spec fn panel_of(title: Seq<char>, area: Rect) -> DrawModel {
    DrawModel::Panel { title, area }
}

fn panel(title: &str, area: Rect) -> (op: DrawOp)
    ensures
        op@ == panel_of(title@, area),
{
    DrawOp::Panel { title: title.to_owned(), area }
}

/// A text in one style, drawn from the left.
pub open spec fn raw_of(text: Seq<char>, style: Style, area: Rect) -> DrawModel {
    DrawModel::Raw { text, style, align: Align::Left, area }
}

fn raw(text: String, style: Style, area: Rect) -> (op: DrawOp)
    ensures
        op@ == raw_of(text@, style, area),
{
    DrawOp::Raw { text, style, align: Align::Left, area }
}

/// A line of one text.
pub open spec fn line_of(text: Seq<char>, style: Style) -> LineModel {
    LineModel { spans: seq![SpanModel { text, style }], align: None }
}

fn line(text: String, style: Style) -> (line: Line)
    ensures
        line@ == line_of(text@, style),
{
    let mut spans: Vec<Span> = Vec::new();
    spans.push(Span { text, style });
    assert(views(spans@) =~= line_of(text@, style).spans);
    Line { spans, align: None }
}

/// One line of one text.
pub open spec fn one_line(text: Seq<char>, style: Style, align: Align, area: Rect) -> DrawModel {
    DrawModel::Lines { lines: seq![line_of(text, style)], align, wrap: false, area }
}

fn draw_line(text: String, style: Style, align: Align, area: Rect) -> (op: DrawOp)
    ensures
        op@ == one_line(text@, style, align, area),
{
    let mut lines: Vec<Line> = Vec::new();
    lines.push(line(text, style));
    assert(views(lines@) =~= seq![line_of(text@, style)]);
    DrawOp::Lines { lines, align, wrap: false, area }
}

fn push_op(ops: &mut Vec<DrawOp>, op: DrawOp)
    ensures
        views(final(ops)@) == views(old(ops)@).push(op@),
{
    proof {
        lemma_views_push(ops@, op);
    }
    ops.push(op);
}

/// The words by which a notice is recognised as bad news.
pub open spec fn is_bad_news(text: Seq<char>) -> bool {
    ||| occurs_in("失败"@, text)
    ||| occurs_in("拒绝"@, text)
    ||| occurs_in("中断"@, text)
    ||| occurs_in("无法"@, text)
    ||| occurs_in("错误"@, text)
    ||| occurs_in("无应答"@, text)
    ||| occurs_in("未送达"@, text)
    ||| occurs_in("不能"@, text)
    ||| occurs_in("超时"@, text)
    ||| occurs_in("未收到"@, text)
}

/// Whether a notice is bad news.
pub fn is_negative(s: &str) -> (negative: bool)
    ensures
        negative == is_bad_news(s@),
{
    contains(s, "失败") || contains(s, "拒绝") || contains(s, "中断") || contains(s, "无法")
        || contains(s, "错误") || contains(s, "无应答") || contains(s, "未送达") || contains(
        s,
        "不能",
    ) || contains(s, "超时") || contains(s, "未收到")
}

/// A line of two texts.
pub open spec fn two_spans(a: SpanModel, b: SpanModel, align: Align) -> LineModel {
    LineModel { spans: seq![a, b], align: Some(align) }
}

fn two(a: Span, b: Span, align: Align) -> (line: Line)
    ensures
        line@ == two_spans(a@, b@, align),
{
    let mut spans: Vec<Span> = Vec::new();
    let ghost wanted = seq![a@, b@];
    spans.push(a);
    spans.push(b);
    assert(views(spans@) =~= wanted);
    Line { spans, align: Some(align) }
}

/// The style in a colour; bad news stand out.
pub open spec fn unless_bad(negative: bool, color: Color) -> Style {
    if negative {
        in_color_on(Color::White, Color::Red)
    } else {
        in_color(color)
    }
}

/// The time, in gray, before a text.
pub open spec fn time_before(time: Seq<char>) -> SpanModel {
    SpanModel { text: time + " "@, style: in_color(Color::DarkGray) }
}

/// How a record is shown: what this node said to the right, what was said to it to the left,
/// notices in the middle and in gray; each with its time, in gray; bad news stand out in white on
/// red.
pub open spec fn record_line(rec: RecordModel) -> LineModel {
    let neg = is_bad_news(rec.text);
    if rec.kind == "text"@ {
        if rec.outbound {
            two_spans(
                SpanModel { text: "我："@ + rec.text, style: unless_bad(neg, Color::Blue) },
                SpanModel { text: "  "@ + rec.time, style: in_color(Color::DarkGray) },
                Align::Right,
            )
        } else {
            two_spans(
                time_before(rec.time),
                SpanModel {
                    text: rec.name + "："@ + rec.text,
                    style: unless_bad(neg, Color::White),
                },
                Align::Left,
            )
        }
    } else if rec.kind == "system"@ {
        two_spans(
            time_before(rec.time),
            SpanModel { text: rec.text, style: unless_bad(neg, Color::DarkGray) },
            Align::Center,
        )
    } else if rec.kind == "file"@ {
        two_spans(
            time_before(rec.time),
            SpanModel { text: "〔文件〕"@ + rec.text, style: unless_bad(neg, Color::Blue) },
            Align::Left,
        )
    } else {
        two_spans(
            time_before(rec.time),
            SpanModel { text: rec.text, style: unless_bad(neg, Color::White) },
            Align::Left,
        )
    }
}

/// Shows a record as a line.
pub fn render_record(rec: &ChatRecord) -> (line: Line)
    ensures
        line@ == record_line(rec@),
{
    let neg = is_negative(&rec.text);
    let gray = fg(Color::DarkGray);
    let before = Span { text: join2(&rec.time, " "), style: gray };
    if same_text(&rec.kind, "text") {
        if rec.outbound {
            let style = if neg {
                fg_on(Color::White, Color::Red)
            } else {
                fg(Color::Blue)
            };
            two(
                Span { text: join2("我：", &rec.text), style },
                Span { text: join2("  ", &rec.time), style: gray },
                Align::Right,
            )
        } else {
            let style = if neg {
                fg_on(Color::White, Color::Red)
            } else {
                fg(Color::White)
            };
            two(before, Span { text: join3(&rec.name, "：", &rec.text), style }, Align::Left)
        }
    } else if same_text(&rec.kind, "system") {
        let style = if neg {
            fg_on(Color::White, Color::Red)
        } else {
            gray
        };
        two(before, Span { text: rec.text.clone(), style }, Align::Center)
    } else if same_text(&rec.kind, "file") {
        let style = if neg {
            fg_on(Color::White, Color::Red)
        } else {
            fg(Color::Blue)
        };
        two(before, Span { text: join2("〔文件〕", &rec.text), style }, Align::Left)
    } else {
        let style = if neg {
            fg_on(Color::White, Color::Red)
        } else {
            fg(Color::White)
        };
        two(before, Span { text: rec.text.clone(), style }, Align::Left)
    }
}

/// The name of a phase.
pub open spec fn phase_text(p: Phase) -> Seq<char> {
    match p {
        Phase::Offering => "等待接受"@,
        Phase::Sending => "发送中"@,
        Phase::Checking => "查漏"@,
        Phase::Done => "完成"@,
    }
}

/// The name of a phase.
pub fn phase_name(p: Phase) -> (name: &'static str)
    ensures
        name@ == phase_text(p),
{
    match p {
        Phase::Offering => "等待接受",
        Phase::Sending => "发送中",
        Phase::Checking => "查漏",
        Phase::Done => "完成",
    }
}

/// A short name for a peer: its nickname; the first characters of its id where a contact has
/// none; the id of somebody who is no contact.
pub open spec fn short_name(s: StateModel, peer: Seq<char>) -> Seq<char> {
    if has(s.peers, peer) {
        let nickname = at(s.peers, peer).nickname;
        if nickname.len() == 0 {
            shortened(peer, 8)
        } else {
            nickname
        }
    } else {
        peer
    }
}

/// A short name for a peer.
pub fn peer_short(state: &AppState, peer: &PeerId) -> (name: String)
    ensures
        name@ == short_name(state@, peer@),
{
    match state.peers.get(peer) {
        Some(info) => {
            if info.nickname.unicode_len() == 0 {
                shorten(&peer.text, 8).to_owned()
            } else {
                info.nickname.clone()
            }
        },
        None => peer.text.clone(),
    }
}

/// The contacts, in the order of their ids.
pub open spec fn lists_contacts(ids: Seq<Seq<char>>, s: StateModel) -> bool {
    in_order(ids) && ids.to_multiset() == keys(s.peers).to_multiset()
}

/// Each of the contacts listed is one.
proof fn lemma_contact_listed(ids: Seq<Seq<char>>, s: StateModel, i: int)
    requires
        ids.to_multiset() == keys(s.peers).to_multiset(),
        0 <= i < ids.len(),
    ensures
        has(s.peers, ids[i]),
{
    broadcast use vstd::seq_lib::group_to_multiset_ensures;

    assert(ids.contains(ids[i]));
    assert(ids.to_multiset().contains(ids[i]));
    assert(keys(s.peers).contains(ids[i]));
    let k = choose|k: int| 0 <= k < keys(s.peers).len() && keys(s.peers)[k] == ids[i];
    assert(s.peers[k].0 == ids[i]);
}

/// The contacts, in the order of their ids.
fn sorted_contacts(state: &AppState) -> (ids: Vec<PeerId>)
    ensures
        lists_contacts(views(ids@), state@),
{
    let mut ids: Vec<PeerId> = Vec::new();
    let mut i: usize = 0;
    while i < state.peers.len()
        invariant
            i <= state@.peers.len(),
            ids.len() == i,
            forall|j: int| 0 <= j < i ==> (#[trigger] ids[j])@ == state@.peers[j].0,
        decreases state@.peers.len() - i,
    {
        ids.push(state.peers.key_at(i).dup());
        i = i + 1;
    }
    assert(views(ids@) =~= keys(state@.peers));
    sort_by_label(ids)
}

/// A nickname, or a stand-in for one that is not known.
pub open spec fn nick_or_unknown(nickname: Seq<char>) -> Seq<char> {
    if nickname.len() == 0 {
        "(未知)"@
    } else {
        nickname
    }
}

fn nick_shown(nickname: &String) -> (shown: String)
    ensures
        shown@ == nick_or_unknown(nickname@),
{
    if nickname.unicode_len() == 0 {
        "(未知)".to_owned()
    } else {
        nickname.clone()
    }
}

/// The mark of a contact: whether it is online.
pub open spec fn dot_span(online: bool) -> SpanModel {
    if online {
        SpanModel { text: "●"@, style: in_color(Color::Green) }
    } else {
        SpanModel { text: "○"@, style: in_color(Color::Red) }
    }
}

/// A contact as a line: whether it is online, its nickname, how much is unread, the beginning of
/// its id, and its address.
pub open spec fn contact_line(info: PeerModel, id: Seq<char>) -> LineModel {
    let head = seq![
        dot_span(info.online),
        SpanModel {
            text: " "@ + nick_or_unknown(info.nickname),
            style: in_color(Color::White),
        },
    ];
    let badge = if info.unread > 0 {
        head.push(
            SpanModel {
                text: " "@ + decimal(info.unread as nat) + " "@,
                style: in_color_on(Color::White, Color::Red),
            },
        )
    } else {
        head
    };
    let address = match info.last_addr {
        Some(addr) => addr,
        None => "—"@,
    };
    LineModel {
        spans: badge.push(
            SpanModel { text: "  "@ + shortened(id, 8), style: in_color(Color::DarkGray) },
        ).push(SpanModel { text: "  "@ + address, style: in_color(Color::DarkGray) }),
        align: None,
    }
}

fn push_span(spans: &mut Vec<Span>, text: String, style: Style)
    ensures
        views(final(spans)@) == views(old(spans)@).push(SpanModel { text: text@, style }),
{
    let span = Span { text, style };
    proof {
        lemma_views_push(spans@, span);
    }
    spans.push(span);
}

fn show_contact(info: &PeerInfo, id: &PeerId) -> (line: Line)
    ensures
        line@ == contact_line(info@, id@),
{
    let mut spans: Vec<Span> = Vec::new();
    assert(views(spans@) =~= Seq::<SpanModel>::empty());
    if info.online {
        push_span(&mut spans, "●".to_owned(), fg(Color::Green));
    } else {
        push_span(&mut spans, "○".to_owned(), fg(Color::Red));
    }
    let nick = nick_shown(&info.nickname);
    push_span(&mut spans, join2(" ", &nick), fg(Color::White));
    assert(views(spans@) =~= seq![
        dot_span(info.online),
        SpanModel {
            text: " "@ + nick_or_unknown(info.nickname@),
            style: in_color(Color::White),
        },
    ]);
    if info.unread > 0 {
        let count = dec(info.unread as u64);
        push_span(&mut spans, join3(" ", &count, " "), fg_on(Color::White, Color::Red));
    }
    push_span(&mut spans, join2("  ", shorten(&id.text, 8)), fg(Color::DarkGray));
    let address = match &info.last_addr {
        Some(addr) => join2("  ", addr),
        None => join2("  ", "—"),
    };
    push_span(&mut spans, address, fg(Color::DarkGray));
    Line { spans, align: None }
}

/// The row that is marked: that of the contact whose conversation is shown, else the one that was
/// marked, within the list.
pub open spec fn marked_row(s: StateModel, ids: Seq<Seq<char>>, sel: usize) -> usize {
    let row = match s.selected_peer {
        Some(peer) => match row_of(ids, peer) {
            Some(i) => i as usize,
            None => sel,
        },
        None => sel,
    };
    if row >= ids.len() {
        (ids.len() - 1) as usize
    } else {
        row
    }
}

/// The interface once the contacts are drawn.
pub open spec fn contacts_ui(
    s: StateModel,
    u: UiModel,
    parts: Seq<Rect>,
    rows: Seq<Rect>,
    ids: Seq<Seq<char>>,
) -> UiModel {
    let u1 = UiModel { addfriend_rect: parts[0], contact_ids: ids, ..u };
    if ids.len() == 0 {
        u1
    } else {
        UiModel {
            contact_sel: marked_row(s, ids, u.contact_sel),
            contact_rects: u.contact_rects + Seq::new(ids.len(), |i: int| (rows[i], ids[i])),
            ..u1
        }
    }
}

/// What is drawn of the contacts.
pub open spec fn contacts_ops(
    s: StateModel,
    u: UiModel,
    area: Rect,
    parts: Seq<Rect>,
    ids: Seq<Seq<char>>,
) -> Seq<DrawModel> {
    let head = seq![
        panel_of("联系人"@, area),
        one_line(" [+加好友] "@, in_color(Color::Blue), Align::Left, parts[0]),
    ];
    if ids.len() == 0 {
        head.push(
            raw_of(
                "等待局域网发现其他节点…（外网见「+加好友」）"@,
                in_color(Color::DarkGray),
                parts[1],
            ),
        )
    } else {
        head.push(
            DrawModel::List {
                items: Seq::new(ids.len(), |i: int| contact_line(at(s.peers, ids[i]), ids[i])),
                selected: marked_row(s, ids, u.contact_sel),
                mark: in_color_on(Color::White, Color::Blue),
                area: parts[1],
            },
        )
    }
}

/// Draws the contacts into given places: the button and the list, and each row of the list.
pub fn draw_contacts_in(
    area: Rect,
    parts: &Vec<Rect>,
    rows: &Vec<Rect>,
    ids: Vec<PeerId>,
    state: &AppState,
    ui: &mut UiState,
) -> (ops: Vec<DrawOp>)
    requires
        parts@.len() == 2,
        rows@.len() == ids@.len(),
        views(ids@).to_multiset() == keys(state@.peers).to_multiset(),
    ensures
        final(ui)@ == contacts_ui(state@, old(ui)@, parts@, rows@, views(ids@)),
        views(ops@) == contacts_ops(state@, old(ui)@, area, parts@, views(ids@)),
{
    let ghost s = state@;
    let ghost u = ui@;
    let ghost all = views(ids@);
    let mut ops: Vec<DrawOp> = Vec::new();
    assert(views(ops@) =~= Seq::<DrawModel>::empty());
    push_op(&mut ops, panel("联系人", area));
    push_op(
        &mut ops,
        draw_line(" [+加好友] ".to_owned(), fg(Color::Blue), Align::Left, parts[0]),
    );
    assert(views(ops@) =~= seq![
        panel_of("联系人"@, area),
        one_line(" [+加好友] "@, in_color(Color::Blue), Align::Left, parts@[0]),
    ]);
    ui.addfriend_rect = parts[0];
    if ids.len() == 0 {
        push_op(
            &mut ops,
            raw(
                "等待局域网发现其他节点…（外网见「+加好友」）".to_owned(),
                fg(Color::DarkGray),
                parts[1],
            ),
        );
        ui.contact_ids = ids;
        return ops;
    }
    if let Some(peer) = &state.selected_peer {
        if let Some(i) = find_row(&ids, peer) {
            ui.contact_sel = i;
        }
    }
    if ui.contact_sel >= ids.len() {
        ui.contact_sel = ids.len() - 1;
    }
    let ghost wanted = Seq::new(all.len(), |i: int| contact_line(at(s.peers, all[i]), all[i]));
    let ghost before = ui.contact_rects@;
    let ghost sel = ui.contact_sel;
    let mut items: Vec<Line> = Vec::new();
    let mut i: usize = 0;
    assert(ui.contact_rects@ =~= before + Seq::<(Rect, PeerId)>::empty());
    while i < ids.len()
        invariant
            i <= ids.len(),
            s == state@,
            all == views(ids@),
            all.to_multiset() == keys(s.peers).to_multiset(),
            wanted == Seq::new(all.len(), |i: int| contact_line(at(s.peers, all[i]), all[i])),
            rows@.len() == ids@.len(),
            items.len() == i,
            forall|j: int| 0 <= j < i ==> (#[trigger] items[j])@ == wanted[j],
            ui@ == (UiModel {
                addfriend_rect: parts@[0],
                contact_sel: sel,
                contact_rects: ui@.contact_rects,
                ..u
            }),
            ui@.contact_rects == views(before) + Seq::new(
                i as nat,
                |j: int| (rows@[j], all[j]),
            ),
        decreases ids.len() - i,
    {
        proof {
            lemma_contact_listed(all, s, i as int);
            assert(all[i as int] == ids[i as int]@);
        }
        if let Some(info) = state.peers.get(&ids[i]) {
            items.push(show_contact(info, &ids[i]));
        }
        let entry = (rows[i], ids[i].dup());
        proof {
            lemma_views_push(ui.contact_rects@, entry);
        }
        ui.contact_rects.push(entry);
        assert(ui@.contact_rects =~= views(before) + Seq::new(
            (i + 1) as nat,
            |j: int| (rows@[j], all[j]),
        ));
        i = i + 1;
    }
    assert(views(items@) =~= wanted);
    let mark = fg_on(Color::White, Color::Blue);
    push_op(&mut ops, DrawOp::List { items, selected: ui.contact_sel, mark, area: parts[1] });
    ui.contact_ids = ids;
    ops
}

/// The constraint, a number of times.
fn repeated(constraint: Constraint, n: usize) -> (list: Vec<Constraint>)
    ensures
        list@ == times(constraint, n as nat),
{
    let mut list: Vec<Constraint> = Vec::new();
    let mut i: usize = 0;
    while i < n
        invariant
            i <= n,
            list@ == times(constraint, i as nat),
        decreases n - i,
    {
        list.push(constraint);
        i = i + 1;
        assert(list@ =~= times(constraint, i as nat));
    }
    list
}

/// Within a frame there is room on the screen.
proof fn lemma_within_fits(area: Rect)
    requires
        area.fits(),
    ensures
        within(area).fits(),
{
}

/// How the contacts are laid out: the button, and the list.
pub open spec fn list_parts() -> Seq<Constraint> {
    seq![Constraint::Length(1), Constraint::Min(0)]
}

/// The contacts are drawn into the parts, the rows and the order.
pub open spec fn contacts_drawn(
    s: StateModel,
    before: UiModel,
    after: UiModel,
    ops: Seq<DrawModel>,
    area: Rect,
    parts: Seq<Rect>,
    rows: Seq<Rect>,
    ids: Seq<Seq<char>>,
) -> bool {
    &&& is_split(parts, Direction::Vertical, list_parts(), within(area))
    &&& lists_contacts(ids, s)
    &&& is_split(rows, Direction::Vertical, times(Constraint::Length(1), ids.len()), parts[1])
    &&& after == contacts_ui(s, before, parts, rows, ids)
    &&& ops == contacts_ops(s, before, area, parts, ids)
}

/// Draws the contacts.
pub fn draw_contacts(area: Rect, state: &AppState, ui: &mut UiState) -> (ops: Vec<DrawOp>)
    requires
        area.fits(),
        old(ui)@.wf(),
    ensures
        exists|parts: Seq<Rect>, rows: Seq<Rect>, ids: Seq<Seq<char>>| #[trigger]
            contacts_drawn(
                state@,
                old(ui)@,
                final(ui)@,
                views(ops@),
                area,
                parts,
                rows,
                ids,
            ),
        final(ui)@.wf(),
{
    proof {
        lemma_within_fits(area);
    }
    let ghost before = ui@;
    let inner = panel_inner(area);
    let parts = split(
        Direction::Vertical,
        &vec![Constraint::Length(1), Constraint::Min(0)],
        inner,
    );
    let ids = sorted_contacts(state);
    let rows = split(
        Direction::Vertical,
        &repeated(Constraint::Length(1), ids.len()),
        parts[1],
    );
    let ghost order = views(ids@);
    let ops = draw_contacts_in(area, &parts, &rows, ids, state, ui);
    assert(contacts_drawn(
        state@,
        before,
        ui@,
        views(ops@),
        area,
        parts@,
        rows@,
        order,
    ));
    ops
}

/// A row of the conversation: a line, and the invitation that it is, if it is one.
pub struct ChatEntry {
    pub line: Line,
    pub offer: Option<(PeerId, u64)>,
}

/// What a [`ChatEntry`] says.
#[verifier::ext_equal]
pub struct ChatEntryModel {
    pub line: LineModel,
    pub offer: Option<(Seq<char>, u64)>,
}

impl View for ChatEntry {
    type V = ChatEntryModel;

    open spec fn view(&self) -> ChatEntryModel {
        ChatEntryModel { line: self.line@, offer: opt(self.offer) }
    }
}

/// The row of a record.
pub open spec fn record_entry(rec: RecordModel) -> ChatEntryModel {
    ChatEntryModel { line: record_line(rec), offer: None }
}

/// The row of an invitation.
pub open spec fn offer_entry(peer: Seq<char>, offer: OfferModel) -> ChatEntryModel {
    ChatEntryModel {
        line: line_of(
            "对方想发来文件："@ + offer.filename + "（"@ + decimal(offer.size as nat)
                + " 字节）  点左=接受 点右=拒绝"@,
            in_color(Color::Blue),
        ),
        offer: Some((peer, offer.file_id)),
    }
}

/// The rows of the conversation with a peer: its records, then its invitations.
pub open spec fn chat_entries(s: StateModel, peer: Seq<char>) -> Seq<ChatEntryModel> {
    let records = if has(s.peers, peer) {
        at(s.peers, peer).records
    } else {
        Seq::empty()
    };
    let offers = if has(s.pending_offers, peer) {
        at(s.pending_offers, peer)
    } else {
        Seq::empty()
    };
    Seq::new(records.len(), |i: int| record_entry(records[i])) + Seq::new(
        offers.len(),
        |i: int| offer_entry(peer, offers[i]),
    )
}

/// The rows of the conversation shown; none where none is.
pub open spec fn shown_entries(s: StateModel) -> Seq<ChatEntryModel> {
    match s.selected_peer {
        Some(peer) => chat_entries(s, peer),
        None => Seq::empty(),
    }
}

fn entries_of(state: &AppState) -> (entries: Vec<ChatEntry>)
    ensures
        views(entries@) == shown_entries(state@),
{
    let mut entries: Vec<ChatEntry> = Vec::new();
    assert(views(entries@) =~= Seq::<ChatEntryModel>::empty());
    if let Some(peer) = &state.selected_peer {
        let ghost records = if has(state@.peers, peer@) {
            at(state@.peers, peer@).records
        } else {
            Seq::empty()
        };
        let ghost first = Seq::new(records.len(), |i: int| record_entry(records[i]));
        if let Some(info) = state.peers.get(peer) {
            let mut i: usize = 0;
            assert(first.take(0) =~= Seq::<ChatEntryModel>::empty());
            while i < info.records.len()
                invariant
                    i <= info.records.len(),
                    records == views(info.records@),
                    first == Seq::new(records.len(), |i: int| record_entry(records[i])),
                    views(entries@) == first.take(i as int),
                decreases info.records.len() - i,
            {
                let entry = ChatEntry { line: render_record(&info.records[i]), offer: None };
                proof {
                    lemma_views_push(entries@, entry);
                    assert(records[i as int] == info.records[i as int]@);
                    assert(first.take(i + 1) =~= first.take(i as int).push(entry@));
                }
                entries.push(entry);
                i = i + 1;
            }
        }
        assert(views(entries@) =~= first);
        let ghost offers = if has(state@.pending_offers, peer@) {
            at(state@.pending_offers, peer@)
        } else {
            Seq::empty()
        };
        let ghost second = Seq::new(offers.len(), |i: int| offer_entry(peer@, offers[i]));
        assert(first + second.take(0) =~= first);
        if let Some(list) = state.pending_offers.get(peer) {
            let mut i: usize = 0;
            while i < list.list.len()
                invariant
                    i <= list.list.len(),
                    offers == views(list.list@),
                    second == Seq::new(offers.len(), |i: int| offer_entry(peer@, offers[i])),
                    views(entries@) == first + second.take(i as int),
                decreases list.list.len() - i,
            {
                let offer = &list.list[i];
                let size = dec(offer.size);
                let text = join5(
                    "对方想发来文件：",
                    &offer.filename,
                    "（",
                    &size,
                    " 字节）  点左=接受 点右=拒绝",
                );
                let entry = ChatEntry {
                    line: line(text, fg(Color::Blue)),
                    offer: Some((peer.dup(), offer.file_id)),
                };
                proof {
                    lemma_views_push(entries@, entry);
                    assert(offers[i as int] == list.list[i as int]@);
                    assert(first + second.take(i + 1) =~= (first + second.take(i as int)).push(
                        entry@,
                    ));
                }
                entries.push(entry);
                i = i + 1;
            }
        }
        assert(views(entries@) =~= first + second);
    }
    entries
}

/// The heading of the conversation.
pub open spec fn chat_header(s: StateModel) -> Seq<char> {
    match s.selected_peer {
        Some(peer) => if has(s.peers, peer) {
            let info = at(s.peers, peer);
            "与 "@ + nick_or_unknown(info.nickname) + " 聊天   ["@ + (if info.online {
                "在线"@
            } else {
                "离线"@
            }) + "]"@
        } else {
            "与 "@ + peer + " 聊天"@
        },
        None => "在左侧选择一个联系人，回车开始对话"@,
    }
}

fn header_of(state: &AppState) -> (header: String)
    ensures
        header@ == chat_header(state@),
{
    match &state.selected_peer {
        Some(peer) => match state.peers.get(peer) {
            Some(info) => {
                let nick = nick_shown(&info.nickname);
                let on = if info.online {
                    "在线"
                } else {
                    "离线"
                };
                join5("与 ", &nick, " 聊天   [", on, "]")
            },
            None => join3("与 ", &peer.text, " 聊天"),
        },
        None => "在左侧选择一个联系人，回车开始对话".to_owned(),
    }
}

/// How many rows of the conversation fit: the height without the heading and the place to type.
pub open spec fn rows_shown(height: u16) -> u16 {
    if height < 3 {
        0
    } else {
        (height - 3) as u16
    }
}

/// The first row shown: the last rows are, unless they are scrolled up.
pub open spec fn first_shown(total: u16, avail: u16, scroll: u16) -> u16 {
    let last = if total > avail {
        total - avail
    } else {
        0
    };
    if last < scroll {
        0
    } else {
        (last - scroll) as u16
    }
}

/// The rows shown.
pub open spec fn visible(entries: Seq<ChatEntryModel>, avail: u16, scroll: u16) -> Seq<
    ChatEntryModel,
> {
    let start = first_shown(entries.len() as u16, avail, scroll) as int;
    let from = least(start, entries.len() as int);
    entries.subrange(from, least(start + avail, entries.len() as int))
}

/// Where the invitations among the first rows shown are: row under row, as wide as the part. A row
/// beyond the largest coordinate is nowhere.
pub open spec fn offers_shown(rows: Seq<ChatEntryModel>, part: Rect) -> Seq<
    (Rect, Seq<char>, u64),
>
    decreases rows.len(),
{
    if rows.len() == 0 {
        Seq::empty()
    } else {
        let before = offers_shown(rows.drop_last(), part);
        let y = part.y + rows.len() - 1;
        match rows.last().offer {
            Some((peer, id)) => if y < u16::MAX {
                before.push(
                    (Rect { x: part.x, y: y as u16, width: part.width, height: 1 }, peer, id),
                )
            } else {
                before
            },
            None => before,
        }
    }
}

/// What is typed, or that something else is.
pub open spec fn input_line(s: StateModel, u: UiModel) -> Seq<char> {
    if u.editing_nick {
        "（正在修改昵称…）"@
    } else {
        s.nickname + " › "@ + u.chat_input + "_"@
    }
}

/// The interface once the conversation is drawn.
pub open spec fn chat_ui(
    s: StateModel,
    u: UiModel,
    area: Rect,
    parts: Seq<Rect>,
    heads: Seq<Rect>,
) -> UiModel {
    let rows = visible(shown_entries(s), rows_shown(within(area).height), u.chat_scroll);
    UiModel {
        sendfile_rect: heads[1],
        offer_rects: u.offer_rects + offers_shown(rows, parts[1]),
        chat_input_rect: parts[2],
        ..u
    }
}

/// What is drawn of the conversation.
pub open spec fn chat_ops(
    s: StateModel,
    u: UiModel,
    area: Rect,
    parts: Seq<Rect>,
    heads: Seq<Rect>,
) -> Seq<DrawModel> {
    let rows = visible(shown_entries(s), rows_shown(within(area).height), u.chat_scroll);
    seq![
        panel_of("聊天"@, area),
        raw_of(chat_header(s), in_color(Color::Blue), heads[0]),
        one_line(" [发文件] "@, in_color(Color::Blue), Align::Center, heads[1]),
        DrawModel::Lines {
            lines: Seq::new(rows.len(), |i: int| rows[i].line),
            align: Align::Left,
            wrap: true,
            area: parts[1],
        },
        raw_of(input_line(s, u), in_color(Color::Blue), parts[2]),
    ]
}

/// Draws the conversation into given places: heading, rows and the place to type; and, within the
/// heading, its text and the button.
pub fn draw_chat_in(
    area: Rect,
    parts: &Vec<Rect>,
    heads: &Vec<Rect>,
    state: &AppState,
    ui: &mut UiState,
) -> (ops: Vec<DrawOp>)
    requires
        area.fits(),
        parts@.len() == 3,
        heads@.len() == 2,
    ensures
        final(ui)@ == chat_ui(state@, old(ui)@, area, parts@, heads@),
        views(ops@) == chat_ops(state@, old(ui)@, area, parts@, heads@),
{
    let ghost s = state@;
    let ghost u = ui@;
    let inner = panel_inner(area);
    let avail: u16 = inner.height.saturating_sub(3);
    let mut ops: Vec<DrawOp> = Vec::new();
    assert(views(ops@) =~= Seq::<DrawModel>::empty());
    push_op(&mut ops, panel("聊天", area));
    push_op(&mut ops, raw(header_of(state), fg(Color::Blue), heads[0]));
    push_op(
        &mut ops,
        draw_line(" [发文件] ".to_owned(), fg(Color::Blue), Align::Center, heads[1]),
    );
    ui.sendfile_rect = heads[1];

    let entries = entries_of(state);
    let ghost all = shown_entries(s);
    let total: u16 = entries.len() as u16;
    let max_start: u16 = if total > avail {
        total - avail
    } else {
        0
    };
    let start: u16 = max_start.saturating_sub(ui.chat_scroll);
    assert(start == first_shown(all.len() as u16, avail, u.chat_scroll));
    let end: usize = start as usize + avail as usize;
    let ghost rows = visible(all, avail, u.chat_scroll);
    let ghost before = ui.offer_rects@;
    let mut lines: Vec<Line> = Vec::new();
    let mut idx: usize = start as usize;
    let mut row: u16 = 0;
    proof {
        assert(rows.take(0) =~= Seq::<ChatEntryModel>::empty());
        assert(views(before) + offers_shown(rows.take(0), parts@[1]) =~= views(before));
    }
    while idx < entries.len() && idx < end
        invariant
            parts@.len() == 3,
            views(entries@) == all,
            end == start + avail,
            start == first_shown(all.len() as u16, avail, u.chat_scroll),
            rows == visible(all, avail, u.chat_scroll),
            idx == start + row,
            row <= rows.len(),
            row < rows.len() <==> (idx < all.len() && idx < end),
            lines.len() == row,
            forall|j: int| 0 <= j < row ==> (#[trigger] lines[j])@ == rows[j].line,
            ui@ == (UiModel {
                sendfile_rect: heads@[1],
                offer_rects: views(before) + offers_shown(rows.take(row as int), parts@[1]),
                ..u
            }),
        decreases entries.len() - idx,
    {
        let entry = &entries[idx];
        proof {
            assert(rows[row as int] == all[idx as int]);
            assert(all[idx as int] == entry@);
            assert(rows.take(row + 1).drop_last() =~= rows.take(row as int));
            assert(rows.take(row + 1).last() == entry@);
        }
        lines.push(entry.line.dup());
        let y: u32 = parts[1].y as u32 + row as u32;
        if let Some(offer) = &entry.offer {
            if y < 0xffff {
                let rect = Rect { x: parts[1].x, y: y as u16, width: parts[1].width, height: 1 };
                let shown = (rect, offer.0.dup(), offer.1);
                proof {
                    lemma_views_push(ui.offer_rects@, shown);
                    assert(views(before) + offers_shown(rows.take(row as int), parts@[1]).push(
                        shown@,
                    ) =~= (views(before) + offers_shown(rows.take(row as int), parts@[1])).push(
                        shown@,
                    ));
                }
                ui.offer_rects.push(shown);
            }
        }
        idx = idx + 1;
        row = row + 1;
    }
    proof {
        assert(rows.take(row as int) =~= rows);
        assert(views(lines@) =~= Seq::new(rows.len(), |i: int| rows[i].line));
    }
    push_op(&mut ops, DrawOp::Lines { lines, align: Align::Left, wrap: true, area: parts[1] });
    let input = if ui.editing_nick {
        "（正在修改昵称…）".to_owned()
    } else {
        join4(&state.nickname, " › ", &ui.chat_input, "_")
    };
    push_op(&mut ops, raw(input, fg(Color::Blue), parts[2]));
    ui.chat_input_rect = parts[2];
    assert(views(ops@) =~= chat_ops(s, u, area, parts@, heads@));
    ops
}

/// The invitations shown lie on the screen.
proof fn lemma_offers_fit(rows: Seq<ChatEntryModel>, part: Rect)
    requires
        part.fits(),
    ensures
        forall|i: int|
            0 <= i < offers_shown(rows, part).len() ==> (#[trigger] offers_shown(
                rows,
                part,
            )[i]).0.fits(),
    decreases rows.len(),
{
    if rows.len() > 0 {
        lemma_offers_fit(rows.drop_last(), part);
        let shown = offers_shown(rows, part);
        let before = offers_shown(rows.drop_last(), part);
        assert forall|i: int| 0 <= i < shown.len() implies (#[trigger] shown[i]).0.fits() by {
            if i < before.len() {
                assert(shown[i] == before[i]);
            }
        }
    }
}

/// How the conversation is laid out: the heading, the rows, and the place to type.
pub open spec fn chat_parts(height: u16) -> Seq<Constraint> {
    seq![Constraint::Length(1), Constraint::Length(rows_shown(height)), Constraint::Length(2)]
}

/// How the heading of the conversation is laid out: its text, and the button.
pub open spec fn head_parts() -> Seq<Constraint> {
    seq![Constraint::Min(0), Constraint::Length(12)]
}

/// The conversation is drawn into the parts.
pub open spec fn chat_drawn(
    s: StateModel,
    before: UiModel,
    after: UiModel,
    ops: Seq<DrawModel>,
    area: Rect,
    parts: Seq<Rect>,
    heads: Seq<Rect>,
) -> bool {
    &&& is_split(parts, Direction::Vertical, chat_parts(within(area).height), within(area))
    &&& is_split(heads, Direction::Horizontal, head_parts(), parts[0])
    &&& after == chat_ui(s, before, area, parts, heads)
    &&& ops == chat_ops(s, before, area, parts, heads)
}

/// Draws the conversation.
pub fn draw_chat(area: Rect, state: &AppState, ui: &mut UiState) -> (ops: Vec<DrawOp>)
    requires
        area.fits(),
        old(ui)@.wf(),
    ensures
        exists|parts: Seq<Rect>, heads: Seq<Rect>| #[trigger]
            chat_drawn(state@, old(ui)@, final(ui)@, views(ops@), area, parts, heads),
        final(ui)@.wf(),
{
    proof {
        lemma_within_fits(area);
    }
    let ghost before = ui@;
    let inner = panel_inner(area);
    let avail: u16 = inner.height.saturating_sub(3);
    let parts = split(
        Direction::Vertical,
        &vec![Constraint::Length(1), Constraint::Length(avail), Constraint::Length(2)],
        inner,
    );
    let heads = split(
        Direction::Horizontal,
        &vec![Constraint::Min(0), Constraint::Length(12)],
        parts[0],
    );
    let ops = draw_chat_in(area, &parts, &heads, state, ui);
    proof {
        let rows = visible(
            shown_entries(state@),
            rows_shown(within(area).height),
            before.chat_scroll,
        );
        lemma_offers_fit(rows, parts@[1]);
        assert(chat_drawn(state@, before, ui@, views(ops@), area, parts@, heads@));
    }
    ops
}

/// The row that is marked, within the list.
pub open spec fn within_list(sel: usize, n: nat) -> usize {
    if sel >= n {
        (n - 1) as usize
    } else {
        sel
    }
}

/// The interface once the files are drawn.
pub open spec fn files_ui(u: UiModel, files: Seq<Seq<char>>) -> UiModel {
    if files.len() == 0 {
        UiModel { file_list: files, ..u }
    } else {
        UiModel { file_list: files, file_sel: within_list(u.file_sel, files.len()), ..u }
    }
}

/// A file of the list, and whether it is marked.
pub open spec fn file_op(name: Seq<char>, marked: bool, area: Rect) -> DrawModel {
    raw_of(
        " "@ + name,
        if marked {
            in_color_on(Color::White, Color::Blue)
        } else {
            plain()
        },
        area,
    )
}

/// What is drawn of the files.
pub open spec fn files_ops(
    u: UiModel,
    area: Rect,
    rows: Seq<Rect>,
    files: Seq<Seq<char>>,
) -> Seq<DrawModel> {
    let head = seq![panel_of("文件（当前目录）"@, area)];
    if files.len() == 0 {
        head.push(raw_of("当前目录没有文件"@, in_color(Color::DarkGray), within(area)))
    } else {
        head + Seq::new(
            files.len(),
            |i: int| file_op(files[i], i == within_list(u.file_sel, files.len()), rows[i]),
        )
    }
}

/// Draws the files into given rows.
pub fn draw_files_in(area: Rect, rows: &Vec<Rect>, files: Vec<String>, ui: &mut UiState) -> (ops:
    Vec<DrawOp>)
    requires
        area.fits(),
        rows@.len() == files@.len(),
    ensures
        final(ui)@ == files_ui(old(ui)@, views(files@)),
        views(ops@) == files_ops(old(ui)@, area, rows@, views(files@)),
{
    let ghost u = ui@;
    let ghost all = views(files@);
    let mut ops: Vec<DrawOp> = Vec::new();
    assert(views(ops@) =~= Seq::<DrawModel>::empty());
    push_op(&mut ops, panel("文件（当前目录）", area));
    let ghost head = seq![panel_of("文件（当前目录）"@, area)];
    assert(views(ops@) =~= head);
    if files.len() == 0 {
        push_op(
            &mut ops,
            raw("当前目录没有文件".to_owned(), fg(Color::DarkGray), panel_inner(area)),
        );
        ui.file_list = files;
        return ops;
    }
    if ui.file_sel >= files.len() {
        ui.file_sel = files.len() - 1;
    }
    let sel: usize = ui.file_sel;
    let ghost wanted = Seq::new(
        all.len(),
        |i: int| file_op(all[i], i == within_list(u.file_sel, all.len()), rows@[i]),
    );
    let mut i: usize = 0;
    assert(head + wanted.take(0) =~= head);
    while i < files.len()
        invariant
            i <= files.len(),
            all == views(files@),
            rows@.len() == files@.len(),
            sel == within_list(u.file_sel, all.len()),
            wanted == Seq::new(
                all.len(),
                |i: int| file_op(all[i], i == within_list(u.file_sel, all.len()), rows@[i]),
            ),
            views(ops@) == head + wanted.take(i as int),
        decreases files.len() - i,
    {
        let style = if i == sel {
            fg_on(Color::White, Color::Blue)
        } else {
            style_plain()
        };
        push_op(&mut ops, raw(join2(" ", &files[i]), style, rows[i]));
        proof {
            assert(all[i as int] == files[i as int]@);
            assert(head + wanted.take(i + 1) =~= (head + wanted.take(i as int)).push(
                wanted[i as int],
            ));
        }
        i = i + 1;
    }
    assert(wanted.take(i as int) =~= wanted);
    ui.file_list = files;
    ops
}

/// The files are drawn into the rows.
pub open spec fn files_drawn(
    before: UiModel,
    after: UiModel,
    ops: Seq<DrawModel>,
    area: Rect,
    entries: Seq<EntryModel>,
    rows: Seq<Rect>,
    files: Seq<Seq<char>>,
) -> bool {
    &&& lists_files(files, entries)
    &&& is_split(rows, Direction::Vertical, times(Constraint::Length(1), files.len()), within(area))
    &&& after == files_ui(before, files)
    &&& ops == files_ops(before, area, rows, files)
}

/// Draws the files among the entries of the directory.
pub fn draw_files(area: Rect, entries: Vec<DirEntry>, ui: &mut UiState) -> (ops: Vec<DrawOp>)
    requires
        area.fits(),
        old(ui)@.wf(),
    ensures
        exists|rows: Seq<Rect>, files: Seq<Seq<char>>| #[trigger]
            files_drawn(
                old(ui)@,
                final(ui)@,
                views(ops@),
                area,
                views(entries@),
                rows,
                files,
            ),
        final(ui)@.wf(),
{
    proof {
        lemma_within_fits(area);
    }
    let ghost before = ui@;
    let ghost all = views(entries@);
    let inner = panel_inner(area);
    let files = sorted_files(entries);
    let rows = split(
        Direction::Vertical,
        &repeated(Constraint::Length(1), files.len()),
        inner,
    );
    let ghost order = views(files@);
    let ops = draw_files_in(area, &rows, files, ui);
    assert(files_drawn(before, ui@, views(ops@), area, all, rows@, order));
    ops
}

/// A transfer in progress: what it is called, and how much of it is done.
pub struct Progress {
    pub label: String,
    pub done: u64,
    pub total: u64,
}

/// What a [`Progress`] says.
#[verifier::ext_equal]
pub struct ProgressModel {
    pub label: Seq<char>,
    pub done: u64,
    pub total: u64,
}

impl View for Progress {
    type V = ProgressModel;

    open spec fn view(&self) -> ProgressModel {
        ProgressModel { label: self.label@, done: self.done, total: self.total }
    }
}

/// The progress of an outgoing transfer: the chunks that are not pending.
pub open spec fn outgoing_progress(s: StateModel, t: TransferModel) -> ProgressModel {
    ProgressModel {
        label: "↑ "@ + short_name(s, t.peer) + " "@ + t.filename + " ["@ + phase_text(t.phase)
            + "]"@,
        done: if t.pending.len() < t.chunks.len() {
            (t.chunks.len() - t.pending.len()) as u64
        } else {
            0
        },
        total: t.chunks.len() as u64,
    }
}

/// The progress of an incoming transfer: the chunks that have come.
pub open spec fn incoming_progress(inc: IncomingModel) -> ProgressModel {
    ProgressModel {
        label: "↓ "@ + inc.filename + " [接收中]"@,
        done: if inc.chunks.dom().len() < inc.total {
            inc.chunks.dom().len() as u64
        } else {
            inc.total as u64
        },
        total: inc.total as u64,
    }
}

/// The transfers in progress: the outgoing ones, then the incoming ones.
pub open spec fn progress_of(s: StateModel) -> Seq<ProgressModel> {
    Seq::new(s.outgoing_files.len(), |i: int| outgoing_progress(s, s.outgoing_files[i].1))
        + Seq::new(s.incoming_files.len(), |i: int| incoming_progress(s.incoming_files[i].1))
}

fn outgoing_item(state: &AppState, t: &OutgoingTransfer) -> (item: Progress)
    ensures
        item@ == outgoing_progress(state@, t@),
{
    let name = peer_short(state, &t.peer);
    let label = join6("↑ ", &name, " ", &t.filename, " [", phase_name(t.phase));
    let label = join2(&label, "]");
    let total: usize = t.chunks.len();
    let pending: usize = t.pending.len();
    let done: u64 = if pending < total {
        (total - pending) as u64
    } else {
        0
    };
    Progress { label, done, total: total as u64 }
}

fn incoming_item(inc: &IncomingTransfer) -> (item: Progress)
    ensures
        item@ == incoming_progress(inc@),
{
    broadcast use vstd::std_specs::hash::group_hash_axioms;

    assert(inc.chunks@.dom() =~= inc@.chunks.dom());
    let label = join3("↓ ", &inc.filename, " [接收中]");
    let got: usize = inc.chunks.len();
    let done: u64 = if got < inc.total as usize {
        got as u64
    } else {
        inc.total as u64
    };
    Progress { label, done, total: inc.total as u64 }
}

fn progress_items(state: &AppState) -> (items: Vec<Progress>)
    ensures
        views(items@) == progress_of(state@),
{
    let ghost s = state@;
    let ghost first = Seq::new(
        s.outgoing_files.len(),
        |i: int| outgoing_progress(s, s.outgoing_files[i].1),
    );
    let ghost second = Seq::new(
        s.incoming_files.len(),
        |i: int| incoming_progress(s.incoming_files[i].1),
    );
    let mut items: Vec<Progress> = Vec::new();
    let mut i: usize = 0;
    proof {
        assert(views(items@) =~= first.take(0));
    }
    while i < state.outgoing_files.len()
        invariant
            i <= first.len(),
            s == state@,
            first == Seq::new(
                s.outgoing_files.len(),
                |i: int| outgoing_progress(s, s.outgoing_files[i].1),
            ),
            views(items@) == first.take(i as int),
        decreases first.len() - i,
    {
        let item = outgoing_item(state, state.outgoing_files.value_at(i));
        proof {
            lemma_views_push(items@, item);
            assert(first.take(i + 1) =~= first.take(i as int).push(item@));
        }
        items.push(item);
        i = i + 1;
    }
    let mut j: usize = 0;
    assert(first.take(i as int) =~= first);
    assert(first + second.take(0) =~= first);
    while j < state.incoming_files.len()
        invariant
            j <= second.len(),
            s == state@,
            second == Seq::new(
                s.incoming_files.len(),
                |i: int| incoming_progress(s.incoming_files[i].1),
            ),
            views(items@) == first + second.take(j as int),
        decreases second.len() - j,
    {
        let item = incoming_item(state.incoming_files.value_at(j));
        proof {
            lemma_views_push(items@, item);
            assert(first + second.take(j + 1) =~= (first + second.take(j as int)).push(item@));
        }
        items.push(item);
        j = j + 1;
    }
    assert(second.take(j as int) =~= second);
    items
}

/// The second line of a row of two lines.
pub open spec fn below(row: Rect) -> Rect {
    Rect { x: row.x, y: (row.y + 1) as u16, width: row.width, height: 1 }
}

/// What is drawn of one transfer: its name and, below, how much of it is done; the latter not
/// below the largest coordinate.
pub open spec fn progress_op(item: ProgressModel, row: Rect) -> Seq<DrawModel> {
    let name = seq![raw_of(item.label, plain(), row)];
    if row.y < u16::MAX {
        name.push(
            DrawModel::Gauge {
                done: item.done,
                total: item.total,
                style: in_color(Color::Blue),
                area: below(row),
            },
        )
    } else {
        name
    }
}

/// What is drawn of the first transfers.
pub open spec fn progress_rows(items: Seq<ProgressModel>, rows: Seq<Rect>, n: nat) -> Seq<
    DrawModel,
>
    decreases n,
{
    if n == 0 {
        Seq::empty()
    } else {
        progress_rows(items, rows, (n - 1) as nat) + progress_op(items[n - 1], rows[n - 1])
    }
}

/// What is drawn of the transfers.
pub open spec fn progress_ops(items: Seq<ProgressModel>, area: Rect, rows: Seq<Rect>) -> Seq<
    DrawModel,
> {
    let head = seq![panel_of("进度"@, area)];
    if items.len() == 0 {
        head.push(
            raw_of("当前没有进行中的文件传输"@, in_color(Color::DarkGray), within(area)),
        )
    } else {
        head + progress_rows(items, rows, items.len())
    }
}

/// Draws the transfers into given rows.
pub fn draw_progress_in(area: Rect, rows: &Vec<Rect>, items: &Vec<Progress>) -> (ops: Vec<DrawOp>)
    requires
        area.fits(),
        rows@.len() == items@.len(),
    ensures
        views(ops@) == progress_ops(views(items@), area, rows@),
{
    let ghost all = views(items@);
    let mut ops: Vec<DrawOp> = Vec::new();
    assert(views(ops@) =~= Seq::<DrawModel>::empty());
    push_op(&mut ops, panel("进度", area));
    let ghost head = seq![panel_of("进度"@, area)];
    assert(views(ops@) =~= head);
    if items.len() == 0 {
        push_op(
            &mut ops,
            raw("当前没有进行中的文件传输".to_owned(), fg(Color::DarkGray), panel_inner(area)),
        );
        return ops;
    }
    let mut i: usize = 0;
    assert(head + progress_rows(all, rows@, 0) =~= head);
    while i < items.len()
        invariant
            i <= items.len(),
            all == views(items@),
            rows@.len() == items@.len(),
            views(ops@) == head + progress_rows(all, rows@, i as nat),
        decreases items.len() - i,
    {
        let ghost before = views(ops@);
        let row = rows[i];
        assert(all[i as int] == items[i as int]@);
        push_op(&mut ops, raw(items[i].label.clone(), style_plain(), row));
        if row.y < 0xffff {
            let area = Rect { x: row.x, y: row.y + 1, width: row.width, height: 1 };
            let (done, total) = (items[i].done, items[i].total);
            push_op(&mut ops, DrawOp::Gauge { done, total, style: fg(Color::Blue), area });
        }
        assert(views(ops@) =~= before + progress_op(all[i as int], row));
        assert(head + progress_rows(all, rows@, (i + 1) as nat) =~= before + progress_op(
            all[i as int],
            row,
        ));
        i = i + 1;
    }
    ops
}

/// The transfers are drawn into the rows.
pub open spec fn progress_drawn(
    s: StateModel,
    ops: Seq<DrawModel>,
    area: Rect,
    rows: Seq<Rect>,
) -> bool {
    &&& is_split(
        rows,
        Direction::Vertical,
        times(Constraint::Length(2), progress_of(s).len()),
        within(area),
    )
    &&& ops == progress_ops(progress_of(s), area, rows)
}

/// Draws the transfers in progress.
pub fn draw_progress(area: Rect, state: &AppState) -> (ops: Vec<DrawOp>)
    requires
        area.fits(),
    ensures
        exists|rows: Seq<Rect>| #[trigger] progress_drawn(state@, views(ops@), area, rows),
{
    proof {
        lemma_within_fits(area);
    }
    let inner = panel_inner(area);
    let items = progress_items(state);
    let rows = split(
        Direction::Vertical,
        &repeated(Constraint::Length(2), items.len()),
        inner,
    );
    let ops = draw_progress_in(area, &rows, &items);
    assert(progress_drawn(state@, views(ops@), area, rows@));
    ops
}

/// What is drawn of the log.
pub open spec fn log_ops(s: StateModel, area: Rect) -> Seq<DrawModel> {
    seq![
        panel_of("日志"@, area),
        DrawModel::Log { entries: s.logs, area: within(area) },
    ]
}

/// Draws the log.
pub fn draw_log(area: Rect, state: &AppState) -> (ops: Vec<DrawOp>)
    requires
        area.fits(),
    ensures
        views(ops@) == log_ops(state@, area),
{
    let mut entries: Vec<String> = Vec::new();
    let mut i: usize = 0;
    while i < state.logs.len()
        invariant
            i <= state.logs@.len(),
            entries.len() == i,
            forall|j: int| 0 <= j < i ==> (#[trigger] entries[j])@ == state.logs@[j]@,
        decreases state.logs@.len() - i,
    {
        entries.push(state.logs[i].clone());
        i = i + 1;
    }
    assert(views(entries@) =~= views(state.logs@));
    let mut ops: Vec<DrawOp> = Vec::new();
    assert(views(ops@) =~= Seq::<DrawModel>::empty());
    push_op(&mut ops, panel("日志", area));
    push_op(&mut ops, DrawOp::Log { entries, area: panel_inner(area) });
    assert(views(ops@) =~= log_ops(state@, area));
    ops
}

/// What is drawn of the files that were received.
pub open spec fn received_ops(area: Rect, rows: Seq<Rect>, files: Seq<Seq<char>>) -> Seq<
    DrawModel,
> {
    let head = seq![panel_of("已收文件"@, area)];
    if files.len() == 0 {
        head.push(
            raw_of("downloads/ 目录还没有文件"@, in_color(Color::DarkGray), within(area)),
        )
    } else {
        head + Seq::new(
            files.len(),
            |i: int| raw_of(" "@ + files[i], in_color(Color::White), rows[i]),
        )
    }
}

/// Draws the files that were received into given rows.
pub fn draw_received_in(area: Rect, rows: &Vec<Rect>, files: &Vec<String>) -> (ops: Vec<DrawOp>)
    requires
        area.fits(),
        rows@.len() == files@.len(),
    ensures
        views(ops@) == received_ops(area, rows@, views(files@)),
{
    let ghost all = views(files@);
    let mut ops: Vec<DrawOp> = Vec::new();
    assert(views(ops@) =~= Seq::<DrawModel>::empty());
    push_op(&mut ops, panel("已收文件", area));
    let ghost head = seq![panel_of("已收文件"@, area)];
    assert(views(ops@) =~= head);
    if files.len() == 0 {
        push_op(
            &mut ops,
            raw(
                "downloads/ 目录还没有文件".to_owned(),
                fg(Color::DarkGray),
                panel_inner(area),
            ),
        );
        return ops;
    }
    let ghost wanted = Seq::new(
        all.len(),
        |i: int| raw_of(" "@ + all[i], in_color(Color::White), rows@[i]),
    );
    let mut i: usize = 0;
    assert(head + wanted.take(0) =~= head);
    while i < files.len()
        invariant
            i <= files.len(),
            all == views(files@),
            rows@.len() == files@.len(),
            wanted == Seq::new(
                all.len(),
                |i: int| raw_of(" "@ + all[i], in_color(Color::White), rows@[i]),
            ),
            views(ops@) == head + wanted.take(i as int),
        decreases files.len() - i,
    {
        push_op(&mut ops, raw(join2(" ", &files[i]), fg(Color::White), rows[i]));
        proof {
            assert(all[i as int] == files[i as int]@);
            assert(head + wanted.take(i + 1) =~= (head + wanted.take(i as int)).push(
                wanted[i as int],
            ));
        }
        i = i + 1;
    }
    assert(wanted.take(i as int) =~= wanted);
    ops
}

/// The files that were received are drawn into the rows.
pub open spec fn received_drawn(
    ops: Seq<DrawModel>,
    area: Rect,
    entries: Seq<EntryModel>,
    rows: Seq<Rect>,
    files: Seq<Seq<char>>,
) -> bool {
    &&& lists_files(files, entries)
    &&& is_split(rows, Direction::Vertical, times(Constraint::Length(1), files.len()), within(area))
    &&& ops == received_ops(area, rows, files)
}

/// Draws the files that were received, from the entries of their directory.
pub fn draw_received(area: Rect, entries: Vec<DirEntry>) -> (ops: Vec<DrawOp>)
    requires
        area.fits(),
    ensures
        exists|rows: Seq<Rect>, files: Seq<Seq<char>>| #[trigger]
            received_drawn(views(ops@), area, views(entries@), rows, files),
{
    proof {
        lemma_within_fits(area);
    }
    let ghost all = views(entries@);
    let inner = panel_inner(area);
    let files = sorted_files(entries);
    let rows = split(
        Direction::Vertical,
        &repeated(Constraint::Length(1), files.len()),
        inner,
    );
    let ops = draw_received_in(area, &rows, &files);
    assert(received_drawn(views(ops@), area, all, rows@, views(files@)));
    ops
}

/// The pages, in the order of their titles.
pub open spec fn tab_list() -> Seq<Tab> {
    seq![Tab::Chat, Tab::Files, Tab::Progress, Tab::Log, Tab::Received]
}

/// The title of a page, and whether the page is shown.
pub open spec fn tab_op(tab: Tab, shown: bool, area: Rect) -> DrawModel {
    one_line(
        " "@ + (if shown {
            "▸"@
        } else {
            " "@
        }) + tab.title_text() + " "@,
        if shown {
            Style { fg: Some(Color::Blue), bg: None, bold: true }
        } else {
            in_color(Color::DarkGray)
        },
        Align::Left,
        area,
    )
}

/// The interface once the top of the screen is drawn.
pub open spec fn top_ui(u: UiModel, titles: Seq<Rect>, tabs: Seq<Rect>) -> UiModel {
    UiModel {
        settings_rect: titles[2],
        tab_rects: u.tab_rects + Seq::new(5, |i: int| (tabs[i], tab_list()[i])),
        ..u
    }
}

/// What is drawn at the top of the screen: the program's name, the nickname, the settings button,
/// and the titles of the pages.
pub open spec fn top_ops(s: StateModel, u: UiModel, titles: Seq<Rect>, tabs: Seq<Rect>) -> Seq<
    DrawModel,
> {
    seq![
        one_line(
            " peerchat"@,
            Style { fg: Some(Color::Blue), bg: None, bold: true },
            Align::Left,
            titles[0],
        ),
        DrawModel::Raw {
            text: "我: "@ + s.nickname,
            style: in_color(Color::DarkGray),
            align: Align::Right,
            area: titles[1],
        },
        one_line(" [ 设置 ] "@, in_color(Color::Blue), Align::Center, titles[2]),
    ] + Seq::new(5, |i: int| tab_op(tab_list()[i], tab_list()[i] == u.tab, tabs[i]))
}

fn draw_tab(tab: Tab, shown: bool, area: Rect) -> (op: DrawOp)
    ensures
        op@ == tab_op(tab, shown, area),
{
    let mark = if shown {
        "▸"
    } else {
        " "
    };
    let label = join4(" ", mark, tab.title(), " ");
    let style = if shown {
        Style { fg: Some(Color::Blue), bg: None, bold: true }
    } else {
        fg(Color::DarkGray)
    };
    draw_line(label, style, Align::Left, area)
}

/// Draws the top of the screen into given places.
pub fn draw_top_in(titles: &Vec<Rect>, tabs: &Vec<Rect>, state: &AppState, ui: &mut UiState) -> (ops:
    Vec<DrawOp>)
    requires
        titles@.len() == 3,
        tabs@.len() == 5,
    ensures
        final(ui)@ == top_ui(old(ui)@, titles@, tabs@),
        views(ops@) == top_ops(state@, old(ui)@, titles@, tabs@),
{
    let ghost s = state@;
    let ghost u = ui@;
    let mut ops: Vec<DrawOp> = Vec::new();
    assert(views(ops@) =~= Seq::<DrawModel>::empty());
    let bold = Style { fg: Some(Color::Blue), bg: None, bold: true };
    push_op(&mut ops, draw_line(" peerchat".to_owned(), bold, Align::Left, titles[0]));
    push_op(
        &mut ops,
        DrawOp::Raw {
            text: join2("我: ", &state.nickname),
            style: fg(Color::DarkGray),
            align: Align::Right,
            area: titles[1],
        },
    );
    push_op(
        &mut ops,
        draw_line(" [ 设置 ] ".to_owned(), fg(Color::Blue), Align::Center, titles[2]),
    );
    ui.settings_rect = titles[2];
    let ghost head = views(ops@);
    let ghost before = ui@.tab_rects;
    let list = [Tab::Chat, Tab::Files, Tab::Progress, Tab::Log, Tab::Received];
    let mut i: usize = 0;
    assert(list@ =~= tab_list());
    assert(head + Seq::<DrawModel>::empty() =~= head);
    while i < 5
        invariant
            i <= 5,
            list@ == tab_list(),
            tabs@.len() == 5,
            ui@ == (UiModel { settings_rect: titles@[2], tab_rects: ui@.tab_rects, ..u }),
            ui@.tab_rects == before + Seq::new(i as nat, |j: int| (tabs@[j], tab_list()[j])),
            views(ops@) == head + Seq::new(
                i as nat,
                |j: int| tab_op(tab_list()[j], tab_list()[j] == u.tab, tabs@[j]),
            ),
        decreases 5 - i,
    {
        let tab = list[i];
        push_op(&mut ops, draw_tab(tab, tab == ui.tab, tabs[i]));
        let shown = (tabs[i], tab);
        proof {
            lemma_views_push(ui.tab_rects@, shown);
        }
        ui.tab_rects.push(shown);
        proof {
            assert(ui@.tab_rects =~= before + Seq::new(
                (i + 1) as nat,
                |j: int| (tabs@[j], tab_list()[j]),
            ));
            assert(views(ops@) =~= head + Seq::new(
                (i + 1) as nat,
                |j: int| tab_op(tab_list()[j], tab_list()[j] == u.tab, tabs@[j]),
            ));
        }
        i = i + 1;
    }
    assert(views(ops@) =~= top_ops(s, u, titles@, tabs@));
    ops
}

/// What is drawn at the bottom of the screen: what is being edited, else the notice, else nothing.
pub open spec fn bottom_op(s: StateModel, u: UiModel, area: Rect) -> DrawModel {
    if u.editing_nick {
        one_line(
            "修改昵称："@ + u.nick_input + "_   （回车确认 · Esc 取消）"@,
            in_color(Color::Blue),
            Align::Left,
            area,
        )
    } else if u.editing_friend {
        one_line(
            "加好友（"@ + (if u.friend_bootstrap {
                "DHT引导"@
            } else {
                "直连"@
            }) + "）："@ + u.friend_input + "_   （回车确认 · Tab切换类型 · Esc取消）"@,
            in_color(Color::Blue),
            Align::Left,
            area,
        )
    } else {
        match s.toast {
            Some(text) => one_line(
                " ☞ "@ + text,
                in_color(Color::Blue),
                Align::Left,
                area,
            ),
            None => raw_of(""@, plain(), area),
        }
    }
}

/// The state once the bottom of the screen is drawn: a notice that was shown is gone.
pub open spec fn bottom_state(s: StateModel, u: UiModel) -> StateModel {
    if u.editing_nick || u.editing_friend {
        s
    } else {
        StateModel { toast: None, ..s }
    }
}

/// Draws the bottom of the screen.
pub fn draw_bottom(area: Rect, state: &mut AppState, ui: &UiState) -> (op: DrawOp)
    ensures
        final(state)@ == bottom_state(old(state)@, ui@),
        op@ == bottom_op(old(state)@, ui@, area),
{
    if ui.editing_nick {
        let text = join3("修改昵称：", &ui.nick_input, "_   （回车确认 · Esc 取消）");
        draw_line(text, fg(Color::Blue), Align::Left, area)
    } else if ui.editing_friend {
        let kind = if ui.friend_bootstrap {
            "DHT引导"
        } else {
            "直连"
        };
        let text = join5(
            "加好友（",
            kind,
            "）：",
            &ui.friend_input,
            "_   （回车确认 · Tab切换类型 · Esc取消）",
        );
        draw_line(text, fg(Color::Blue), Align::Left, area)
    } else {
        match take_toast(&mut state.toast) {
            Some(text) => draw_line(join2(" ☞ ", &text), fg(Color::Blue), Align::Left, area),
            None => raw("".to_owned(), style_plain(), area),
        }
    }
}

/// The page is drawn.
pub open spec fn page_drawn(
    s: StateModel,
    before: UiModel,
    after: UiModel,
    ops: Seq<DrawModel>,
    area: Rect,
    entries: Seq<EntryModel>,
) -> bool {
    match before.tab {
        Tab::Chat => exists|parts: Seq<Rect>, heads: Seq<Rect>| #[trigger]
            chat_drawn(s, before, after, ops, area, parts, heads),
        Tab::Files => exists|rows: Seq<Rect>, files: Seq<Seq<char>>| #[trigger]
            files_drawn(before, after, ops, area, entries, rows, files),
        Tab::Progress => after == before && exists|rows: Seq<Rect>| #[trigger]
            progress_drawn(s, ops, area, rows),
        Tab::Log => after == before && ops == log_ops(s, area),
        Tab::Received => after == before && exists|rows: Seq<Rect>, files: Seq<Seq<char>>|
         #[trigger]
            received_drawn(ops, area, entries, rows, files),
    }
}

/// Draws the page shown; of the directory that belongs to it the entries are given.
fn draw_page(area: Rect, entries: Vec<DirEntry>, state: &AppState, ui: &mut UiState) -> (ops: Vec<
    DrawOp,
>)
    requires
        area.fits(),
        old(ui)@.wf(),
    ensures
        page_drawn(state@, old(ui)@, final(ui)@, views(ops@), area, views(entries@)),
        final(ui)@.wf(),
{
    match ui.tab {
        Tab::Chat => draw_chat(area, state, ui),
        Tab::Files => draw_files(area, entries, ui),
        Tab::Progress => draw_progress(area, state),
        Tab::Log => draw_log(area, state),
        Tab::Received => draw_received(area, entries),
    }
}

/// Where the parts of the screen are.
#[verifier::ext_equal]
pub struct Placing {
    /// The top, the middle and the bottom.
    pub outer: Seq<Rect>,
    /// The two lines of the top.
    pub top: Seq<Rect>,
    /// The parts of the first of them.
    pub titles: Seq<Rect>,
    /// The parts of the second of them.
    pub tabs: Seq<Rect>,
    /// The contacts and the page.
    pub middle: Seq<Rect>,
}

/// The parts of the screen are split off one from the other.
pub open spec fn is_placing(p: Placing, size: Rect) -> bool {
    &&& is_split(
        p.outer,
        Direction::Vertical,
        seq![Constraint::Length(2), Constraint::Min(3), Constraint::Length(1)],
        size,
    )
    &&& is_split(p.top, Direction::Vertical, times(Constraint::Length(1), 2), p.outer[0])
    &&& is_split(
        p.titles,
        Direction::Horizontal,
        seq![Constraint::Length(16), Constraint::Min(0), Constraint::Length(12)],
        p.top[0],
    )
    &&& is_split(p.tabs, Direction::Horizontal, times(Constraint::Length(10), 5), p.top[1])
    &&& is_split(
        p.middle,
        Direction::Horizontal,
        seq![Constraint::Percentage(32), Constraint::Percentage(68)],
        p.outer[1],
    )
}

/// The interface with nothing to be clicked.
pub open spec fn cleared(u: UiModel) -> UiModel {
    UiModel {
        contact_rects: Seq::empty(),
        offer_rects: Seq::empty(),
        tab_rects: Seq::empty(),
        ..u
    }
}

/// What is drawn of the contacts, between two states of the interface.
pub open spec fn list_drawn(
    s: StateModel,
    before: UiModel,
    after: UiModel,
    ops: Seq<DrawModel>,
    area: Rect,
) -> bool {
    exists|parts: Seq<Rect>, rows: Seq<Rect>, ids: Seq<Seq<char>>| #[trigger]
        contacts_drawn(s, before, after, ops, area, parts, rows, ids)
}

/// The screen is drawn: top, contacts, page and bottom, in this order.
pub open spec fn screen_drawn(
    s: StateModel,
    before: UiModel,
    after: UiModel,
    ops: Seq<DrawModel>,
    entries: Seq<EntryModel>,
    p: Placing,
    u: UiModel,
    list: Seq<DrawModel>,
    page: Seq<DrawModel>,
) -> bool {
    let start = top_ui(cleared(before), p.titles, p.tabs);
    &&& list_drawn(s, start, u, list, p.middle[0])
    &&& page_drawn(s, u, after, page, p.middle[1], entries)
    &&& ops == (top_ops(s, cleared(before), p.titles, p.tabs) + list + page).push(
        bottom_op(s, after, p.outer[2]),
    )
}

/// Draws the screen. Of the directory that belongs to the page shown the entries are given.
pub fn draw(size: Rect, entries: Vec<DirEntry>, state: &mut AppState, ui: &mut UiState) -> (ops: Vec<
    DrawOp,
>)
    requires
        size.fits(),
        old(ui)@.wf(),
    ensures
        exists|p: Placing, u: UiModel, list: Seq<DrawModel>, page: Seq<DrawModel>|
            is_placing(p, size) && #[trigger] screen_drawn(
                old(state)@,
                old(ui)@,
                final(ui)@,
                views(ops@),
                views(entries@),
                p,
                u,
                list,
                page,
            ),
        final(state)@ == bottom_state(old(state)@, final(ui)@),
        final(ui)@.wf(),
{
    let ghost s = state@;
    let ghost before = ui@;
    let ghost all = views(entries@);
    ui.contact_rects = Vec::new();
    ui.offer_rects = Vec::new();
    ui.tab_rects = Vec::new();
    assert(ui@ == cleared(before));
    let outer = split(
        Direction::Vertical,
        &vec![Constraint::Length(2), Constraint::Min(3), Constraint::Length(1)],
        size,
    );
    let top = split(Direction::Vertical, &repeated(Constraint::Length(1), 2), outer[0]);
    let titles = split(
        Direction::Horizontal,
        &vec![Constraint::Length(16), Constraint::Min(0), Constraint::Length(12)],
        top[0],
    );
    let tabs = split(Direction::Horizontal, &repeated(Constraint::Length(10), 5), top[1]);
    let middle = split(
        Direction::Horizontal,
        &vec![Constraint::Percentage(32), Constraint::Percentage(68)],
        outer[1],
    );
    let ghost p = Placing {
        outer: outer@,
        top: top@,
        titles: titles@,
        tabs: tabs@,
        middle: middle@,
    };
    let mut ops = draw_top_in(&titles, &tabs, state, ui);
    let mut list = draw_contacts(middle[0], state, ui);
    let ghost u = ui@;
    let ghost drawn_list = views(list@);
    let mut page = draw_page(middle[1], entries, state, ui);
    let ghost drawn_page = views(page@);
    let ghost first = ops@;
    ops.append(&mut list);
    ops.append(&mut page);
    assert(views(ops@) =~= views(first) + drawn_list + drawn_page);
    let bottom = draw_bottom(outer[2], state, ui);
    push_op(&mut ops, bottom);
    assert(screen_drawn(s, before, ui@, views(ops@), all, p, u, drawn_list, drawn_page));
    ops
}

} // verus!
