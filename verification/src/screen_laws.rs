//! What holds of the screen, the mouse and the keys together: what is drawn somewhere is what a
//! click there is about, and what is typed is what is sent.
use vstd::prelude::*;
use crate::chat::RecordModel;
use crate::draw::{
    below, bottom_op, bottom_state, chat_drawn, chat_header, chat_ops, chat_parts, chat_ui, cleared,
    contact_line, contacts_drawn, contacts_ops, contacts_ui, extent, files_ops, files_ui,
    first_shown, from, has_room, hundredths, in_a_row, in_color, in_color_on, incoming_progress,
    input_line, is_bad_news, is_placing, is_split, list_drawn, list_parts, log_ops, nick_or_unknown,
    offers_shown, outgoing_progress, page_drawn, phase_text, plain, progress_of, progress_op,
    progress_ops, progress_rows, raw_of, received_ops, record_line, rows_shown, screen_drawn,
    short_name, shown_entries, tab_list, times, top_ops, top_ui, upto, visible, within, Align,
    ChatEntryModel, Color, Constraint, Direction, DrawModel, Placing, ProgressModel,
};
use crate::state::{PeerModel, StateModel};
use crate::text::{decimal, ends, law_shortened_fits, occurs_in, shortened, stands_at, starts};
use crate::tui::{
    after_key, after_mouse, click_cmd, clicked, contact_at, inside, key_cmd,
    law_row_holds_the_contact, offer_at, tab_at, EntryModel, KeyCode, MouseKind, Rect, Tab,
    UiCmdModel, UiModel,
};
use crate::file_transfer::{IncomingModel, Phase, TransferModel};
use crate::table::{at, distinct, has, keys, lemma_has, lookup, pos};

verus! {

/// What a constraint asks for, a number of times.
proof fn lemma_times(n: u16, k: nat, whole: int)
    ensures
        hundredths(times(Constraint::Length(n), k), whole) == 100 * n * k,
    decreases k,
{
    if k > 0 {
        let all = times(Constraint::Length(n), k);
        lemma_times(n, (k - 1) as nat, whole);
        assert(all.drop_last() =~= times(Constraint::Length(n), (k - 1) as nat));
        assert(100 * n * (k - 1) + 100 * n == 100 * n * k) by (nonlinear_arith);
    } else {
        assert(100 * n * k == 0) by (nonlinear_arith)
            requires
                k == 0,
        ;
    }
}

/// What two constraints ask for.
proof fn lemma_two(a: Constraint, b: Constraint, whole: int)
    ensures
        hundredths(seq![a, b], whole) == hundredths(seq![a], whole) + hundredths(seq![b], whole),
{
    reveal_with_fuel(hundredths, 3);
    assert(seq![a, b].drop_last() =~= seq![a]);
    assert(seq![a].drop_last() =~= Seq::<Constraint>::empty());
    assert(seq![b].drop_last() =~= Seq::<Constraint>::empty());
}

/// What three constraints ask for.
proof fn lemma_three(a: Constraint, b: Constraint, c: Constraint, whole: int)
    ensures
        hundredths(seq![a, b, c], whole) == hundredths(seq![a], whole) + hundredths(
            seq![b],
            whole,
        ) + hundredths(seq![c], whole),
{
    lemma_two(a, b, whole);
    reveal_with_fuel(hundredths, 2);
    assert(seq![a, b, c].drop_last() =~= seq![a, b]);
    assert(seq![c].drop_last() =~= Seq::<Constraint>::empty());
}

/// What one constraint asks for.
proof fn lemma_one(a: Constraint, whole: int)
    ensures
        hundredths(seq![a], whole) == (match a {
            Constraint::Length(n) => 100 * n,
            Constraint::Min(n) => 100 * n,
            Constraint::Percentage(n) => n * whole,
        }),
{
    reveal_with_fuel(hundredths, 2);
    assert(seq![a].drop_last() =~= Seq::<Constraint>::empty());
}

/// A part begins no earlier than one before it ends.
proof fn lemma_later(
    parts: Seq<Rect>,
    direction: Direction,
    wanted: Seq<Constraint>,
    area: Rect,
    i: int,
    j: int,
)
    requires
        in_a_row(parts, direction, wanted, area),
        0 <= i < j < parts.len(),
    ensures
        upto(direction, parts[i]) <= from(direction, parts[j]),
    decreases j - i,
{
    assert(from(direction, parts[j]) == upto(direction, parts[j - 1]));
    if i < j - 1 {
        lemma_later(parts, direction, wanted, area, i, j - 1);
    }
}

/// A point lies in no two parts of a row.
proof fn lemma_apart(
    parts: Seq<Rect>,
    direction: Direction,
    wanted: Seq<Constraint>,
    area: Rect,
    i: int,
    j: int,
    p: (u16, u16),
)
    requires
        in_a_row(parts, direction, wanted, area),
        0 <= i < parts.len(),
        0 <= j < parts.len(),
        i != j,
        inside(p, parts[i]),
    ensures
        !inside(p, parts[j]),
{
    if i < j {
        lemma_later(parts, direction, wanted, area, i, j);
    } else {
        lemma_later(parts, direction, wanted, area, j, i);
    }
}

/// The top, the middle and the bottom of a screen of at least six lines are apart.
proof fn lemma_outer(p: Placing, size: Rect)
    requires
        is_placing(p, size),
        size.height >= 6,
    ensures
        in_a_row(
            p.outer,
            Direction::Vertical,
            seq![Constraint::Length(2), Constraint::Min(3), Constraint::Length(1)],
            size,
        ),
{
    let whole = size.height as int;
    lemma_three(Constraint::Length(2), Constraint::Min(3), Constraint::Length(1), whole);
    lemma_one(Constraint::Length(2), whole);
    lemma_one(Constraint::Min(3), whole);
    lemma_one(Constraint::Length(1), whole);
}

/// The two lines at the top are apart.
proof fn lemma_top(p: Placing, size: Rect)
    requires
        is_placing(p, size),
        size.height >= 6,
    ensures
        in_a_row(p.top, Direction::Vertical, times(Constraint::Length(1), 2), p.outer[0]),
{
    lemma_outer(p, size);
    lemma_times(1, 2, p.outer[0].height as int);
    assert(extent(Direction::Vertical, p.outer[0]) == 2);
}

/// The contacts and the page are apart.
proof fn lemma_middle(p: Placing, size: Rect)
    requires
        is_placing(p, size),
    ensures
        in_a_row(
            p.middle,
            Direction::Horizontal,
            seq![Constraint::Percentage(32), Constraint::Percentage(68)],
            p.outer[1],
        ),
{
    let whole = p.outer[1].width as int;
    lemma_two(Constraint::Percentage(32), Constraint::Percentage(68), whole);
    lemma_one(Constraint::Percentage(32), whole);
    lemma_one(Constraint::Percentage(68), whole);
}

/// The page of a title at a point, where no other title is.
proof fn lemma_tab_at(rects: Seq<(Rect, Tab)>, p: (u16, u16), i: int)
    requires
        0 <= i < rects.len(),
        inside(p, rects[i].0),
        forall|j: int| 0 <= j < i ==> !inside(p, (#[trigger] rects[j]).0),
    ensures
        tab_at(rects, p) == Some(rects[i].1),
    decreases i,
{
    if i > 0 {
        assert(!inside(p, rects[0].0));
        assert forall|j: int| 0 <= j < i - 1 implies !inside(
            p,
            (#[trigger] rects.skip(1)[j]).0,
        ) by {
            assert(rects.skip(1)[j] == rects[j + 1]);
        }
        lemma_tab_at(rects.skip(1), p, i - 1);
    }
}

/// No title is at a point that lies in none.
proof fn lemma_no_tab(rects: Seq<(Rect, Tab)>, p: (u16, u16))
    requires
        forall|j: int| 0 <= j < rects.len() ==> !inside(p, (#[trigger] rects[j]).0),
    ensures
        tab_at(rects, p) is None,
    decreases rects.len(),
{
    if rects.len() > 0 {
        assert(!inside(p, rects[0].0));
        assert forall|j: int| 0 <= j < rects.skip(1).len() implies !inside(
            p,
            (#[trigger] rects.skip(1)[j]).0,
        ) by {
            assert(rects.skip(1)[j] == rects[j + 1]);
        }
        lemma_no_tab(rects.skip(1), p);
    }
}

/// The contact at a point, where no other one is.
proof fn lemma_contact_at(rects: Seq<(Rect, Seq<char>)>, p: (u16, u16), i: int)
    requires
        0 <= i < rects.len(),
        inside(p, rects[i].0),
        forall|j: int| 0 <= j < i ==> !inside(p, (#[trigger] rects[j]).0),
    ensures
        contact_at(rects, p) == Some(rects[i].1),
    decreases i,
{
    if i > 0 {
        assert(!inside(p, rects[0].0));
        assert forall|j: int| 0 <= j < i - 1 implies !inside(
            p,
            (#[trigger] rects.skip(1)[j]).0,
        ) by {
            assert(rects.skip(1)[j] == rects[j + 1]);
        }
        lemma_contact_at(rects.skip(1), p, i - 1);
    }
}

/// No contact is at a point that lies in none.
proof fn lemma_no_contact(rects: Seq<(Rect, Seq<char>)>, p: (u16, u16))
    requires
        forall|j: int| 0 <= j < rects.len() ==> !inside(p, (#[trigger] rects[j]).0),
    ensures
        contact_at(rects, p) is None,
    decreases rects.len(),
{
    if rects.len() > 0 {
        assert(!inside(p, rects[0].0));
        assert forall|j: int| 0 <= j < rects.skip(1).len() implies !inside(
            p,
            (#[trigger] rects.skip(1)[j]).0,
        ) by {
            assert(rects.skip(1)[j] == rects[j + 1]);
        }
        lemma_no_contact(rects.skip(1), p);
    }
}

/// The invitation at a point, where no other one is.
proof fn lemma_offer_at(rects: Seq<(Rect, Seq<char>, u64)>, p: (u16, u16), i: int)
    requires
        0 <= i < rects.len(),
        inside(p, rects[i].0),
        forall|j: int| 0 <= j < i ==> !inside(p, (#[trigger] rects[j]).0),
    ensures
        offer_at(rects, p) == Some(rects[i]),
    decreases i,
{
    if i > 0 {
        assert(!inside(p, rects[0].0));
        assert forall|j: int| 0 <= j < i - 1 implies !inside(
            p,
            (#[trigger] rects.skip(1)[j]).0,
        ) by {
            assert(rects.skip(1)[j] == rects[j + 1]);
        }
        lemma_offer_at(rects.skip(1), p, i - 1);
    }
}

/// Of the rows shown, the invitation in a row is found there, and none before it is at the point.
proof fn lemma_offer_shown(
    rows: Seq<ChatEntryModel>,
    part: Rect,
    row: int,
    peer: Seq<char>,
    id: u64,
    p: (u16, u16),
) -> (i: int)
    requires
        part.fits(),
        0 <= row < rows.len(),
        rows.len() <= part.height,
        rows[row].offer == Some((peer, id)),
        part.x <= p.0 < part.x + part.width,
        p.1 == part.y + row,
    ensures
        0 <= i < offers_shown(rows, part).len(),
        offers_shown(rows, part)[i] == (
            Rect { x: part.x, y: p.1, width: part.width, height: 1 },
            peer,
            id,
        ),
        forall|j: int| 0 <= j < i ==> !inside(p, (#[trigger] offers_shown(rows, part)[j]).0),
    decreases rows.len(),
{
    let before = offers_shown(rows.drop_last(), part);
    if row == rows.len() - 1 {
        lemma_offers_above(rows.drop_last(), part, p);
        before.len() as int
    } else {
        assert(rows.drop_last()[row] == rows[row]);
        let i = lemma_offer_shown(rows.drop_last(), part, row, peer, id, p);
        assert(offers_shown(rows, part)[i] == before[i]);
        assert forall|j: int| 0 <= j < i implies !inside(
            p,
            (#[trigger] offers_shown(rows, part)[j]).0,
        ) by {
            assert(offers_shown(rows, part)[j] == before[j]);
        }
        i
    }
}

/// The invitations in the rows above a point are not at the point.
proof fn lemma_offers_above(rows: Seq<ChatEntryModel>, part: Rect, p: (u16, u16))
    requires
        p.1 >= part.y + rows.len(),
    ensures
        forall|j: int|
            0 <= j < offers_shown(rows, part).len() ==> !inside(
                p,
                (#[trigger] offers_shown(rows, part)[j]).0,
            ),
    decreases rows.len(),
{
    if rows.len() > 0 {
        let before = offers_shown(rows.drop_last(), part);
        lemma_offers_above(rows.drop_last(), part, p);
        assert forall|j: int| 0 <= j < offers_shown(rows, part).len() implies !inside(
            p,
            (#[trigger] offers_shown(rows, part)[j]).0,
        ) by {
            if j < before.len() {
                assert(offers_shown(rows, part)[j] == before[j]);
            }
        }
    }
}

/// The interface once the top of the screen is drawn.
pub open spec fn with_top(before: UiModel, p: Placing) -> UiModel {
    top_ui(cleared(before), p.titles, p.tabs)
}

/// Of what can be clicked, drawing a page moves only what belongs to the conversation.
proof fn lemma_page_keeps(
    s: StateModel,
    u: UiModel,
    after: UiModel,
    page: Seq<DrawModel>,
    area: Rect,
    entries: Seq<EntryModel>,
)
    requires
        page_drawn(s, u, after, page, area, entries),
    ensures
        after.tab == u.tab,
        after.settings_rect == u.settings_rect,
        after.addfriend_rect == u.addfriend_rect,
        after.tab_rects == u.tab_rects,
        after.contact_rects == u.contact_rects,
        after.contact_ids == u.contact_ids,
{
}

/// Drawing the contacts moves nothing at the top, and shows no invitation.
proof fn lemma_list_keeps(
    s: StateModel,
    before: UiModel,
    u: UiModel,
    list: Seq<DrawModel>,
    p: Placing,
)
    requires
        list_drawn(s, with_top(before, p), u, list, p.middle[0]),
    ensures
        u.tab == before.tab,
        u.settings_rect == with_top(before, p).settings_rect,
        u.tab_rects == with_top(before, p).tab_rects,
        u.offer_rects == Seq::<(Rect, Seq<char>, u64)>::empty(),
{
}

/// The button that sends a file lies on the page, where the page has one.
proof fn lemma_sendfile_on_page(
    s: StateModel,
    u: UiModel,
    after: UiModel,
    page: Seq<DrawModel>,
    area: Rect,
    entries: Seq<EntryModel>,
    p: (u16, u16),
)
    requires
        area.fits(),
        page_drawn(s, u, after, page, area, entries),
        u.tab == Tab::Chat,
        inside(p, after.sendfile_rect),
    ensures
        inside(p, area),
{
    let (parts, heads) = choose|parts: Seq<Rect>, heads: Seq<Rect>| #[trigger]
        chat_drawn(s, u, after, page, area, parts, heads);
    assert(chat_drawn(s, u, after, page, area, parts, heads));
    assert(inside(p, heads[1]));
    assert(inside(p, parts[0]));
    assert(inside(p, within(area)));
}

/// A click where the settings button is drawn starts to change the nickname, and asks for nothing
/// else.
pub proof fn law_settings_are_opened(
    s: StateModel,
    before: UiModel,
    after: UiModel,
    ops: Seq<DrawModel>,
    entries: Seq<EntryModel>,
    size: Rect,
    p: Placing,
    u: UiModel,
    list: Seq<DrawModel>,
    page: Seq<DrawModel>,
    point: (u16, u16),
)
    requires
        is_placing(p, size),
        screen_drawn(s, before, after, ops, entries, p, u, list, page),
        inside(point, p.titles[2]),
    ensures
        clicked(after, point) == (UiModel {
            editing_nick: true,
            nick_input: Seq::empty(),
            ..after
        }),
        click_cmd(after, point) is None,
{
    lemma_page_keeps(s, u, after, page, p.middle[1], entries);
}

/// A click where the title of a page is drawn turns to the page, and asks for nothing else. The
/// screen is to have six lines and the width of the five titles.
pub proof fn law_title_turns_to_page(
    s: StateModel,
    before: UiModel,
    after: UiModel,
    ops: Seq<DrawModel>,
    entries: Seq<EntryModel>,
    size: Rect,
    p: Placing,
    u: UiModel,
    list: Seq<DrawModel>,
    page: Seq<DrawModel>,
    i: int,
    point: (u16, u16),
)
    requires
        size.fits(),
        size.height >= 6,
        size.width >= 50,
        is_placing(p, size),
        screen_drawn(s, before, after, ops, entries, p, u, list, page),
        0 <= i < 5,
        inside(point, p.tabs[i]),
    ensures
        clicked(after, point) == (UiModel { tab: tab_list()[i], ..after }),
        click_cmd(after, point) is None,
{
    lemma_page_keeps(s, u, after, page, p.middle[1], entries);
    lemma_outer(p, size);
    lemma_top(p, size);
    let tall = seq![Constraint::Length(2), Constraint::Min(3), Constraint::Length(1)];
    assert(inside(point, p.top[1]));
    assert(inside(point, p.outer[0]));
    lemma_apart(p.outer, Direction::Vertical, tall, size, 0, 1, point);
    lemma_apart(
        p.top,
        Direction::Vertical,
        times(Constraint::Length(1), 2),
        p.outer[0],
        1,
        0,
        point,
    );
    assert(!inside(point, p.titles[2]));
    let (lparts, rows, ids) = choose|lparts: Seq<Rect>, rows: Seq<Rect>, ids: Seq<Seq<char>>|
     #[trigger]
        contacts_drawn(s, with_top(before, p), u, list, p.middle[0], lparts, rows, ids);
    assert(contacts_drawn(s, with_top(before, p), u, list, p.middle[0], lparts, rows, ids));
    if inside(point, after.addfriend_rect) {
        assert(inside(point, lparts[0]));
        assert(inside(point, within(p.middle[0])));
        assert(inside(point, p.middle[0]));
    }
    if u.tab == Tab::Chat && inside(point, after.sendfile_rect) {
        lemma_sendfile_on_page(s, u, after, page, p.middle[1], entries, point);
        assert(inside(point, p.middle[1]));
    }
    lemma_times(10, 5, p.top[1].width as int);
    assert(in_a_row(p.tabs, Direction::Horizontal, times(Constraint::Length(10), 5), p.top[1]));
    assert(after.tab_rects =~= Seq::new(5, |i: int| (p.tabs[i], tab_list()[i])));
    assert forall|j: int| 0 <= j < i implies !inside(
        point,
        (#[trigger] after.tab_rects[j]).0,
    ) by {
        lemma_apart(
            p.tabs,
            Direction::Horizontal,
            times(Constraint::Length(10), 5),
            p.top[1],
            i,
            j,
            point,
        );
    }
    lemma_tab_at(after.tab_rects, point, i);
}

/// A point in the middle of the screen is not at the top.
proof fn lemma_not_at_top(
    before: UiModel,
    after: UiModel,
    size: Rect,
    p: Placing,
    point: (u16, u16),
)
    requires
        size.height >= 6,
        is_placing(p, size),
        after.settings_rect == with_top(before, p).settings_rect,
        after.tab_rects == with_top(before, p).tab_rects,
        inside(point, p.outer[1]),
    ensures
        !inside(point, after.settings_rect),
        tab_at(after.tab_rects, point) is None,
{
    lemma_outer(p, size);
    let tall = seq![Constraint::Length(2), Constraint::Min(3), Constraint::Length(1)];
    lemma_apart(p.outer, Direction::Vertical, tall, size, 1, 0, point);
    if inside(point, p.titles[2]) {
        assert(inside(point, p.top[0]));
        assert(inside(point, p.outer[0]));
    }
    assert(after.tab_rects =~= Seq::new(5, |i: int| (p.tabs[i], tab_list()[i])));
    assert forall|j: int| 0 <= j < after.tab_rects.len() implies !inside(
        point,
        (#[trigger] after.tab_rects[j]).0,
    ) by {
        if inside(point, p.tabs[j]) {
            assert(inside(point, p.top[1]));
            assert(inside(point, p.outer[0]));
        }
    }
    lemma_no_tab(after.tab_rects, point);
}

/// A point on the page is neither at the button to add a friend nor at a contact.
proof fn lemma_not_in_list(
    s: StateModel,
    before: UiModel,
    u: UiModel,
    list: Seq<DrawModel>,
    size: Rect,
    p: Placing,
    point: (u16, u16),
)
    requires
        size.fits(),
        is_placing(p, size),
        list_drawn(s, with_top(before, p), u, list, p.middle[0]),
        inside(point, p.middle[1]),
    ensures
        !inside(point, u.addfriend_rect),
        contact_at(u.contact_rects, point) is None,
{
    let start = with_top(before, p);
    let (lparts, rows, ids) = choose|lparts: Seq<Rect>, rows: Seq<Rect>, ids: Seq<Seq<char>>|
     #[trigger]
        contacts_drawn(s, start, u, list, p.middle[0], lparts, rows, ids);
    assert(contacts_drawn(s, start, u, list, p.middle[0], lparts, rows, ids));
    lemma_middle(p, size);
    let wide = seq![Constraint::Percentage(32), Constraint::Percentage(68)];
    lemma_apart(p.middle, Direction::Horizontal, wide, p.outer[1], 1, 0, point);
    if inside(point, u.addfriend_rect) {
        assert(inside(point, lparts[0]));
        assert(inside(point, within(p.middle[0])));
        assert(inside(point, p.middle[0]));
    }
    assert forall|j: int| 0 <= j < u.contact_rects.len() implies !inside(
        point,
        (#[trigger] u.contact_rects[j]).0,
    ) by {
        assert(u.contact_rects[j] == (rows[j], ids[j]));
        if inside(point, rows[j]) {
            assert(inside(point, lparts[1]));
            assert(inside(point, within(p.middle[0])));
            assert(inside(point, p.middle[0]));
        }
    }
    lemma_no_contact(u.contact_rects, point);
}

/// The heading, the rows and the place to type are apart, where there is a row.
proof fn lemma_chat_parts(area: Rect, parts: Seq<Rect>)
    requires
        is_split(parts, Direction::Vertical, chat_parts(within(area).height), within(area)),
        rows_shown(within(area).height) > 0,
    ensures
        in_a_row(parts, Direction::Vertical, chat_parts(within(area).height), within(area)),
        parts.len() == 3,
        parts[1].height == rows_shown(within(area).height),
{
    let height = within(area).height;
    let avail = rows_shown(height);
    lemma_three(
        Constraint::Length(1),
        Constraint::Length(avail),
        Constraint::Length(2),
        height as int,
    );
    lemma_one(Constraint::Length(1), height as int);
    lemma_one(Constraint::Length(avail), height as int);
    lemma_one(Constraint::Length(2), height as int);
    assert(chat_parts(height)[1] == Constraint::Length(avail));
}

/// What lies within a frame lies in its area.
proof fn lemma_within(area: Rect, point: (u16, u16))
    requires
        area.fits(),
        inside(point, within(area)),
    ensures
        inside(point, area),
{
}

/// A click where the button to add a friend is drawn starts to add one, to be dialled, and asks for
/// nothing else. The screen is to have six lines.
pub proof fn law_friend_button_answers(
    s: StateModel,
    before: UiModel,
    after: UiModel,
    ops: Seq<DrawModel>,
    entries: Seq<EntryModel>,
    size: Rect,
    p: Placing,
    u: UiModel,
    list: Seq<DrawModel>,
    page: Seq<DrawModel>,
    lparts: Seq<Rect>,
    rows: Seq<Rect>,
    ids: Seq<Seq<char>>,
    point: (u16, u16),
)
    requires
        size.fits(),
        size.height >= 6,
        is_placing(p, size),
        screen_drawn(s, before, after, ops, entries, p, u, list, page),
        contacts_drawn(s, with_top(before, p), u, list, p.middle[0], lparts, rows, ids),
        inside(point, lparts[0]),
    ensures
        clicked(after, point) == (UiModel {
            editing_friend: true,
            friend_input: Seq::empty(),
            friend_bootstrap: false,
            ..after
        }),
        click_cmd(after, point) is None,
{
    lemma_page_keeps(s, u, after, page, p.middle[1], entries);
    assert(inside(point, within(p.middle[0])));
    assert(inside(point, p.middle[0]));
    assert(inside(point, p.outer[1]));
    lemma_not_at_top(before, after, size, p, point);
}

/// A click where the button to send a file is drawn asks for a file to be chosen. The screen is to
/// have six lines.
pub proof fn law_file_button_answers(
    s: StateModel,
    before: UiModel,
    after: UiModel,
    ops: Seq<DrawModel>,
    entries: Seq<EntryModel>,
    size: Rect,
    p: Placing,
    u: UiModel,
    list: Seq<DrawModel>,
    page: Seq<DrawModel>,
    parts: Seq<Rect>,
    heads: Seq<Rect>,
    point: (u16, u16),
)
    requires
        size.fits(),
        size.height >= 6,
        is_placing(p, size),
        screen_drawn(s, before, after, ops, entries, p, u, list, page),
        u.tab == Tab::Chat,
        chat_drawn(s, u, after, page, p.middle[1], parts, heads),
        inside(point, heads[1]),
    ensures
        clicked(after, point) == after,
        click_cmd(after, point) == Some(UiCmdModel::PickFile),
{
    let area = p.middle[1];
    assert(inside(point, parts[0]));
    assert(inside(point, within(area)));
    lemma_within(area, point);
    assert(inside(point, p.outer[1]));
    assert(list_drawn(s, with_top(before, p), u, list, p.middle[0]));
    lemma_not_in_list(s, before, u, list, size, p, point);
    lemma_list_keeps(s, before, u, list, p);
    lemma_not_at_top(before, after, size, p, point);
}

/// A click where a contact is drawn selects the contact. The screen is to have six lines, and room
/// for the list of the contacts.
pub proof fn law_contact_is_selected(
    s: StateModel,
    before: UiModel,
    after: UiModel,
    ops: Seq<DrawModel>,
    entries: Seq<EntryModel>,
    size: Rect,
    p: Placing,
    u: UiModel,
    list: Seq<DrawModel>,
    page: Seq<DrawModel>,
    lparts: Seq<Rect>,
    rows: Seq<Rect>,
    ids: Seq<Seq<char>>,
    i: int,
    point: (u16, u16),
)
    requires
        size.fits(),
        size.height >= 6,
        is_placing(p, size),
        screen_drawn(s, before, after, ops, entries, p, u, list, page),
        contacts_drawn(s, with_top(before, p), u, list, p.middle[0], lparts, rows, ids),
        ids.len() <= lparts[1].height,
        0 <= i < ids.len(),
        inside(point, rows[i]),
    ensures
        click_cmd(after, point) == Some(UiCmdModel::SelectPeer(ids[i])),
{
    lemma_page_keeps(s, u, after, page, p.middle[1], entries);
    let inner = within(p.middle[0]);
    assert(inside(point, lparts[1]));
    assert(inside(point, inner));
    assert(inside(point, p.middle[0]));
    assert(inside(point, p.outer[1]));
    lemma_not_at_top(before, after, size, p, point);
    lemma_two(Constraint::Length(1), Constraint::Min(0), inner.height as int);
    lemma_one(Constraint::Length(1), inner.height as int);
    lemma_one(Constraint::Min(0), inner.height as int);
    assert(has_room(list_parts(), inner.height as int));
    lemma_apart(lparts, Direction::Vertical, list_parts(), inner, 1, 0, point);
    lemma_middle(p, size);
    let wide = seq![Constraint::Percentage(32), Constraint::Percentage(68)];
    lemma_apart(p.middle, Direction::Horizontal, wide, p.outer[1], 0, 1, point);
    if u.tab == Tab::Chat && inside(point, after.sendfile_rect) {
        lemma_sendfile_on_page(s, u, after, page, p.middle[1], entries, point);
    }
    lemma_times(1, ids.len(), lparts[1].height as int);
    let single = times(Constraint::Length(1), ids.len());
    assert(in_a_row(rows, Direction::Vertical, single, lparts[1]));
    assert(after.contact_rects =~= Seq::new(ids.len(), |i: int| (rows[i], ids[i])));
    assert forall|j: int| 0 <= j < i implies !inside(
        point,
        (#[trigger] after.contact_rects[j]).0,
    ) by {
        lemma_apart(rows, Direction::Vertical, single, lparts[1], i, j, point);
    }
    lemma_contact_at(after.contact_rects, point, i);
}

/// A click on the row of the conversation where an invitation stands decides the invitation: its
/// left half accepts it, its right half refuses it. The screen is to have six lines.
pub proof fn law_invitation_is_decided(
    s: StateModel,
    before: UiModel,
    after: UiModel,
    ops: Seq<DrawModel>,
    entries: Seq<EntryModel>,
    size: Rect,
    p: Placing,
    u: UiModel,
    list: Seq<DrawModel>,
    page: Seq<DrawModel>,
    parts: Seq<Rect>,
    heads: Seq<Rect>,
    row: int,
    peer: Seq<char>,
    id: u64,
    point: (u16, u16),
)
    requires
        size.fits(),
        size.height >= 6,
        is_placing(p, size),
        screen_drawn(s, before, after, ops, entries, p, u, list, page),
        chat_drawn(s, u, after, page, p.middle[1], parts, heads),
        ({
            let shown = visible(
                shown_entries(s),
                rows_shown(within(p.middle[1]).height),
                u.chat_scroll,
            );
            0 <= row < shown.len() && shown[row].offer == Some((peer, id))
        }),
        parts[1].x <= point.0 < parts[1].x + parts[1].width,
        point.1 == parts[1].y + row,
    ensures
        click_cmd(after, point) == Some(
            if point.0 < parts[1].x + parts[1].width / 2 {
                UiCmdModel::AcceptFile(peer, id)
            } else {
                UiCmdModel::RejectFile(peer, id)
            },
        ),
{
    let area = p.middle[1];
    let shown = visible(shown_entries(s), rows_shown(within(area).height), u.chat_scroll);
    assert(shown.len() <= rows_shown(within(area).height));
    lemma_chat_parts(area, parts);
    assert(inside(point, parts[1]));
    assert(inside(point, within(area)));
    lemma_within(area, point);
    assert(inside(point, p.outer[1]));
    assert(list_drawn(s, with_top(before, p), u, list, p.middle[0]));
    lemma_not_in_list(s, before, u, list, size, p, point);
    lemma_list_keeps(s, before, u, list, p);
    lemma_not_at_top(before, after, size, p, point);
    lemma_apart(
        parts,
        Direction::Vertical,
        chat_parts(within(area).height),
        within(area),
        1,
        0,
        point,
    );
    if inside(point, heads[1]) {
        assert(inside(point, parts[0]));
    }
    assert(after.offer_rects =~= offers_shown(shown, parts[1]));
    let i = lemma_offer_shown(shown, parts[1], row, peer, id, point);
    lemma_offer_at(after.offer_rects, point, i);
}

/// The interface once the characters of a text are typed one after the other.
pub open spec fn typed(u: UiModel, text: Seq<char>) -> UiModel
    decreases text.len(),
{
    if text.len() == 0 {
        u
    } else {
        after_key(typed(u, text.drop_last()), KeyCode::Char(text.last()), false)
    }
}

/// Every character that is typed on the chat page goes into the message, and the enter key sends
/// exactly what was typed and empties the place to type.
pub proof fn law_what_is_typed_is_sent(u: UiModel, text: Seq<char>)
    requires
        u.tab == Tab::Chat,
        !u.editing_nick,
        !u.editing_friend,
    ensures
        typed(u, text) == (UiModel { chat_input: u.chat_input + text, ..u }),
        (u.chat_input + text).len() > 0 ==> {
            &&& key_cmd(typed(u, text), KeyCode::Enter, false) == Some(
                UiCmdModel::SendChat(u.chat_input + text),
            )
            &&& after_key(typed(u, text), KeyCode::Enter, false) == (UiModel {
                chat_input: Seq::empty(),
                ..u
            })
        },
    decreases text.len(),
{
    if text.len() == 0 {
        assert(u.chat_input + text =~= u.chat_input);
    } else {
        law_what_is_typed_is_sent(u, text.drop_last());
        assert((u.chat_input + text.drop_last()).push(text.last()) =~= u.chat_input + text);
    }
}

/// The wheel turned up shows what was said before, and turned down what was said after: the first
/// row shown is the one above or below, within the conversation.
pub proof fn law_wheel_scrolls(u: UiModel, p: (u16, u16), total: u16, avail: u16)
    requires
        u.tab == Tab::Chat,
        u.chat_scroll < u16::MAX,
    ensures
        ({
            let first = first_shown(total, avail, u.chat_scroll);
            let up = after_mouse(u, MouseKind::ScrollUp, p);
            let down = after_mouse(u, MouseKind::ScrollDown, p);
            &&& first_shown(total, avail, up.chat_scroll) == (if first > 0 {
                first - 1
            } else {
                0
            })
            &&& first > 0 && u.chat_scroll > 0 ==> first_shown(total, avail, down.chat_scroll)
                == first + 1
            &&& u.chat_scroll == 0 ==> down.chat_scroll == 0
            &&& after_mouse(up, MouseKind::ScrollDown, p).chat_scroll == u.chat_scroll
        }),
{
}

/// Bad news, and only they, stand out in white on red, whoever said them and whatever they are
/// about; the time beside them is gray.
pub proof fn law_bad_news_stand_out(rec: RecordModel)
    ensures
        ({
            let spans = record_line(rec).spans;
            let own = rec.kind == "text"@ && rec.outbound;
            let (text, time) = if own {
                (spans[0], spans[1])
            } else {
                (spans[1], spans[0])
            };
            &&& spans.len() == 2
            &&& ends(text.text, rec.text)
            &&& text.style == in_color_on(Color::White, Color::Red) <==> is_bad_news(rec.text)
            &&& occurs_in(rec.time, time.text)
            &&& time.style == in_color(Color::DarkGray)
        }),
{
    let spans = record_line(rec).spans;
    let own = rec.kind == "text"@ && rec.outbound;
    let text = if own { spans[0].text } else { spans[1].text };
    assert(rec.text =~= text.subrange(text.len() - rec.text.len(), text.len() as int));
    if own {
        assert(stands_at(rec.time, spans[1].text, "  "@.len() as int)) by {
            assert(spans[1].text.subrange("  "@.len() as int, spans[1].text.len() as int)
                =~= rec.time);
        }
    } else {
        assert(stands_at(rec.time, spans[0].text, 0)) by {
            assert(spans[0].text.subrange(0, rec.time.len() as int) =~= rec.time);
        }
    }
}

/// Unless it is bad news, what this node said stands to the right in blue, what was said to it to
/// the left in white, and a notice in the middle in gray.
pub proof fn law_sides_of_a_conversation(rec: RecordModel)
    requires
        !is_bad_news(rec.text),
    ensures
        ({
            let line = record_line(rec);
            &&& rec.kind == "text"@ && rec.outbound ==> line.align == Some(Align::Right)
                && line.spans[0].style == in_color(Color::Blue)
            &&& rec.kind == "text"@ && !rec.outbound ==> line.align == Some(Align::Left)
                && line.spans[1].style == in_color(Color::White)
            &&& rec.kind == "system"@ ==> line.align == Some(Align::Center)
                && line.spans[1].style == in_color(Color::DarkGray)
        }),
{
    reveal_strlit("text");
    reveal_strlit("system");
    assert("text"@.len() != "system"@.len());
}

/// A text stands between what comes before and after it.
proof fn lemma_between(before: Seq<char>, text: Seq<char>, after: Seq<char>)
    ensures
        occurs_in(text, before + text + after),
        occurs_in(text, before + text),
        occurs_in(text, text + after),
{
    let n = before.len() as int;
    assert((before + text + after).subrange(n, n + text.len()) =~= text);
    assert(stands_at(text, before + text + after, n));
    assert((before + text).subrange(n, n + text.len()) =~= text);
    assert(stands_at(text, before + text, n));
    assert((text + after).subrange(0, text.len() as int) =~= text);
    assert(stands_at(text, text + after, 0));
}

/// Any of the words that tell of bad news makes a text bad news, whatever stands around it.
pub proof fn law_words_of_bad_news(before: Seq<char>, after: Seq<char>)
    ensures
        is_bad_news(before + "失败"@ + after),
        is_bad_news(before + "拒绝"@ + after),
        is_bad_news(before + "中断"@ + after),
        is_bad_news(before + "无法"@ + after),
        is_bad_news(before + "错误"@ + after),
        is_bad_news(before + "无应答"@ + after),
        is_bad_news(before + "未送达"@ + after),
        is_bad_news(before + "不能"@ + after),
        is_bad_news(before + "超时"@ + after),
        is_bad_news(before + "未收到"@ + after),
{
    lemma_between(before, "失败"@, after);
    lemma_between(before, "拒绝"@, after);
    lemma_between(before, "中断"@, after);
    lemma_between(before, "无法"@, after);
    lemma_between(before, "错误"@, after);
    lemma_between(before, "无应答"@, after);
    lemma_between(before, "未送达"@, after);
    lemma_between(before, "不能"@, after);
    lemma_between(before, "超时"@, after);
    lemma_between(before, "未收到"@, after);
}

/// A text with no character that those words end with is no bad news.
pub proof fn law_other_words_are_no_bad_news(text: Seq<char>)
    requires
        !text.contains('败'),
        !text.contains('绝'),
        !text.contains('断'),
        !text.contains('法'),
        !text.contains('误'),
        !text.contains('答'),
        !text.contains('达'),
        !text.contains('能'),
        !text.contains('时'),
        !text.contains('到'),
    ensures
        !is_bad_news(text),
{
    reveal_strlit("失败");
    reveal_strlit("拒绝");
    reveal_strlit("中断");
    reveal_strlit("无法");
    reveal_strlit("错误");
    reveal_strlit("无应答");
    reveal_strlit("未送达");
    reveal_strlit("不能");
    reveal_strlit("超时");
    reveal_strlit("未收到");
    lemma_last_occurs("失败"@, text);
    lemma_last_occurs("拒绝"@, text);
    lemma_last_occurs("中断"@, text);
    lemma_last_occurs("无法"@, text);
    lemma_last_occurs("错误"@, text);
    lemma_last_occurs("无应答"@, text);
    lemma_last_occurs("未送达"@, text);
    lemma_last_occurs("不能"@, text);
    lemma_last_occurs("超时"@, text);
    lemma_last_occurs("未收到"@, text);
}

proof fn lemma_last_occurs(word: Seq<char>, text: Seq<char>)
    requires
        word.len() > 0,
    ensures
        occurs_in(word, text) ==> text.contains(word.last()),
{
    if occurs_in(word, text) {
        let i = choose|i: int| #[trigger] stands_at(word, text, i);
        assert(text.subrange(i, i + word.len())[word.len() - 1] == word.last());
        assert(text[i + word.len() - 1] == word.last());
    }
}

/// What somebody said stands under the name they gave, what this node said does not, and a notice
/// about a file is marked as one.
pub proof fn law_speakers_are_named(rec: RecordModel)
    ensures
        rec.kind == "text"@ && !rec.outbound ==> starts(record_line(rec).spans[1].text, rec.name),
        rec.kind == "text"@ && rec.outbound ==> record_line(rec).spans[0].text == "我："@
            + rec.text,
        rec.kind == "file"@ ==> starts(record_line(rec).spans[1].text, "〔文件〕"@),
{
    reveal_strlit("text");
    reveal_strlit("file");
    reveal_strlit("system");
    if rec.kind == "text"@ {
        assert((rec.name + "："@ + rec.text).subrange(0, rec.name.len() as int) =~= rec.name);
    }
    if rec.kind == "file"@ {
        assert("text"@[0] == 't' && "file"@[0] == 'f');
        assert("system"@.len() != "file"@.len());
        assert(("〔文件〕"@ + rec.text).subrange(0, "〔文件〕"@.len() as int)
            =~= "〔文件〕"@);
    }
}

/// Unless it is scrolled up, a conversation shows the latest rows: as many as there is room for, up
/// to the very last; scrolled up by some rows, it shows the rows before, and as many.
pub proof fn law_latest_is_shown(entries: Seq<ChatEntryModel>, avail: u16, scroll: u16)
    requires
        entries.len() <= u16::MAX,
        scroll + avail <= entries.len() || scroll == 0,
    ensures
        visible(entries, avail, scroll).len() == (if entries.len() < avail {
            entries.len()
        } else {
            avail as nat
        }),
        forall|i: int|
            0 <= i < visible(entries, avail, scroll).len() ==> #[trigger] visible(
                entries,
                avail,
                scroll,
            )[i] == entries[entries.len() - scroll - visible(entries, avail, scroll).len() + i],
{
}

/// The conversation that is shown is the one with the contact selected: all its records, in order,
/// and after them each of the contact's invitations, with the name and the size of the file, which
/// a click there is about. Without a selection nothing is shown.
pub proof fn law_conversation_is_shown(s: StateModel)
    ensures
        s.selected_peer is None ==> shown_entries(s).len() == 0,
        s.selected_peer matches Some(peer) ==> {
            let records = match lookup(s.peers, peer) {
                Some(info) => info.records,
                None => Seq::empty(),
            };
            let offers = match lookup(s.pending_offers, peer) {
                Some(list) => list,
                None => Seq::empty(),
            };
            let shown = shown_entries(s);
            &&& shown.len() == records.len() + offers.len()
            &&& forall|i: int|
                0 <= i < records.len() ==> (#[trigger] shown[i]).offer is None && shown[i].line
                    == record_line(records[i])
            &&& forall|i: int|
                records.len() <= i < shown.len() ==> {
                    let offer = offers[i - records.len()];
                    &&& (#[trigger] shown[i]).offer == Some((peer, offer.file_id))
                    &&& shown[i].line.spans.len() == 1
                    &&& occurs_in(offer.filename, shown[i].line.spans[0].text)
                    &&& occurs_in(decimal(offer.size as nat), shown[i].line.spans[0].text)
                }
        },
{
    if let Some(peer) = s.selected_peer {
        let offers = match lookup(s.pending_offers, peer) {
            Some(list) => list,
            None => Seq::empty(),
        };
        let shown = shown_entries(s);
        let first = shown.len() - offers.len();
        assert forall|i: int| first <= i < shown.len() implies {
            let offer = offers[i - first];
            &&& (#[trigger] shown[i]).offer == Some((peer, offer.file_id))
            &&& shown[i].line.spans.len() == 1
            &&& occurs_in(offer.filename, shown[i].line.spans[0].text)
            &&& occurs_in(decimal(offer.size as nat), shown[i].line.spans[0].text)
        } by {
            let offer = offers[i - first];
            let start = "对方想发来文件："@;
            let size = decimal(offer.size as nat);
            let tail = " 字节）  点左=接受 点右=拒绝"@;
            lemma_between(start, offer.filename, "（"@ + size + tail);
            assert(start + offer.filename + ("（"@ + size + tail) =~= start + offer.filename
                + "（"@ + size + tail);
            lemma_between(start + offer.filename + "（"@, size, tail);
        }
    }
}

/// The heading names the contact and says whether it is online; the line below holds what is typed.
pub proof fn law_heading_names_the_contact(s: StateModel, peer: Seq<char>, u: UiModel)
    requires
        s.selected_peer == Some(peer),
    ensures
        lookup(s.peers, peer) matches Some(info) ==> {
            &&& info.nickname.len() > 0 ==> occurs_in(info.nickname, chat_header(s))
            &&& info.online ==> occurs_in("在线"@, chat_header(s))
            &&& !info.online ==> occurs_in("离线"@, chat_header(s))
        },
        lookup(s.peers, peer) is None ==> occurs_in(peer, chat_header(s)),
        !u.editing_nick ==> occurs_in(u.chat_input, input_line(s, u)) && starts(
            input_line(s, u),
            s.nickname,
        ),
{
    lemma_between("与 "@, peer, " 聊天"@);
    if let Some(info) = lookup(s.peers, peer) {
        let name = nick_or_unknown(info.nickname);
        let word = if info.online {
            "在线"@
        } else {
            "离线"@
        };
        lemma_between("与 "@ + name + " 聊天   ["@, word, "]"@);
        lemma_between("与 "@, name, " 聊天   ["@ + word + "]"@);
        assert("与 "@ + name + (" 聊天   ["@ + word + "]"@) =~= "与 "@ + name + " 聊天   ["@
            + word + "]"@);
    }
    lemma_between(s.nickname + " › "@, u.chat_input, "_"@);
    assert((s.nickname + " › "@ + u.chat_input + "_"@).subrange(0, s.nickname.len() as int)
        =~= s.nickname);
}

/// The line of a contact shows, in this order, whether it is online, its nickname, how much is
/// unread where something is, the beginning of its id, and its address.
pub proof fn law_contact_line_tells(info: PeerModel, id: Seq<char>)
    ensures
        ({
            let spans = contact_line(info, id).spans;
            let n = spans.len();
            &&& n == (if info.unread > 0 {
                5nat
            } else {
                4
            })
            &&& info.online <==> spans[0].style == in_color(Color::Green)
            &&& info.online <==> spans[0].text == "●"@
            &&& !info.online ==> spans[0].style == in_color(Color::Red)
            &&& info.nickname.len() > 0 ==> ends(spans[1].text, info.nickname)
            &&& info.unread > 0 ==> occurs_in(decimal(info.unread as nat), spans[2].text)
                && spans[2].style == in_color_on(Color::White, Color::Red)
            &&& ends(spans[n - 2].text, shortened(id, 8))
            &&& info.last_addr matches Some(addr) ==> ends(spans[n - 1].text, addr)
        }),
{
    reveal_strlit("●");
    reveal_strlit("○");
    assert("●"@[0] != "○"@[0]);
    assert((" "@ + info.nickname).subrange(
        " "@.len() as int,
        (" "@ + info.nickname).len() as int,
    ) =~= info.nickname);
    lemma_between(" "@, decimal(info.unread as nat), " "@);
    let short = shortened(id, 8);
    assert(("  "@ + short).subrange("  "@.len() as int, ("  "@ + short).len() as int) =~= short);
    if let Some(addr) = info.last_addr {
        assert(("  "@ + addr).subrange("  "@.len() as int, ("  "@ + addr).len() as int) =~= addr);
    }
}

/// Every contact has a row of its own in the list, with its own line, where a click is about it;
/// the list shows no others; and the row of the contact whose conversation is shown is marked.
pub proof fn law_contacts_have_rows(
    s: StateModel,
    before: UiModel,
    after: UiModel,
    ops: Seq<DrawModel>,
    area: Rect,
    parts: Seq<Rect>,
    rows: Seq<Rect>,
    ids: Seq<Seq<char>>,
)
    requires
        contacts_drawn(s, before, after, ops, area, parts, rows, ids),
        distinct(s.peers),
        0 < s.peers.len() <= usize::MAX,
        before.contact_rects.len() == 0,
    ensures
        ops.last() matches DrawModel::List { items, selected, mark, area: place } && {
            &&& items.len() == s.peers.len()
            &&& after.contact_ids == ids && after.contact_rects.len() == ids.len()
            &&& after.contact_sel == selected && selected < items.len()
            &&& forall|peer: Seq<char>| #[trigger]
                has(s.peers, peer) ==> exists|i: int|
                    0 <= i < items.len() && #[trigger] ids[i] == peer && items[i] == contact_line(
                        at(s.peers, peer),
                        peer,
                    ) && after.contact_rects[i] == (rows[i], peer)
            &&& s.selected_peer matches Some(peer) ==> has(s.peers, peer)
                ==> ids[selected as int] == peer
            &&& forall|i: int, j: int| 0 <= i < j < ids.len() ==> ids[i] != ids[j]
        },
{
    let keyed = keys(s.peers);
    vstd::seq_lib::to_multiset_len(ids);
    vstd::seq_lib::to_multiset_len(keyed);
    assert forall|i: int, j: int| 0 <= i < j < keyed.len() implies keyed[i] != keyed[j] by {
        assert(s.peers[i].0 != s.peers[j].0);
    }
    assert(keyed.no_duplicates());
    keyed.lemma_multiset_has_no_duplicates();
    ids.lemma_multiset_has_no_duplicates_conv();
    assert forall|peer: Seq<char>| #[trigger] has(s.peers, peer) implies exists|i: int|
        0 <= i < ids.len() && #[trigger] ids[i] == peer && contact_line(at(s.peers, ids[i]), ids[i])
            == contact_line(at(s.peers, peer), peer) && after.contact_rects[i] == (
            rows[i],
            peer,
        ) by {
        let k = pos(s.peers, peer);
        lemma_has(s.peers, peer);
        assert(keyed[k] == peer);
        assert(keyed.contains(peer));
        vstd::seq_lib::to_multiset_contains(keyed, peer);
        vstd::seq_lib::to_multiset_contains(ids, peer);
        let i = choose|i: int| 0 <= i < ids.len() && ids[i] == peer;
        assert(ids[i] == peer);
    }
    if let Some(peer) = s.selected_peer {
        law_row_holds_the_contact(ids, peer);
        if has(s.peers, peer) {
            let i = choose|i: int| 0 <= i < ids.len() && #[trigger] ids[i] == peer;
            assert(ids.contains(peer));
        }
    }
}

/// The progress of a transfer: nothing is done while all its chunks wait, all is done when none
/// does, and each chunk that waits less is one more that is done; its name, its peer and its phase
/// are shown. What is received is done as far as its chunks have come. Nothing is more than done.
pub proof fn law_progress_is_told(s: StateModel, t: TransferModel, inc: IncomingModel)
    requires
        t.chunks.len() <= u64::MAX,
        t.pending.len() <= t.chunks.len(),
        inc.chunks.dom().finite(),
    ensures
        ({
            let out = outgoing_progress(s, t);
            &&& out.total == t.chunks.len()
            &&& out.done + t.pending.len() == out.total
            &&& occurs_in(t.filename, out.label)
            &&& occurs_in(phase_text(t.phase), out.label)
            &&& occurs_in(short_name(s, t.peer), out.label)
        }),
        ({
            let got = incoming_progress(inc);
            &&& got.total == inc.total
            &&& got.done <= got.total
            &&& inc.chunks.dom().len() <= inc.total ==> got.done == inc.chunks.dom().len()
            &&& occurs_in(inc.filename, got.label)
        }),
{
    let who = short_name(s, t.peer);
    let phase = phase_text(t.phase);
    lemma_between("↑ "@, who, " "@ + t.filename + " ["@ + phase + "]"@);
    assert("↑ "@ + who + (" "@ + t.filename + " ["@ + phase + "]"@) =~= "↑ "@ + who + " "@
        + t.filename + " ["@ + phase + "]"@);
    lemma_between("↑ "@ + who + " "@, t.filename, " ["@ + phase + "]"@);
    assert("↑ "@ + who + " "@ + t.filename + (" ["@ + phase + "]"@) =~= "↑ "@ + who + " "@
        + t.filename + " ["@ + phase + "]"@);
    lemma_between("↑ "@ + who + " "@ + t.filename + " ["@, phase, "]"@);
    lemma_between("↓ "@, inc.filename, " [接收中]"@);
}

/// Each phase has a name of its own, and so has each page.
pub proof fn law_names_differ(a: Phase, b: Phase, t: Tab, r: Tab)
    ensures
        phase_text(a) == phase_text(b) ==> a == b,
        t.title_text() == r.title_text() ==> t == r,
{
    reveal_strlit("等待接受");
    reveal_strlit("发送中");
    reveal_strlit("查漏");
    reveal_strlit("完成");
    reveal_strlit("聊天");
    reveal_strlit("文件");
    reveal_strlit("进度");
    reveal_strlit("日志");
    reveal_strlit("已收文件");
    assert(phase_text(a)[0] == phase_text(b)[0] ==> a == b);
    assert(t.title_text()[0] == r.title_text()[0] ==> t == r);
}

/// Every transfer, in either direction, is among those whose progress is shown, and no other.
pub proof fn law_all_transfers_are_told(s: StateModel)
    ensures
        progress_of(s).len() == s.outgoing_files.len() + s.incoming_files.len(),
        forall|i: int|
            0 <= i < s.outgoing_files.len() ==> #[trigger] progress_of(s)[i] == outgoing_progress(
                s,
                s.outgoing_files[i].1,
            ),
        forall|i: int|
            0 <= i < s.incoming_files.len() ==> progress_of(s)[s.outgoing_files.len() + i]
                == incoming_progress((#[trigger] s.incoming_files[i]).1),
{
}

/// Each transfer told of is drawn in a row of its own: its name, and below it how much is done.
pub proof fn law_transfers_have_rows(
    items: Seq<ProgressModel>,
    area: Rect,
    rows: Seq<Rect>,
    i: int,
)
    requires
        0 <= i < items.len(),
        rows.len() == items.len(),
    ensures
        exists|k: int|
            0 <= k < progress_ops(items, area, rows).len() && #[trigger] progress_ops(
                items,
                area,
                rows,
            )[k] == raw_of(items[i].label, plain(), rows[i]) && (rows[i].y < u16::MAX ==> k + 1
                < progress_ops(items, area, rows).len() && (progress_ops(items, area, rows)[k
                + 1] matches DrawModel::Gauge { done, total, style, area: place } && done
                == items[i].done && total == items[i].total && place == below(rows[i]))),
{
    let all = progress_rows(items, rows, items.len());
    lemma_progress_row(items, rows, items.len(), i);
    let k = choose|k: int|
        0 <= k < all.len() && #[trigger] all[k] == raw_of(items[i].label, plain(), rows[i]) && (
        rows[i].y < u16::MAX ==> k + 1 < all.len() && (all[k + 1] matches DrawModel::Gauge {
            done,
            total,
            style,
            area: place,
        } && done == items[i].done && total == items[i].total && place == below(rows[i])));
    let ops = progress_ops(items, area, rows);
    assert(ops[k + 1] == all[k]);
    if rows[i].y < u16::MAX {
        assert(ops[k + 1 + 1] == all[k + 1]);
    }
}

proof fn lemma_progress_row(items: Seq<ProgressModel>, rows: Seq<Rect>, n: nat, i: int)
    requires
        0 <= i < n <= items.len(),
        rows.len() == items.len(),
    ensures
        ({
            let all = progress_rows(items, rows, n);
            exists|k: int|
                0 <= k < all.len() && #[trigger] all[k] == raw_of(
                    items[i].label,
                    plain(),
                    rows[i],
                ) && (rows[i].y < u16::MAX ==> k + 1 < all.len() && (all[k
                    + 1] matches DrawModel::Gauge { done, total, style, area: place } && done
                    == items[i].done && total == items[i].total && place == below(rows[i])))
        }),
    decreases n,
{
    let all = progress_rows(items, rows, n);
    let front = progress_rows(items, rows, (n - 1) as nat);
    let here = progress_op(items[n - 1], rows[n - 1]);
    assert(all == front + here);
    if i == n - 1 {
        let k = front.len() as int;
        assert(all[k] == here[0]);
        if rows[i].y < u16::MAX {
            assert(all[k + 1] == here[1]);
        }
    } else {
        lemma_progress_row(items, rows, (n - 1) as nat, i);
        let k = choose|k: int|
            0 <= k < front.len() && #[trigger] front[k] == raw_of(
                items[i].label,
                plain(),
                rows[i],
            ) && (rows[i].y < u16::MAX ==> k + 1 < front.len() && (front[k
                + 1] matches DrawModel::Gauge { done, total, style, area: place } && done
                == items[i].done && total == items[i].total && place == below(rows[i])));
        assert(all[k] == front[k]);
        if rows[i].y < u16::MAX {
            assert(all[k + 1] == front[k + 1]);
        }
    }
}

/// Every file of the directory has a row of its own with its name, and only the marked one stands
/// out, which is the one that the enter key sends; the files received have rows likewise.
pub proof fn law_files_have_rows(u: UiModel, area: Rect, rows: Seq<Rect>, files: Seq<Seq<char>>)
    requires
        0 < files.len() <= usize::MAX,
        rows.len() == files.len(),
    ensures
        ({
            let after = files_ui(u, files);
            let ops = files_ops(u, area, rows, files);
            &&& after.file_list == files && after.file_sel < files.len()
            &&& u.file_sel < files.len() ==> after.file_sel == u.file_sel
            &&& ops.len() == files.len() + 1
            &&& forall|i: int|
                0 < i < ops.len() ==> (#[trigger] ops[i] matches DrawModel::Raw {
                    text,
                    style,
                    align,
                    area: place,
                } && ends(text, files[i - 1]) && place == rows[i - 1] && (style == plain() <==> i
                    - 1 != after.file_sel))
        }),
        ({
            let ops = received_ops(area, rows, files);
            &&& ops.len() == files.len() + 1
            &&& forall|i: int|
                0 < i < ops.len() ==> (#[trigger] ops[i] matches DrawModel::Raw {
                    text,
                    style,
                    align,
                    area: place,
                } && ends(text, files[i - 1]) && place == rows[i - 1])
        }),
{
    assert forall|i: int| 0 <= i < files.len() implies ends(
        " "@ + #[trigger] files[i],
        files[i],
    ) by {
        let text = " "@ + files[i];
        assert(text.subrange(" "@.len() as int, text.len() as int) =~= files[i]);
    }
}

/// The log is shown whole.
pub proof fn law_log_is_shown(s: StateModel, area: Rect)
    ensures
        exists|i: int|
            0 <= i < log_ops(s, area).len() && (#[trigger] log_ops(s, area)[i] matches DrawModel::Log {
                entries,
                area: place,
            } && entries == s.logs && place == within(area)),
{
    assert(log_ops(s, area)[1] is Log);
}

/// A notice is shown at the bottom, once: it is gone when it was shown, and stays while something
/// is edited, as then what is typed is shown there.
pub proof fn law_notice_is_shown_once(s: StateModel, u: UiModel, area: Rect)
    ensures
        ({
            let shown = match bottom_op(s, u, area) {
                DrawModel::Lines { lines, align, wrap, area: place } => lines[0].spans[0].text,
                DrawModel::Raw { text, style, align, area: place } => text,
                _ => Seq::empty(),
            };
            &&& u.editing_nick ==> occurs_in(u.nick_input, shown)
            &&& u.editing_friend && !u.editing_nick ==> occurs_in(u.friend_input, shown)
                && occurs_in(
                if u.friend_bootstrap {
                    "DHT引导"@
                } else {
                    "直连"@
                },
                shown,
            )
            &&& u.editing_nick || u.editing_friend ==> bottom_state(s, u) == s
            &&& !u.editing_nick && !u.editing_friend ==> {
                &&& s.toast matches Some(text) ==> ends(shown, text)
                &&& s.toast is None ==> shown == ""@
                &&& bottom_state(s, u).toast is None
                &&& s == (StateModel { toast: s.toast, ..bottom_state(s, u) })
            }
        }),
{
    lemma_between("修改昵称："@, u.nick_input, "_   （回车确认 · Esc 取消）"@);
    let kind = if u.friend_bootstrap {
        "DHT引导"@
    } else {
        "直连"@
    };
    lemma_between(
        "加好友（"@ + kind + "）："@,
        u.friend_input,
        "_   （回车确认 · Tab切换类型 · Esc取消）"@,
    );
    let tail = "_   （回车确认 · Tab切换类型 · Esc取消）"@;
    lemma_between("加好友（"@, kind, "）："@ + u.friend_input + tail);
    assert("加好友（"@ + kind + ("）："@ + u.friend_input + tail) =~= "加好友（"@ + kind
        + "）："@ + u.friend_input + tail);
    if let Some(text) = s.toast {
        let line = " ☞ "@ + text;
        assert(line.subrange(" ☞ "@.len() as int, line.len() as int) =~= text);
    }
}

/// The top shows the nickname, and the title of every page in its place; the page that is shown,
/// and only it, stands out.
pub proof fn law_top_names_the_pages(
    s: StateModel,
    u: UiModel,
    titles: Seq<Rect>,
    tabs: Seq<Rect>,
    i: int,
)
    requires
        titles.len() == 3,
        tabs.len() == 5,
        u.tab_rects.len() == 0,
        0 <= i < 5,
    ensures
        ({
            let ops = top_ops(s, u, titles, tabs);
            let page = top_ui(u, titles, tabs).tab_rects[i];
            &&& ops.len() == 8
            &&& ops[1] matches DrawModel::Raw { text, style, align, area } && ends(text, s.nickname)
            &&& page.0 == tabs[i]
            &&& ops[3 + i] matches DrawModel::Lines { lines, align, wrap, area } && area == tabs[i]
                && occurs_in(page.1.title_text(), lines[0].spans[0].text) && (
            lines[0].spans[0].style.bold <==> page.1 == u.tab)
        }),
        forall|tab: Tab| #[trigger]
            tab_list().contains(tab),
{
    let text = "我: "@ + s.nickname;
    assert(text.subrange("我: "@.len() as int, text.len() as int) =~= s.nickname);
    let tab = tab_list()[i];
    let mark = if tab == u.tab {
        "▸"@
    } else {
        " "@
    };
    lemma_between(" "@ + mark, tab.title_text(), " "@);
    assert forall|t: Tab| #[trigger] tab_list().contains(t) by {
        assert(tab_list()[0] == Tab::Chat);
        assert(tab_list()[1] == Tab::Files);
        assert(tab_list()[2] == Tab::Progress);
        assert(tab_list()[3] == Tab::Log);
        assert(tab_list()[4] == Tab::Received);
    }
}

/// A contact is called by its nickname, and by the beginning of its id where it has none.
pub proof fn law_short_names(s: StateModel, peer: Seq<char>)
    ensures
        match lookup(s.peers, peer) {
            Some(info) => if info.nickname.len() > 0 {
                short_name(s, peer) == info.nickname
            } else {
                short_name(s, peer).is_prefix_of(peer) && short_name(s, peer).len() <= 8
            },
            None => short_name(s, peer) == peer,
        },
{
    law_shortened_fits(peer, 8);
}

/// The conversation takes up the page but for one line above and two below.
pub proof fn law_rows_fill_the_page(height: u16)
    ensures
        height >= 3 ==> rows_shown(height) + 3 == height,
        height < 3 ==> rows_shown(height) == 0,
{
}

/// What can be clicked is drawn where a click on it is awaited: the place to type with what is
/// typed, the button to send a file, the button to add a friend, and the settings.
pub proof fn law_buttons_are_where_they_are_drawn(
    s: StateModel,
    u: UiModel,
    area: Rect,
    parts: Seq<Rect>,
    heads: Seq<Rect>,
    rows: Seq<Rect>,
    ids: Seq<Seq<char>>,
    tabs: Seq<Rect>,
)
    ensures
        ({
            let ops = chat_ops(s, u, area, parts, heads);
            let after = chat_ui(s, u, area, parts, heads);
            &&& exists|i: int|
                0 <= i < ops.len() && (#[trigger] ops[i] matches DrawModel::Raw {
                    text,
                    style,
                    align,
                    area: place,
                } && text == input_line(s, u) && place == after.chat_input_rect)
            &&& exists|i: int|
                0 <= i < ops.len() && (#[trigger] ops[i] matches DrawModel::Lines {
                    lines,
                    align,
                    wrap,
                    area: place,
                } && lines[0].spans[0].text == " [发文件] "@ && place == after.sendfile_rect)
        }),
        ({
            let ops = contacts_ops(s, u, area, parts, ids);
            exists|i: int|
                0 <= i < ops.len() && (#[trigger] ops[i] matches DrawModel::Lines {
                    lines,
                    align,
                    wrap,
                    area: place,
                } && lines[0].spans[0].text == " [+加好友] "@ && place == contacts_ui(
                    s,
                    u,
                    parts,
                    rows,
                    ids,
                ).addfriend_rect)
        }),
        ({
            let ops = top_ops(s, u, parts, tabs);
            exists|i: int|
                0 <= i < ops.len() && (#[trigger] ops[i] matches DrawModel::Lines {
                    lines,
                    align,
                    wrap,
                    area: place,
                } && lines[0].spans[0].text == " [ 设置 ] "@ && place == top_ui(
                    u,
                    parts,
                    tabs,
                ).settings_rect)
        }),
{
    assert(chat_ops(s, u, area, parts, heads)[4] is Raw);
    assert(chat_ops(s, u, area, parts, heads)[2] is Lines);
    assert(contacts_ops(s, u, area, parts, ids)[1] is Lines);
    assert(top_ops(s, u, parts, tabs)[2] is Lines);
}

} // verus!
