//! What is drawn is what is hit: each name and each picture is that of the item that a press there finds,
//! each button is drawn where it is pressed, and the thumb tells how far the card is scrolled.
use vstd::prelude::*;
use crate::color::{law_plain_brightness_keeps_colors, light_color};
use crate::frame_laws::law_channels_stay_apart;
use crate::geometry::{
    cell_h_of, cell_w_of, grid_cols_of, law_scale_grows_with_width, law_wider_cards_have_no_fewer_columns,
    lemma_five_columns, lemma_scale_at_bounds, lemma_scaled_bounds, on_card, row_h_of, scale_of,
    wanted_cell_w, CONTENT_TOP,
};
use crate::layout::{
    among_items, item_at, items_left, items_top, on_close, on_face, on_style, on_title, Card, CardStyle,
};
use crate::list_laws::{law_numerals_stand_for_their_numbers, read_back};
use crate::layout_laws::{lemma_scaled_keeps_order, lemma_scaled_near};
use crate::paint::{
    badge_letter, badge_side, card_ops, cell_ops, chosen_in, font_sizes, frame_ops, half, icon_size, items_ops, label_says,
    lemma_line_height_is_positive, picture, row_ops, share, share_of_length, short_name, shows, text_start, thumb_height,
    thumb_ops, track_height, Anchor, DrawOp, Font, Label, ICON_PART,
};
use crate::paint_laws::{
    law_grid_items_are_hit_where_drawn, law_list_items_are_hit_where_drawn, law_thumb_stays_on_its_track,
    lemma_the_whole_is_all,
};
use crate::scanner::DesktopItem;
use crate::scroll::{
    content_room, first_line, items_per_line, line_height, lines_filled, lines_shown, max_scroll,
};
use crate::single::{
    lemma_spacing_bounds, lemma_to_single_exact, lemma_to_single_keeps, lemma_to_single_monotone,
    lemma_to_single_near, power_of_two, to_single,
};

verus! {

/// The step draws an item: its name or its picture.
pub open spec fn is_item_step(op: DrawOp) -> bool {
    match op {
        DrawOp::Text { label, .. } => label is ShortName || label is Name,
        DrawOp::Icon { .. } => true,
        DrawOp::Badge { .. } => true,
        _ => false,
    }
}

/// The step draws the item at that position of the item list: it names it, or shows its icon, or stands for
/// it where it has none.
pub open spec fn draws_item(op: DrawOp, items: Seq<DesktopItem>, idx: usize) -> bool {
    match op {
        DrawOp::Text { label, .. } => label == Label::ShortName(idx) || label == Label::Name(idx),
        DrawOp::Icon { handle, .. } => items[idx as int].icon == Some(handle),
        DrawOp::Badge { item, .. } => item == idx && items[idx as int].icon is None,
        _ => false,
    }
}

/// A point at which the step is seen: in a picture, or on the upper line of a text, to the right of where it
/// begins or in the stretch in which it is centred.
pub open spec fn is_seen_at(op: DrawOp, x: int, y: int) -> bool {
    match op {
        DrawOp::Text { at: Anchor::Middle(left, room, _), y: top, .. } => left <= x < left + room && y == top,
        DrawOp::Text { at: Anchor::At(left), y: top, .. } => left <= x && y == top,
        DrawOp::Icon { x: left, y: top, size, .. } => left <= x < left + size && top <= y < top + size,
        DrawOp::Badge { x: left, y: top, size, .. } => left <= x < left + size && top <= y < top + size,
        _ => false,
    }
}

/// What is drawn for one item.
spec fn item_step(card: Card, items: Seq<DesktopItem>, chosen: Option<int>, show_icons: bool, ii: int) -> Seq<
    DrawOp,
> {
    match card.style {
        CardStyle::Grid => cell_ops(card, items, ii, chosen == Some(ii)),
        CardStyle::List => row_ops(card, items, ii, chosen == Some(ii), show_icons),
    }
}

/// Each step among the items comes from an item that shows.
proof fn lemma_steps_come_from_items(
    card: Card,
    items: Seq<DesktopItem>,
    chosen: Option<int>,
    show_icons: bool,
    n: int,
    t: int,
) -> (ii: int)
    requires
        0 <= t < items_ops(card, items, chosen, show_icons, n).len(),
    ensures
        0 <= ii < n,
        shows(card, ii, show_icons),
        item_step(card, items, chosen, show_icons, ii).contains(
            items_ops(card, items, chosen, show_icons, n)[t],
        ),
    decreases n,
{
    let before = items_ops(card, items, chosen, show_icons, n - 1);
    if t < before.len() {
        lemma_steps_come_from_items(card, items, chosen, show_icons, n - 1, t)
    } else {
        let step = item_step(card, items, chosen, show_icons, n - 1);
        assert(items_ops(card, items, chosen, show_icons, n) == before + step);
        assert(step[t - before.len()] == items_ops(card, items, chosen, show_icons, n)[t]);
        n - 1
    }
}

/// Each step of an item that shows is among the items.
proof fn lemma_items_give_their_steps(
    card: Card,
    items: Seq<DesktopItem>,
    chosen: Option<int>,
    show_icons: bool,
    n: int,
    ii: int,
    u: int,
) -> (t: int)
    requires
        0 <= ii < n,
        shows(card, ii, show_icons),
        0 <= u < item_step(card, items, chosen, show_icons, ii).len(),
    ensures
        0 <= t < items_ops(card, items, chosen, show_icons, n).len(),
        items_ops(card, items, chosen, show_icons, n)[t] == item_step(card, items, chosen, show_icons, ii)[u],
    decreases n,
{
    let before = items_ops(card, items, chosen, show_icons, n - 1);
    if ii < n - 1 {
        lemma_items_give_their_steps(card, items, chosen, show_icons, n - 1, ii, u)
    } else {
        let step = item_step(card, items, chosen, show_icons, ii);
        assert(items_ops(card, items, chosen, show_icons, n) == before + step);
        before.len() + u
    }
}

/// The size of an icon in a grid leaves room for the name below it in its cell.
proof fn lemma_icon_leaves_room(card: Card)
    requires
        card.style == CardStyle::Grid,
    ensures
        0 < icon_size(card),
        icon_size(card) + on_card(6, card.width as int) < cell_h_of(card.width as int),
        48 <= cell_h_of(card.width as int) <= 120,
        icon_size(card) <= 67,
        0 <= on_card(6, card.width as int),
{
    let w = card.width as int;
    law_scale_grows_with_width(0, w, w);
    lemma_scaled_bounds(64, scale_of(w));
    lemma_scaled_bounds(6, scale_of(w));
    let ch = cell_h_of(w);
    let v = ch * ICON_PART;
    assert(48 <= ch <= 120);
    lemma_to_single_near(v, 1);
    lemma_spacing_bounds(v);
    assert(v / 1 == v);
}

/// From a width of eighty on, an icon is no wider than its cell.
proof fn lemma_icon_fits_its_cell(card: Card)
    requires
        card.style == CardStyle::Grid,
        80 <= card.width,
    ensures
        icon_size(card) <= cell_w_of(card.width as int),
{
    let w = card.width as int;
    let a = w - 16;
    let n = grid_cols_of(w);
    let want = wanted_cell_w(w);
    law_scale_grows_with_width(0, w, w);
    lemma_icon_leaves_room(card);
    let s = scale_of(w);
    if s <= 0x200_0000 {
        lemma_scaled_keeps_order(32, 48, w);
        lemma_scaled_bounds(48, s);
        assert(icon_size(card) <= want);
    } else {
        lemma_scaled_bounds(48, 0x200_0000);
        lemma_scaled_near(48, 0x200_0000);
        assert(want >= 95);
    }
    vstd::arithmetic::div_mod::lemma_fundamental_div_mod(a, want);
    vstd::arithmetic::div_mod::lemma_mod_bound(a, want);
    vstd::arithmetic::div_mod::lemma_fundamental_div_mod(a, n);
    vstd::arithmetic::div_mod::lemma_mod_bound(a, n);
    let q = a / want;
    if n <= q {
        assert(want <= a / n) by (nonlinear_arith)
            requires
                n <= q,
                a == want * q + a % want,
                0 <= a % want,
                a == n * (a / n) + a % n,
                0 <= a % n < n,
                0 < n,
                0 < want,
        ;
    } else {
        assert(n == 2);
        assert(a / n >= 32);
        if w >= 208 {
            lemma_five_columns(208);
            law_wider_cards_have_no_fewer_columns(208, w);
        }
        lemma_scale_at_bounds();
        lemma_to_single_monotone(w * 0x100_0000, 208int * 0x100_0000, 260);
        assert(s == 13421773);
        assert(power_of_two(5) == 32) by {
            reveal_with_fuel(power_of_two, 6);
        }
        lemma_to_single_keeps(13421773, 5);
        assert(on_card(32, w) == 25);
    }
}

/// Where the cell of an item lies that shows in a grid.
proof fn lemma_cell_is_near(card: Card, ii: int, show_icons: bool)
    requires
        card.style == CardStyle::Grid,
        0 <= ii,
        shows(card, ii, show_icons),
    ensures
        ({
            let w = card.width as int;
            let gx = items_left(card) + (ii % items_per_line(card)) * cell_w_of(w);
            let gy = items_top(card) + (ii / items_per_line(card) - first_line(card, false)) * cell_h_of(w);
            &&& first_line(card, false) == first_line(card, show_icons)
            &&& -0x1_0000_0000 <= gx <= 0x2_0000_0000
            &&& -0x1_0000_0000 <= gy <= 0x2_0000_0000
            &&& gy + cell_h_of(w) <= card.y + card.height - 8
            &&& 1 <= cell_w_of(w) <= 0x8000_0000
        }),
{
    let w = card.width as int;
    let p = items_per_line(card);
    let cw = cell_w_of(w);
    let c = ii % p;
    let a = w - 16;
    let line = ii / p - first_line(card, show_icons);
    let h = cell_h_of(w);
    law_scale_grows_with_width(0, w, w);
    lemma_scaled_bounds(8, scale_of(w));
    lemma_scaled_bounds(CONTENT_TOP as int, scale_of(w));
    lemma_scaled_bounds(64, scale_of(w));
    vstd::arithmetic::div_mod::lemma_mod_bound(ii, p);
    assert(a / grid_cols_of(w) <= 0x8000_0000) by (nonlinear_arith)
        requires
            a <= 0x8000_0000,
            2 <= grid_cols_of(w),
    ;
    assert(0 <= c * cw <= 0x8000_0000) by (nonlinear_arith)
        requires
            0 <= c < p,
            p == 1 || p == a / cw,
            a <= 0x8000_0000,
            1 <= cw,
    ;
    assert(0 <= line * h) by (nonlinear_arith)
        requires
            0 <= line,
            0 <= h,
    ;
}

/// Where the row of an item lies that shows in a list.
proof fn lemma_row_is_near(card: Card, ii: int, show_icons: bool)
    requires
        card.style == CardStyle::List,
        0 <= ii,
        shows(card, ii, show_icons),
    ensures
        ({
            let w = card.width as int;
            let py = items_top(card) + (ii - first_line(card, show_icons)) * row_h_of(w, show_icons);
            &&& -0x1_0000_0000 <= py <= 0x2_0000_0000
            &&& items_top(card) <= py
            &&& 1 <= row_h_of(w, show_icons) <= 120
            &&& 0 < on_card(16, w) <= on_card(26, w)
            &&& 0 < font_sizes(w).item <= on_card(22, w)
            &&& 0 <= on_card(12, w) <= 36
            &&& 0 <= on_card(34, w) <= 102
            &&& 0 <= on_card(10, w) <= 30
        }),
{
    let w = card.width as int;
    law_scale_grows_with_width(0, w, w);
    let s = scale_of(w);
    lemma_scaled_bounds(16, s);
    lemma_scaled_bounds(22, s);
    lemma_scaled_bounds(26, s);
    lemma_scaled_bounds(15, s);
    lemma_scaled_bounds(12, s);
    lemma_scaled_bounds(34, s);
    lemma_scaled_bounds(10, s);
    lemma_scaled_bounds(CONTENT_TOP as int, s);
    lemma_scaled_keeps_order(16, 26, w);
    lemma_scaled_keeps_order(15, 22, w);
    lemma_line_height_is_positive(card, show_icons);
    let line = ii - first_line(card, show_icons);
    let h = row_h_of(w, show_icons);
    assert(ii / 1 == ii);
    assert(0 <= line * h) by (nonlinear_arith)
        requires
            0 <= line,
            0 <= h,
    ;
}

/// An item of a list that shows is hit wherever its name or its picture is seen on the card.
proof fn lemma_row_is_hit(
    card: Card,
    items: Seq<DesktopItem>,
    chosen: bool,
    show_icons: bool,
    ii: int,
    op: DrawOp,
    x: int,
    y: int,
)
    requires
        card.style == CardStyle::List,
        0 <= card.scroll <= max_scroll(card, show_icons),
        0 <= ii < card.item_indices@.len(),
        shows(card, ii, show_icons),
        row_ops(card, items, ii, chosen, show_icons).contains(op),
        is_item_step(op),
        is_seen_at(op, x, y),
        on_face(card, x, y),
        among_items(card, x, y),
    ensures
        item_at(card, x, y, show_icons) == Some(ii),
        draws_item(op, items, card.item_indices@[ii]),
        card.item_indices@[ii] < items.len(),
{
    lemma_row_is_near(card, ii, show_icons);
    let step = row_ops(card, items, ii, chosen, show_icons);
    let u = choose|u: int| 0 <= u < step.len() && step[u] == op;
    law_list_items_are_hit_where_drawn(card, ii, x, y, show_icons);
}

/// An item of a grid that shows is hit wherever its name or its picture is seen on the card.
proof fn lemma_cell_is_hit(
    card: Card,
    items: Seq<DesktopItem>,
    chosen: bool,
    show_icons: bool,
    ii: int,
    op: DrawOp,
    x: int,
    y: int,
)
    requires
        card.style == CardStyle::Grid,
        80 <= card.width,
        0 <= card.scroll <= max_scroll(card, show_icons),
        0 <= ii < card.item_indices@.len(),
        shows(card, ii, show_icons),
        cell_ops(card, items, ii, chosen).contains(op),
        is_item_step(op),
        is_seen_at(op, x, y),
        among_items(card, x, y),
    ensures
        item_at(card, x, y, show_icons) == Some(ii),
        draws_item(op, items, card.item_indices@[ii]),
        card.item_indices@[ii] < items.len(),
{
    lemma_cell_is_near(card, ii, show_icons);
    lemma_icon_leaves_room(card);
    lemma_icon_fits_its_cell(card);
    let step = cell_ops(card, items, ii, chosen);
    let u = choose|u: int| 0 <= u < step.len() && step[u] == op;
    law_grid_items_are_hit_where_drawn(card, ii, x, y, show_icons);
}

/// Wherever a name or a picture is seen on a card, it is that of the item that is hit there: of the one that
/// stands in the list of the card at the place that is hit, in either style and however far the card is
/// scrolled. Only cards under eighty pixels wide are left out, whose icons are wider than their cells.
pub proof fn law_what_is_drawn_is_what_is_hit(
    card: Card,
    items: Seq<DesktopItem>,
    ci: usize,
    bg: u32,
    show_icons: bool,
    selected: Option<(usize, usize)>,
    t: int,
    x: int,
    y: int,
)
    requires
        80 <= card.width,
        0 <= card.scroll <= max_scroll(card, show_icons),
        0 <= t < card_ops(card, items, ci, bg, show_icons, selected).len(),
        is_item_step(card_ops(card, items, ci, bg, show_icons, selected)[t]),
        is_seen_at(card_ops(card, items, ci, bg, show_icons, selected)[t], x, y),
        on_face(card, x, y),
        among_items(card, x, y),
    ensures
        match item_at(card, x, y, show_icons) {
            Some(ii) => 0 <= ii < card.item_indices@.len() && card.item_indices@[ii] < items.len() && draws_item(
                card_ops(card, items, ci, bg, show_icons, selected)[t],
                items,
                card.item_indices@[ii],
            ),
            None => false,
        },
{
    let ops = card_ops(card, items, ci, bg, show_icons, selected);
    let op = ops[t];
    let chosen = chosen_in(selected, ci);
    let n = card.item_indices@.len() as int;
    let frame = frame_ops(card, bg as int);
    let mid = items_ops(card, items, chosen, show_icons, n);
    assert(ops == frame + mid + thumb_ops(card, show_icons));
    assert(frame.len() == 8);
    if t < 8 {
        assert(op == frame[t]);
        assert(!is_item_step(frame[0]) && !is_item_step(frame[1]) && !is_item_step(frame[2]) && !is_item_step(
            frame[3],
        ) && !is_item_step(frame[4]) && !is_item_step(frame[5]) && !is_item_step(frame[6]) && !is_item_step(
            frame[7],
        ));
    } else if t < 8 + mid.len() {
        assert(op == mid[t - 8]);
        let ii = lemma_steps_come_from_items(card, items, chosen, show_icons, n, t - 8);
        match card.style {
            CardStyle::Grid => lemma_cell_is_hit(card, items, chosen == Some(ii), show_icons, ii, op, x, y),
            CardStyle::List => lemma_row_is_hit(card, items, chosen == Some(ii), show_icons, ii, op, x, y),
        }
    } else {
        assert(op == thumb_ops(card, show_icons)[t - 8 - mid.len()]);
    }
}

/// The item at place `ii` is drawn among the steps: its name, within a line of the height `y`.
pub open spec fn is_named_near(ops: Seq<DrawOp>, idx: usize, y: int, h: int) -> bool {
    exists|t: int|
        0 <= t < ops.len() && match #[trigger] ops[t] {
            DrawOp::Text { label, y: top, .. } => (label == Label::ShortName(idx) || label == Label::Name(idx))
                && y - h < top < y + h,
            _ => false,
        }
}

/// Every item that is hit, on a line that is within the contents of the card, is drawn there: its name is
/// less than the height of a line away from the point.
pub proof fn law_what_is_hit_is_drawn(
    card: Card,
    items: Seq<DesktopItem>,
    ci: usize,
    bg: u32,
    show_icons: bool,
    selected: Option<(usize, usize)>,
    ii: int,
    x: int,
    y: int,
)
    requires
        20 <= card.width,
        0 <= card.scroll <= max_scroll(card, show_icons),
        item_at(card, x, y, show_icons) == Some(ii),
        card.item_indices@[ii] < items.len(),
        match card.style {
            CardStyle::Grid => y + cell_h_of(card.width as int) <= card.y + card.height - 8 && (x - items_left(card))
                / cell_w_of(card.width as int) < items_per_line(card),
            CardStyle::List => y <= card.y + card.height - 8,
        },
    ensures
        is_named_near(
            card_ops(card, items, ci, bg, show_icons, selected),
            card.item_indices@[ii],
            y,
            match card.style {
                CardStyle::Grid => cell_h_of(card.width as int),
                CardStyle::List => row_h_of(card.width as int, show_icons),
            },
        ),
{
    let w = card.width as int;
    let ops = card_ops(card, items, ci, bg, show_icons, selected);
    let chosen = chosen_in(selected, ci);
    let n = card.item_indices@.len() as int;
    let frame = frame_ops(card, bg as int);
    let mid = items_ops(card, items, chosen, show_icons, n);
    let first = first_line(card, show_icons);
    assert(ops == frame + mid + thumb_ops(card, show_icons));
    lemma_line_height_is_positive(card, show_icons);
    law_scale_grows_with_width(0, w, w);
    match card.style {
        CardStyle::Grid => {
            let h = cell_h_of(w);
            let per = items_per_line(card);
            let dy = y - items_top(card);
            let row = dy / h;
            let col = (x - items_left(card)) / cell_w_of(w);
            crate::scroll::law_drawn_columns_are_hit_columns(card);
            vstd::arithmetic::div_mod::lemma_fundamental_div_mod(dy, h);
            vstd::arithmetic::div_mod::lemma_mod_bound(dy, h);
            vstd::arithmetic::div_mod::lemma_div_pos_is_pos(dy, h);
            vstd::arithmetic::div_mod::lemma_div_pos_is_pos(x - items_left(card), cell_w_of(w));
            assert(ii == (row + first) * per + col);
            assert((row + first) * per == per * (row + first)) by (nonlinear_arith);
            vstd::arithmetic::div_mod::lemma_fundamental_div_mod_converse(ii, per, row + first, col);
            assert(row * h == h * row) by (nonlinear_arith);
            assert(shows(card, ii, show_icons));
            lemma_cell_is_near(card, ii, show_icons);
            lemma_icon_leaves_room(card);
        },
        CardStyle::List => {
            let h = row_h_of(w, show_icons);
            let dy = y - items_top(card);
            let row = dy / h;
            vstd::arithmetic::div_mod::lemma_fundamental_div_mod(dy, h);
            vstd::arithmetic::div_mod::lemma_mod_bound(dy, h);
            vstd::arithmetic::div_mod::lemma_div_pos_is_pos(dy, h);
            assert(ii == row + first);
            assert(ii / 1 == ii);
            assert(row * h == h * row) by (nonlinear_arith);
            assert(shows(card, ii, show_icons));
            lemma_row_is_near(card, ii, show_icons);
        },
    }
    let step = item_step(card, items, chosen, show_icons, ii);
    let u = step.len() - 1;
    let t = lemma_items_give_their_steps(card, items, chosen, show_icons, n, ii, u);
    assert(ops[8 + t] == step[u]);
}

/// A fill among the steps of an item is behind the chosen one, and is hit as that item.
proof fn lemma_mark_is_hit(
    card: Card,
    items: Seq<DesktopItem>,
    chosen: bool,
    show_icons: bool,
    ii: int,
    op: DrawOp,
    x: int,
    y: int,
)
    requires
        20 <= card.width,
        0 <= card.scroll <= max_scroll(card, show_icons),
        0 <= ii < card.item_indices@.len(),
        shows(card, ii, show_icons),
        match card.style {
            CardStyle::Grid => cell_ops(card, items, ii, chosen),
            CardStyle::List => row_ops(card, items, ii, chosen, show_icons),
        }.contains(op),
        on_face(card, x, y),
        among_items(card, x, y),
    ensures
        match op {
            DrawOp::Fill { area, .. } => chosen && (area.left <= x < area.right && area.top < y < area.bottom
                ==> item_at(card, x, y, show_icons) == Some(ii)),
            _ => true,
        },
{
    match card.style {
        CardStyle::Grid => {
            let step = cell_ops(card, items, ii, chosen);
            let u = choose|u: int| 0 <= u < step.len() && step[u] == op;
            lemma_cell_is_near(card, ii, show_icons);
            if let DrawOp::Fill { area, .. } = op {
                if area.left <= x < area.right && area.top < y < area.bottom {
                    law_grid_items_are_hit_where_drawn(card, ii, x, y, show_icons);
                }
            }
        },
        CardStyle::List => {
            let step = row_ops(card, items, ii, chosen, show_icons);
            let u = choose|u: int| 0 <= u < step.len() && step[u] == op;
            lemma_row_is_near(card, ii, show_icons);
            if let DrawOp::Fill { area, .. } = op {
                if area.left <= x < area.right && area.top < y < area.bottom {
                    law_list_items_are_hit_where_drawn(card, ii, x, y, show_icons);
                }
            }
        },
    }
}

/// The ground behind the selected item: a fill in that colour is drawn among the items of a card if and only
/// if the selected item is on that card and is drawn, and then every point within it, below its upper line,
/// hits the selected item.
pub proof fn law_the_selected_item_is_marked(
    card: Card,
    items: Seq<DesktopItem>,
    ci: usize,
    bg: u32,
    show_icons: bool,
    selected: Option<(usize, usize)>,
    t: int,
    x: int,
    y: int,
)
    requires
        20 <= card.width,
        0 <= card.scroll <= max_scroll(card, show_icons),
        8 <= t < card_ops(card, items, ci, bg, show_icons, selected).len(),
        on_face(card, x, y),
        among_items(card, x, y),
    ensures
        match card_ops(card, items, ci, bg, show_icons, selected)[t] {
            DrawOp::Fill { area, color } => color == 58 + 256 * 86 + 65536 * 132 && area.left <= x < area.right
                && area.top < y < area.bottom ==> selected is Some && (selected->0).0 == ci && item_at(
                card,
                x,
                y,
                show_icons,
            ) == Some((selected->0).1 as int),
            _ => true,
        },
{
    let ops = card_ops(card, items, ci, bg, show_icons, selected);
    let op = ops[t];
    let chosen = chosen_in(selected, ci);
    let n = card.item_indices@.len() as int;
    let frame = frame_ops(card, bg as int);
    let mid = items_ops(card, items, chosen, show_icons, n);
    assert(ops == frame + mid + thumb_ops(card, show_icons));
    assert(frame.len() == 8);
    if let DrawOp::Fill { area, color } = op {
        if color == 58 + 256 * 86 + 65536 * 132 && area.left <= x < area.right && area.top < y < area.bottom {
            if t < 8 + mid.len() {
                assert(op == mid[t - 8]);
                let ii = lemma_steps_come_from_items(card, items, chosen, show_icons, n, t - 8);
                lemma_mark_is_hit(card, items, chosen == Some(ii), show_icons, ii, op, x, y);
            } else {
                assert(op == thumb_ops(card, show_icons)[t - 8 - mid.len()]);
            }
        }
    }
}

/// A selected item that shows is marked, just before its picture and its name.
pub proof fn law_a_selection_that_shows_is_drawn(
    card: Card,
    items: Seq<DesktopItem>,
    ci: usize,
    bg: u32,
    show_icons: bool,
    ii: usize,
)
    requires
        ii < card.item_indices@.len(),
        card.item_indices@[ii as int] < items.len(),
        shows(card, ii as int, show_icons),
    ensures
        exists|t: int|
            8 <= t < card_ops(card, items, ci, bg, show_icons, Some((ci, ii))).len() && match #[trigger] card_ops(
                card,
                items,
                ci,
                bg,
                show_icons,
                Some((ci, ii)),
            )[t] {
                DrawOp::Fill { color, .. } => color == 58 + 256 * 86 + 65536 * 132,
                _ => false,
            },
{
    let selected = Some((ci, ii));
    let ops = card_ops(card, items, ci, bg, show_icons, selected);
    let chosen = chosen_in(selected, ci);
    let n = card.item_indices@.len() as int;
    let frame = frame_ops(card, bg as int);
    let mid = items_ops(card, items, chosen, show_icons, n);
    assert(ops == frame + mid + thumb_ops(card, show_icons));
    assert(chosen == Some(ii as int));
    let step = item_step(card, items, chosen, show_icons, ii as int);
    let t = lemma_items_give_their_steps(card, items, chosen, show_icons, n, ii as int, 0);
    assert(ops[8 + t] == step[0]);
}

/// The ground of a card is drawn exactly on the card, first of all.
pub proof fn law_the_ground_covers_the_card(
    card: Card,
    items: Seq<DesktopItem>,
    ci: usize,
    bg: u32,
    show_icons: bool,
    selected: Option<(usize, usize)>,
    x: int,
    y: int,
)
    ensures
        match card_ops(card, items, ci, bg, show_icons, selected)[0] {
            DrawOp::Fill { area, .. } => on_face(card, x, y) == (area.left <= x < area.right && area.top <= y
                < area.bottom),
            _ => false,
        },
{
    assert(card_ops(card, items, ci, bg, show_icons, selected)[0] == frame_ops(card, bg as int)[0]);
}

/// The lengths that place the buttons and the title.
proof fn lemma_button_lengths(w: int)
    ensures
        on_card(26, w) <= on_card(16, w) + on_card(12, w),
        on_card(16, w) - on_card(12, w) < on_card(26, w),
        on_card(54, w) <= on_card(52, w) + on_card(12, w),
        on_card(52, w) - on_card(12, w) < on_card(54, w),
        on_card(7, w) < 2 * on_card(12, w),
        on_card(10, w) < on_card(36, w),
        0 <= on_card(7, w) <= 21,
        0 <= on_card(10, w) <= 30,
        0 <= on_card(26, w) <= 78,
        0 <= on_card(28, w) <= 84,
        0 <= on_card(54, w) <= 162,
        180 <= w ==> 2 * on_card(28, w) < w,
{
    law_scale_grows_with_width(0, w, w);
    let s = scale_of(w);
    lemma_scaled_near(7, s);
    lemma_scaled_near(10, s);
    lemma_scaled_near(12, s);
    lemma_scaled_near(16, s);
    lemma_scaled_near(26, s);
    lemma_scaled_near(28, s);
    lemma_scaled_near(36, s);
    lemma_scaled_near(52, s);
    lemma_scaled_near(54, s);
    lemma_scaled_bounds(7, s);
    lemma_scaled_bounds(10, s);
    lemma_scaled_bounds(28, s);
    lemma_scaled_bounds(26, s);
    lemma_scaled_bounds(54, s);
    lemma_scaled_bounds(12, s);
    assert(on_card(26, w) <= on_card(16, w) + on_card(12, w));
    assert(on_card(54, w) <= on_card(52, w) + on_card(12, w));
    if 180 <= w < 780 {
        let v = w * 0x100_0000;
        lemma_to_single_near(v, 260);
        lemma_spacing_bounds(v / 260);
    }
}

/// The steps of an item are none of the frame.
proof fn lemma_items_are_no_frame(
    card: Card,
    items: Seq<DesktopItem>,
    chosen: Option<int>,
    show_icons: bool,
    ii: int,
    op: DrawOp,
)
    requires
        item_step(card, items, chosen, show_icons, ii).contains(op),
    ensures
        match op {
            DrawOp::Text { label, .. } => label is ShortName || label is Name,
            DrawOp::Dot { .. } => false,
            _ => true,
        },
{
    let step = item_step(card, items, chosen, show_icons, ii);
    let u = choose|u: int| 0 <= u < step.len() && step[u] == op;
}

/// The buttons are drawn where they are pressed. The one for the style says the style that the card does
/// not have. The count is the number of items, and the title begins on the title bar of a card that is wide
/// enough.
pub proof fn law_buttons_are_drawn_where_they_are_pressed(
    card: Card,
    items: Seq<DesktopItem>,
    ci: usize,
    bg: u32,
    show_icons: bool,
    selected: Option<(usize, usize)>,
    t: int,
)
    requires
        0 <= t < card_ops(card, items, ci, bg, show_icons, selected).len(),
        card.item_indices@.len() <= usize::MAX,
    ensures
        match card_ops(card, items, ci, bg, show_icons, selected)[t] {
            DrawOp::Text { label: Label::Close, at, y, .. } => match at {
                Anchor::At(x) => on_close(card, x as int, y as int),
                _ => false,
            },
            DrawOp::Text { label: Label::SwitchToList, at, y, .. } => card.style == CardStyle::Grid && match at {
                Anchor::At(x) => on_style(card, x as int, y as int),
                _ => false,
            },
            DrawOp::Text { label: Label::SwitchToGrid, at, y, .. } => card.style == CardStyle::List && match at {
                Anchor::At(x) => on_style(card, x as int, y as int),
                _ => false,
            },
            DrawOp::Text { label: Label::Title, at, y, .. } => match at {
                Anchor::At(x) => card.x <= x && (180 <= card.width ==> on_title(card, x as int, y as int)),
                _ => false,
            },
            DrawOp::Text { label: Label::Count(n), .. } => n == card.item_indices@.len(),
            _ => true,
        },
        exists|u: int|
            0 <= u < 8 && match #[trigger] card_ops(card, items, ci, bg, show_icons, selected)[u] {
                DrawOp::Text { label: Label::Close, .. } => true,
                _ => false,
            },
        exists|u: int|
            0 <= u < 8 && match #[trigger] card_ops(card, items, ci, bg, show_icons, selected)[u] {
                DrawOp::Text { label: Label::SwitchToList, .. } => true,
                DrawOp::Text { label: Label::SwitchToGrid, .. } => true,
                _ => false,
            },
        exists|u: int|
            0 <= u < 8 && match #[trigger] card_ops(card, items, ci, bg, show_icons, selected)[u] {
                DrawOp::Text { label: Label::Title, .. } => true,
                _ => false,
            },
        exists|u: int|
            0 <= u < 8 && match #[trigger] card_ops(card, items, ci, bg, show_icons, selected)[u] {
                DrawOp::Text { label: Label::Count(_), .. } => true,
                _ => false,
            },
{
    let w = card.width as int;
    let ops = card_ops(card, items, ci, bg, show_icons, selected);
    let chosen = chosen_in(selected, ci);
    let n = card.item_indices@.len() as int;
    let frame = frame_ops(card, bg as int);
    let mid = items_ops(card, items, chosen, show_icons, n);
    assert(ops == frame + mid + thumb_ops(card, show_icons));
    assert(frame.len() == 8);
    assert(ops[4] == frame[4] && ops[5] == frame[5] && ops[6] == frame[6] && ops[7] == frame[7]);
    lemma_button_lengths(w);
    if t < 8 {
        assert(ops[t] == frame[t]);
    } else if t < 8 + mid.len() {
        assert(ops[t] == mid[t - 8]);
        let ii = lemma_steps_come_from_items(card, items, chosen, show_icons, n, t - 8);
        lemma_items_are_no_frame(card, items, chosen, show_icons, ii, ops[t]);
    } else {
        assert(ops[t] == thumb_ops(card, show_icons)[t - 8 - mid.len()]);
    }
}

/// A short name is the beginning of the name: all of it up to six characters, else the first six and an
/// ellipsis.
pub proof fn law_short_names_begin_the_name(name: Seq<char>, i: int)
    ensures
        name.len() <= 6 ==> short_name(name) == name,
        name.len() > 6 ==> short_name(name).len() == 7 && short_name(name)[6] == '…',
        0 <= i < name.len() && i < 6 ==> short_name(name)[i] == name[i],
{
    reveal_strlit("…");
}

/// The labels say what they are for: the title and the number of items of the card, and the name of the item
/// that they stand for.
pub proof fn law_labels_say_what_they_are_for(card: Card, items: Seq<DesktopItem>, i: usize)
    ensures
        label_says(Label::Title, card, items) == card.title@,
        label_says(Label::Name(i), card, items) == items[i as int].display_name@,
        label_says(Label::ShortName(i), card, items) == short_name(items[i as int].display_name@),
        label_says(Label::SwitchToList, card, items) != label_says(Label::SwitchToGrid, card, items),
{
    reveal_strlit("≡");
    reveal_strlit("▦");
    assert("≡"@[0] != "▦"@[0]);
}

/// A picture is the icon of its item, or a badge that stands for it where it has none.
pub proof fn law_pictures_are_those_of_their_items(items: Seq<DesktopItem>, idx: usize, x: int, y: int, size: int)
    ensures
        draws_item(picture(items, idx, x, y, size), items, idx),
{
}

/// Scrolled as far as it can be, a card shows its last item, as long as it has room for a line.
pub proof fn law_scrolling_reaches_the_last_item(card: Card, show_icons: bool)
    requires
        card.item_indices@.len() > 0,
        line_height(card, show_icons) <= card.height - 8 - on_card(42, card.width as int),
        card.scroll == max_scroll(card, show_icons),
    ensures
        shows(card, card.item_indices@.len() - 1, show_icons),
{
    lemma_line_height_is_positive(card, show_icons);
    lemma_last_line(card);
    let n = card.item_indices@.len() as int;
    let h = line_height(card, show_icons);
    let room = content_room(card);
    let shown = lines_shown(card, show_icons);
    vstd::arithmetic::div_mod::lemma_fundamental_div_mod(room, h);
    vstd::arithmetic::div_mod::lemma_mod_bound(room, h);
    let line = (n - 1) / items_per_line(card) - first_line(card, show_icons);
    assert(1 <= room / h) by (nonlinear_arith)
        requires
            h <= room,
            0 < h,
    ;
    assert(shown == room / h);
    assert(0 <= line <= shown - 1);
    assert(line * h + h <= room) by (nonlinear_arith)
        requires
            0 <= line <= shown - 1,
            room == h * shown + room % h,
            0 <= room % h,
            0 < h,
    ;
}

/// The line of the last item is the last of the lines that the items fill.
proof fn lemma_last_line(card: Card)
    requires
        card.item_indices@.len() > 0,
    ensures
        1 <= items_per_line(card),
        (card.item_indices@.len() - 1) / items_per_line(card) == lines_filled(card) - 1,
        1 <= lines_filled(card),
{
    let n = card.item_indices@.len() as int;
    let p = items_per_line(card);
    assert(1 <= p);
    if card.style == CardStyle::Grid {
        let q = (n - 1) / p;
        let r = (n - 1) % p;
        vstd::arithmetic::div_mod::lemma_fundamental_div_mod(n - 1, p);
        vstd::arithmetic::div_mod::lemma_mod_bound(n - 1, p);
        vstd::arithmetic::div_mod::lemma_div_pos_is_pos(n - 1, p);
        assert(n + p - 1 == p * (q + 1) + r) by (nonlinear_arith)
            requires
                n - 1 == p * q + r,
        ;
        vstd::arithmetic::div_mod::lemma_fundamental_div_mod_converse(n + p - 1, p, q + 1, r);
    } else {
        assert((n - 1) / 1 == n - 1);
    }
}

/// A card scrolls no further than it has to: a line less, and the last line would be cut off below.
pub proof fn law_scrolling_stops_at_the_last_item(card: Card, show_icons: bool)
    requires
        card.item_indices@.len() > 0,
        max_scroll(card, show_icons) > 0,
        card.scroll == max_scroll(card, show_icons) - 1,
    ensures
        ({
            let n = card.item_indices@.len() as int;
            let h = line_height(card, show_icons);
            let line = (n - 1) / items_per_line(card) - card.scroll;
            on_card(42, card.width as int) + line * h + h > card.height - 8
        }),
{
    lemma_line_height_is_positive(card, show_icons);
    lemma_last_line(card);
    let h = line_height(card, show_icons);
    let room = content_room(card);
    let shown = lines_shown(card, show_icons);
    vstd::arithmetic::div_mod::lemma_fundamental_div_mod(room, h);
    vstd::arithmetic::div_mod::lemma_mod_bound(room, h);
    let line = (card.item_indices@.len() - 1) / items_per_line(card) - card.scroll;
    assert(line == shown);
    assert(line * h + h > room) by (nonlinear_arith)
        requires
            line >= room / h,
            room == h * (room / h) + room % h,
            room % h < h,
            0 < h,
    ;
}

/// A card that has room for all of its items does not scroll, and shows them all.
pub proof fn law_cards_with_room_do_not_scroll(card: Card, show_icons: bool, ii: int)
    requires
        0 <= ii < card.item_indices@.len(),
        ({
            let n = card.item_indices@.len() as int;
            let h = line_height(card, show_icons);
            on_card(42, card.width as int) + ((n - 1) / items_per_line(card)) * h + h <= card.height - 8
        }),
    ensures
        max_scroll(card, show_icons) == 0,
        shows(card, ii, show_icons),
{
    lemma_line_height_is_positive(card, show_icons);
    lemma_last_line(card);
    let n = card.item_indices@.len() as int;
    let h = line_height(card, show_icons);
    let room = content_room(card);
    let p = items_per_line(card);
    let last = (n - 1) / p;
    vstd::arithmetic::div_mod::lemma_fundamental_div_mod(room, h);
    vstd::arithmetic::div_mod::lemma_mod_bound(room, h);
    assert(last + 1 <= room / h) by (nonlinear_arith)
        requires
            last * h + h <= room,
            room == h * (room / h) + room % h,
            room % h < h,
            0 < h,
    ;
    vstd::arithmetic::div_mod::lemma_div_is_ordered(ii, n - 1, p);
    vstd::arithmetic::div_mod::lemma_div_pos_is_pos(ii, p);
    let a = ii / p;
    assert(a * h <= last * h) by (nonlinear_arith)
        requires
            a <= last,
            0 < h,
    ;
}

/// An offset within bounds is kept, one below them counts as none, and one beyond them as the greatest.
pub proof fn law_the_first_line_is_the_offset_in_bounds(card: Card, show_icons: bool)
    ensures
        card.scroll <= 0 ==> first_line(card, show_icons) == 0,
        0 <= card.scroll <= max_scroll(card, show_icons) ==> first_line(card, show_icons) == card.scroll,
        card.scroll >= max_scroll(card, show_icons) ==> first_line(card, show_icons) == max_scroll(
            card,
            show_icons,
        ),
        0 <= max_scroll(card, show_icons),
{
}

/// A share of a length that is no less gives a length that is no less.
proof fn lemma_shares_keep_order(a: int, b: int, whole: int, length: int)
    requires
        0 <= a <= b <= whole,
        0 < whole,
        0 <= length,
    ensures
        0 <= share_of_length(share(a, whole), length) <= share_of_length(share(b, whole), length),
{
    let one = 0x100_0000_0000_0000int;
    let d = to_single(whole, 1);
    lemma_to_single_exact(0);
    lemma_to_single_exact(1);
    lemma_to_single_monotone(0, a, 1);
    lemma_to_single_monotone(a, b, 1);
    lemma_to_single_monotone(1, whole, 1);
    lemma_to_single_monotone(to_single(a, 1) * one, to_single(b, 1) * one, d);
    lemma_to_single_near(to_single(a, 1) * one, d);
    let l = to_single(length, 1);
    lemma_to_single_monotone(0, length, 1);
    let s = share(a, whole);
    let t = share(b, whole);
    assert(0 <= s * l <= t * l) by (nonlinear_arith)
        requires
            0 <= s <= t,
            0 <= l,
    ;
    lemma_to_single_monotone(0, s * l, 1);
    lemma_to_single_monotone(s * l, t * l, 1);
}

/// The thumb of a card that scrolls is the last step: a fill on its track. It stands at the upper end where
/// nothing is scrolled, at the lower end where all is, and goes down as the card is scrolled on. A card that
/// does not scroll has none.
pub proof fn law_the_thumb_tells_how_far_a_card_is_scrolled(a: Card, b: Card, show_icons: bool)
    requires
        b == (Card { scroll: b.scroll, ..a }),
        a.scroll <= b.scroll,
        a.height <= 0x40_0000,
    ensures
        max_scroll(a, show_icons) == 0 ==> thumb_ops(a, show_icons).len() == 0,
        max_scroll(a, show_icons) > 0 ==> thumb_ops(a, show_icons).len() == 1 && thumb_ops(
            b,
            show_icons,
        ).len() == 1 && match (thumb_ops(a, show_icons)[0], thumb_ops(b, show_icons)[0]) {
            (DrawOp::Fill { area: p, .. }, DrawOp::Fill { area: q, .. }) => {
                let top = a.y + on_card(42, a.width as int);
                let room = a.height - 8 - on_card(42, a.width as int);
                let end = top + if room > 20 {
                    room
                } else {
                    20
                };
                &&& top <= p.top <= q.top
                &&& p.bottom - p.top == q.bottom - q.top
                &&& 16 <= p.bottom - p.top
                &&& q.bottom <= end
                &&& a.scroll <= 0 ==> p.top == top
                &&& b.scroll >= max_scroll(a, show_icons) ==> q.bottom == end
                &&& p.left == a.x + a.width - on_card(10, a.width as int)
                &&& p.left < p.right && p.left == q.left && p.right == q.right
            },
            _ => false,
        },
{
    let w = a.width as int;
    law_scale_grows_with_width(0, w, w);
    lemma_scaled_bounds(10, scale_of(w));
    lemma_scaled_bounds(5, scale_of(w));
    lemma_scaled_bounds(42, scale_of(w));
    let most = max_scroll(a, show_icons);
    assert(max_scroll(b, show_icons) == most);
    assert(lines_shown(b, show_icons) == lines_shown(a, show_icons) && lines_filled(b) == lines_filled(a));
    assert(track_height(a) == track_height(b));
    assert(thumb_height(a, show_icons) == thumb_height(b, show_icons));
    if most > 0 {
        law_thumb_stays_on_its_track(a, show_icons);
        law_thumb_stays_on_its_track(b, show_icons);
        let rest = track_height(a) - thumb_height(a, show_icons);
        lemma_shares_keep_order(first_line(a, show_icons), first_line(b, show_icons), most, rest);
        if b.scroll >= most {
            assert(first_line(b, show_icons) == most);
            lemma_the_whole_is_all(most, rest);
        }
    }
}

/// The number on a card reads as the number of its items.
pub proof fn law_counts_read_as_numbers(card: Card, items: Seq<DesktopItem>, n: usize)
    ensures
        read_back(label_says(Label::Count(n), card, items), 10) == n,
{
    law_numerals_stand_for_their_numbers(n as int, 10);
}

/// A text begins where it is put; or it ends at its place, unless it would begin too far to the left; or it has as
/// much room before it as behind it, to within a pixel, unless that would be too little.
pub proof fn law_texts_begin_where_they_should(x: i64, right: i64, left: i64, room: i64, least: i64, width: int)
    ensures
        text_start(Anchor::At(x), width) == x,
        text_start(Anchor::EndsAt(right, least), width) >= least,
        right - width >= least ==> text_start(Anchor::EndsAt(right, least), width) + width == right,
        right - width <= least ==> text_start(Anchor::EndsAt(right, least), width) == least,
        ({
            let start = text_start(Anchor::Middle(left, room, least), width);
            &&& start >= left + least
            &&& start > left + least ==> -1 <= (left + room - (start + width)) - (start - left) <= 1
        }),
{
}

/// Half of a number is rounded towards zero.
pub proof fn law_halves_go_towards_zero(v: int)
    ensures
        0 <= v ==> 2 * half(v) <= v <= 2 * half(v) + 1,
        half(-v) == -half(v),
{
}

/// The fonts of a card grow with it, the title the largest, then the names of a list, then those of a grid; none is
/// too small to read.
pub proof fn law_fonts_grow_with_the_card(a: int, b: int)
    requires
        a <= b,
    ensures
        font_sizes(a).title <= font_sizes(b).title,
        font_sizes(a).item <= font_sizes(b).item,
        font_sizes(a).grid <= font_sizes(b).grid,
        font_sizes(a).grid <= font_sizes(a).item <= font_sizes(a).title,
        11 <= font_sizes(a).title && 10 <= font_sizes(a).item && 9 <= font_sizes(a).grid,
        font_sizes(a).title == on_card(17, a) || font_sizes(a).title == 11,
        font_sizes(a).item == on_card(15, a) || font_sizes(a).item == 10,
        font_sizes(a).grid == on_card(12, a) || font_sizes(a).grid == 9,
{
    law_scale_grows_with_width(17, a, b);
    law_scale_grows_with_width(15, a, b);
    law_scale_grows_with_width(12, a, b);
    lemma_scaled_bounds(17, scale_of(a));
    lemma_scaled_bounds(15, scale_of(a));
    lemma_scaled_bounds(12, scale_of(a));
    lemma_scaled_bounds(17, scale_of(b));
    lemma_scaled_bounds(15, scale_of(b));
    lemma_scaled_bounds(12, scale_of(b));
    lemma_scaled_keeps_order(12, 15, a);
    lemma_scaled_keeps_order(15, 17, a);
}

/// The ground of a card has the colour that is set, red, green and blue; the title bar and the line below it have
/// that colour made brighter, the line the brightest. The title bar is as wide as the card and holds the points of
/// the title; the line is a pixel high, within the bar, and the dot is within it too.
pub proof fn law_frames_have_the_colour_that_is_set(card: Card, bg: u32)
    ensures
        frame_ops(card, bg as int).len() == 8,
        match (frame_ops(card, bg as int)[0], frame_ops(card, bg as int)[1], frame_ops(card, bg as int)[2]) {
            (
                DrawOp::Fill { color: ground, .. },
                DrawOp::Fill { area: bar, color: title },
                DrawOp::Fill { area: line, color: bright },
            ) => {
                &&& ground as int % 256 == (bg / 65536) % 256
                &&& (ground as int / 256) % 256 == (bg / 256) % 256
                &&& ground as int / 65536 == bg % 256
                &&& title == light_color(bg as int, 18119394)
                &&& bright == light_color(bg as int, 22649242)
                &&& bar.left == card.x && bar.right == card.x + card.width && bar.top == card.y
                &&& bar.bottom - card.y >= on_card(36, card.width as int)
                &&& line.bottom == line.top + 1 && bar.top <= line.top && line.bottom < bar.bottom
                &&& line.left - card.x == card.x + card.width - line.right
            },
            _ => false,
        },
        match frame_ops(card, bg as int)[3] {
            DrawOp::Dot { area, .. } => card.x <= area.left && card.y <= area.top && area.bottom - card.y <= on_card(
                36,
                card.width as int,
            ),
            _ => false,
        },
{
    let w = card.width as int;
    law_scale_grows_with_width(0, w, w);
    let s = scale_of(w);
    lemma_scaled_bounds(36, s);
    lemma_scaled_bounds(12, s);
    lemma_scaled_bounds(13, s);
    lemma_scaled_bounds(14, s);
    lemma_scaled_bounds(21, s);
    lemma_scaled_bounds(22, s);
    lemma_scaled_keeps_order(21, 36, w);
    law_channels_stay_apart(bg as int, 0x100_0000);
    law_channels_stay_apart(bg as int, 18119394);
    law_channels_stay_apart(bg as int, 22649242);
    law_plain_brightness_keeps_colors((bg as int / 65536) % 256);
    law_plain_brightness_keeps_colors((bg as int / 256) % 256);
    law_plain_brightness_keeps_colors(bg as int % 256);
}

/// The letter on a badge is the first character of the name, or a question mark for a name without any. A badge is
/// as large as asked for, but no smaller than twelve pixels.
pub proof fn law_badges_show_the_first_letter(name: Seq<char>, size: int)
    ensures
        badge_letter(name).len() == 1,
        name.len() > 0 ==> badge_letter(name)[0] == name[0],
        name.len() == 0 ==> badge_letter(name)[0] == '?',
        size >= 12 ==> badge_side(size) == size,
        size < 12 ==> badge_side(size) == 12,
{
    reveal_strlit("?");
}

/// Icons grow with the card: in a list to sixteen pixels at natural size; in a grid to thirty-two, but no smaller than
/// twenty, and to no more than 55 parts in a hundred of the height of a cell.
pub proof fn law_icons_grow_with_the_card(card: Card)
    ensures
        ({
            let w = card.width as int;
            let ch = cell_h_of(w);
            let size = icon_size(card);
            &&& card.style == CardStyle::List ==> size == on_card(16, w)
            &&& card.style == CardStyle::Grid ==> 100 * size <= 55 * ch && (size == on_card(32, w) || size == 20
                || 100 * (size + 1) >= 55 * ch - 1)
            &&& card.style == CardStyle::Grid && on_card(32, w) >= 20 ==> size <= on_card(32, w)
        }),
{
    if card.style == CardStyle::Grid {
        let w = card.width as int;
        law_scale_grows_with_width(0, w, w);
        lemma_scaled_bounds(64, scale_of(w));
        let v = cell_h_of(w) * ICON_PART;
        lemma_to_single_near(v, 1);
        lemma_spacing_bounds(v);
        assert(v / 1 == v);
    }
}

/// In a row of a list, the name stands beside the picture, on the same height, or where icons do not show, further to
/// the left and in the middle of the row. Both are as far from the left edge as the card is large.
pub proof fn law_rows_put_the_name_beside_the_picture(
    card: Card,
    items: Seq<DesktopItem>,
    ii: int,
    show_icons: bool,
)
    requires
        card.style == CardStyle::List,
        0 <= ii < card.item_indices@.len(),
        card.item_indices@[ii] < items.len(),
        shows(card, ii, show_icons),
    ensures
        ({
            let w = card.width as int;
            let rh = row_h_of(w, show_icons);
            let py = items_top(card) + (ii - first_line(card, show_icons)) * rh;
            let idx = card.item_indices@[ii];
            let ops = row_ops(card, items, ii, false, show_icons);
            if show_icons {
                &&& ops.len() == 2
                &&& draws_item(ops[0], items, idx)
                &&& match ops[0] {
                    DrawOp::Icon { x, y, size, .. } => is_row_picture(card, x as int, y as int, size as int, py, rh),
                    DrawOp::Badge { x, y, size, .. } => is_row_picture(card, x as int, y as int, size as int, py, rh),
                    _ => false,
                }
                &&& match ops[1] {
                    DrawOp::Text { label, font, at, y, .. } => {
                        &&& label == Label::Name(idx) && font == Font::Item
                        &&& at == Anchor::At((card.x + on_card(34, w)) as i64)
                        &&& 0 <= (py + rh - (y + icon_size(card))) - (y - py) <= 1
                    },
                    _ => false,
                }
            } else {
                &&& ops.len() == 1
                &&& match ops[0] {
                    DrawOp::Text { label, font, at, y, .. } => {
                        &&& label == Label::Name(idx) && font == Font::Item
                        &&& at == Anchor::At((card.x + on_card(12, w)) as i64)
                        &&& 0 <= (py + rh - (y + font_sizes(w).item)) - (y - py) <= 1
                    },
                    _ => false,
                }
            }
        }),
{
    lemma_row_is_near(card, ii, show_icons);
}

/// A picture in a row of a list: in the middle of its height, at the left.
pub open spec fn is_row_picture(card: Card, x: int, y: int, size: int, py: int, rh: int) -> bool {
    &&& x == card.x + on_card(12, card.width as int)
    &&& size == on_card(16, card.width as int)
    &&& 0 <= (py + rh - (y + size)) - (y - py) <= 1
}

/// In a cell of a grid, the picture is in the middle between left and right, and the name is centred below it.
pub proof fn law_cells_put_the_name_below_the_picture(card: Card, items: Seq<DesktopItem>, ii: int)
    requires
        card.style == CardStyle::Grid,
        80 <= card.width,
        0 <= ii < card.item_indices@.len(),
        card.item_indices@[ii] < items.len(),
        shows(card, ii, false),
    ensures
        ({
            let w = card.width as int;
            let cw = cell_w_of(w);
            let gx = items_left(card) + (ii % items_per_line(card)) * cw;
            let gy = items_top(card) + (ii / items_per_line(card) - first_line(card, false)) * cell_h_of(w);
            let idx = card.item_indices@[ii];
            let ops = cell_ops(card, items, ii, false);
            &&& ops.len() == 2
            &&& draws_item(ops[0], items, idx)
            &&& match ops[0] {
                DrawOp::Icon { x, y, size, .. } => is_cell_picture(card, x as int, y as int, size as int, gx, gy),
                DrawOp::Badge { x, y, size, .. } => is_cell_picture(card, x as int, y as int, size as int, gx, gy),
                _ => false,
            }
            &&& match ops[1] {
                DrawOp::Text { label, font, at, y, .. } => {
                    &&& label == Label::ShortName(idx) && font == Font::Grid
                    &&& at == Anchor::Middle(gx as i64, (cw - 4) as i64, 2)
                    &&& y == gy + on_card(6, w) + icon_size(card)
                },
                _ => false,
            }
        }),
{
    lemma_cell_is_near(card, ii, false);
    lemma_icon_leaves_room(card);
    lemma_icon_fits_its_cell(card);
}

/// A picture in a cell of a grid: in the middle of its width, at the top.
pub open spec fn is_cell_picture(card: Card, x: int, y: int, size: int, gx: int, gy: int) -> bool {
    &&& size == icon_size(card)
    &&& y == gy + on_card(6, card.width as int)
    &&& 0 <= (gx + cell_w_of(card.width as int) - (x + size)) - (x - gx) <= 1
}

} // verus!
