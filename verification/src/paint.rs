//! What is drawn for a card, as a list of drawing steps.
use vstd::prelude::*;
use vstd::string::*;
use crate::color::{light_color, light_rgb, packed, rgb, LINE_LIGHT, PLAIN, TITLE_LIGHT};
use crate::drawing_laws::{draws_item, is_item_step, is_seen_at, law_what_is_drawn_is_what_is_hit};
use crate::geometry::{
    cell_h, cell_h_of, cell_w, cell_w_of, content_top, hold, length_on_card, max_of, min_of, on_card,
    row_h, row_h_of, TITLE_H,
};
use crate::layout::{among_items, item_at, items_left, items_top, on_face, Card, CardStyle};
use crate::scanner::DesktopItem;
use crate::scroll::{
    first_line, first_line_of, items_per_line, items_per_line_of, line_height, line_height_of,
    lines_filled, lines_filled_of, lines_shown, lines_shown_of, max_scroll, max_scroll_of,
};
use crate::single::{
    lemma_spacing_bounds, lemma_to_single_exact, lemma_to_single_monotone, lemma_to_single_near, round_single,
    spacing, to_single,
};
use crate::text::{decimal, digits};

verus! {

/// A rectangle by its edges; the right and the lower edge are outside of it.
#[derive(Clone, Copy, Debug, PartialEq, Eq, Structural)]
pub struct Edges {
    pub left: i64,
    pub top: i64,
    pub right: i64,
    pub bottom: i64,
}

/// The fonts of a card.
#[derive(Clone, Copy, Debug, PartialEq, Eq, Structural)]
pub enum Font {
    Title,
    Grid,
    Item,
}

/// What a text says. An item is given by its position in the item list.
#[derive(Clone, Copy, Debug, PartialEq, Eq, Structural)]
pub enum Label {
    Title,
    Count(usize),
    Close,
    SwitchToList,
    SwitchToGrid,
    ShortName(usize),
    Name(usize),
}

/// Where a text begins: at a place; or so that it ends at a place, but no further left than another;
/// or in the middle of a stretch, but no less than so far into it.
#[derive(Clone, Copy, Debug, PartialEq, Eq, Structural)]
pub enum Anchor {
    At(i64),
    EndsAt(i64, i64),
    Middle(i64, i64, i64),
}

/// A drawing step.
#[derive(Clone, Copy, Debug, PartialEq, Eq, Structural)]
pub enum DrawOp {
    Fill { area: Edges, color: u32 },
    Dot { area: Edges, color: u32 },
    Text { label: Label, font: Font, color: u32, at: Anchor, y: i64 },
    Icon { handle: isize, x: i64, y: i64, size: i64 },
    Badge { item: usize, x: i64, y: i64, size: i64 },
}

/// A rectangle by its edges.
pub open spec fn edges(left: int, top: int, right: int, bottom: int) -> Edges {
    Edges { left: left as i64, top: top as i64, right: right as i64, bottom: bottom as i64 }
}

/// Half of a number, rounded towards zero.
pub open spec fn half(v: int) -> int {
    if v < 0 {
        -((-v) / 2)
    } else {
        v / 2
    }
}

/// Half of a number, rounded towards zero.
pub fn half_of(v: i64) -> (r: i64)
    requires
        i64::MIN < v,
    ensures
        r == half(v as int),
{
    if v < 0 {
        -((-v) / 2)
    } else {
        v / 2
    }
}

/// Where a text of that width begins.
pub open spec fn text_start(at: Anchor, width: int) -> int {
    match at {
        Anchor::At(x) => x as int,
        Anchor::EndsAt(right, least) => max_of(right - width, least as int),
        Anchor::Middle(left, room, least) => left + max_of(half(room - width), least as int),
    }
}

/// Where a text of that width begins.
pub fn text_x(at: Anchor, width: i32) -> (r: i128)
    ensures
        r == text_start(at, width as int),
{
    match at {
        Anchor::At(x) => x as i128,
        Anchor::EndsAt(right, least) => {
            let x: i128 = right as i128 - width as i128;
            if x > least as i128 {
                x
            } else {
                least as i128
            }
        },
        Anchor::Middle(left, room, least) => {
            let d: i128 = room as i128 - width as i128;
            let h: i128 = if d < 0 {
                -((-d) / 2)
            } else {
                d / 2
            };
            left as i128 + if h > least as i128 {
                h
            } else {
                least as i128
            }
        },
    }
}

/// The first six characters of a name, and an ellipsis where there are more.
pub open spec fn short_name(name: Seq<char>) -> Seq<char> {
    if name.len() > 6 {
        name.take(6) + "…"@
    } else {
        name
    }
}

/// The first six characters of a name, and an ellipsis where there are more.
fn shorten(name: &str) -> (r: String)
    ensures
        r@ == short_name(name@),
{
    let n: usize = name.unicode_len();
    if n > 6 {
        let mut s: String = name.substring_char(0, 6).to_owned();
        s.append("…");
        assert(s@ =~= short_name(name@));
        s
    } else {
        name.to_owned()
    }
}

/// What a label says on a card.
pub open spec fn label_says(label: Label, card: Card, items: Seq<DesktopItem>) -> Seq<char> {
    match label {
        Label::Title => card.title@,
        Label::Count(n) => digits(n as int, 10),
        Label::Close => "✕"@,
        Label::SwitchToList => "≡"@,
        Label::SwitchToGrid => "▦"@,
        Label::ShortName(i) => short_name(items[i as int].display_name@),
        Label::Name(i) => items[i as int].display_name@,
    }
}

/// The items that the label speaks of exist.
pub open spec fn label_is_valid(label: Label, items: Seq<DesktopItem>) -> bool {
    match label {
        Label::ShortName(i) => i < items.len(),
        Label::Name(i) => i < items.len(),
        _ => true,
    }
}

/// What a label says on a card.
pub fn label_text(label: Label, card: &Card, items: &[DesktopItem]) -> (r: String)
    requires
        label_is_valid(label, items@),
    ensures
        r@ == label_says(label, *card, items@),
{
    match label {
        Label::Title => card.title.clone(),
        Label::Count(n) => decimal(n as u128),
        Label::Close => "✕".to_owned(),
        Label::SwitchToList => "≡".to_owned(),
        Label::SwitchToGrid => "▦".to_owned(),
        Label::ShortName(i) => shorten(items[i].display_name.as_str()),
        Label::Name(i) => items[i].display_name.clone(),
    }
}

/// The heights of the fonts of a card.
#[derive(Clone, Copy, Debug, PartialEq, Eq, Structural)]
pub struct FontSizes {
    pub title: i32,
    pub grid: i32,
    pub item: i32,
}

/// The heights of the fonts on a card of that width.
pub open spec fn font_sizes(width: int) -> FontSizes {
    FontSizes {
        title: max_of(on_card(17, width), 11) as i32,
        grid: max_of(on_card(12, width), 9) as i32,
        item: max_of(on_card(15, width), 10) as i32,
    }
}

/// A length on a card, but no less than so much.
fn length_at_least(k: u32, width: i32, least: i32) -> (r: i32)
    requires
        k <= 1000,
    ensures
        r == max_of(on_card(k as int, width as int), least as int),
{
    let v: i32 = length_on_card(k, width);
    if v > least {
        v
    } else {
        least
    }
}

/// The heights of the fonts on a card of that width.
pub fn font_sizes_of(width: i32) -> (r: FontSizes)
    ensures
        r == font_sizes(width as int),
{
    FontSizes {
        title: length_at_least(17, width, 11),
        grid: length_at_least(12, width, 9),
        item: length_at_least(15, width, 10),
    }
}

/// The frame of a card: its ground, its title bar with the line below, the dot, the title, the number
/// of items, and the two buttons.
pub open spec fn frame_ops(card: Card, bg: int) -> Seq<DrawOp> {
    let w = card.width as int;
    let x = card.x as int;
    let y = card.y as int;
    let right = x + w;
    let bar = y + max_of(on_card(TITLE_H as int, w), 24);
    let inset = on_card(12, w);
    seq![
        DrawOp::Fill {
            area: edges(x, y, right, y + card.height),
            color: light_color(bg, PLAIN as int) as u32,
        },
        DrawOp::Fill {
            area: edges(x, y, right, bar),
            color: light_color(bg, TITLE_LIGHT as int) as u32,
        },
        DrawOp::Fill {
            area: edges(x + inset, bar - 2, right - inset, bar - 1),
            color: light_color(bg, LINE_LIGHT as int) as u32,
        },
        DrawOp::Dot {
            area: edges(x + on_card(14, w), y + on_card(13, w), x + on_card(22, w), y + on_card(21, w)),
            color: packed(86, 156, 214) as u32,
        },
        DrawOp::Text {
            label: Label::Title,
            font: Font::Title,
            color: packed(238, 240, 246) as u32,
            at: Anchor::At((x + on_card(28, w)) as i64),
            y: (y + on_card(10, w)) as i64,
        },
        DrawOp::Text {
            label: Label::Count(card.item_indices@.len() as usize),
            font: Font::Grid,
            color: packed(150, 158, 175) as u32,
            at: Anchor::EndsAt((right - on_card(78, w)) as i64, (x + on_card(30, w)) as i64),
            y: (y + on_card(14, w)) as i64,
        },
        DrawOp::Text {
            label: Label::Close,
            font: Font::Title,
            color: packed(196, 132, 134) as u32,
            at: Anchor::At((right - on_card(26, w)) as i64),
            y: (y + on_card(7, w)) as i64,
        },
        DrawOp::Text {
            label: match card.style {
                CardStyle::Grid => Label::SwitchToList,
                CardStyle::List => Label::SwitchToGrid,
            },
            font: Font::Title,
            color: packed(152, 164, 188) as u32,
            at: Anchor::At((right - on_card(54, w)) as i64),
            y: (y + on_card(7, w)) as i64,
        },
    ]
}

/// A length on a card, wide enough to add to coordinates.
fn on(k: u32, width: i32) -> (r: i64)
    requires
        k <= 1000,
    ensures
        r == on_card(k as int, width as int),
        0 <= r <= 3000,
{
    length_on_card(k, width) as i64
}

/// The frame of a card.
fn draw_frame(card: &Card, bg: u32) -> (r: Vec<DrawOp>)
    ensures
        r@ == frame_ops(*card, bg as int),
{
    let w: i32 = card.width;
    let x: i64 = card.x as i64;
    let y: i64 = card.y as i64;
    let right: i64 = x + w as i64;
    let bar: i64 = y + length_at_least(TITLE_H as u32, w, 24) as i64;
    let inset: i64 = on(12, w);
    let mut ops: Vec<DrawOp> = Vec::new();
    ops.push(
        DrawOp::Fill {
            area: Edges { left: x, top: y, right, bottom: y + card.height as i64 },
            color: light_rgb(bg, PLAIN),
        },
    );
    ops.push(
        DrawOp::Fill {
            area: Edges { left: x, top: y, right, bottom: bar },
            color: light_rgb(bg, TITLE_LIGHT),
        },
    );
    ops.push(
        DrawOp::Fill {
            area: Edges { left: x + inset, top: bar - 2, right: right - inset, bottom: bar - 1 },
            color: light_rgb(bg, LINE_LIGHT),
        },
    );
    ops.push(
        DrawOp::Dot {
            area: Edges {
                left: x + on(14, w),
                top: y + on(13, w),
                right: x + on(22, w),
                bottom: y + on(21, w),
            },
            color: rgb(86, 156, 214),
        },
    );
    ops.push(
        DrawOp::Text {
            label: Label::Title,
            font: Font::Title,
            color: rgb(238, 240, 246),
            at: Anchor::At(x + on(28, w)),
            y: y + on(10, w),
        },
    );
    ops.push(
        DrawOp::Text {
            label: Label::Count(card.item_indices.len()),
            font: Font::Grid,
            color: rgb(150, 158, 175),
            at: Anchor::EndsAt(right - on(78, w), x + on(30, w)),
            y: y + on(14, w),
        },
    );
    ops.push(
        DrawOp::Text {
            label: Label::Close,
            font: Font::Title,
            color: rgb(196, 132, 134),
            at: Anchor::At(right - on(26, w)),
            y: y + on(7, w),
        },
    );
    ops.push(
        DrawOp::Text {
            label: match card.style {
                CardStyle::Grid => Label::SwitchToList,
                CardStyle::List => Label::SwitchToGrid,
            },
            font: Font::Title,
            color: rgb(152, 164, 188),
            at: Anchor::At(right - on(54, w)),
            y: y + on(7, w),
        },
    );
    assert(ops@ =~= frame_ops(*card, bg as int));
    ops
}

/// The part of a grid cell's height that its icon can take, 0.55, in ticks of `2^-24`.
pub const ICON_PART: u32 = 9227469;

/// The size of the icons of a card.
pub open spec fn icon_size(card: Card) -> int {
    let w = card.width as int;
    match card.style {
        CardStyle::Grid => min_of(
            max_of(on_card(32, w), 20),
            to_single(cell_h_of(w) * ICON_PART, 1) / 0x100_0000,
        ),
        CardStyle::List => on_card(16, w),
    }
}

/// The size of the icons of a card.
fn icon_size_of(card: &Card) -> (r: i64)
    ensures
        r == icon_size(*card),
        0 <= r <= 3000,
{
    let w: i32 = card.width;
    match card.style {
        CardStyle::Grid => {
            let a: i64 = length_at_least(32, w, 20) as i64;
            let ch: i32 = cell_h(w);
            let b: i64 = (round_single(ch as u128 * ICON_PART as u128, 1) / 0x100_0000) as i64;
            if a < b {
                a
            } else {
                b
            }
        },
        CardStyle::List => on(16, w),
    }
}

/// The picture of an item: its icon, or a badge where it has none.
pub open spec fn picture(items: Seq<DesktopItem>, idx: usize, x: int, y: int, size: int) -> DrawOp {
    match items[idx as int].icon {
        Some(handle) => DrawOp::Icon { handle, x: x as i64, y: y as i64, size: size as i64 },
        None => DrawOp::Badge { item: idx, x: x as i64, y: y as i64, size: size as i64 },
    }
}

/// The picture of an item.
fn draw_picture(items: &[DesktopItem], idx: usize, x: i64, y: i64, size: i64) -> (r: DrawOp)
    requires
        idx < items@.len(),
    ensures
        r == picture(items@, idx, x as int, y as int, size as int),
{
    match items[idx].icon {
        Some(handle) => DrawOp::Icon { handle, x, y, size },
        None => DrawOp::Badge { item: idx, x, y, size },
    }
}

/// The colour behind a selected item.
pub open spec fn selected_color() -> u32 {
    packed(58, 86, 132) as u32
}

/// The colour of the names of the items.
pub open spec fn name_color() -> u32 {
    packed(218, 222, 232) as u32
}

/// The `ii`-th item of a grid, in its cell.
pub open spec fn cell_ops(card: Card, items: Seq<DesktopItem>, ii: int, chosen: bool) -> Seq<DrawOp> {
    let w = card.width as int;
    let cw = cell_w_of(w);
    let ch = cell_h_of(w);
    let size = icon_size(card);
    let gx = items_left(card) + (ii % items_per_line(card)) * cw;
    let gy = items_top(card) + (ii / items_per_line(card) - first_line(card, false)) * ch;
    let idx = card.item_indices@[ii];
    let behind = if chosen {
        seq![DrawOp::Fill { area: edges(gx, gy, gx + cw - 4, gy + ch - 2), color: selected_color() }]
    } else {
        Seq::empty()
    };
    if idx < items.len() {
        behind + seq![
            picture(items, idx, gx + half(cw - size), gy + on_card(6, w), size),
            DrawOp::Text {
                label: Label::ShortName(idx),
                font: Font::Grid,
                color: name_color(),
                at: Anchor::Middle(gx as i64, (cw - 4) as i64, 2),
                y: (gy + size + on_card(6, w)) as i64,
            },
        ]
    } else {
        Seq::empty()
    }
}

/// The `ii`-th item of a list, in its row.
pub open spec fn row_ops(
    card: Card,
    items: Seq<DesktopItem>,
    ii: int,
    chosen: bool,
    show_icons: bool,
) -> Seq<DrawOp> {
    let w = card.width as int;
    let x = card.x as int;
    let rh = row_h_of(w, show_icons);
    let size = icon_size(card);
    let py = items_top(card) + (ii - first_line(card, show_icons)) * rh;
    let iy = py + half(rh - size);
    let idx = card.item_indices@[ii];
    let behind = if chosen {
        seq![
            DrawOp::Fill {
                area: edges(x + 4, py - 1, x + w - on_card(10, w), py + rh - 1),
                color: selected_color(),
            },
        ]
    } else {
        Seq::empty()
    };
    if idx >= items.len() {
        Seq::empty()
    } else if show_icons {
        behind + seq![
            picture(items, idx, x + on_card(12, w), iy, size),
            DrawOp::Text {
                label: Label::Name(idx),
                font: Font::Item,
                color: name_color(),
                at: Anchor::At((x + on_card(34, w)) as i64),
                y: iy as i64,
            },
        ]
    } else {
        behind + seq![
            DrawOp::Text {
                label: Label::Name(idx),
                font: Font::Item,
                color: name_color(),
                at: Anchor::At((x + on_card(12, w)) as i64),
                y: (py + half(rh - font_sizes(w).item)) as i64,
            },
        ]
    }
}

/// The `ii`-th item shows: its line is not scrolled away, and a grid cell ends, or a list row begins,
/// within the contents.
pub open spec fn shows(card: Card, ii: int, show_icons: bool) -> bool {
    let line = ii / items_per_line(card) - first_line(card, show_icons);
    let room = crate::scroll::content_room(card);
    let h = line_height(card, show_icons);
    0 <= line && match card.style {
        CardStyle::Grid => line * h + h <= room,
        CardStyle::List => line * h <= room,
    }
}

/// The first `n` items of a card, as far as they show.
pub open spec fn items_ops(
    card: Card,
    items: Seq<DesktopItem>,
    chosen: Option<int>,
    show_icons: bool,
    n: int,
) -> Seq<DrawOp>
    decreases n,
{
    if n <= 0 {
        Seq::empty()
    } else {
        let before = items_ops(card, items, chosen, show_icons, n - 1);
        let here = chosen == Some(n - 1);
        if !shows(card, n - 1, show_icons) {
            before
        } else {
            before + match card.style {
                CardStyle::Grid => cell_ops(card, items, n - 1, here),
                CardStyle::List => row_ops(card, items, n - 1, here, show_icons),
            }
        }
    }
}

/// Behind an item that is cut off below, no item shows.
proof fn lemma_none_shows_below(card: Card, show_icons: bool, i: int, j: int)
    requires
        0 <= i <= j,
        i / items_per_line(card) >= first_line(card, show_icons),
        !shows(card, i, show_icons),
    ensures
        !shows(card, j, show_icons),
{
    let per = items_per_line(card);
    let h = line_height(card, show_icons);
    assert(per >= 1);
    vstd::arithmetic::div_mod::lemma_div_is_ordered(i, j, per);
    let a = i / per - first_line(card, show_icons);
    let b = j / per - first_line(card, show_icons);
    lemma_line_height_is_positive(card, show_icons);
    assert(a * h <= b * h) by (nonlinear_arith)
        requires
            a <= b,
            0 < h,
    ;
}

pub proof fn lemma_line_height_is_positive(card: Card, show_icons: bool)
    ensures
        1 <= line_height(card, show_icons) <= 120,
{
    let w = card.width as int;
    crate::geometry::law_scale_grows_with_width(0, w, w);
    crate::geometry::lemma_scaled_bounds(26, crate::geometry::scale_of(w));
    crate::geometry::lemma_scaled_bounds(22, crate::geometry::scale_of(w));
}

proof fn lemma_items_ops_end(
    card: Card,
    items: Seq<DesktopItem>,
    chosen: Option<int>,
    show_icons: bool,
    i: int,
    n: int,
)
    requires
        0 <= i <= n,
        forall|j: int| i <= j < n ==> !#[trigger] shows(card, j, show_icons),
    ensures
        items_ops(card, items, chosen, show_icons, n) == items_ops(card, items, chosen, show_icons, i),
    decreases n - i,
{
    if i < n {
        lemma_items_ops_end(card, items, chosen, show_icons, i, n - 1);
        assert(!shows(card, n - 1, show_icons));
    }
}

/// Appends the item of a grid cell whose top is `gy`.
fn draw_cell(card: &Card, items: &[DesktopItem], ii: usize, chosen: bool, gy: i64, ops: &mut Vec<DrawOp>)
    requires
        card.style == CardStyle::Grid,
        ii < card.item_indices@.len(),
        gy == items_top(*card) + (ii as int / items_per_line(*card) - first_line(*card, false))
            * cell_h_of(card.width as int),
        -0x4_0000_0000 <= gy <= 0x4_0000_0000,
    ensures
        final(ops)@ == old(ops)@ + cell_ops(*card, items@, ii as int, chosen),
{
    let w: i32 = card.width;
    let cw: i64 = cell_w(w) as i64;
    let ch: i64 = cell_h(w) as i64;
    let size: i64 = icon_size_of(card);
    let per: i64 = items_per_line_of(card);
    let col: i64 = (ii as u128 % per as u128) as i64;
    proof {
        // The columns stay within the card.
        let p = per as int;
        let c = col as int;
        let a = w - 16;
        assert(c * cw <= 0x8000_0000) by (nonlinear_arith)
            requires
                0 <= c < p,
                p == 1 || p == a / (cw as int),
                a <= 0x8000_0000,
                1 <= cw,
        ;
        assert(0 <= c * cw) by (nonlinear_arith)
            requires
                0 <= c,
                1 <= cw,
        ;
    }
    let gx: i64 = card.x as i64 + on(8, w) + col * cw;
    let idx: usize = card.item_indices[ii];
    if idx < items.len() {
        if chosen {
            ops.push(
                DrawOp::Fill {
                    area: Edges { left: gx, top: gy, right: gx + cw - 4, bottom: gy + ch - 2 },
                    color: rgb(58, 86, 132),
                },
            );
        }
        ops.push(draw_picture(items, idx, gx + half_of(cw - size), gy + on(6, w), size));
        ops.push(
            DrawOp::Text {
                label: Label::ShortName(idx),
                font: Font::Grid,
                color: rgb(218, 222, 232),
                at: Anchor::Middle(gx, cw - 4, 2),
                y: gy + size + on(6, w),
            },
        );
    }
    assert(ops@ =~= old(ops)@ + cell_ops(*card, items@, ii as int, chosen));
}

/// Appends the item of a list row whose top is `py`.
fn draw_row(
    card: &Card,
    items: &[DesktopItem],
    ii: usize,
    chosen: bool,
    show_icons: bool,
    py: i64,
    ops: &mut Vec<DrawOp>,
)
    requires
        card.style == CardStyle::List,
        ii < card.item_indices@.len(),
        py == items_top(*card) + (ii as int - first_line(*card, show_icons)) * row_h_of(
            card.width as int,
            show_icons,
        ),
        -0x4_0000_0000 <= py <= 0x4_0000_0000,
    ensures
        final(ops)@ == old(ops)@ + row_ops(*card, items@, ii as int, chosen, show_icons),
{
    let w: i32 = card.width;
    let x: i64 = card.x as i64;
    let rh: i64 = row_h(w, show_icons) as i64;
    let size: i64 = icon_size_of(card);
    let idx: usize = card.item_indices[ii];
    if idx < items.len() {
        if chosen {
            ops.push(
                DrawOp::Fill {
                    area: Edges {
                        left: x + 4,
                        top: py - 1,
                        right: x + w as i64 - on(10, w),
                        bottom: py + rh - 1,
                    },
                    color: rgb(58, 86, 132),
                },
            );
        }
        if show_icons {
            let iy: i64 = py + half_of(rh - size);
            ops.push(draw_picture(items, idx, x + on(12, w), iy, size));
            ops.push(
                DrawOp::Text {
                    label: Label::Name(idx),
                    font: Font::Item,
                    color: rgb(218, 222, 232),
                    at: Anchor::At(x + on(34, w)),
                    y: iy,
                },
            );
        } else {
            let size: i64 = length_at_least(15, w, 10) as i64;
            ops.push(
                DrawOp::Text {
                    label: Label::Name(idx),
                    font: Font::Item,
                    color: rgb(218, 222, 232),
                    at: Anchor::At(x + on(12, w)),
                    y: py + half_of(rh - size),
                },
            );
        }
    }
    assert(ops@ =~= old(ops)@ + row_ops(*card, items@, ii as int, chosen, show_icons));
}

/// The place of the selected item in the list of a card.
pub open spec fn chosen_in(selected: Option<(usize, usize)>, ci: usize) -> Option<int> {
    match selected {
        Some((c, i)) => if c == ci {
            Some(i as int)
        } else {
            None
        },
        None => None,
    }
}

/// Appends the items of a card, as far as they show.
fn draw_items(
    card: &Card,
    items: &[DesktopItem],
    ci: usize,
    show_icons: bool,
    selected: Option<(usize, usize)>,
    ops: &mut Vec<DrawOp>,
)
    ensures
        final(ops)@ == old(ops)@ + items_ops(
            *card,
            items@,
            chosen_in(selected, ci),
            show_icons,
            card.item_indices@.len() as int,
        ),
{
    let ghost chosen = chosen_in(selected, ci);
    let n: usize = card.item_indices.len();
    let per: i128 = items_per_line_of(card) as i128;
    let first: i128 = first_line_of(card, show_icons) as i128;
    let h: i128 = line_height_of(card, show_icons) as i128;
    let top: i128 = card.y as i128 + content_top(card.width) as i128;
    let bottom: i128 = card.y as i128 + card.height as i128 - 8;
    let mut ii: usize = 0;
    let mut done: bool = false;
    assert(old(ops)@ + items_ops(*card, items@, chosen, show_icons, 0) =~= old(ops)@);
    while ii < n && !done
        invariant
            ii <= n,
            n == card.item_indices@.len(),
            chosen == chosen_in(selected, ci),
            per == items_per_line(*card),
            1 <= per,
            first == first_line(*card, show_icons),
            0 <= first <= 0x8000_0000,
            h == line_height(*card, show_icons),
            1 <= h <= 120,
            top == items_top(*card),
            bottom == top + crate::scroll::content_room(*card),
            -0x8000_0000 <= top <= 0x8000_0200,
            bottom <= 0x1_0000_0000,
            !done ==> ops@ == old(ops)@ + items_ops(*card, items@, chosen, show_icons, ii as int),
            done ==> ops@ == old(ops)@ + items_ops(*card, items@, chosen, show_icons, n as int),
        decreases n - ii, (if done { 0int } else { 1int }),
    {
        let row: i128 = ii as i128 / per;
        assert(0 <= row <= ii) by (nonlinear_arith)
            requires
                row == ii as int / (per as int),
                1 <= per,
        ;
        if row >= first {
            let line: i128 = row - first;
            assert(0 <= line * h <= line * 120) by (nonlinear_arith)
                requires
                    0 <= line,
                    1 <= h <= 120,
            ;
            let py: i128 = top + line * h;
            let cut: bool = match card.style {
                CardStyle::Grid => py + h > bottom,
                CardStyle::List => py > bottom,
            };
            assert(cut == !shows(*card, ii as int, show_icons));
            if cut {
                proof {
                    assert forall|j: int| ii <= j < n implies !#[trigger] shows(*card, j, show_icons) by {
                        lemma_none_shows_below(*card, show_icons, ii as int, j);
                    }
                    lemma_items_ops_end(*card, items@, chosen, show_icons, ii as int, n as int);
                }
                done = true;
            } else {
                let here: bool = match selected {
                    Some((c, i)) => c == ci && i == ii,
                    None => false,
                };
                assert(here == (chosen == Some(ii as int)));
                let ghost before = ops@;
                match card.style {
                    CardStyle::Grid => {
                        draw_cell(card, items, ii, here, py as i64, ops);
                    },
                    CardStyle::List => {
                        draw_row(card, items, ii, here, show_icons, py as i64, ops);
                    },
                }
                proof {
                    let step = match card.style {
                        CardStyle::Grid => cell_ops(*card, items@, ii as int, here),
                        CardStyle::List => row_ops(*card, items@, ii as int, here, show_icons),
                    };
                    assert(ops@ == before + step);
                    assert(items_ops(*card, items@, chosen, show_icons, ii + 1) == items_ops(
                        *card,
                        items@,
                        chosen,
                        show_icons,
                        ii as int,
                    ) + step);
                    assert(ops@ =~= old(ops)@ + items_ops(*card, items@, chosen, show_icons, ii + 1));
                }
                ii += 1;
            }
        } else {
            assert(!shows(*card, ii as int, show_icons));
            ii += 1;
        }
    }
}

/// The single-precision quotient of two counts, in ticks of `2^-56`.
pub open spec fn share(part: int, whole: int) -> int {
    to_single(to_single(part, 1) * 0x100_0000_0000_0000, to_single(whole, 1))
}

/// A share of a length, in single precision and cut down to an integer.
pub open spec fn share_of_length(share: int, length: int) -> int {
    if length < 0 {
        -(to_single(share * to_single(-length, 1), 1) / 0x100_0000_0000_0000)
    } else {
        to_single(share * to_single(length, 1), 1) / 0x100_0000_0000_0000
    }
}

/// The height of the track of the scroll bar.
pub open spec fn track_height(card: Card) -> int {
    max_of(crate::scroll::content_room(card), 20)
}

/// The height of the thumb: the share of the lines that show at a time.
pub open spec fn thumb_height(card: Card, show_icons: bool) -> int {
    hold(
        share_of_length(share(lines_shown(card, show_icons), lines_filled(card)), track_height(card)),
        16,
        0x7fff_ffff,
    )
}

/// The distance of the thumb from the upper end of its track.
pub open spec fn thumb_offset(card: Card, show_icons: bool) -> int {
    share_of_length(
        share(first_line(card, show_icons), max_scroll(card, show_icons)),
        track_height(card) - thumb_height(card, show_icons),
    )
}

/// The thumb of the scroll bar; there is none where all lines show.
pub open spec fn thumb_ops(card: Card, show_icons: bool) -> Seq<DrawOp> {
    if max_scroll(card, show_icons) <= 0 {
        Seq::empty()
    } else {
        let w = card.width as int;
        let left = card.x + w - on_card(10, w);
        let top = items_top(card) + thumb_offset(card, show_icons);
        seq![
            DrawOp::Fill {
                area: edges(
                    left,
                    top,
                    left + max_of(on_card(5, w), 3),
                    top + thumb_height(card, show_icons),
                ),
                color: packed(130, 140, 165) as u32,
            },
        ]
    }
}

/// The single-precision quotient of two counts, in ticks of `2^-56`.
fn share_in(part: u128, whole: u128) -> (r: u128)
    requires
        part <= whole,
        0 < whole <= 0x1_0000_0000_0000_0000,
    ensures
        r == share(part as int, whole as int),
        r <= 0x200_0000_0000_0000,
{
    let a: u128 = round_single(part, 1);
    let b: u128 = round_single(whole, 1);
    proof {
        lemma_to_single_monotone(part as int, whole as int, 1);
        lemma_to_single_monotone(1, whole as int, 1);
        lemma_to_single_exact(1);
        // A share is at most one, and so is what it is rounded to.
        let n = a * 0x100_0000_0000_0000;
        let d = b as int;
        let v = n / d;
        assert(v <= 0x100_0000_0000_0000 && 0 <= v) by (nonlinear_arith)
            requires
                v == n / d,
                n == a * 0x100_0000_0000_0000,
                0 <= a <= d,
                0 < d,
        ;
        lemma_to_single_near(n, d);
        lemma_spacing_bounds(v);
        let g = spacing(v);
        let t = to_single(n, d);
        assert(t <= 0x200_0000_0000_0000) by (nonlinear_arith)
            requires
                2 * (t * d - n) <= g * d,
                n <= 0x100_0000_0000_0000 * d,
                g <= 0x100_0000_0000_0000,
                0 < d,
        ;
    }
    round_single(a * 0x100_0000_0000_0000, b)
}

/// A share of a length, in single precision and cut down to an integer.
fn share_of(share: u128, length: i64) -> (r: i64)
    requires
        share <= 0x200_0000_0000_0000,
        -0x1_0000_0000 <= length <= 0x1_0000_0000,
    ensures
        r == share_of_length(share as int, length as int),
        -0x10_0000_0000 <= r <= 0x10_0000_0000,
{
    let size: u128 = if length < 0 {
        (-length) as u128
    } else {
        length as u128
    };
    let l: u128 = round_single(size, 1);
    assert(share * l <= 0x200_0000_0000_0000 * 0x2_0000_0001) by (nonlinear_arith)
        requires
            share <= 0x200_0000_0000_0000,
            l <= 0x2_0000_0001,
    ;
    let v: i64 = (round_single(share * l, 1) / 0x100_0000_0000_0000) as i64;
    if length < 0 {
        -v
    } else {
        v
    }
}

/// Appends the thumb of the scroll bar.
fn draw_thumb(card: &Card, show_icons: bool, ops: &mut Vec<DrawOp>)
    ensures
        final(ops)@ == old(ops)@ + thumb_ops(*card, show_icons),
{
    let most: i128 = max_scroll_of(card, show_icons);
    if most > 0 {
        let w: i32 = card.width;
        let filled: i128 = lines_filled_of(card);
        let shown: i64 = lines_shown_of(card, show_icons);
        let first: i128 = first_line_of(card, show_icons) as i128;
        let room: i64 = card.height as i64 - 8 - content_top(w) as i64;
        let track: i64 = if room > 20 {
            room
        } else {
            20
        };
        let part: i64 = share_of(share_in(shown as u128, filled as u128), track);
        let height: i64 = if part < 16 {
            16
        } else if part > 0x7fff_ffff {
            0x7fff_ffff
        } else {
            part
        };
        let offset: i64 = share_of(share_in(first as u128, most as u128), track - height);
        let left: i64 = card.x as i64 + w as i64 - on(10, w);
        let top: i64 = card.y as i64 + content_top(w) as i64 + offset;
        ops.push(
            DrawOp::Fill {
                area: Edges {
                    left,
                    top,
                    right: left + length_at_least(5, w, 3) as i64,
                    bottom: top + height,
                },
                color: rgb(130, 140, 165),
            },
        );
    }
    assert(ops@ =~= old(ops)@ + thumb_ops(*card, show_icons));
}

/// All that is drawn for the card at position `ci`: its frame, its items as far as they show, and the
/// thumb of the scroll bar.
pub open spec fn card_ops(
    card: Card,
    items: Seq<DesktopItem>,
    ci: usize,
    bg: u32,
    show_icons: bool,
    selected: Option<(usize, usize)>,
) -> Seq<DrawOp> {
    frame_ops(card, bg as int) + items_ops(
        card,
        items,
        chosen_in(selected, ci),
        show_icons,
        card.item_indices@.len() as int,
    ) + thumb_ops(card, show_icons)
}

/// All that is drawn for the card at position `ci`.
pub fn draw_card(
    card: &Card,
    items: &[DesktopItem],
    ci: usize,
    bg: u32,
    show_icons: bool,
    selected: Option<(usize, usize)>,
) -> (r: Vec<DrawOp>)
    ensures
        r@ == card_ops(*card, items@, ci, bg, show_icons, selected),
        80 <= card.width && 0 <= card.scroll <= max_scroll(*card, show_icons) ==> forall|t: int, x: int, y: int|
            0 <= t < r@.len() && #[trigger] is_seen_at(r@[t], x, y) && is_item_step(r@[t]) && on_face(*card, x, y)
                && among_items(*card, x, y) ==> match item_at(*card, x, y, show_icons) {
                Some(ii) => draws_item(r@[t], items@, card.item_indices@[ii]),
                None => false,
            },
{
    let mut ops: Vec<DrawOp> = draw_frame(card, bg);
    draw_items(card, items, ci, show_icons, selected, &mut ops);
    draw_thumb(card, show_icons, &mut ops);
    proof {
        if 80 <= card.width && 0 <= card.scroll <= max_scroll(*card, show_icons) {
            assert forall|t: int, x: int, y: int|
                0 <= t < ops@.len() && #[trigger] is_seen_at(ops@[t], x, y) && is_item_step(ops@[t]) && on_face(
                    *card,
                    x,
                    y,
                ) && among_items(*card, x, y) implies match item_at(*card, x, y, show_icons) {
                Some(ii) => draws_item(ops@[t], items@, card.item_indices@[ii]),
                None => false,
            } by {
                law_what_is_drawn_is_what_is_hit(*card, items@, ci, bg, show_icons, selected, t, x, y);
            }
        }
    }
    ops
}

/// Where a text of that size begins that is centred in a stretch.
pub open spec fn centred_at(start: int, room: int, size: int) -> int {
    start + half(room - size)
}

/// Where a text of that size begins that is centred in a stretch.
pub fn centred(start: i64, room: i32, size: i32) -> (r: i128)
    ensures
        r == centred_at(start as int, room as int, size as int),
{
    start as i128 + half_of(room as i64 - size as i64) as i128
}

/// What stands for an item without an icon: a square with a letter in its middle.
pub struct Badge {
    pub area: Edges,
    pub color: u32,
    pub letter: String,
    pub letter_height: i32,
    pub letter_color: u32,
}

/// The length of the sides of a badge.
pub open spec fn badge_side(size: int) -> int {
    max_of(size, 12)
}

/// The letter on a badge: the first character of the name, or a question mark.
pub open spec fn badge_letter(name: Seq<char>) -> Seq<char> {
    if name.len() > 0 {
        name.take(1)
    } else {
        "?"@
    }
}

/// The badge of an item.
pub fn draw_fallback_badge(x: i64, y: i64, size: i32, item: &DesktopItem) -> (r: Badge)
    requires
        -0x4000_0000_0000_0000 <= x <= 0x4000_0000_0000_0000,
        -0x4000_0000_0000_0000 <= y <= 0x4000_0000_0000_0000,
    ensures
        r.area == edges(x as int, y as int, x + badge_side(size as int), y + badge_side(size as int)),
        r.color == packed(86, 156, 214),
        r.letter@ == badge_letter(item.display_name@),
        r.letter_height == to_single(badge_side(size as int), 1) / 2,
        r.letter_color == packed(238, 240, 246),
{
    let side: i32 = if size > 12 {
        size
    } else {
        12
    };
    let name: &str = item.display_name.as_str();
    let letter: String = if name.unicode_len() > 0 {
        let first: String = name.substring_char(0, 1).to_owned();
        assert(first@ =~= name@.take(1));
        first
    } else {
        "?".to_owned()
    };
    proof {
        lemma_to_single_monotone(side as int, 0x8000_0000, 1);
        crate::single::lemma_to_single_keeps(1, 31);
        reveal_with_fuel(crate::single::power_of_two, 32);
    }
    Badge {
        area: Edges { left: x, top: y, right: x + side as i64, bottom: y + side as i64 },
        color: rgb(86, 156, 214),
        letter,
        letter_height: (round_single(side as u128, 1) / 2) as i32,
        letter_color: rgb(238, 240, 246),
    }
}

/// The width of the box that shows while the cards are hidden.
pub const HINT_W: i32 = 300;

/// The height of the box that shows while the cards are hidden.
pub const HINT_H: i32 = 68;

/// What shows while the cards are hidden: a box in the middle of the screen, with a text.
pub struct Hint {
    pub area: Edges,
    pub color: u32,
    pub text: String,
    pub text_height: i32,
    pub text_color: u32,
    pub text_y: i64,
}

/// The left edge of the hint on a screen of that width.
pub open spec fn hint_left(w: int) -> int {
    half(w - HINT_W)
}

/// The upper edge of the hint on a screen of that height.
pub open spec fn hint_top(h: int) -> int {
    half(h - HINT_H)
}

/// The hint on a screen of that size, over a ground of that colour.
pub open spec fn is_hint(hint: Hint, w: int, h: int, bg: int) -> bool {
    &&& hint.area == edges(hint_left(w), hint_top(h), hint_left(w) + HINT_W, hint_top(h) + HINT_H)
    &&& hint.color == light_color(bg, PLAIN as int)
    &&& hint.text@ == "桌面已隐藏 · 双击这里恢复"@
    &&& hint.text_height == 17
    &&& hint.text_color == packed(238, 240, 246)
    &&& hint.text_y == hint_top(h) + 24
}

/// What shows while the cards are hidden.
pub fn draw_hidden_hint(w: i32, h: i32, bg: u32) -> (r: Hint)
    ensures
        is_hint(r, w as int, h as int, bg as int),
{
    let x: i64 = half_of(w as i64 - HINT_W as i64);
    let y: i64 = half_of(h as i64 - HINT_H as i64);
    Hint {
        area: Edges { left: x, top: y, right: x + HINT_W as i64, bottom: y + HINT_H as i64 },
        color: light_rgb(bg, PLAIN),
        text: "桌面已隐藏 · 双击这里恢复".to_owned(),
        text_height: 17,
        text_color: rgb(238, 240, 246),
        text_y: y + 24,
    }
}

} // verus!
