//! How far the contents of a card can be scrolled.
use vstd::prelude::*;
use crate::geometry::{
    cell_h, cell_h_of, cell_w, cell_w_of, content_top, grid_cols_of, hold, max_of, on_card, row_h, row_h_of,
    CONTENT_TOP,
};
use crate::layout::{Card, CardStyle};

verus! {

/// The height that a card has for its contents.
pub open spec fn content_room(card: Card) -> int {
    card.height - 8 - on_card(CONTENT_TOP as int, card.width as int)
}

/// The height of a line of the contents: a row of grid cells, or a row of the list.
pub open spec fn line_height(card: Card, show_icons: bool) -> int {
    match card.style {
        CardStyle::Grid => cell_h_of(card.width as int),
        CardStyle::List => row_h_of(card.width as int, show_icons),
    }
}

/// The number of items in a line: as many cells as fit into the card, or one.
pub open spec fn items_per_line(card: Card) -> int {
    match card.style {
        CardStyle::Grid => max_of((card.width - 16) / cell_w_of(card.width as int), 1),
        CardStyle::List => 1,
    }
}

/// The number of lines that show at a time, one at least.
pub open spec fn lines_shown(card: Card, show_icons: bool) -> int {
    max_of(content_room(card) / line_height(card, show_icons), 1)
}

/// The number of lines that the items fill; the grid has one even where it is empty.
pub open spec fn lines_filled(card: Card) -> int {
    let n = card.item_indices@.len() as int;
    match card.style {
        CardStyle::Grid => max_of((n + items_per_line(card) - 1) / items_per_line(card), 1),
        CardStyle::List => n,
    }
}

/// The number of lines by which the contents can be scrolled.
pub open spec fn max_scroll(card: Card, show_icons: bool) -> int {
    max_of(lines_filled(card) - lines_shown(card, show_icons), 0)
}

/// The line that shows first.
pub open spec fn first_line(card: Card, show_icons: bool) -> int {
    hold(card.scroll as int, 0, max_scroll(card, show_icons))
}

/// The card with its scroll offset held within bounds.
pub open spec fn held_scroll(card: Card, show_icons: bool) -> Card {
    Card { scroll: first_line(card, show_icons) as i32, ..card }
}

/// The height of a line of the contents.
pub fn line_height_of(card: &Card, show_icons: bool) -> (r: i64)
    ensures
        r == line_height(*card, show_icons),
        1 <= r <= 120,
{
    match card.style {
        CardStyle::Grid => cell_h(card.width) as i64,
        CardStyle::List => row_h(card.width, show_icons) as i64,
    }
}

/// The number of items in a line.
pub fn items_per_line_of(card: &Card) -> (r: i64)
    ensures
        r == items_per_line(*card),
        1 <= r <= 0x8000_0000,
{
    match card.style {
        CardStyle::Grid => {
            let cw: i64 = cell_w(card.width) as i64;
            let avail: i64 = card.width as i64 - 16;
            if avail < cw {
                assert((card.width - 16) / (cw as int) < 1) by (nonlinear_arith)
                    requires
                        card.width - 16 < cw,
                        0 < cw,
                ;
                1
            } else {
                let n: i64 = avail / cw;
                assert(1 <= n <= avail) by (nonlinear_arith)
                    requires
                        n == avail / cw,
                        avail >= cw,
                        0 < cw,
                ;
                n
            }
        },
        CardStyle::List => 1,
    }
}

/// The number of lines that show at a time.
pub fn lines_shown_of(card: &Card, show_icons: bool) -> (r: i64)
    ensures
        r == lines_shown(*card, show_icons),
        1 <= r <= 0x8000_0000,
{
    let h: i64 = line_height_of(card, show_icons);
    let room: i64 = card.height as i64 - 8 - content_top(card.width) as i64;
    if room < h {
        assert(room as int / (h as int) < 1) by (nonlinear_arith)
            requires
                room < h,
                0 < h,
        ;
        1
    } else {
        let n: i64 = room / h;
        assert(1 <= n <= room) by (nonlinear_arith)
            requires
                n == room / h,
                room >= h,
                0 < h,
        ;
        n
    }
}

/// The number of lines that the items fill.
pub fn lines_filled_of(card: &Card) -> (r: i128)
    ensures
        r == lines_filled(*card),
        0 <= r <= 0x1_0000_0000_0000_0000,
{
    let n: i128 = card.item_indices.len() as i128;
    match card.style {
        CardStyle::Grid => {
            let per: i128 = items_per_line_of(card) as i128;
            let lines: i128 = (n + per - 1) / per;
            assert(0 <= lines <= n) by (nonlinear_arith)
                requires
                    lines == (n + per - 1) / (per as int),
                    1 <= per,
                    0 <= n,
            ;
            if lines > 1 {
                lines
            } else {
                1
            }
        },
        CardStyle::List => n,
    }
}

/// The number of lines by which the contents can be scrolled.
pub fn max_scroll_of(card: &Card, show_icons: bool) -> (r: i128)
    ensures
        r == max_scroll(*card, show_icons),
        0 <= r <= 0x1_0000_0000_0000_0000,
{
    let d: i128 = lines_filled_of(card) - lines_shown_of(card, show_icons) as i128;
    if d > 0 {
        d
    } else {
        0
    }
}

/// The line that shows first.
pub fn first_line_of(card: &Card, show_icons: bool) -> (r: i32)
    ensures
        r == first_line(*card, show_icons),
        0 <= r,
{
    let most: i128 = max_scroll_of(card, show_icons);
    if card.scroll < 0 {
        0
    } else if card.scroll as i128 > most {
        most as i32
    } else {
        card.scroll
    }
}

/// Holds the scroll offsets of the cards within bounds, which a card that was made smaller can have
/// left.
pub fn clamp_scroll(cards: &mut [Card], show_icons: bool)
    ensures
        final(cards)@.len() == old(cards)@.len(),
        forall|i: int|
            0 <= i < old(cards)@.len() ==> #[trigger] final(cards)@[i] == held_scroll(
                old(cards)@[i],
                show_icons,
            ),
{
    let mut i: usize = 0;
    while i < cards.len()
        invariant
            i <= cards@.len(),
            cards@.len() == old(cards)@.len(),
            forall|j: int| 0 <= j < i ==> #[trigger] cards@[j] == held_scroll(old(cards)@[j], show_icons),
            forall|j: int| i <= j < cards@.len() ==> #[trigger] cards@[j] == old(cards)@[j],
        decreases cards@.len() - i,
    {
        let line: i32 = first_line_of(&cards[i], show_icons);
        cards[i].scroll = line;
        i += 1;
    }
}

/// A held scroll offset is within bounds, and to hold it once more changes nothing.
pub proof fn law_held_scroll_is_in_bounds(card: Card, show_icons: bool)
    ensures
        0 <= held_scroll(card, show_icons).scroll <= max_scroll(
            held_scroll(card, show_icons),
            show_icons,
        ),
        held_scroll(held_scroll(card, show_icons), show_icons) == held_scroll(card, show_icons),
        0 <= card.scroll <= max_scroll(card, show_icons) ==> held_scroll(card, show_icons) == card,
{
    let h = held_scroll(card, show_icons);
    assert(max_scroll(h, show_icons) == max_scroll(card, show_icons));
}

/// A grid is drawn in the columns in which its items are found by a point, for every card that is
/// wide enough for two columns of at least two pixels.
pub proof fn law_drawn_columns_are_hit_columns(card: Card)
    requires
        card.style == CardStyle::Grid,
        20 <= card.width,
    ensures
        items_per_line(card) == grid_cols_of(card.width as int),
{
    let w = card.width as int;
    let n = grid_cols_of(w);
    let a = w - 16;
    let q = a / n;
    let want = crate::geometry::wanted_cell_w(w);
    crate::geometry::law_scale_grows_with_width(0, w, w);
    let s = crate::geometry::min_of(crate::geometry::scale_of(w), 0x200_0000);
    crate::geometry::lemma_scaled_bounds(48, s);
    assert(want >= 36);
    vstd::arithmetic::div_mod::lemma_fundamental_div_mod(a, n);
    vstd::arithmetic::div_mod::lemma_mod_bound(a, n);
    vstd::arithmetic::div_mod::lemma_fundamental_div_mod(a, want);
    vstd::arithmetic::div_mod::lemma_mod_bound(a, want);
    let r = a % n;
    assert(a == n * q + r);
    assert(n == 2 || n * 36 <= a) by (nonlinear_arith)
        requires
            n == 2 || n <= a / want,
            a == want * (a / want) + a % want,
            0 <= a % want,
            36 <= want,
            0 <= n,
    ;
    // Either there are two columns, or each is as wide as it asks for.
    assert(q >= 2) by (nonlinear_arith)
        requires
            a >= 4,
            n == 2 || n * 36 <= a,
            2 <= n <= 10,
            a == n * q + r,
            0 <= r < n,
    ;
    assert(n > 2 ==> q >= 10) by (nonlinear_arith)
        requires
            n == 2 || n * 36 <= a,
            2 <= n <= 10,
            a == n * q + r,
            0 <= r < n,
    ;
    assert(a / q == n) by {
        assert(r < q);
        vstd::arithmetic::div_mod::lemma_fundamental_div_mod_converse(a, q, n, r);
    }
}

} // verus!
