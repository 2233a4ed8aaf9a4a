//! What the places and the sizes of the cards and of their parts are for, told by points and pixels.
use vstd::prelude::*;
use crate::geometry::{
    cell_h_of, cell_w_of, grid_cols_of, law_columns_fill_the_card, law_scale_grows_with_width, lemma_scaled_bounds,
    on_card, row_h_of, scale_of,
};
use crate::layout::{
    among_items, count_added, edge_at, in_slot, is_added, is_free, item_at, items_left, items_top, on_close,
    on_face, on_style, on_title, overlaps, slot_fits, trial_x, trial_y, Card, CardStyle, ResizeKind,
};
use crate::layout_laws::{law_layout_has_no_overlaps, lemma_scaled_near};
use crate::saved_laws::share_no_point;
use crate::scanner::IconKind;
use crate::single::{lemma_spacing_bounds, lemma_to_single_near, to_single};
use crate::text::digits;

verus! {

/// The cards of a layout run in rows: the first is sixteen pixels from the left and from the top, each other
/// one is sixteen pixels to the right of the one before it, and where a row is full, sixteen pixels below it,
/// at the left again.
pub proof fn law_layouts_run_in_rows(a: Card, b: Card, i: int, cols: int)
    requires
        0 <= i,
        0 <= cols,
        slot_fits(i, cols),
        slot_fits(i + 1, cols),
    ensures
        ({
            let n = if cols == 0 {
                3
            } else {
                cols
            };
            let first = in_slot(a, 0, cols);
            let here = in_slot(a, i, cols);
            let next = in_slot(b, i + 1, cols);
            &&& first.x == 16 && first.y == 16
            &&& (i + 1) % n != 0 ==> next.x == here.x + here.width + 16 && next.y == here.y
            &&& (i + 1) % n == 0 ==> next.x == 16 && next.y == here.y + here.height + 16
            &&& here.width == next.width && here.height == next.height
        }),
{
    let n = crate::layout::layout_cols(cols);
    let (w, h) = crate::layout::slot_size(n);
    assert(0int / n == 0 && 0int % n == 0) by {
        vstd::arithmetic::div_mod::lemma_fundamental_div_mod_converse(0, n, 0, 0);
    }
    assert(0 * (w + 16) == 0 && 0 * (h + 16) == 0);
    let q = i / n;
    let r = i % n;
    vstd::arithmetic::div_mod::lemma_fundamental_div_mod(i, n);
    vstd::arithmetic::div_mod::lemma_mod_bound(i, n);
    vstd::arithmetic::div_mod::lemma_div_pos_is_pos(i, n);
    assert(0 <= r * (w + 16) && 0 <= q * (h + 16)) by (nonlinear_arith)
        requires
            0 <= r,
            0 <= q,
            0 < w,
            0 < h,
    ;
    if r + 1 < n {
        vstd::arithmetic::div_mod::lemma_fundamental_div_mod_converse(i + 1, n, q, r + 1);
        assert((r + 1) * (w + 16) == r * (w + 16) + w + 16) by (nonlinear_arith);
    } else {
        assert(i + 1 == n * (q + 1) + 0) by (nonlinear_arith)
            requires
                i == n * q + r,
                r == n - 1,
        ;
        vstd::arithmetic::div_mod::lemma_fundamental_div_mod_converse(i + 1, n, q + 1, 0);
        assert((q + 1) * (h + 16) == q * (h + 16) + h + 16) by (nonlinear_arith);
    }
}

/// The fewer columns are set, the larger the cards are: 340 by 260 for two, 200 by 160 for four, and 260 by 200
/// for three and for any other number. What a card holds stays.
pub proof fn law_sizes_go_by_the_columns(card: Card, i: int, cols: int)
    ensures
        cols == 2 ==> in_slot(card, i, cols).width == 340 && in_slot(card, i, cols).height == 260,
        cols == 4 ==> in_slot(card, i, cols).width == 200 && in_slot(card, i, cols).height == 160,
        cols != 2 && cols != 4 ==> in_slot(card, i, cols).width == 260 && in_slot(card, i, cols).height == 200,
        in_slot(card, i, cols).kind == card.kind,
        in_slot(card, i, cols).title == card.title,
        in_slot(card, i, cols).item_indices == card.item_indices,
        in_slot(card, i, cols).style == card.style,
        in_slot(card, i, cols).scroll == card.scroll,
{
}

/// Two cards of a layout have no point in common.
pub proof fn law_laid_out_cards_share_no_point(a: Card, b: Card, i: int, j: int, cols: int)
    requires
        0 <= i,
        0 <= j,
        i != j,
        0 <= cols,
        slot_fits(i, cols),
        slot_fits(j, cols),
    ensures
        share_no_point(in_slot(a, i, cols), in_slot(b, j, cols)),
{
    law_layout_has_no_overlaps(a, b, i, j, cols);
    let c = in_slot(a, i, cols);
    let d = in_slot(b, j, cols);
    assert forall|x: int, y: int| !(#[trigger] on_face(c, x, y) && on_face(d, x, y)) by {
        if on_face(c, x, y) && on_face(d, x, y) {
            assert(overlaps(c, d.x as int, d.y as int, d.width as int, d.height as int));
        }
    }
}

/// A point lies in the rectangle of a new card at a place.
pub open spec fn in_new_card(left: int, top: int, x: int, y: int) -> bool {
    left <= x < left + 260 && top <= y < top + 200
}

/// A card has a point in common with a new card at a place.
pub open spec fn is_in_the_way(card: Card, left: int, top: int) -> bool {
    exists|x: int, y: int| #[trigger] in_new_card(left, top, x, y) && on_face(card, x, y)
}

/// A card with a size overlaps a rectangle if and only if they have a point in common.
proof fn lemma_overlaps_in_a_point(card: Card, left: int, top: int)
    requires
        0 < card.width,
        0 < card.height,
    ensures
        overlaps(card, left, top, 260, 200) <==> is_in_the_way(card, left, top),
{
    if overlaps(card, left, top, 260, 200) {
        let x = if left > card.x {
            left
        } else {
            card.x as int
        };
        let y = if top > card.y {
            top
        } else {
            card.y as int
        };
        assert(in_new_card(left, top, x, y) && on_face(card, x, y));
    }
}

/// A new card has no point in common with any other, as long as one of the places for new cards is free of
/// them: twelve rows of twelve, from the upper left on, sixteen pixels apart. It stands on the first of them
/// that is free, along the rows.
pub proof fn law_new_cards_take_the_first_free_place(card: Card, cards: Seq<Card>, row: int, col: int, j: int)
    requires
        is_added(card, cards),
        forall|i: int| 0 <= i < cards.len() ==> (#[trigger] cards[i]).width > 0 && cards[i].height > 0,
        0 <= row < 12,
        0 <= col < 12,
        forall|i: int|
            0 <= i < cards.len() ==> !is_in_the_way(#[trigger] cards[i], 16 + col * 276, 16 + row * 216),
        0 <= j < cards.len(),
    ensures
        share_no_point(card, cards[j]),
        card.y < 16 + row * 216 || (card.y == 16 + row * 216 && card.x <= 16 + col * 276),
        16 <= card.x && 16 <= card.y && (card.x - 16) % 276 == 0 && (card.y - 16) % 216 == 0,
{
    let k = row * 12 + col;
    assert(k % 12 == col && k / 12 == row);
    assert(trial_x(k) == 16 + col * 276 && trial_y(k) == 16 + row * 216);
    assert forall|i: int| 0 <= i < cards.len() implies !overlaps(
        #[trigger] cards[i],
        trial_x(k),
        trial_y(k),
        260,
        200,
    ) by {
        lemma_overlaps_in_a_point(cards[i], trial_x(k), trial_y(k));
    }
    assert(is_free(cards, trial_x(k), trial_y(k)));
    let f = choose|f: int|
        {
            &&& 0 <= f < 144
            &&& #[trigger] is_free(cards, trial_x(f), trial_y(f))
            &&& forall|g: int| 0 <= g < f ==> !#[trigger] is_free(cards, trial_x(g), trial_y(g))
            &&& card.x == trial_x(f)
            &&& card.y == trial_y(f)
        };
    assert(f <= k);
    assert(!overlaps(cards[j], card.x as int, card.y as int, 260, 200));
    lemma_overlaps_in_a_point(cards[j], card.x as int, card.y as int);
    let c = cards[j];
    assert forall|x: int, y: int| !(#[trigger] on_face(card, x, y) && on_face(c, x, y)) by {
        if on_face(card, x, y) && on_face(c, x, y) {
            assert(in_new_card(card.x as int, card.y as int, x, y));
        }
    }
}

/// A new card is empty: of the other kind, a list from its first line on, 260 by 200, without items. Its title
/// ends in a number one greater than there are cards whose title begins like it, so of two new cards the
/// second has the next number.
pub proof fn law_new_cards_are_empty_and_numbered(card: Card, cards: Seq<Card>)
    requires
        is_added(card, cards),
    ensures
        card.kind == IconKind::Other,
        card.item_indices@.len() == 0,
        card.style == CardStyle::List,
        card.scroll == 0,
        card.width == 260,
        card.height == 200,
        card.title@ == "新分区"@ + digits(
            cards.filter(|c: Card| "新分区"@.is_prefix_of(c.title@)).len() as int + 1,
            10,
        ),
        count_added(cards.push(card)) == count_added(cards) + 1,
{
    lemma_added_are_counted(cards);
    assert(cards.push(card).drop_last() =~= cards);
    let t = card.title@;
    assert("新分区"@.is_prefix_of(t)) by {
        assert(t.subrange(0, "新分区"@.len() as int) =~= "新分区"@);
    }
}

/// The number of cards whose title begins like that of a new card.
proof fn lemma_added_are_counted(cards: Seq<Card>)
    ensures
        count_added(cards) == cards.filter(|c: Card| "新分区"@.is_prefix_of(c.title@)).len(),
    decreases cards.len(),
{
    reveal(Seq::filter);
    if cards.len() > 0 {
        lemma_added_are_counted(cards.drop_last());
    }
}

/// The edges of a card: the corner is the square of twenty pixels at the lower right, the right and the lower
/// edge are ten pixels wide, within the card. Elsewhere there is none.
pub proof fn law_edges_are_at_the_right_and_below(card: Card, x: int, y: int)
    ensures
        ({
            let from_right = card.x + card.width - x;
            let from_below = card.y + card.height - y;
            &&& edge_at(card, x, y) == Some(ResizeKind::Corner) <==> 1 <= from_right <= 20 && 1 <= from_below
                <= 20
            &&& edge_at(card, x, y) == Some(ResizeKind::Right) ==> on_face(card, x, y) || card.width < 10
            &&& on_face(card, x, y) && from_right <= 10 && from_below > 20 ==> edge_at(card, x, y) == Some(
                ResizeKind::Right,
            )
            &&& on_face(card, x, y) && from_below <= 10 && from_right > 20 ==> edge_at(card, x, y) == Some(
                ResizeKind::Bottom,
            )
            &&& from_right > 20 && from_below > 10 ==> edge_at(card, x, y) is None
            &&& from_right > 10 && from_below > 20 ==> edge_at(card, x, y) is None
            &&& from_right <= 0 || from_below <= 0 ==> edge_at(card, x, y) is None
        }),
{
}

/// The buttons of a card are squares at its upper edge, and as wide as the title bar has room for them; the
/// title bar is the rest of it.
pub proof fn law_controls_are_squares_at_the_top(card: Card, x: int, y: int)
    ensures
        ({
            let w = card.width as int;
            let right = card.x + w;
            let r = on_card(12, w);
            &&& on_close(card, x, y) <==> -r <= x - (right - on_card(16, w)) < r && 0 <= y - card.y < 2 * r
            &&& on_style(card, x, y) <==> -r <= x - (right - on_card(52, w)) < r && 0 <= y - card.y < 2 * r
            &&& on_title(card, x, y) <==> 0 <= x - card.x < w - on_card(28, w) && 0 <= y - card.y < on_card(36, w)
            &&& on_face(card, x, y) <==> 0 <= x - card.x < w && 0 <= y - card.y < card.height
            &&& among_items(card, x, y) <==> on_card(8, w) <= x - card.x < w - on_card(28, w) && on_card(42, w) <= y
                - card.y
        }),
{
}

/// Two points of a card hit the same item of a list if they are on the same line; a line further down hits the
/// next item. A grid goes by columns as well: a cell further to the right is the next item.
pub proof fn law_items_follow_each_other(card: Card, x: int, y: int, ii: int, show_icons: bool)
    requires
        item_at(card, x, y, show_icons) == Some(ii),
        ii + 1 < card.item_indices@.len(),
    ensures
        ({
            let w = card.width as int;
            let rh = row_h_of(w, show_icons);
            let cw = cell_w_of(w);
            &&& card.style == CardStyle::List && on_face(card, x, y + rh) ==> item_at(card, x, y + rh, show_icons)
                == Some(ii + 1)
            &&& card.style == CardStyle::Grid && on_face(card, x + cw, y) && among_items(card, x + cw, y)
                ==> item_at(card, x + cw, y, show_icons) == Some(ii + 1)
        }),
{
    let w = card.width as int;
    law_scale_grows_with_width(0, w, w);
    lemma_scaled_bounds(26, scale_of(w));
    lemma_scaled_bounds(22, scale_of(w));
    let rh = row_h_of(w, show_icons);
    let cw = cell_w_of(w);
    let dy = y - items_top(card);
    let dx = x - items_left(card);
    assert((dy + rh) / rh == dy / rh + 1) by {
        vstd::arithmetic::div_mod::lemma_div_plus_one(dy, rh);
    }
    assert((dx + cw) / cw == dx / cw + 1) by {
        vstd::arithmetic::div_mod::lemma_div_plus_one(dx, cw);
    }
}

/// To scroll a card by a line makes each point hit what was a line further down: the next item of a list, and
/// as many items on as a line of a grid holds.
pub proof fn law_scrolling_moves_the_items_up(a: Card, b: Card, x: int, y: int, ii: int, show_icons: bool)
    requires
        b == (Card { scroll: b.scroll, ..a }),
        b.scroll == a.scroll + 1,
        item_at(a, x, y, show_icons) == Some(ii),
    ensures
        ({
            let next = ii + match a.style {
                CardStyle::Grid => grid_cols_of(a.width as int),
                CardStyle::List => 1,
            };
            next < a.item_indices@.len() ==> item_at(b, x, y, show_icons) == Some(next)
        }),
{
    let w = a.width as int;
    let cols = grid_cols_of(w);
    let row = (y - items_top(a)) / cell_h_of(w);
    assert((row + a.scroll + 1) * cols == (row + a.scroll) * cols + cols) by (nonlinear_arith);
    assert(row + b.scroll == row + a.scroll + 1);
}

/// The lengths of a card grow with its width: between a width of 208 and one of 780, a length is its natural
/// size times the width over 260, to within a pixel.
pub proof fn law_lengths_are_proportional(k: int, width: int)
    requires
        0 <= k <= 100,
        208 <= width <= 780,
    ensures
        260 * on_card(k, width) <= k * width + 1,
        k * width < 260 * (on_card(k, width) + 1) + 1,
{
    if width == 780 {
        crate::geometry::law_natural_size(k, 780);
    } else {
        let v = width * 0x100_0000;
        let s = scale_of(width);
        law_scale_grows_with_width(0, width, width);
        lemma_to_single_near(v, 260);
        lemma_spacing_bounds(v / 260);
        crate::geometry::lemma_scale_at_bounds();
        crate::single::lemma_to_single_monotone(208int * 0x100_0000, v, 260);
        assert(s == to_single(v, 260));
        assert(-1040 <= 260 * s - v <= 1040);
        lemma_scaled_near(k, s);
        assert(-1040 * k <= 260 * (k * s) - k * v <= 1040 * k) by (nonlinear_arith)
            requires
                -1040 <= 260 * s - v <= 1040,
                0 <= k,
        ;
        assert(k * v == (k * width) * 0x100_0000) by (nonlinear_arith)
            requires
                v == width * 0x100_0000,
        ;
    }
}

/// A cell of a grid is between 44 and 120 pixels high, and in between as high as the scale of its card asks; a
/// row of a list is higher where it shows icons.
pub proof fn law_lines_grow_with_the_card(width: int)
    ensures
        44 <= cell_h_of(width) <= 120,
        cell_h_of(width) == on_card(64, width) || cell_h_of(width) == 120,
        row_h_of(width, false) <= row_h_of(width, true),
        row_h_of(width, true) == on_card(26, width),
        row_h_of(width, false) == on_card(22, width),
{
    law_scale_grows_with_width(0, width, width);
    lemma_scaled_bounds(64, scale_of(width));
    crate::layout_laws::lemma_scaled_keeps_order(22, 26, width);
}

/// The columns of a grid lie side by side and end on the card.
pub proof fn law_columns_lie_side_by_side(width: int)
    requires
        width >= 20,
    ensures
        2 <= grid_cols_of(width) <= 10,
        0 < cell_w_of(width),
        16 + grid_cols_of(width) * cell_w_of(width) <= width,
        width < 16 + grid_cols_of(width) * (cell_w_of(width) + 1),
{
    law_columns_fill_the_card(width);
}

/// Where every place for a new card has another card in the way, the new card takes a place that moves on with the
/// number of cards.
pub proof fn law_without_a_free_place_new_cards_move_on(card: Card, cards: Seq<Card>)
    requires
        is_added(card, cards),
        forall|i: int| 0 <= i < cards.len() ==> (#[trigger] cards[i]).width > 0 && cards[i].height > 0,
        forall|row: int, col: int|
            0 <= row < 12 && 0 <= col < 12 ==> #[trigger] is_taken(cards, 16 + col * 276, 16 + row * 216),
    ensures
        card.x == 16 + (28 * cards.len()) % 500,
        card.y == 16 + (28 * cards.len()) % 400,
{
    assert forall|j: int| 0 <= j < 144 implies !#[trigger] is_free(cards, trial_x(j), trial_y(j)) by {
        let row = j / 12;
        let col = j % 12;
        assert(is_taken(cards, 16 + col * 276, 16 + row * 216));
        let i = choose|i: int|
            0 <= i < cards.len() && is_in_the_way(#[trigger] cards[i], 16 + col * 276, 16 + row * 216);
        lemma_overlaps_in_a_point(cards[i], trial_x(j), trial_y(j));
        assert(overlaps(cards[i], trial_x(j), trial_y(j), 260, 200));
    }
}

/// A card is in the way of a new card at a place.
pub open spec fn is_taken(cards: Seq<Card>, left: int, top: int) -> bool {
    exists|i: int| 0 <= i < cards.len() && is_in_the_way(#[trigger] cards[i], left, top)
}

} // verus!
