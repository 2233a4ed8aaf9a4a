//! What holds of the pictures of the cards: items are hit where they are drawn, and the thumb of the
//! scroll bar stays on its track.
use vstd::prelude::*;
use crate::geometry::{cell_h_of, cell_w_of, lemma_scaled_bounds, row_h_of, scale_of, CONTENT_TOP};
use crate::layout::{among_items, item_at, items_left, items_top, on_face, Card, CardStyle};
use crate::paint::{share, share_of_length, shows, thumb_height, thumb_offset, track_height};
use crate::scroll::{
    first_line, items_per_line, law_drawn_columns_are_hit_columns, lines_filled, lines_shown, max_scroll,
};
use crate::single::{
    lemma_to_single_exact, lemma_to_single_keeps, lemma_to_single_monotone, nearest_even,
    power_of_two, spacing, to_single,
};

verus! {

/// An item of a grid is hit at every point of the cell in which it is drawn, to the left of the
/// buttons, as long as the scroll offset is within bounds.
pub proof fn law_grid_items_are_hit_where_drawn(card: Card, ii: int, x: int, y: int, show_icons: bool)
    requires
        card.style == CardStyle::Grid,
        20 <= card.width,
        0 <= card.scroll <= max_scroll(card, show_icons),
        0 <= ii < card.item_indices@.len(),
        shows(card, ii, show_icons),
        among_items(card, x, y),
        ({
            let cw = cell_w_of(card.width as int);
            let ch = cell_h_of(card.width as int);
            let gx = items_left(card) + (ii % items_per_line(card)) * cw;
            let gy = items_top(card) + (ii / items_per_line(card) - first_line(card, show_icons)) * ch;
            gx <= x < gx + cw && gy <= y < gy + ch
        }),
    ensures
        item_at(card, x, y, show_icons) == Some(ii),
{
    law_drawn_columns_are_hit_columns(card);
    let cw = cell_w_of(card.width as int);
    let ch = cell_h_of(card.width as int);
    let n = items_per_line(card);
    let row = ii / n - first_line(card, show_icons);
    let col = ii % n;
    let dx = x - items_left(card);
    let dy = y - items_top(card);
    assert(dx / cw == col) by {
        vstd::arithmetic::div_mod::lemma_fundamental_div_mod_converse(dx, cw, col, dx - col * cw);
        assert(col * cw == cw * col) by (nonlinear_arith);
    }
    assert(dy / ch == row) by {
        assert(row * ch == ch * row) by (nonlinear_arith);
        vstd::arithmetic::div_mod::lemma_fundamental_div_mod_converse(dy, ch, row, dy - row * ch);
    }
    vstd::arithmetic::div_mod::lemma_fundamental_div_mod(ii, n);
    assert((ii / n) * n == n * (ii / n)) by (nonlinear_arith);
    // A cell that shows ends above the lower edge of the card.
    lemma_scaled_bounds(8, scale_of(card.width as int));
    lemma_scaled_bounds(28, scale_of(card.width as int));
    lemma_scaled_bounds(CONTENT_TOP as int, scale_of(card.width as int));
    assert(on_face(card, x, y));
}

/// An item of a list is hit at every point of the row in which it is drawn, on the card and to the left
/// of the buttons, as long as the scroll offset is within bounds.
pub proof fn law_list_items_are_hit_where_drawn(card: Card, ii: int, x: int, y: int, show_icons: bool)
    requires
        card.style == CardStyle::List,
        0 <= card.scroll <= max_scroll(card, show_icons),
        0 <= ii < card.item_indices@.len(),
        shows(card, ii, show_icons),
        on_face(card, x, y),
        among_items(card, x, y),
        ({
            let rh = row_h_of(card.width as int, show_icons);
            let py = items_top(card) + (ii - first_line(card, show_icons)) * rh;
            py <= y < py + rh
        }),
    ensures
        item_at(card, x, y, show_icons) == Some(ii),
{
    let rh = row_h_of(card.width as int, show_icons);
    let row = ii - first_line(card, show_icons);
    let dy = y - items_top(card);
    assert(dy / rh == row) by {
        assert(row * rh == rh * row) by (nonlinear_arith);
        vstd::arithmetic::div_mod::lemma_fundamental_div_mod_converse(dy, rh, row, dy - row * rh);
    }
}

/// The whole is a share of one.
proof fn lemma_share_of_all(d: int)
    requires
        0 < d,
    ensures
        to_single(0x100_0000_0000_0000 * d, d) == 0x100_0000_0000_0000,
{
    let one = 0x100_0000_0000_0000int;
    let g = spacing(one);
    reveal_with_fuel(spacing, 40);
    assert(g == 0x2_0000_0000);
    assert((one * d) / d == one) by {
        vstd::arithmetic::div_mod::lemma_div_multiples_vanish(one, d);
        assert(d * one == one * d) by (nonlinear_arith);
    }
    let m = 0x80_0000int;
    assert(one * d == m * (d * g)) by (nonlinear_arith)
        requires
            one == 0x100_0000_0000_0000int,
            g == 0x2_0000_0000,
            m == 0x80_0000,
    ;
    assert(0 < d * g) by (nonlinear_arith)
        requires
            0 < d,
            g == 0x2_0000_0000,
    ;
    vstd::arithmetic::div_mod::lemma_fundamental_div_mod_converse(one * d, d * g, m, 0);
    assert(nearest_even(one * d, d * g) == m);
}

/// A share of a length is no longer than that length.
proof fn lemma_share_is_a_part(part: int, whole: int, length: int)
    requires
        0 <= part <= whole,
        0 < whole,
        0 <= length < 0x100_0000,
    ensures
        0 <= share(part, whole),
        0 <= share_of_length(share(part, whole), length) <= length,
{
    let one = 0x100_0000_0000_0000int;
    let a = to_single(part, 1);
    let b = to_single(whole, 1);
    lemma_to_single_monotone(part, whole, 1);
    lemma_to_single_monotone(1, whole, 1);
    lemma_to_single_monotone(0, part, 1);
    lemma_to_single_exact(1);
    lemma_to_single_exact(0);
    lemma_to_single_monotone(a * one, one * b, b);
    lemma_share_of_all(b);
    let s = share(part, whole);
    crate::single::lemma_to_single_near(a * one, b);
    assert(0 <= s <= one);
    lemma_to_single_exact(length);
    assert(0 <= s * length <= one * length) by (nonlinear_arith)
        requires
            0 <= s <= one,
            0 <= length,
    ;
    lemma_to_single_monotone(s * length, one * length, 1);
    lemma_to_single_monotone(0, s * length, 1);
    assert(power_of_two(56) == one) by {
        reveal_with_fuel(power_of_two, 57);
    }
    lemma_to_single_keeps(length, 56);
    assert(length * one == one * length) by (nonlinear_arith);
    assert((one * length) / one == length);
}

/// The share of the whole is all of a length.
pub proof fn lemma_the_whole_is_all(whole: int, length: int)
    requires
        0 < whole,
        0 <= length < 0x100_0000,
    ensures
        share_of_length(share(whole, whole), length) == length,
{
    let one = 0x100_0000_0000_0000int;
    let b = to_single(whole, 1);
    lemma_to_single_monotone(1, whole, 1);
    lemma_to_single_exact(1);
    assert(b * one == one * b) by (nonlinear_arith);
    lemma_share_of_all(b);
    assert(share(whole, whole) == one);
    lemma_to_single_exact(length);
    assert(power_of_two(56) == one) by {
        reveal_with_fuel(power_of_two, 57);
    }
    lemma_to_single_keeps(length, 56);
    assert(length * one == one * length) by (nonlinear_arith);
    assert((one * length) / one == length);
}

/// The thumb of the scroll bar stays on its track, and is at its upper end where nothing is scrolled.
/// For a track of so many pixels that a single-precision number cannot count them, this is not
/// stated: there the height of the thumb is rounded.
pub proof fn law_thumb_stays_on_its_track(card: Card, show_icons: bool)
    requires
        max_scroll(card, show_icons) > 0,
        track_height(card) < 0x100_0000,
    ensures
        16 <= thumb_height(card, show_icons) <= track_height(card),
        0 <= thumb_offset(card, show_icons),
        thumb_offset(card, show_icons) + thumb_height(card, show_icons) <= track_height(card),
        card.scroll <= 0 ==> thumb_offset(card, show_icons) == 0,
{
    let track = track_height(card);
    lemma_share_is_a_part(lines_shown(card, show_icons), lines_filled(card), track);
    let h = thumb_height(card, show_icons);
    assert(16 <= h <= track);
    lemma_share_is_a_part(first_line(card, show_icons), max_scroll(card, show_icons), track - h);
    if card.scroll <= 0 {
        let b = to_single(max_scroll(card, show_icons), 1);
        lemma_to_single_exact(0);
        lemma_to_single_monotone(1, max_scroll(card, show_icons), 1);
        lemma_to_single_exact(1);
        assert(0int / b == 0 && 0int % b == 0) by {
            vstd::arithmetic::div_mod::lemma_fundamental_div_mod_converse(0, b, 0, 0);
        }
        assert(spacing(0) == 1);
        assert(b * 1 == b);
        assert(nearest_even(0, b) == 0);
        assert(to_single(0, b) == 0);
        assert(share(0, max_scroll(card, show_icons)) == to_single(0, b));
        assert(0 * to_single(track - h, 1) == 0);
    }
}

} // verus!
