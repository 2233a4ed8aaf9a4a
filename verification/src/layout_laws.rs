//! What holds of the cards as a whole.
use vstd::prelude::*;
use crate::geometry::{law_scale_grows_with_width, lemma_scaled_bounds, on_card, scale_of, scaled, CONTENT_TOP, TITLE_H};
use crate::layout::{
    among_items, in_slot, is_added, is_free, item_at, layout_cols, on_close, on_face, on_style,
    on_title, overlaps, positions, slot_size, slot_x, slot_y, trial_x, trial_y, Card,
};
use crate::scanner::{count_kind, DesktopItem, IconKind};
use crate::single::{
    lemma_singles_are_kept, lemma_spacing_bounds, lemma_spacing_monotone, lemma_to_single_keeps,
    lemma_to_single_monotone, lemma_to_single_near, nearest_even, power_of_two, spacing, to_single,
};

verus! {

/// Each item is on the card of its kind and on no other, once, and a card holds its items in the
/// order of the item list.
pub proof fn law_each_item_is_on_one_card(items: Seq<DesktopItem>, kind: IconKind)
    requires
        items.len() <= usize::MAX,
    ensures
        forall|i: usize| #[trigger] positions(items, kind).contains(i) <==> i < items.len()
            && items[i as int].kind == kind,
        forall|a: int, b: int|
            0 <= a < b < positions(items, kind).len() ==> (#[trigger] positions(items, kind)[a]) < (
            #[trigger] positions(items, kind)[b]),
        positions(items, kind).len() == count_kind(items, kind),
    decreases items.len(),
{
    if items.len() != 0 {
        let t = items.drop_last();
        law_each_item_is_on_one_card(t, kind);
        let p = positions(t, kind);
        let q = positions(items, kind);
        let last = (items.len() - 1) as usize;
        assert forall|a: int| 0 <= a < p.len() implies #[trigger] p[a] < last by {
            assert(p.contains(p[a]));
        }
        assert forall|i: usize| #[trigger] q.contains(i) <==> i < items.len() && items[i as int].kind
            == kind by {
            if items.last().kind == kind {
                assert(q == p.push(last));
                if q.contains(i) {
                    let a = choose|a: int| 0 <= a < q.len() && q[a] == i;
                    if a < p.len() {
                        assert(p[a] == i);
                        assert(p.contains(i));
                    }
                }
                if i < items.len() && items[i as int].kind == kind {
                    if i < t.len() {
                        assert(t[i as int] == items[i as int]);
                        assert(p.contains(i));
                        let a = choose|a: int| 0 <= a < p.len() && p[a] == i;
                        assert(q[a] == i);
                    } else {
                        assert(q[p.len() as int] == i);
                    }
                }
            } else {
                assert(p.contains(i) == q.contains(i));
            }
        }
        assert forall|a: int, b: int| 0 <= a < b < q.len() implies (#[trigger] q[a]) < (#[trigger] q[b]) by {
            if b < p.len() {
                assert(p[a] < p[b]);
            } else {
                assert(p[a] < last);
            }
        }
    }
}

/// Cards in a layout do not overlap, and none begins left of or above the margin.
pub proof fn law_layout_has_no_overlaps(a: Card, b: Card, i: int, j: int, cols: int)
    requires
        0 <= i,
        0 <= j,
        i != j,
        0 <= cols,
        slot_x(i, cols) <= i32::MAX,
        slot_y(i, cols) <= i32::MAX,
        slot_x(j, cols) <= i32::MAX,
        slot_y(j, cols) <= i32::MAX,
    ensures
        16 <= in_slot(a, i, cols).x,
        16 <= in_slot(a, i, cols).y,
        ({
            let c = in_slot(b, j, cols);
            !overlaps(in_slot(a, i, cols), c.x as int, c.y as int, c.width as int, c.height as int)
        }),
{
    let n = layout_cols(cols);
    let (w, h) = slot_size(n);
    vstd::arithmetic::div_mod::lemma_fundamental_div_mod(i, n);
    vstd::arithmetic::div_mod::lemma_fundamental_div_mod(j, n);
    vstd::arithmetic::div_mod::lemma_mod_bound(i, n);
    vstd::arithmetic::div_mod::lemma_mod_bound(j, n);
    vstd::arithmetic::div_mod::lemma_div_pos_is_pos(i, n);
    vstd::arithmetic::div_mod::lemma_div_pos_is_pos(j, n);
    let ci = i % n;
    let cj = j % n;
    let ri = i / n;
    let rj = j / n;
    assert(ci != cj || ri != rj);
    lemma_spread(ci, w + 16);
    lemma_spread(ri, h + 16);
    if ci < cj {
        lemma_step(ci, cj, w + 16);
    } else if cj < ci {
        lemma_step(cj, ci, w + 16);
    } else if ri < rj {
        lemma_step(ri, rj, h + 16);
    } else {
        lemma_step(rj, ri, h + 16);
    }
}

proof fn lemma_spread(a: int, s: int)
    requires
        0 <= a,
        0 < s,
    ensures
        0 <= a * s,
{
    assert(0 <= a * s) by (nonlinear_arith)
        requires
            0 <= a,
            0 < s,
    ;
}

proof fn lemma_step(a: int, b: int, s: int)
    requires
        a < b,
        0 < s,
    ensures
        a * s + s <= b * s,
{
    assert(a * s + s <= b * s) by (nonlinear_arith)
        requires
            a < b,
            0 < s,
    ;
}

/// To lay out cards once more changes nothing.
pub proof fn law_layout_is_stable(card: Card, i: int, cols: int)
    ensures
        in_slot(in_slot(card, i, cols), i, cols) == in_slot(card, i, cols),
{
}

/// A new card overlaps no other card, as long as one of the places that are tried is free.
pub proof fn law_new_card_overlaps_nothing(card: Card, cards: Seq<Card>, k: int)
    requires
        is_added(card, cards),
        0 <= k < 144,
        is_free(cards, trial_x(k), trial_y(k)),
    ensures
        forall|i: int|
            0 <= i < cards.len() ==> !overlaps(
                #[trigger] cards[i],
                card.x as int,
                card.y as int,
                card.width as int,
                card.height as int,
            ),
{
    assert(is_free(cards, card.x as int, card.y as int));
}

/// A scaled length is less than a pixel, and a trace, below its exact value, and no more than a trace
/// above it.
pub proof fn lemma_scaled_near(k: int, scale: int)
    requires
        0 <= k <= 1000,
        0 <= scale <= 0x300_0000,
    ensures
        scaled(k, scale) * 0x100_0000 <= k * scale + 4096,
        k * scale < scaled(k, scale) * 0x100_0000 + 0x100_0000 + 4096,
{
    let v = k * scale;
    assert(0 <= v <= 1000 * 0x300_0000) by (nonlinear_arith)
        requires
            0 <= k <= 1000,
            0 <= scale <= 0x300_0000,
            v == k * scale,
    ;
    lemma_to_single_near(v, 1);
    assert(v / 1 == v);
    lemma_spacing_bounds(v);
}

/// A longer length is no shorter after both are scaled.
pub proof fn lemma_scaled_keeps_order(k: int, l: int, width: int)
    requires
        0 <= k <= l,
    ensures
        on_card(k, width) <= on_card(l, width),
{
    law_scale_grows_with_width(0, width, width);
    let s = scale_of(width);
    assert(0 <= k * s <= l * s) by (nonlinear_arith)
        requires
            0 <= k <= l,
            0 <= s,
    ;
    lemma_to_single_monotone(k * s, l * s, 1);
    lemma_to_single_near(k * s, 1);
}

/// No point is on both of the buttons of a card.
pub proof fn law_buttons_are_apart(card: Card, x: int, y: int)
    ensures
        !(on_close(card, x, y) && on_style(card, x, y)),
{
    let w = card.width as int;
    law_scale_grows_with_width(0, w, w);
    let s = scale_of(w);
    lemma_scaled_near(12, s);
    lemma_scaled_near(16, s);
    lemma_scaled_near(52, s);
    assert(on_card(16, w) + 2 * on_card(12, w) <= on_card(52, w));
}

/// A length that is less than half a spacing short of whole pixels is rounded up to them.
proof fn lemma_rounds_up_to_pixels(v: int, t: int)
    requires
        0 <= v < 0x8000_0000,
        0 < t * 0x100_0000 - v,
        2 * (t * 0x100_0000 - v) <= spacing(v),
    ensures
        to_single(v, 1) == t * 0x100_0000,
{
    let u = t * 0x100_0000;
    let g = spacing(v);
    let e = u - v;
    lemma_small_spacings(v);
    let m = u / g;
    assert(u == m * g && m % 2 == 0);
    assert((m - 1) * g + (g - e) == v) by (nonlinear_arith)
        requires
            u == m * g,
            e == u - v,
    ;
    assert((m - 1) * g == g * (m - 1)) by (nonlinear_arith);
    assert(1 * g == g);
    assert(v / 1 == v);
    vstd::arithmetic::div_mod::lemma_fundamental_div_mod_converse(v, g, m - 1, g - e);
    assert(nearest_even(v, g) == m);
    assert(g * m == m * g) by (nonlinear_arith);
}

/// The length of sixteen pixels and that of twelve, both scaled, are no longer than that of
/// twenty-eight.
proof fn lemma_close_button_fits(width: int)
    ensures
        on_card(16, width) + on_card(12, width) <= on_card(28, width),
{
    law_scale_grows_with_width(0, width, width);
    let s = scale_of(width);
    let u = 0x100_0000int;
    let v16 = to_single(16 * s, 1);
    let v12 = to_single(12 * s, 1);
    let v28 = to_single(28 * s, 1);
    let a = v16 / u;
    let b = v12 / u;
    let t = a + b;
    lemma_scale_is_kept(width);
    assert(v16 == 16 * s);
    lemma_scaled_bounds(16, s);
    lemma_scaled_bounds(12, s);
    lemma_pixels_are_kept(b);
    lemma_pixels_are_kept(t);
    if 28 * s >= t * u {
        lemma_to_single_monotone(t * u, 28 * s, 1);
    } else {
        // Twelve was rounded up, to whole pixels, and twenty-eight is rounded up at least as far.
        assert(12 * s < b * u);
        lemma_to_single_monotone(12 * s, b * u, 1);
        assert(v12 == b * u);
        lemma_to_single_near(12 * s, 1);
        lemma_spacing_monotone(12 * s, 28 * s);
        lemma_spacing_bounds(28 * s);
        lemma_spacing_bounds(12 * s);
        assert((12 * s) / 1 == 12 * s && (28 * s) / 1 == 28 * s);
        lemma_rounds_up_to_pixels(28 * s, t);
    }
    assert(t <= v28 / u);
}

/// The spacing around a number of at most thirty-one digits is a power of two up to 128.
proof fn lemma_small_spacings(v: int)
    requires
        0 <= v < 0x8000_0000,
    ensures
        ({
            let g = spacing(v);
            g == 1 || g == 2 || g == 4 || g == 8 || g == 16 || g == 32 || g == 64 || g == 128
        }),
{
    reveal_with_fuel(spacing, 9);
}

/// Whole pixels are kept by rounding.
proof fn lemma_pixels_are_kept(n: int)
    requires
        0 <= n < 0x100_0000,
    ensures
        to_single(n * 0x100_0000, 1) == n * 0x100_0000,
{
    assert(power_of_two(24) == 0x100_0000) by {
        reveal_with_fuel(power_of_two, 25);
    }
    lemma_to_single_keeps(n, 24);
}

/// Sixteen times a scale is kept by rounding.
proof fn lemma_scale_is_kept(width: int)
    ensures
        to_single(16 * scale_of(width), 1) == 16 * scale_of(width),
{
    assert(power_of_two(4) == 16) by {
        reveal_with_fuel(power_of_two, 5);
    }
    let s = scale_of(width);
    if s == crate::geometry::LEAST_SCALE {
        lemma_to_single_keeps(s, 4);
    } else if s == crate::geometry::MOST_SCALE {
        lemma_pixels_are_kept(48);
    } else {
        lemma_singles_are_kept(width * 0x100_0000, 260, 4);
        assert(s * 16 == 16 * s);
    }
}

/// No point is on the button that closes a card and on its title bar, or on one of its items.
pub proof fn law_close_button_is_apart(card: Card, x: int, y: int, show_icons: bool)
    ensures
        on_close(card, x, y) ==> !on_title(card, x, y) && !among_items(card, x, y) && item_at(
            card,
            x,
            y,
            show_icons,
        ) is None,
{
    lemma_close_button_fits(card.width as int);
}

/// An item is hit only on its card.
pub proof fn law_items_are_hit_on_their_card(card: Card, x: int, y: int, show_icons: bool)
    ensures
        item_at(card, x, y, show_icons) is Some ==> on_face(card, x, y),
{
}

/// No point is on the title bar of a card and among its items.
pub proof fn law_title_is_above_items(card: Card, x: int, y: int)
    ensures
        !(on_title(card, x, y) && among_items(card, x, y)),
{
    lemma_scaled_keeps_order(TITLE_H as int, CONTENT_TOP as int, card.width as int);
}

/// Both buttons are on the card, and so is the title bar, as long as the card has room for them.
pub proof fn law_controls_are_on_the_card(card: Card, x: int, y: int)
    requires
        50 <= card.width,
        on_card(TITLE_H as int, card.width as int) <= card.height,
    ensures
        on_close(card, x, y) ==> on_face(card, x, y),
        on_style(card, x, y) ==> on_face(card, x, y),
        on_title(card, x, y) ==> on_face(card, x, y),
{
    let w = card.width as int;
    law_scale_grows_with_width(TITLE_H as int, w, w);
    let s = scale_of(w);
    lemma_scaled_near(12, s);
    lemma_scaled_near(16, s);
    lemma_scaled_near(52, s);
    lemma_scaled_near(28, s);
    lemma_scaled_near(36, s);
    lemma_scaled_bounds(28, s);
    lemma_scaled_bounds(12, s);
    lemma_scaled_bounds(16, s);
    lemma_scaled_bounds(52, s);
    lemma_scaled_bounds(36, s);
    lemma_scale_is_near_quotient(w);
    assert(on_card(12, w) <= on_card(16, w)) by {
        lemma_scaled_keeps_order(12, 16, w);
    }
    assert(2 * on_card(12, w) <= on_card(36, w));
    assert(on_card(52, w) + on_card(12, w) <= w);
}

proof fn lemma_scale_is_near_quotient(w: int)
    requires
        50 <= w,
    ensures
        scale_of(w) <= crate::geometry::LEAST_SCALE || scale_of(w) * 260 <= w * 0x100_0000 + 260 * 4096
            || scale_of(w) == crate::geometry::MOST_SCALE && w >= 779,
{
    let v = w * 0x100_0000;
    lemma_to_single_near(v, 260);
    lemma_spacing_bounds(v / 260);
    if w >= 800 {
        law_scale_grows_with_width(0, 780, w);
        crate::geometry::law_natural_size(0, 780);
    }
}

} // verus!
