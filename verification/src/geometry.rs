//! The lengths of a card, which scale with its width.
use vstd::prelude::*;
use crate::single::{
    lemma_spacing_bounds, lemma_to_single_keeps, lemma_to_single_monotone, lemma_to_single_near, nearest_even,
    power_of_two, round_single, spacing, to_single,
};

verus! {

/// The width at which a card is drawn at its natural size.
pub const BASE_W: i32 = 260;

/// The height of the title bar at natural size.
pub const TITLE_H: i32 = 36;

/// The top of the content at natural size, below the title bar and its line.
pub const CONTENT_TOP: i32 = 42;

/// The size of a grid cell at natural size.
pub const CELL_W: i32 = 48;

pub const CELL_H: i32 = 64;

/// The least scale of a card, 0.8, in ticks of `2^-24`.
pub const LEAST_SCALE: u32 = 13421773;

/// The greatest scale of a card, 3.0, in ticks of `2^-24`.
pub const MOST_SCALE: u32 = 50331648;

/// The lesser of two numbers.
pub open spec fn min_of(a: int, b: int) -> int {
    if a < b {
        a
    } else {
        b
    }
}

/// The greater of two numbers.
pub open spec fn max_of(a: int, b: int) -> int {
    if a > b {
        a
    } else {
        b
    }
}

/// The number nearest to `v` from `lo` up to `hi`.
pub open spec fn hold(v: int, lo: int, hi: int) -> int {
    if v < lo {
        lo
    } else if v > hi {
        hi
    } else {
        v
    }
}

/// The scale of a card of that width, in ticks of `2^-24`: the single-precision quotient of the
/// width and the natural width, held between 0.8 and 3.0.
pub open spec fn scale_of(width: int) -> int {
    if width <= 0 {
        LEAST_SCALE as int
    } else {
        hold(to_single(width * 0x100_0000, BASE_W as int), LEAST_SCALE as int, MOST_SCALE as int)
    }
}

/// The whole pixels of a length of `k` pixels after it is scaled, in single precision.
pub open spec fn scaled(k: int, scale: int) -> int {
    to_single(k * scale, 1) / 0x100_0000
}

/// A length that is `k` pixels at natural size, on a card of that width.
pub open spec fn on_card(k: int, width: int) -> int {
    scaled(k, scale_of(width))
}

/// The scale of a card of that width, in ticks of `2^-24`.
pub fn card_scale(width: i32) -> (r: u32)
    ensures
        r == scale_of(width as int),
        LEAST_SCALE <= r <= MOST_SCALE,
{
    if width <= 0 {
        LEAST_SCALE
    } else {
        let q: u128 = round_single(width as u128 * 0x100_0000, BASE_W as u128);
        if q < LEAST_SCALE as u128 {
            LEAST_SCALE
        } else if q > MOST_SCALE as u128 {
            MOST_SCALE
        } else {
            q as u32
        }
    }
}

/// A scaled length is between three quarters and three times of what it is at natural size.
pub proof fn lemma_scaled_bounds(k: int, scale: int)
    requires
        0 <= k <= 1000,
        LEAST_SCALE <= scale <= MOST_SCALE,
    ensures
        3 * k / 4 <= scaled(k, scale) <= 3 * k,
{
    let v = k * scale;
    assert(k * LEAST_SCALE <= v <= k * MOST_SCALE) by (nonlinear_arith)
        requires
            0 <= k,
            LEAST_SCALE <= scale <= MOST_SCALE,
            v == k * scale,
    ;
    lemma_to_single_near(v, 1);
    assert(v / 1 == v);
    crate::single::lemma_spacing_bounds(v);
}

/// A length of `k` pixels after it is scaled.
pub fn scaled_by(k: u32, scale: u32) -> (r: i32)
    requires
        k <= 1000,
        LEAST_SCALE <= scale <= MOST_SCALE,
    ensures
        r == scaled(k as int, scale as int),
        3 * k / 4 <= r <= 3 * k,
{
    proof {
        lemma_scaled_bounds(k as int, scale as int);
        assert(k * scale <= 1000 * MOST_SCALE) by (nonlinear_arith)
            requires
                k <= 1000,
                scale <= MOST_SCALE,
        ;
    }
    let v: u128 = round_single(k as u128 * scale as u128, 1);
    (v / 0x100_0000) as i32
}

/// A length that is `k` pixels at natural size, on a card of that width.
pub fn length_on_card(k: u32, width: i32) -> (r: i32)
    requires
        k <= 1000,
    ensures
        r == on_card(k as int, width as int),
        3 * k / 4 <= r <= 3 * k,
{
    scaled_by(k, card_scale(width))
}

/// The height of the title bar.
pub fn title_h(width: i32) -> (r: i32)
    ensures
        r == on_card(TITLE_H as int, width as int),
{
    length_on_card(TITLE_H as u32, width)
}

/// The top of the content, below the top of the card.
pub fn content_top(width: i32) -> (r: i32)
    ensures
        r == on_card(CONTENT_TOP as int, width as int),
        0 <= r <= 126,
{
    length_on_card(CONTENT_TOP as u32, width)
}

/// The width that a grid cell asks for: it grows with the card, to twice its natural size.
pub open spec fn wanted_cell_w(width: int) -> int {
    max_of(scaled(CELL_W as int, min_of(scale_of(width), 0x200_0000)), 1)
}

/// The number of grid columns: as many cells as fit into the card, from two to ten.
pub open spec fn grid_cols_of(width: int) -> int {
    hold((width - 16) / wanted_cell_w(width), 2, 10)
}

/// The width of a grid cell: the columns fill the card.
pub open spec fn cell_w_of(width: int) -> int {
    max_of((width - 16) / grid_cols_of(width), 1)
}

/// The height of a grid cell.
pub open spec fn cell_h_of(width: int) -> int {
    hold(on_card(CELL_H as int, width), 44, 120)
}

/// The height of a list row.
pub open spec fn row_h_of(width: int, show_icons: bool) -> int {
    on_card(
        if show_icons {
            26
        } else {
            22
        },
        width,
    )
}

/// The number of grid columns.
pub fn grid_cols(width: i32) -> (r: i32)
    ensures
        r == grid_cols_of(width as int),
        2 <= r <= 10,
{
    let avail: i64 = width as i64 - 16;
    let scale: u32 = card_scale(width);
    let s: u32 = if scale < 0x200_0000 {
        scale
    } else {
        0x200_0000
    };
    let w: i32 = scaled_by(CELL_W as u32, s);
    let cw: i64 = if w > 1 {
        w as i64
    } else {
        1
    };
    if avail < 2 * cw {
        assert((width as int - 16) / (cw as int) < 2) by (nonlinear_arith)
            requires
                width as int - 16 < 2 * cw as int,
                0 < cw,
        ;
        2
    } else {
        let n: i64 = avail / cw;
        if n > 10 {
            10
        } else {
            assert(n >= 2) by (nonlinear_arith)
                requires
                    n == avail / cw,
                    avail >= 2 * cw,
                    0 < cw,
            ;
            n as i32
        }
    }
}

/// The width of a grid cell.
pub fn cell_w(width: i32) -> (r: i32)
    ensures
        r == cell_w_of(width as int),
        1 <= r,
{
    let cols: i32 = grid_cols(width);
    let avail: i64 = width as i64 - 16;
    if avail < cols as i64 {
        assert((width as int - 16) / (cols as int) < 1) by (nonlinear_arith)
            requires
                width as int - 16 < cols as int,
                0 < cols,
        ;
        1
    } else {
        let w: i64 = avail / cols as i64;
        assert(1 <= w <= avail) by (nonlinear_arith)
            requires
                w == avail / cols as i64,
                avail >= cols,
                0 < cols,
        ;
        w as i32
    }
}

/// The height of a grid cell.
pub fn cell_h(width: i32) -> (r: i32)
    ensures
        r == cell_h_of(width as int),
        44 <= r <= 120,
{
    let h: i32 = length_on_card(CELL_H as u32, width);
    if h < 44 {
        44
    } else if h > 120 {
        120
    } else {
        h
    }
}

/// The height of a list row.
pub fn row_h(width: i32, show_icons: bool) -> (r: i32)
    ensures
        r == row_h_of(width as int, show_icons),
        1 <= r <= 78,
{
    length_on_card(
        if show_icons {
            26
        } else {
            22
        },
        width,
    )
}

/// The wider the card, the greater its scale, and every length that scales with it.
pub proof fn law_scale_grows_with_width(k: int, a: int, b: int)
    requires
        0 <= k,
        a <= b,
    ensures
        LEAST_SCALE <= scale_of(a) <= scale_of(b) <= MOST_SCALE,
        on_card(k, a) <= on_card(k, b),
{
    if 0 < a {
        lemma_to_single_monotone(a * 0x100_0000, b * 0x100_0000, BASE_W as int);
    }
    let sa = scale_of(a);
    let sb = scale_of(b);
    assert(0 <= k * sa <= k * sb) by (nonlinear_arith)
        requires
            0 <= k,
            0 <= sa <= sb,
    ;
    lemma_to_single_monotone(k * sa, k * sb, 1);
    lemma_to_single_near(k * sa, 1);
}

/// A whole number of pixels scales exactly where the scale is a whole number.
proof fn lemma_whole_scale(k: int, n: int)
    requires
        0 <= k,
        0 <= n,
        k * n < 0x100_0000,
    ensures
        scaled(k, n * 0x100_0000) == k * n,
{
    assert(power_of_two(24) == 0x100_0000) by {
        reveal_with_fuel(power_of_two, 25);
    }
    assert(0 <= k * n) by (nonlinear_arith)
        requires
            0 <= k,
            0 <= n,
    ;
    lemma_to_single_keeps(k * n, 24);
    assert(k * (n * 0x100_0000) == (k * n) * 0x100_0000) by (nonlinear_arith);
    assert((k * n * 0x100_0000) / 0x100_0000 == k * n);
}

/// At the natural width every length has its natural size; from three times that width on, three
/// times its natural size.
pub proof fn law_natural_size(k: int, width: int)
    requires
        0 <= k,
        3 * k < 0x100_0000,
        width == BASE_W || width >= 3 * BASE_W,
    ensures
        width == BASE_W ==> on_card(k, width) == k,
        width >= 3 * BASE_W ==> on_card(k, width) == 3 * k,
{
    reveal_with_fuel(spacing, 4);
    if width == BASE_W {
        assert((260int * 0x100_0000) / 260 == 0x100_0000);
        assert(spacing(0x100_0000) == 2);
        assert(nearest_even(260int * 0x100_0000, 520) == 0x80_0000);
        assert(to_single(260int * 0x100_0000, 260) == 0x100_0000);
        lemma_whole_scale(k, 1);
    } else {
        assert((780int * 0x100_0000) / 260 == 3 * 0x100_0000);
        assert(spacing(3int * 0x100_0000) == 4);
        assert(nearest_even(780int * 0x100_0000, 1040) == 3 * 0x40_0000);
        assert(to_single(780int * 0x100_0000, 260) == 3 * 0x100_0000);
        lemma_to_single_monotone(780int * 0x100_0000, width * 0x100_0000, BASE_W as int);
        lemma_whole_scale(k, 3);
    }
}

/// The columns of a grid fill the card, and leave less than one pixel for each of them.
pub proof fn law_columns_fill_the_card(width: int)
    requires
        width >= 20,
    ensures
        2 <= grid_cols_of(width) <= 10,
        grid_cols_of(width) * cell_w_of(width) <= width - 16,
        width - 16 < grid_cols_of(width) * (cell_w_of(width) + 1),
{
    let n = grid_cols_of(width);
    let w = width - 16;
    vstd::arithmetic::div_mod::lemma_fundamental_div_mod(w, n);
    vstd::arithmetic::div_mod::lemma_mod_bound(w, n);
    assert(1 <= w / n) by (nonlinear_arith)
        requires
            w >= n,
            0 < n,
    ;
    assert(n * (cell_w_of(width) + 1) == n * cell_w_of(width) + n) by (nonlinear_arith);
}

/// The scale is the least one up to a width of 208, and twice the natural one at a width of 520.
pub proof fn lemma_scale_at_bounds()
    ensures
        to_single(208int * 0x100_0000, 260) == LEAST_SCALE,
        to_single(520int * 0x100_0000, 260) == 0x200_0000,
{
    reveal_with_fuel(spacing, 4);
    assert((208int * 0x100_0000) / 260 == 13421772);
    assert(nearest_even(208int * 0x100_0000, 260) == 13421773);
    assert((520int * 0x100_0000) / 260 == 0x200_0000);
    assert(spacing(0x200_0000) == 4);
    assert(nearest_even(520int * 0x100_0000, 1040) == 0x80_0000);
}

/// Between these widths there are five columns.
pub proof fn lemma_five_columns(width: int)
    requires
        208 <= width <= 520,
    ensures
        grid_cols_of(width) == 5,
{
    let v = width * 0x100_0000;
    let s = to_single(v, 260);
    lemma_scale_at_bounds();
    lemma_to_single_monotone(208int * 0x100_0000, v, 260);
    lemma_to_single_monotone(v, 520int * 0x100_0000, 260);
    assert(scale_of(width) == s && s <= 0x200_0000);
    lemma_to_single_near(v, 260);
    lemma_spacing_bounds(v / 260);
    assert(spacing(v / 260) <= 4);
    let t = to_single(48 * s, 1);
    lemma_to_single_near(48 * s, 1);
    lemma_spacing_bounds(48 * s);
    assert((48 * s) / 1 == 48 * s);
    assert(spacing(48 * s) <= 256);
    let cw = wanted_cell_w(width);
    let w = width - 16;
    assert(cw == t / 0x100_0000);
    assert(5 * cw <= w);
    assert(w < 6 * cw);
    assert(w / cw == 5) by {
        vstd::arithmetic::div_mod::lemma_fundamental_div_mod_converse(w, cw, 5, w - 5 * cw);
    }
}

/// A wider card has no fewer columns.
pub proof fn law_wider_cards_have_no_fewer_columns(a: int, b: int)
    requires
        a <= b,
    ensures
        grid_cols_of(a) <= grid_cols_of(b),
{
    lemma_five_columns(208);
    lemma_five_columns(520);
    if b <= 208 {
        lemma_columns_grow_at_one_scale(a, b);
    } else if a >= 520 {
        lemma_columns_grow_at_one_scale(a, b);
    } else {
        if a < 208 {
            lemma_columns_grow_at_one_scale(a, 208);
        } else {
            lemma_five_columns(a);
        }
        if b > 520 {
            lemma_columns_grow_at_one_scale(520, b);
        } else {
            lemma_five_columns(b);
        }
    }
}

/// Where the cells ask for the same width, a wider card has no fewer columns.
proof fn lemma_columns_grow_at_one_scale(a: int, b: int)
    requires
        a <= b,
        b <= 208 || 520 <= a,
    ensures
        grid_cols_of(a) <= grid_cols_of(b),
{
    lemma_scale_at_bounds();
    if b <= 208 {
        if a > 0 {
            lemma_to_single_monotone(a * 0x100_0000, 208int * 0x100_0000, 260);
        }
        if b > 0 {
            lemma_to_single_monotone(b * 0x100_0000, 208int * 0x100_0000, 260);
        }
    } else {
        lemma_to_single_monotone(520int * 0x100_0000, a * 0x100_0000, 260);
        lemma_to_single_monotone(520int * 0x100_0000, b * 0x100_0000, 260);
    }
    let c = wanted_cell_w(a);
    assert(wanted_cell_w(b) == c);
    vstd::arithmetic::div_mod::lemma_div_is_ordered(a - 16, b - 16, c);
}

} // verus!
