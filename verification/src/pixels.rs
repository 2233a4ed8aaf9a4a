//! The shape of the cards on the surface: rounded corners with smooth edges, a bright border, and
//! how much of the desktop shines through.
//!
//! A surface holds four bytes for each pixel, row by row: blue, green, red and the opacity.
use vstd::prelude::*;
use crate::color::{blue, brightened, green, lighten, red, BORDER_LIGHT};
use crate::geometry::{hold, max_of, min_of};
use crate::single::{
    floor_root, integer_root, lemma_floor_root_exists, lemma_root_at_least, lemma_root_at_most,
    lemma_root_of_zero, lemma_roots_are_kept, lemma_signed_single_exact, lemma_signed_single_monotone,
    lemma_spacing_bounds, lemma_to_single_exact, lemma_to_single_keeps, lemma_to_single_monotone,
    lemma_to_single_near, power_of_two, root_single, round_root, round_signed, round_single, signed_single,
    to_single,
};

verus! {

/// The radius of the corners of a card.
pub const CARD_RADIUS: u16 = 12;

/// The width of the border, 0.9, in ticks of `2^-24`.
pub const BORDER_WIDTH: u32 = 15099494;

/// A rectangle by its edges; the right and the lower edge are outside of it.
#[derive(Clone, Copy, Debug, PartialEq, Eq, Structural)]
pub struct Region {
    pub x0: i32,
    pub y0: i32,
    pub x1: i32,
    pub y1: i32,
}

/// The radius of the corners of a rectangle of that size: no more than half of either side.
pub open spec fn corner(r: int, w: int, h: int) -> int {
    hold(r, 0, min_of(w / 2, h / 2))
}

/// Single precision holds the coordinates of the shape in half pixels.
pub open spec fn is_fine(shape: Region) -> bool {
    &&& -0x80_0000 < shape.x0 < 0x80_0000
    &&& -0x80_0000 < shape.y0 < 0x80_0000
    &&& -0x80_0000 < shape.x1 < 0x80_0000
    &&& -0x80_0000 < shape.y1 < 0x80_0000
}

/// The square of a number, and what single precision can round off a sum of two squares that is as
/// great.
pub open spec fn reach(m: int) -> int {
    m * m + (m * m) / 0x20_0000
}

/// `d` is the least number of whole pixels from the centre of a corner to its arc, half a pixel further
/// out than the outline, along a row whose middle lies `dy` pixels, less a half, away from the centre.
pub open spec fn is_arc(d: int, r: int, dy: int) -> bool {
    let room = reach(2 * r + 1) - (2 * dy - 1) * (2 * dy - 1);
    0 <= d && room <= 4 * (d * d) && (d > 0 ==> 4 * ((d - 1) * (d - 1)) < room)
}

/// The number of whole pixels from the centre of a corner to its arc, half a pixel further out than the
/// outline, `dy` rows away from it.
pub open spec fn arc(r: int, dy: int) -> int {
    choose|d: int| is_arc(d, r, dy)
}

/// The columns of row `y` in which a rectangle with rounded corners can be seen, with one column more on
/// either side of an arc. The row is whole where single precision does not hold the coordinates.
pub open spec fn row_span(y: int, shape: Region, radius: int) -> Option<(int, int)> {
    let r = corner(radius, shape.x1 - shape.x0, shape.y1 - shape.y0);
    if y < shape.y0 || y >= shape.y1 || shape.x1 <= shape.x0 {
        None
    } else if r == 0 || shape.y0 + r <= y < shape.y1 - r || !is_fine(shape) {
        Some((shape.x0 as int, shape.x1 as int))
    } else {
        let dy = if y < shape.y0 + r {
            shape.y0 + r - y
        } else {
            y + 1 - (shape.y1 - r)
        };
        Some((shape.x0 + r - arc(r, dy) - 1, shape.x1 - r + arc(r, dy) + 1))
    }
}

/// There is one such number.
proof fn lemma_arc_is_unique(d: int, r: int, dy: int)
    requires
        is_arc(d, r, dy),
    ensures
        arc(r, dy) == d,
{
    let c = arc(r, dy);
    let room = reach(2 * r + 1) - (2 * dy - 1) * (2 * dy - 1);
    assert(is_arc(c, r, dy));
    assert(c == d) by (nonlinear_arith)
        requires
            0 <= c,
            0 <= d,
            room <= 4 * (c * c),
            room <= 4 * (d * d),
            c > 0 ==> 4 * ((c - 1) * (c - 1)) < room,
            d > 0 ==> 4 * ((d - 1) * (d - 1)) < room,
    ;
}

/// The number of whole pixels from the centre of a corner to its arc.
fn arc_at(r: i64, dy: i64) -> (d: i64)
    requires
        0 <= r <= 0x80_0000,
        1 <= dy <= 0x80_0000,
    ensures
        d == arc(r as int, dy as int),
        is_arc(d as int, r as int, dy as int),
        0 <= d <= 0x400_0000,
{
    let a: i64 = 2 * r + 1;
    let b: i64 = 2 * dy - 1;
    assert(0 <= a * a <= 0x100_0001 * 0x100_0001 && 0 <= b * b <= 0x100_0001 * 0x100_0001) by (nonlinear_arith)
        requires
            0 <= a <= 0x100_0001,
            0 <= b <= 0x100_0001,
    ;
    let room: i64 = a * a + (a * a) / 0x20_0000 - b * b;
    if room <= 0 {
        proof {
            lemma_arc_is_unique(0, r as int, dy as int);
        }
        return 0;
    }
    let root: u128 = integer_root((room - 1) as u128);
    proof {
        let ki = root as int;
        assert(ki <= 0x400_0000) by (nonlinear_arith)
            requires
                ki * ki <= room - 1,
                room <= 0x10_0000_0000_0000,
                0 <= ki,
        ;
    }
    let k: i64 = root as i64;
    let d: i64 = (k + 2) / 2;
    proof {
        let ki = k as int;
        let di = d as int;
        assert(room <= 4 * (di * di) && 4 * ((di - 1) * (di - 1)) < room) by (nonlinear_arith)
            requires
                ki * ki <= room - 1 < (ki + 1) * (ki + 1),
                0 <= ki,
                ki + 1 <= 2 * di <= ki + 2,
        ;
        lemma_arc_is_unique(di, r as int, dy as int);
    }
    d
}

/// Whether single precision holds the coordinates of the shape in half pixels.
fn fine(shape: &Region) -> (b: bool)
    ensures
        b == is_fine(*shape),
{
    -0x80_0000 < shape.x0 && shape.x0 < 0x80_0000 && -0x80_0000 < shape.y0 && shape.y0 < 0x80_0000
        && -0x80_0000 < shape.x1 && shape.x1 < 0x80_0000 && -0x80_0000 < shape.y1 && shape.y1 < 0x80_0000
}

/// The columns of row `y` in which a rectangle with rounded corners can be seen.
pub fn rounded_row(y: i32, x0: i32, y0: i32, x1: i32, y1: i32, r: i32) -> (s: Option<(i64, i64)>)
    ensures
        match s {
            Some((a, b)) => row_span(y as int, (Region { x0, y0, x1, y1 }), r as int) == Some(
                (a as int, b as int),
            ),
            None => row_span(y as int, (Region { x0, y0, x1, y1 }), r as int) is None,
        },
{
    if y < y0 || y >= y1 || x1 <= x0 {
        return None;
    }
    let shape: Region = Region { x0, y0, x1, y1 };
    let x0: i64 = x0 as i64;
    let x1: i64 = x1 as i64;
    let y0: i64 = y0 as i64;
    let y1: i64 = y1 as i64;
    let y: i64 = y as i64;
    let hw: i64 = (x1 - x0) / 2;
    let hh: i64 = (y1 - y0) / 2;
    let most: i64 = if hw < hh {
        hw
    } else {
        hh
    };
    let r: i64 = if r < 0 {
        0
    } else if r as i64 > most {
        most
    } else {
        r as i64
    };
    if r == 0 || (y0 + r <= y && y < y1 - r) || !fine(&shape) {
        return Some((x0, x1));
    }
    let dy: i64 = if y < y0 + r {
        y0 + r - y
    } else {
        y + 1 - (y1 - r)
    };
    let d: i64 = arc_at(r, dy) + 1;
    Some((x0 + r - d, x1 - r + d))
}

/// How far the middle of pixel `p` lies beyond the centre of the nearer corner, along one axis of a
/// rectangle from `a` to `b`; in half pixels, and negative before that centre. The radius `r` is in half
/// pixels too.
pub open spec fn overhang(p: int, a: int, b: int, r: int) -> int {
    let lo = signed_single(a);
    let hi = signed_single(b);
    let straight = signed_single(signed_single(hi - lo) - r);
    let q = signed_single(signed_single(2 * signed_single(p) + 1) - signed_single(lo + hi));
    signed_single(
        if q < 0 {
            -q - straight
        } else {
            q - straight
        },
    )
}

/// The signed distance from the middle of a pixel to the outline of a rectangle with rounded corners,
/// in ticks of `2^-24`: negative inside, positive outside. The radius `r` is in half pixels.
pub open spec fn outline_distance(x: int, y: int, shape: Region, r: int) -> int {
    let bx = overhang(x, shape.x0 as int, shape.x1 as int, r);
    let by = overhang(y, shape.y0 as int, shape.y1 as int, r);
    let inner = min_of(max_of(bx, by), 0);
    let cx = max_of(bx, 0);
    let cy = max_of(by, 0);
    let sum = to_single(to_single(cx * cx, 1) + to_single(cy * cy, 1), 1);
    let outer = root_single(sum * 0x4000_0000_0000);
    signed_single(signed_single(inner * 0x80_0000 + outer) - r * 0x80_0000)
}

/// How far a pixel lies beyond the centre of the nearer corner, along one axis.
fn overhang_of(p: i32, a: i32, b: i32, r: i128) -> (d: i128)
    requires
        0 <= r <= 0x1_0000_0000,
    ensures
        d == overhang(p as int, a as int, b as int, r as int),
        -0x8_0000_0000 <= d <= 0x8_0000_0000,
{
    let lo: i128 = round_signed(a as i128);
    let hi: i128 = round_signed(b as i128);
    let straight: i128 = round_signed(round_signed(hi - lo) - r);
    let q: i128 = round_signed(round_signed(2 * round_signed(p as i128) + 1) - round_signed(lo + hi));
    round_signed(
        if q < 0 {
            -q - straight
        } else {
            q - straight
        },
    )
}

/// The signed distance from the middle of a pixel to the outline of a rectangle with rounded corners,
/// in ticks of `2^-24`. The radius `r` is in half pixels.
pub fn rounded_sd(x: i32, y: i32, shape: Region, r: u32) -> (d: i128)
    ensures
        d == outline_distance(x as int, y as int, shape, r as int),
        -0x1000_0000_0000_0000_0000 <= d <= 0x1000_0000_0000_0000_0000,
{
    let bx: i128 = overhang_of(x, shape.x0, shape.x1, r as i128);
    let by: i128 = overhang_of(y, shape.y0, shape.y1, r as i128);
    let inner: i128 = bx.max(by).min(0);
    let cx: u128 = bx.max(0) as u128;
    let cy: u128 = by.max(0) as u128;
    assert(cx * cx <= 0x40_0000_0000_0000_0000 && cy * cy <= 0x40_0000_0000_0000_0000) by (nonlinear_arith)
        requires
            cx <= 0x8_0000_0000,
            cy <= 0x8_0000_0000,
    ;
    let sum: u128 = round_single(round_single(cx * cx, 1) + round_single(cy * cy, 1), 1);
    let outer: i128 = round_root(sum * 0x4000_0000_0000) as i128;
    round_signed(round_signed(inner * 0x80_0000 + outer) - r as i128 * 0x80_0000)
}

/// A pixel of a surface.
#[derive(Clone, Copy, Debug, PartialEq, Eq, Structural)]
pub struct Pixel {
    pub blue: u8,
    pub green: u8,
    pub red: u8,
    pub alpha: u8,
}

/// The opacity of the border.
pub open spec fn border_alpha(alpha: int) -> int {
    min_of(alpha + 45, 255)
}

/// How much of a pixel at that distance from the outline is covered, in ticks of `2^-24`.
pub open spec fn coverage(sd: int) -> int {
    hold(signed_single(0x80_0000 - sd), 0, 0x100_0000)
}

/// A pixel at that distance from the outline of a card: inside it keeps its colour and gets the
/// opacity of the card, at the border it gets the colour of the border and fades out.
pub open spec fn shaded(p: Pixel, sd: int, bg: int, alpha: int) -> Pixel {
    if sd < -BORDER_WIDTH {
        Pixel { alpha: alpha as u8, ..p }
    } else {
        Pixel {
            blue: brightened(blue(bg), BORDER_LIGHT as int) as u8,
            green: brightened(green(bg), BORDER_LIGHT as int) as u8,
            red: brightened(red(bg), BORDER_LIGHT as int) as u8,
            alpha: (to_single(border_alpha(alpha) * coverage(sd), 1) / 0x100_0000) as u8,
        }
    }
}

/// The opacity of a pixel at that distance from the outline, at the border.
fn border_alpha_at(sd: i128, alpha: u8) -> (r: u8)
    requires
        -0x1000_0000_0000_0000_0000 <= sd <= 0x1000_0000_0000_0000_0000,
    ensures
        r == to_single(border_alpha(alpha as int) * coverage(sd as int), 1) / 0x100_0000,
{
    let ba: u128 = if alpha > 210 {
        255
    } else {
        alpha as u128 + 45
    };
    let c: i128 = round_signed(0x80_0000 - sd);
    let cov: u128 = if c < 0 {
        0
    } else if c > 0x100_0000 {
        0x100_0000
    } else {
        c as u128
    };
    assert(0 <= ba * cov <= 255 * 0x100_0000) by (nonlinear_arith)
        requires
            0 <= ba <= 255,
            0 <= cov <= 0x100_0000,
    ;
    proof {
        lemma_to_single_monotone(ba * cov, 255int * 0x100_0000, 1);
        lemma_to_single_keeps(255, 24);
        reveal_with_fuel(power_of_two, 25);
    }
    (round_single(ba * cov, 1) / 0x100_0000) as u8
}

/// A rectangle: left, top, width and height.
#[derive(Clone, Copy, Debug, PartialEq, Eq, Structural)]
pub struct Rect {
    pub x: i32,
    pub y: i32,
    pub width: i32,
    pub height: i32,
}

/// How cards look: the colour `0xRRGGBB` of their ground, their opacity, the radius of their corners.
#[derive(Clone, Copy, Debug, PartialEq, Eq, Structural)]
pub struct Look {
    pub bg: u32,
    pub alpha: u8,
    pub radius: u16,
}

/// A point lies in a region.
pub open spec fn in_region(g: Region, x: int, y: int) -> bool {
    g.x0 <= x < g.x1 && g.y0 <= y < g.y1
}

/// A point lies in one of the first `n` regions.
pub open spec fn in_regions(gs: Seq<Region>, n: int, x: int, y: int) -> bool {
    exists|j: int| 0 <= j < n && #[trigger] in_region(gs[j], x, y)
}

/// What a surface shows of a rectangle; nothing where it lies beside the surface.
pub open spec fn clipped(rect: Rect, w: int, h: int) -> Option<Region> {
    let x0 = max_of(rect.x as int, 0);
    let y0 = max_of(rect.y as int, 0);
    let x1 = min_of(rect.x + rect.width, w);
    let y1 = min_of(rect.y + rect.height, h);
    if x1 <= x0 || y1 <= y0 {
        None
    } else {
        Some(Region { x0: x0 as i32, y0: y0 as i32, x1: x1 as i32, y1: y1 as i32 })
    }
}

/// The radius of the corners of a shape, in half pixels: no more than half of either side.
pub open spec fn half_radius(shape: Region, radius: int) -> int {
    min_of(
        2 * radius,
        min_of(to_single(shape.x1 - shape.x0, 1), to_single(shape.y1 - shape.y0, 1)),
    )
}

/// A pixel is one that a shape with rounded corners can touch.
pub open spec fn in_shape(shape: Region, radius: int, x: int, y: int) -> bool {
    in_region(shape, x, y) && match row_span(y, shape, half_radius(shape, radius) / 2) {
        Some((a, b)) => a <= x < b,
        None => false,
    }
}

/// A pixel of a surface of width `w`.
pub open spec fn pixel_at(data: Seq<u8>, w: int, x: int, y: int) -> Pixel {
    let o = (y * w + x) * 4;
    Pixel { blue: data[o], green: data[o + 1], red: data[o + 2], alpha: data[o + 3] }
}

/// A pixel after a shape was laid over it.
pub open spec fn shade_at(p: Pixel, x: int, y: int, shape: Region, look: Look) -> Pixel {
    shaded(
        p,
        outline_distance(x, y, shape, half_radius(shape, look.radius as int)),
        look.bg as int,
        look.alpha as int,
    )
}

/// A pixel after the first `n` rectangles were laid over it, one after the other, within the regions.
pub open spec fn pixel_after(
    p: Pixel,
    rects: Seq<Rect>,
    n: int,
    damage: Seq<Region>,
    look: Look,
    w: int,
    h: int,
    x: int,
    y: int,
) -> Pixel
    decreases n,
{
    if n <= 0 {
        p
    } else {
        let before = pixel_after(p, rects, n - 1, damage, look, w, h, x, y);
        match clipped(rects[n - 1], w, h) {
            Some(shape) => if in_shape(shape, look.radius as int, x, y) && in_regions(
                damage,
                damage.len() as int,
                x,
                y,
            ) {
                shade_at(before, x, y, shape, look)
            } else {
                before
            },
            None => before,
        }
    }
}

/// Different pixels of a surface are stored in different places, all of them within the surface.
proof fn lemma_pixels_are_apart(w: int, h: int, x: int, y: int)
    requires
        0 <= x < w,
        0 <= y < h,
    ensures
        0 <= y * w,
        0 <= (y * w + x) * 4,
        (y * w + x) * 4 + 4 <= 4 * (w * h),
        forall|a: int, b: int|
            0 <= a < w && 0 <= b < h && !(a == x && b == y) ==> #[trigger] (b * w + a) != y * w + x,
{
    assert(0 <= y * w && y * w + w <= w * h) by (nonlinear_arith)
        requires
            0 <= y < h,
            0 < w,
    ;
    assert forall|a: int, b: int| 0 <= a < w && 0 <= b < h && !(a == x && b == y) implies #[trigger] (b * w
        + a) != y * w + x by {
        if b < y {
            assert(b * w + w <= y * w) by (nonlinear_arith)
                requires
                    b < y,
                    0 < w,
            ;
        } else if b > y {
            assert(y * w + w <= b * w) by (nonlinear_arith)
                requires
                    y < b,
                    0 < w,
            ;
        }
    }
}

/// Lays a shape over one pixel.
fn blend_pixel(data: &mut [u8], w: i32, h: i32, x: i32, y: i32, shape: Region, r: u32, look: Look)
    requires
        old(data)@.len() == 4 * (w * h),
        0 <= x < w,
        0 <= y < h,
        r == half_radius(shape, look.radius as int),
    ensures
        final(data)@.len() == old(data)@.len(),
        forall|a: int, b: int|
            0 <= a < w && 0 <= b < h ==> #[trigger] pixel_at(final(data)@, w as int, a, b) == if a == x && b
                == y {
                shade_at(pixel_at(old(data)@, w as int, a, b), a, b, shape, look)
            } else {
                pixel_at(old(data)@, w as int, a, b)
            },
{
    proof {
        lemma_pixels_are_apart(w as int, h as int, x as int, y as int);
    }
    let size: usize = data.len();
    assert(size == 4 * (w * h));
    let o: usize = (y as usize * w as usize + x as usize) * 4;
    let sd: i128 = rounded_sd(x, y, shape, r);
    if sd < -(BORDER_WIDTH as i128) {
        data[o + 3] = look.alpha;
    } else {
        let (red, green, blue) = lighten(look.bg, BORDER_LIGHT);
        data[o] = blue;
        data[o + 1] = green;
        data[o + 2] = red;
        data[o + 3] = border_alpha_at(sd, look.alpha);
    }
    proof {
        assert forall|a: int, b: int| 0 <= a < w && 0 <= b < h implies #[trigger] pixel_at(
            data@,
            w as int,
            a,
            b,
        ) == if a == x && b == y {
            shade_at(pixel_at(old(data)@, w as int, a, b), a, b, shape, look)
        } else {
            pixel_at(old(data)@, w as int, a, b)
        } by {
            lemma_pixels_are_apart(w as int, h as int, a, b);
            if !(a == x && b == y) {
                assert(b * w + a != y * w + x);
            }
        }
    }
}

/// Lays a shape over the pixels from `xs` up to `xe` of a row.
fn blend_span(data: &mut [u8], w: i32, h: i32, y: i32, xs: i32, xe: i32, shape: Region, r: u32, look: Look)
    requires
        old(data)@.len() == 4 * (w * h),
        0 <= xs,
        xe <= w,
        0 <= y < h,
        r == half_radius(shape, look.radius as int),
    ensures
        final(data)@.len() == old(data)@.len(),
        forall|a: int, b: int|
            0 <= a < w && 0 <= b < h ==> #[trigger] pixel_at(final(data)@, w as int, a, b) == if b == y && xs
                <= a < xe {
                shade_at(pixel_at(old(data)@, w as int, a, b), a, b, shape, look)
            } else {
                pixel_at(old(data)@, w as int, a, b)
            },
{
    let mut x: i32 = xs;
    while x < xe
        invariant
            data@.len() == old(data)@.len(),
            old(data)@.len() == 4 * (w * h),
            0 <= xs <= x,
            x <= xe || x == xs,
            xe <= w,
            0 <= y < h,
            r == half_radius(shape, look.radius as int),
            forall|a: int, b: int|
                0 <= a < w && 0 <= b < h ==> #[trigger] pixel_at(data@, w as int, a, b) == if b == y && xs <= a
                    < x {
                    shade_at(pixel_at(old(data)@, w as int, a, b), a, b, shape, look)
                } else {
                    pixel_at(old(data)@, w as int, a, b)
                },
        decreases xe - x,
    {
        blend_pixel(data, w, h, x, y, shape, r, look);
        x += 1;
    }
}

/// Lays a shape over the pixels of a region.
fn blend_region(data: &mut [u8], w: i32, h: i32, region: Region, shape: Region, r: u32, look: Look)
    requires
        old(data)@.len() == 4 * (w * h),
        0 <= shape.x0,
        shape.x1 <= w,
        0 <= shape.y0,
        shape.y1 <= h,
        r == half_radius(shape, look.radius as int),
        r <= 0x2_0000,
    ensures
        final(data)@.len() == old(data)@.len(),
        forall|a: int, b: int|
            0 <= a < w && 0 <= b < h ==> #[trigger] pixel_at(final(data)@, w as int, a, b) == if in_shape(
                shape,
                look.radius as int,
                a,
                b,
            ) && in_region(region, a, b) {
                shade_at(pixel_at(old(data)@, w as int, a, b), a, b, shape, look)
            } else {
                pixel_at(old(data)@, w as int, a, b)
            },
{
    let rx0: i32 = shape.x0.max(region.x0);
    let ry0: i32 = shape.y0.max(region.y0);
    let rx1: i32 = shape.x1.min(region.x1);
    let ry1: i32 = shape.y1.min(region.y1);
    if rx1 <= rx0 || ry1 <= ry0 {
        return;
    }
    let mut y: i32 = ry0;
    while y < ry1
        invariant
            data@.len() == old(data)@.len(),
            old(data)@.len() == 4 * (w * h),
            0 <= shape.x0,
            shape.x1 <= w,
            0 <= shape.y0,
            shape.y1 <= h,
            r == half_radius(shape, look.radius as int),
            rx0 == max_of(shape.x0 as int, region.x0 as int),
            ry0 == max_of(shape.y0 as int, region.y0 as int),
            rx1 == min_of(shape.x1 as int, region.x1 as int),
            ry1 == min_of(shape.y1 as int, region.y1 as int),
            rx0 < rx1,
            r <= 0x2_0000,
            ry0 <= y <= ry1,
            forall|a: int, b: int|
                0 <= a < w && 0 <= b < h ==> #[trigger] pixel_at(data@, w as int, a, b) == if in_shape(
                    shape,
                    look.radius as int,
                    a,
                    b,
                ) && in_region(region, a, b) && b < y {
                    shade_at(pixel_at(old(data)@, w as int, a, b), a, b, shape, look)
                } else {
                    pixel_at(old(data)@, w as int, a, b)
                },
        decreases ry1 - y,
    {
        match rounded_row(y, shape.x0, shape.y0, shape.x1, shape.y1, (r / 2) as i32) {
            Some((a, b)) => {
                let xs: i32 = if a > rx0 as i64 {
                    if a > rx1 as i64 {
                        rx1
                    } else {
                        a as i32
                    }
                } else {
                    rx0
                };
                let xe: i32 = if b < rx1 as i64 {
                    if b < rx0 as i64 {
                        rx0
                    } else {
                        b as i32
                    }
                } else {
                    rx1
                };
                blend_span(data, w, h, y, xs, xe, shape, r, look);
            },
            None => {},
        }
        y += 1;
    }
}

/// Lays a rectangle over a surface, within the regions.
fn blend_rect(data: &mut [u8], w: i32, h: i32, rect: Rect, damage: &[Region], look: Look)
    requires
        old(data)@.len() == 4 * (w * h),
    ensures
        final(data)@.len() == old(data)@.len(),
        forall|a: int, b: int|
            0 <= a < w && 0 <= b < h ==> #[trigger] pixel_at(final(data)@, w as int, a, b) == match clipped(
                rect,
                w as int,
                h as int,
            ) {
                Some(shape) => if in_shape(shape, look.radius as int, a, b) && in_regions(
                    damage@,
                    damage@.len() as int,
                    a,
                    b,
                ) {
                    shade_at(pixel_at(old(data)@, w as int, a, b), a, b, shape, look)
                } else {
                    pixel_at(old(data)@, w as int, a, b)
                },
                None => pixel_at(old(data)@, w as int, a, b),
            },
{
    let x0: i32 = rect.x.max(0);
    let y0: i32 = rect.y.max(0);
    let x1: i64 = (rect.x as i64 + rect.width as i64).min(w as i64);
    let y1: i64 = (rect.y as i64 + rect.height as i64).min(h as i64);
    if x1 <= x0 as i64 || y1 <= y0 as i64 {
        return;
    }
    let shape: Region = Region { x0, y0, x1: x1 as i32, y1: y1 as i32 };
    let across: u128 = round_single((x1 - x0 as i64) as u128, 1);
    let down: u128 = round_single((y1 - y0 as i64) as u128, 1);
    let twice: u128 = 2 * look.radius as u128;
    let r: u32 = twice.min(across.min(down)) as u32;
    assert(r == half_radius(shape, look.radius as int));
    let n: usize = damage.len();
    let mut j: usize = 0;
    while j < n
        invariant
            data@.len() == old(data)@.len(),
            old(data)@.len() == 4 * (w * h),
            clipped(rect, w as int, h as int) == Some(shape),
            0 <= shape.x0,
            shape.x1 <= w,
            0 <= shape.y0,
            shape.y1 <= h,
            r == half_radius(shape, look.radius as int),
            r <= 0x2_0000,
            j <= n,
            n == damage@.len(),
            forall|a: int, b: int|
                0 <= a < w && 0 <= b < h ==> #[trigger] pixel_at(data@, w as int, a, b) == if in_shape(
                    shape,
                    look.radius as int,
                    a,
                    b,
                ) && in_regions(damage@, j as int, a, b) {
                    shade_at(pixel_at(old(data)@, w as int, a, b), a, b, shape, look)
                } else {
                    pixel_at(old(data)@, w as int, a, b)
                },
        decreases n - j,
    {
        blend_region(data, w, h, damage[j], shape, r, look);
        proof {
            assert forall|a: int, b: int| #[trigger] in_regions(damage@, j + 1, a, b) == (in_regions(
                damage@,
                j as int,
                a,
                b,
            ) || in_region(damage@[j as int], a, b)) by {}
        }
        j += 1;
    }
}

/// Lays rectangles over a surface of width `w` and height `h`, one after the other, within the
/// regions: a later one covers an earlier one.
pub fn blend_cards(data: &mut [u8], w: i32, h: i32, rects: &[Rect], damage: &[Region], look: Look)
    requires
        old(data)@.len() == 4 * (w * h),
    ensures
        final(data)@.len() == old(data)@.len(),
        forall|x: int, y: int|
            0 <= x < w && 0 <= y < h ==> #[trigger] pixel_at(final(data)@, w as int, x, y) == pixel_after(
                pixel_at(old(data)@, w as int, x, y),
                rects@,
                rects@.len() as int,
                damage@,
                look,
                w as int,
                h as int,
                x,
                y,
            ),
{
    let n: usize = rects.len();
    let mut i: usize = 0;
    while i < n
        invariant
            data@.len() == old(data)@.len(),
            old(data)@.len() == 4 * (w * h),
            i <= n,
            n == rects@.len(),
            forall|x: int, y: int|
                0 <= x < w && 0 <= y < h ==> #[trigger] pixel_at(data@, w as int, x, y) == pixel_after(
                    pixel_at(old(data)@, w as int, x, y),
                    rects@,
                    i as int,
                    damage@,
                    look,
                    w as int,
                    h as int,
                    x,
                    y,
                ),
        decreases n - i,
    {
        blend_rect(data, w, h, rects[i], damage, look);
        i += 1;
    }
}

/// A pixel through which the desktop shows as it is.
pub open spec fn clear_pixel() -> Pixel {
    Pixel { blue: 0, green: 0, red: 0, alpha: 0 }
}

/// Clears one pixel.
fn clear_at(data: &mut [u8], w: i32, h: i32, x: i32, y: i32)
    requires
        old(data)@.len() == 4 * (w * h),
        0 <= x < w,
        0 <= y < h,
    ensures
        final(data)@.len() == old(data)@.len(),
        forall|a: int, b: int|
            0 <= a < w && 0 <= b < h ==> #[trigger] pixel_at(final(data)@, w as int, a, b) == if a == x && b
                == y {
                clear_pixel()
            } else {
                pixel_at(old(data)@, w as int, a, b)
            },
{
    proof {
        lemma_pixels_are_apart(w as int, h as int, x as int, y as int);
    }
    let size: usize = data.len();
    assert(size == 4 * (w * h));
    let o: usize = (y as usize * w as usize + x as usize) * 4;
    data[o] = 0;
    data[o + 1] = 0;
    data[o + 2] = 0;
    data[o + 3] = 0;
    proof {
        assert forall|a: int, b: int| 0 <= a < w && 0 <= b < h implies #[trigger] pixel_at(
            data@,
            w as int,
            a,
            b,
        ) == if a == x && b == y {
            clear_pixel()
        } else {
            pixel_at(old(data)@, w as int, a, b)
        } by {
            lemma_pixels_are_apart(w as int, h as int, a, b);
            if !(a == x && b == y) {
                assert(b * w + a != y * w + x);
            }
        }
    }
}

/// Clears a region.
fn clear_region(data: &mut [u8], w: i32, h: i32, g: Region)
    requires
        old(data)@.len() == 4 * (w * h),
    ensures
        final(data)@.len() == old(data)@.len(),
        forall|a: int, b: int|
            0 <= a < w && 0 <= b < h ==> #[trigger] pixel_at(final(data)@, w as int, a, b) == if in_region(
                g,
                a,
                b,
            ) {
                clear_pixel()
            } else {
                pixel_at(old(data)@, w as int, a, b)
            },
{
    let x0: i32 = g.x0.max(0);
    let y0: i32 = g.y0.max(0);
    let x1: i32 = g.x1.min(w);
    let y1: i32 = g.y1.min(h);
    let mut y: i32 = y0;
    while y < y1
        invariant
            data@.len() == old(data)@.len(),
            old(data)@.len() == 4 * (w * h),
            x0 == max_of(g.x0 as int, 0),
            y0 == max_of(g.y0 as int, 0),
            x1 == min_of(g.x1 as int, w as int),
            y1 == min_of(g.y1 as int, h as int),
            y0 <= y,
            forall|a: int, b: int|
                0 <= a < w && 0 <= b < h ==> #[trigger] pixel_at(data@, w as int, a, b) == if in_region(g, a, b)
                    && b < y {
                    clear_pixel()
                } else {
                    pixel_at(old(data)@, w as int, a, b)
                },
        decreases y1 - y,
    {
        let mut x: i32 = x0;
        while x < x1
            invariant
                data@.len() == old(data)@.len(),
                old(data)@.len() == 4 * (w * h),
                x0 == max_of(g.x0 as int, 0),
                y0 == max_of(g.y0 as int, 0),
                x1 == min_of(g.x1 as int, w as int),
                y1 == min_of(g.y1 as int, h as int),
                y0 <= y < y1,
                x0 <= x,
                forall|a: int, b: int|
                    0 <= a < w && 0 <= b < h ==> #[trigger] pixel_at(data@, w as int, a, b) == if in_region(
                        g,
                        a,
                        b,
                    ) && (b < y || (b == y && a < x)) {
                        clear_pixel()
                    } else {
                        pixel_at(old(data)@, w as int, a, b)
                    },
            decreases x1 - x,
        {
            clear_at(data, w, h, x, y);
            x += 1;
        }
        y += 1;
    }
}

/// Clears the regions of a surface of width `w` and height `h`.
pub fn clear_regions(data: &mut [u8], w: i32, h: i32, regions: &[Region])
    requires
        old(data)@.len() == 4 * (w * h),
    ensures
        final(data)@.len() == old(data)@.len(),
        forall|x: int, y: int|
            0 <= x < w && 0 <= y < h ==> #[trigger] pixel_at(final(data)@, w as int, x, y) == if in_regions(
                regions@,
                regions@.len() as int,
                x,
                y,
            ) {
                clear_pixel()
            } else {
                pixel_at(old(data)@, w as int, x, y)
            },
{
    let n: usize = regions.len();
    let mut j: usize = 0;
    while j < n
        invariant
            data@.len() == old(data)@.len(),
            old(data)@.len() == 4 * (w * h),
            j <= n,
            n == regions@.len(),
            forall|x: int, y: int|
                0 <= x < w && 0 <= y < h ==> #[trigger] pixel_at(data@, w as int, x, y) == if in_regions(
                    regions@,
                    j as int,
                    x,
                    y,
                ) {
                    clear_pixel()
                } else {
                    pixel_at(old(data)@, w as int, x, y)
                },
        decreases n - j,
    {
        clear_region(data, w, h, regions[j]);
        proof {
            assert forall|x: int, y: int| #[trigger] in_regions(regions@, j + 1, x, y) == (in_regions(
                regions@,
                j as int,
                x,
                y,
            ) || in_region(regions@[j as int], x, y)) by {}
        }
        j += 1;
    }
}

/// A pixel outside of all regions, or outside of all rectangles, keeps what it holds.
pub proof fn law_blending_stays_within(
    p: Pixel,
    rects: Seq<Rect>,
    n: int,
    damage: Seq<Region>,
    look: Look,
    w: int,
    h: int,
    x: int,
    y: int,
)
    requires
        0 <= n <= rects.len(),
        !in_regions(damage, damage.len() as int, x, y) || forall|i: int|
            0 <= i < n ==> match #[trigger] clipped(rects[i], w, h) {
                Some(shape) => !in_region(shape, x, y),
                None => true,
            },
    ensures
        pixel_after(p, rects, n, damage, look, w, h, x, y) == p,
    decreases n,
{
    if n > 0 {
        law_blending_stays_within(p, rects, n - 1, damage, look, w, h, x, y);
        let c = clipped(rects[n - 1], w, h);
    }
}

/// Within the damage, to blend only there gives each pixel what it gets when all of the screen is
/// blended.
pub proof fn law_damage_is_blended_as_the_whole(
    p: Pixel,
    rects: Seq<Rect>,
    n: int,
    damage: Seq<Region>,
    look: Look,
    w: i32,
    h: i32,
    x: int,
    y: int,
)
    requires
        0 <= n <= rects.len(),
        0 <= x < w,
        0 <= y < h,
        in_regions(damage, damage.len() as int, x, y),
    ensures
        pixel_after(p, rects, n, damage, look, w as int, h as int, x, y) == pixel_after(
            p,
            rects,
            n,
            seq![Region { x0: 0, y0: 0, x1: w, y1: h }],
            look,
            w as int,
            h as int,
            x,
            y,
        ),
    decreases n,
{
    if n > 0 {
        law_damage_is_blended_as_the_whole(p, rects, n - 1, damage, look, w, h, x, y);
        let whole = seq![Region { x0: 0, y0: 0, x1: w, y1: h }];
        assert(in_region(whole[0], x, y));
        assert(in_regions(whole, whole.len() as int, x, y));
    }
}

/// To lay a shape over a pixel twice is to lay it over once.
pub proof fn law_shading_twice_is_shading_once(p: Pixel, x: int, y: int, shape: Region, look: Look)
    ensures
        shade_at(shade_at(p, x, y, shape, look), x, y, shape, look) == shade_at(p, x, y, shape, look),
{
}

/// A border is at most as opaque as it may be, and at least as opaque the closer it is to the inside.
pub proof fn law_borders_fade_outwards(p: Pixel, a: int, b: int, bg: int, alpha: u8)
    requires
        -BORDER_WIDTH <= a <= b,
    ensures
        shaded(p, b, bg, alpha as int).alpha <= shaded(p, a, bg, alpha as int).alpha <= border_alpha(
            alpha as int,
        ),
{
    let ba = border_alpha(alpha as int);
    lemma_signed_single_monotone(0x80_0000 - b, 0x80_0000 - a);
    let ca = coverage(a);
    let cb = coverage(b);
    assert(0 <= ba * cb <= ba * ca <= ba * 0x100_0000) by (nonlinear_arith)
        requires
            0 <= cb <= ca <= 0x100_0000,
            0 <= ba,
    ;
    lemma_to_single_monotone(ba * cb, ba * ca, 1);
    lemma_to_single_monotone(ba * ca, ba * 0x100_0000, 1);
    lemma_to_single_monotone(0, ba * cb, 1);
    lemma_to_single_exact(0);
    lemma_to_single_keeps(ba, 24);
    reveal_with_fuel(power_of_two, 25);
}

/// A surface does not show a pixel of a rectangle.
pub open spec fn is_beside(rect: Rect, w: int, h: int, x: int, y: int) -> bool {
    match clipped(rect, w, h) {
        Some(shape) => !in_region(shape, x, y),
        None => true,
    }
}

/// To move a rectangle changes no pixel beside both its places.
pub proof fn law_moving_changes_only_its_places(
    p: Pixel,
    rects: Seq<Rect>,
    k: int,
    to: Rect,
    n: int,
    damage: Seq<Region>,
    look: Look,
    w: int,
    h: int,
    x: int,
    y: int,
)
    requires
        0 <= k < rects.len(),
        0 <= n <= rects.len(),
        is_beside(rects[k], w, h, x, y),
        is_beside(to, w, h, x, y),
    ensures
        pixel_after(p, rects, n, damage, look, w, h, x, y) == pixel_after(
            p,
            rects.update(k, to),
            n,
            damage,
            look,
            w,
            h,
            x,
            y,
        ),
    decreases n,
{
    if n > 0 {
        law_moving_changes_only_its_places(p, rects, k, to, n - 1, damage, look, w, h, x, y);
        if n - 1 != k {
            assert(rects.update(k, to)[n - 1] == rects[n - 1]);
        }
    }
}

/// Rectangles that agree up to the `n`-th give the same pixel up to there.
proof fn lemma_same_rects_same_pixel(
    p: Pixel,
    a: Seq<Rect>,
    b: Seq<Rect>,
    n: int,
    damage: Seq<Region>,
    look: Look,
    w: int,
    h: int,
    x: int,
    y: int,
)
    requires
        0 <= n <= a.len(),
        n <= b.len(),
        forall|i: int| 0 <= i < n ==> a[i] == b[i],
    ensures
        pixel_after(p, a, n, damage, look, w, h, x, y) == pixel_after(p, b, n, damage, look, w, h, x, y),
    decreases n,
{
    if n > 0 {
        lemma_same_rects_same_pixel(p, a, b, n - 1, damage, look, w, h, x, y);
    }
}

/// To raise a rectangle above the others changes no pixel beside it.
pub proof fn law_raising_changes_only_its_place(
    p: Pixel,
    rects: Seq<Rect>,
    k: int,
    damage: Seq<Region>,
    look: Look,
    w: int,
    h: int,
    x: int,
    y: int,
)
    requires
        0 <= k < rects.len(),
        is_beside(rects[k], w, h, x, y),
    ensures
        pixel_after(p, rects, rects.len() as int, damage, look, w, h, x, y) == pixel_after(
            p,
            rects.remove(k).push(rects[k]),
            rects.len() as int,
            damage,
            look,
            w,
            h,
            x,
            y,
        ),
{
    let n = rects.len() as int;
    let rest = rects.remove(k);
    let up = rest.push(rects[k]);
    lemma_without_one(p, rects, k, n, damage, look, w, h, x, y);
    assert(up[n - 1] == rects[k]);
    lemma_same_rects_same_pixel(p, up, rest, n - 1, damage, look, w, h, x, y);
}

/// Without a rectangle, the pixels beside it are what they were.
proof fn lemma_without_one(
    p: Pixel,
    rects: Seq<Rect>,
    k: int,
    n: int,
    damage: Seq<Region>,
    look: Look,
    w: int,
    h: int,
    x: int,
    y: int,
)
    requires
        0 <= k < n <= rects.len(),
        is_beside(rects[k], w, h, x, y),
    ensures
        pixel_after(p, rects, n, damage, look, w, h, x, y) == pixel_after(
            p,
            rects.remove(k),
            n - 1,
            damage,
            look,
            w,
            h,
            x,
            y,
        ),
    decreases n,
{
    let rest = rects.remove(k);
    if n - 1 == k {
        lemma_same_rects_same_pixel(p, rects, rest, k, damage, look, w, h, x, y);
    } else {
        lemma_without_one(p, rects, k, n - 1, damage, look, w, h, x, y);
        assert(rest[n - 2] == rects[n - 1]);
    }
}

/// Beyond the centre of no corner, the distance is measured to the nearest edge.
proof fn lemma_distance_before_corners(x: int, y: int, shape: Region, r: int)
    requires
        overhang(x, shape.x0 as int, shape.x1 as int, r) <= 0,
        overhang(y, shape.y0 as int, shape.y1 as int, r) <= 0,
    ensures
        ({
            let b = max_of(
                overhang(x, shape.x0 as int, shape.x1 as int, r),
                overhang(y, shape.y0 as int, shape.y1 as int, r),
            );
            outline_distance(x, y, shape, r) == signed_single(signed_single(b * 0x80_0000) - r * 0x80_0000)
        }),
{
    lemma_to_single_exact(0);
    lemma_root_of_zero();
    assert(0int * 0int == 0);
    let cx = max_of(overhang(x, shape.x0 as int, shape.x1 as int, r), 0);
    let cy = max_of(overhang(y, shape.y0 as int, shape.y1 as int, r), 0);
    assert(cx * cx == 0 && cy * cy == 0) by (nonlinear_arith)
        requires
            cx == 0,
            cy == 0,
    ;
}

/// Where single precision holds the coordinates, the overhang is exact.
proof fn lemma_overhang_is_exact(p: int, a: int, b: int, r: int)
    requires
        -0x80_0000 < a <= b < 0x80_0000,
        -0x80_0000 <= p < 0x80_0000,
        a <= p < b || (-0x20_0000 <= a && b <= 0x20_0000 && -0x20_0000 <= p <= 0x20_0000),
        0 <= r <= b - a || 0 <= r <= 2001,
    ensures
        ({
            let q = 2 * p + 1 - (a + b);
            overhang(p, a, b, r) == if q < 0 {
                -q - (b - a - r)
            } else {
                q - (b - a - r)
            }
        }),
{
    let q = 2 * p + 1 - (a + b);
    lemma_signed_single_exact(a);
    lemma_signed_single_exact(b);
    lemma_signed_single_exact(p);
    lemma_signed_single_exact(2 * p + 1);
    lemma_signed_single_exact(b - a);
    lemma_signed_single_exact(b - a - r);
    lemma_signed_single_exact(a + b);
    lemma_signed_single_exact(q);
    lemma_signed_single_exact(
        if q < 0 {
            -q - (b - a - r)
        } else {
            q - (b - a - r)
        },
    );
}

/// The coordinates of the shape are so small that single precision holds every distance to a pixel with
/// coordinates as small.
pub open spec fn is_small(shape: Region) -> bool {
    &&& -0x20_0000 <= shape.x0 <= 0x20_0000
    &&& -0x20_0000 <= shape.y0 <= 0x20_0000
    &&& -0x20_0000 <= shape.x1 <= 0x20_0000
    &&& -0x20_0000 <= shape.y1 <= 0x20_0000
}

/// The middle of a pixel lies inside of a rectangle with rounded corners: before the centres of the
/// corners along both axes, or nearer to the centre of a corner than its radius. All lengths are in half
/// pixels.
pub open spec fn is_inside(u: int, v: int, r: int) -> bool {
    max_of(u, v) < 0 || max_of(u, 0) * max_of(u, 0) + max_of(v, 0) * max_of(v, 0) < r * r
}

/// The middle of a pixel lies on the outline of a rectangle with rounded corners.
pub open spec fn is_on_outline(u: int, v: int, r: int) -> bool {
    max_of(u, v) >= 0 && max_of(u, 0) * max_of(u, 0) + max_of(v, 0) * max_of(v, 0) == r * r
}

/// The sum of two squares, in single precision, compares to a small square as it does exactly.
proof fn lemma_squares_compare(cx: int, cy: int, m: int)
    requires
        0 <= cx,
        0 <= cy,
        0 <= m <= 2002,
    ensures
        ({
            let sum = to_single(to_single(cx * cx, 1) + to_single(cy * cy, 1), 1);
            &&& cx * cx + cy * cy < m * m ==> sum == cx * cx + cy * cy
            &&& cx * cx + cy * cy >= m * m ==> sum >= m * m
            &&& cx * cx + cy * cy > m * m ==> sum > m * m
        }),
{
    let a = cx * cx;
    let b = cy * cy;
    let t = m * m;
    assert(0 <= a && 0 <= b && 0 <= t <= 2002 * 2002) by (nonlinear_arith)
        requires
            a == cx * cx,
            b == cy * cy,
            t == m * m,
            0 <= m <= 2002,
    ;
    let ra = to_single(a, 1);
    let rb = to_single(b, 1);
    lemma_to_single_monotone(0, a, 1);
    lemma_to_single_monotone(0, b, 1);
    lemma_to_single_exact(0);
    lemma_to_single_exact(t);
    lemma_to_single_exact(t + 1);
    if a <= t && b <= t {
        lemma_to_single_exact(a);
        lemma_to_single_exact(b);
        lemma_to_single_exact(a + b);
    } else {
        // One of them alone is greater.
        if a > t {
            lemma_to_single_monotone(t + 1, a, 1);
        } else {
            lemma_to_single_monotone(t + 1, b, 1);
        }
        lemma_to_single_monotone(t + 1, ra + rb, 1);
    }
}

/// The signed distance is negative inside of a rectangle with rounded corners, zero on its outline and
/// positive outside, for coordinates and a radius that are small enough for the root not to be rounded to
/// the radius.
pub proof fn law_distance_tells_inside_from_outside(x: int, y: int, shape: Region, r: int)
    requires
        shape.x0 <= shape.x1,
        shape.y0 <= shape.y1,
        0 <= r <= 1000,
        is_small(shape),
        -0x20_0000 <= x <= 0x20_0000,
        -0x20_0000 <= y <= 0x20_0000,
    ensures
        ({
            let qx = 2 * x + 1 - (shape.x0 + shape.x1);
            let qy = 2 * y + 1 - (shape.y0 + shape.y1);
            let u = max_of(qx, -qx) - (shape.x1 - shape.x0 - 2 * r);
            let v = max_of(qy, -qy) - (shape.y1 - shape.y0 - 2 * r);
            let d = outline_distance(x, y, shape, 2 * r);
            &&& d < 0 <==> is_inside(u, v, 2 * r)
            &&& d == 0 <==> is_on_outline(u, v, 2 * r)
        }),
{
    let s = 2 * r;
    lemma_overhang_is_exact(x, shape.x0 as int, shape.x1 as int, s);
    lemma_overhang_is_exact(y, shape.y0 as int, shape.y1 as int, s);
    let u = overhang(x, shape.x0 as int, shape.x1 as int, s);
    let v = overhang(y, shape.y0 as int, shape.y1 as int, s);
    let cx = max_of(u, 0);
    let cy = max_of(v, 0);
    let d = outline_distance(x, y, shape, s);
    let big = s * 0x80_0000;
    assert(power_of_two(23) == 0x80_0000 && power_of_two(11) == 2048) by {
        reveal_with_fuel(power_of_two, 24);
    }
    if max_of(u, v) < 0 {
        let b = max_of(u, v);
        lemma_distance_before_corners(x, y, shape, s);
        lemma_to_single_keeps(-b, 23);
        lemma_negative_stays_negative(b * 0x80_0000 - big);
    } else {
        let sum = to_single(to_single(cx * cx, 1) + to_single(cy * cy, 1), 1);
        lemma_squares_compare(cx, cy, s);
        let outer = root_single(sum * 0x4000_0000_0000);
        assert(0 <= cx * cx && 0 <= cy * cy && 0 <= s * s) by (nonlinear_arith);
        lemma_to_single_monotone(0, cx * cx, 1);
        lemma_to_single_monotone(0, cy * cy, 1);
        lemma_to_single_exact(0);
        lemma_to_single_monotone(0, to_single(cx * cx, 1) + to_single(cy * cy, 1), 1);
        lemma_roots_are_kept(sum * 0x4000_0000_0000);
        assert(signed_single(outer) == outer);
        assert(d == signed_single(outer - big));
        assert(big * big == (s * s) * 0x4000_0000_0000) by (nonlinear_arith)
            requires
                big == s * 0x80_0000,
        ;
        assert(s * s <= 2000 * 2000) by (nonlinear_arith)
            requires
                0 <= s <= 2000,
        ;
        lemma_to_single_exact(s * s);
        if cx * cx + cy * cy < s * s {
            // Nearer by so much that the root does not round up to the radius.
            let q = s * 4096 - 1;
            assert(0 < s) by (nonlinear_arith)
                requires
                    0 <= s,
                    0 < s * s,
            ;
            assert((q * 2048) * (q * 2048) >= (s * s - 1) * 0x4000_0000_0000) by (nonlinear_arith)
                requires
                    q == s * 4096 - 1,
                    0 < s <= 2000,
            ;
            lemma_root_at_most(sum * 0x4000_0000_0000, q, 11);
            assert(outer < big);
            lemma_negative_stays_negative(outer - big);
        } else if cx * cx + cy * cy == s * s {
            lemma_root_at_least(sum * 0x4000_0000_0000, s, 23);
            lemma_to_single_exact(cx * cx);
            lemma_to_single_exact(cy * cy);
            lemma_root_at_most(sum * 0x4000_0000_0000, s, 23);
            assert(outer == big);
            lemma_signed_single_exact(0);
        } else {
            let q = s * 4096 + 1;
            assert((q * 2048) * (q * 2048) <= (s * s + 1) * 0x4000_0000_0000) by (nonlinear_arith)
                requires
                    q == s * 4096 + 1,
                    0 <= s <= 2000,
            ;
            lemma_root_at_least(sum * 0x4000_0000_0000, q, 11);
            assert(outer > big);
            lemma_negative_stays_negative(big - outer);
        }
    }
}

/// A negative number is rounded to a negative one.
proof fn lemma_negative_stays_negative(v: int)
    requires
        v < 0,
    ensures
        signed_single(v) < 0,
        signed_single(-v) > 0,
{
    lemma_to_single_monotone(1, -v, 1);
    lemma_to_single_exact(1);
}

/// The signed distance is negative for every pixel of a rectangle that lies beyond the centre of no
/// corner, whatever the radius. Where single precision does not hold the coordinates, a corner without a
/// radius is left out: there the middle of a pixel can be rounded to an edge.
pub proof fn law_distance_is_negative_inside(x: int, y: int, shape: Region, r: int)
    requires
        in_region(shape, x, y),
        0 <= r,
        overhang(x, shape.x0 as int, shape.x1 as int, r) <= 0,
        overhang(y, shape.y0 as int, shape.y1 as int, r) <= 0,
        r > 0 || is_fine(shape),
    ensures
        outline_distance(x, y, shape, r) < 0,
{
    lemma_distance_before_corners(x, y, shape, r);
    let b = max_of(
        overhang(x, shape.x0 as int, shape.x1 as int, r),
        overhang(y, shape.y0 as int, shape.y1 as int, r),
    );
    if r == 0 {
        lemma_overhang_is_exact(x, shape.x0 as int, shape.x1 as int, r);
        lemma_overhang_is_exact(y, shape.y0 as int, shape.y1 as int, r);
        assert(b < 0);
        lemma_negative_stays_negative(b * 0x80_0000);
    } else {
        lemma_signed_single_monotone(b * 0x80_0000, 0);
        lemma_signed_single_exact(0);
    }
    lemma_negative_stays_negative(signed_single(b * 0x80_0000) - r * 0x80_0000);
}

/// The columns of a row hold every pixel of it that the rectangle covers in part. The radius `s` is in
/// half pixels.
proof fn lemma_rows_hold_covered_pixels(x: int, y: int, shape: Region, s: int)
    requires
        in_region(shape, x, y),
        0 <= s <= shape.x1 - shape.x0,
        s <= shape.y1 - shape.y0,
        outline_distance(x, y, shape, s) < 0x80_0000,
    ensures
        match row_span(y, shape, s / 2) {
            Some((a, b)) => a <= x < b && a - shape.x0 == shape.x1 - b,
            None => false,
        },
{
    let r = s / 2;
    let odd = s - 2 * r;
    assert(corner(r, shape.x1 - shape.x0, shape.y1 - shape.y0) == r);
    if !(r == 0 || shape.y0 + r <= y < shape.y1 - r || !is_fine(shape)) {
        let dy = if y < shape.y0 + r {
            shape.y0 + r - y
        } else {
            y + 1 - (shape.y1 - r)
        };
        lemma_overhang_is_exact(x, shape.x0 as int, shape.x1 as int, s);
        lemma_overhang_is_exact(y, shape.y0 as int, shape.y1 as int, s);
        let us = overhang(x, shape.x0 as int, shape.x1 as int, s);
        let vs = overhang(y, shape.y0 as int, shape.y1 as int, s);
        let u = us - odd;
        let v = vs - odd;
        assert(v == 2 * dy - 1);
        lemma_arc_exists(r, dy);
        let d = arc(r, dy);
        if u > 0 {
            let m = s + 1;
            let sum = to_single(to_single(us * us, 1) + to_single(vs * vs, 1), 1);
            let outer = root_single(sum * 0x4000_0000_0000);
            let big = s * 0x80_0000;
            assert(power_of_two(23) == 0x80_0000) by {
                reveal_with_fuel(power_of_two, 24);
            }
            if us * us + vs * vs >= reach(m) {
                lemma_squares_reach(us, vs, m);
                assert((m * 0x80_0000) * (m * 0x80_0000) == (m * m) * 0x4000_0000_0000) by (nonlinear_arith);
                assert(0 <= m * m) by (nonlinear_arith);
                lemma_root_at_least(sum * 0x4000_0000_0000, m, 23);
                lemma_roots_are_kept(sum * 0x4000_0000_0000);
                lemma_signed_single_monotone(0x80_0000, outer - big);
                lemma_signed_single_exact(0x80_0000);
            }
            assert(us * us + vs * vs < reach(m));
            lemma_rows_reach(u, v, r, odd, d);
        }
    }
}

/// A sum of two squares that reaches a square, and what can be rounded off, reaches it in single precision
/// too.
proof fn lemma_squares_reach(cx: int, cy: int, m: int)
    requires
        0 <= cx,
        0 <= cy,
        0 <= m,
        cx * cx + cy * cy >= reach(m),
    ensures
        to_single(to_single(cx * cx, 1) + to_single(cy * cy, 1), 1) >= m * m,
{
    let a = cx * cx;
    let b = cy * cy;
    let t = m * m;
    assert(0 <= a && 0 <= b && 0 <= t) by (nonlinear_arith)
        requires
            a == cx * cx,
            b == cy * cy,
            t == m * m,
    ;
    if m <= 2002 {
        lemma_squares_compare(cx, cy, m);
    } else {
        assert(t >= 0x20_0000) by (nonlinear_arith)
            requires
                t == m * m,
                m > 2002,
        ;
        let ra = to_single(a, 1);
        let rb = to_single(b, 1);
        lemma_little_is_rounded_off(a);
        lemma_little_is_rounded_off(b);
        lemma_little_is_rounded_off(ra + rb);
    }
}

/// Rounding takes off no more than one part in two to the twenty-fourth.
proof fn lemma_little_is_rounded_off(v: int)
    requires
        0 <= v,
    ensures
        0x100_0000 * (v - to_single(v, 1)) <= v,
        0 <= to_single(v, 1),
{
    lemma_to_single_near(v, 1);
    lemma_spacing_bounds(v);
    assert(v / 1 == v);
}

/// A pixel that a corner covers in part, seen from the centre of the corner with a radius of whole pixels,
/// is within the columns of its row.
proof fn lemma_rows_reach(u: int, v: int, r: int, odd: int, d: int)
    requires
        0 < u,
        1 <= v <= 2 * r - 1,
        1 <= r <= 0x80_0000,
        odd == 0 || odd == 1,
        (u + odd) * (u + odd) + (v + odd) * (v + odd) < reach(2 * r + odd + 1),
        0 <= d,
        reach(2 * r + 1) - v * v <= 4 * (d * d),
    ensures
        u <= 2 * d + 1,
{
    let n = 2 * r + 1;
    assert(0 <= n * n) by (nonlinear_arith);
    if odd == 0 {
        assert(u < 2 * d) by (nonlinear_arith)
            requires
                u * u < 4 * (d * d),
                0 <= u,
                0 <= d,
        ;
    } else {
        // The row leaves room for some pixels in any case.
        assert(2 <= d) by (nonlinear_arith)
            requires
                n * n - v * v <= 4 * (d * d),
                n == 2 * r + 1,
                1 <= v <= 2 * r - 1,
                1 <= r,
                0 <= d,
        ;
        if u >= 6 {
            assert((n + 1) * (n + 1) == n * n + 2 * n + 1) by (nonlinear_arith);
            let more = reach(n + 1) - (n + 1) * (n + 1);
            let less = reach(n) - n * n;
            assert(more <= less + 18);
            // Half a pixel less of radius cuts off no more than two half pixels.
            assert((u + 1) * (u + 1) == u * u + 2 * u + 1) by (nonlinear_arith);
            assert((v + 1) * (v + 1) == v * v + 2 * v + 1) by (nonlinear_arith);
            assert((u - 2) * (u - 2) == u * u - 4 * u + 4) by (nonlinear_arith);
            if u + v < n {
                assert(u * u + v * v <= (u + v) * (u + v)) by (nonlinear_arith)
                    requires
                        0 <= u,
                        0 <= v,
                ;
                assert((u + v) * (u + v) <= n * n) by (nonlinear_arith)
                    requires
                        0 <= u + v <= n,
                ;
            }
            assert((u - 2) * (u - 2) + v * v < n * n + less);
            assert(u - 2 < 2 * d) by (nonlinear_arith)
                requires
                    (u - 2) * (u - 2) < 4 * (d * d),
                    0 <= u - 2,
                    0 <= d,
            ;
        }
    }
}

/// The columns of a row hold every pixel of it that the rectangle covers in part, so every pixel inside
/// of the outline too; and they are the same from both sides.
pub proof fn law_rows_hold_all_visible_pixels(x: int, y: int, shape: Region, r: int)
    requires
        in_region(shape, x, y),
        0 <= 2 * r <= shape.x1 - shape.x0,
        2 * r <= shape.y1 - shape.y0,
        outline_distance(x, y, shape, 2 * r) < 0x80_0000,
    ensures
        match row_span(y, shape, r) {
            Some((a, b)) => a <= x < b && a - shape.x0 == shape.x1 - b,
            None => false,
        },
{
    lemma_rows_hold_covered_pixels(x, y, shape, 2 * r);
}

/// Every pixel that a rectangle covers in part is one that is blended.
pub proof fn law_covered_pixels_are_blended(x: int, y: int, shape: Region, look: Look)
    requires
        in_region(shape, x, y),
        outline_distance(x, y, shape, half_radius(shape, look.radius as int)) < 0x80_0000,
    ensures
        in_shape(shape, look.radius as int, x, y),
{
    let s = half_radius(shape, look.radius as int);
    lemma_to_single_monotone(0, shape.x1 - shape.x0, 1);
    lemma_to_single_monotone(0, shape.y1 - shape.y0, 1);
    lemma_to_single_exact(0);
    if is_fine(shape) {
        lemma_to_single_exact(shape.x1 - shape.x0);
        lemma_to_single_exact(shape.y1 - shape.y0);
        lemma_rows_hold_covered_pixels(x, y, shape, s);
    }
}

/// There is such a number of whole pixels.
proof fn lemma_arc_exists(r: int, dy: int)
    ensures
        is_arc(arc(r, dy), r, dy),
{
    let room = reach(2 * r + 1) - (2 * dy - 1) * (2 * dy - 1);
    if room <= 0 {
        assert(is_arc(0, r, dy));
    } else {
        let k = floor_root(room - 1);
        lemma_floor_root_exists(room - 1);
        let d = (k + 2) / 2;
        assert(room <= 4 * (d * d) && 4 * ((d - 1) * (d - 1)) < room) by (nonlinear_arith)
            requires
                k * k <= room - 1 < (k + 1) * (k + 1),
                0 <= k,
                k + 1 <= 2 * d <= k + 2,
        ;
        assert(is_arc(d, r, dy));
    }
}

/// A pixel that is a pixel at least inside of the outline, and beyond the centre of no corner, keeps its
/// colour and gets the opacity of the card.
pub proof fn law_inside_keeps_its_colors(p: Pixel, x: int, y: int, shape: Region, look: Look)
    requires
        ({
            let r = half_radius(shape, look.radius as int);
            let b = max_of(
                overhang(x, shape.x0 as int, shape.x1 as int, r),
                overhang(y, shape.y0 as int, shape.y1 as int, r),
            );
            0 <= r && b <= 0 && b - r <= -2
        }),
    ensures
        shade_at(p, x, y, shape, look) == (Pixel { alpha: look.alpha, ..p }),
{
    let r = half_radius(shape, look.radius as int);
    let b = max_of(
        overhang(x, shape.x0 as int, shape.x1 as int, r),
        overhang(y, shape.y0 as int, shape.y1 as int, r),
    );
    lemma_distance_before_corners(x, y, shape, r);
    let inner = signed_single(b * 0x80_0000);
    lemma_signed_single_exact(0x80_0000);
    lemma_to_single_keeps(1, 24);
    reveal_with_fuel(power_of_two, 25);
    assert(to_single(0x100_0000, 1) == 0x100_0000);
    if b < -1 {
        lemma_signed_single_monotone(b * 0x80_0000, -0x100_0000);
    }
    assert(inner - r * 0x80_0000 <= -0x100_0000);
    lemma_signed_single_monotone(inner - r * 0x80_0000, -0x100_0000);
}

} // verus!
