//! What a frame is made of: which parts of the surface are cleared, what is drawn on them, how the
//! cards are laid over the desktop, and which part of the screen the window takes.
use vstd::prelude::*;
use crate::geometry::{max_of, min_of};
use crate::layout::Card;
use crate::paint::{
    card_ops, draw_card, draw_hidden_hint, font_sizes, font_sizes_of, half_of, hint_left, hint_top, DrawOp,
    FontSizes, Hint, HINT_H, HINT_W,
};
use crate::pixels::{clipped, in_region, Look, Rect, Region, CARD_RADIUS};
use crate::scanner::DesktopItem;
use crate::scroll::{clamp_scroll, held_scroll};

verus! {

/// Draws the cards: the colour `0xRRGGBB` of their ground, and the size of the surface that is at
/// hand, if one is.
pub struct Renderer {
    pub bg_color: u32,
    pub w: i32,
    pub h: i32,
    pub ready: bool,
}

/// What is drawn for a card.
pub struct Drawing {
    pub card: usize,
    pub fonts: FontSizes,
    pub ops: Vec<DrawOp>,
}

/// The part of the screen that the window takes.
#[derive(Clone, Copy, Debug, PartialEq, Eq, Structural)]
pub struct WindowPlace {
    pub x: i32,
    pub y: i32,
    pub width: i32,
    pub height: i32,
}

/// A frame, in the order of the work: a surface of the screen's size is made where none is at hand, the
/// regions are cleared, the hint or the cards are drawn within
/// them, the rectangles are laid over the surface within them, and the window takes its place.
pub struct Frame {
    pub new_surface: bool,
    pub regions: Vec<Region>,
    pub hint: Option<Hint>,
    pub drawings: Vec<Drawing>,
    pub rects: Vec<Rect>,
    pub look: Look,
    pub window: WindowPlace,
}

/// How opaque the hint is that shows while the cards are hidden.
pub const HINT_ALPHA: u8 = 200;

/// The radius of the corners of the hint.
pub const HINT_RADIUS: u16 = 16;

/// The edges of the smallest rectangle around all cards.
pub open spec fn is_bbox(b: (i64, i64, i64, i64), cards: Seq<Card>) -> bool {
    &&& forall|i: int|
        0 <= i < cards.len() ==> {
            let c = #[trigger] cards[i];
            b.0 <= c.x && b.1 <= c.y && c.x + c.width <= b.2 && c.y + c.height <= b.3
        }
    &&& exists|i: int| 0 <= i < cards.len() && (#[trigger] cards[i]).x == b.0
    &&& exists|i: int| 0 <= i < cards.len() && (#[trigger] cards[i]).y == b.1
    &&& exists|i: int| 0 <= i < cards.len() && #[trigger] cards[i].x + cards[i].width == b.2
    &&& exists|i: int| 0 <= i < cards.len() && #[trigger] cards[i].y + cards[i].height == b.3
}

/// The edges of the smallest rectangle around all cards; there is none where there are no cards.
pub fn compute_bbox(cards: &[Card]) -> (r: Option<(i64, i64, i64, i64)>)
    ensures
        match r {
            Some(b) => is_bbox(b, cards@),
            None => cards@.len() == 0,
        },
{
    if cards.len() == 0 {
        return None;
    }
    let mut x0: i64 = cards[0].x as i64;
    let mut y0: i64 = cards[0].y as i64;
    let mut x1: i64 = cards[0].x as i64 + cards[0].width as i64;
    let mut y1: i64 = cards[0].y as i64 + cards[0].height as i64;
    let mut i: usize = 1;
    let n: usize = cards.len();
    assert(is_bbox((x0, y0, x1, y1), cards@.take(1))) by {
        let c = cards@.take(1)[0];
        assert(c == cards@[0]);
    }
    while i < n
        invariant
            1 <= i <= n,
            n == cards@.len(),
            is_bbox((x0, y0, x1, y1), cards@.take(i as int)),
        decreases n - i,
    {
        let ghost before = (x0, y0, x1, y1);
        let ghost seen = cards@.take(i as int);
        let right: i64 = cards[i].x as i64 + cards[i].width as i64;
        let bottom: i64 = cards[i].y as i64 + cards[i].height as i64;
        if (cards[i].x as i64) < x0 {
            x0 = cards[i].x as i64;
        }
        if (cards[i].y as i64) < y0 {
            y0 = cards[i].y as i64;
        }
        if right > x1 {
            x1 = right;
        }
        if bottom > y1 {
            y1 = bottom;
        }
        proof {
            let now = cards@.take(i + 1);
            assert(now[i as int] == cards@[i as int]);
            assert forall|k: int| 0 <= k < i implies #[trigger] now[k] == seen[k] by {}
            let a = choose|k: int| 0 <= k < seen.len() && (#[trigger] seen[k]).x == before.0;
            let b = choose|k: int| 0 <= k < seen.len() && (#[trigger] seen[k]).y == before.1;
            let c = choose|k: int| 0 <= k < seen.len() && #[trigger] seen[k].x + seen[k].width == before.2;
            let d = choose|k: int| 0 <= k < seen.len() && #[trigger] seen[k].y + seen[k].height == before.3;
            assert(now[a] == seen[a] && now[b] == seen[b] && now[c] == seen[c] && now[d] == seen[d]);
        }
        i += 1;
    }
    assert(cards@.take(n as int) =~= cards@);
    Some((x0, y0, x1, y1))
}

/// The place of the window around some edges: clipped to a screen, and at least one pixel wide and
/// high.
pub open spec fn window_around(b: (i64, i64, i64, i64), w: int, h: int) -> WindowPlace {
    let x0 = max_of(b.0 as int, 0);
    let y0 = max_of(b.1 as int, 0);
    WindowPlace {
        x: x0 as i32,
        y: y0 as i32,
        width: max_of(min_of(b.2 as int, w) - x0, 1) as i32,
        height: max_of(min_of(b.3 as int, h) - y0, 1) as i32,
    }
}

/// The window takes the smallest rectangle around the cards, as far as it is on the screen; without
/// cards it takes one pixel.
pub open spec fn is_window_place(p: WindowPlace, cards: Seq<Card>, w: int, h: int) -> bool {
    if cards.len() == 0 {
        p == (WindowPlace { x: 0, y: 0, width: 1, height: 1 })
    } else {
        exists|b: (i64, i64, i64, i64)| #[trigger] is_bbox(b, cards) && p == window_around(b, w, h)
    }
}

/// The place of the window.
fn window_place(cards: &[Card], w: i32, h: i32) -> (r: WindowPlace)
    ensures
        is_window_place(r, cards@, w as int, h as int),
{
    match compute_bbox(cards) {
        Some((bx0, by0, bx1, by1)) => {
            let ghost b = (bx0, by0, bx1, by1);
            proof {
                let a = choose|k: int| 0 <= k < cards@.len() && (#[trigger] cards@[k]).x == bx0;
                let c = choose|k: int| 0 <= k < cards@.len() && (#[trigger] cards@[k]).y == by0;
                let d = choose|k: int| 0 <= k < cards@.len() && #[trigger] cards@[k].x + cards@[k].width == bx1;
                let e = choose|k: int| 0 <= k < cards@.len() && #[trigger] cards@[k].y + cards@[k].height == by1;
                assert(bx0 == cards@[a].x && by0 == cards@[c].y);
                assert(bx1 == cards@[d].x + cards@[d].width && by1 == cards@[e].y + cards@[e].height);
            }
            let x0: i64 = bx0.max(0);
            let y0: i64 = by0.max(0);
            let right: i64 = bx1.min(w as i64);
            let bottom: i64 = by1.min(h as i64);
            let place: WindowPlace = WindowPlace {
                x: x0 as i32,
                y: y0 as i32,
                width: (right - x0).max(1) as i32,
                height: (bottom - y0).max(1) as i32,
            };
            assert(is_bbox(b, cards@) && place == window_around(b, w as int, h as int));
            place
        },
        None => WindowPlace { x: 0, y: 0, width: 1, height: 1 },
    }
}

/// The part of a region that is on a screen.
pub open spec fn on_screen(g: Region, w: int, h: int) -> Region {
    Region {
        x0: max_of(g.x0 as int, 0) as i32,
        y0: max_of(g.y0 as int, 0) as i32,
        x1: min_of(g.x1 as int, w) as i32,
        y1: min_of(g.y1 as int, h) as i32,
    }
}

/// A region holds a pixel at least.
pub open spec fn is_solid(g: Region) -> bool {
    g.x0 < g.x1 && g.y0 < g.y1
}

/// The parts of the first `n` regions that are on a screen, without those that are empty.
pub open spec fn all_on_screen(gs: Seq<Region>, n: int, w: int, h: int) -> Seq<Region>
    decreases n,
{
    if n <= 0 {
        Seq::empty()
    } else {
        let before = all_on_screen(gs, n - 1, w, h);
        let part = on_screen(gs[n - 1], w, h);
        if is_solid(part) {
            before.push(part)
        } else {
            before
        }
    }
}

/// The parts of the regions that are on a screen, without those that are empty.
fn clip_regions(gs: &[Region], w: i32, h: i32) -> (r: Vec<Region>)
    ensures
        r@ == all_on_screen(gs@, gs@.len() as int, w as int, h as int),
{
    let mut out: Vec<Region> = Vec::new();
    let n: usize = gs.len();
    let mut i: usize = 0;
    while i < n
        invariant
            i <= n,
            n == gs@.len(),
            out@ == all_on_screen(gs@, i as int, w as int, h as int),
        decreases n - i,
    {
        let g: Region = gs[i];
        let part: Region = Region {
            x0: g.x0.max(0),
            y0: g.y0.max(0),
            x1: g.x1.min(w),
            y1: g.y1.min(h),
        };
        assert(part == on_screen(gs@[i as int], w as int, h as int));
        if part.x1 > part.x0 && part.y1 > part.y0 {
            out.push(part);
        }
        i += 1;
    }
    out
}

/// A card has a pixel in a region.
pub open spec fn card_meets(card: Card, g: Region) -> bool {
    card.x < g.x1 && card.x + card.width > g.x0 && card.y < g.y1 && card.y + card.height > g.y0
}

/// A card has a pixel in one of the regions.
pub open spec fn card_meets_any(card: Card, gs: Seq<Region>) -> bool {
    exists|j: int| 0 <= j < gs.len() && card_meets(card, #[trigger] gs[j])
}

/// A card has a pixel in one of the regions.
fn meets_any(card: &Card, gs: &Vec<Region>) -> (r: bool)
    ensures
        r == card_meets_any(*card, gs@),
{
    let mut j: usize = 0;
    while j < gs.len()
        invariant
            j <= gs@.len(),
            forall|k: int| 0 <= k < j ==> !card_meets(*card, #[trigger] gs@[k]),
        decreases gs@.len() - j,
    {
        let g: Region = gs[j];
        let right: i64 = card.x as i64 + card.width as i64;
        let bottom: i64 = card.y as i64 + card.height as i64;
        if card.x < g.x1 && right > g.x0 as i64 && card.y < g.y1 && bottom > g.y0 as i64 {
            assert(card_meets(*card, gs@[j as int]));
            return true;
        }
        j += 1;
    }
    false
}

/// The positions of those of the first `n` cards that have a pixel in one of the regions.
pub open spec fn cards_in(cards: Seq<Card>, gs: Seq<Region>, n: int) -> Seq<int>
    decreases n,
{
    if n <= 0 {
        Seq::empty()
    } else {
        let before = cards_in(cards, gs, n - 1);
        if card_meets_any(cards[n - 1], gs) {
            before.push(n - 1)
        } else {
            before
        }
    }
}

/// The drawing is that of the card at position `k`.
pub open spec fn is_drawing(
    d: Drawing,
    k: int,
    cards: Seq<Card>,
    items: Seq<DesktopItem>,
    bg: u32,
    show_icons: bool,
    selected: Option<(usize, usize)>,
) -> bool {
    &&& d.card == k
    &&& 0 <= k < cards.len()
    &&& d.fonts == font_sizes(cards[k].width as int)
    &&& d.ops@ == card_ops(cards[k], items, k as usize, bg, show_icons, selected)
}

/// The drawings are those of the cards at the positions `ks`, in that order.
pub open spec fn are_drawings(
    ds: Seq<Drawing>,
    ks: Seq<int>,
    cards: Seq<Card>,
    items: Seq<DesktopItem>,
    bg: u32,
    show_icons: bool,
    selected: Option<(usize, usize)>,
) -> bool {
    &&& ds.len() == ks.len()
    &&& forall|i: int|
        0 <= i < ks.len() ==> is_drawing(#[trigger] ds[i], ks[i], cards, items, bg, show_icons, selected)
}

/// The drawings of the cards, all of them or those with a pixel in one of the regions.
fn draw_cards(
    cards: &[Card],
    items: &[DesktopItem],
    within: Option<&Vec<Region>>,
    bg: u32,
    show_icons: bool,
    selected: Option<(usize, usize)>,
) -> (r: Vec<Drawing>)
    ensures
        are_drawings(
            r@,
            match within {
                Some(gs) => cards_in(cards@, gs@, cards@.len() as int),
                None => Seq::new(cards@.len(), |i: int| i),
            },
            cards@,
            items@,
            bg,
            show_icons,
            selected,
        ),
{
    let mut out: Vec<Drawing> = Vec::new();
    let n: usize = cards.len();
    let mut i: usize = 0;
    let ghost mut ks: Seq<int> = Seq::empty();
    while i < n
        invariant
            i <= n,
            n == cards@.len(),
            match within {
                Some(gs) => ks == cards_in(cards@, gs@, i as int),
                None => ks == Seq::new(i as nat, |k: int| k),
            },
            are_drawings(out@, ks, cards@, items@, bg, show_icons, selected),
        decreases n - i,
    {
        let wanted: bool = match within {
            Some(gs) => meets_any(&cards[i], gs),
            None => true,
        };
        if wanted {
            let ghost before = out@;
            let d: Drawing = Drawing {
                card: i,
                fonts: font_sizes_of(cards[i].width),
                ops: draw_card(&cards[i], items, i, bg, show_icons, selected),
            };
            assert(is_drawing(d, i as int, cards@, items@, bg, show_icons, selected));
            out.push(d);
            proof {
                ks = ks.push(i as int);
                assert forall|k: int| 0 <= k < ks.len() implies is_drawing(
                    #[trigger] out@[k],
                    ks[k],
                    cards@,
                    items@,
                    bg,
                    show_icons,
                    selected,
                ) by {
                    if k < before.len() {
                        assert(out@[k] == before[k]);
                    }
                }
                if within is None {
                    assert(ks =~= Seq::new((i + 1) as nat, |k: int| k));
                }
            }
        }
        i += 1;
    }
    proof {
        if within is None {
            assert(ks =~= Seq::new(cards@.len(), |i: int| i));
        }
    }
    out
}

/// The rectangle of a card.
pub open spec fn rect_of(card: Card) -> Rect {
    Rect { x: card.x, y: card.y, width: card.width, height: card.height }
}

/// The rectangles of the cards.
fn rects_of(cards: &[Card]) -> (r: Vec<Rect>)
    ensures
        r@ == cards@.map_values(|c: Card| rect_of(c)),
{
    let mut out: Vec<Rect> = Vec::new();
    let n: usize = cards.len();
    let mut i: usize = 0;
    while i < n
        invariant
            i <= n,
            n == cards@.len(),
            out@.len() == i,
            forall|k: int| 0 <= k < i ==> #[trigger] out@[k] == rect_of(cards@[k]),
        decreases n - i,
    {
        let c: &Card = &cards[i];
        out.push(Rect { x: c.x, y: c.y, width: c.width, height: c.height });
        i += 1;
    }
    assert(out@ =~= cards@.map_values(|c: Card| rect_of(c)));
    out
}

/// The whole screen, as a region.
pub open spec fn whole_screen(w: i32, h: i32) -> Region {
    Region { x0: 0, y0: 0, x1: w, y1: h }
}

/// How the cards look.
pub open spec fn card_look(bg: u32, alpha: u8) -> Look {
    Look { bg, alpha, radius: CARD_RADIUS }
}

/// A frame that shows the cards within some regions. The cards at the positions `ks` are drawn.
pub open spec fn is_card_frame(
    f: Frame,
    regions: Seq<Region>,
    ks: Seq<int>,
    cards: Seq<Card>,
    items: Seq<DesktopItem>,
    bg: u32,
    alpha: u8,
    show_icons: bool,
    selected: Option<(usize, usize)>,
    w: i32,
    h: i32,
) -> bool {
    &&& f.regions@ == regions
    &&& f.hint is None
    &&& are_drawings(f.drawings@, ks, cards, items, bg, show_icons, selected)
    &&& f.rects@ == cards.map_values(|c: Card| rect_of(c))
    &&& f.look == card_look(bg, alpha)
    &&& is_window_place(f.window, cards, w as int, h as int)
}

/// A frame that shows the hint in place of the cards, in a window over the whole screen.
pub open spec fn is_hint_frame(f: Frame, bg: u32, w: i32, h: i32) -> bool {
    &&& f.regions@ == seq![whole_screen(w, h)]
    &&& match f.hint {
        Some(hint) => crate::paint::is_hint(hint, w as int, h as int, bg as int),
        None => false,
    }
    &&& f.drawings@.len() == 0
    &&& f.rects@ == seq![
        Rect {
            x: hint_left(w as int) as i32,
            y: hint_top(h as int) as i32,
            width: HINT_W,
            height: HINT_H,
        },
    ]
    &&& f.look == (Look { bg, alpha: HINT_ALPHA, radius: HINT_RADIUS })
    &&& f.window == (WindowPlace { x: 0, y: 0, width: w, height: h })
}

/// The scroll offsets of the cards are held within bounds, and nothing else changes.
pub open spec fn are_held(after: Seq<Card>, before: Seq<Card>, show_icons: bool) -> bool {
    after == before.map_values(|c: Card| held_scroll(c, show_icons))
}

impl Renderer {
    /// A renderer with the default colour, and without a surface.
    pub fn new() -> (r: Self)
        ensures
            r == (Renderer { bg_color: 0x262A36, w: 0, h: 0, ready: false }),
    {
        Renderer { bg_color: 0x262A36, w: 0, h: 0, ready: false }
    }

    /// Sets the colour `0xRRGGBB` of the cards.
    pub fn set_bg_color(&mut self, c: u32)
        ensures
            *final(self) == (Renderer { bg_color: c, ..*old(self) }),
    {
        self.bg_color = c;
    }

    /// Keeps the surface where it has the size asked for; tells whether a new one is needed.
    pub fn ensure_surface(&mut self, w: i32, h: i32) -> (r: bool)
        ensures
            r == !(old(self).ready && old(self).w == w && old(self).h == h),
            *final(self) == (Renderer { w, h, ready: true, ..*old(self) }),
    {
        let fresh: bool = !(self.w == w && self.h == h && self.ready);
        self.w = w;
        self.h = h;
        self.ready = true;
        fresh
    }

    /// A frame for the whole screen: the cards, or the hint where they are hidden. There is none for
    /// a screen without pixels.
    pub fn render(
        &mut self,
        w: i32,
        h: i32,
        cards: &mut [Card],
        items: &[DesktopItem],
        visible: bool,
        alpha: u8,
        show_icons: bool,
        selected: Option<(usize, usize)>,
    ) -> (r: Option<Frame>)
        ensures
            match r {
                Some(f) => {
                    &&& 0 < w && 0 < h
                    &&& f.new_surface == !(old(self).ready && old(self).w == w && old(self).h == h)
                    &&& *final(self) == (Renderer { w, h, ready: true, ..*old(self) })
                    &&& are_held(final(cards)@, old(cards)@, show_icons)
                    &&& if visible {
                        is_card_frame(
                            f,
                            seq![whole_screen(w, h)],
                            Seq::new(final(cards)@.len(), |i: int| i),
                            final(cards)@,
                            items@,
                            old(self).bg_color,
                            alpha,
                            show_icons,
                            selected,
                            w,
                            h,
                        )
                    } else {
                        is_hint_frame(f, old(self).bg_color, w, h)
                    }
                },
                None => {
                    &&& w <= 0 || h <= 0
                    &&& *final(self) == *old(self)
                    &&& final(cards)@ == old(cards)@
                },
            },
    {
        if w <= 0 || h <= 0 {
            return None;
        }
        clamp_scroll(cards, show_icons);
        assert(cards@ =~= old(cards)@.map_values(|c: Card| held_scroll(c, show_icons)));
        let new_surface: bool = self.ensure_surface(w, h);
        let mut regions: Vec<Region> = Vec::new();
        regions.push(Region { x0: 0, y0: 0, x1: w, y1: h });
        assert(regions@ =~= seq![whole_screen(w, h)]);
        if !visible {
            let hint: Hint = draw_hidden_hint(w, h, self.bg_color);
            let mut rects: Vec<Rect> = Vec::new();
            rects.push(
                Rect {
                    x: half_of(w as i64 - HINT_W as i64) as i32,
                    y: half_of(h as i64 - HINT_H as i64) as i32,
                    width: HINT_W,
                    height: HINT_H,
                },
            );
            let drawings: Vec<Drawing> = Vec::new();
            let f: Frame = Frame {
                new_surface,
                regions,
                hint: Some(hint),
                drawings,
                rects,
                look: Look { bg: self.bg_color, alpha: HINT_ALPHA, radius: HINT_RADIUS },
                window: WindowPlace { x: 0, y: 0, width: w, height: h },
            };
            assert(f.rects@ =~= seq![
                Rect {
                    x: hint_left(w as int) as i32,
                    y: hint_top(h as int) as i32,
                    width: HINT_W,
                    height: HINT_H,
                },
            ]);
            return Some(f);
        }
        Some(
            Frame {
                new_surface,
                regions,
                hint: None,
                drawings: draw_cards(cards, items, None, self.bg_color, show_icons, selected),
                rects: rects_of(cards),
                look: Look { bg: self.bg_color, alpha, radius: CARD_RADIUS },
                window: window_place(cards, w, h),
            },
        )
    }

    /// A frame for the damaged regions only: they alone are cleared, and of the cards only those are
    /// drawn that have a pixel there. There is none where no damage is on the screen. While the cards
    /// are hidden, the frame is the one for the whole screen.
    pub fn render_damage(
        &mut self,
        w: i32,
        h: i32,
        cards: &mut [Card],
        items: &[DesktopItem],
        visible: bool,
        alpha: u8,
        show_icons: bool,
        selected: Option<(usize, usize)>,
        damage: &[Region],
    ) -> (r: Option<Frame>)
        ensures
            ({
                let regions = all_on_screen(damage@, damage@.len() as int, w as int, h as int);
                match r {
                    Some(f) => {
                        &&& 0 < w && 0 < h
                        &&& f.new_surface == !(old(self).ready && old(self).w == w && old(self).h == h)
                        &&& *final(self) == (Renderer { w, h, ready: true, ..*old(self) })
                        &&& are_held(final(cards)@, old(cards)@, show_icons)
                        &&& if visible {
                            regions.len() > 0 && is_card_frame(
                                f,
                                regions,
                                cards_in(final(cards)@, regions, final(cards)@.len() as int),
                                final(cards)@,
                                items@,
                                old(self).bg_color,
                                alpha,
                                show_icons,
                                selected,
                                w,
                                h,
                            )
                        } else {
                            is_hint_frame(f, old(self).bg_color, w, h)
                        }
                    },
                    None => {
                        &&& w <= 0 || h <= 0 || (visible && regions.len() == 0)
                        &&& *final(self) == *old(self)
                        &&& final(cards)@ == old(cards)@
                    },
                }
            }),
    {
        if !visible {
            return self.render(w, h, cards, items, visible, alpha, show_icons, selected);
        }
        if w <= 0 || h <= 0 {
            return None;
        }
        let regions: Vec<Region> = clip_regions(damage, w, h);
        if regions.len() == 0 {
            return None;
        }
        clamp_scroll(cards, show_icons);
        assert(cards@ =~= old(cards)@.map_values(|c: Card| held_scroll(c, show_icons)));
        let new_surface: bool = self.ensure_surface(w, h);
        let drawings: Vec<Drawing> = draw_cards(
            cards,
            items,
            Some(&regions),
            self.bg_color,
            show_icons,
            selected,
        );
        Some(
            Frame {
                new_surface,
                regions,
                hint: None,
                drawings,
                rects: rects_of(cards),
                look: Look { bg: self.bg_color, alpha, radius: CARD_RADIUS },
                window: window_place(cards, w, h),
            },
        )
    }
}

/// Every pixel of a card that is on the screen is in the window.
pub proof fn law_window_covers_the_cards(p: WindowPlace, cards: Seq<Card>, k: int, w: i32, h: i32, x: int, y: int)
    requires
        is_window_place(p, cards, w as int, h as int),
        0 <= k < cards.len(),
        match clipped(rect_of(cards[k]), w as int, h as int) {
            Some(g) => in_region(g, x, y),
            None => false,
        },
    ensures
        p.x <= x < p.x + p.width,
        p.y <= y < p.y + p.height,
{
    let b = choose|b: (i64, i64, i64, i64)| #[trigger]
        is_bbox(b, cards) && p == window_around(b, w as int, h as int);
    let c = cards[k];
}

/// The window stays on the screen, or is one pixel wide or high where all cards are beside it.
pub proof fn law_window_is_on_the_screen(p: WindowPlace, cards: Seq<Card>, w: i32, h: i32)
    requires
        is_window_place(p, cards, w as int, h as int),
    ensures
        0 <= p.x,
        0 <= p.y,
        p.x + p.width <= w || p.width == 1,
        p.y + p.height <= h || p.height == 1,
{
    if cards.len() > 0 {
        let b = choose|b: (i64, i64, i64, i64)| #[trigger]
            is_bbox(b, cards) && p == window_around(b, w as int, h as int);
        let i = choose|k: int| 0 <= k < cards.len() && (#[trigger] cards[k]).x == b.0;
        let j = choose|k: int| 0 <= k < cards.len() && (#[trigger] cards[k]).y == b.1;
        assert(cards[i].x == b.0 && cards[j].y == b.1);
    }
}

/// The cards that are drawn for some damage are exactly those with a pixel there, each once, and in
/// their order.
pub proof fn law_damaged_cards_are_drawn_once(cards: Seq<Card>, gs: Seq<Region>, n: int, k: int)
    requires
        0 <= n <= cards.len(),
    ensures
        cards_in(cards, gs, n).contains(k) <==> 0 <= k < n && card_meets_any(cards[k], gs),
        forall|i: int, j: int|
            0 <= i < j < cards_in(cards, gs, n).len() ==> #[trigger] cards_in(cards, gs, n)[i]
                < #[trigger] cards_in(cards, gs, n)[j],
        forall|i: int| 0 <= i < cards_in(cards, gs, n).len() ==> 0 <= #[trigger] cards_in(cards, gs, n)[i] < n,
    decreases n,
{
    if n > 0 {
        law_damaged_cards_are_drawn_once(cards, gs, n - 1, k);
        let before = cards_in(cards, gs, n - 1);
        let now = cards_in(cards, gs, n);
        if card_meets_any(cards[n - 1], gs) {
            assert(now == before.push(n - 1));
            assert(now[before.len() as int] == n - 1);
            if before.contains(k) {
                let i = choose|i: int| 0 <= i < before.len() && before[i] == k;
                assert(now[i] == k);
            }
        }
    }
}

} // verus!
