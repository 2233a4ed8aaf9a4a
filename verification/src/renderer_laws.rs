//! What holds of frames: a frame for some damage puts into the damaged regions what a frame for the
//! whole screen puts there, and leaves everything else as it is.
use vstd::prelude::*;
use crate::layout::{on_face, Card};
use crate::paint::{card_ops, font_sizes, DrawOp, FontSizes};
use crate::pixels::{
    clear_pixel, in_region, in_regions, law_blending_stays_within, law_damage_is_blended_as_the_whole, pixel_after,
    Pixel, Region,
};
use crate::renderer::{
    are_drawings, card_meets, card_meets_any, cards_in, is_card_frame, is_drawing, whole_screen, Drawing, Frame,
};
use crate::scanner::DesktopItem;

verus! {

/// What is drawn for a card, with the steps as a sequence.
pub struct DrawingView {
    pub card: int,
    pub fonts: FontSizes,
    pub ops: Seq<DrawOp>,
}

impl View for Drawing {
    type V = DrawingView;

    open spec fn view(&self) -> DrawingView {
        DrawingView { card: self.card as int, fonts: self.fonts, ops: self.ops@ }
    }
}

/// Those of the first `n` drawings whose card has the pixel, in their order.
pub open spec fn drawn_at(ds: Seq<Drawing>, cards: Seq<Card>, n: int, x: int, y: int) -> Seq<DrawingView>
    decreases n,
{
    if n <= 0 {
        Seq::empty()
    } else {
        let before = drawn_at(ds, cards, n - 1, x, y);
        if on_face(cards[ds[n - 1].card as int], x, y) {
            before.push(ds[n - 1]@)
        } else {
            before
        }
    }
}

/// The drawing of a card.
spec fn drawing_of(
    k: int,
    cards: Seq<Card>,
    items: Seq<DesktopItem>,
    bg: u32,
    show_icons: bool,
    selected: Option<(usize, usize)>,
) -> DrawingView {
    DrawingView {
        card: k,
        fonts: font_sizes(cards[k].width as int),
        ops: card_ops(cards[k], items, k as usize, bg, show_icons, selected),
    }
}

/// The drawings of those of the first `n` cards that have the pixel, in their order.
spec fn cards_drawn_at(
    cards: Seq<Card>,
    items: Seq<DesktopItem>,
    bg: u32,
    show_icons: bool,
    selected: Option<(usize, usize)>,
    n: int,
    x: int,
    y: int,
) -> Seq<DrawingView>
    decreases n,
{
    if n <= 0 {
        Seq::empty()
    } else {
        let before = cards_drawn_at(cards, items, bg, show_icons, selected, n - 1, x, y);
        if on_face(cards[n - 1], x, y) {
            before.push(drawing_of(n - 1, cards, items, bg, show_icons, selected))
        } else {
            before
        }
    }
}

/// Where each card is drawn, each pixel gets the drawings of the cards that have it.
proof fn lemma_whole_draws_all(
    ds: Seq<Drawing>,
    cards: Seq<Card>,
    items: Seq<DesktopItem>,
    bg: u32,
    show_icons: bool,
    selected: Option<(usize, usize)>,
    n: int,
    x: int,
    y: int,
)
    requires
        are_drawings(ds, Seq::new(cards.len(), |i: int| i), cards, items, bg, show_icons, selected),
        0 <= n <= cards.len(),
    ensures
        drawn_at(ds, cards, n, x, y) == cards_drawn_at(cards, items, bg, show_icons, selected, n, x, y),
    decreases n,
{
    if n > 0 {
        lemma_whole_draws_all(ds, cards, items, bg, show_icons, selected, n - 1, x, y);
        let ks = Seq::new(cards.len(), |i: int| i);
        assert(is_drawing(ds[n - 1], ks[n - 1], cards, items, bg, show_icons, selected));
        assert(ds[n - 1]@ == drawing_of(n - 1, cards, items, bg, show_icons, selected));
    }
}

/// Where each card with a pixel in a region is drawn, each pixel of the regions gets the drawings of the
/// cards that have it.
proof fn lemma_damage_draws_all(
    ds: Seq<Drawing>,
    gs: Seq<Region>,
    cards: Seq<Card>,
    items: Seq<DesktopItem>,
    bg: u32,
    show_icons: bool,
    selected: Option<(usize, usize)>,
    n: int,
    x: int,
    y: int,
)
    requires
        0 <= n <= cards.len(),
        cards_in(cards, gs, n).len() <= ds.len(),
        forall|i: int|
            0 <= i < cards_in(cards, gs, n).len() ==> is_drawing(
                #[trigger] ds[i],
                cards_in(cards, gs, n)[i],
                cards,
                items,
                bg,
                show_icons,
                selected,
            ),
        in_regions(gs, gs.len() as int, x, y),
    ensures
        drawn_at(ds, cards, cards_in(cards, gs, n).len() as int, x, y) == cards_drawn_at(
            cards,
            items,
            bg,
            show_icons,
            selected,
            n,
            x,
            y,
        ),
    decreases n,
{
    if n > 0 {
        let before = cards_in(cards, gs, n - 1);
        let now = cards_in(cards, gs, n);
        assert forall|i: int| 0 <= i < before.len() implies is_drawing(
            #[trigger] ds[i],
            before[i],
            cards,
            items,
            bg,
            show_icons,
            selected,
        ) by {
            assert(now[i] == before[i]);
        }
        lemma_damage_draws_all(ds, gs, cards, items, bg, show_icons, selected, n - 1, x, y);
        if card_meets_any(cards[n - 1], gs) {
            let m = before.len() as int;
            assert(now[m] == n - 1);
            assert(is_drawing(ds[m], now[m], cards, items, bg, show_icons, selected));
            assert(ds[m]@ == drawing_of(n - 1, cards, items, bg, show_icons, selected));
        } else if on_face(cards[n - 1], x, y) {
            let j = choose|j: int| 0 <= j < gs.len() && #[trigger] in_region(gs[j], x, y);
            assert(card_meets(cards[n - 1], gs[j]));
        }
    }
}

/// Every pixel of a damaged region gets from the frame for the damage the same drawings, in the same
/// order, as from the frame for the whole screen.
pub proof fn law_damage_is_drawn_as_the_whole(
    whole: Frame,
    part: Frame,
    regions: Seq<Region>,
    cards: Seq<Card>,
    items: Seq<DesktopItem>,
    bg: u32,
    alpha: u8,
    show_icons: bool,
    selected: Option<(usize, usize)>,
    w: i32,
    h: i32,
    x: int,
    y: int,
)
    requires
        is_card_frame(
            whole,
            seq![whole_screen(w, h)],
            Seq::new(cards.len(), |i: int| i),
            cards,
            items,
            bg,
            alpha,
            show_icons,
            selected,
            w,
            h,
        ),
        is_card_frame(
            part,
            regions,
            cards_in(cards, regions, cards.len() as int),
            cards,
            items,
            bg,
            alpha,
            show_icons,
            selected,
            w,
            h,
        ),
        in_regions(regions, regions.len() as int, x, y),
    ensures
        drawn_at(part.drawings@, cards, part.drawings@.len() as int, x, y) == drawn_at(
            whole.drawings@,
            cards,
            whole.drawings@.len() as int,
            x,
            y,
        ),
{
    let n = cards.len() as int;
    lemma_whole_draws_all(whole.drawings@, cards, items, bg, show_icons, selected, n, x, y);
    lemma_damage_draws_all(part.drawings@, regions, cards, items, bg, show_icons, selected, n, x, y);
}

/// A pixel after the first `n` drawings, given what a drawing does to a pixel.
pub open spec fn painted(
    paint: spec_fn(Pixel, DrawingView, int, int) -> Pixel,
    p: Pixel,
    ds: Seq<Drawing>,
    n: int,
    x: int,
    y: int,
) -> Pixel
    decreases n,
{
    if n <= 0 {
        p
    } else {
        paint(painted(paint, p, ds, n - 1, x, y), ds[n - 1]@, x, y)
    }
}

/// A pixel after some drawings, given what a drawing does to a pixel.
spec fn painted_by(
    paint: spec_fn(Pixel, DrawingView, int, int) -> Pixel,
    p: Pixel,
    views: Seq<DrawingView>,
    x: int,
    y: int,
) -> Pixel
    decreases views.len(),
{
    if views.len() == 0 {
        p
    } else {
        paint(painted_by(paint, p, views.drop_last(), x, y), views.last(), x, y)
    }
}

/// A drawing changes no pixel beside its card.
pub open spec fn paints_on_cards(
    paint: spec_fn(Pixel, DrawingView, int, int) -> Pixel,
    cards: Seq<Card>,
) -> bool {
    forall|p: Pixel, d: DrawingView, x: int, y: int|
        !on_face(cards[d.card], x, y) ==> #[trigger] paint(p, d, x, y) == p
}

/// Only the drawings whose card has the pixel matter for it.
proof fn lemma_only_own_drawings_matter(
    paint: spec_fn(Pixel, DrawingView, int, int) -> Pixel,
    p: Pixel,
    ds: Seq<Drawing>,
    cards: Seq<Card>,
    n: int,
    x: int,
    y: int,
)
    requires
        paints_on_cards(paint, cards),
        0 <= n <= ds.len(),
    ensures
        painted(paint, p, ds, n, x, y) == painted_by(paint, p, drawn_at(ds, cards, n, x, y), x, y),
    decreases n,
{
    if n > 0 {
        lemma_only_own_drawings_matter(paint, p, ds, cards, n - 1, x, y);
        let before = drawn_at(ds, cards, n - 1, x, y);
        let d = ds[n - 1];
        if on_face(cards[d.card as int], x, y) {
            assert(before.push(d@).drop_last() =~= before);
        } else {
            assert(paint(painted(paint, p, ds, n - 1, x, y), d@, x, y) == painted(paint, p, ds, n - 1, x, y));
        }
    }
}

/// A pixel of the surface after a frame: in its regions it is cleared, drawn on and blended; elsewhere
/// nothing is cleared or drawn.
pub open spec fn after_frame(
    paint: spec_fn(Pixel, DrawingView, int, int) -> Pixel,
    before: Pixel,
    f: Frame,
    w: i32,
    h: i32,
    x: int,
    y: int,
) -> Pixel {
    let p = if in_regions(f.regions@, f.regions@.len() as int, x, y) {
        painted(paint, clear_pixel(), f.drawings@, f.drawings@.len() as int, x, y)
    } else {
        before
    };
    pixel_after(p, f.rects@, f.rects@.len() as int, f.regions@, f.look, w as int, h as int, x, y)
}

/// A frame for some damage puts into each damaged pixel of the screen what the frame for the whole
/// screen puts there, and leaves each other pixel as it is; whatever a drawing does, as long as it
/// changes no pixel beside its card.
pub proof fn law_damaged_redraw_equals_a_full_one(
    paint: spec_fn(Pixel, DrawingView, int, int) -> Pixel,
    before: Pixel,
    whole: Frame,
    part: Frame,
    regions: Seq<Region>,
    cards: Seq<Card>,
    items: Seq<DesktopItem>,
    bg: u32,
    alpha: u8,
    show_icons: bool,
    selected: Option<(usize, usize)>,
    w: i32,
    h: i32,
    x: int,
    y: int,
)
    requires
        paints_on_cards(paint, cards),
        is_card_frame(
            whole,
            seq![whole_screen(w, h)],
            Seq::new(cards.len(), |i: int| i),
            cards,
            items,
            bg,
            alpha,
            show_icons,
            selected,
            w,
            h,
        ),
        is_card_frame(
            part,
            regions,
            cards_in(cards, regions, cards.len() as int),
            cards,
            items,
            bg,
            alpha,
            show_icons,
            selected,
            w,
            h,
        ),
        0 <= x < w,
        0 <= y < h,
    ensures
        after_frame(paint, before, part, w, h, x, y) == if in_regions(regions, regions.len() as int, x, y) {
            after_frame(paint, before, whole, w, h, x, y)
        } else {
            before
        },
{
    let screen = seq![whole_screen(w, h)];
    assert(in_region(screen[0], x, y));
    assert(in_regions(screen, screen.len() as int, x, y));
    let rects = part.rects@;
    if in_regions(regions, regions.len() as int, x, y) {
        law_damage_is_drawn_as_the_whole(
            whole,
            part,
            regions,
            cards,
            items,
            bg,
            alpha,
            show_icons,
            selected,
            w,
            h,
            x,
            y,
        );
        let a = whole.drawings@;
        let b = part.drawings@;
        lemma_only_own_drawings_matter(paint, clear_pixel(), a, cards, a.len() as int, x, y);
        lemma_only_own_drawings_matter(paint, clear_pixel(), b, cards, b.len() as int, x, y);
        let p = painted(paint, clear_pixel(), b, b.len() as int, x, y);
        law_damage_is_blended_as_the_whole(p, rects, rects.len() as int, regions, part.look, w, h, x, y);
    } else {
        law_blending_stays_within(
            before,
            rects,
            rects.len() as int,
            regions,
            part.look,
            w as int,
            h as int,
            x,
            y,
        );
    }
}

} // verus!
