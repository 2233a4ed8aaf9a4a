//! What frames, colours and pixels are for, and what the desktop begins with.
use vstd::prelude::*;
use crate::color::{brightened, law_plain_brightness_keeps_colors, light_color};
use crate::desktop::{
    are_first_cards, are_sorted_cards, held_cards, icons_of, is_framed, laid_out, started, Damage, Model,
};
use crate::event_laws::{is_in_rows, law_laying_out_puts_the_cards_in_rows, same_but_place};
use crate::layout::{kind_title, on_face, Card, CardStyle};
use crate::paint::{card_ops, font_sizes, is_hint, Hint};
use crate::pixels::{
    border_alpha, clipped, coverage, half_radius, in_region, in_regions, in_shape, pixel_after, shade_at, shaded, Look, Pixel,
    Rect, Region,
};
use crate::renderer::{
    all_on_screen, are_held, card_meets, is_bbox, is_card_frame, is_drawing, is_hint_frame, is_solid,
    is_window_place, on_screen, rect_of, window_around, whole_screen, Frame, WindowPlace,
};
use crate::scanner::{DesktopItem, IconKind};
use crate::scroll::{held_scroll, max_scroll};
use crate::settings::Settings;
use crate::single::{
    lemma_signed_single_exact, lemma_signed_single_monotone, lemma_spacing_bounds, lemma_to_single_exact,
    lemma_to_single_keeps, lemma_to_single_near, power_of_two,
};

verus! {

/// A colour made brighter has its red in the lowest byte, then its green, then its blue, each made brighter by
/// itself.
pub proof fn law_channels_stay_apart(c: int, factor: int)
    requires
        0 <= c,
        0 <= factor,
    ensures
        light_color(c, factor) % 256 == brightened((c / 65536) % 256, factor),
        (light_color(c, factor) / 256) % 256 == brightened((c / 256) % 256, factor),
        light_color(c, factor) / 65536 == brightened(c % 256, factor),
        0 <= light_color(c, factor) < 0x100_0000,
{
    lemma_channels_are_bytes((c / 65536) % 256, factor);
    lemma_channels_are_bytes((c / 256) % 256, factor);
    lemma_channels_are_bytes(c % 256, factor);
}

/// A channel made brighter is a byte.
proof fn lemma_channels_are_bytes(v: int, factor: int)
    requires
        0 <= v,
        0 <= factor,
    ensures
        0 <= brightened(v, factor) <= 255,
{
    assert(0 <= v * factor) by (nonlinear_arith)
        requires
            0 <= v,
            0 <= factor,
    ;
    lemma_to_single_near(v * factor, 1);
}

/// A channel is made brighter in proportion, to within one, and is cut off at 255.
pub proof fn law_brightness_is_proportional(v: int, factor: int)
    requires
        0 <= v < 256,
        0 <= factor <= 0x200_0000,
    ensures
        brightened(v, factor) * 0x100_0000 <= v * factor + 256,
        brightened(v, factor) == 255 || v * factor < (brightened(v, factor) + 1) * 0x100_0000 + 256,
        brightened(v, factor) <= 255,
{
    let t = v * factor;
    assert(0 <= t <= 255 * 0x200_0000) by (nonlinear_arith)
        requires
            t == v * factor,
            0 <= v <= 255,
            0 <= factor <= 0x200_0000,
    ;
    lemma_to_single_near(t, 1);
    lemma_spacing_bounds(t);
    assert(t / 1 == t);
}

/// A pixel half a pixel or more outside of the outline is not seen; one half a pixel or more inside of it, still
/// on the border, is as opaque as the border: by 45 more than the card, but no more than full. The border has the
/// brightened colour of the ground, each channel its own.
pub proof fn law_borders_are_bright_and_smooth(p: Pixel, sd: int, bg: int, alpha: u8)
    requires
        0 <= bg,
        -15099494 <= sd <= 0x4000_0000,
    ensures
        ({
            let q = shaded(p, sd, bg, alpha as int);
            &&& sd >= 0x80_0000 ==> q.alpha == 0
            &&& sd <= -0x80_0000 ==> q.alpha == if alpha <= 210 {
                alpha + 45
            } else {
                255
            }
            &&& q.red == brightened((bg / 65536) % 256, 25165824)
            &&& q.green == brightened((bg / 256) % 256, 25165824)
            &&& q.blue == brightened(bg % 256, 25165824)
        }),
{
    let ba = border_alpha(alpha as int);
    lemma_channels_are_bytes((bg / 65536) % 256, 25165824);
    lemma_channels_are_bytes((bg / 256) % 256, 25165824);
    lemma_channels_are_bytes(bg % 256, 25165824);
    assert(power_of_two(24) == 0x100_0000) by {
        reveal_with_fuel(power_of_two, 25);
    }
    if sd >= 0x80_0000 {
        lemma_signed_single_monotone(0x80_0000 - sd, 0);
        lemma_signed_single_exact(0);
        assert(coverage(sd) == 0);
        assert(ba * 0 == 0);
        lemma_to_single_exact(0);
    } else if sd <= -0x80_0000 {
        lemma_to_single_keeps(1, 24);
        lemma_signed_single_monotone(0x100_0000, 0x80_0000 - sd);
        assert(coverage(sd) == 0x100_0000);
        lemma_to_single_keeps(ba, 24);
        assert((ba * 0x100_0000) / 0x100_0000 == ba);
    }
}

/// A pixel further inside than the border is wide keeps what is drawn there, and gets the opacity of the card.
pub proof fn law_the_inside_keeps_what_is_drawn(p: Pixel, sd: int, bg: int, alpha: u8)
    requires
        sd < -15099494,
    ensures
        shaded(p, sd, bg, alpha as int).alpha == alpha,
        shaded(p, sd, bg, alpha as int).red == p.red,
        shaded(p, sd, bg, alpha as int).green == p.green,
        shaded(p, sd, bg, alpha as int).blue == p.blue,
{
}

/// A surface shows of a rectangle exactly its points that are on the surface.
pub proof fn law_surfaces_show_what_is_on_them(rect: Rect, w: i32, h: i32, x: int, y: int)
    ensures
        match clipped(rect, w as int, h as int) {
            Some(g) => in_region(g, x, y) <==> rect.x <= x < rect.x + rect.width && rect.y <= y < rect.y
                + rect.height && 0 <= x < w && 0 <= y < h,
            None => !(rect.x <= x < rect.x + rect.width && rect.y <= y < rect.y + rect.height && 0 <= x < w && 0
                <= y < h),
        },
{
}

/// The pixel is one that rectangle `k` covers on the surface.
pub open spec fn is_covered_by(rects: Seq<Rect>, k: int, look: Look, w: int, h: int, x: int, y: int) -> bool {
    match clipped(rects[k], w, h) {
        Some(shape) => in_shape(shape, look.radius as int, x, y),
        None => false,
    }
}

/// The opacity of a pixel is that which the topmost of the rectangles that cover it gives, whatever lies below.
pub proof fn law_the_topmost_rectangle_gives_the_opacity(
    p: Pixel,
    q: Pixel,
    rects: Seq<Rect>,
    n: int,
    k: int,
    damage: Seq<Region>,
    look: Look,
    w: int,
    h: int,
    x: int,
    y: int,
)
    requires
        0 <= k < n <= rects.len(),
        in_regions(damage, damage.len() as int, x, y),
        is_covered_by(rects, k, look, w, h, x, y),
        forall|j: int| k < j < n ==> !#[trigger] is_covered_by(rects, j, look, w, h, x, y),
    ensures
        pixel_after(p, rects, n, damage, look, w, h, x, y).alpha == shade_at(
            q,
            x,
            y,
            clipped(rects[k], w, h)->0,
            look,
        ).alpha,
    decreases n,
{
    if k < n - 1 {
        assert(!is_covered_by(rects, n - 1, look, w, h, x, y));
        law_the_topmost_rectangle_gives_the_opacity(p, q, rects, n - 1, k, damage, look, w, h, x, y);
    }
}

/// The damage that a frame clears and draws is exactly what is on the screen of the damage asked for.
pub proof fn law_damage_is_cut_off_at_the_screen(gs: Seq<Region>, n: int, w: i32, h: i32, x: int, y: int)
    requires
        0 <= n <= gs.len(),
    ensures
        ({
            let parts = all_on_screen(gs, n, w as int, h as int);
            in_regions(parts, parts.len() as int, x, y) <==> in_regions(gs, n, x, y) && 0 <= x < w && 0 <= y < h
        }),
        forall|i: int|
            0 <= i < all_on_screen(gs, n, w as int, h as int).len() ==> is_solid(
                #[trigger] all_on_screen(gs, n, w as int, h as int)[i],
            ),
    decreases n,
{
    let now = all_on_screen(gs, n, w as int, h as int);
    if n > 0 {
        let before = all_on_screen(gs, n - 1, w as int, h as int);
        law_damage_is_cut_off_at_the_screen(gs, n - 1, w, h, x, y);
        let g = gs[n - 1];
        let part = on_screen(g, w as int, h as int);
        if in_regions(gs, n, x, y) {
            let j = choose|j: int| 0 <= j < n && #[trigger] in_region(gs[j], x, y);
            if j < n - 1 {
                assert(in_regions(gs, n - 1, x, y));
            }
        }
        if in_regions(gs, n - 1, x, y) {
            let j = choose|j: int| 0 <= j < n - 1 && #[trigger] in_region(gs[j], x, y);
            assert(in_region(gs[j], x, y));
        }
        if in_region(g, x, y) {
            assert(in_regions(gs, n, x, y));
        }
        if is_solid(part) {
            assert(now == before.push(part));
            assert(now[before.len() as int] == part);
            if in_region(part, x, y) {
                assert(in_region(now[before.len() as int], x, y));
            }
            if in_regions(before, before.len() as int, x, y) {
                let j = choose|j: int| 0 <= j < before.len() && #[trigger] in_region(before[j], x, y);
                assert(in_region(now[j], x, y));
            }
            if in_regions(now, now.len() as int, x, y) {
                let j = choose|j: int| 0 <= j < now.len() && #[trigger] in_region(now[j], x, y);
                if j < before.len() {
                    assert(in_region(before[j], x, y));
                } else {
                    assert(in_region(part, x, y));
                }
            }
            assert forall|i: int| 0 <= i < now.len() implies is_solid(#[trigger] now[i]) by {
                if i < before.len() {
                    assert(now[i] == before[i]);
                }
            }
        } else {
            assert(now == before);
        }
    }
}

/// A card meets a region if and only if they have a point in common, as long as both have a size.
pub proof fn law_cards_meet_regions_in_a_point(card: Card, g: Region)
    requires
        0 < card.width,
        0 < card.height,
        g.x0 < g.x1,
        g.y0 < g.y1,
    ensures
        card_meets(card, g) <==> exists|x: int, y: int| #[trigger] on_face(card, x, y) && in_region(g, x, y),
{
    if card_meets(card, g) {
        let x = if card.x > g.x0 {
            card.x as int
        } else {
            g.x0 as int
        };
        let y = if card.y > g.y0 {
            card.y as int
        } else {
            g.y0 as int
        };
        assert(on_face(card, x, y) && in_region(g, x, y));
    }
}

/// The window is no larger than the cards ask for: each of its sides is that of a card, or of the screen, or it
/// is one pixel wide or high.
pub proof fn law_the_window_is_no_larger_than_the_cards(p: WindowPlace, cards: Seq<Card>, w: i32, h: i32)
    requires
        is_window_place(p, cards, w as int, h as int),
        cards.len() > 0,
    ensures
        p.x == 0 || exists|i: int| 0 <= i < cards.len() && (#[trigger] cards[i]).x == p.x,
        p.y == 0 || exists|i: int| 0 <= i < cards.len() && (#[trigger] cards[i]).y == p.y,
        p.width == 1 || p.x + p.width == w || exists|i: int|
            0 <= i < cards.len() && (#[trigger] cards[i]).x + cards[i].width == p.x + p.width,
        p.height == 1 || p.y + p.height == h || exists|i: int|
            0 <= i < cards.len() && (#[trigger] cards[i]).y + cards[i].height == p.y + p.height,
{
    let b = choose|b: (i64, i64, i64, i64)| #[trigger]
        is_bbox(b, cards) && p == window_around(b, w as int, h as int);
    let i = choose|k: int| 0 <= k < cards.len() && (#[trigger] cards[k]).x == b.0;
    let j = choose|k: int| 0 <= k < cards.len() && (#[trigger] cards[k]).y == b.1;
    let k = choose|k: int| 0 <= k < cards.len() && #[trigger] cards[k].x + cards[k].width == b.2;
    let l = choose|k: int| 0 <= k < cards.len() && #[trigger] cards[k].y + cards[k].height == b.3;
    assert(cards[i].x == b.0 && cards[j].y == b.1);
    assert(cards[k].x + cards[k].width == b.2 && cards[l].y + cards[l].height == b.3);
}

/// A frame for the whole screen draws every card, each with its own steps, in the order in which they lie, and
/// lays the rectangle of each over the surface, with the opacity that is set.
pub proof fn law_full_frames_draw_every_card(
    f: Frame,
    cards: Seq<Card>,
    items: Seq<DesktopItem>,
    bg: u32,
    alpha: u8,
    show_icons: bool,
    selected: Option<(usize, usize)>,
    w: i32,
    h: i32,
    i: int,
)
    requires
        is_card_frame(
            f,
            seq![whole_screen(w, h)],
            Seq::new(cards.len(), |i: int| i),
            cards,
            items,
            bg,
            alpha,
            show_icons,
            selected,
            w,
            h,
        ),
        0 <= i < cards.len(),
    ensures
        f.drawings@.len() == cards.len(),
        f.drawings@[i].card == i,
        f.drawings@[i].fonts == font_sizes(cards[i].width as int),
        f.drawings@[i].ops@ == card_ops(cards[i], items, i as usize, bg, show_icons, selected),
        f.rects@.len() == cards.len(),
        f.rects@[i].x == cards[i].x && f.rects@[i].y == cards[i].y,
        f.rects@[i].width == cards[i].width && f.rects@[i].height == cards[i].height,
        f.look.alpha == alpha && f.look.bg == bg && f.look.radius == 12,
        f.hint is None,
{
    let ks = Seq::new(cards.len(), |i: int| i);
    assert(is_drawing(f.drawings@[i], ks[i], cards, items, bg, show_icons, selected));
}

/// While the cards are hidden, a frame shows the hint and no card, in the middle of the screen, in a window over
/// all of it.
pub proof fn law_the_hint_is_in_the_middle(f: Frame, bg: u32, w: i32, h: i32)
    requires
        is_hint_frame(f, bg, w, h),
        300 <= w,
        68 <= h,
    ensures
        f.drawings@.len() == 0,
        f.hint is Some,
        f.rects@.len() == 1,
        ({
            let r = f.rects@[0];
            &&& r.width == 300 && r.height == 68
            &&& 0 <= (w - (r.x + r.width)) - r.x <= 1
            &&& 0 <= (h - (r.y + r.height)) - r.y <= 1
            &&& f.hint->0.area.left == r.x && f.hint->0.area.top == r.y
            &&& f.hint->0.area.right == r.x + 300 && f.hint->0.area.bottom == r.y + 68
        }),
        f.window.x == 0 && f.window.y == 0 && f.window.width == w && f.window.height == h,
{
}

/// Before a frame, every scroll offset is brought within bounds, and nothing else of a card changes.
pub proof fn law_frames_hold_offsets_in_bounds(after: Seq<Card>, before: Seq<Card>, show_icons: bool, i: int)
    requires
        are_held(after, before, show_icons),
        0 <= i < before.len(),
        max_scroll(before[i], show_icons) <= i32::MAX,
    ensures
        after.len() == before.len(),
        after[i] == (Card { scroll: after[i].scroll, ..before[i] }),
        0 <= after[i].scroll <= max_scroll(before[i], show_icons),
        0 <= before[i].scroll <= max_scroll(before[i], show_icons) ==> after[i].scroll == before[i].scroll,
        before[i].scroll < 0 ==> after[i].scroll == 0,
        before[i].scroll > max_scroll(before[i], show_icons) ==> after[i].scroll == max_scroll(
            before[i],
            show_icons,
        ),
{
    assert(after[i] == held_scroll(before[i], show_icons));
}

/// The desktop begins with five cards: applications, folders, documents, images, and the rest. Each is a list from
/// its first line on, and holds exactly the items of its kind; they stand in rows, in as many columns as are set.
pub proof fn law_the_desktop_begins_with_a_card_for_each_kind(
    cards: Seq<Card>,
    items: Seq<DesktopItem>,
    cols: int,
    i: usize,
)
    requires
        are_first_cards(cards, items, cols),
        items.len() <= usize::MAX,
        i < items.len(),
    ensures
        cards.len() == 5,
        cards[0].kind == IconKind::App,
        cards[1].kind == IconKind::Folder,
        cards[2].kind == IconKind::Document,
        cards[3].kind == IconKind::Image,
        cards[4].kind == IconKind::Other,
        forall|k: int|
            0 <= k < 5 ==> (#[trigger] cards[k]).style == CardStyle::List && cards[k].scroll == 0
                && cards[k].title@ == kind_title(cards[k].kind),
        forall|k: int|
            0 <= k < 5 ==> ((#[trigger] cards[k]).item_indices@.contains(i) <==> items[i as int].kind
                == cards[k].kind),
        exists|sorted: Seq<Card>| is_in_rows(cards, sorted, cols),
{
    let sorted = choose|sorted: Seq<Card>| #[trigger]
        are_sorted_cards(sorted, items) && cards == laid_out(sorted, cols);
    law_laying_out_puts_the_cards_in_rows(sorted, cols);
    assert(is_in_rows(cards, sorted, cols));
    assert forall|k: int| 0 <= k < 5 implies same_but_place(#[trigger] cards[k], sorted[k]) by {}
    assert(crate::layout::is_sorted_card(sorted[0], IconKind::App, items));
    assert(crate::layout::is_sorted_card(sorted[1], IconKind::Folder, items));
    assert(crate::layout::is_sorted_card(sorted[2], IconKind::Document, items));
    assert(crate::layout::is_sorted_card(sorted[3], IconKind::Image, items));
    assert(crate::layout::is_sorted_card(sorted[4], IconKind::Other, items));
    assert(same_but_place(cards[0], sorted[0]) && same_but_place(cards[1], sorted[1]) && same_but_place(
        cards[2],
        sorted[2],
    ) && same_but_place(cards[3], sorted[3]) && same_but_place(cards[4], sorted[4]));
    crate::layout_laws::law_each_item_is_on_one_card(items, IconKind::App);
    crate::layout_laws::law_each_item_is_on_one_card(items, IconKind::Folder);
    crate::layout_laws::law_each_item_is_on_one_card(items, IconKind::Document);
    crate::layout_laws::law_each_item_is_on_one_card(items, IconKind::Image);
    crate::layout_laws::law_each_item_is_on_one_card(items, IconKind::Other);
}

/// At the start the cards show, nothing is selected, dragged or open, and the settings are those given.
pub proof fn law_the_desktop_begins_at_rest(items: Seq<DesktopItem>, settings: Settings, cards: Seq<Card>)
    ensures
        ({
            let m = started(items, settings, cards);
            &&& m.items == items && m.cards == cards && m.settings == settings
            &&& m.visible && !m.menu_open && !m.settings_open
            &&& m.drag is None && m.pick is None && m.selected is None && m.menu_card is None
            &&& m.renderer.bg_color == settings.bg_color && !m.renderer.ready
        }),
{
}

/// The icons that are given back at the end are exactly those that items have.
pub proof fn law_every_icon_is_given_back(items: Seq<DesktopItem>, n: int, icon: isize)
    requires
        0 <= n <= items.len(),
    ensures
        icons_of(items, n).contains(icon) <==> exists|i: int|
            0 <= i < n && (#[trigger] items[i]).icon == Some(icon),
    decreases n,
{
    if n > 0 {
        law_every_icon_is_given_back(items, n - 1, icon);
        let before = icons_of(items, n - 1);
        let now = icons_of(items, n);
        if before.contains(icon) {
            let k = choose|k: int| 0 <= k < before.len() && before[k] == icon;
            assert(now[k] == icon);
        }
        if now.contains(icon) {
            let k = choose|k: int| 0 <= k < now.len() && now[k] == icon;
            if k < before.len() {
                assert(before[k] == icon);
            } else {
                assert(items[n - 1].icon == Some(icon));
            }
        }
        if items[n - 1].icon == Some(icon) {
            assert(now[before.len() as int] == icon);
        }
    }
}

/// A frame of the desktop shows the desktop: its cards with its items, its selection and its colour, icons as they are
/// set, with the opacity that is set; or the hint while the cards are hidden. There is one for all that is asked
/// for, on a screen with pixels.
pub proof fn law_frames_show_the_desktop(r: Option<Frame>, after: Model, m: Model, w: i32, h: i32, i: int)
    requires
        is_framed(r, after, m, Damage::All, w, h),
        0 < w,
        0 < h,
        0 <= i < m.cards.len(),
    ensures
        r is Some,
        after.cards.len() == m.cards.len(),
        after.cards[i] == (Card { scroll: after.cards[i].scroll, ..m.cards[i] }),
        after.items == m.items && after.settings == m.settings && after.selected == m.selected && after.visible
            == m.visible && after.drag == m.drag,
        m.visible ==> {
            let f = r->0;
            &&& f.hint is None
            &&& f.drawings@.len() == m.cards.len()
            &&& f.drawings@[i].ops@ == card_ops(
                after.cards[i],
                m.items,
                i as usize,
                m.renderer.bg_color,
                m.settings.show_icons,
                m.selected,
            )
            &&& f.look.alpha == m.settings.alpha && f.look.bg == m.renderer.bg_color
            &&& f.rects@[i] == rect_of(m.cards[i])
            &&& f.regions@.len() == 1 && in_region(f.regions@[0], 0, 0) && in_region(f.regions@[0], w - 1, h - 1)
        },
        !m.visible ==> r->0.hint is Some && r->0.drawings@.len() == 0,
{
    if m.visible {
        law_full_frames_draw_every_card(
            r->0,
            held_cards(m),
            m.items,
            m.renderer.bg_color,
            m.settings.alpha,
            m.settings.show_icons,
            m.selected,
            w,
            h,
            i,
        );
    }
    assert(held_cards(m)[i] == held_scroll(m.cards[i], m.settings.show_icons));
}

/// A frame for parts of the desktop clears and draws exactly the parts that are on the screen; where none is, there
/// is no frame, and nothing changes.
pub proof fn law_partial_frames_cover_their_parts(
    r: Option<Frame>,
    after: Model,
    m: Model,
    parts: Seq<Region>,
    w: i32,
    h: i32,
    x: int,
    y: int,
)
    requires
        is_framed(r, after, m, Damage::Parts(parts), w, h),
        m.visible,
        0 <= x < w,
        0 <= y < h,
    ensures
        in_regions(parts, parts.len() as int, x, y) ==> r is Some,
        r is Some ==> (in_regions(r->0.regions@, r->0.regions@.len() as int, x, y) <==> in_regions(
            parts,
            parts.len() as int,
            x,
            y,
        )),
        r is Some ==> r->0.look.alpha == m.settings.alpha && r->0.look.bg == m.renderer.bg_color,
        r is None ==> after == m,
{
    law_damage_is_cut_off_at_the_screen(parts, parts.len() as int, w, h, x, y);
}

/// Where nothing is asked for, no frame is made and nothing changes.
pub proof fn law_nothing_asked_for_is_nothing_drawn(r: Option<Frame>, after: Model, m: Model, w: i32, h: i32)
    requires
        is_framed(r, after, m, Damage::Nothing, w, h),
    ensures
        r is None,
        after == m,
{
}

/// The hint has the colour that is set for the cards.
pub proof fn law_the_hint_has_the_colour_that_is_set(hint: Hint, w: i32, h: i32, bg: u32)
    requires
        is_hint(hint, w as int, h as int, bg as int),
    ensures
        hint.color as int % 256 == (bg / 65536) % 256,
        (hint.color as int / 256) % 256 == (bg / 256) % 256,
        hint.color as int / 65536 == bg % 256,
        hint.area.top <= hint.text_y < hint.area.bottom,
{
    law_channels_stay_apart(bg as int, 0x100_0000);
    law_plain_brightness_keeps_colors((bg as int / 65536) % 256);
    law_plain_brightness_keeps_colors((bg as int / 256) % 256);
    law_plain_brightness_keeps_colors(bg as int % 256);
}

/// The corners of a shape are as round as asked for, but no rounder than half of its shorter side.
pub proof fn law_corners_fit_their_shape(shape: Region, radius: int)
    requires
        0 <= shape.x1 - shape.x0 < 0x100_0000,
        0 <= shape.y1 - shape.y0 < 0x100_0000,
        0 <= radius,
    ensures
        half_radius(shape, radius) <= 2 * radius,
        half_radius(shape, radius) <= shape.x1 - shape.x0,
        half_radius(shape, radius) <= shape.y1 - shape.y0,
        half_radius(shape, radius) == 2 * radius || half_radius(shape, radius) == shape.x1 - shape.x0
            || half_radius(shape, radius) == shape.y1 - shape.y0,
{
    lemma_to_single_exact(shape.x1 - shape.x0);
    lemma_to_single_exact(shape.y1 - shape.y0);
}

} // verus!
