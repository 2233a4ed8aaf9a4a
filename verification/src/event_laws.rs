//! What each event of the desktop is for, told by the fields of the cards: which card it touches, what
//! becomes of that card, and that all else stays.
use vstd::prelude::*;
use crate::desktop::{
    after_key, are_hits, command_leads_to, double_click_leads_to, dragged, is_after_command, is_changed_by,
    is_face, key_leads_to, laid_out, moved, move_damage, press_leads_to, pressed, raised, region_of,
    release_damage, toggled, wheel_damage, wheeled, with_settings, CommandAction, Damage, DoubleClick, Hits,
    KeyAction, Model, Press,
};
use crate::geometry::{lemma_scaled_bounds, scale_of, TITLE_H};
use crate::layout::{edge_at, is_added, item_at, on_close, on_face, on_style, on_title, Card, ResizeKind};
use crate::pixels::{in_region, in_regions};
use crate::settings::Settings;

verus! {

/// Two cards hold the same: the kind, the title, the items, and how they are shown.
pub open spec fn same_but_place(a: Card, b: Card) -> bool {
    &&& a.kind == b.kind
    &&& a.title@ == b.title@
    &&& a.item_indices@ == b.item_indices@
    &&& a.style == b.style
    &&& a.scroll == b.scroll
}

/// Only the cards differ.
pub open spec fn same_but_cards(a: Model, b: Model) -> bool {
    &&& a.renderer == b.renderer
    &&& a.items == b.items
    &&& a.drag == b.drag
    &&& a.pick == b.pick
    &&& a.visible == b.visible
    &&& a.menu_open == b.menu_open
    &&& a.menu_card == b.menu_card
    &&& a.settings == b.settings
    &&& a.settings_open == b.settings_open
    &&& a.selected == b.selected
}

/// The cards `after` are the cards `before` without the one at `k`, in their order; places aside.
pub open spec fn is_without(after: Seq<Card>, before: Seq<Card>, k: int) -> bool {
    &&& after.len() == before.len() - 1
    &&& forall|i: int| 0 <= i < k ==> same_but_place(#[trigger] after[i], before[i])
    &&& forall|i: int| k <= i < after.len() ==> same_but_place(#[trigger] after[i], before[i + 1])
}

/// What is hit is hit: each hit names a card that has it under the point, and no card above that one has
/// it; where none is named, no card has it.
pub proof fn law_hits_are_topmost(hits: Hits, cards: Seq<Card>, x: int, y: int, show_icons: bool, j: int)
    requires
        are_hits(hits, cards, x, y, show_icons),
        0 <= j < cards.len(),
    ensures
        match hits.face {
            Some(k) => k < cards.len() && on_face(cards[k as int], x, y) && (j > k ==> !on_face(cards[j], x, y)),
            None => !on_face(cards[j], x, y),
        },
        match hits.close {
            Some(k) => k < cards.len() && on_close(cards[k as int], x, y) && (j > k ==> !on_close(
                cards[j],
                x,
                y,
            )),
            None => !on_close(cards[j], x, y),
        },
        match hits.style {
            Some(k) => k < cards.len() && on_style(cards[k as int], x, y) && (j > k ==> !on_style(
                cards[j],
                x,
                y,
            )),
            None => !on_style(cards[j], x, y),
        },
        match hits.edge {
            Some((k, kind)) => k < cards.len() && edge_at(cards[k as int], x, y) == Some(kind) && (j > k
                ==> edge_at(cards[j], x, y) is None),
            None => edge_at(cards[j], x, y) is None,
        },
        match hits.item {
            Some((k, ii)) => k < cards.len() && item_at(cards[k as int], x, y, show_icons) == Some(ii as int)
                && ii < cards[k as int].item_indices@.len() && (j > k ==> item_at(
                cards[j],
                x,
                y,
                show_icons,
            ) is None),
            None => item_at(cards[j], x, y, show_icons) is None,
        },
        match hits.title {
            Some(k) => k < cards.len() && on_title(cards[k as int], x, y) && (j > k ==> !on_title(
                cards[j],
                x,
                y,
            )),
            None => !on_title(cards[j], x, y),
        },
{
    let c = cards[j];
}

/// A press on the closing button of a card removes that card: the others are left in their order, each with
/// its kind, its title, its items, its style and its scroll offset, and nothing else changes. The program
/// ends with its last card.
pub proof fn law_closing_removes_the_card_of_the_button(m: Model, hits: Hits, p: Press, x: i32, y: i32)
    requires
        are_hits(hits, m.cards, x as int, y as int, m.settings.show_icons),
        hits.close is Some,
        press_leads_to(p, m, hits),
    ensures
        on_close(m.cards[hits.close->0 as int], x as int, y as int),
        is_without(pressed(m, hits, x, y).cards, m.cards, hits.close->0 as int),
        same_but_cards(pressed(m, hits, x, y), m),
        p.quit == (m.cards.len() == 1),
        !p.capture,
        m.cards.len() > 1 ==> p.redraw@ == Damage::All,
{
}

/// A press on the style button of a card shows that card in the other style, from its first line on;
/// nothing else of it changes, and nothing of the other cards.
pub proof fn law_the_style_button_switches_its_card(m: Model, hits: Hits, p: Press, x: i32, y: i32)
    requires
        are_hits(hits, m.cards, x as int, y as int, m.settings.show_icons),
        hits.close is None,
        hits.style is Some,
        press_leads_to(p, m, hits),
    ensures
        ({
            let k = hits.style->0 as int;
            let after = pressed(m, hits, x, y);
            let a = after.cards[k];
            let b = m.cards[k];
            &&& on_style(b, x as int, y as int)
            &&& after.cards.len() == m.cards.len()
            &&& a.style != b.style
            &&& a.scroll == 0
            &&& a.kind == b.kind && a.title == b.title && a.item_indices == b.item_indices
            &&& a.x == b.x && a.y == b.y && a.width == b.width && a.height == b.height
            &&& forall|i: int| 0 <= i < m.cards.len() && i != k ==> #[trigger] after.cards[i] == m.cards[i]
            &&& same_but_cards(after, m)
            &&& !p.quit && !p.capture && p.redraw@ == Damage::All
        }),
{
}

/// A press on an item, where no button and no edge is, selects that item, and nothing else changes. What
/// was selected before is kept for what is drawn at the release.
pub proof fn law_a_press_selects_the_item_under_it(m: Model, hits: Hits, p: Press, x: i32, y: i32)
    requires
        are_hits(hits, m.cards, x as int, y as int, m.settings.show_icons),
        hits.close is None,
        hits.style is None,
        hits.edge is None,
        hits.item is Some,
        press_leads_to(p, m, hits),
    ensures
        ({
            let after = pressed(m, hits, x, y);
            &&& after.selected is Some
            &&& (after.selected->0).0 < m.cards.len()
            &&& item_at(m.cards[(after.selected->0).0 as int], x as int, y as int, m.settings.show_icons) == Some(
                (after.selected->0).1 as int,
            )
            &&& after.pick is Some && after.pick->0.before == m.selected
            &&& after.cards == m.cards && after.drag == m.drag && after.items == m.items
            &&& after.visible == m.visible && after.settings == m.settings
            &&& after.menu_open == m.menu_open && after.menu_card == m.menu_card
            &&& !p.quit && !p.capture && p.redraw@ == Damage::Nothing
        }),
{
}

/// A press that hits none of these changes nothing.
pub proof fn law_a_press_beside_all_changes_nothing(m: Model, hits: Hits, p: Press, x: i32, y: i32)
    requires
        hits.close is None,
        hits.style is None,
        hits.edge is None,
        hits.item is None,
        hits.title is None,
        press_leads_to(p, m, hits),
    ensures
        pressed(m, hits, x, y) == m,
        !p.quit && !p.capture && p.redraw@ == Damage::Nothing,
{
}

/// The cards `after` are the cards `before` with the one at `k` on top and the others in their order; the
/// one on top can differ.
pub open spec fn is_raised(after: Seq<Card>, before: Seq<Card>, k: int) -> bool {
    &&& after.len() == before.len()
    &&& forall|i: int| 0 <= i < k ==> #[trigger] after[i] == before[i]
    &&& forall|i: int| k <= i < after.len() - 1 ==> #[trigger] after[i] == before[i + 1]
}

/// A number, no less than the one bound and no more than the other.
pub open spec fn bounded(v: int, lo: int, hi: int) -> int {
    if v <= lo {
        lo
    } else if v <= hi {
        v
    } else {
        hi
    }
}

/// A press on an edge of a card, where no button is, grasps that edge: the card comes to the top, the
/// pointer is held, and when the pointer moves, that card, and no other, is as much wider or higher as the
/// pointer has moved, between 120 and 640 wide and between 80 and 420 high. The right edge changes no
/// height, the lower edge no width.
pub proof fn law_dragging_an_edge_resizes_its_card(
    m: Model,
    hits: Hits,
    p: Press,
    x: i32,
    y: i32,
    to_x: int,
    to_y: int,
    sw: int,
    sh: int,
    due: bool,
)
    requires
        are_hits(hits, m.cards, x as int, y as int, m.settings.show_icons),
        m.cards.len() <= usize::MAX,
        hits.close is None,
        hits.style is None,
        hits.edge is Some,
        press_leads_to(p, m, hits),
    ensures
        ({
            let k = (hits.edge->0).0 as int;
            let kind = (hits.edge->0).1;
            let b = m.cards[k];
            let after = moved(pressed(m, hits, x, y), to_x, to_y, sw, sh, due);
            let a = after.cards.last();
            &&& edge_at(b, x as int, y as int) == Some(kind)
            &&& is_raised(after.cards, m.cards, k)
            &&& same_but_place(a, b)
            &&& a.x == b.x && a.y == b.y
            &&& a.width == if kind == ResizeKind::Bottom {
                b.width as int
            } else {
                bounded(b.width + to_x - x, 120, 640)
            }
            &&& a.height == if kind == ResizeKind::Right {
                b.height as int
            } else {
                bounded(b.height + to_y - y, 80, 420)
            }
            &&& !p.quit && p.capture && p.redraw@ == Damage::Nothing
            &&& after.selected == m.selected && after.visible == m.visible && after.items == m.items
        }),
{
    let m1 = pressed(m, hits, x, y);
    let k = (hits.edge->0).0 as int;
    assert(m1.cards == raised(m.cards, k));
    assert(m1.cards.last() == m.cards[k]);
}

/// A press on the title of a card, where no button, no edge and no item is, grasps that card: it comes to
/// the top, the pointer is held, and when the pointer moves, that card, and no other, moves as far as the
/// pointer, but not off the screen. Its size stays.
pub proof fn law_dragging_a_title_moves_its_card(
    m: Model,
    hits: Hits,
    p: Press,
    x: i32,
    y: i32,
    to_x: int,
    to_y: int,
    sw: i32,
    sh: i32,
    due: bool,
)
    requires
        are_hits(hits, m.cards, x as int, y as int, m.settings.show_icons),
        m.cards.len() <= usize::MAX,
        hits.close is None,
        hits.style is None,
        hits.edge is None,
        hits.item is None,
        hits.title is Some,
        press_leads_to(p, m, hits),
    ensures
        ({
            let k = hits.title->0 as int;
            let b = m.cards[k];
            let after = moved(pressed(m, hits, x, y), to_x, to_y, sw as int, sh as int, due);
            let a = after.cards.last();
            &&& on_title(b, x as int, y as int)
            &&& is_raised(after.cards, m.cards, k)
            &&& same_but_place(a, b)
            &&& a.width == b.width && a.height == b.height
            &&& 0 <= b.width <= sw ==> a.x == bounded(b.x + to_x - x, 0, sw - b.width)
            &&& 0 <= b.height <= sh ==> a.y == bounded(b.y + to_y - y, 0, sh - b.height)
            &&& b.width > sw ==> a.x == 0
            &&& b.height > sh ==> a.y == 0
            &&& !p.quit && p.capture && p.redraw@ == Damage::Nothing
            &&& after.selected == m.selected && after.visible == m.visible && after.items == m.items
        }),
{
    let m1 = pressed(m, hits, x, y);
    let k = hits.title->0 as int;
    assert(m1.cards == raised(m.cards, k));
    assert(m1.cards.last() == m.cards[k]);
    let w = m.cards[k].width as int;
    lemma_scaled_bounds(28, scale_of(w));
    lemma_scaled_bounds(TITLE_H as int, scale_of(w));
}

/// A drag goes by where the pointer is, not by how it came there: over two moves it leads to what the
/// second alone leads to.
pub proof fn law_drags_go_by_the_last_point(
    m: Model,
    x1: int,
    y1: int,
    x2: int,
    y2: int,
    sw: i32,
    sh: i32,
    due1: bool,
    due2: bool,
)
    requires
        m.drag is Some,
        m.drag->0.card_index < m.cards.len(),
    ensures
        moved(moved(m, x1, y1, sw as int, sh as int, due1), x2, y2, sw as int, sh as int, due2).cards == moved(
            m,
            x2,
            y2,
            sw as int,
            sh as int,
            due2,
        ).cards,
{
    let a = moved(moved(m, x1, y1, sw as int, sh as int, due1), x2, y2, sw as int, sh as int, due2).cards;
    let b = moved(m, x2, y2, sw as int, sh as int, due2).cards;
    assert(a =~= b);
}

/// A move of the pointer touches no card but the one that is dragged, and without a drag it does nothing.
pub proof fn law_moves_touch_only_the_dragged_card(m: Model, x: int, y: int, sw: int, sh: int, due: bool, i: int)
    requires
        0 <= i < m.cards.len(),
        m.drag is Some ==> m.drag->0.card_index < m.cards.len(),
    ensures
        m.drag is None ==> moved(m, x, y, sw, sh, due) == m && move_damage(m, x, y, sw, sh, due)
            == Damage::Nothing,
        m.drag is Some && m.drag->0.card_index != i ==> moved(m, x, y, sw, sh, due).cards[i] == m.cards[i],
        moved(m, x, y, sw, sh, due).cards.len() == m.cards.len(),
        moved(m, x, y, sw, sh, due).selected == m.selected,
        moved(m, x, y, sw, sh, due).settings == m.settings,
        moved(m, x, y, sw, sh, due).visible == m.visible,
        !due ==> move_damage(m, x, y, sw, sh, due) == Damage::Nothing,
{
}

/// Every frame of a drag covers where the dragged card was last shown, and where it is now; after it, that
/// is where the card was last shown.
pub proof fn law_frames_of_a_drag_cover_the_card(m: Model, x: int, y: int, sw: int, sh: int, px: int, py: int)
    requires
        m.drag is Some,
        m.drag->0.card_index < m.cards.len(),
        i32::MIN <= px < i32::MAX,
        i32::MIN <= py < i32::MAX,
    ensures
        ({
            let after = moved(m, x, y, sw, sh, true);
            let card = after.cards[m.drag->0.card_index as int];
            match move_damage(m, x, y, sw, sh, true) {
                Damage::Parts(parts) => {
                    &&& in_region(m.drag->0.shown, px, py) ==> in_regions(parts, parts.len() as int, px, py)
                    &&& on_face(card, px, py) ==> in_regions(parts, parts.len() as int, px, py)
                    &&& after.drag is Some
                    &&& in_region(after.drag->0.shown, px, py) == on_face(card, px, py)
                },
                _ => false,
            }
        }),
{
    if let Damage::Parts(parts) = move_damage(m, x, y, sw, sh, true) {
        let card = moved(m, x, y, sw, sh, true).cards[m.drag->0.card_index as int];
        assert(parts[0] == m.drag->0.shown && parts[1] == region_of(card));
        assert(in_region(parts[1], px, py) == on_face(card, px, py));
        if in_region(m.drag->0.shown, px, py) {
            assert(in_region(parts[0], px, py));
        }
    }
}

/// The release of the button draws again, after a selection, the card that had the selection and the card
/// that has it now, and after anything else everything.
pub proof fn law_releases_redraw_both_selections(m: Model, ci: int, px: int, py: int)
    requires
        0 <= ci < m.cards.len(),
        i32::MIN <= px < i32::MAX,
        i32::MIN <= py < i32::MAX,
        on_face(m.cards[ci], px, py),
        (m.selected is Some && (m.selected->0).0 == ci) || (m.pick is Some && m.pick->0.before is Some
            && (m.pick->0.before->0).0 == ci),
    ensures
        match release_damage(m) {
            Damage::Nothing => false,
            Damage::All => m.pick is None || m.drag is Some,
            Damage::Parts(parts) => in_regions(parts, parts.len() as int, px, py),
        },
{
    if let Damage::Parts(parts) = release_damage(m) {
        let g = region_of(m.cards[ci]);
        assert(in_region(g, px, py));
        let a = crate::desktop::selected_region(m.cards, m.pick->0.before);
        let b = crate::desktop::selected_region(m.cards, m.selected);
        assert(parts == a + b);
        if m.selected is Some && (m.selected->0).0 == ci {
            assert(parts[a.len() as int] == b[0]);
            assert(in_region(parts[a.len() as int], px, py));
        } else {
            assert(parts[0] == a[0]);
            assert(in_region(parts[0], px, py));
        }
    }
}

/// A double click on an item of a card that shows opens the item that stands in the list of that card, at
/// the place that is hit, if the item list has it; and nothing else.
pub proof fn law_double_clicks_open_the_item_under_them(m: Model, hits: Hits, x: int, y: int, ci: usize, ii: usize)
    requires
        are_hits(hits, m.cards, x, y, m.settings.show_icons),
        m.visible,
        ci < m.cards.len(),
        item_at(m.cards[ci as int], x, y, m.settings.show_icons) == Some(ii as int),
        forall|j: int|
            ci < j < m.cards.len() ==> item_at(#[trigger] m.cards[j], x, y, m.settings.show_icons) is None,
    ensures
        double_click_leads_to(m, hits) == if m.cards[ci as int].item_indices@[ii as int] < m.items.len() {
            DoubleClick::Open(m.cards[ci as int].item_indices@[ii as int])
        } else {
            DoubleClick::Nothing
        },
{
    match hits.item {
        Some((k, _)) => {
            if k < ci {
                assert(item_at(m.cards[ci as int], x, y, m.settings.show_icons) is None);
            } else if k > ci {
                assert(item_at(m.cards[k as int], x, y, m.settings.show_icons) is None);
            }
        },
        None => {
            assert(item_at(m.cards[ci as int], x, y, m.settings.show_icons) is None);
        },
    }
}

/// A double click opens only an item of a card that shows and is under the point; it hides the cards or
/// brings them back only where that is switched on, and only beside all cards that show.
pub proof fn law_double_clicks_do_nothing_else(m: Model, hits: Hits, x: int, y: int)
    requires
        are_hits(hits, m.cards, x, y, m.settings.show_icons),
    ensures
        match double_click_leads_to(m, hits) {
            DoubleClick::Open(k) => m.visible && k < m.items.len() && exists|ci: int|
                0 <= ci < m.cards.len() && on_face(#[trigger] m.cards[ci], x, y)
                    && m.cards[ci].item_indices@.contains(k),
            DoubleClick::Redraw => m.settings.double_click_hide && (m.visible ==> forall|j: int|
                0 <= j < m.cards.len() ==> !on_face(#[trigger] m.cards[j], x, y)),
            DoubleClick::Nothing => !m.settings.double_click_hide || (m.visible && exists|j: int|
                0 <= j < m.cards.len() && on_face(#[trigger] m.cards[j], x, y)),
        },
{
    if m.visible {
        if let Some((ci, ii)) = hits.item {
            let c = m.cards[ci as int];
            assert(on_face(c, x, y));
            assert(c.item_indices@.contains(c.item_indices@[ii as int]));
        }
        if let Some(k) = hits.face {
            assert(on_face(m.cards[k as int], x, y));
        }
    }
}

/// A turn of the wheel by whole notches scrolls the card under the pointer by as many lines, down for a turn
/// towards the user and up for one away, for a grid and for a list alike; parts of a notch do not count.
/// Nothing else changes.
pub proof fn law_the_wheel_scrolls_the_card_under_it(m: Model, face: Option<usize>, x: int, y: int, n: int, rest: int)
    requires
        is_face(face, m.cards, x, y),
        !m.menu_open,
        face is Some,
        0 <= n <= 400,
        0 <= rest < 120,
        i32::MIN + 400 <= m.cards[face->0 as int].scroll <= i32::MAX - 400,
    ensures
        ({
            let k = face->0 as int;
            let down = wheeled(m, face, -(120 * n + rest));
            let up = wheeled(m, face, 120 * n + rest);
            &&& on_face(m.cards[k], x, y)
            &&& down.cards[k].scroll == m.cards[k].scroll + n
            &&& up.cards[k].scroll == m.cards[k].scroll - n
            &&& down.cards == m.cards.update(k, Card { scroll: (m.cards[k].scroll + n) as i32, ..m.cards[k] })
            &&& up.cards == m.cards.update(k, Card { scroll: (m.cards[k].scroll - n) as i32, ..m.cards[k] })
            &&& same_but_cards(down, m) && same_but_cards(up, m)
        }),
{
    assert((120 * n + rest) / 120 == n);
}

/// A turn of the wheel draws again all of the card that it scrolls; beside all cards it does nothing.
pub proof fn law_the_wheel_redraws_its_card(m: Model, face: Option<usize>, x: int, y: int, delta: int, px: int, py: int)
    requires
        is_face(face, m.cards, x, y),
        !m.menu_open,
        i32::MIN <= px < i32::MAX,
        i32::MIN <= py < i32::MAX,
    ensures
        match face {
            Some(k) => match wheel_damage(m, face) {
                Damage::Parts(parts) => on_face(m.cards[k as int], px, py) == in_regions(
                    parts,
                    parts.len() as int,
                    px,
                    py,
                ),
                _ => false,
            },
            None => wheeled(m, face, delta) == m && wheel_damage(m, face) == Damage::Nothing,
        },
{
    if let Some(k) = face {
        if let Damage::Parts(parts) = wheel_damage(m, face) {
            assert(parts.len() == 1);
            assert(in_region(parts[0], px, py) == on_face(m.cards[k as int], px, py));
        }
    }
}

/// The toggle hides cards that show and shows cards that are hidden, and nothing else.
pub proof fn law_the_toggle_turns_the_cards_on_and_off(m: Model)
    ensures
        toggled(m).visible != m.visible,
        toggled(m).cards == m.cards,
        same_but_cards(Model { visible: m.visible, ..toggled(m) }, m),
{
}

/// The cards are in the slots of a layout: each holds what it held, and they stand in rows.
pub open spec fn is_in_rows(after: Seq<Card>, before: Seq<Card>, cols: int) -> bool {
    let n = if cols == 0 {
        3
    } else {
        cols
    };
    let w: int = if n == 2 {
        340
    } else if n == 4 {
        200
    } else {
        260
    };
    let h: int = if n == 2 {
        260
    } else if n == 4 {
        160
    } else {
        200
    };
    &&& after.len() == before.len()
    &&& forall|i: int|
        0 <= i < after.len() ==> {
            &&& same_but_place(#[trigger] after[i], before[i])
            &&& after[i].width == w
            &&& after[i].height == h
            &&& after[i].x == (16 + (i % n) * (w + 16)) as i32
            &&& after[i].y == (16 + (i / n) * (h + 16)) as i32
        }
}

/// To lay the cards out puts them into rows, from the left to the right and from the top down, in the order
/// that they have, and leaves what they hold.
pub proof fn law_laying_out_puts_the_cards_in_rows(cards: Seq<Card>, cols: int)
    ensures
        is_in_rows(laid_out(cards, cols), cards, cols),
{
}

/// F5 lays all cards out in as many columns as are set. Esc ends the program. F1 opens the settings, unless
/// they are open. No other key does anything.
pub proof fn law_keys(m: Model, key: usize)
    ensures
        key == 0x74 ==> key_leads_to(m, key) == KeyAction::Redraw && is_in_rows(
            after_key(m, key).cards,
            m.cards,
            m.settings.card_cols as int,
        ) && same_but_cards(after_key(m, key), m),
        key == 0x1B ==> key_leads_to(m, key) == KeyAction::Quit && after_key(m, key) == m,
        key == 0x70 && m.settings_open ==> key_leads_to(m, key) == KeyAction::Nothing && after_key(m, key) == m,
        key == 0x70 && !m.settings_open ==> key_leads_to(m, key) == KeyAction::OpenSettings && after_key(m, key)
            == (Model { settings_open: true, ..m }),
        key != 0x70 && key != 0x74 && key != 0x1B ==> key_leads_to(m, key) == KeyAction::Nothing && after_key(
            m,
            key,
        ) == m,
{
    law_laying_out_puts_the_cards_in_rows(m.cards, m.settings.card_cols as int);
}

/// The command to delete removes the card that the menu was opened on, and lays the others out; without
/// such a card it changes none.
pub proof fn law_deleting_removes_the_card_of_the_menu(after: Model, m: Model)
    requires
        is_after_command(after, m, 1),
    ensures
        after.menu_card is None,
        match m.menu_card {
            Some(k) => if k < m.cards.len() {
                is_without(after.cards, m.cards, k as int)
            } else {
                is_in_rows(after.cards, m.cards, m.settings.card_cols as int)
            },
            None => after.cards == m.cards,
        },
        same_but_cards(Model { menu_card: m.menu_card, ..after }, m),
        m.menu_card is Some && !m.menu_open ==> command_leads_to(m, 1) == CommandAction::Redraw,
        m.menu_card is Some && m.menu_open ==> command_leads_to(m, 1) == CommandAction::Nothing,
{
    if m.menu_card is Some {
        let cards = choose|cards: Seq<Card>| #[trigger]
            is_changed_by(cards, m, 1) && after == (Model {
                cards: laid_out(cards, m.settings.card_cols as int),
                menu_card: None,
                ..m
            });
        law_laying_out_puts_the_cards_in_rows(cards, m.settings.card_cols as int);
        let k = m.menu_card->0 as int;
        if k < m.cards.len() {
            assert(cards == m.cards.remove(k));
            assert forall|i: int| 0 <= i < k implies same_but_place(#[trigger] after.cards[i], m.cards[i]) by {
                assert(cards[i] == m.cards[i]);
            }
            assert forall|i: int| k <= i < after.cards.len() implies same_but_place(
                #[trigger] after.cards[i],
                m.cards[i + 1],
            ) by {
                assert(cards[i] == m.cards[i + 1]);
            }
        }
    }
}

/// The other commands change no card, but for a new one: they end the program, ask for the settings or open
/// those of the screen. An unknown command does nothing.
pub proof fn law_other_commands_change_no_card(after: Model, m: Model, cmd: int)
    requires
        is_after_command(after, m, cmd),
        cmd != 1,
        cmd != 2,
    ensures
        after == (Model { menu_card: None, ..m }),
        command_leads_to(m, cmd) == if cmd == 3 {
            CommandAction::Quit
        } else if cmd == 4 {
            CommandAction::AskForSettings
        } else if cmd == 5 {
            CommandAction::OpenDisplaySettings
        } else {
            CommandAction::Nothing
        },
{
}

/// New settings hold from then on. The cards stay where they are, unless the number of columns changes: then
/// they are laid out in that many. The colour of the cards is that of the settings.
pub proof fn law_new_settings_hold(m: Model, s: Settings)
    requires
        m.renderer.bg_color == m.settings.bg_color,
    ensures
        with_settings(m, s).settings == s,
        with_settings(m, s).renderer.bg_color == s.bg_color,
        s.card_cols == m.settings.card_cols ==> with_settings(m, s).cards == m.cards,
        s.card_cols != m.settings.card_cols ==> is_in_rows(
            with_settings(m, s).cards,
            m.cards,
            s.card_cols as int,
        ),
        with_settings(m, s).selected == m.selected,
        with_settings(m, s).visible == m.visible,
        with_settings(m, s).items == m.items,
        with_settings(m, s).drag == m.drag,
{
    law_laying_out_puts_the_cards_in_rows(m.cards, s.card_cols as int);
}

/// The command for a new card adds one card on top, empty and at a place of its own, and leaves all others as they
/// are.
pub proof fn law_the_new_command_adds_a_card(after: Model, m: Model)
    requires
        is_after_command(after, m, 2),
    ensures
        after.cards.len() == m.cards.len() + 1,
        forall|i: int| 0 <= i < m.cards.len() ==> #[trigger] after.cards[i] == m.cards[i],
        is_added(after.cards.last(), m.cards),
        after.cards.last().item_indices@.len() == 0,
        after.menu_card is None,
        same_but_cards(Model { menu_card: m.menu_card, ..after }, m),
        command_leads_to(m, 2) == if m.menu_open {
            CommandAction::Nothing
        } else {
            CommandAction::Redraw
        },
{
    let cards = choose|cards: Seq<Card>| #[trigger]
        is_changed_by(cards, m, 2) && after == (Model { cards, menu_card: None, ..m });
    assert forall|i: int| 0 <= i < m.cards.len() implies #[trigger] after.cards[i] == m.cards[i] by {
        assert(cards.drop_last()[i] == cards[i]);
    }
}

/// Card `k` is the topmost whose closing button is at the point.
pub open spec fn is_top_close(cards: Seq<Card>, k: int, x: int, y: int) -> bool {
    &&& 0 <= k < cards.len()
    &&& on_close(cards[k], x, y)
    &&& forall|j: int| k < j < cards.len() ==> !on_close(#[trigger] cards[j], x, y)
}

/// Card `k` is the topmost at the point.
pub open spec fn is_top_face(cards: Seq<Card>, k: int, x: int, y: int) -> bool {
    &&& 0 <= k < cards.len()
    &&& on_face(cards[k], x, y)
    &&& forall|j: int| k < j < cards.len() ==> !on_face(#[trigger] cards[j], x, y)
}

/// Place `ii` of card `ci` is the topmost item at the point.
pub open spec fn is_top_item(cards: Seq<Card>, ci: int, ii: int, x: int, y: int, show_icons: bool) -> bool {
    &&& 0 <= ci < cards.len()
    &&& item_at(cards[ci], x, y, show_icons) == Some(ii)
    &&& forall|j: int| ci < j < cards.len() ==> item_at(#[trigger] cards[j], x, y, show_icons) is None
}

/// The topmost closing button at a point is the one that is hit.
pub proof fn lemma_top_close_is_hit(hits: Hits, cards: Seq<Card>, k: int, x: int, y: int, show_icons: bool)
    requires
        are_hits(hits, cards, x, y, show_icons),
        is_top_close(cards, k, x, y),
    ensures
        hits.close is Some,
        hits.close->0 == k,
{
    law_hits_are_topmost(hits, cards, x, y, show_icons, k);
    if let Some(i) = hits.close {
        law_hits_are_topmost(hits, cards, x, y, show_icons, i as int);
    }
}

/// The topmost card at a point is the one that is hit.
pub proof fn lemma_top_face_is_hit(face: Option<usize>, cards: Seq<Card>, k: int, x: int, y: int)
    requires
        is_face(face, cards, x, y),
        is_top_face(cards, k, x, y),
    ensures
        face is Some,
        face->0 == k,
{
    let c = cards[k];
    if let Some(i) = face {
        let d = cards[i as int];
    }
}

} // verus!
