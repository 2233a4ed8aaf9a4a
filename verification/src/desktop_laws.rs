//! What holds of the desktop over its events.
use vstd::prelude::*;
use crate::desktop::{
    after_key, are_first_cards, are_hits, are_sorted_cards, double_click_leads_to, drag_is_valid, dragged, is_after_command,
    is_changed_by, is_face, is_framed, laid_out,
    move_damage, move_start, moved, pressed, raised, region_of, resize_start, scrolled, started, switched, toggled, wheeled,
    with_settings, Damage, DoubleClick, DragMode, DragState, Hits, Model, CMD_DELETE, CMD_NEW, LEAST_H, LEAST_W, MOST_H, MOST_W,
};
use crate::geometry::{lemma_scaled_bounds, scale_of, TITLE_H};
use crate::hook::{hook_leads_to, HookAction, MouseEvent, Part, Watch};
use crate::layout::{is_topmost, kind_at, Card, ResizeKind};
use crate::layout_laws::law_each_item_is_on_one_card;
use crate::pixels::{
    clipped, in_region, in_regions, is_beside, law_moving_changes_only_its_places,
    law_raising_changes_only_its_place, pixel_after, Look, Pixel, Rect, Region,
};
use crate::renderer::{rect_of, Frame};
use crate::saved::{law_restoring_keeps_contents, restore_all, SavedCard};
use crate::scanner::DesktopItem;
use crate::settings::Settings;

verus! {

/// There is at most one topmost card.
proof fn lemma_topmost_is_unique(a: Option<usize>, b: Option<usize>, cards: Seq<Card>, p: spec_fn(Card) -> bool)
    requires
        is_topmost(a, cards, p),
        is_topmost(b, cards, p),
    ensures
        a == b,
{
    match (a, b) {
        (Some(i), Some(j)) => {
            if i < j {
                assert(!p(cards[j as int]));
            } else if j < i {
                assert(!p(cards[i as int]));
            }
        },
        (Some(i), None) => {
            assert(!p(cards[i as int]));
        },
        (None, Some(j)) => {
            assert(!p(cards[j as int]));
        },
        (None, None) => {},
    }
}

/// What a point hits is determined by the cards: an event at a point has one outcome.
pub proof fn law_hits_are_unique(a: Hits, b: Hits, cards: Seq<Card>, x: int, y: int, show_icons: bool)
    requires
        are_hits(a, cards, x, y, show_icons),
        are_hits(b, cards, x, y, show_icons),
    ensures
        a == b,
{
    lemma_topmost_is_unique(a.face, b.face, cards, |c: Card| crate::layout::on_face(c, x, y));
    lemma_topmost_is_unique(a.close, b.close, cards, |c: Card| crate::layout::on_close(c, x, y));
    lemma_topmost_is_unique(a.style, b.style, cards, |c: Card| crate::layout::on_style(c, x, y));
    lemma_topmost_is_unique(a.title, b.title, cards, |c: Card| crate::layout::on_title(c, x, y));
    assert(a.edge == b.edge) by {
        match (a.edge, b.edge) {
            (Some((i, _)), Some((j, _))) => {
                assert(i == j) by {
                    let ci = cards[i as int];
                    let cj = cards[j as int];
                }
            },
            (Some((i, _)), None) => {
                let ci = cards[i as int];
            },
            (None, Some((j, _))) => {
                let cj = cards[j as int];
            },
            (None, None) => {},
        }
    }
    assert(a.item == b.item) by {
        match (a.item, b.item) {
            (Some((i, _)), Some((j, _))) => {
                assert(i == j) by {
                    let ci = cards[i as int];
                    let cj = cards[j as int];
                }
            },
            (Some((i, _)), None) => {
                let ci = cards[i as int];
            },
            (None, Some((j, _))) => {
                let cj = cards[j as int];
            },
            (None, None) => {},
        }
    }
}

/// To hide the cards and to bring them back leaves the desktop as it was.
pub proof fn law_toggling_twice_changes_nothing(m: Model)
    ensures
        toggled(toggled(m)) == m,
{
}

/// A raised card is on top, and the others keep their order; no card is lost and none is added.
pub proof fn law_raising_keeps_the_cards(cards: Seq<Card>, k: int)
    requires
        0 <= k < cards.len(),
    ensures
        raised(cards, k).len() == cards.len(),
        raised(cards, k).last() == cards[k],
        forall|i: int| 0 <= i < k ==> #[trigger] raised(cards, k)[i] == cards[i],
        forall|i: int| k <= i < cards.len() - 1 ==> #[trigger] raised(cards, k)[i] == cards[i + 1],
        raised(cards, k).to_multiset() == cards.to_multiset(),
{
    broadcast use vstd::seq_lib::group_to_multiset_ensures;
    assert(cards.remove(k).to_multiset() =~= cards.to_multiset().remove(cards[k]));
    assert(cards.to_multiset().contains(cards[k]));
    assert(raised(cards, k).to_multiset() =~= cards.to_multiset());
}

/// To switch the style twice brings the style back, from the first line on; all else stays.
pub proof fn law_switching_twice_brings_the_style_back(card: Card)
    ensures
        switched(switched(card)) == (Card { scroll: 0, ..card }),
{
}

/// A card that is moved stays on the screen as far as it fits there, and keeps its size and its
/// contents.
pub proof fn law_moved_cards_stay_on_the_screen(card: Card, d: DragState, x: int, y: int, sw: i32, sh: i32)
    requires
        d.mode == DragMode::Move,
    ensures
        ({
            let c = dragged(card, d, x, y, sw as int, sh as int);
            &&& 0 <= c.x && 0 <= c.y
            &&& 0 <= card.width <= sw ==> c.x + c.width <= sw
            &&& 0 <= card.height <= sh ==> c.y + c.height <= sh
            &&& c == (Card { x: c.x, y: c.y, ..card })
        }),
{
}

/// A card that is resized gets a size within the bounds on the side that is dragged, and keeps its
/// place and its contents.
pub proof fn law_resized_cards_stay_in_bounds(card: Card, d: DragState, x: int, y: int, sw: i32, sh: i32)
    requires
        d.mode != DragMode::Move,
    ensures
        ({
            let c = dragged(card, d, x, y, sw as int, sh as int);
            &&& d.mode != DragMode::ResizeBottom ==> LEAST_W <= c.width <= MOST_W
            &&& d.mode != DragMode::ResizeRight ==> LEAST_H <= c.height <= MOST_H
            &&& d.mode == DragMode::ResizeBottom ==> c.width == card.width
            &&& d.mode == DragMode::ResizeRight ==> c.height == card.height
            &&& c == (Card { width: c.width, height: c.height, ..card })
        }),
{
}

/// A card on the screen that is grasped by its title follows the pointer as far as it stays on the
/// screen; where the pointer stays, the card does.
pub proof fn law_moved_cards_follow_the_pointer(
    cards: Seq<Card>,
    x: i32,
    y: i32,
    to_x: int,
    to_y: int,
    sw: i32,
    sh: i32,
)
    requires
        cards.len() > 0,
        0 <= cards.last().height,
        crate::layout::on_title(cards.last(), x as int, y as int),
        0 <= cards.last().x + to_x - x <= sw - cards.last().width,
        0 <= cards.last().y + to_y - y <= sh - cards.last().height,
    ensures
        ({
            let card = cards.last();
            let c = dragged(card, move_start(cards, x, y), to_x, to_y, sw as int, sh as int);
            c.x == card.x + to_x - x && c.y == card.y + to_y - y
        }),
{
    let w = cards.last().width as int;
    lemma_scaled_bounds(28, scale_of(w));
    lemma_scaled_bounds(TITLE_H as int, scale_of(w));
}

/// An edge that is grasped follows the pointer as long as the size is within the bounds.
pub proof fn law_edges_follow_the_pointer(
    cards: Seq<Card>,
    kind: ResizeKind,
    x: i32,
    y: i32,
    to_x: int,
    to_y: int,
    sw: int,
    sh: int,
)
    requires
        cards.len() > 0,
        LEAST_W <= cards.last().width + to_x - x <= MOST_W,
        LEAST_H <= cards.last().height + to_y - y <= MOST_H,
    ensures
        ({
            let card = cards.last();
            let c = dragged(card, resize_start(cards, kind, x, y), to_x, to_y, sw, sh);
            &&& c.width == if kind == ResizeKind::Bottom {
                card.width as int
            } else {
                card.width + to_x - x
            }
            &&& c.height == if kind == ResizeKind::Right {
                card.height as int
            } else {
                card.height + to_y - y
            }
        }),
{
}

/// A drag that begins with a press speaks of a card that exists, and goes on doing so.
pub proof fn law_drags_stay_valid(m: Model, hits: Hits, x: i32, y: i32, to_x: int, to_y: int, sw: int, sh: int, due: bool)
    requires
        are_hits(hits, m.cards, x as int, y as int, m.settings.show_icons),
        m.cards.len() <= usize::MAX,
        m.drag is None,
    ensures
        drag_is_valid(pressed(m, hits, x, y)),
        drag_is_valid(moved(pressed(m, hits, x, y), to_x, to_y, sw, sh, due)),
{
}

/// A drag that speaks of a card that exists goes on doing so over every event that removes no card: a
/// press that closes none, a move and the release of the button, a double click, the wheel, a key, a menu
/// that opens or closes, a command that deletes none, new settings, the end of the settings, a frame.
pub proof fn law_drags_stay_valid_while_no_card_is_removed(
    m: Model,
    after: Model,
    hits: Hits,
    face: Option<usize>,
    x: i32,
    y: i32,
    sw: int,
    sh: int,
    due: bool,
    delta: int,
    key: usize,
    cmd: int,
    settings: Settings,
    r: Option<Frame>,
    damage: Damage,
    w: i32,
    h: i32,
)
    requires
        drag_is_valid(m),
        m.cards.len() <= usize::MAX,
        are_hits(hits, m.cards, x as int, y as int, m.settings.show_icons),
        is_face(face, m.cards, x as int, y as int),
    ensures
        hits.close is None ==> drag_is_valid(pressed(m, hits, x, y)),
        drag_is_valid(moved(m, x as int, y as int, sw, sh, due)),
        drag_is_valid(Model { drag: None, pick: None, ..m }),
        drag_is_valid(toggled(m)),
        drag_is_valid(wheeled(m, face, delta)),
        drag_is_valid(after_key(m, key)),
        drag_is_valid(Model { menu_card: face, menu_open: true, ..m }),
        drag_is_valid(Model { menu_open: false, ..m }),
        cmd != CMD_DELETE && is_after_command(after, m, cmd) ==> drag_is_valid(after),
        drag_is_valid(with_settings(m, settings)),
        drag_is_valid(Model { settings_open: false, ..m }),
        is_framed(r, after, m, damage, w, h) ==> drag_is_valid(after),
{
}

/// Where a card is removed, by its button or by the menu, a drag goes on to speak of a card that exists if
/// and only if its card was not the last one.
pub proof fn law_removing_a_card_ends_drags_of_the_last(m: Model, after: Model, hits: Hits, x: i32, y: i32)
    requires
        drag_is_valid(m),
        are_hits(hits, m.cards, x as int, y as int, m.settings.show_icons),
    ensures
        hits.close is Some ==> (drag_is_valid(pressed(m, hits, x, y)) <==> match m.drag {
            Some(d) => d.card_index < m.cards.len() - 1,
            None => true,
        }),
        is_after_command(after, m, CMD_DELETE as int) && m.menu_card is Some && m.menu_card->0 < m.cards.len()
            ==> (drag_is_valid(after) <==> match m.drag {
            Some(d) => d.card_index < m.cards.len() - 1,
            None => true,
        }),
{
}

/// A turn of the wheel and the same turn back leave a card as it was, away from the ends of the
/// coordinates.
pub proof fn law_wheel_back_undoes_the_wheel(card: Card, delta: i16)
    requires
        i32::MIN + 300 <= card.scroll <= i32::MAX - 300,
    ensures
        scrolled(scrolled(card, delta as int), -(delta as int)) == card,
{
}

/// While a menu is open, the wheel does nothing.
pub proof fn law_open_menus_hold_the_wheel(m: Model, face: Option<usize>, delta: int)
    requires
        m.menu_open,
    ensures
        wheeled(m, face, delta) == m,
{
}

/// A new card leaves all other cards as they are.
pub proof fn law_new_cards_leave_the_others(after: Model, m: Model, k: int)
    requires
        is_after_command(after, m, CMD_NEW as int),
        0 <= k < m.cards.len(),
    ensures
        after.cards.len() == m.cards.len() + 1,
        after.cards[k] == m.cards[k],
        after.menu_card is None,
{
    let cards = choose|cards: Seq<Card>| #[trigger]
        is_changed_by(cards, m, CMD_NEW as int) && after == (Model { cards, menu_card: None, ..m });
    assert(cards.drop_last()[k] == cards[k]);
}

/// To lay the cards out once more changes nothing.
pub proof fn law_laying_out_twice_is_laying_out_once(cards: Seq<Card>, cols: int)
    ensures
        laid_out(laid_out(cards, cols), cols) == laid_out(cards, cols),
{
    assert(laid_out(laid_out(cards, cols), cols) =~= laid_out(cards, cols));
}

/// New settings take effect at once and as a whole: the same settings again change nothing.
pub proof fn law_settings_apply_once(m: Model, s: Settings)
    ensures
        with_settings(m, m.settings) == m,
        with_settings(m, s).settings == s,
        with_settings(with_settings(m, s), s) == with_settings(m, s),
{
}

/// The cards are drawn in the colour of the settings: at the start, and after every change of the
/// settings.
pub proof fn law_colors_follow_the_settings(m: Model, items: Seq<DesktopItem>, s: Settings, cards: Seq<Card>)
    requires
        m.renderer.bg_color == m.settings.bg_color,
    ensures
        started(items, s, cards).renderer.bg_color == started(items, s, cards).settings.bg_color,
        with_settings(m, s).renderer.bg_color == with_settings(m, s).settings.bg_color,
{
}

/// At the start every item is on exactly one card, whatever was stored.
pub proof fn law_every_item_is_on_one_card_at_the_start(
    items: Seq<DesktopItem>,
    laid: Seq<Card>,
    cols: int,
    saved: Seq<SavedCard>,
    i: usize,
)
    requires
        are_first_cards(laid, items, cols),
        items.len() <= usize::MAX,
        i < items.len(),
    ensures
        exists|k: int|
            {
                &&& 0 <= k < restore_all(laid, saved).cards.len()
                &&& (#[trigger] restore_all(laid, saved).cards[k]).item_indices@.contains(i)
                &&& forall|j: int|
                    0 <= j < restore_all(laid, saved).cards.len() && j != k ==> !(
                    #[trigger] restore_all(laid, saved).cards[j]).item_indices@.contains(i)
            },
{
    let cards = restore_all(laid, saved).cards;
    law_restoring_keeps_contents(laid, saved);
    let sorted = choose|sorted: Seq<Card>| #[trigger]
        are_sorted_cards(sorted, items) && laid == laid_out(sorted, cols);
    let kind = items[i as int].kind;
    let k: int = choose|k: int| 0 <= k < 5 && #[trigger] kind_at(k) == kind;
    assert(exists|k: int| 0 <= k < 5 && #[trigger] kind_at(k) == kind) by {
        assert(kind_at(0) == kind || kind_at(1) == kind || kind_at(2) == kind || kind_at(3) == kind || kind_at(
            4,
        ) == kind);
    }
    assert forall|j: int| 0 <= j < cards.len() implies (#[trigger] cards[j]).item_indices@.contains(i) == (j
        == k) by {
        assert(laid[j] == crate::layout::in_slot(sorted[j], j, cols));
        assert(cards[j].item_indices == sorted[j].item_indices);
        law_each_item_is_on_one_card(items, kind_at(j));
        assert(kind_at(j) == kind <==> j == k);
    }
    assert(cards[k].item_indices@.contains(i));
}

/// The region of a card covers every pixel of it on the screen.
pub proof fn law_regions_cover_their_cards(card: Card, w: i32, h: i32, x: int, y: int)
    requires
        match clipped(rect_of(card), w as int, h as int) {
            Some(g) => in_region(g, x, y),
            None => false,
        },
    ensures
        in_region(region_of(card), x, y),
{
}

/// A double click beside all cards that show hides them or brings them back once: where it may hide
/// them, the window of the cards answers if it is under the point, else the hook; where it may not, the
/// hook brings hidden cards back, and nothing hides cards that show. While the cards are hidden, it does
/// not matter where they are.
pub proof fn law_double_clicks_toggle_once(
    last: Watch,
    e: MouseEvent,
    part: Part,
    span: u32,
    m: Model,
    hits: Hits,
)
    requires
        e.message == crate::hook::LEFT_DOWN,
        crate::hook::on_main_screen(e),
        crate::hook::is_double(last, e, span),
        part != Part::Elsewhere,
        !m.menu_open,
        m.visible ==> hits.face is None && hits.item is None,
    ensures
        ({
            let by_window = part == Part::Cards && double_click_leads_to(m, hits) == DoubleClick::Redraw;
            let by_hook = hook_leads_to(last, e, part, span, m, hits.face) == HookAction::PassAndToggle;
            &&& !(by_window && by_hook)
            &&& (by_window || by_hook) == (m.settings.double_click_hide || !m.visible)
        }),
{
}

/// The rectangles of the cards.
pub open spec fn rects(cards: Seq<Card>) -> Seq<Rect> {
    cards.map_values(|c: Card| rect_of(c))
}

/// When a card is grasped and dragged, every pixel of the screen that the cards give another look is
/// in the parts that are drawn again.
pub proof fn law_drags_redraw_all_that_changes(
    m: Model,
    hits: Hits,
    x: i32,
    y: i32,
    to_x: int,
    to_y: int,
    w: i32,
    h: i32,
    parts: Seq<Region>,
    p: Pixel,
    regions: Seq<Region>,
    look: Look,
    px: int,
    py: int,
)
    requires
        are_hits(hits, m.cards, x as int, y as int, m.settings.show_icons),
        m.cards.len() <= usize::MAX,
        m.drag is None,
        pressed(m, hits, x, y).drag is Some,
        move_damage(pressed(m, hits, x, y), to_x, to_y, w as int, h as int, true) == Damage::Parts(parts),
        !in_regions(parts, parts.len() as int, px, py),
    ensures
        pixel_after(
            p,
            rects(m.cards),
            m.cards.len() as int,
            regions,
            look,
            w as int,
            h as int,
            px,
            py,
        ) == pixel_after(
            p,
            rects(moved(pressed(m, hits, x, y), to_x, to_y, w as int, h as int, true).cards),
            m.cards.len() as int,
            regions,
            look,
            w as int,
            h as int,
            px,
            py,
        ),
{
    let m1 = pressed(m, hits, x, y);
    let m2 = moved(m1, to_x, to_y, w as int, h as int, true);
    let k: int = match hits.edge {
        Some((k, _)) => k as int,
        None => hits.title->0 as int,
    };
    let n = m.cards.len() as int;
    let old_card = m.cards[k];
    let new_card = m2.cards[n - 1];
    assert(m1.cards == raised(m.cards, k));
    assert(m1.cards.last() == old_card);
    assert(m1.drag->0.shown == region_of(old_card));
    assert(parts[0] == region_of(old_card));
    assert(parts[1] == region_of(new_card));
    assert(!in_region(parts[0], px, py) && !in_region(parts[1], px, py));
    let a = rects(m.cards);
    let b = rects(m1.cards);
    let c = rects(m2.cards);
    assert(b =~= a.remove(k).push(a[k]));
    assert(c =~= b.update(n - 1, rect_of(new_card)));
    assert(a[k] == rect_of(old_card) && b[n - 1] == rect_of(old_card));
    if !is_beside(rect_of(old_card), w as int, h as int, px, py) {
        law_regions_cover_their_cards(old_card, w, h, px, py);
    }
    if !is_beside(rect_of(new_card), w as int, h as int, px, py) {
        law_regions_cover_their_cards(new_card, w, h, px, py);
    }
    law_raising_changes_only_its_place(p, a, k, regions, look, w as int, h as int, px, py);
    law_moving_changes_only_its_places(
        p,
        b,
        n - 1,
        rect_of(new_card),
        n,
        regions,
        look,
        w as int,
        h as int,
        px,
        py,
    );
}

} // verus!
