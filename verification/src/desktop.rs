//! The desktop as a state machine: what each event does to the cards, and what is to be done outside.
use vstd::prelude::*;
use crate::event_laws::{
    is_top_close, is_top_face, is_top_item, is_without, law_closing_removes_the_card_of_the_button,
    lemma_top_close_is_hit, lemma_top_face_is_hit,
};
use crate::geometry::hold;
use crate::layout::{
    add_card, classify, hit_test, hit_test_close, hit_test_item, hit_test_resize, hit_test_style,
    hit_test_title, in_slot, is_added, is_sorted_card, is_topmost, is_topmost_edge, is_topmost_item, kind_at,
    layout_cards, layout_cols, on_close, on_face, on_style, on_title, remove_card, slot_fits, slot_size,
    Card, CardStyle, ResizeKind,
};
use crate::pixels::Region;
use crate::renderer::{
    all_on_screen, cards_in, is_card_frame, is_hint_frame, whole_screen, Frame, Renderer,
};
use crate::saved::{load_layout, restore_all, save_layout, stores, SavedCard};
use crate::scanner::DesktopItem;
use crate::scroll::held_scroll;
use crate::settings::{load_settings, loaded, Settings};

verus! {

/// The number of cards up to which every card of a layout has a place within the coordinates.
pub const MOST_CARDS: usize = 7_780_738;

/// The least and the greatest size to which a card is resized.
pub const LEAST_W: i32 = 120;

pub const LEAST_H: i32 = 80;

pub const MOST_W: i32 = 640;

pub const MOST_H: i32 = 420;

/// What a drag does to its card.
#[derive(Clone, Copy, Debug, PartialEq, Eq, Structural)]
pub enum DragMode {
    Move,
    ResizeRight,
    ResizeBottom,
    ResizeCorner,
}

/// A drag: the card; for a move, where on the card the pointer is; for a change of size, where the
/// pointer and what the size was at the start; and where the card was last shown.
#[derive(Clone, Copy, Debug, PartialEq, Eq, Structural)]
pub struct DragState {
    pub card_index: usize,
    pub mode: DragMode,
    pub offset_x: i32,
    pub offset_y: i32,
    pub start_x: i32,
    pub start_y: i32,
    pub start_w: i32,
    pub start_h: i32,
    pub shown: Region,
}

/// A selection that was made while the button is down, with the one that it replaced.
#[derive(Clone, Copy, Debug)]
pub struct Pick {
    pub before: Option<(usize, usize)>,
}

/// The desktop. A selected item is given by its card and its place on it.
pub struct State {
    pub renderer: Renderer,
    pub items: Vec<DesktopItem>,
    pub cards: Vec<Card>,
    pub drag: Option<DragState>,
    pub pick: Option<Pick>,
    pub visible: bool,
    pub menu_open: bool,
    pub menu_card: Option<usize>,
    pub settings: Settings,
    pub settings_open: bool,
    pub selected: Option<(usize, usize)>,
}

/// The desktop, with its lists as sequences.
#[verifier::ext_equal]
pub struct Model {
    pub renderer: Renderer,
    pub items: Seq<DesktopItem>,
    pub cards: Seq<Card>,
    pub drag: Option<DragState>,
    pub pick: Option<Pick>,
    pub visible: bool,
    pub menu_open: bool,
    pub menu_card: Option<usize>,
    pub settings: Settings,
    pub settings_open: bool,
    pub selected: Option<(usize, usize)>,
}

impl View for State {
    type V = Model;

    open spec fn view(&self) -> Model {
        Model {
            renderer: self.renderer,
            items: self.items@,
            cards: self.cards@,
            drag: self.drag,
            pick: self.pick,
            visible: self.visible,
            menu_open: self.menu_open,
            menu_card: self.menu_card,
            settings: self.settings,
            settings_open: self.settings_open,
            selected: self.selected,
        }
    }
}

/// What is to be drawn again.
pub enum Redraw {
    Nothing,
    All,
    Parts(Vec<Region>),
}

/// What is to be drawn again, with the parts as a sequence.
pub enum Damage {
    Nothing,
    All,
    Parts(Seq<Region>),
}

impl View for Redraw {
    type V = Damage;

    open spec fn view(&self) -> Damage {
        match *self {
            Redraw::Nothing => Damage::Nothing,
            Redraw::All => Damage::All,
            Redraw::Parts(v) => Damage::Parts(v@),
        }
    }
}

/// What a point hits, each time on the topmost card that has it: the face of a card, a button, an edge,
/// an item, a title.
#[derive(Clone, Copy, Debug)]
pub struct Hits {
    pub face: Option<usize>,
    pub close: Option<usize>,
    pub style: Option<usize>,
    pub edge: Option<(usize, ResizeKind)>,
    pub item: Option<(usize, usize)>,
    pub title: Option<usize>,
}

/// The topmost card under a point.
pub open spec fn is_face(r: Option<usize>, cards: Seq<Card>, x: int, y: int) -> bool {
    is_topmost(r, cards, |c: Card| on_face(c, x, y))
}

/// What a point hits.
pub open spec fn are_hits(r: Hits, cards: Seq<Card>, x: int, y: int, show_icons: bool) -> bool {
    &&& is_face(r.face, cards, x, y)
    &&& is_topmost(r.close, cards, |c: Card| on_close(c, x, y))
    &&& is_topmost(r.style, cards, |c: Card| on_style(c, x, y))
    &&& is_topmost_edge(r.edge, cards, x, y)
    &&& is_topmost_item(r.item, cards, x, y, show_icons)
    &&& is_topmost(r.title, cards, |c: Card| on_title(c, x, y))
}

/// What a point hits.
pub fn hits_at(cards: &[Card], x: i32, y: i32, show_icons: bool) -> (r: Hits)
    ensures
        are_hits(r, cards@, x as int, y as int, show_icons),
{
    Hits {
        face: hit_test(cards, x, y),
        close: hit_test_close(cards, x, y),
        style: hit_test_style(cards, x, y),
        edge: hit_test_resize(cards, x, y),
        item: hit_test_item(cards, x, y, show_icons),
        title: hit_test_title(cards, x, y),
    }
}

/// The region of a card, cut off at the greatest coordinates.
pub open spec fn region_of(card: Card) -> Region {
    Region {
        x0: card.x,
        y0: card.y,
        x1: hold(card.x + card.width, i32::MIN as int, i32::MAX as int) as i32,
        y1: hold(card.y + card.height, i32::MIN as int, i32::MAX as int) as i32,
    }
}

/// An integer, held within the coordinates.
fn held(v: i64) -> (r: i32)
    ensures
        r == hold(v as int, i32::MIN as int, i32::MAX as int),
{
    if v < i32::MIN as i64 {
        i32::MIN
    } else if v > i32::MAX as i64 {
        i32::MAX
    } else {
        v as i32
    }
}

/// The region of a card.
fn card_region(card: &Card) -> (r: Region)
    ensures
        r == region_of(*card),
{
    Region {
        x0: card.x,
        y0: card.y,
        x1: held(card.x as i64 + card.width as i64),
        y1: held(card.y as i64 + card.height as i64),
    }
}

/// The cards in the slots of a layout.
pub open spec fn laid_out(cards: Seq<Card>, cols: int) -> Seq<Card> {
    Seq::new(cards.len(), |i: int| in_slot(cards[i], i, cols))
}

/// The cards with one of them on top of all others.
pub open spec fn raised(cards: Seq<Card>, k: int) -> Seq<Card> {
    cards.remove(k).push(cards[k])
}

/// Every card of a layout has a place within the coordinates.
proof fn lemma_slots_fit(i: int, cols: int)
    requires
        0 <= i < MOST_CARDS,
        0 <= cols,
    ensures
        slot_fits(i, cols),
{
    let n = layout_cols(cols);
    let q = i / n;
    let r = i % n;
    let w = slot_size(n).0 + 16;
    let h = slot_size(n).1 + 16;
    vstd::arithmetic::div_mod::lemma_fundamental_div_mod(i, n);
    vstd::arithmetic::div_mod::lemma_mod_bound(i, n);
    vstd::arithmetic::div_mod::lemma_div_pos_is_pos(i, n);
    assert(q * n <= i && r <= i && 0 <= q * n) by (nonlinear_arith)
        requires
            i == n * q + r,
            0 <= r,
            0 < n,
            0 <= q,
    ;
    assert(q <= i) by (nonlinear_arith)
        requires
            q * n <= i,
            1 <= n,
            0 <= q,
    ;
    assert(r * w <= i * 276 || n == 2) by (nonlinear_arith)
        requires
            0 <= r <= i,
            0 < w <= 276 || n == 2,
    ;
    assert(n == 2 ==> r * w <= 356) by (nonlinear_arith)
        requires
            n == 2 ==> (0 <= r <= 1 && w == 356),
    ;
    assert(q * h <= i * 276) by (nonlinear_arith)
        requires
            0 <= q <= i,
            0 < h <= 276,
    ;
}

/// Puts the cards into the slots of a layout.
fn lay_out(cards: &mut Vec<Card>, sw: i32, sh: i32, cols: u32)
    requires
        old(cards)@.len() <= MOST_CARDS,
    ensures
        final(cards)@ == laid_out(old(cards)@, cols as int),
{
    proof {
        assert forall|i: int| 0 <= i < cards@.len() implies #[trigger] slot_fits(i, cols as int) by {
            lemma_slots_fit(i, cols as int);
        }
    }
    layout_cards(cards, sw, sh, cols as usize);
    assert(cards@ =~= laid_out(old(cards)@, cols as int));
}

/// Puts a card on top of all others.
fn raise(cards: &mut Vec<Card>, k: usize)
    requires
        k < old(cards)@.len(),
    ensures
        final(cards)@ == raised(old(cards)@, k as int),
{
    let card: Card = cards.remove(k);
    cards.push(card);
}

/// What a press of the left button leads to: the end of the program, the capture of the pointer, and
/// what is to be drawn again.
pub struct Press {
    pub quit: bool,
    pub capture: bool,
    pub redraw: Redraw,
}

/// A press that asks for the end of the program, for the capture, or for all to be drawn again.
pub open spec fn is_press(p: Press, quit: bool, capture: bool, redraw: Damage) -> bool {
    p.quit == quit && p.capture == capture && p.redraw@ == redraw
}

/// The other style.
pub open spec fn other_style(s: CardStyle) -> CardStyle {
    match s {
        CardStyle::Grid => CardStyle::List,
        CardStyle::List => CardStyle::Grid,
    }
}

/// The card in its other style, from its first line on.
pub open spec fn switched(card: Card) -> Card {
    Card { style: other_style(card.style), scroll: 0, ..card }
}

/// What the drag of an edge does.
pub open spec fn resize_mode(kind: ResizeKind) -> DragMode {
    match kind {
        ResizeKind::Right => DragMode::ResizeRight,
        ResizeKind::Bottom => DragMode::ResizeBottom,
        ResizeKind::Corner => DragMode::ResizeCorner,
    }
}

/// The start of a change of size, of the topmost card.
pub open spec fn resize_start(cards: Seq<Card>, kind: ResizeKind, x: i32, y: i32) -> DragState {
    DragState {
        card_index: (cards.len() - 1) as usize,
        mode: resize_mode(kind),
        offset_x: 0,
        offset_y: 0,
        start_x: x,
        start_y: y,
        start_w: cards.last().width,
        start_h: cards.last().height,
        shown: region_of(cards.last()),
    }
}

/// The start of a move, of the topmost card.
pub open spec fn move_start(cards: Seq<Card>, x: i32, y: i32) -> DragState {
    DragState {
        card_index: (cards.len() - 1) as usize,
        mode: DragMode::Move,
        offset_x: (x - cards.last().x) as i32,
        offset_y: (y - cards.last().y) as i32,
        start_x: 0,
        start_y: 0,
        start_w: 0,
        start_h: 0,
        shown: region_of(cards.last()),
    }
}

/// The desktop after a press of the left button at a point that has these hits. A card is closed, or
/// switches its style, or an edge is grasped, or an item is selected, or a title is grasped; the first
/// of these that is hit. A card that is grasped comes to the top.
pub open spec fn pressed(m: Model, hits: Hits, x: i32, y: i32) -> Model {
    if let Some(k) = hits.close {
        let rest = m.cards.remove(k as int);
        if rest.len() == 0 {
            Model { cards: rest, ..m }
        } else {
            Model { cards: laid_out(rest, m.settings.card_cols as int), ..m }
        }
    } else if let Some(k) = hits.style {
        Model { cards: m.cards.update(k as int, switched(m.cards[k as int])), ..m }
    } else if let Some((k, kind)) = hits.edge {
        let cards = raised(m.cards, k as int);
        Model { cards, drag: Some(resize_start(cards, kind, x, y)), ..m }
    } else if let Some(hit) = hits.item {
        Model { selected: Some(hit), pick: Some(Pick { before: m.selected }), ..m }
    } else if let Some(k) = hits.title {
        let cards = raised(m.cards, k as int);
        Model { cards, drag: Some(move_start(cards, x, y)), ..m }
    } else {
        m
    }
}

/// What that press leads to: the program ends with its last card, and a grasped card holds the
/// pointer.
pub open spec fn press_leads_to(p: Press, m: Model, hits: Hits) -> bool {
    if let Some(k) = hits.close {
        if m.cards.len() == 1 {
            is_press(p, true, false, Damage::Nothing)
        } else {
            is_press(p, false, false, Damage::All)
        }
    } else if hits.style is Some {
        is_press(p, false, false, Damage::All)
    } else if hits.edge is Some {
        is_press(p, false, true, Damage::Nothing)
    } else if hits.item is Some {
        is_press(p, false, false, Damage::Nothing)
    } else if hits.title is Some {
        is_press(p, false, true, Damage::Nothing)
    } else {
        is_press(p, false, false, Damage::Nothing)
    }
}

/// A press at that point closes a card.
pub open spec fn closes_a_card(cards: Seq<Card>, x: int, y: int) -> bool {
    exists|i: int| 0 <= i < cards.len() && on_close(#[trigger] cards[i], x, y)
}

/// A drag speaks of a card that exists.
pub open spec fn drag_is_valid(m: Model) -> bool {
    match m.drag {
        Some(d) => d.card_index < m.cards.len(),
        None => true,
    }
}

/// A card that is dragged, with the pointer at a point of a screen: a move keeps it on the screen as
/// far as it fits there, a change of size keeps it between the least and the greatest size.
pub open spec fn dragged(card: Card, d: DragState, x: int, y: int, sw: int, sh: int) -> Card {
    let w = hold(d.start_w + x - d.start_x, LEAST_W as int, MOST_W as int) as i32;
    let h = hold(d.start_h + y - d.start_y, LEAST_H as int, MOST_H as int) as i32;
    match d.mode {
        DragMode::Move => Card {
            x: hold(x - d.offset_x, 0, hold(sw - card.width, 0, i32::MAX as int)) as i32,
            y: hold(y - d.offset_y, 0, hold(sh - card.height, 0, i32::MAX as int)) as i32,
            ..card
        },
        DragMode::ResizeRight => Card { width: w, ..card },
        DragMode::ResizeBottom => Card { height: h, ..card },
        DragMode::ResizeCorner => Card { width: w, height: h, ..card },
    }
}

/// The desktop after the pointer has moved to a point of a screen. Where a frame is due, the card is
/// shown where it is now.
pub open spec fn moved(m: Model, x: int, y: int, sw: int, sh: int, due: bool) -> Model {
    match m.drag {
        Some(d) => {
            let k = d.card_index as int;
            let card = dragged(m.cards[k], d, x, y, sw, sh);
            let shown = if due {
                region_of(card)
            } else {
                d.shown
            };
            Model { cards: m.cards.update(k, card), drag: Some(DragState { shown, ..d }), ..m }
        },
        None => m,
    }
}

/// What is drawn again after the pointer has moved: where a frame is due, where the dragged card was
/// shown and where it is now.
pub open spec fn move_damage(m: Model, x: int, y: int, sw: int, sh: int, due: bool) -> Damage {
    match m.drag {
        Some(d) => if due {
            Damage::Parts(
                seq![d.shown, region_of(dragged(m.cards[d.card_index as int], d, x, y, sw, sh))],
            )
        } else {
            Damage::Nothing
        },
        None => Damage::Nothing,
    }
}

/// The region of the card of a selected item, where that card exists.
pub open spec fn selected_region(cards: Seq<Card>, selected: Option<(usize, usize)>) -> Seq<Region> {
    match selected {
        Some((ci, ii)) => if ci < cards.len() {
            seq![region_of(cards[ci as int])]
        } else {
            Seq::empty()
        },
        None => Seq::empty(),
    }
}

/// What is drawn again after the release of the left button: the cards of the two selections where one
/// was made, else all.
pub open spec fn release_damage(m: Model) -> Damage {
    match m.pick {
        Some(p) => if m.drag is None {
            Damage::Parts(selected_region(m.cards, p.before) + selected_region(m.cards, m.selected))
        } else {
            Damage::All
        },
        None => Damage::All,
    }
}

/// An integer, held between two bounds.
fn between(v: i64, least: i64, most: i64) -> (r: i64)
    requires
        least <= most,
    ensures
        r == hold(v as int, least as int, most as int),
{
    if v < least {
        least
    } else if v > most {
        most
    } else {
        v
    }
}

impl State {
    /// A press of the left button.
    pub fn left_down(&mut self, x: i32, y: i32, sw: i32, sh: i32) -> (r: Press)
        requires
            closes_a_card(old(self)@.cards, x as int, y as int) ==> old(self)@.cards.len() <= MOST_CARDS + 1,
        ensures
            exists|hits: Hits|
                {
                    &&& #[trigger] are_hits(
                        hits,
                        old(self)@.cards,
                        x as int,
                        y as int,
                        old(self)@.settings.show_icons,
                    )
                    &&& final(self)@ == pressed(old(self)@, hits, x, y)
                    &&& press_leads_to(r, old(self)@, hits)
                },
            forall|k: int| #[trigger]
                is_top_close(old(self)@.cards, k, x as int, y as int) ==> is_without(
                    final(self)@.cards,
                    old(self)@.cards,
                    k,
                ),
            forall|ci: int, ii: int| #[trigger]
                is_top_item(old(self)@.cards, ci, ii, x as int, y as int, old(self)@.settings.show_icons) ==> (
                final(self)@.selected == old(self)@.selected || (final(self)@.selected is Some && (
                final(self)@.selected->0).0 == ci && (final(self)@.selected->0).1 == ii)),
    {
        let ghost before = self@;
        let r: Press = self.press(x, y, sw, sh);
        proof {
            let hits = choose|hits: Hits|
                {
                    &&& #[trigger] are_hits(hits, before.cards, x as int, y as int, before.settings.show_icons)
                    &&& self@ == pressed(before, hits, x, y)
                    &&& press_leads_to(r, before, hits)
                };
            assert forall|k: int| #[trigger] is_top_close(before.cards, k, x as int, y as int) implies is_without(
                self@.cards,
                before.cards,
                k,
            ) by {
                lemma_top_close_is_hit(
                    hits,
                    before.cards,
                    k,
                    x as int,
                    y as int,
                    before.settings.show_icons,
                );
                law_closing_removes_the_card_of_the_button(before, hits, r, x, y);
            }
            assert forall|ci: int, ii: int| #[trigger]
                is_top_item(before.cards, ci, ii, x as int, y as int, before.settings.show_icons) implies (
            self@.selected == before.selected || (self@.selected is Some && (self@.selected->0).0 == ci && (
            self@.selected->0).1 == ii)) by {
                if let Some((k, _)) = hits.item {
                    let c = before.cards[k as int];
                    let d = before.cards[ci];
                }
            }
        }
        r
    }

    /// What a press of the left button does, by what it hits.
    fn press(&mut self, x: i32, y: i32, sw: i32, sh: i32) -> (r: Press)
        requires
            closes_a_card(old(self)@.cards, x as int, y as int) ==> old(self)@.cards.len() <= MOST_CARDS + 1,
        ensures
            exists|hits: Hits|
                {
                    &&& #[trigger] are_hits(
                        hits,
                        old(self)@.cards,
                        x as int,
                        y as int,
                        old(self)@.settings.show_icons,
                    )
                    &&& final(self)@ == pressed(old(self)@, hits, x, y)
                    &&& press_leads_to(r, old(self)@, hits)
                },
    {
        let hits: Hits = hits_at(&self.cards, x, y, self.settings.show_icons);
        let ghost before = self@;
        if let Some(k) = hits.close {
            assert(on_close(self.cards@[k as int], x as int, y as int));
            remove_card(&mut self.cards, k);
            if self.cards.len() == 0 {
                assert(self@ =~= pressed(before, hits, x, y));
                return Press { quit: true, capture: false, redraw: Redraw::Nothing };
            }
            lay_out(&mut self.cards, sw, sh, self.settings.card_cols);
            assert(self@ =~= pressed(before, hits, x, y));
            Press { quit: false, capture: false, redraw: Redraw::All }
        } else if let Some(k) = hits.style {
            let style: CardStyle = match self.cards[k].style {
                CardStyle::Grid => CardStyle::List,
                CardStyle::List => CardStyle::Grid,
            };
            self.cards[k].style = style;
            self.cards[k].scroll = 0;
            assert(self@ =~= pressed(before, hits, x, y));
            Press { quit: false, capture: false, redraw: Redraw::All }
        } else if let Some((k, kind)) = hits.edge {
            raise(&mut self.cards, k);
            let top: usize = self.cards.len() - 1;
            let mode: DragMode = match kind {
                ResizeKind::Right => DragMode::ResizeRight,
                ResizeKind::Bottom => DragMode::ResizeBottom,
                ResizeKind::Corner => DragMode::ResizeCorner,
            };
            let card: &Card = &self.cards[top];
            self.drag = Some(
                DragState {
                    card_index: top,
                    mode,
                    offset_x: 0,
                    offset_y: 0,
                    start_x: x,
                    start_y: y,
                    start_w: card.width,
                    start_h: card.height,
                    shown: card_region(card),
                },
            );
            assert(self@ =~= pressed(before, hits, x, y));
            Press { quit: false, capture: true, redraw: Redraw::Nothing }
        } else if let Some(hit) = hits.item {
            self.pick = Some(Pick { before: self.selected });
            self.selected = Some(hit);
            assert(self@ =~= pressed(before, hits, x, y));
            Press { quit: false, capture: false, redraw: Redraw::Nothing }
        } else if let Some(k) = hits.title {
            assert(on_title(self.cards@[k as int], x as int, y as int));
            raise(&mut self.cards, k);
            let top: usize = self.cards.len() - 1;
            let card: &Card = &self.cards[top];
            let offset_x: i32 = (x as i64 - card.x as i64) as i32;
            let offset_y: i32 = (y as i64 - card.y as i64) as i32;
            self.drag = Some(
                DragState {
                    card_index: top,
                    mode: DragMode::Move,
                    offset_x,
                    offset_y,
                    start_x: 0,
                    start_y: 0,
                    start_w: 0,
                    start_h: 0,
                    shown: card_region(card),
                },
            );
            assert(self@ =~= pressed(before, hits, x, y));
            Press { quit: false, capture: true, redraw: Redraw::Nothing }
        } else {
            assert(self@ =~= pressed(before, hits, x, y));
            Press { quit: false, capture: false, redraw: Redraw::Nothing }
        }
    }

    /// A move of the pointer on a screen. A frame is due where the last one is old enough.
    pub fn mouse_move(&mut self, x: i32, y: i32, sw: i32, sh: i32, due: bool) -> (r: Redraw)
        requires
            drag_is_valid(old(self)@),
        ensures
            final(self)@ == moved(old(self)@, x as int, y as int, sw as int, sh as int, due),
            r@ == move_damage(old(self)@, x as int, y as int, sw as int, sh as int, due),
    {
        let ghost before = self@;
        if let Some(d) = self.drag {
            let k: usize = d.card_index;
            let px: i64 = x as i64;
            let py: i64 = y as i64;
            let w: i32 = between(
                d.start_w as i64 + px - d.start_x as i64,
                LEAST_W as i64,
                MOST_W as i64,
            ) as i32;
            let h: i32 = between(
                d.start_h as i64 + py - d.start_y as i64,
                LEAST_H as i64,
                MOST_H as i64,
            ) as i32;
            match d.mode {
                DragMode::Move => {
                    let right: i64 = between(sw as i64 - self.cards[k].width as i64, 0, i32::MAX as i64);
                    let bottom: i64 = between(sh as i64 - self.cards[k].height as i64, 0, i32::MAX as i64);
                    self.cards[k].x = between(px - d.offset_x as i64, 0, right) as i32;
                    self.cards[k].y = between(py - d.offset_y as i64, 0, bottom) as i32;
                },
                DragMode::ResizeRight => {
                    self.cards[k].width = w;
                },
                DragMode::ResizeBottom => {
                    self.cards[k].height = h;
                },
                DragMode::ResizeCorner => {
                    self.cards[k].width = w;
                    self.cards[k].height = h;
                },
            }
            assert(self.cards@ =~= before.cards.update(
                k as int,
                dragged(before.cards[k as int], d, x as int, y as int, sw as int, sh as int),
            ));
            if due {
                let now: Region = card_region(&self.cards[k]);
                let mut parts: Vec<Region> = Vec::new();
                parts.push(d.shown);
                parts.push(now);
                self.drag = Some(DragState { shown: now, ..d });
                assert(parts@ =~= seq![d.shown, now]);
                assert(self@ =~= moved(before, x as int, y as int, sw as int, sh as int, due));
                return Redraw::Parts(parts);
            }
            assert(self@ =~= moved(before, x as int, y as int, sw as int, sh as int, due));
        }
        Redraw::Nothing
    }

    /// The release of the left button.
    pub fn left_up(&mut self) -> (r: Redraw)
        ensures
            final(self)@ == (Model { drag: None, pick: None, ..old(self)@ }),
            r@ == release_damage(old(self)@),
    {
        let parts: Redraw = match (self.pick, self.drag) {
            (Some(p), None) => {
                let mut out: Vec<Region> = Vec::new();
                self.push_selected(p.before, &mut out);
                self.push_selected(self.selected, &mut out);
                assert(out@ =~= selected_region(self.cards@, p.before) + selected_region(
                    self.cards@,
                    self.selected,
                ));
                Redraw::Parts(out)
            },
            _ => Redraw::All,
        };
        self.drag = None;
        self.pick = None;
        parts
    }

    /// Appends the region of the card of a selected item.
    fn push_selected(&self, selected: Option<(usize, usize)>, out: &mut Vec<Region>)
        ensures
            final(out)@ == old(out)@ + selected_region(self.cards@, selected),
    {
        if let Some((ci, _)) = selected {
            if ci < self.cards.len() {
                out.push(card_region(&self.cards[ci]));
            }
        }
        assert(out@ =~= old(out)@ + selected_region(self.cards@, selected));
    }
}

/// What a double click leads to: an item is opened, by its position in the item list; or all is drawn
/// again, with the cards hidden or back.
#[derive(Clone, Copy, Debug, PartialEq, Eq, Structural)]
pub enum DoubleClick {
    Nothing,
    Open(usize),
    Redraw,
}

/// The position in the item list of an item of a card, where there is one.
pub open spec fn item_position(m: Model, hit: (usize, usize)) -> Option<usize> {
    let card = m.cards[hit.0 as int];
    if hit.0 < m.cards.len() && hit.1 < card.item_indices@.len() && card.item_indices@[hit.1 as int]
        < m.items.len() {
        Some(card.item_indices@[hit.1 as int])
    } else {
        None
    }
}

/// What a double click leads to at a point that has these hits: on an item it opens that, beside all
/// cards it hides the cards or brings them back, if it may. While the cards are hidden, none of them is
/// under the point.
pub open spec fn double_click_leads_to(m: Model, hits: Hits) -> DoubleClick {
    let item = if m.visible {
        hits.item
    } else {
        None
    };
    let face = if m.visible {
        hits.face
    } else {
        None
    };
    match item {
        Some(hit) => match item_position(m, hit) {
            Some(k) => DoubleClick::Open(k),
            None => DoubleClick::Nothing,
        },
        None => if m.settings.double_click_hide && face is None {
            DoubleClick::Redraw
        } else {
            DoubleClick::Nothing
        },
    }
}

/// The desktop with the cards hidden where they show, and back where they are hidden.
pub open spec fn toggled(m: Model) -> Model {
    Model { visible: !m.visible, ..m }
}

/// A notch of the wheel.
pub const NOTCH: i16 = 120;

/// The number of whole notches of a turn of the wheel, towards zero.
pub open spec fn notches(delta: int) -> int {
    if delta < 0 {
        -((-delta) / (NOTCH as int))
    } else {
        delta / (NOTCH as int)
    }
}

/// The card scrolled by a turn of the wheel.
pub open spec fn scrolled(card: Card, delta: int) -> Card {
    Card {
        scroll: hold(card.scroll - notches(delta), i32::MIN as int, i32::MAX as int) as i32,
        ..card
    }
}

/// The desktop after a turn of the wheel with the pointer on a card. An open menu holds everything.
pub open spec fn wheeled(m: Model, face: Option<usize>, delta: int) -> Model {
    match face {
        Some(k) => if m.menu_open {
            m
        } else {
            Model { cards: m.cards.update(k as int, scrolled(m.cards[k as int], delta)), ..m }
        },
        None => m,
    }
}

/// What is drawn again after a turn of the wheel: the card under the pointer.
pub open spec fn wheel_damage(m: Model, face: Option<usize>) -> Damage {
    match face {
        Some(k) => if m.menu_open {
            Damage::Nothing
        } else {
            Damage::Parts(seq![region_of(m.cards[k as int])])
        },
        None => Damage::Nothing,
    }
}

/// What a key leads to.
#[derive(Clone, Copy, Debug, PartialEq, Eq, Structural)]
pub enum KeyAction {
    Nothing,
    OpenSettings,
    Redraw,
    Quit,
}

/// The keys F1, F5 and Esc.
pub const KEY_SETTINGS: usize = 0x70;

pub const KEY_LAY_OUT: usize = 0x74;

pub const KEY_QUIT: usize = 0x1B;

/// What a key leads to. The settings open once.
pub open spec fn key_leads_to(m: Model, key: usize) -> KeyAction {
    if key == KEY_SETTINGS && !m.settings_open {
        KeyAction::OpenSettings
    } else if key == KEY_LAY_OUT {
        KeyAction::Redraw
    } else if key == KEY_QUIT {
        KeyAction::Quit
    } else {
        KeyAction::Nothing
    }
}

/// The desktop after a key.
pub open spec fn after_key(m: Model, key: usize) -> Model {
    match key_leads_to(m, key) {
        KeyAction::OpenSettings => Model { settings_open: true, ..m },
        KeyAction::Redraw => Model { cards: laid_out(m.cards, m.settings.card_cols as int), ..m },
        _ => m,
    }
}

/// The commands of the menu of a card.
pub const CMD_DELETE: u32 = 1;

pub const CMD_NEW: u32 = 2;

pub const CMD_EXIT: u32 = 3;

pub const CMD_SETTINGS: u32 = 4;

pub const CMD_DISPLAY: u32 = 5;

/// What a command leads to.
#[derive(Clone, Copy, Debug, PartialEq, Eq, Structural)]
pub enum CommandAction {
    Nothing,
    Redraw,
    Quit,
    AskForSettings,
    OpenDisplaySettings,
}

/// The command that a message carries, in its lower half.
pub open spec fn command_of(word: u32) -> int {
    word as int % 0x1_0000
}

/// The cards after a command, if it changes them.
pub open spec fn is_changed_by(cards: Seq<Card>, m: Model, cmd: int) -> bool {
    if cmd == CMD_DELETE && m.menu_card is Some {
        let k = m.menu_card->0 as int;
        cards == if k < m.cards.len() {
            m.cards.remove(k)
        } else {
            m.cards
        }
    } else if cmd == CMD_NEW {
        cards.len() == m.cards.len() + 1 && cards.drop_last() == m.cards && is_added(cards.last(), m.cards)
    } else {
        false
    }
}

/// A command changes the cards.
pub open spec fn changes_cards(m: Model, cmd: int) -> bool {
    (cmd == CMD_DELETE && m.menu_card is Some) || cmd == CMD_NEW
}

/// The desktop after a command. Where a card is deleted, the others are laid out again; a new card
/// leaves them where they are.
pub open spec fn is_after_command(after: Model, m: Model, cmd: int) -> bool {
    if changes_cards(m, cmd) {
        exists|cards: Seq<Card>|
            {
                &&& #[trigger] is_changed_by(cards, m, cmd)
                &&& after == (Model {
                    cards: if cmd == CMD_DELETE {
                        laid_out(cards, m.settings.card_cols as int)
                    } else {
                        cards
                    },
                    menu_card: None,
                    ..m
                })
            }
    } else {
        after == (Model { menu_card: None, ..m })
    }
}

/// What a command leads to. While the menu is open nothing is drawn; that follows when it closes.
pub open spec fn command_leads_to(m: Model, cmd: int) -> CommandAction {
    if changes_cards(m, cmd) && !m.menu_open {
        CommandAction::Redraw
    } else if cmd == CMD_EXIT {
        CommandAction::Quit
    } else if cmd == CMD_SETTINGS {
        CommandAction::AskForSettings
    } else if cmd == CMD_DISPLAY {
        CommandAction::OpenDisplaySettings
    } else {
        CommandAction::Nothing
    }
}

/// The desktop with new settings: where the number of columns changes, the cards are laid out again.
pub open spec fn with_settings(m: Model, settings: Settings) -> Model {
    Model {
        cards: if m.settings.card_cols != settings.card_cols {
            laid_out(m.cards, settings.card_cols as int)
        } else {
            m.cards
        },
        renderer: if m.settings.bg_color != settings.bg_color {
            Renderer { bg_color: settings.bg_color, ..m.renderer }
        } else {
            m.renderer
        },
        settings,
        ..m
    }
}

impl State {
    /// A double click.
    pub fn double_click(&mut self, x: i32, y: i32) -> (r: DoubleClick)
        ensures
            exists|hits: Hits|
                {
                    &&& #[trigger] are_hits(
                        hits,
                        old(self)@.cards,
                        x as int,
                        y as int,
                        old(self)@.settings.show_icons,
                    )
                    &&& r == double_click_leads_to(old(self)@, hits)
                    &&& final(self)@ == if r == DoubleClick::Redraw {
                        toggled(old(self)@)
                    } else {
                        old(self)@
                    }
                },
            forall|ci: int, ii: int| #[trigger]
                is_top_item(old(self)@.cards, ci, ii, x as int, y as int, old(self)@.settings.show_icons) && old(
                    self,
                )@.visible ==> r == if old(self)@.cards[ci].item_indices@[ii] < old(self)@.items.len() {
                    DoubleClick::Open(old(self)@.cards[ci].item_indices@[ii])
                } else {
                    DoubleClick::Nothing
                },
    {
        let hits: Hits = hits_at(&self.cards, x, y, self.settings.show_icons);
        let ghost before = self@;
        let r: DoubleClick = self.double_click_on(hits);
        if r == DoubleClick::Redraw {
            self.toggle();
        }
        assert(are_hits(hits, before.cards, x as int, y as int, before.settings.show_icons));
        assert(self@ == if r == DoubleClick::Redraw {
            toggled(before)
        } else {
            before
        });
        proof {
            assert forall|ci: int, ii: int| #[trigger]
                is_top_item(before.cards, ci, ii, x as int, y as int, before.settings.show_icons)
                    && before.visible implies r == if before.cards[ci].item_indices@[ii] < before.items.len() {
                DoubleClick::Open(before.cards[ci].item_indices@[ii])
            } else {
                DoubleClick::Nothing
            } by {
                if let Some((k, _)) = hits.item {
                    let c = before.cards[k as int];
                    let d = before.cards[ci];
                } else {
                    let d = before.cards[ci];
                }
            }
        }
        r
    }

    /// What a double click leads to at a point that has these hits.
    pub fn double_click_on(&self, hits: Hits) -> (r: DoubleClick)
        ensures
            r == double_click_leads_to(self@, hits),
    {
        if !self.visible {
            return if self.settings.double_click_hide {
                DoubleClick::Redraw
            } else {
                DoubleClick::Nothing
            };
        }
        match hits.item {
            Some((ci, ii)) => {
                if ci < self.cards.len() && ii < self.cards[ci].item_indices.len() {
                    let k: usize = self.cards[ci].item_indices[ii];
                    if k < self.items.len() {
                        return DoubleClick::Open(k);
                    }
                }
                DoubleClick::Nothing
            },
            None => {
                if self.settings.double_click_hide && hits.face.is_none() {
                    DoubleClick::Redraw
                } else {
                    DoubleClick::Nothing
                }
            },
        }
    }

    /// Hides the cards where they show, and brings them back where they are hidden. All is to be drawn
    /// again.
    pub fn toggle(&mut self)
        ensures
            final(self)@ == toggled(old(self)@),
    {
        self.visible = !self.visible;
    }

    /// A turn of the wheel.
    pub fn wheel(&mut self, x: i32, y: i32, delta: i16) -> (r: Redraw)
        ensures
            exists|face: Option<usize>|
                {
                    &&& #[trigger] is_face(face, old(self)@.cards, x as int, y as int)
                    &&& final(self)@ == wheeled(old(self)@, face, delta as int)
                    &&& r@ == wheel_damage(old(self)@, face)
                },
            forall|k: int| #[trigger]
                is_top_face(old(self)@.cards, k, x as int, y as int) && !old(self)@.menu_open && -0x4000_0000
                    <= old(self)@.cards[k].scroll <= 0x4000_0000 ==> final(self)@.cards[k].scroll
                    == old(self)@.cards[k].scroll - if delta < 0 {
                    -((-delta) / 120)
                } else {
                    delta as int / 120
                },
    {
        let ghost before = self@;
        let r: Redraw = self.turn(x, y, delta);
        proof {
            let face = choose|face: Option<usize>|
                {
                    &&& #[trigger] is_face(face, before.cards, x as int, y as int)
                    &&& self@ == wheeled(before, face, delta as int)
                    &&& r@ == wheel_damage(before, face)
                };
            assert forall|k: int| #[trigger]
                is_top_face(before.cards, k, x as int, y as int) && !before.menu_open && -0x4000_0000
                    <= before.cards[k].scroll <= 0x4000_0000 implies self@.cards[k].scroll
                == before.cards[k].scroll - if delta < 0 {
                -((-delta) / 120)
            } else {
                delta as int / 120
            } by {
                lemma_top_face_is_hit(face, before.cards, k, x as int, y as int);
            }
        }
        r
    }

    /// What a turn of the wheel does, by the card under it.
    fn turn(&mut self, x: i32, y: i32, delta: i16) -> (r: Redraw)
        ensures
            exists|face: Option<usize>|
                {
                    &&& #[trigger] is_face(face, old(self)@.cards, x as int, y as int)
                    &&& final(self)@ == wheeled(old(self)@, face, delta as int)
                    &&& r@ == wheel_damage(old(self)@, face)
                },
    {
        let face: Option<usize> = hit_test(&self.cards, x, y);
        assert(is_face(face, self.cards@, x as int, y as int));
        let ghost before = self@;
        if self.menu_open {
            return Redraw::Nothing;
        }
        match face {
            Some(k) => {
                let part: Region = card_region(&self.cards[k]);
                let d: i64 = delta as i64;
                let n: i64 = if d < 0 {
                    -((-d) / NOTCH as i64)
                } else {
                    d / NOTCH as i64
                };
                self.cards[k].scroll = held(self.cards[k].scroll as i64 - n);
                let mut parts: Vec<Region> = Vec::new();
                parts.push(part);
                assert(parts@ =~= seq![region_of(before.cards[k as int])]);
                assert(self@ =~= wheeled(before, face, delta as int));
                Redraw::Parts(parts)
            },
            None => Redraw::Nothing,
        }
    }

    /// A key.
    pub fn key_down(&mut self, key: usize, sw: i32, sh: i32) -> (r: KeyAction)
        requires
            key == KEY_LAY_OUT ==> old(self)@.cards.len() <= MOST_CARDS,
        ensures
            r == key_leads_to(old(self)@, key),
            final(self)@ == after_key(old(self)@, key),
    {
        if key == KEY_SETTINGS {
            if self.settings_open {
                KeyAction::Nothing
            } else {
                self.settings_open = true;
                KeyAction::OpenSettings
            }
        } else if key == KEY_LAY_OUT {
            lay_out(&mut self.cards, sw, sh, self.settings.card_cols);
            KeyAction::Redraw
        } else if key == KEY_QUIT {
            KeyAction::Quit
        } else {
            KeyAction::Nothing
        }
    }

    /// The release of the right button; tells whether the menu of a card opens. That card is kept for
    /// the command that follows.
    pub fn right_up(&mut self, x: i32, y: i32) -> (r: bool)
        ensures
            exists|face: Option<usize>|
                {
                    &&& #[trigger] is_face(face, old(self)@.cards, x as int, y as int)
                    &&& r == face is Some
                    &&& final(self)@ == (Model {
                        menu_card: face,
                        menu_open: old(self)@.menu_open || face is Some,
                        ..old(self)@
                    })
                },
            match final(self)@.menu_card {
                Some(k) => r && k < old(self)@.cards.len() && on_face(
                    old(self)@.cards[k as int],
                    x as int,
                    y as int,
                ) && forall|j: int|
                    k < j < old(self)@.cards.len() ==> !on_face(
                        #[trigger] old(self)@.cards[j],
                        x as int,
                        y as int,
                    ),
                None => !r && forall|j: int|
                    0 <= j < old(self)@.cards.len() ==> !on_face(
                        #[trigger] old(self)@.cards[j],
                        x as int,
                        y as int,
                    ),
            },
    {
        let face: Option<usize> = hit_test(&self.cards, x, y);
        assert(is_face(face, self.cards@, x as int, y as int));
        let ghost before = self@;
        self.menu_card = face;
        if face.is_some() {
            self.menu_open = true;
        }
        assert(self@ =~= Model {
            menu_card: face,
            menu_open: before.menu_open || face is Some,
            ..before
        });
        face.is_some()
    }

    /// The menu is closed. All is to be drawn again, for a command can have changed the cards.
    pub fn menu_closed(&mut self)
        ensures
            final(self)@ == (Model { menu_open: false, ..old(self)@ }),
    {
        self.menu_open = false;
    }

    /// A command.
    pub fn command(&mut self, word: u32, sw: i32, sh: i32) -> (r: CommandAction)
        requires
            command_of(word) == CMD_DELETE ==> old(self)@.cards.len() <= MOST_CARDS,
        ensures
            r == command_leads_to(old(self)@, command_of(word)),
            is_after_command(final(self)@, old(self)@, command_of(word)),
    {
        let ghost before = self@;
        let cmd: u32 = word % 0x1_0000;
        let mut changed: bool = false;
        let mut action: CommandAction = CommandAction::Nothing;
        if cmd == CMD_DELETE {
            if let Some(k) = self.menu_card {
                remove_card(&mut self.cards, k);
                changed = true;
            }
        } else if cmd == CMD_NEW {
            add_card(&mut self.cards);
            changed = true;
        } else if cmd == CMD_EXIT {
            action = CommandAction::Quit;
        } else if cmd == CMD_SETTINGS {
            action = CommandAction::AskForSettings;
        } else if cmd == CMD_DISPLAY {
            action = CommandAction::OpenDisplaySettings;
        }
        self.menu_card = None;
        assert(changed == changes_cards(before, cmd as int));
        if changed {
            let ghost cards = self.cards@;
            assert(is_changed_by(cards, before, cmd as int));
            if cmd == CMD_DELETE {
                lay_out(&mut self.cards, sw, sh, self.settings.card_cols);
            }
            if !self.menu_open {
                action = CommandAction::Redraw;
            }
        }
        action
    }

    /// New settings. All is to be drawn again.
    pub fn apply_settings(&mut self, settings: Settings, sw: i32, sh: i32)
        requires
            old(self)@.settings.card_cols != settings.card_cols ==> old(self)@.cards.len() <= MOST_CARDS,
        ensures
            final(self)@ == with_settings(old(self)@, settings),
    {
        let cols_changed: bool = self.settings.card_cols != settings.card_cols;
        let bg_changed: bool = self.settings.bg_color != settings.bg_color;
        self.settings = settings;
        if cols_changed {
            lay_out(&mut self.cards, sw, sh, self.settings.card_cols);
        }
        if bg_changed {
            self.renderer.set_bg_color(self.settings.bg_color);
        }
    }

    /// The settings are closed, and can open again.
    pub fn settings_closed(&mut self)
        ensures
            final(self)@ == (Model { settings_open: false, ..old(self)@ }),
    {
        self.settings_open = false;
    }
}

/// The cards of the items in the slots of a layout: one for each kind, in the order of the kinds.
pub open spec fn are_first_cards(cards: Seq<Card>, items: Seq<DesktopItem>, cols: int) -> bool {
    exists|sorted: Seq<Card>|
        {
            &&& #[trigger] are_sorted_cards(sorted, items)
            &&& cards == laid_out(sorted, cols)
        }
}

/// The cards of the items: one for each kind, in the order of the kinds.
pub open spec fn are_sorted_cards(cards: Seq<Card>, items: Seq<DesktopItem>) -> bool {
    &&& cards.len() == 5
    &&& forall|i: int| 0 <= i < 5 ==> is_sorted_card(#[trigger] cards[i], kind_at(i), items)
}

/// The desktop at the start, but for its cards.
pub open spec fn started(items: Seq<DesktopItem>, settings: Settings, cards: Seq<Card>) -> Model {
    Model {
        renderer: Renderer { bg_color: settings.bg_color, w: 0, h: 0, ready: false },
        items,
        cards,
        drag: None,
        pick: None,
        visible: true,
        menu_open: false,
        menu_card: None,
        settings,
        settings_open: false,
        selected: None,
    }
}

/// What is stored when the program ends.
pub struct Stored {
    pub layout: Vec<SavedCard>,
    pub settings: Settings,
}

/// The handles of the icons of the first `n` items.
pub open spec fn icons_of(items: Seq<DesktopItem>, n: int) -> Seq<isize>
    decreases n,
{
    if n <= 0 {
        Seq::empty()
    } else {
        let before = icons_of(items, n - 1);
        match items[n - 1].icon {
            Some(icon) => before.push(icon),
            None => before,
        }
    }
}

impl State {
    /// The desktop at the start: the items on the cards of their kinds, laid out, and then restored
    /// from what was stored. Whether the program starts with the system is as the system has it.
    pub fn create(
        items: Vec<DesktopItem>,
        stored: Option<Settings>,
        autostart: bool,
        saved: &[SavedCard],
        sw: i32,
        sh: i32,
    ) -> (r: State)
        ensures
            exists|laid: Seq<Card>|
                {
                    &&& #[trigger] are_first_cards(laid, items@, loaded(stored).card_cols as int)
                    &&& r@ == started(
                        items@,
                        Settings { autostart, ..loaded(stored) },
                        restore_all(laid, saved@).cards,
                    )
                },
    {
        let mut settings: Settings = load_settings(stored);
        settings.autostart = autostart;
        let mut cards: Vec<Card> = classify(items.as_slice());
        let ghost sorted = cards@;
        assert(are_sorted_cards(sorted, items@));
        lay_out(&mut cards, sw, sh, settings.card_cols);
        let ghost laid = cards@;
        assert(are_first_cards(laid, items@, loaded(stored).card_cols as int));
        load_layout(&mut cards, saved);
        let mut renderer: Renderer = Renderer::new();
        renderer.set_bg_color(settings.bg_color);
        let state: State = State {
            renderer,
            items,
            cards,
            drag: None,
            pick: None,
            visible: true,
            menu_open: false,
            menu_card: None,
            settings,
            settings_open: false,
            selected: None,
        };
        assert(state@ =~= started(
            items@,
            Settings { autostart, ..loaded(stored) },
            restore_all(laid, saved@).cards,
        ));
        state
    }

    /// The frame that draws again what is asked for, on a screen.
    pub fn frame(&mut self, redraw: &Redraw, w: i32, h: i32) -> (r: Option<Frame>)
        ensures
            is_framed(r, final(self)@, old(self)@, redraw@, w, h),
    {
        let ghost before = self@;
        let r: Option<Frame> = match redraw {
            Redraw::Nothing => None,
            Redraw::All => self.renderer.render(
                w,
                h,
                &mut self.cards,
                self.items.as_slice(),
                self.visible,
                self.settings.alpha,
                self.settings.show_icons,
                self.selected,
            ),
            Redraw::Parts(parts) => self.renderer.render_damage(
                w,
                h,
                &mut self.cards,
                self.items.as_slice(),
                self.visible,
                self.settings.alpha,
                self.settings.show_icons,
                self.selected,
                parts.as_slice(),
            ),
        };
        assert(r is None ==> self@ =~= before);
        assert(r is Some ==> self@ =~= Model {
            renderer: Renderer { w, h, ready: true, ..before.renderer },
            cards: held_cards(before),
            ..before
        });
        r
    }

    /// What is stored when the program ends; nothing where it is being uninstalled.
    pub fn destroy(&self, uninstalling: bool) -> (r: Option<Stored>)
        ensures
            match r {
                Some(s) => {
                    &&& !uninstalling
                    &&& s.layout@.len() == self@.cards.len()
                    &&& forall|i: int|
                        0 <= i < self@.cards.len() ==> stores(#[trigger] s.layout@[i], self@.cards[i])
                    &&& s.settings == self@.settings
                },
                None => uninstalling,
            },
    {
        if uninstalling {
            None
        } else {
            Some(Stored { layout: save_layout(self.cards.as_slice()), settings: self.settings })
        }
    }

    /// The handles of the icons that are given back when the program ends.
    pub fn icons(&self) -> (r: Vec<isize>)
        ensures
            r@ == icons_of(self@.items, self@.items.len() as int),
    {
        let mut out: Vec<isize> = Vec::new();
        let n: usize = self.items.len();
        let mut i: usize = 0;
        while i < n
            invariant
                i <= n,
                n == self.items@.len(),
                out@ == icons_of(self.items@, i as int),
            decreases n - i,
        {
            if let Some(icon) = self.items[i].icon {
                out.push(icon);
            }
            i += 1;
        }
        out
    }

    /// Whether the window is shown again after the system has hidden it: not while the cards are
    /// hidden.
    pub fn shows_again(&self, shown: bool) -> (r: bool)
        ensures
            r == (!shown && self@.visible),
    {
        !shown && self.visible
    }
}

/// The cards with their scroll offsets held within bounds.
pub open spec fn held_cards(m: Model) -> Seq<Card> {
    m.cards.map_values(|c: Card| held_scroll(c, m.settings.show_icons))
}

/// The frame draws again what is asked for: the cards where they show, else the hint. Scroll offsets
/// are held within bounds before that.
pub open spec fn is_framed(r: Option<Frame>, after: Model, m: Model, damage: Damage, w: i32, h: i32) -> bool {
    let regions = match damage {
        Damage::Nothing => Seq::empty(),
        Damage::All => seq![whole_screen(w, h)],
        Damage::Parts(parts) => if m.visible {
            all_on_screen(parts, parts.len() as int, w as int, h as int)
        } else {
            seq![whole_screen(w, h)]
        },
    };
    let cards = held_cards(m);
    match r {
        Some(f) => {
            &&& 0 < w && 0 < h && regions.len() > 0
            &&& f.new_surface == !(m.renderer.ready && m.renderer.w == w && m.renderer.h == h)
            &&& after == (Model {
                renderer: Renderer { w, h, ready: true, ..m.renderer },
                cards,
                ..m
            })
            &&& if m.visible {
                is_card_frame(
                    f,
                    regions,
                    match damage {
                        Damage::Parts(parts) => cards_in(cards, regions, cards.len() as int),
                        _ => Seq::new(cards.len(), |i: int| i),
                    },
                    cards,
                    m.items,
                    m.renderer.bg_color,
                    m.settings.alpha,
                    m.settings.show_icons,
                    m.selected,
                    w,
                    h,
                )
            } else {
                is_hint_frame(f, m.renderer.bg_color, w, h)
            }
        },
        None => {
            &&& w <= 0 || h <= 0 || regions.len() == 0
            &&& after == m
        },
    }
}

/// The time between two frames of a drag, in milliseconds.
pub const FRAME_TIME: u128 = 16;

/// Whether a frame of a drag is due, by the time since the last one in milliseconds.
pub fn frame_is_due(elapsed: u128) -> (r: bool)
    ensures
        r == (elapsed >= FRAME_TIME),
{
    elapsed >= FRAME_TIME
}

/// The bit by which the system asks that a window be hidden.
pub const HIDE_FLAG: u32 = 0x80;

/// The flags of a change of the window without the wish to hide it.
pub fn keep_shown(flags: u32) -> (r: u32)
    ensures
        r == flags & !HIDE_FLAG,
{
    if flags & HIDE_FLAG != 0 {
        flags & !HIDE_FLAG
    } else {
        assert(flags & 0x80 == 0 ==> flags & !0x80u32 == flags) by (bit_vector);
        flags
    }
}

/// The timer that looks after the window.
pub const TIMER_ID: usize = 1;

/// Whether the window is shown again when a timer rings.
pub fn timer_shows(id: usize, window_shows: bool) -> (r: bool)
    ensures
        r == (id == TIMER_ID && !window_shows),
{
    id == TIMER_ID && !window_shows
}

} // verus!
