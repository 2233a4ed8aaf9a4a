//! The cards of the desktop: what they hold, how they are placed, and what a point hits.
use vstd::prelude::*;
use vstd::string::*;
use crate::geometry::{
    cell_h, cell_h_of, cell_w, cell_w_of, content_top, grid_cols, grid_cols_of,
    length_on_card, on_card, row_h, row_h_of, title_h, CONTENT_TOP, TITLE_H,
};
use crate::scanner::{DesktopItem, IconKind};
use crate::text::{begins_with, decimal, digits};

verus! {

/// How the items of a card are shown.
#[derive(Clone, Copy, PartialEq, Eq, Debug, Structural)]
pub enum CardStyle {
    Grid,
    List,
}

/// A card: a titled part of the desktop that holds items, by their position in the item list.
pub struct Card {
    pub kind: IconKind,
    pub title: String,
    pub x: i32,
    pub y: i32,
    pub width: i32,
    pub height: i32,
    pub item_indices: Vec<usize>,
    pub style: CardStyle,
    pub scroll: i32,
}

/// A new card: without items, place or size.
pub open spec fn is_new(card: Card, kind: IconKind, title: Seq<char>) -> bool {
    &&& card.kind == kind
    &&& card.title@ == title
    &&& card.x == 0
    &&& card.y == 0
    &&& card.width == 0
    &&& card.height == 0
    &&& card.item_indices@ == Seq::<usize>::empty()
    &&& card.style == CardStyle::List
    &&& card.scroll == 0
}

impl Card {
    /// A new card.
    pub fn new(kind: IconKind, title: &str) -> (r: Self)
        ensures
            is_new(r, kind, title@),
    {
        Card {
            kind,
            title: title.to_owned(),
            x: 0,
            y: 0,
            width: 0,
            height: 0,
            item_indices: Vec::new(),
            style: CardStyle::List,
            scroll: 0,
        }
    }
}

/// The kinds in the order of their cards.
pub open spec fn kind_at(i: int) -> IconKind {
    if i == 0 {
        IconKind::App
    } else if i == 1 {
        IconKind::Folder
    } else if i == 2 {
        IconKind::Document
    } else if i == 3 {
        IconKind::Image
    } else {
        IconKind::Other
    }
}

/// The title of the card of a kind.
pub open spec fn kind_title(kind: IconKind) -> Seq<char> {
    match kind {
        IconKind::App => "应用"@,
        IconKind::Folder => "文件夹"@,
        IconKind::Document => "文档"@,
        IconKind::Image => "图片"@,
        IconKind::Other => "其他"@,
    }
}

/// The positions of the items of a kind, in increasing order.
pub open spec fn positions(items: Seq<DesktopItem>, kind: IconKind) -> Seq<usize>
    decreases items.len(),
{
    if items.len() == 0 {
        Seq::empty()
    } else if items.last().kind == kind {
        positions(items.drop_last(), kind).push((items.len() - 1) as usize)
    } else {
        positions(items.drop_last(), kind)
    }
}

/// A card that holds the items of its kind, and is otherwise new.
pub open spec fn is_sorted_card(card: Card, kind: IconKind, items: Seq<DesktopItem>) -> bool {
    &&& card.kind == kind
    &&& card.title@ == kind_title(kind)
    &&& card.item_indices@ == positions(items, kind)
    &&& card.x == 0
    &&& card.y == 0
    &&& card.width == 0
    &&& card.height == 0
    &&& card.style == CardStyle::List
    &&& card.scroll == 0
}

/// The card that holds the items of a kind.
fn sorted_card(kind: IconKind, title: &str, items: &[DesktopItem]) -> (r: Card)
    requires
        title@ == kind_title(kind),
    ensures
        is_sorted_card(r, kind, items@),
{
    let mut card: Card = Card::new(kind, title);
    let mut i: usize = 0;
    while i < items.len()
        invariant
            i <= items@.len(),
            is_sorted_card(card, kind, items@.take(i as int)),
        decreases items@.len() - i,
    {
        assert(items@.take(i + 1).drop_last() =~= items@.take(i as int));
        if items[i].kind == kind {
            card.item_indices.push(i);
        }
        i += 1;
    }
    assert(items@.take(items@.len() as int) =~= items@);
    card
}

/// Sorts the items of the desktop into five cards, one for each kind.
pub fn classify(items: &[DesktopItem]) -> (r: Vec<Card>)
    ensures
        r@.len() == 5,
        forall|i: int| 0 <= i < 5 ==> is_sorted_card(#[trigger] r@[i], kind_at(i), items@),
{
    let mut cards: Vec<Card> = Vec::new();
    cards.push(sorted_card(IconKind::App, "应用", items));
    cards.push(sorted_card(IconKind::Folder, "文件夹", items));
    cards.push(sorted_card(IconKind::Document, "文档", items));
    cards.push(sorted_card(IconKind::Image, "图片", items));
    cards.push(sorted_card(IconKind::Other, "其他", items));
    cards
}

/// The size of a card in a layout of that many columns.
pub open spec fn slot_size(cols: int) -> (int, int) {
    if cols == 2 {
        (340, 260)
    } else if cols == 4 {
        (200, 160)
    } else {
        (260, 200)
    }
}

/// The number of columns of a layout; three where none is asked for.
pub open spec fn layout_cols(cols: int) -> int {
    if cols == 0 {
        3
    } else {
        cols
    }
}

/// The left edge of the `i`-th card of a layout.
pub open spec fn slot_x(i: int, cols: int) -> int {
    16 + (i % layout_cols(cols)) * (slot_size(layout_cols(cols)).0 + 16)
}

/// The top edge of the `i`-th card of a layout.
pub open spec fn slot_y(i: int, cols: int) -> int {
    16 + (i / layout_cols(cols)) * (slot_size(layout_cols(cols)).1 + 16)
}

/// The place of the `i`-th card of a layout is within the coordinates.
pub open spec fn slot_fits(i: int, cols: int) -> bool {
    slot_x(i, cols) <= i32::MAX && slot_y(i, cols) <= i32::MAX
}

/// The `i`-th card of a layout: in its slot, and otherwise as it was.
pub open spec fn in_slot(card: Card, i: int, cols: int) -> Card {
    Card {
        x: slot_x(i, cols) as i32,
        y: slot_y(i, cols) as i32,
        width: slot_size(layout_cols(cols)).0 as i32,
        height: slot_size(layout_cols(cols)).1 as i32,
        ..card
    }
}

/// Places the cards in rows from the top of the desktop, in sizes that go with the number of
/// columns: the fewer columns, the larger the cards.
pub fn layout_cards(cards: &mut [Card], _area_w: i32, _area_h: i32, cols: usize)
    requires
        forall|i: int| 0 <= i < old(cards)@.len() ==> #[trigger] slot_fits(i, cols as int),
    ensures
        final(cards)@.len() == old(cards)@.len(),
        forall|i: int|
            0 <= i < old(cards)@.len() ==> #[trigger] final(cards)@[i] == in_slot(
                old(cards)@[i],
                i,
                cols as int,
            ),
{
    let n: usize = if cols == 0 {
        3
    } else {
        cols
    };
    let (card_w, card_h): (i32, i32) = if n == 2 {
        (340, 260)
    } else if n == 4 {
        (200, 160)
    } else {
        (260, 200)
    };
    let mut i: usize = 0;
    while i < cards.len()
        invariant
            i <= cards@.len(),
            cards@.len() == old(cards)@.len(),
            n == layout_cols(cols as int),
            card_w == slot_size(n as int).0,
            card_h == slot_size(n as int).1,
            0 < card_w <= 340,
            0 < card_h <= 260,
            forall|j: int| 0 <= j < cards@.len() ==> #[trigger] slot_fits(j, cols as int),
            forall|j: int|
                0 <= j < i ==> #[trigger] cards@[j] == in_slot(old(cards)@[j], j, cols as int),
            forall|j: int| i <= j < cards@.len() ==> #[trigger] cards@[j] == old(cards)@[j],
        decreases cards@.len() - i,
    {
        assert(slot_fits(i as int, cols as int));
        let col: usize = i % n;
        let row: usize = i / n;
        proof {
            let c = col as int;
            let r = row as int;
            assert(c <= c * (card_w + 16)) by (nonlinear_arith)
                requires
                    0 <= c,
                    0 < card_w,
            ;
            assert(r <= r * (card_h + 16)) by (nonlinear_arith)
                requires
                    0 <= r,
                    0 < card_h,
            ;
        }
        cards[i].x = 16 + (col as i32) * (card_w + 16);
        cards[i].y = 16 + (row as i32) * (card_h + 16);
        cards[i].width = card_w;
        cards[i].height = card_h;
        i += 1;
    }
}

/// The point is on the card.
pub open spec fn on_face(card: Card, x: int, y: int) -> bool {
    card.x <= x < card.x + card.width && card.y <= y < card.y + card.height
}

/// The point is on the button that closes the card, a square around its upper right corner.
pub open spec fn on_close(card: Card, x: int, y: int) -> bool {
    let off = on_card(12, card.width as int);
    let cx = card.x + card.width - on_card(16, card.width as int);
    let cy = card.y + off;
    cx - off <= x < cx + off && cy - off <= y < cy + off
}

/// The point is on the button that switches between grid and list, to the left of the other.
pub open spec fn on_style(card: Card, x: int, y: int) -> bool {
    let r = on_card(12, card.width as int);
    let sx = card.x + card.width - on_card(52, card.width as int);
    let sy = card.y + r;
    sx - r <= x < sx + r && sy - r <= y < sy + r
}

/// The point is on the title bar, to the left of the buttons.
pub open spec fn on_title(card: Card, x: int, y: int) -> bool {
    &&& card.x <= x < card.x + card.width - on_card(28, card.width as int)
    &&& card.y <= y < card.y + on_card(TITLE_H as int, card.width as int)
}

/// The topmost of the cards that satisfy a predicate: the last of them.
pub open spec fn is_topmost(r: Option<usize>, cards: Seq<Card>, p: spec_fn(Card) -> bool) -> bool {
    match r {
        Some(i) => i < cards.len() && p(cards[i as int]) && forall|j: int|
            i < j < cards.len() ==> !p(#[trigger] cards[j]),
        None => forall|j: int| 0 <= j < cards.len() ==> !p(#[trigger] cards[j]),
    }
}

/// The topmost card under the point.
pub fn hit_test(cards: &[Card], x: i32, y: i32) -> (r: Option<usize>)
    ensures
        is_topmost(r, cards@, |c: Card| on_face(c, x as int, y as int)),
{
    let mut i: usize = cards.len();
    while i > 0
        invariant
            i <= cards@.len(),
            forall|j: int| i <= j < cards@.len() ==> !on_face(#[trigger] cards@[j], x as int, y as int),
        decreases i,
    {
        i -= 1;
        let c: &Card = &cards[i];
        if x >= c.x && (x as i64) < c.x as i64 + c.width as i64 && y >= c.y && (y as i64) < c.y as i64
            + c.height as i64 {
            return Some(i);
        }
    }
    None
}

/// The topmost card whose closing button is under the point.
pub fn hit_test_close(cards: &[Card], x: i32, y: i32) -> (r: Option<usize>)
    ensures
        is_topmost(r, cards@, |c: Card| on_close(c, x as int, y as int)),
{
    let mut i: usize = cards.len();
    while i > 0
        invariant
            i <= cards@.len(),
            forall|j: int| i <= j < cards@.len() ==> !on_close(#[trigger] cards@[j], x as int, y as int),
        decreases i,
    {
        i -= 1;
        let c: &Card = &cards[i];
        let off: i64 = length_on_card(12, c.width) as i64;
        let cx: i64 = c.x as i64 + c.width as i64 - length_on_card(16, c.width) as i64;
        let cy: i64 = c.y as i64 + off;
        if x as i64 >= cx - off && (x as i64) < cx + off && y as i64 >= cy - off && (y as i64) < cy + off {
            return Some(i);
        }
    }
    None
}

/// The topmost card whose style button is under the point.
pub fn hit_test_style(cards: &[Card], x: i32, y: i32) -> (r: Option<usize>)
    ensures
        is_topmost(r, cards@, |c: Card| on_style(c, x as int, y as int)),
{
    let mut i: usize = cards.len();
    while i > 0
        invariant
            i <= cards@.len(),
            forall|j: int| i <= j < cards@.len() ==> !on_style(#[trigger] cards@[j], x as int, y as int),
        decreases i,
    {
        i -= 1;
        let c: &Card = &cards[i];
        let r: i64 = length_on_card(12, c.width) as i64;
        let sx: i64 = c.x as i64 + c.width as i64 - length_on_card(52, c.width) as i64;
        let sy: i64 = c.y as i64 + r;
        if x as i64 >= sx - r && (x as i64) < sx + r && y as i64 >= sy - r && (y as i64) < sy + r {
            return Some(i);
        }
    }
    None
}

/// The topmost card whose title bar is under the point.
pub fn hit_test_title(cards: &[Card], x: i32, y: i32) -> (r: Option<usize>)
    ensures
        is_topmost(r, cards@, |c: Card| on_title(c, x as int, y as int)),
{
    let mut i: usize = cards.len();
    while i > 0
        invariant
            i <= cards@.len(),
            forall|j: int| i <= j < cards@.len() ==> !on_title(#[trigger] cards@[j], x as int, y as int),
        decreases i,
    {
        i -= 1;
        let c: &Card = &cards[i];
        let right: i64 = c.x as i64 + c.width as i64 - length_on_card(28, c.width) as i64;
        let bottom: i64 = c.y as i64 + title_h(c.width) as i64;
        if x >= c.x && (x as i64) < right && y >= c.y && (y as i64) < bottom {
            return Some(i);
        }
    }
    None
}

/// The edge by which a card is resized.
#[derive(Clone, Copy, PartialEq, Eq, Debug, Structural)]
pub enum ResizeKind {
    Right,
    Bottom,
    Corner,
}

/// The edge of the card under the point: the lower right corner reaches further in than the edges.
pub open spec fn edge_at(card: Card, x: int, y: int) -> Option<ResizeKind> {
    let right = card.x + card.width;
    let bottom = card.y + card.height;
    if right - 20 <= x < right && bottom - 20 <= y < bottom {
        Some(ResizeKind::Corner)
    } else if right - 10 <= x < right && card.y <= y < bottom {
        Some(ResizeKind::Right)
    } else if bottom - 10 <= y < bottom && card.x <= x < right {
        Some(ResizeKind::Bottom)
    } else {
        None
    }
}

/// The topmost card of which an edge is under the point, and that edge.
pub open spec fn is_topmost_edge(
    r: Option<(usize, ResizeKind)>,
    cards: Seq<Card>,
    x: int,
    y: int,
) -> bool {
    match r {
        Some((i, kind)) => i < cards.len() && edge_at(cards[i as int], x, y) == Some(kind) && forall|
            j: int,
        |
            i < j < cards.len() ==> edge_at(#[trigger] cards[j], x, y) is None,
        None => forall|j: int| 0 <= j < cards.len() ==> edge_at(#[trigger] cards[j], x, y) is None,
    }
}

/// The topmost card of which an edge is under the point, and that edge.
pub fn hit_test_resize(cards: &[Card], x: i32, y: i32) -> (r: Option<(usize, ResizeKind)>)
    ensures
        is_topmost_edge(r, cards@, x as int, y as int),
{
    let px: i64 = x as i64;
    let py: i64 = y as i64;
    let mut i: usize = cards.len();
    while i > 0
        invariant
            px == x,
            py == y,
            i <= cards@.len(),
            forall|j: int|
                i <= j < cards@.len() ==> edge_at(#[trigger] cards@[j], x as int, y as int) is None,
        decreases i,
    {
        i -= 1;
        let c: &Card = &cards[i];
        let right: i64 = c.x as i64 + c.width as i64;
        let bottom: i64 = c.y as i64 + c.height as i64;
        if px >= right - 20 && px < right && py >= bottom - 20 && py < bottom {
            return Some((i, ResizeKind::Corner));
        }
        if px >= right - 10 && px < right && y >= c.y && py < bottom {
            return Some((i, ResizeKind::Right));
        }
        if py >= bottom - 10 && py < bottom && x >= c.x && px < right {
            return Some((i, ResizeKind::Bottom));
        }
    }
    None
}

/// The left edge of the items, and the top of the first of them.
pub open spec fn items_left(card: Card) -> int {
    card.x + on_card(8, card.width as int)
}

pub open spec fn items_top(card: Card) -> int {
    card.y + on_card(CONTENT_TOP as int, card.width as int)
}

/// The point is in the columns of the items, to the left of the buttons, and below the title.
pub open spec fn among_items(card: Card, x: int, y: int) -> bool {
    items_left(card) <= x < card.x + card.width - on_card(28, card.width as int) && items_top(card) <= y
}

/// The place in the item list of the card that the point is on, whether an item is there or not. The
/// lines that are scrolled away count.
pub open spec fn place_at(card: Card, x: int, y: int, show_icons: bool) -> int {
    let width = card.width as int;
    match card.style {
        CardStyle::Grid => ((y - items_top(card)) / cell_h_of(width) + card.scroll) * grid_cols_of(
            width,
        ) + (x - items_left(card)) / cell_w_of(width),
        CardStyle::List => (y - items_top(card)) / row_h_of(width, show_icons) + card.scroll,
    }
}

/// The item of the card under the point; there is none beside the card.
pub open spec fn item_at(card: Card, x: int, y: int, show_icons: bool) -> Option<int> {
    let place = place_at(card, x, y, show_icons);
    if on_face(card, x, y) && among_items(card, x, y) && 0 <= place < card.item_indices@.len() {
        Some(place)
    } else {
        None
    }
}

/// The item of the topmost card that has one under the point.
pub open spec fn is_topmost_item(
    r: Option<(usize, usize)>,
    cards: Seq<Card>,
    x: int,
    y: int,
    show_icons: bool,
) -> bool {
    match r {
        Some((i, item)) => i < cards.len() && item_at(cards[i as int], x, y, show_icons) == Some(
            item as int,
        ) && forall|j: int|
            i < j < cards.len() ==> item_at(#[trigger] cards[j], x, y, show_icons) is None,
        None => forall|j: int|
            0 <= j < cards.len() ==> item_at(#[trigger] cards[j], x, y, show_icons) is None,
    }
}

/// The item of one card under the point.
fn hit_item(card: &Card, x: i32, y: i32, show_icons: bool) -> (r: Option<usize>)
    ensures
        match r {
            Some(i) => item_at(*card, x as int, y as int, show_icons) == Some(i as int),
            None => item_at(*card, x as int, y as int, show_icons) is None,
        },
{
    let px: i64 = x as i64;
    let py: i64 = y as i64;
    let left: i64 = card.x as i64 + length_on_card(8, card.width) as i64;
    let right: i64 = card.x as i64 + card.width as i64 - length_on_card(28, card.width) as i64;
    let top: i64 = card.y as i64 + content_top(card.width) as i64;
    let bottom: i64 = card.y as i64 + card.height as i64;
    if px < left || px >= right || py < top || py >= bottom {
        return None;
    }
    let dx: i64 = px - left;
    let dy: i64 = py - top;
    let place: i64 = match card.style {
        CardStyle::Grid => {
            let cw: i64 = cell_w(card.width) as i64;
            let ch: i64 = cell_h(card.width) as i64;
            let cols: i64 = grid_cols(card.width) as i64;
            let col: i64 = dx / cw;
            let row: i64 = dy / ch;
            assert(0 <= row <= dy && 0 <= col <= dx) by (nonlinear_arith)
                requires
                    row == dy / ch,
                    col == dx / cw,
                    0 <= dy,
                    0 <= dx,
                    1 <= ch,
                    1 <= cw,
            ;
            let line: i64 = row + card.scroll as i64;
            assert(-0x20_0000_0000 <= line * cols <= 0x20_0000_0000) by (nonlinear_arith)
                requires
                    2 <= cols <= 10,
                    -0x8000_0000 <= line <= 0x2_8000_0000,
            ;
            line * cols + col
        },
        CardStyle::List => {
            let rh: i64 = row_h(card.width, show_icons) as i64;
            let row: i64 = dy / rh;
            assert(0 <= row <= dy) by (nonlinear_arith)
                requires
                    row == dy / rh,
                    0 <= dy,
                    1 <= rh,
            ;
            row + card.scroll as i64
        },
    };
    if place >= 0 && (place as u64) < card.item_indices.len() as u64 {
        Some(place as usize)
    } else {
        None
    }
}

/// The topmost card that has an item under the point, and the place of that item in its list.
pub fn hit_test_item(cards: &[Card], x: i32, y: i32, show_icons: bool) -> (r: Option<(usize, usize)>)
    ensures
        is_topmost_item(r, cards@, x as int, y as int, show_icons),
{
    let mut i: usize = cards.len();
    while i > 0
        invariant
            i <= cards@.len(),
            forall|j: int|
                i <= j < cards@.len() ==> item_at(
                    #[trigger] cards@[j],
                    x as int,
                    y as int,
                    show_icons,
                ) is None,
        decreases i,
    {
        i -= 1;
        match hit_item(&cards[i], x, y, show_icons) {
            Some(item) => {
                return Some((i, item));
            },
            None => {},
        }
    }
    None
}

/// Removes a card.
pub fn remove_card(cards: &mut Vec<Card>, index: usize)
    ensures
        index < old(cards)@.len() ==> final(cards)@ == old(cards)@.remove(index as int),
        index >= old(cards)@.len() ==> final(cards)@ == old(cards)@,
{
    if index < cards.len() {
        let _removed = cards.remove(index);
    }
}

/// The cards whose title begins like that of an added card.
pub open spec fn count_added(cards: Seq<Card>) -> int
    decreases cards.len(),
{
    if cards.len() == 0 {
        0
    } else {
        count_added(cards.drop_last()) + if "新分区"@.is_prefix_of(cards.last().title@) {
            1int
        } else {
            0
        }
    }
}

/// A rectangle overlaps the card.
pub open spec fn overlaps(card: Card, x: int, y: int, w: int, h: int) -> bool {
    x < card.x + card.width && x + w > card.x && y < card.y + card.height && y + h > card.y
}

/// No card is in the way of a new one at that place.
pub open spec fn is_free(cards: Seq<Card>, x: int, y: int) -> bool {
    forall|i: int| 0 <= i < cards.len() ==> !overlaps(#[trigger] cards[i], x, y, 260, 200)
}

/// The `k`-th place that is tried for a new card, along rows of twelve.
pub open spec fn trial_x(k: int) -> int {
    16 + (k % 12) * 276
}

pub open spec fn trial_y(k: int) -> int {
    16 + (k / 12) * 216
}

/// The place of a new card: the first free one, or else one that moves on with each card.
pub open spec fn is_new_place(cards: Seq<Card>, x: int, y: int) -> bool {
    ||| exists|k: int|
        {
            &&& 0 <= k < 144
            &&& #[trigger] is_free(cards, trial_x(k), trial_y(k))
            &&& forall|j: int| 0 <= j < k ==> !#[trigger] is_free(cards, trial_x(j), trial_y(j))
            &&& x == trial_x(k)
            &&& y == trial_y(k)
        }
    ||| {
        &&& forall|j: int| 0 <= j < 144 ==> !#[trigger] is_free(cards, trial_x(j), trial_y(j))
        &&& x == 16 + (cards.len() * 28) % 500
        &&& y == 16 + (cards.len() * 28) % 400
    }
}

/// The card that is added: empty, with the next number in its title, at the place found for it.
pub open spec fn is_added(card: Card, cards: Seq<Card>) -> bool {
    &&& card.kind == IconKind::Other
    &&& card.title@ == "新分区"@ + digits(count_added(cards) + 1, 10)
    &&& card.width == 260
    &&& card.height == 200
    &&& card.item_indices@ == Seq::<usize>::empty()
    &&& card.style == CardStyle::List
    &&& card.scroll == 0
    &&& is_new_place(cards, card.x as int, card.y as int)
}

/// Whether a new card has room at that place.
fn has_room(cards: &Vec<Card>, x: i32, y: i32) -> (r: bool)
    requires
        0 <= x <= 100000,
        0 <= y <= 100000,
    ensures
        r == is_free(cards@, x as int, y as int),
{
    let mut i: usize = 0;
    while i < cards.len()
        invariant
            0 <= x <= 100000,
            0 <= y <= 100000,
            i <= cards@.len(),
            forall|j: int| 0 <= j < i ==> !overlaps(#[trigger] cards@[j], x as int, y as int, 260, 200),
        decreases cards@.len() - i,
    {
        let c: &Card = &cards[i];
        if (x as i64) < c.x as i64 + c.width as i64 && x + 260 > c.x && (y as i64) < c.y as i64
            + c.height as i64 && y + 200 > c.y {
            assert(overlaps(cards@[i as int], x as int, y as int, 260, 200));
            return false;
        }
        i += 1;
    }
    true
}

/// The number of cards whose title begins like that of an added card.
fn number_added(cards: &Vec<Card>) -> (r: usize)
    ensures
        r == count_added(cards@),
{
    let mut n: usize = 0;
    let mut i: usize = 0;
    while i < cards.len()
        invariant
            n <= i <= cards@.len(),
            n == count_added(cards@.take(i as int)),
        decreases cards@.len() - i,
    {
        assert(cards@.take(i + 1).drop_last() =~= cards@.take(i as int));
        if begins_with(cards[i].title.as_str(), "新分区") {
            n += 1;
        }
        i += 1;
    }
    assert(cards@.take(cards@.len() as int) =~= cards@);
    n
}

/// The place of a new card.
fn new_place(cards: &Vec<Card>) -> (r: (i32, i32))
    ensures
        is_new_place(cards@, r.0 as int, r.1 as int),
{
    let mut k: i32 = 0;
    while k < 144
        invariant
            0 <= k <= 144,
            forall|j: int| 0 <= j < k ==> !#[trigger] is_free(cards@, trial_x(j), trial_y(j)),
        decreases 144 - k,
    {
        let x: i32 = 16 + (k % 12) * 276;
        let y: i32 = 16 + (k / 12) * 216;
        assert(x == trial_x(k as int) && y == trial_y(k as int));
        if has_room(cards, x, y) {
            assert(is_free(cards@, trial_x(k as int), trial_y(k as int)));
            return (x, y);
        }
        k += 1;
    }
    let n: u128 = cards.len() as u128 * 28;
    (16 + (n % 500) as i32, 16 + (n % 400) as i32)
}

/// Adds an empty card at a free place; the other cards stay as they are.
pub fn add_card(cards: &mut Vec<Card>)
    ensures
        final(cards)@.len() == old(cards)@.len() + 1,
        final(cards)@.drop_last() == old(cards)@,
        is_added(final(cards)@.last(), old(cards)@),
{
    let n: u128 = number_added(cards) as u128 + 1;
    let number: String = decimal(n);
    let mut title: String = "新分区".to_owned();
    title.append(number.as_str());
    let (x, y) = new_place(cards);
    let mut card: Card = Card::new(IconKind::Other, title.as_str());
    card.x = x;
    card.y = y;
    card.width = 260;
    card.height = 200;
    cards.push(card);
    assert(cards@.drop_last() =~= old(cards)@);
}

} // verus!
