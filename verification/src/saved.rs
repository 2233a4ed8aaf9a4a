//! The layout as it is stored: places, sizes, scroll offsets and styles of the cards.
use vstd::prelude::*;
use vstd::string::*;
use crate::layout::{Card, CardStyle};
use crate::saved_laws::{law_restored_cards_share_no_point, same_place, share_no_point};
use crate::scanner::{label_text, law_labels_are_distinct};
use crate::text::same_text;

verus! {

/// A card as it is stored, under the label of its kind and its title. A title can be missing. A size that
/// is not positive, a style or a scroll offset that is missing, leaves the card as it is.
pub struct SavedCard {
    pub kind: String,
    pub title: Option<String>,
    pub x: i32,
    pub y: i32,
    pub width: i32,
    pub height: i32,
    pub style: Option<CardStyle>,
    pub scroll: Option<i32>,
}

/// `s` stores the card.
pub open spec fn stores(s: SavedCard, card: Card) -> bool {
    &&& s.kind@ == label_text(card.kind)
    &&& match s.title {
        Some(title) => title@ == card.title@,
        None => false,
    }
    &&& s.x == card.x
    &&& s.y == card.y
    &&& s.width == card.width
    &&& s.height == card.height
    &&& s.style == Some(card.style)
    &&& s.scroll == Some(card.scroll)
}

/// The cards as they are stored.
pub fn save_layout(cards: &[Card]) -> (r: Vec<SavedCard>)
    ensures
        r@.len() == cards@.len(),
        forall|i: int| 0 <= i < cards@.len() ==> stores(#[trigger] r@[i], cards@[i]),
{
    let mut saved: Vec<SavedCard> = Vec::new();
    let mut i: usize = 0;
    while i < cards.len()
        invariant
            i <= cards@.len(),
            saved@.len() == i,
            forall|j: int| 0 <= j < i ==> stores(#[trigger] saved@[j], cards@[j]),
        decreases cards@.len() - i,
    {
        let c: &Card = &cards[i];
        saved.push(
            SavedCard {
                kind: c.kind.label().to_owned(),
                title: Some(c.title.clone()),
                x: c.x,
                y: c.y,
                width: c.width,
                height: c.height,
                style: Some(c.style),
                scroll: Some(c.scroll),
            },
        );
        i += 1;
    }
    saved
}

/// A rectangle: left, top, width and height.
pub struct Area {
    pub x: int,
    pub y: int,
    pub w: int,
    pub h: int,
}

/// Two rectangles have a point in common.
pub open spec fn areas_meet(a: Area, b: Area) -> bool {
    a.x < b.x + b.w && a.x + a.w > b.x && a.y < b.y + b.h && a.y + a.h > b.y
}

/// The record is of the kind of the card.
pub open spec fn is_of_kind(card: Card, s: SavedCard) -> bool {
    label_text(card.kind) == s.kind@
}

/// The card bears the name of the record: its kind and its title.
pub open spec fn bears(card: Card, s: SavedCard) -> bool {
    is_of_kind(card, s) && match s.title {
        Some(title) => title@ == card.title@,
        None => false,
    }
}

/// The card bears the name of one of the records.
pub open spec fn bears_one(card: Card, saved: Seq<SavedCard>) -> bool {
    exists|k: int| 0 <= k < saved.len() && bears(card, #[trigger] saved[k])
}

/// The card that a record can go to for want of one that bears its name: it is of the kind of the record,
/// and no record of the file goes to it by name.
pub open spec fn stands_in(card: Card, saved: Seq<SavedCard>, s: SavedCard) -> bool {
    is_of_kind(card, s) && !bears_one(card, saved)
}

/// One of the cards bears the name of the record.
pub open spec fn has_bearer(cards: Seq<Card>, s: SavedCard) -> bool {
    exists|i: int| 0 <= i < cards.len() && bears(#[trigger] cards[i], s)
}

/// The card that a record of the file goes to: the first that bears its name, or else the first of its kind
/// to which no record goes by name.
pub open spec fn is_owner(i: int, cards: Seq<Card>, saved: Seq<SavedCard>, s: SavedCard) -> bool {
    &&& 0 <= i < cards.len()
    &&& if has_bearer(cards, s) {
        bears(cards[i], s) && forall|j: int| 0 <= j < i ==> !bears(#[trigger] cards[j], s)
    } else {
        stands_in(cards[i], saved, s) && forall|j: int|
            0 <= j < i ==> !stands_in(#[trigger] cards[j], saved, s)
    }
}

/// The rectangle that the record asks for on that card.
pub open spec fn asked_area(card: Card, s: SavedCard) -> Area {
    Area {
        x: s.x as int,
        y: s.y as int,
        w: if s.width > 0 {
            s.width as int
        } else {
            card.width as int
        },
        h: if s.height > 0 {
            s.height as int
        } else {
            card.height as int
        },
    }
}

/// The card in the style of the record.
pub open spec fn restyled(card: Card, s: SavedCard) -> Card {
    Card {
        style: match s.style {
            Some(style) => style,
            None => card.style,
        },
        scroll: match s.scroll {
            Some(scroll) => scroll,
            None => card.scroll,
        },
        ..card
    }
}

/// The card at the place of the record.
pub open spec fn replaced(card: Card, s: SavedCard) -> Card {
    let a = asked_area(card, s);
    Card { x: s.x, y: s.y, width: a.w as i32, height: a.h as i32, ..card }
}

/// The rectangle meets none of those that were restored before.
pub open spec fn is_clear(a: Area, restored: Seq<Area>) -> bool {
    forall|i: int| 0 <= i < restored.len() ==> !areas_meet(a, #[trigger] restored[i])
}

/// What restoring has reached: the cards, the rectangles that were restored, and the card that each of
/// these went to.
pub struct Restoring {
    pub cards: Seq<Card>,
    pub areas: Seq<Area>,
    pub owners: Seq<int>,
}

/// One record of a file more. A rectangle that meets one restored before is dropped, and the card keeps the
/// place and the size that it has.
pub open spec fn restore_one(st: Restoring, saved: Seq<SavedCard>, s: SavedCard) -> Restoring {
    if exists|i: int| is_owner(i, st.cards, saved, s) {
        let i = choose|i: int| is_owner(i, st.cards, saved, s);
        let card = st.cards[i];
        let a = asked_area(card, s);
        if is_clear(a, st.areas) {
            Restoring {
                cards: st.cards.update(i, restyled(replaced(card, s), s)),
                areas: st.areas.push(a),
                owners: st.owners.push(i),
            }
        } else {
            Restoring { cards: st.cards.update(i, restyled(card, s)), ..st }
        }
    } else {
        st
    }
}

/// The first `n` records of a file, one after the other.
pub open spec fn restore_some(cards: Seq<Card>, saved: Seq<SavedCard>, n: int) -> Restoring
    decreases n,
{
    if n <= 0 {
        Restoring { cards, areas: Seq::empty(), owners: Seq::empty() }
    } else {
        restore_one(restore_some(cards, saved, n - 1), saved, saved[n - 1])
    }
}

/// All records of a file.
pub open spec fn restore_all(cards: Seq<Card>, saved: Seq<SavedCard>) -> Restoring {
    restore_some(cards, saved, saved.len() as int)
}

/// A rectangle that was restored.
struct Restored {
    x: i32,
    y: i32,
    w: i32,
    h: i32,
}

spec fn area_of(r: Restored) -> Area {
    Area { x: r.x as int, y: r.y as int, w: r.w as int, h: r.h as int }
}

spec fn areas_of(s: Seq<Restored>) -> Seq<Area> {
    s.map_values(|r: Restored| area_of(r))
}

/// A record has at most one owner.
pub proof fn lemma_owner_is_unique(i: int, j: int, cards: Seq<Card>, saved: Seq<SavedCard>, s: SavedCard)
    requires
        is_owner(i, cards, saved, s),
        is_owner(j, cards, saved, s),
    ensures
        i == j,
{
    if i < j {
        assert(!bears(cards[i], s) || !stands_in(cards[i], saved, s));
    } else if j < i {
        assert(!bears(cards[j], s) || !stands_in(cards[j], saved, s));
    }
}

/// Whether the card bears the name of the record.
fn bears_name(card: &Card, s: &SavedCard) -> (r: bool)
    ensures
        r == bears(*card, *s),
{
    if !same_text(card.kind.label(), s.kind.as_str()) {
        return false;
    }
    match &s.title {
        Some(title) => same_text(title.as_str(), card.title.as_str()),
        None => false,
    }
}

/// Whether the card is of the kind of the record, and no record of the file goes to it by name.
fn can_stand_in(card: &Card, saved: &[SavedCard], s: &SavedCard) -> (r: bool)
    ensures
        r == stands_in(*card, saved@, *s),
{
    if !same_text(card.kind.label(), s.kind.as_str()) {
        return false;
    }
    let mut k: usize = 0;
    while k < saved.len()
        invariant
            k <= saved@.len(),
            forall|j: int| 0 <= j < k ==> !bears(*card, #[trigger] saved@[j]),
        decreases saved@.len() - k,
    {
        if bears_name(card, &saved[k]) {
            assert(bears(*card, saved@[k as int]));
            return false;
        }
        k += 1;
    }
    true
}

/// The card that a record of the file goes to.
fn find_owner(cards: &[Card], saved: &[SavedCard], s: &SavedCard) -> (r: Option<usize>)
    ensures
        match r {
            Some(i) => is_owner(i as int, cards@, saved@, *s),
            None => forall|i: int| !is_owner(i, cards@, saved@, *s),
        },
{
    let mut i: usize = 0;
    while i < cards.len()
        invariant
            i <= cards@.len(),
            forall|j: int| 0 <= j < i ==> !bears(#[trigger] cards@[j], *s),
        decreases cards@.len() - i,
    {
        if bears_name(&cards[i], s) {
            assert(bears(cards@[i as int], *s));
            return Some(i);
        }
        i += 1;
    }
    let mut i: usize = 0;
    while i < cards.len()
        invariant
            i <= cards@.len(),
            !has_bearer(cards@, *s),
            forall|j: int| 0 <= j < i ==> !stands_in(#[trigger] cards@[j], saved@, *s),
        decreases cards@.len() - i,
    {
        if can_stand_in(&cards[i], saved, s) {
            return Some(i);
        }
        i += 1;
    }
    None
}

/// Whether the rectangle meets none of those that were restored.
fn clear_of(a: &Restored, restored: &Vec<Restored>) -> (r: bool)
    ensures
        r == is_clear(area_of(*a), areas_of(restored@)),
{
    let mut i: usize = 0;
    while i < restored.len()
        invariant
            i <= restored@.len(),
            forall|j: int|
                0 <= j < i ==> !areas_meet(area_of(*a), #[trigger] areas_of(restored@)[j]),
        decreases restored@.len() - i,
    {
        let b: &Restored = &restored[i];
        assert(areas_of(restored@)[i as int] == area_of(*b));
        if (a.x as i64) < b.x as i64 + b.w as i64 && a.x as i64 + a.w as i64 > b.x as i64 && (
        a.y as i64) < b.y as i64 + b.h as i64 && a.y as i64 + a.h as i64 > b.y as i64 {
            return false;
        }
        i += 1;
    }
    true
}

/// Restores the cards from what was stored.
pub fn load_layout(cards: &mut [Card], saved: &[SavedCard])
    ensures
        final(cards)@ == restore_all(old(cards)@, saved@).cards,
        final(cards)@.len() == old(cards)@.len(),
        forall|i: int, j: int|
            0 <= i < old(cards)@.len() && 0 <= j < old(cards)@.len() && i != j && !same_place(
                final(cards)@[i],
                old(cards)@[i],
            ) && !same_place(final(cards)@[j], old(cards)@[j]) ==> #[trigger] share_no_point(
                final(cards)@[i],
                final(cards)@[j],
            ),
{
    let mut restored: Vec<Restored> = Vec::new();
    let mut k: usize = 0;
    assert(areas_of(restored@) =~= Seq::<Area>::empty());
    while k < saved.len()
        invariant
            k <= saved@.len(),
            cards@ == restore_some(old(cards)@, saved@, k as int).cards,
            areas_of(restored@) == restore_some(old(cards)@, saved@, k as int).areas,
        decreases saved@.len() - k,
    {
        let ghost st = restore_some(old(cards)@, saved@, k as int);
        let s: &SavedCard = &saved[k];
        match find_owner(cards, saved, s) {
            Some(i) => {
                proof {
                    let o = choose|o: int| is_owner(o, st.cards, saved@, *s);
                    lemma_owner_is_unique(i as int, o, st.cards, saved@, *s);
                }
                let ghost card = cards@[i as int];
                let w: i32 = if s.width > 0 {
                    s.width
                } else {
                    cards[i].width
                };
                let h: i32 = if s.height > 0 {
                    s.height
                } else {
                    cards[i].height
                };
                let a: Restored = Restored { x: s.x, y: s.y, w, h };
                assert(area_of(a) == asked_area(card, *s));
                let clear: bool = clear_of(&a, &restored);
                if clear {
                    cards[i].x = s.x;
                    cards[i].y = s.y;
                    cards[i].width = w;
                    cards[i].height = h;
                }
                if let Some(style) = s.style {
                    cards[i].style = style;
                }
                if let Some(scroll) = s.scroll {
                    cards[i].scroll = scroll;
                }
                proof {
                    if clear {
                        assert(areas_of(restored@.push(a)) =~= st.areas.push(area_of(a)));
                        assert(cards@ =~= st.cards.update(i as int, restyled(replaced(card, *s), *s)));
                    } else {
                        assert(cards@ =~= st.cards.update(i as int, restyled(card, *s)));
                    }
                }
                if clear {
                    restored.push(a);
                }
            },
            None => {},
        }
        k += 1;
    }
    proof {
        law_restoring_keeps_contents(old(cards)@, saved@);
        assert forall|i: int, j: int|
            0 <= i < old(cards)@.len() && 0 <= j < old(cards)@.len() && i != j && !same_place(
                cards@[i],
                old(cards)@[i],
            ) && !same_place(cards@[j], old(cards)@[j]) implies #[trigger] share_no_point(
            cards@[i],
            cards@[j],
        ) by {
            law_restored_cards_share_no_point(old(cards)@, saved@, i, j);
        }
    }
}

/// The rectangle of a card.
pub open spec fn card_area(card: Card) -> Area {
    Area { x: card.x as int, y: card.y as int, w: card.width as int, h: card.height as int }
}

/// No two of the rectangles meet.
pub open spec fn are_apart(areas: Seq<Area>) -> bool {
    forall|i: int, j: int|
        0 <= i < areas.len() && 0 <= j < areas.len() && i != j ==> !areas_meet(
            #[trigger] areas[i],
            #[trigger] areas[j],
        )
}

/// The rectangles that are restored do not meet, and a card that one of them went to has one of them.
proof fn lemma_restored_areas(cards: Seq<Card>, saved: Seq<SavedCard>, n: int)
    requires
        0 <= n <= saved.len(),
    ensures
        ({
            let st = restore_some(cards, saved, n);
            &&& are_apart(st.areas)
            &&& st.owners.len() == st.areas.len()
            &&& forall|i: int| #[trigger]
                st.owners.contains(i) ==> has_area_of_its_own(st, i)
        }),
    decreases n,
{
    if n > 0 {
        lemma_restored_areas(cards, saved, n - 1);
        let st = restore_some(cards, saved, n - 1);
        let r = restore_some(cards, saved, n);
        let s = saved[n - 1];
        if exists|i: int| is_owner(i, st.cards, saved, s) {
            let o = choose|i: int| is_owner(i, st.cards, saved, s);
            let a = asked_area(st.cards[o], s);
            if is_clear(a, st.areas) {
                let m = st.areas.len() as int;
                assert(r.areas == st.areas.push(a));
                assert forall|j: int, k: int|
                    0 <= j < r.areas.len() && 0 <= k < r.areas.len() && j != k implies !areas_meet(
                    #[trigger] r.areas[j],
                    #[trigger] r.areas[k],
                ) by {
                    if j == m {
                        assert(r.areas[k] == st.areas[k]);
                    } else if k == m {
                        assert(!areas_meet(a, st.areas[j]));
                    } else {
                        assert(r.areas[j] == st.areas[j] && r.areas[k] == st.areas[k]);
                    }
                }
            }
            assert forall|i: int| #[trigger] r.owners.contains(i) implies has_area_of_its_own(r, i) by {
                let k = choose|k: int| 0 <= k < r.owners.len() && r.owners[k] == i;
                if i == o && is_clear(a, st.areas) {
                    let m = st.areas.len() as int;
                    assert(r.owners[m] == o && r.areas[m] == a);
                    assert(card_area(r.cards[o]) == a);
                } else {
                    assert(st.owners[k] == i);
                    assert(st.owners.contains(i));
                    let l = choose|l: int|
                        0 <= l < st.owners.len() && st.owners[l] == i && #[trigger] st.areas[l] == card_area(
                            st.cards[i],
                        );
                    assert(r.owners[l] == i && r.areas[l] == st.areas[l]);
                    assert(card_area(r.cards[i]) == card_area(st.cards[i]));
                }
            }
        }
    }
}

/// A card has one of the rectangles that went to it.
pub open spec fn has_area_of_its_own(st: Restoring, i: int) -> bool {
    0 <= i < st.cards.len() && exists|k: int|
        0 <= k < st.owners.len() && st.owners[k] == i && #[trigger] st.areas[k] == card_area(st.cards[i])
}

/// Whatever is stored, two cards to which a rectangle was restored do not overlap.
pub proof fn law_restored_cards_are_apart(cards: Seq<Card>, saved: Seq<SavedCard>, i: int, j: int)
    requires
        i != j,
        restore_all(cards, saved).owners.contains(i),
        restore_all(cards, saved).owners.contains(j),
    ensures
        0 <= i < restore_all(cards, saved).cards.len(),
        0 <= j < restore_all(cards, saved).cards.len(),
        !areas_meet(
            card_area(restore_all(cards, saved).cards[i]),
            card_area(restore_all(cards, saved).cards[j]),
        ),
{
    let st = restore_all(cards, saved);
    lemma_restored_areas(cards, saved, saved.len() as int);
    assert(has_area_of_its_own(st, i) && has_area_of_its_own(st, j));
    let k = choose|k: int|
        0 <= k < st.owners.len() && st.owners[k] == i && #[trigger] st.areas[k] == card_area(st.cards[i]);
    let l = choose|l: int|
        0 <= l < st.owners.len() && st.owners[l] == j && #[trigger] st.areas[l] == card_area(st.cards[j]);
    assert(!areas_meet(st.areas[k], st.areas[l]));
}

/// The card with the place, the size, the style and the scroll offset of another.
pub open spec fn placed_like(card: Card, model: Card) -> Card {
    Card {
        x: model.x,
        y: model.y,
        width: model.width,
        height: model.height,
        style: model.style,
        scroll: model.scroll,
        ..card
    }
}

/// The first records keep the cards, their order, their kinds, their titles and their items.
proof fn lemma_contents_are_kept(cards: Seq<Card>, saved: Seq<SavedCard>, n: int)
    ensures
        restore_some(cards, saved, n).cards.len() == cards.len(),
        forall|i: int|
            0 <= i < cards.len() ==> (#[trigger] restore_some(cards, saved, n).cards[i]) == placed_like(
                cards[i],
                restore_some(cards, saved, n).cards[i],
            ),
    decreases n,
{
    if n > 0 {
        lemma_contents_are_kept(cards, saved, n - 1);
        let st = restore_some(cards, saved, n - 1);
        let r = restore_some(cards, saved, n).cards;
        assert forall|i: int| 0 <= i < cards.len() implies (#[trigger] r[i]) == placed_like(
            cards[i],
            r[i],
        ) by {
            assert(st.cards[i] == placed_like(cards[i], st.cards[i]));
        }
    }
}

/// Restoring keeps the cards, their order, their kinds, their titles and their items.
pub proof fn law_restoring_keeps_contents(cards: Seq<Card>, saved: Seq<SavedCard>)
    ensures
        restore_all(cards, saved).cards.len() == cards.len(),
        forall|i: int|
            0 <= i < cards.len() ==> (#[trigger] restore_all(cards, saved).cards[i]) == placed_like(
                cards[i],
                restore_all(cards, saved).cards[i],
            ),
{
    lemma_contents_are_kept(cards, saved, saved.len() as int);
}

/// Cards of the same kinds and titles, in the same order, own the same records.
pub proof fn lemma_owners_go_by_name(i: int, a: Seq<Card>, b: Seq<Card>, saved: Seq<SavedCard>, s: SavedCard)
    requires
        a.len() == b.len(),
        forall|k: int| 0 <= k < a.len() ==> (#[trigger] a[k]).kind == b[k].kind && a[k].title == b[k].title,
    ensures
        is_owner(i, a, saved, s) == is_owner(i, b, saved, s),
{
    assert forall|k: int| 0 <= k < a.len() implies bears(#[trigger] a[k], s) == bears(b[k], s) && stands_in(
        a[k],
        saved,
        s,
    ) == stands_in(b[k], saved, s) by {
        assert forall|t: SavedCard| bears(a[k], t) == bears(b[k], t) by {}
        assert(bears_one(a[k], saved) == bears_one(b[k], saved));
    }
    if has_bearer(a, s) {
        let k = choose|k: int| 0 <= k < a.len() && bears(#[trigger] a[k], s);
        assert(bears(b[k], s));
    }
    if has_bearer(b, s) {
        let k = choose|k: int| 0 <= k < b.len() && bears(#[trigger] b[k], s);
        assert(bears(a[k], s));
    }
    assert(has_bearer(a, s) == has_bearer(b, s));
    if 0 <= i < a.len() {
        assert(bears(a[i], s) == bears(b[i], s));
        assert forall|j: int| 0 <= j < i implies bears(#[trigger] b[j], s) == bears(a[j], s) by {}
        assert forall|j: int| 0 <= j < i implies stands_in(#[trigger] b[j], saved, s) == stands_in(
            a[j],
            saved,
            s,
        ) by {}
    }
}

/// The record goes to one of the cards.
pub open spec fn has_owner(cards: Seq<Card>, saved: Seq<SavedCard>, s: SavedCard) -> bool {
    exists|j: int| is_owner(j, cards, saved, s)
}

/// No two records go to the same card.
pub open spec fn own_apart(fresh: Seq<Card>, saved: Seq<SavedCard>, a: int, b: int) -> bool {
    forall|j: int|
        !(#[trigger] is_owner(j, fresh, saved, saved[a]) && is_owner(j, fresh, saved, saved[b]))
}

/// Cards that come back from their records after a restart, which begins with the cards `fresh`: of those
/// whose records go to a card, each has a size, no two go to the same card, and none lies over another.
pub open spec fn is_storable(cards: Seq<Card>, saved: Seq<SavedCard>, fresh: Seq<Card>) -> bool {
    &&& saved.len() == cards.len()
    &&& forall|i: int| 0 <= i < cards.len() ==> stores(#[trigger] saved[i], cards[i])
    &&& forall|i: int|
        0 <= i < cards.len() && has_owner(fresh, saved, saved[i]) ==> (#[trigger] cards[i]).width > 0
            && cards[i].height > 0
    &&& forall|i: int, j: int|
        0 <= i < cards.len() && 0 <= j < cards.len() && i != j && has_owner(fresh, saved, saved[i])
            && has_owner(fresh, saved, saved[j]) ==> own_apart(fresh, saved, i, j) && !areas_meet(
            card_area(#[trigger] cards[i]),
            card_area(#[trigger] cards[j]),
        )
}

/// The rectangle is that of one of the first `n` cards, and of one whose record goes to a card.
spec fn is_area_of_one(a: Area, cards: Seq<Card>, saved: Seq<SavedCard>, fresh: Seq<Card>, n: int) -> bool {
    exists|i: int|
        0 <= i < n && has_owner(fresh, saved, saved[i]) && a == card_area(#[trigger] cards[i])
}

/// What the first `n` records bring back.
proof fn lemma_restore_prefix(cards: Seq<Card>, saved: Seq<SavedCard>, fresh: Seq<Card>, n: int)
    requires
        is_storable(cards, saved, fresh),
        0 <= n <= cards.len(),
    ensures
        ({
            let st = restore_some(fresh, saved, n);
            &&& st.cards.len() == fresh.len()
            &&& forall|j: int, i: int|
                0 <= i < n && #[trigger] is_owner(j, fresh, saved, saved[i]) ==> st.cards[j] == placed_like(
                    fresh[j],
                    cards[i],
                )
            &&& forall|j: int|
                0 <= j < fresh.len() && (forall|i: int|
                    0 <= i < n ==> !#[trigger] is_owner(j, fresh, saved, saved[i])) ==> #[trigger] st.cards[j]
                    == fresh[j]
            &&& forall|k: int|
                0 <= k < st.areas.len() ==> is_area_of_one(#[trigger] st.areas[k], cards, saved, fresh, n)
        }),
    decreases n,
{
    if n > 0 {
        let m = n - 1;
        lemma_restore_prefix(cards, saved, fresh, m);
        let st = restore_some(fresh, saved, m);
        let r = restore_some(fresh, saved, n);
        let s = saved[m];
        assert(stores(s, cards[m]));
        lemma_contents_are_kept(fresh, saved, m);
        assert forall|k: int| 0 <= k < st.cards.len() implies (#[trigger] st.cards[k]).kind == fresh[k].kind
            && st.cards[k].title == fresh[k].title by {
            assert(st.cards[k] == placed_like(fresh[k], st.cards[k]));
        }
        assert forall|j: int| #[trigger] is_owner(j, st.cards, saved, s) == is_owner(j, fresh, saved, s) by {
            lemma_owners_go_by_name(j, st.cards, fresh, saved, s);
        }
        if exists|j: int| is_owner(j, st.cards, saved, s) {
            let o = choose|o: int| is_owner(o, st.cards, saved, s);
            assert(is_owner(o, fresh, saved, s));
            assert(has_owner(fresh, saved, saved[m]));
            // No earlier record went to this card.
            assert forall|i: int| 0 <= i < m implies !#[trigger] is_owner(o, fresh, saved, saved[i]) by {
                if is_owner(o, fresh, saved, saved[i]) {
                    assert(has_owner(fresh, saved, saved[i]));
                    let a = cards[i];
                    let b = cards[m];
                    assert(own_apart(fresh, saved, i, m));
                }
            }
            assert(st.cards[o] == fresh[o]);
            let a = asked_area(st.cards[o], s);
            assert(cards[m].width > 0 && cards[m].height > 0);
            assert(a == card_area(cards[m]));
            assert forall|k: int| 0 <= k < st.areas.len() implies !areas_meet(a, #[trigger] st.areas[k]) by {
                assert(is_area_of_one(st.areas[k], cards, saved, fresh, m));
                let i = choose|i: int|
                    0 <= i < m && has_owner(fresh, saved, saved[i]) && st.areas[k] == card_area(
                        #[trigger] cards[i],
                    );
                assert(!areas_meet(card_area(cards[m]), card_area(cards[i])));
            }
            assert(is_clear(a, st.areas));
            assert(r.cards[o] == placed_like(fresh[o], cards[m]));
            assert forall|j: int, i: int|
                0 <= i < n && #[trigger] is_owner(j, fresh, saved, saved[i]) implies r.cards[j] == placed_like(
                fresh[j],
                cards[i],
            ) by {
                if i == m {
                    lemma_owner_is_unique(j, o, fresh, saved, s);
                } else {
                    assert(j != o);
                    assert(st.cards[j] == placed_like(fresh[j], cards[i]));
                }
            }
            assert forall|j: int|
                0 <= j < fresh.len() && (forall|i: int|
                    0 <= i < n ==> !#[trigger] is_owner(j, fresh, saved, saved[i])) implies #[trigger] r.cards[j]
                == fresh[j] by {
                assert(!is_owner(j, fresh, saved, saved[m]));
                assert(st.cards[j] == fresh[j]);
            }
            assert forall|k: int| 0 <= k < r.areas.len() implies is_area_of_one(
                #[trigger] r.areas[k],
                cards,
                saved,
                fresh,
                n,
            ) by {
                if k < st.areas.len() {
                    assert(is_area_of_one(st.areas[k], cards, saved, fresh, m));
                    let i = choose|i: int|
                        0 <= i < m && has_owner(fresh, saved, saved[i]) && st.areas[k] == card_area(
                            #[trigger] cards[i],
                        );
                    assert(r.areas[k] == card_area(cards[i]));
                } else {
                    assert(r.areas[k] == card_area(cards[m]));
                }
            }
        } else {
            assert(r == st);
            assert forall|j: int, i: int|
                0 <= i < n && #[trigger] is_owner(j, fresh, saved, saved[i]) implies r.cards[j] == placed_like(
                fresh[j],
                cards[i],
            ) by {
                if i == m {
                    assert(is_owner(j, st.cards, saved, s));
                }
            }
            assert forall|j: int|
                0 <= j < fresh.len() && (forall|i: int|
                    0 <= i < n ==> !#[trigger] is_owner(j, fresh, saved, saved[i])) implies #[trigger] r.cards[j]
                == fresh[j] by {
                assert(st.cards[j] == fresh[j]);
            }
            assert forall|k: int| 0 <= k < r.areas.len() implies is_area_of_one(
                #[trigger] r.areas[k],
                cards,
                saved,
                fresh,
                n,
            ) by {
                assert(is_area_of_one(st.areas[k], cards, saved, fresh, m));
                let i = choose|i: int|
                    0 <= i < m && has_owner(fresh, saved, saved[i]) && st.areas[k] == card_area(
                        #[trigger] cards[i],
                    );
                assert(r.areas[k] == card_area(cards[i]));
            }
        }
    }
}

/// What was stored comes back: after a restart each stored card is found again, on the card that its record
/// goes to, at its place, with its size, its style and its scroll offset, and every other card is as it
/// was.
pub proof fn law_stored_layout_comes_back(
    cards: Seq<Card>,
    saved: Seq<SavedCard>,
    fresh: Seq<Card>,
    j: int,
)
    requires
        is_storable(cards, saved, fresh),
        0 <= j < fresh.len(),
    ensures
        forall|i: int|
            0 <= i < cards.len() && #[trigger] is_owner(j, fresh, saved, saved[i]) ==> restore_all(
                fresh,
                saved,
            ).cards[j] == placed_like(fresh[j], cards[i]),
        (forall|i: int| 0 <= i < cards.len() ==> !#[trigger] is_owner(j, fresh, saved, saved[i]))
            ==> restore_all(fresh, saved).cards[j] == fresh[j],
{
    lemma_restore_prefix(cards, saved, fresh, cards.len() as int);
}

/// A stored card is found again by its kind and its title: its record goes to the first card that bears
/// both, whatever else is stored.
pub proof fn law_records_go_by_name(card: Card, s: SavedCard, saved: Seq<SavedCard>, fresh: Seq<Card>, j: int)
    requires
        stores(s, card),
        0 <= j < fresh.len(),
        fresh[j].kind == card.kind,
        fresh[j].title@ == card.title@,
        forall|k: int|
            0 <= k < j ==> !((#[trigger] fresh[k]).kind == card.kind && fresh[k].title@ == card.title@),
    ensures
        is_owner(j, fresh, saved, s),
{
    assert(bears(fresh[j], s));
    assert forall|k: int| 0 <= k < j implies !bears(#[trigger] fresh[k], s) by {
        law_labels_are_distinct(fresh[k].kind, card.kind);
    }
}

/// No two of the cards are of the same kind.
pub open spec fn have_distinct_kinds(cards: Seq<Card>) -> bool {
    forall|i: int, j: int|
        0 <= i < cards.len() && 0 <= j < cards.len() && i != j ==> (#[trigger] cards[i]).kind != (
        #[trigger] cards[j]).kind
}

/// Where there is one card of each kind, a record goes to the card of its kind.
proof fn lemma_kinds_own(cards: Seq<Card>, saved: Seq<SavedCard>, fresh: Seq<Card>, i: int, j: int)
    requires
        have_distinct_kinds(cards),
        have_distinct_kinds(fresh),
        saved.len() == cards.len(),
        forall|k: int| 0 <= k < cards.len() ==> stores(#[trigger] saved[k], cards[k]),
        0 <= i < cards.len(),
        0 <= j < fresh.len(),
    ensures
        is_owner(j, fresh, saved, saved[i]) <==> cards[i].kind == fresh[j].kind,
{
    let s = saved[i];
    assert(stores(s, cards[i]));
    assert forall|k: int| 0 <= k < fresh.len() implies (is_of_kind(#[trigger] fresh[k], s) <==> fresh[k].kind
        == cards[i].kind) by {
        law_labels_are_distinct(fresh[k].kind, cards[i].kind);
    }
    assert(is_of_kind(fresh[j], s) <==> fresh[j].kind == cards[i].kind);
    if fresh[j].kind == cards[i].kind {
        assert forall|k: int| 0 <= k < fresh.len() && k != j implies !is_of_kind(#[trigger] fresh[k], s) by {
            assert(fresh[k].kind != fresh[j].kind);
        }
        if !bears(fresh[j], s) {
            assert(!has_bearer(fresh, s));
            assert forall|k: int| 0 <= k < saved.len() implies !bears(fresh[j], #[trigger] saved[k]) by {
                assert(stores(saved[k], cards[k]));
                law_labels_are_distinct(fresh[j].kind, cards[k].kind);
                if k != i {
                    assert(cards[k].kind != cards[i].kind);
                }
            }
            assert(stands_in(fresh[j], saved, s));
        } else {
            assert(has_bearer(fresh, s));
        }
    }
}

/// Where there is one card of each kind, before and after a restart, the places and sizes come back by
/// kind, whatever the titles are.
pub proof fn law_places_come_back_by_kind(
    cards: Seq<Card>,
    saved: Seq<SavedCard>,
    fresh: Seq<Card>,
    i: int,
    j: int,
)
    requires
        saved.len() == cards.len(),
        forall|k: int| 0 <= k < cards.len() ==> stores(#[trigger] saved[k], cards[k]),
        have_distinct_kinds(cards),
        have_distinct_kinds(fresh),
        forall|k: int| 0 <= k < cards.len() ==> (#[trigger] cards[k]).width > 0 && cards[k].height > 0,
        forall|k: int, l: int|
            0 <= k < cards.len() && 0 <= l < cards.len() && k != l ==> !areas_meet(
                card_area(#[trigger] cards[k]),
                card_area(#[trigger] cards[l]),
            ),
        0 <= i < cards.len(),
        0 <= j < fresh.len(),
        cards[i].kind == fresh[j].kind,
    ensures
        card_area(restore_all(fresh, saved).cards[j]) == card_area(cards[i]),
        restore_all(fresh, saved).cards[j] == placed_like(fresh[j], cards[i]),
{
    assert forall|k: int, l: int| 0 <= k < cards.len() && 0 <= l < cards.len() && k != l implies own_apart(
        fresh,
        saved,
        k,
        l,
    ) && !areas_meet(card_area(#[trigger] cards[k]), card_area(#[trigger] cards[l])) by {
        assert forall|o: int|
            !(#[trigger] is_owner(o, fresh, saved, saved[k]) && is_owner(o, fresh, saved, saved[l])) by {
            if 0 <= o < fresh.len() {
                lemma_kinds_own(cards, saved, fresh, k, o);
                lemma_kinds_own(cards, saved, fresh, l, o);
            }
        }
    }
    assert(is_storable(cards, saved, fresh));
    lemma_kinds_own(cards, saved, fresh, i, j);
    assert(is_owner(j, fresh, saved, saved[i]));
    law_stored_layout_comes_back(cards, saved, fresh, j);
}

} // verus!
