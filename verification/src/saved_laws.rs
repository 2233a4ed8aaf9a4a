//! What comes back from a stored layout, told by the points of the cards and by the fields of the records.
use vstd::prelude::*;
use crate::layout::{on_face, Card};
use crate::saved::{
    areas_meet, asked_area, bears, bears_one, card_area, has_bearer, is_clear, is_owner,
    law_places_come_back_by_kind, law_restored_cards_are_apart, lemma_owner_is_unique, restore_all,
    restore_some, stands_in, stores, Area, SavedCard,
};
use crate::scanner::label_text;

verus! {

/// Two cards have no point in common.
pub open spec fn share_no_point(a: Card, b: Card) -> bool {
    forall|x: int, y: int| !(#[trigger] on_face(a, x, y) && on_face(b, x, y))
}

/// Two cards are on the same place, with the same size.
pub open spec fn same_place(a: Card, b: Card) -> bool {
    a.x == b.x && a.y == b.y && a.width == b.width && a.height == b.height
}

/// A point lies in a rectangle.
pub open spec fn in_area(a: Area, x: int, y: int) -> bool {
    a.x <= x < a.x + a.w && a.y <= y < a.y + a.h
}

/// A point lies in the rectangle that a record holds.
pub open spec fn in_record(s: SavedCard, x: int, y: int) -> bool {
    s.x <= x < s.x + s.width && s.y <= y < s.y + s.height
}

/// Two rectangles meet if and only if they have a point in common, as long as both have a size.
pub proof fn law_areas_meet_in_a_point(a: Area, b: Area)
    requires
        0 < a.w,
        0 < a.h,
        0 < b.w,
        0 < b.h,
    ensures
        areas_meet(a, b) <==> exists|x: int, y: int| #[trigger] in_area(a, x, y) && in_area(b, x, y),
{
    if areas_meet(a, b) {
        let x = if a.x > b.x {
            a.x
        } else {
            b.x
        };
        let y = if a.y > b.y {
            a.y
        } else {
            b.y
        };
        assert(in_area(a, x, y) && in_area(b, x, y));
    }
}

/// A card that is not where it was has got one of the rectangles.
proof fn lemma_moved_cards_own(cards: Seq<Card>, saved: Seq<SavedCard>, n: int, i: int)
    requires
        0 <= n <= saved.len(),
        0 <= i < cards.len(),
        restore_some(cards, saved, n).cards.len() == cards.len(),
        !same_place(restore_some(cards, saved, n).cards[i], cards[i]),
    ensures
        restore_some(cards, saved, n).owners.contains(i),
    decreases n,
{
    if n > 0 {
        let st = restore_some(cards, saved, n - 1);
        let r = restore_some(cards, saved, n);
        let s = saved[n - 1];
        assert(st.cards.len() == cards.len());
        if !same_place(st.cards[i], cards[i]) {
            lemma_moved_cards_own(cards, saved, n - 1, i);
            let k = choose|k: int| 0 <= k < st.owners.len() && st.owners[k] == i;
            assert(r.owners[k] == i);
        } else {
            let o = choose|o: int| is_owner(o, st.cards, saved, s);
            assert(o == i);
            assert(r.owners[st.owners.len() as int] == i);
        }
    }
}

/// Whatever is stored, two cards that a restart has put elsewhere have no point in common.
pub proof fn law_restored_cards_share_no_point(cards: Seq<Card>, saved: Seq<SavedCard>, i: int, j: int)
    requires
        0 <= i < cards.len(),
        0 <= j < cards.len(),
        i != j,
        !same_place(restore_all(cards, saved).cards[i], cards[i]),
        !same_place(restore_all(cards, saved).cards[j], cards[j]),
    ensures
        share_no_point(restore_all(cards, saved).cards[i], restore_all(cards, saved).cards[j]),
{
    crate::saved::law_restoring_keeps_contents(cards, saved);
    let n = saved.len() as int;
    lemma_moved_cards_own(cards, saved, n, i);
    lemma_moved_cards_own(cards, saved, n, j);
    law_restored_cards_are_apart(cards, saved, i, j);
    let a = restore_all(cards, saved).cards[i];
    let b = restore_all(cards, saved).cards[j];
    assert forall|x: int, y: int| !(#[trigger] on_face(a, x, y) && on_face(b, x, y)) by {
        if on_face(a, x, y) && on_face(b, x, y) {
            assert(areas_meet(card_area(a), card_area(b)));
        }
    }
}

/// Whatever is stored, two cards to which a rectangle was restored have no point in common, wherever they
/// were before.
pub proof fn law_owners_of_places_share_no_point(cards: Seq<Card>, saved: Seq<SavedCard>, i: int, j: int)
    requires
        i != j,
        restore_all(cards, saved).owners.contains(i),
        restore_all(cards, saved).owners.contains(j),
    ensures
        share_no_point(restore_all(cards, saved).cards[i], restore_all(cards, saved).cards[j]),
{
    law_restored_cards_are_apart(cards, saved, i, j);
    let a = restore_all(cards, saved).cards[i];
    let b = restore_all(cards, saved).cards[j];
    assert forall|x: int, y: int| !(#[trigger] on_face(a, x, y) && on_face(b, x, y)) by {
        if on_face(a, x, y) && on_face(b, x, y) {
            assert(areas_meet(card_area(a), card_area(b)));
        }
    }
}

/// Of two records that go to different cards, the second is dropped if and only if its rectangle has a point
/// in common with that of the first: then its card keeps its place and its size, else it gets them. It gets
/// the style and the scroll offset either way.
pub proof fn law_overlapping_places_are_dropped(
    cards: Seq<Card>,
    a: SavedCard,
    b: SavedCard,
    i: int,
    j: int,
)
    requires
        is_owner(i, cards, seq![a, b], a),
        is_owner(j, cards, seq![a, b], b),
        i != j,
        a.width > 0,
        a.height > 0,
        b.width > 0,
        b.height > 0,
    ensures
        ({
            let r = restore_all(cards, seq![a, b]).cards;
            let meet = exists|x: int, y: int| #[trigger] in_record(a, x, y) && in_record(b, x, y);
            &&& r[i].x == a.x && r[i].y == a.y && r[i].width == a.width && r[i].height == a.height
            &&& meet ==> same_place(r[j], cards[j])
            &&& !meet ==> r[j].x == b.x && r[j].y == b.y && r[j].width == b.width && r[j].height == b.height
            &&& b.style is Some ==> r[j].style == b.style->0
            &&& b.scroll is Some ==> r[j].scroll == b.scroll->0
        }),
{
    let saved = seq![a, b];
    assert(saved[0] == a && saved[1] == b);
    let st0 = restore_some(cards, saved, 0);
    let st1 = restore_some(cards, saved, 1);
    let st2 = restore_some(cards, saved, 2);
    assert(st0.cards == cards && st0.areas.len() == 0);
    let o = choose|o: int| is_owner(o, cards, saved, a);
    lemma_owner_is_unique(o, i, cards, saved, a);
    let aa = asked_area(cards[i], a);
    assert(is_clear(aa, st0.areas));
    assert(st1.areas =~= seq![aa]);
    assert(forall|k: int|
        0 <= k < cards.len() ==> (#[trigger] st1.cards[k]).kind == cards[k].kind && st1.cards[k].title
            == cards[k].title);
    assert forall|k: int| is_owner(k, st1.cards, saved, b) == is_owner(k, cards, saved, b) by {
        crate::saved::lemma_owners_go_by_name(k, st1.cards, cards, saved, b);
    }
    assert(is_owner(j, st1.cards, saved, b));
    let q = choose|q: int| is_owner(q, st1.cards, saved, b);
    lemma_owner_is_unique(q, j, st1.cards, saved, b);
    let ab = asked_area(st1.cards[j], b);
    assert(st1.cards[j] == cards[j]);
    law_areas_meet_in_a_point(ab, aa);
    assert(is_clear(ab, st1.areas) <==> !areas_meet(ab, aa)) by {
        assert(st1.areas[0] == aa);
    }
    if exists|x: int, y: int| #[trigger] in_area(ab, x, y) && in_area(aa, x, y) {
        let (x, y) = choose|x: int, y: int| #[trigger] in_area(ab, x, y) && in_area(aa, x, y);
        assert(in_record(a, x, y) && in_record(b, x, y));
    }
    if exists|x: int, y: int| #[trigger] in_record(a, x, y) && in_record(b, x, y) {
        let (x, y) = choose|x: int, y: int| #[trigger] in_record(a, x, y) && in_record(b, x, y);
        assert(in_area(ab, x, y) && in_area(aa, x, y));
    }
    assert(restore_all(cards, saved) == st2);
}

/// A lone record puts the card that it goes to where it says, and makes it as large as it says where it says
/// so, and gives it its style and its scroll offset where it has them; nothing else of that card changes, and
/// no other card.
pub proof fn law_a_record_is_restored_to_its_card(cards: Seq<Card>, s: SavedCard, j: int, i: int)
    requires
        is_owner(j, cards, seq![s], s),
        0 <= i < cards.len(),
    ensures
        ({
            let r = restore_all(cards, seq![s]).cards;
            &&& r.len() == cards.len()
            &&& i != j ==> r[i] == cards[i]
            &&& r[j].x == s.x && r[j].y == s.y
            &&& r[j].width == if s.width > 0 {
                s.width
            } else {
                cards[j].width
            }
            &&& r[j].height == if s.height > 0 {
                s.height
            } else {
                cards[j].height
            }
            &&& r[j].style == if s.style is Some {
                s.style->0
            } else {
                cards[j].style
            }
            &&& r[j].scroll == if s.scroll is Some {
                s.scroll->0
            } else {
                cards[j].scroll
            }
            &&& r[j].kind == cards[j].kind && r[j].title == cards[j].title && r[j].item_indices
                == cards[j].item_indices
        }),
{
    let saved = seq![s];
    assert(saved[0] == s);
    let st0 = restore_some(cards, saved, 0);
    assert(st0.cards == cards);
    let o = choose|o: int| is_owner(o, cards, saved, s);
    lemma_owner_is_unique(o, j, cards, saved, s);
    assert(is_clear(asked_area(cards[j], s), st0.areas));
    assert(restore_all(cards, saved) == restore_some(cards, saved, 1));
}

/// A lone record goes to a card of its kind: to one with its title where there is one, and to the first such.
pub proof fn law_a_record_goes_to_a_card_of_its_kind(cards: Seq<Card>, s: SavedCard, j: int, i: int)
    requires
        is_owner(j, cards, seq![s], s),
        0 <= i < cards.len(),
    ensures
        0 <= j < cards.len(),
        label_text(cards[j].kind) == s.kind@,
        s.title is Some && label_text(cards[i].kind) == s.kind@ && cards[i].title@ == s.title->0@ ==> j <= i
            && cards[j].title@ == s.title->0@,
        label_text(cards[i].kind) == s.kind@ && !(s.title is Some && cards[j].title@ == s.title->0@) ==> j <= i,
{
    let saved = seq![s];
    let c = cards[i];
    let d = cards[j];
    assert(saved[0] == s);
    if s.title is Some && label_text(c.kind) == s.kind@ && c.title@ == s.title->0@ {
        assert(crate::saved::bears(cards[i], s));
    }
    if i < j && label_text(c.kind) == s.kind@ && !crate::saved::has_bearer(cards, s) {
        assert(!crate::saved::stands_in(cards[i], saved, s));
        let k = choose|k: int| 0 <= k < saved.len() && crate::saved::bears(c, #[trigger] saved[k]);
        assert(saved[k] == s);
    }
}

/// Where there is one card of each kind, with a size, and no two have a point in common, everything comes
/// back after a restart with one card of each kind: the place, the size, the style and the scroll offset of
/// each card, on the card of its kind.
pub proof fn law_a_restart_brings_everything_back(
    cards: Seq<Card>,
    saved: Seq<SavedCard>,
    fresh: Seq<Card>,
    i: int,
    j: int,
)
    requires
        saved.len() == cards.len(),
        forall|k: int| 0 <= k < cards.len() ==> stores(#[trigger] saved[k], cards[k]),
        forall|k: int, l: int|
            0 <= k < cards.len() && 0 <= l < cards.len() && k != l ==> (#[trigger] cards[k]).kind != (
            #[trigger] cards[l]).kind,
        forall|k: int, l: int|
            0 <= k < fresh.len() && 0 <= l < fresh.len() && k != l ==> (#[trigger] fresh[k]).kind != (
            #[trigger] fresh[l]).kind,
        forall|k: int| 0 <= k < cards.len() ==> (#[trigger] cards[k]).width > 0 && cards[k].height > 0,
        forall|k: int, l: int|
            0 <= k < cards.len() && 0 <= l < cards.len() && k != l ==> share_no_point(
                #[trigger] cards[k],
                #[trigger] cards[l],
            ),
        0 <= i < cards.len(),
        0 <= j < fresh.len(),
        cards[i].kind == fresh[j].kind,
    ensures
        ({
            let r = restore_all(fresh, saved).cards[j];
            &&& same_place(r, cards[i])
            &&& r.style == cards[i].style && r.scroll == cards[i].scroll
            &&& r.kind == fresh[j].kind && r.title == fresh[j].title && r.item_indices == fresh[j].item_indices
        }),
{
    assert forall|k: int, l: int| 0 <= k < cards.len() && 0 <= l < cards.len() && k != l implies !areas_meet(
        card_area(#[trigger] cards[k]),
        card_area(#[trigger] cards[l]),
    ) by {
        let a = card_area(cards[k]);
        let b = card_area(cards[l]);
        law_areas_meet_in_a_point(a, b);
        if areas_meet(a, b) {
            let (x, y) = choose|x: int, y: int| #[trigger] in_area(a, x, y) && in_area(b, x, y);
            assert(on_face(cards[k], x, y) && on_face(cards[l], x, y));
            assert(share_no_point(cards[k], cards[l]));
        }
    }
    law_places_come_back_by_kind(cards, saved, fresh, i, j);
}

/// A record holds what its card has: the label of the kind, the title, the place, the size, the style and the
/// scroll offset.
pub proof fn law_records_hold_their_card(s: SavedCard, card: Card)
    requires
        stores(s, card),
    ensures
        s.kind@ == label_text(card.kind),
        s.title is Some && s.title->0@ == card.title@,
        s.x == card.x && s.y == card.y && s.width == card.width && s.height == card.height,
        s.style == Some(card.style) && s.scroll == Some(card.scroll),
{
}

/// A card whose kind and title a record of the file names is never taken by a record with another name.
pub proof fn law_named_cards_wait_for_their_record(cards: Seq<Card>, saved: Seq<SavedCard>, s: SavedCard, i: int, k: int)
    requires
        is_owner(i, cards, saved, s),
        0 <= k < saved.len(),
        label_text(cards[i].kind) == saved[k].kind@,
        saved[k].title is Some,
        cards[i].title@ == saved[k].title->0@,
    ensures
        s.kind@ == saved[k].kind@,
        s.title is Some,
        s.title->0@ == saved[k].title->0@,
{
    assert(crate::saved::bears(cards[i], saved[k]));
}

/// A record finds a card wherever one bears its kind and its title, and also wherever there is a card of its kind
/// that no record names.
pub proof fn law_records_find_a_card(cards: Seq<Card>, saved: Seq<SavedCard>, s: SavedCard, i: int)
    requires
        0 <= i < cards.len(),
        label_text(cards[i].kind) == s.kind@,
        (s.title is Some && cards[i].title@ == s.title->0@) || forall|k: int|
            0 <= k < saved.len() ==> !(label_text(cards[i].kind) == (#[trigger] saved[k]).kind@ && saved[k].title is Some
                && cards[i].title@ == saved[k].title->0@),
    ensures
        exists|j: int| is_owner(j, cards, saved, s),
{
    if has_bearer(cards, s) {
        let k = choose|k: int| 0 <= k < cards.len() && bears(#[trigger] cards[k], s);
        lemma_first_bearer(cards, saved, s, k);
    } else {
        assert(!bears(cards[i], s));
        assert(stands_in(cards[i], saved, s)) by {
            if bears_one(cards[i], saved) {
                let k = choose|k: int| 0 <= k < saved.len() && bears(cards[i], #[trigger] saved[k]);
                assert(label_text(cards[i].kind) == saved[k].kind@);
            }
        }
        lemma_first_stand_in(cards, saved, s, i);
    }
}

/// Where a card bears a name, there is a first that does.
proof fn lemma_first_bearer(cards: Seq<Card>, saved: Seq<SavedCard>, s: SavedCard, i: int)
    requires
        0 <= i < cards.len(),
        bears(cards[i], s),
    ensures
        exists|j: int| is_owner(j, cards, saved, s),
    decreases i,
{
    assert(has_bearer(cards, s));
    if forall|j: int| 0 <= j < i ==> !bears(#[trigger] cards[j], s) {
        assert(is_owner(i, cards, saved, s));
    } else {
        let j = choose|j: int| 0 <= j < i && bears(#[trigger] cards[j], s);
        lemma_first_bearer(cards, saved, s, j);
    }
}

/// Where a card can stand in, there is a first that can.
proof fn lemma_first_stand_in(cards: Seq<Card>, saved: Seq<SavedCard>, s: SavedCard, i: int)
    requires
        0 <= i < cards.len(),
        stands_in(cards[i], saved, s),
        !has_bearer(cards, s),
    ensures
        exists|j: int| is_owner(j, cards, saved, s),
    decreases i,
{
    if forall|j: int| 0 <= j < i ==> !stands_in(#[trigger] cards[j], saved, s) {
        assert(is_owner(i, cards, saved, s));
    } else {
        let j = choose|j: int| 0 <= j < i && stands_in(#[trigger] cards[j], saved, s);
        lemma_first_stand_in(cards, saved, s, j);
    }
}

} // verus!
