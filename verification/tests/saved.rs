use desktop_organizer::layout::{Card, CardStyle};
use desktop_organizer::saved::{load_layout, save_layout, SavedCard};
use desktop_organizer::scanner::IconKind;

fn card(kind: IconKind, x: i32, y: i32) -> Card {
    let mut c = Card::new(kind, "t");
    c.x = x;
    c.y = y;
    c.width = 260;
    c.height = 200;
    c
}

fn fresh() -> Vec<Card> {
    vec![card(IconKind::App, 16, 16), card(IconKind::Folder, 292, 16), card(IconKind::Document, 568, 16)]
}

fn record(kind: &str, x: i32, y: i32, width: i32, height: i32) -> SavedCard {
    SavedCard { kind: kind.to_string(), title: None, x, y, width, height, style: None, scroll: None }
}

#[test]
fn a_stored_layout_comes_back() {
    let mut cards = fresh();
    cards[0].x = 700;
    cards[0].y = 500;
    cards[1].style = CardStyle::Grid;
    cards[1].scroll = 4;
    cards[2].width = 300;
    let saved = save_layout(&cards);
    assert_eq!(saved[1].kind, "[文件夹]");
    let mut again = fresh();
    load_layout(&mut again, &saved);
    for i in 0..3 {
        assert_eq!((again[i].x, again[i].y), (cards[i].x, cards[i].y));
        assert_eq!((again[i].width, again[i].height), (cards[i].width, cards[i].height));
        assert_eq!((again[i].style, again[i].scroll), (cards[i].style, cards[i].scroll));
    }
}

#[test]
fn places_that_overlap_are_dropped() {
    let mut cards = fresh();
    load_layout(
        &mut cards,
        &[record("[应用]", 100, 100, 260, 200), record("[文件夹]", 300, 250, 260, 200)],
    );
    assert_eq!((cards[0].x, cards[0].y), (100, 100));
    assert_eq!((cards[1].x, cards[1].y), (292, 16));
    let mut cards = fresh();
    load_layout(
        &mut cards,
        &[record("[应用]", 100, 100, 260, 200), record("[文件夹]", 360, 100, 260, 200)],
    );
    assert_eq!((cards[1].x, cards[1].y), (360, 100));
}

#[test]
fn sizes_that_are_missing_are_kept() {
    let mut cards = fresh();
    load_layout(&mut cards, &[record("[应用]", 1, 2, 0, -5)]);
    assert_eq!((cards[0].x, cards[0].y, cards[0].width, cards[0].height), (1, 2, 260, 200));
}

#[test]
fn added_cards_do_not_move_the_card_of_their_kind() {
    let mut cards = vec![card(IconKind::Other, 16, 232), card(IconKind::Other, 844, 16)];
    cards[0].title = "其他".to_string();
    cards[1].title = "新分区1".to_string();
    let saved = save_layout(&cards);
    assert_eq!(saved[1].title.as_deref(), Some("新分区1"));
    let mut again = vec![card(IconKind::Other, 1, 1)];
    again[0].title = "其他".to_string();
    load_layout(&mut again, &saved);
    assert_eq!((again[0].x, again[0].y), (16, 232));
    // A record without a title goes by the kind.
    load_layout(&mut again, &[record("[其他]", 7, 8, 0, 0)]);
    assert_eq!((again[0].x, again[0].y), (7, 8));
}

#[test]
fn places_come_back_by_kind() {
    let mut cards = vec![card(IconKind::Other, 500, 300), card(IconKind::App, 16, 16)];
    cards[0].title = "新分区1".to_string();
    cards[0].width = 300;
    let saved = save_layout(&cards);
    let mut again = vec![card(IconKind::App, 1, 1), card(IconKind::Other, 16, 16)];
    again[1].title = "其他".to_string();
    load_layout(&mut again, &saved);
    assert_eq!((again[1].x, again[1].y, again[1].width), (500, 300, 300));
    assert_eq!((again[0].x, again[0].y), (16, 16));
    assert_eq!(again[1].title, "其他");
}

#[test]
fn restored_cards_are_apart() {
    let mut cards = fresh();
    load_layout(
        &mut cards,
        &[
            record("[应用]", 900, 100, 200, 200),
            record("[文件夹]", 1000, 200, 200, 200),
            record("[应用]", 900, 600, 200, 200),
            record("[文档]", 950, 650, 200, 200),
            record("[文件夹]", 1300, 200, 200, 200),
        ],
    );
    let places: Vec<(i32, i32)> = cards.iter().map(|c| (c.x, c.y)).collect();
    assert_eq!(places, vec![(900, 600), (1300, 200), (568, 16)]);
}

#[test]
fn unknown_kinds_are_passed_over() {
    let mut cards = fresh();
    load_layout(&mut cards, &[record("[?]", 1, 2, 3, 4)]);
    assert_eq!((cards[0].x, cards[1].x, cards[2].x), (16, 292, 568));
    load_layout(&mut cards, &[]);
    assert_eq!((cards[0].x, cards[1].x, cards[2].x), (16, 292, 568));
}
