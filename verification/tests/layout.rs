use desktop_organizer::layout::{
    add_card, classify, hit_test, hit_test_close, hit_test_item, hit_test_resize, hit_test_style,
    hit_test_title, layout_cards, remove_card, Card, CardStyle, ResizeKind,
};
use desktop_organizer::scanner::{DesktopItem, IconKind};

fn item(name: &str, kind: IconKind) -> DesktopItem {
    DesktopItem {
        name: name.to_string(),
        display_name: name.to_string(),
        kind,
        path: name.to_string(),
        icon: None,
    }
}

fn card(x: i32, y: i32, width: i32, height: i32, n: usize) -> Card {
    let mut c = Card::new(IconKind::App, "t");
    c.x = x;
    c.y = y;
    c.width = width;
    c.height = height;
    c.item_indices = (0..n).collect();
    c
}

#[test]
fn new_cards_are_empty() {
    let c = Card::new(IconKind::Image, "图片");
    assert_eq!(c.title, "图片");
    assert_eq!((c.x, c.y, c.width, c.height, c.scroll), (0, 0, 0, 0, 0));
    assert!(c.item_indices.is_empty());
    assert_eq!(c.style, CardStyle::List);
    assert_eq!(c.kind, IconKind::Image);
}

#[test]
fn items_are_sorted_onto_cards() {
    let items = vec![
        item("a", IconKind::Document),
        item("b", IconKind::App),
        item("c", IconKind::Document),
        item("d", IconKind::Other),
    ];
    let cards = classify(&items);
    let titles: Vec<&str> = cards.iter().map(|c| c.title.as_str()).collect();
    assert_eq!(titles, vec!["应用", "文件夹", "文档", "图片", "其他"]);
    assert_eq!(cards[0].item_indices, vec![1]);
    assert!(cards[1].item_indices.is_empty());
    assert_eq!(cards[2].item_indices, vec![0, 2]);
    assert!(cards[3].item_indices.is_empty());
    assert_eq!(cards[4].item_indices, vec![3]);
}

#[test]
fn cards_are_laid_out_in_rows() {
    let mut cards: Vec<Card> = (0..5).map(|_| card(7, 7, 7, 7, 0)).collect();
    layout_cards(&mut cards, 1920, 1080, 3);
    let places: Vec<(i32, i32)> = cards.iter().map(|c| (c.x, c.y)).collect();
    assert_eq!(places, vec![(16, 16), (292, 16), (568, 16), (16, 232), (292, 232)]);
    assert!(cards.iter().all(|c| c.width == 260 && c.height == 200));
    layout_cards(&mut cards, 1920, 1080, 0);
    assert_eq!((cards[3].x, cards[3].y), (16, 232));
}

#[test]
fn fewer_columns_make_larger_cards() {
    let mut cards: Vec<Card> = (0..5).map(|_| card(0, 0, 0, 0, 0)).collect();
    layout_cards(&mut cards, 1920, 1080, 2);
    assert_eq!((cards[4].x, cards[4].y, cards[4].width, cards[4].height), (16, 568, 340, 260));
    layout_cards(&mut cards, 1920, 1080, 4);
    assert_eq!((cards[4].x, cards[4].y, cards[4].width, cards[4].height), (16, 192, 200, 160));
    layout_cards(&mut [], 1920, 1080, 4);
}

#[test]
fn the_topmost_card_is_hit() {
    let cards = vec![card(0, 0, 100, 100, 0), card(50, 50, 100, 100, 0)];
    assert_eq!(hit_test(&cards, 60, 60), Some(1));
    assert_eq!(hit_test(&cards, 10, 10), Some(0));
    assert_eq!(hit_test(&cards, 99, 0), Some(0));
    assert_eq!(hit_test(&cards, 100, 0), None);
    assert_eq!(hit_test(&cards, 150, 150), None);
    assert_eq!(hit_test(&[], 0, 0), None);
}

#[test]
fn buttons_are_hit() {
    let cards = vec![card(100, 100, 260, 200, 0)];
    // The close button spans 332..356 and 100..124.
    assert_eq!(hit_test_close(&cards, 332, 100), Some(0));
    assert_eq!(hit_test_close(&cards, 355, 123), Some(0));
    assert_eq!(hit_test_close(&cards, 331, 100), None);
    assert_eq!(hit_test_close(&cards, 356, 100), None);
    assert_eq!(hit_test_close(&cards, 340, 124), None);
    // The style button spans 296..320.
    assert_eq!(hit_test_style(&cards, 296, 100), Some(0));
    assert_eq!(hit_test_style(&cards, 319, 123), Some(0));
    assert_eq!(hit_test_style(&cards, 320, 100), None);
}

#[test]
fn titles_are_hit_left_of_the_buttons() {
    let cards = vec![card(100, 100, 260, 200, 0)];
    assert_eq!(hit_test_title(&cards, 100, 100), Some(0));
    assert_eq!(hit_test_title(&cards, 331, 135), Some(0));
    assert_eq!(hit_test_title(&cards, 332, 110), None);
    assert_eq!(hit_test_title(&cards, 110, 136), None);
}

#[test]
fn edges_are_hit() {
    let cards = vec![card(0, 0, 260, 200, 0)];
    assert_eq!(hit_test_resize(&cards, 259, 199), Some((0, ResizeKind::Corner)));
    assert_eq!(hit_test_resize(&cards, 240, 180), Some((0, ResizeKind::Corner)));
    assert_eq!(hit_test_resize(&cards, 255, 20), Some((0, ResizeKind::Right)));
    assert_eq!(hit_test_resize(&cards, 20, 195), Some((0, ResizeKind::Bottom)));
    assert_eq!(hit_test_resize(&cards, 239, 100), None);
    assert_eq!(hit_test_resize(&cards, 260, 100), None);
}

#[test]
fn list_items_are_hit() {
    let cards = vec![card(0, 0, 260, 200, 3)];
    assert_eq!(hit_test_item(&cards, 20, 42, false), Some((0, 0)));
    assert_eq!(hit_test_item(&cards, 20, 63, false), Some((0, 0)));
    assert_eq!(hit_test_item(&cards, 20, 64, false), Some((0, 1)));
    assert_eq!(hit_test_item(&cards, 20, 64, true), Some((0, 0)));
    assert_eq!(hit_test_item(&cards, 20, 108, false), None);
    assert_eq!(hit_test_item(&cards, 7, 50, false), None);
    assert_eq!(hit_test_item(&cards, 232, 50, false), None);
    assert_eq!(hit_test_item(&cards, 20, 41, false), None);
}

#[test]
fn scrolled_lists_are_hit_where_they_are_drawn() {
    let mut cards = vec![card(0, 0, 260, 200, 20)];
    cards[0].scroll = 2;
    assert_eq!(hit_test_item(&cards, 100, 50, false), Some((0, 2)));
    assert_eq!(hit_test_item(&cards, 100, 64, false), Some((0, 3)));
    cards[0].scroll = 19;
    assert_eq!(hit_test_item(&cards, 100, 50, false), Some((0, 19)));
    assert_eq!(hit_test_item(&cards, 100, 64, false), None);
}

#[test]
fn items_are_hit_on_their_card() {
    let mut cards = vec![card(0, 0, 260, 200, 40)];
    for style in [CardStyle::List, CardStyle::Grid] {
        cards[0].style = style;
        for y in 0..400 {
            for x in [-5, 5, 60, 231, 259, 300] {
                if hit_test_item(&cards, x, y, false).is_some() {
                    assert_eq!(hit_test(&cards, x, y), Some(0));
                }
            }
        }
        assert!(hit_test_item(&cards, 100, 199, false).is_some());
        assert_eq!(hit_test_item(&cards, 100, 300, false), None);
    }
}

#[test]
fn the_close_button_is_apart() {
    for width in 0..900 {
        let cards = vec![card(0, 0, width, 400, 40)];
        for y in [0, 10, 30, 50] {
            for x in -80..width {
                if hit_test_close(&cards, x, y).is_some() {
                    assert_eq!(hit_test_title(&cards, x, y), None);
                    assert_eq!(hit_test_item(&cards, x, y, false), None);
                }
            }
        }
    }
}

#[test]
fn grid_items_are_hit() {
    let mut c = card(0, 0, 260, 200, 12);
    c.style = CardStyle::Grid;
    let mut cards = vec![c];
    assert_eq!(hit_test_item(&cards, 8, 42, false), Some((0, 0)));
    assert_eq!(hit_test_item(&cards, 8 + 48, 42, false), Some((0, 1)));
    assert_eq!(hit_test_item(&cards, 8, 42 + 64, false), Some((0, 5)));
    assert_eq!(hit_test_item(&cards, 8 + 96, 42 + 128, false), None);
    cards[0].scroll = 1;
    assert_eq!(hit_test_item(&cards, 8, 42, false), Some((0, 5)));
    assert_eq!(hit_test_item(&cards, 8 + 48, 42 + 64, false), Some((0, 11)));
    cards[0].scroll = -1;
    assert_eq!(hit_test_item(&cards, 8, 42, false), None);
}

#[test]
fn cards_are_removed() {
    let mut cards = vec![card(1, 0, 0, 0, 0), card(2, 0, 0, 0, 0), card(3, 0, 0, 0, 0)];
    remove_card(&mut cards, 1);
    assert_eq!(cards.iter().map(|c| c.x).collect::<Vec<i32>>(), vec![1, 3]);
    remove_card(&mut cards, 2);
    assert_eq!(cards.len(), 2);
}

#[test]
fn cards_are_added_at_the_first_free_place() {
    let mut cards: Vec<Card> = (0..5).map(|_| card(0, 0, 0, 0, 0)).collect();
    layout_cards(&mut cards, 1920, 1080, 3);
    add_card(&mut cards);
    assert_eq!(cards.len(), 6);
    assert_eq!(cards[5].title, "新分区1");
    assert_eq!((cards[5].x, cards[5].y, cards[5].width, cards[5].height), (844, 16, 260, 200));
    assert_eq!(cards[5].kind, IconKind::Other);
    add_card(&mut cards);
    assert_eq!(cards[6].title, "新分区2");
    assert_eq!((cards[6].x, cards[6].y), (1120, 16));
    assert_eq!((cards[0].x, cards[0].y), (16, 16));
}

#[test]
fn without_a_free_place_new_cards_move_on() {
    let mut cards = vec![card(0, 0, 100000, 100000, 0)];
    add_card(&mut cards);
    assert_eq!((cards[1].x, cards[1].y), (16 + 28, 16 + 28));
    for _ in 0..18 {
        add_card(&mut cards);
    }
    assert_eq!((cards[18].x, cards[18].y), (16 + 504 % 500, 16 + 504 % 400));
}
