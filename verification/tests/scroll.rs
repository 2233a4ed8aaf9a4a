use desktop_organizer::layout::{Card, CardStyle};
use desktop_organizer::scanner::IconKind;
use desktop_organizer::scroll::{clamp_scroll, items_per_line_of, lines_filled_of, lines_shown_of, max_scroll_of};

fn card(style: CardStyle, n: usize, scroll: i32) -> Card {
    let mut c = Card::new(IconKind::App, "t");
    c.width = 260;
    c.height = 200;
    c.style = style;
    c.item_indices = (0..n).collect();
    c.scroll = scroll;
    c
}

#[test]
fn lists_scroll_by_rows() {
    let c = card(CardStyle::List, 20, 0);
    assert_eq!(lines_shown_of(&c, false), 6);
    assert_eq!(lines_shown_of(&c, true), 5);
    assert_eq!(lines_filled_of(&c), 20);
    assert_eq!(max_scroll_of(&c, false), 14);
    assert_eq!(max_scroll_of(&card(CardStyle::List, 3, 0), false), 0);
}

#[test]
fn grids_scroll_by_lines_of_cells() {
    let c = card(CardStyle::Grid, 21, 0);
    assert_eq!(items_per_line_of(&c), 5);
    assert_eq!(lines_shown_of(&c, false), 2);
    assert_eq!(lines_filled_of(&c), 5);
    assert_eq!(max_scroll_of(&c, false), 3);
    assert_eq!(lines_filled_of(&card(CardStyle::Grid, 0, 0)), 1);
}

#[test]
fn offsets_are_held_in_bounds() {
    let mut cards = vec![
        card(CardStyle::List, 20, 99),
        card(CardStyle::List, 20, -3),
        card(CardStyle::Grid, 21, 2),
        card(CardStyle::Grid, 21, 4),
    ];
    clamp_scroll(&mut cards, false);
    let offsets: Vec<i32> = cards.iter().map(|c| c.scroll).collect();
    assert_eq!(offsets, vec![14, 0, 2, 3]);
}

#[test]
fn flat_cards_show_one_line() {
    let mut c = card(CardStyle::List, 9, 0);
    c.height = 10;
    assert_eq!(lines_shown_of(&c, false), 1);
    assert_eq!(max_scroll_of(&c, false), 8);
    c.width = -5;
    c.style = CardStyle::Grid;
    assert_eq!(items_per_line_of(&c), 1);
}
