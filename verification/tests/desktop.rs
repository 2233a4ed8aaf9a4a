use desktop_organizer::desktop::{
    frame_is_due, hits_at, keep_shown, timer_shows, CommandAction, DoubleClick, DragMode, KeyAction, Redraw, State,
    CMD_DELETE, CMD_DISPLAY, CMD_EXIT, CMD_NEW, CMD_SETTINGS,
};
use desktop_organizer::layout::{CardStyle, ResizeKind};
use desktop_organizer::pixels::Region;
use desktop_organizer::saved::{save_layout, SavedCard};
use desktop_organizer::scanner::{DesktopItem, IconKind};
use desktop_organizer::settings::Settings;

const SW: i32 = 1920;
const SH: i32 = 1080;

fn item(name: &str, kind: IconKind, icon: Option<isize>) -> DesktopItem {
    DesktopItem {
        name: name.to_string(),
        display_name: name.to_string(),
        kind,
        path: name.to_string(),
        icon,
    }
}

fn desktop() -> State {
    let items = vec![
        item("doc", IconKind::Document, Some(5)),
        item("one", IconKind::App, None),
        item("two", IconKind::App, Some(7)),
    ];
    State::create(items, None, false, &[], SW, SH)
}

fn parts(r: &Redraw) -> Vec<Region> {
    match r {
        Redraw::Parts(p) => p.clone(),
        _ => panic!("no parts"),
    }
}

fn region(x0: i32, y0: i32, x1: i32, y1: i32) -> Region {
    Region { x0, y0, x1, y1 }
}

fn titles(s: &State) -> Vec<&str> {
    s.cards.iter().map(|c| c.title.as_str()).collect()
}

#[test]
fn a_desktop_at_the_start() {
    let s = desktop();
    assert_eq!(titles(&s), vec!["应用", "文件夹", "文档", "图片", "其他"]);
    assert_eq!(s.cards[0].item_indices, vec![1, 2]);
    assert_eq!((s.cards[1].x, s.cards[1].y), (292, 16));
    assert!(s.visible);
    assert_eq!(s.settings, Settings::default());
    assert_eq!(s.renderer.bg_color, 0x262A36);
    assert!(s.selected.is_none() && s.drag.is_none() && !s.settings_open && !s.menu_open);
}

#[test]
fn a_restart_brings_the_desktop_back() {
    let mut s = desktop();
    s.cards[2].x = 900;
    s.cards[2].y = 600;
    s.cards[2].style = CardStyle::Grid;
    let stored = s.destroy(false).unwrap();
    let settings = Settings { bg_color: 0x3A3A4A, card_cols: 2, ..stored.settings };
    let again = State::create(vec![], Some(settings), true, &stored.layout, SW, SH);
    assert_eq!((again.cards[2].x, again.cards[2].y, again.cards[2].width), (900, 600, 260));
    assert_eq!(again.cards[2].style, CardStyle::Grid);
    assert!(again.settings.autostart);
    assert_eq!(again.renderer.bg_color, 0x3A3A4A);
    assert!(s.destroy(true).is_none());
    assert_eq!(save_layout(&again.cards).len(), 5);
    let none: Vec<SavedCard> = vec![];
    let plain = State::create(vec![], Some(settings), true, &none, SW, SH);
    assert_eq!(plain.cards[2].width, 340);
}

#[test]
fn icons_are_given_back() {
    assert_eq!(desktop().icons(), vec![5, 7]);
}

#[test]
fn points_have_hits() {
    let s = desktop();
    let h = hits_at(&s.cards, 30, 60, false);
    assert_eq!(h.face, Some(0));
    assert_eq!(h.item, Some((0, 0)));
    assert_eq!(h.title, None);
    assert_eq!(h.close, None);
    let h = hits_at(&s.cards, 275, 100, false);
    assert_eq!(h.edge, Some((0, ResizeKind::Right)));
    let h = hits_at(&s.cards, 5, 5, false);
    assert!(h.face.is_none() && h.item.is_none() && h.edge.is_none());
}

#[test]
fn the_close_button_removes_a_card() {
    let mut s = desktop();
    let p = s.left_down(260, 20, SW, SH);
    assert!(!p.quit && !p.capture && matches!(p.redraw, Redraw::All));
    assert_eq!(titles(&s), vec!["文件夹", "文档", "图片", "其他"]);
    assert_eq!((s.cards[0].x, s.cards[0].y), (16, 16));
}

#[test]
fn the_last_card_ends_the_program() {
    let mut s = desktop();
    for left in [4usize, 3, 2, 1] {
        assert!(!s.left_down(260, 20, SW, SH).quit);
        assert_eq!(s.cards.len(), left);
    }
    let p = s.left_down(260, 20, SW, SH);
    assert!(p.quit && matches!(p.redraw, Redraw::Nothing));
    assert!(s.cards.is_empty());
}

#[test]
fn the_style_button_switches() {
    let mut s = desktop();
    s.cards[0].scroll = 3;
    let p = s.left_down(224, 20, SW, SH);
    assert!(matches!(p.redraw, Redraw::All));
    assert_eq!((s.cards[0].style, s.cards[0].scroll), (CardStyle::Grid, 0));
    s.left_down(224, 20, SW, SH);
    assert_eq!(s.cards[0].style, CardStyle::List);
}

#[test]
fn cards_are_dragged_by_their_titles() {
    let mut s = desktop();
    let p = s.left_down(50, 30, SW, SH);
    assert!(p.capture && matches!(p.redraw, Redraw::Nothing));
    assert_eq!(titles(&s), vec!["文件夹", "文档", "图片", "其他", "应用"]);
    assert!(matches!(s.mouse_move(60, 45, SW, SH, false), Redraw::Nothing));
    assert_eq!((s.cards[4].x, s.cards[4].y), (26, 31));
    let r = s.mouse_move(150, 230, SW, SH, true);
    assert_eq!((s.cards[4].x, s.cards[4].y), (116, 216));
    assert_eq!(parts(&r), vec![region(16, 16, 276, 216), region(116, 216, 376, 416)]);
    let r = s.mouse_move(-500, 9999, SW, SH, true);
    assert_eq!((s.cards[4].x, s.cards[4].y), (0, 880));
    assert_eq!(parts(&r), vec![region(116, 216, 376, 416), region(0, 880, 260, 1080)]);
    assert!(matches!(s.left_up(), Redraw::All));
    assert!(s.drag.is_none());
    assert!(matches!(s.mouse_move(5, 5, SW, SH, true), Redraw::Nothing));
    assert_eq!((s.cards[4].x, s.cards[4].y), (0, 880));
}

#[test]
fn drags_stay_valid_while_no_card_is_removed() {
    let mut s = desktop();
    s.left_down(50, 30, SW, SH);
    s.wheel(300, 60, 120);
    s.key_down(0x74, SW, SH);
    s.command(CMD_NEW, SW, SH);
    s.toggle();
    s.apply_settings(Settings { card_cols: 2, ..s.settings }, SW, SH);
    s.frame(&Redraw::All, SW, SH);
    assert!(s.drag.unwrap().card_index < s.cards.len());
    let mut s = desktop();
    s.left_down(50, 30, SW, SH);
    s.right_up(300, 60);
    s.command(CMD_DELETE, SW, SH);
    assert_eq!(s.drag.unwrap().card_index, s.cards.len());
}

#[test]
fn edges_are_dragged() {
    let mut s = desktop();
    assert!(s.left_down(274, 100, SW, SH).capture);
    assert_eq!(s.drag.unwrap().mode, DragMode::ResizeRight);
    s.mouse_move(300, 500, SW, SH, true);
    assert_eq!((s.cards[4].width, s.cards[4].height), (286, 200));
    s.mouse_move(5000, 500, SW, SH, true);
    assert_eq!(s.cards[4].width, 640);
    s.mouse_move(0, 500, SW, SH, true);
    assert_eq!(s.cards[4].width, 120);
    s.left_up();
    let mut s = desktop();
    s.left_down(100, 210, SW, SH);
    assert_eq!(s.drag.unwrap().mode, DragMode::ResizeBottom);
    s.mouse_move(500, 5000, SW, SH, true);
    assert_eq!((s.cards[4].width, s.cards[4].height), (260, 420));
    let mut s = desktop();
    s.left_down(270, 210, SW, SH);
    assert_eq!(s.drag.unwrap().mode, DragMode::ResizeCorner);
    s.mouse_move(280, 0, SW, SH, true);
    assert_eq!((s.cards[4].width, s.cards[4].height), (270, 80));
}

#[test]
fn items_are_selected() {
    let mut s = desktop();
    s.cards[2].style = CardStyle::Grid;
    let p = s.left_down(30, 60, SW, SH);
    assert!(!p.capture && matches!(p.redraw, Redraw::Nothing));
    assert_eq!(s.selected, Some((0, 0)));
    assert_eq!(parts(&s.left_up()), vec![region(16, 16, 276, 216)]);
    s.left_down(580, 60, SW, SH);
    assert_eq!(s.selected, Some((2, 0)));
    assert_eq!(parts(&s.left_up()), vec![region(16, 16, 276, 216), region(568, 16, 828, 216)]);
    assert!(matches!(s.left_up(), Redraw::All));
}

#[test]
fn presses_beside_the_cards_do_nothing() {
    let mut s = desktop();
    let p = s.left_down(5, 5, SW, SH);
    assert!(!p.quit && !p.capture && matches!(p.redraw, Redraw::Nothing));
    assert!(s.drag.is_none() && s.selected.is_none());
}

#[test]
fn double_clicks_open_items() {
    let mut s = desktop();
    assert_eq!(s.double_click(30, 60), DoubleClick::Open(1));
    assert_eq!(s.double_click(30, 85), DoubleClick::Open(2));
    assert_eq!(s.double_click(30, 200), DoubleClick::Nothing);
    assert!(s.visible);
    s.items.pop();
    assert_eq!(s.double_click(30, 85), DoubleClick::Nothing);
}

#[test]
fn double_clicks_hide_the_cards() {
    let mut s = desktop();
    assert_eq!(s.double_click(5, 5), DoubleClick::Redraw);
    assert!(!s.visible);
    assert_eq!(s.double_click(5, 5), DoubleClick::Redraw);
    assert!(s.visible);
    s.settings.double_click_hide = false;
    assert_eq!(s.double_click(5, 5), DoubleClick::Nothing);
    assert!(s.visible);
    s.toggle();
    assert!(!s.visible);
    s.toggle();
    assert!(s.visible);
}

#[test]
fn hidden_cards_are_not_under_a_point() {
    let mut s = desktop();
    s.visible = false;
    // An item, and the face of a card.
    for (x, y) in [(30, 60), (30, 200)] {
        assert_eq!(s.double_click(x, y), DoubleClick::Redraw);
        assert!(s.visible);
        s.visible = false;
    }
    s.settings.double_click_hide = false;
    assert_eq!(s.double_click(30, 60), DoubleClick::Nothing);
    assert!(!s.visible);
}

#[test]
fn double_clicks_open_what_is_drawn_in_a_scrolled_list() {
    let items: Vec<DesktopItem> = (0..20).map(|i| item(&format!("{}", i), IconKind::App, None)).collect();
    let mut s = State::create(items, None, false, &[], SW, SH);
    s.cards[0].scroll = 2;
    assert_eq!(s.double_click(30, 60), DoubleClick::Open(2));
    assert_eq!(s.double_click(30, 85), DoubleClick::Open(3));
    // Below the card is the empty desktop.
    assert_eq!(s.double_click(30, 225), DoubleClick::Redraw);
}

#[test]
fn frames_of_a_drag_are_due() {
    assert!(!frame_is_due(0));
    assert!(!frame_is_due(15));
    assert!(frame_is_due(16));
}

#[test]
fn the_wheel_scrolls() {
    let mut s = desktop();
    let r = s.wheel(30, 60, -240);
    assert_eq!(s.cards[0].scroll, 2);
    assert_eq!(parts(&r), vec![region(16, 16, 276, 216)]);
    s.wheel(30, 60, 120);
    assert_eq!(s.cards[0].scroll, 1);
    s.wheel(30, 60, -119);
    s.wheel(30, 60, 119);
    assert_eq!(s.cards[0].scroll, 1);
    assert!(matches!(s.wheel(5, 5, 120), Redraw::Nothing));
    s.menu_open = true;
    assert!(matches!(s.wheel(30, 60, 120), Redraw::Nothing));
    assert_eq!(s.cards[0].scroll, 1);
    s.menu_open = false;
    s.cards[0].scroll = i32::MIN;
    s.wheel(30, 60, 120);
    assert_eq!(s.cards[0].scroll, i32::MIN);
}

#[test]
fn keys() {
    let mut s = desktop();
    assert_eq!(s.key_down(0x70, SW, SH), KeyAction::OpenSettings);
    assert_eq!(s.key_down(0x70, SW, SH), KeyAction::Nothing);
    s.settings_closed();
    assert_eq!(s.key_down(0x70, SW, SH), KeyAction::OpenSettings);
    s.cards[3].x = 999;
    assert_eq!(s.key_down(0x74, SW, SH), KeyAction::Redraw);
    assert_eq!(s.cards[3].x, 16);
    assert_eq!(s.key_down(0x1B, SW, SH), KeyAction::Quit);
    assert_eq!(s.key_down(0x41, SW, SH), KeyAction::Nothing);
}

#[test]
fn menus_delete_and_add_cards() {
    let mut s = desktop();
    assert!(!s.right_up(5, 5));
    assert!(!s.menu_open);
    assert!(s.right_up(300, 30));
    assert!(s.menu_open);
    assert_eq!(s.menu_card, Some(1));
    assert_eq!(s.command(CMD_DELETE, SW, SH), CommandAction::Nothing);
    assert_eq!(titles(&s), vec!["应用", "文档", "图片", "其他"]);
    assert_eq!(s.menu_card, None);
    assert_eq!(s.command(CMD_DELETE, SW, SH), CommandAction::Nothing);
    assert_eq!(s.cards.len(), 4);
    s.menu_closed();
    assert!(!s.menu_open);
    s.cards[1].x = 500;
    s.cards[1].y = 600;
    s.cards[1].width = 300;
    assert_eq!(s.command(0x5_0000 + CMD_NEW, SW, SH), CommandAction::Redraw);
    assert_eq!(titles(&s), vec!["应用", "文档", "图片", "其他", "新分区1"]);
    assert_eq!((s.cards[0].x, s.cards[0].y), (16, 16));
    assert_eq!((s.cards[1].x, s.cards[1].y, s.cards[1].width), (500, 600, 300));
    assert_eq!((s.cards[4].x, s.cards[4].y), (292, 16));
    assert_eq!((s.cards[4].width, s.cards[4].height), (260, 200));
}

#[test]
fn menus_lead_elsewhere() {
    let mut s = desktop();
    assert_eq!(s.command(CMD_EXIT, SW, SH), CommandAction::Quit);
    assert_eq!(s.command(CMD_SETTINGS, SW, SH), CommandAction::AskForSettings);
    assert_eq!(s.command(CMD_DISPLAY, SW, SH), CommandAction::OpenDisplaySettings);
    assert_eq!(s.command(99, SW, SH), CommandAction::Nothing);
    assert_eq!(s.cards.len(), 5);
}

#[test]
fn new_settings_apply() {
    let mut s = desktop();
    s.cards[0].x = 700;
    let one = Settings { bg_color: 0x4A3A3A, alpha: 120, ..s.settings };
    s.apply_settings(one, SW, SH);
    assert_eq!(s.renderer.bg_color, 0x4A3A3A);
    assert_eq!(s.cards[0].x, 700);
    let two = Settings { card_cols: 4, ..one };
    s.apply_settings(two, SW, SH);
    assert_eq!((s.cards[0].x, s.cards[0].width), (16, 200));
    assert_eq!(s.settings, two);
}

#[test]
fn frames_draw_what_is_asked_for() {
    let mut s = desktop();
    assert!(s.frame(&Redraw::Nothing, SW, SH).is_none());
    let f = s.frame(&Redraw::All, SW, SH).unwrap();
    assert_eq!(f.drawings.len(), 5);
    assert!(f.new_surface);
    assert_eq!((f.window.x, f.window.y, f.window.width, f.window.height), (16, 16, 812, 416));
    let r = s.wheel(30, 60, -240);
    let f = s.frame(&r, SW, SH).unwrap();
    assert!(!f.new_surface);
    assert_eq!(f.drawings.iter().map(|d| d.card).collect::<Vec<usize>>(), vec![0]);
    assert_eq!(s.cards[0].scroll, 0);
    s.toggle();
    assert!(s.frame(&Redraw::All, SW, SH).unwrap().hint.is_some());
}

#[test]
fn the_window_stays_shown() {
    let mut s = desktop();
    assert!(s.shows_again(false));
    assert!(!s.shows_again(true));
    s.toggle();
    assert!(!s.shows_again(false));
    assert!(timer_shows(1, false));
    assert!(!timer_shows(1, true));
    assert!(!timer_shows(2, false));
    assert_eq!(keep_shown(0x97), 0x17);
    assert_eq!(keep_shown(0x17), 0x17);
}
