use desktop_organizer::color::{light_rgb, rgb, LINE_LIGHT, PLAIN, TITLE_LIGHT};
use desktop_organizer::layout::{Card, CardStyle};
use desktop_organizer::paint::{
    centred, draw_card, draw_fallback_badge, draw_hidden_hint, font_sizes_of, half_of, label_text, text_x,
    Anchor, DrawOp, Edges, Font, Label,
};
use desktop_organizer::scanner::{DesktopItem, IconKind};

const BG: u32 = 0x262A36;

fn item(name: &str, icon: Option<isize>) -> DesktopItem {
    DesktopItem {
        name: name.to_string(),
        display_name: name.to_string(),
        kind: IconKind::App,
        path: name.to_string(),
        icon,
    }
}

fn items(n: usize) -> Vec<DesktopItem> {
    (0..n).map(|i| item(&format!("item number {}", i), if i % 2 == 0 { Some(i as isize) } else { None })).collect()
}

fn card(style: CardStyle, n: usize) -> Card {
    let mut c = Card::new(IconKind::App, "应用");
    c.x = 100;
    c.y = 50;
    c.width = 260;
    c.height = 200;
    c.style = style;
    c.item_indices = (0..n).collect();
    c
}

fn fill(left: i64, top: i64, right: i64, bottom: i64, color: u32) -> DrawOp {
    DrawOp::Fill { area: Edges { left, top, right, bottom }, color }
}

#[test]
fn the_frame_of_a_card() {
    let ops = draw_card(&card(CardStyle::List, 0), &[], 0, BG, false, None);
    assert_eq!(ops.len(), 8);
    assert_eq!(ops[0], fill(100, 50, 360, 250, light_rgb(BG, PLAIN)));
    assert_eq!(ops[1], fill(100, 50, 360, 86, light_rgb(BG, TITLE_LIGHT)));
    assert_eq!(ops[2], fill(112, 84, 348, 85, light_rgb(BG, LINE_LIGHT)));
    assert_eq!(
        ops[3],
        DrawOp::Dot { area: Edges { left: 114, top: 63, right: 122, bottom: 71 }, color: rgb(86, 156, 214) }
    );
    assert_eq!(
        ops[4],
        DrawOp::Text {
            label: Label::Title,
            font: Font::Title,
            color: rgb(238, 240, 246),
            at: Anchor::At(128),
            y: 60
        }
    );
    assert_eq!(
        ops[5],
        DrawOp::Text {
            label: Label::Count(0),
            font: Font::Grid,
            color: rgb(150, 158, 175),
            at: Anchor::EndsAt(282, 130),
            y: 64
        }
    );
    assert_eq!(
        ops[6],
        DrawOp::Text {
            label: Label::Close,
            font: Font::Title,
            color: rgb(196, 132, 134),
            at: Anchor::At(334),
            y: 57
        }
    );
    assert_eq!(
        ops[7],
        DrawOp::Text {
            label: Label::SwitchToGrid,
            font: Font::Title,
            color: rgb(152, 164, 188),
            at: Anchor::At(306),
            y: 57
        }
    );
}

#[test]
fn lists_show_names() {
    let all = items(20);
    let mut c = card(CardStyle::List, 20);
    c.scroll = 2;
    let ops = draw_card(&c, &all, 4, BG, false, Some((4, 3)));
    // Rows are 22 high, from 92 on; a row that begins at or above 242 still shows, so seven do.
    assert_eq!(ops.len(), 8 + 7 + 1 + 1);
    assert_eq!(
        ops[8],
        DrawOp::Text {
            label: Label::Name(2),
            font: Font::Item,
            color: rgb(218, 222, 232),
            at: Anchor::At(112),
            y: 95
        }
    );
    assert_eq!(ops[9], fill(104, 113, 350, 135, rgb(58, 86, 132)));
    // Six of twenty rows fit: the thumb takes that share of 150 pixels.
    assert_eq!(ops[16], fill(350, 92 + 15, 355, 92 + 15 + 45, rgb(130, 140, 165)));
}

#[test]
fn lists_show_icons_and_badges() {
    let all = items(2);
    let ops = draw_card(&card(CardStyle::List, 2), &all, 0, BG, true, None);
    assert_eq!(ops.len(), 8 + 4);
    assert_eq!(ops[8], DrawOp::Icon { handle: 0, x: 112, y: 97, size: 16 });
    assert_eq!(
        ops[9],
        DrawOp::Text {
            label: Label::Name(0),
            font: Font::Item,
            color: rgb(218, 222, 232),
            at: Anchor::At(134),
            y: 97
        }
    );
    assert_eq!(ops[10], DrawOp::Badge { item: 1, x: 112, y: 123, size: 16 });
}

#[test]
fn grids_show_cells() {
    let all = items(12);
    let ops = draw_card(&card(CardStyle::Grid, 12), &all, 0, BG, false, Some((0, 6)));
    // Two of three lines of five cells fit.
    assert_eq!(ops.len(), 8 + 20 + 1 + 1);
    assert_eq!(ops[8], DrawOp::Icon { handle: 0, x: 116, y: 98, size: 32 });
    assert_eq!(
        ops[9],
        DrawOp::Text {
            label: Label::ShortName(0),
            font: Font::Grid,
            color: rgb(218, 222, 232),
            at: Anchor::Middle(108, 44, 2),
            y: 130
        }
    );
    assert_eq!(ops[8 + 12], fill(156, 156, 200, 218, rgb(58, 86, 132)));
    assert_eq!(ops[29], fill(350, 92, 355, 92 + 100, rgb(130, 140, 165)));
}

#[test]
fn items_that_are_gone_are_passed_over() {
    let ops = draw_card(&card(CardStyle::Grid, 3), &items(1), 0, BG, false, Some((0, 2)));
    assert_eq!(ops.len(), 8 + 2);
}

#[test]
fn thumbs_agree_with_single_precision() {
    for n in 7..60usize {
        for scroll in [0, 1, 3, 7, 50] {
            for height in [200, 233, 310] {
                let mut c = card(CardStyle::List, n);
                c.height = height;
                c.scroll = scroll;
                let shown = ((height - 8 - 42) / 22).max(1);
                let most = (n as i32 - shown).max(0);
                let ops = draw_card(&c, &[], 0, BG, false, None);
                if most == 0 {
                    assert_eq!(ops.len(), 8);
                    continue;
                }
                let line = scroll.clamp(0, most);
                let track = (height - 8 - 42).max(20);
                let thumb = ((shown as f32 / n as f32) * track as f32).max(16.0) as i32;
                let off = ((line as f32 / most as f32) * (track - thumb) as f32) as i32;
                let top = (92 + off) as i64;
                assert_eq!(ops[8], fill(350, top, 355, top + thumb as i64, rgb(130, 140, 165)));
            }
        }
    }
}

#[test]
fn fonts_grow_with_the_card() {
    let f = font_sizes_of(260);
    assert_eq!((f.title, f.grid, f.item), (17, 12, 15));
    let f = font_sizes_of(10);
    assert_eq!((f.title, f.grid, f.item), (13, 9, 12));
    let f = font_sizes_of(640);
    assert_eq!((f.title, f.grid, f.item), (41, 29, 36));
}

#[test]
fn labels_say_what_they_stand_for() {
    let c = card(CardStyle::List, 0);
    let all = vec![item("short", None), item("much longer", None), item("桌面图标整理器", None), item("abcdef", None)];
    assert_eq!(label_text(Label::Title, &c, &all), "应用");
    assert_eq!(label_text(Label::Count(12), &c, &all), "12");
    assert_eq!(label_text(Label::Close, &c, &all), "✕");
    assert_eq!(label_text(Label::SwitchToList, &c, &all), "≡");
    assert_eq!(label_text(Label::SwitchToGrid, &c, &all), "▦");
    assert_eq!(label_text(Label::ShortName(0), &c, &all), "short");
    assert_eq!(label_text(Label::ShortName(1), &c, &all), "much l…");
    assert_eq!(label_text(Label::ShortName(2), &c, &all), "桌面图标整理…");
    assert_eq!(label_text(Label::ShortName(3), &c, &all), "abcdef");
    assert_eq!(label_text(Label::Name(1), &c, &all), "much longer");
}

#[test]
fn texts_find_their_places() {
    assert_eq!(text_x(Anchor::At(5), 100), 5);
    assert_eq!(text_x(Anchor::EndsAt(282, 130), 20), 262);
    assert_eq!(text_x(Anchor::EndsAt(282, 130), 200), 130);
    assert_eq!(text_x(Anchor::Middle(108, 44, 2), 20), 120);
    assert_eq!(text_x(Anchor::Middle(108, 44, 2), 99), 110);
    assert_eq!(centred(10, 300, 101), 109);
    assert_eq!(centred(10, 20, 25), 8);
    assert_eq!(half_of(-5), -2);
    assert_eq!(half_of(5), 2);
}

#[test]
fn badges_show_a_letter() {
    let b = draw_fallback_badge(10, 20, 33, &item("编辑器", None));
    assert_eq!(b.area, Edges { left: 10, top: 20, right: 43, bottom: 53 });
    assert_eq!(b.letter, "编");
    assert_eq!(b.letter_height, 16);
    assert_eq!(b.color, rgb(86, 156, 214));
    assert_eq!(b.letter_color, rgb(238, 240, 246));
    let b = draw_fallback_badge(0, 0, 5, &item("", None));
    assert_eq!(b.area, Edges { left: 0, top: 0, right: 12, bottom: 12 });
    assert_eq!(b.letter, "?");
    assert_eq!(b.letter_height, 6);
}

#[test]
fn the_hint_is_in_the_middle() {
    let h = draw_hidden_hint(1920, 1080, BG);
    assert_eq!(h.area, Edges { left: 810, top: 506, right: 1110, bottom: 574 });
    assert_eq!(h.text, "桌面已隐藏 · 双击这里恢复");
    assert_eq!(h.text_height, 17);
    assert_eq!(h.text_y, 530);
    assert_eq!(h.color, 0x362A26);
    let h = draw_hidden_hint(199, 50, BG);
    assert_eq!(h.area, Edges { left: -50, top: -9, right: 250, bottom: 59 });
}
