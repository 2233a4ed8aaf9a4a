use desktop_organizer::color::rgb;
use desktop_organizer::paint::Edges;
use desktop_organizer::panel::{click, draw_settings, uninstall_question, value_x, PanelAction};
use desktop_organizer::settings::Settings;

fn after(s: Settings, y: i32) -> Settings {
    let mut t = s;
    click(&mut t, y);
    t
}

#[test]
fn rows_of_the_panel() {
    let p = draw_settings(&Settings::default(), 324, 401);
    let shown: Vec<(&str, &str)> = p.rows.iter().map(|r| (r.label.as_str(), r.value.as_str())).collect();
    assert_eq!(
        shown,
        vec![
            ("卡片透明度", "200"),
            ("双击隐藏", "开"),
            ("自动分类", "开"),
            ("显示格式", "名称"),
            ("卡片大小", "中"),
            ("背景色", "#262A36"),
            ("开机自启", "关"),
            ("卸载程序", "点击卸载"),
        ]
    );
    assert_eq!(p.rows[2].area, Edges { left: 10, top: 102, right: 314, bottom: 144 });
    assert_eq!(p.rows[2].text_y, 114);
    assert_eq!((p.label_x, p.hint_x, p.hint_y), (22, 16, 371));
    assert_eq!(p.hint, "点击各行切换设置");
    assert_eq!(p.colors.value, rgb(43, 127, 255));
    assert_eq!(value_x(324, 40), 262);
    assert_eq!(value_x(30, 40), 0);
}

#[test]
fn other_values_of_the_panel() {
    let s = Settings {
        alpha: 7,
        double_click_hide: false,
        auto_classify: false,
        show_icons: true,
        card_cols: 2,
        bg_color: 0xAB,
        autostart: true,
    };
    let p = draw_settings(&s, 300, 400);
    let values: Vec<&str> = p.rows.iter().map(|r| r.value.as_str()).collect();
    assert_eq!(values, vec!["7", "关", "关", "图标", "大", "#0000AB", "开", "点击卸载"]);
    let p = draw_settings(&Settings { card_cols: 4, ..s }, 300, 400);
    assert_eq!(p.rows[4].value, "小");
}

#[test]
fn clicks_change_settings() {
    let s = Settings::default();
    let mut t = s;
    assert_eq!(click(&mut t, 9), PanelAction::Nothing);
    assert_eq!(click(&mut t, 378), PanelAction::Nothing);
    assert_eq!(click(&mut t, 332), PanelAction::AskToUninstall);
    assert_eq!(click(&mut t, 377), PanelAction::AskToUninstall);
    assert_eq!(t, s);
    assert_eq!(click(&mut t, 10), PanelAction::Changed);
    assert_eq!(t, Settings { alpha: 180, ..s });
    assert_eq!(after(s, 55), Settings { alpha: 180, ..s });
    assert_eq!(after(s, 56), Settings { double_click_hide: false, ..s });
    assert_eq!(after(s, 102), Settings { auto_classify: false, ..s });
    assert_eq!(after(s, 148), Settings { show_icons: true, ..s });
    assert_eq!(after(s, 194), Settings { card_cols: 2, ..s });
    assert_eq!(after(s, 240), Settings { bg_color: 0x3A3A4A, ..s });
    let mut t = s;
    assert_eq!(click(&mut t, 331), PanelAction::ChangedAutostart);
    assert_eq!(t, Settings { autostart: true, ..s });
}

#[test]
fn values_go_round() {
    let mut s = Settings { alpha: 33, card_cols: 9, bg_color: 1, ..Settings::default() };
    let mut alphas: Vec<u8> = vec![];
    let mut cols: Vec<u32> = vec![];
    let mut colors: Vec<u32> = vec![];
    for _ in 0..6 {
        s = after(after(after(s, 20), 200), 250);
        alphas.push(s.alpha);
        cols.push(s.card_cols);
        colors.push(s.bg_color);
    }
    assert_eq!(alphas, vec![200, 180, 160, 140, 120, 200]);
    assert_eq!(cols, vec![3, 2, 4, 3, 2, 4]);
    assert_eq!(colors, vec![0x262A36, 0x3A3A4A, 0x4A3A3A, 0x3A4A3A, 0x262A36, 0x3A3A4A]);
}

#[test]
fn switches_go_back() {
    let s = Settings::default();
    for y in [60, 110, 150, 300] {
        assert_ne!(after(s, y), s);
        assert_eq!(after(after(s, y), y), s);
    }
}

#[test]
fn clicks_hit_what_is_drawn() {
    let s = Settings::default();
    let p = draw_settings(&s, 300, 400);
    for (i, r) in p.rows.iter().enumerate() {
        for y in r.area.top..r.area.bottom {
            let q = draw_settings(&after(s, y as i32), 300, 400);
            for (j, t) in q.rows.iter().enumerate() {
                assert_eq!(t.value != p.rows[j].value, i == j && i < 7);
            }
        }
    }
}

#[test]
fn the_question_before_uninstalling() {
    let (title, text) = uninstall_question();
    assert_eq!(title, "卸载确认");
    assert!(text.starts_with("确定要卸载吗？\n"));
}
