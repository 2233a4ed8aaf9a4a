use desktop_organizer::settings::{default_bg, load_settings, Settings};

#[test]
fn defaults() {
    let s = Settings::default();
    assert_eq!(s.alpha, 200);
    assert!(s.double_click_hide);
    assert!(s.auto_classify);
    assert!(!s.show_icons);
    assert_eq!(s.card_cols, 3);
    assert_eq!(s.bg_color, 0x262A36);
    assert!(!s.autostart);
    assert_eq!(default_bg(), 0x262A36);
}

#[test]
fn stored_settings_are_kept() {
    let s = Settings { alpha: 120, card_cols: 4, ..Settings::default() };
    assert_eq!(load_settings(Some(s)), s);
    assert_eq!(load_settings(None), Settings::default());
}
