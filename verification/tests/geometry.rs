use desktop_organizer::geometry::{
    card_scale, cell_h, cell_w, content_top, grid_cols, length_on_card, row_h, title_h,
};

fn scale(width: i32) -> f32 {
    (width as f32 / 260 as f32).clamp(0.8, 3.0)
}

#[test]
fn scale_agrees_with_single_precision() {
    let mut width: i32 = -200;
    while width < 4000 {
        assert_eq!(card_scale(width) as f32 / 16777216.0, scale(width), "width {}", width);
        width += 1;
    }
    assert_eq!(card_scale(i32::MAX) as f32 / 16777216.0, 3.0);
    assert_eq!(card_scale(i32::MIN) as f32 / 16777216.0, 0.8);
}

#[test]
fn lengths_agree_with_single_precision() {
    let ks: [u32; 16] = [5, 6, 7, 8, 10, 12, 14, 16, 22, 26, 28, 36, 42, 52, 54, 78];
    let mut width: i32 = -20;
    while width < 1000 {
        let s: f32 = scale(width);
        for k in ks {
            assert_eq!(length_on_card(k, width), (k as f32 * s) as i32, "{} on {}", k, width);
        }
        width += 1;
    }
}

#[test]
fn natural_size_is_kept() {
    assert_eq!(title_h(260), 36);
    assert_eq!(content_top(260), 42);
    assert_eq!(row_h(260, true), 26);
    assert_eq!(row_h(260, false), 22);
    assert_eq!(cell_h(260), 64);
}

#[test]
fn cells_agree_with_single_precision() {
    let mut width: i32 = -40;
    while width < 1500 {
        let s: f32 = scale(width);
        let avail: i32 = width - 16;
        let cw: i32 = (48.0 * s.min(2.0)).max(1.0) as i32;
        let cols: i32 = (avail / cw).clamp(2, 10);
        assert_eq!(grid_cols(width), cols);
        assert_eq!(cell_w(width), (avail / cols).max(1));
        assert_eq!(cell_h(width), (64.0 * s).clamp(44.0, 120.0) as i32);
        assert_eq!(row_h(width, true), (26.0 * s) as i32);
        assert_eq!(row_h(width, false), (22.0 * s) as i32);
        width += 1;
    }
}

#[test]
fn wider_cards_have_no_fewer_columns() {
    let mut width: i32 = -100;
    while width < 2000 {
        assert!(grid_cols(width) <= grid_cols(width + 1));
        width += 1;
    }
}

#[test]
fn wider_cards_have_larger_parts() {
    let mut width: i32 = 0;
    while width < 900 {
        assert!(title_h(width) <= title_h(width + 1));
        width += 1;
    }
    assert_eq!(title_h(0), 28);
    assert_eq!(title_h(100000), 108);
    assert_eq!(grid_cols(260), 5);
    assert_eq!(cell_w(260), 48);
    assert_eq!(grid_cols(0), 2);
    assert_eq!(cell_w(0), 1);
}
