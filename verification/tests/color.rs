use desktop_organizer::color::{light_rgb, lighten, rgb, BORDER_LIGHT, LINE_LIGHT, PLAIN, TITLE_LIGHT};

fn reference(c: u32, f: f32) -> (u8, u8, u8) {
    (
        (((c >> 16) & 0xff) as f32 * f).min(255.0) as u8,
        (((c >> 8) & 0xff) as f32 * f).min(255.0) as u8,
        ((c & 0xff) as f32 * f).min(255.0) as u8,
    )
}

#[test]
fn brightness_agrees_with_single_precision() {
    let mut v: u32 = 0;
    while v < 256 {
        let c: u32 = (v << 16) | ((255 - v) << 8) | (v * 7 % 256);
        assert_eq!(lighten(c, PLAIN), reference(c, 1.0));
        assert_eq!(lighten(c, TITLE_LIGHT), reference(c, 1.08));
        assert_eq!(lighten(c, LINE_LIGHT), reference(c, 1.35));
        assert_eq!(lighten(c, BORDER_LIGHT), reference(c, 1.5));
        v += 1;
    }
}

#[test]
fn plain_brightness_keeps_the_default() {
    assert_eq!(lighten(0x262A36, PLAIN), (0x26, 0x2A, 0x36));
}

#[test]
fn bright_channels_are_cut_off() {
    assert_eq!(lighten(0xFFFFFF, BORDER_LIGHT), (255, 255, 255));
    assert_eq!(lighten(0x262A36, BORDER_LIGHT), (57, 63, 81));
}

#[test]
fn colors_are_packed_from_red_up() {
    assert_eq!(rgb(1, 2, 3), 0x030201);
    assert_eq!(light_rgb(0x262A36, PLAIN), 0x362A26);
}
