use desktop_organizer::color::{lighten, BORDER_LIGHT};
use desktop_organizer::pixels::{
    blend_cards, clear_regions, rounded_row, rounded_sd, Look, Rect, Region, CARD_RADIUS,
};

fn single_sd(px: f32, py: f32, x0: f32, y0: f32, x1: f32, y1: f32, r: f32) -> f32 {
    let ax = (x1 - x0) * 0.5 - r;
    let ay = (y1 - y0) * 0.5 - r;
    let bx = (px - (x0 + x1) * 0.5).abs() - ax;
    let by = (py - (y0 + y1) * 0.5).abs() - ay;
    let inner = bx.max(by).min(0.0);
    let outer = (bx.max(0.0) * bx.max(0.0) + by.max(0.0) * by.max(0.0)).sqrt();
    inner + outer - r
}

fn single_row(y: i32, x0: i32, y0: i32, x1: i32, y1: i32, r: i32) -> Option<(i64, i64)> {
    if y < y0 || y >= y1 || x1 <= x0 {
        return None;
    }
    let r = r.clamp(0, ((x1 - x0) / 2).min((y1 - y0) / 2));
    if r == 0 {
        return Some((x0 as i64, x1 as i64));
    }
    let top = y0 + r;
    let bottom = y1 - 1 - r;
    let dy = if y < top {
        (top - y) as f32 - 0.5
    } else if y > bottom {
        (y - bottom) as f32 - 0.5
    } else {
        return Some((x0 as i64, x1 as i64));
    };
    let reach = r as f32 + 0.5;
    let d = (reach * reach - dy * dy).max(0.0).sqrt().ceil() as i32 + 1;
    Some(((x0 + r - d) as i64, (x1 - r + d) as i64))
}

fn single_blend(data: &mut [u8], w: i32, h: i32, rects: &[Rect], damage: &[Region], look: Look) {
    let (red, green, blue) = lighten(look.bg, BORDER_LIGHT);
    let border = look.alpha.saturating_add(45);
    for rect in rects {
        let x0 = rect.x.max(0);
        let y0 = rect.y.max(0);
        let x1 = (rect.x + rect.width).min(w);
        let y1 = (rect.y + rect.height).min(h);
        if x1 <= x0 || y1 <= y0 {
            continue;
        }
        let r = (look.radius as f32).clamp(0.0, ((x1 - x0) as f32 / 2.0).min((y1 - y0) as f32 / 2.0));
        for d in damage {
            for y in y0.max(d.y0)..y1.min(d.y1) {
                let Some((a, b)) = single_row(y, x0, y0, x1, y1, r as i32) else { continue };
                let from = (a as i32).max(x0.max(d.x0));
                let to = (b as i32).min(x1.min(d.x1));
                for x in from..to {
                    let sd = single_sd(
                        x as f32 + 0.5,
                        y as f32 + 0.5,
                        x0 as f32,
                        y0 as f32,
                        x1 as f32,
                        y1 as f32,
                        r,
                    );
                    let o = ((y * w + x) * 4) as usize;
                    if sd < -0.9 {
                        data[o + 3] = look.alpha;
                    } else {
                        data[o] = blue;
                        data[o + 1] = green;
                        data[o + 2] = red;
                        data[o + 3] = (border as f32 * (0.5 - sd).clamp(0.0, 1.0)) as u8;
                    }
                }
            }
        }
    }
}

fn whole(w: i32, h: i32) -> Region {
    Region { x0: 0, y0: 0, x1: w, y1: h }
}

#[test]
fn rows_agree_with_single_precision() {
    for r in [-3, 0, 1, 2, 5, 12, 16, 40, 1000] {
        for (w, h) in [(1, 1), (2, 3), (30, 20), (260, 200), (300, 68)] {
            for y in -2..h + 2 {
                assert_eq!(rounded_row(y + 7, 5, 7, 5 + w, 7 + h, r), single_row(y + 7, 5, 7, 5 + w, 7 + h, r));
            }
        }
    }
    assert_eq!(rounded_row(0, 5, 0, 5, 9, 3), None);
    assert_eq!(rounded_row(0, 0, 0, 100, 100, 12), Some((6, 94)));
    assert_eq!(rounded_row(50, 0, 0, 100, 100, 12), Some((0, 100)));
}

#[test]
fn distances_agree_with_single_precision() {
    for (w, h, r) in [(40, 30, 24u32), (9, 9, 9), (60, 20, 20), (31, 17, 0), (300, 68, 32)] {
        let shape = Region { x0: 3, y0: 2, x1: 3 + w, y1: 2 + h };
        for y in 0..h + 4 {
            for x in 0..w + 6 {
                let sd = single_sd(
                    x as f32 + 0.5,
                    y as f32 + 0.5,
                    3.0,
                    2.0,
                    (3 + w) as f32,
                    (2 + h) as f32,
                    r as f32 / 2.0,
                );
                assert_eq!(rounded_sd(x, y, shape, r) as f64 / 16777216.0, sd as f64);
            }
        }
    }
}

#[test]
fn rows_hold_all_visible_pixels() {
    for (w, h, r) in [(100, 50, 12), (40, 40, 20), (31, 17, 8), (300, 68, 16), (9, 200, 4), (50, 50, 0)] {
        let shape = Region { x0: 0, y0: 0, x1: w, y1: h };
        for y in 0..h {
            let (a, b) = rounded_row(y, 0, 0, w, h, r).unwrap();
            assert_eq!(a, w as i64 - b);
            for x in 0..w {
                if rounded_sd(x, y, shape, 2 * r as u32) < 0x80_0000 {
                    assert!(a <= x as i64 && (x as i64) < b);
                }
            }
        }
    }
}

#[test]
fn distances_are_negative_inside() {
    let shape = Region { x0: 0, y0: 0, x1: 100, y1: 50 };
    assert_eq!(rounded_sd(50, 25, shape, 0), -49 * 0x80_0000);
    assert_eq!(rounded_sd(50, 25, shape, 24), -49 * 0x80_0000);
    assert_eq!(rounded_sd(0, 25, shape, 24), -0x80_0000);
    assert_eq!(rounded_sd(102, 25, shape, 24), 5 * 0x80_0000);
    assert!(rounded_sd(0, 0, shape, 24) > 0);
    assert!(rounded_sd(0, 0, shape, 0) < 0);
}

#[test]
fn whole_rows_where_single_precision_ends() {
    let far = 1 << 23;
    assert_eq!(rounded_row(0, far, 0, far + 100, 100, 12), Some((far as i64, far as i64 + 100)));
    let near = far - 101;
    assert_eq!(rounded_row(0, near, 0, near + 100, 100, 12), Some((near as i64 + 6, near as i64 + 94)));
}

#[test]
fn large_corners_are_cut_too() {
    assert_eq!(rounded_row(0, 0, 0, 4000, 4000, 1500), Some((1444, 2556)));
    let shape = Region { x0: 0, y0: 0, x1: 131001, y1: 131001 };
    for r in [1500, 60000, 65500] {
        for y in [0, 1, 7, 1000] {
            let (a, b) = rounded_row(y, 0, 0, 131001, 131001, r).unwrap();
            assert!(a > 0 && a == 131001 - b);
            assert!(rounded_sd(a as i32 - 1, y, shape, 2 * r as u32) >= 0x80_0000);
        }
    }
}

#[test]
fn blending_agrees_with_single_precision() {
    let (w, h) = (120, 90);
    let rects = [
        Rect { x: 5, y: 5, width: 60, height: 40 },
        Rect { x: 40, y: 20, width: 50, height: 60 },
        Rect { x: -10, y: 60, width: 30, height: 50 },
        Rect { x: 100, y: -20, width: 50, height: 50 },
        Rect { x: 70, y: 70, width: 5, height: 7 },
        Rect { x: 200, y: 0, width: 10, height: 10 },
        Rect { x: 10, y: 10, width: -3, height: 10 },
    ];
    let damages = [
        vec![whole(w, h)],
        vec![Region { x0: 10, y0: 10, x1: 50, y1: 50 }, Region { x0: 30, y0: 30, x1: 200, y1: 70 }],
        vec![Region { x0: 50, y0: 50, x1: 40, y1: 60 }],
        vec![],
    ];
    for damage in damages {
        for look in [
            Look { bg: 0x262A36, alpha: 200, radius: CARD_RADIUS },
            Look { bg: 0xFFC080, alpha: 250, radius: 16 },
            Look { bg: 0x102030, alpha: 0, radius: 0 },
        ] {
            let start: Vec<u8> = (0..w * h * 4).map(|i| (i * 7 % 251) as u8).collect();
            let mut ours = start.clone();
            let mut theirs = start.clone();
            blend_cards(&mut ours, w, h, &rects, &damage, look);
            single_blend(&mut theirs, w, h, &rects, &damage, look);
            assert!(ours == theirs);
        }
    }
}

#[test]
fn the_inside_keeps_its_colors() {
    let mut data: Vec<u8> = vec![9; 40 * 40 * 4];
    let look = Look { bg: 0x262A36, alpha: 180, radius: 12 };
    blend_cards(&mut data, 40, 40, &[Rect { x: 0, y: 0, width: 40, height: 40 }], &[whole(40, 40)], look);
    let o = (20 * 40 + 20) * 4;
    assert_eq!(data[o..o + 4], [9, 9, 9, 180]);
    // The middle of the upper edge is half a pixel inside: border.
    let o = 20 * 4;
    assert_eq!(data[o..o + 4], [81, 63, 57, 225]);
    // The corner is outside of the arc.
    assert_eq!(data[0..4], [9, 9, 9, 9]);
}

#[test]
fn pixels_beside_the_damage_stay() {
    let mut data: Vec<u8> = vec![1; 20 * 20 * 4];
    let look = Look { bg: 0x262A36, alpha: 180, radius: 4 };
    let damage = Region { x0: 0, y0: 0, x1: 10, y1: 20 };
    blend_cards(&mut data, 20, 20, &[Rect { x: 0, y: 0, width: 20, height: 20 }], &[damage], look);
    for y in 0..20 {
        for x in 10..20 {
            let o = (y * 20 + x) * 4;
            assert_eq!(data[o..o + 4], [1, 1, 1, 1]);
        }
    }
}

#[test]
fn damage_is_blended_as_the_whole() {
    let rects = [Rect { x: 2, y: 3, width: 30, height: 25 }, Rect { x: 10, y: 10, width: 28, height: 28 }];
    let look = Look { bg: 0x3A3A4A, alpha: 160, radius: 12 };
    let damage = Region { x0: 8, y0: 4, x1: 25, y1: 33 };
    let mut part: Vec<u8> = vec![5; 40 * 40 * 4];
    let mut full = part.clone();
    blend_cards(&mut part, 40, 40, &rects, &[damage], look);
    blend_cards(&mut full, 40, 40, &rects, &[whole(40, 40)], look);
    for y in damage.y0..damage.y1 {
        for x in damage.x0..damage.x1 {
            let o = ((y * 40 + x) * 4) as usize;
            assert_eq!(part[o..o + 4], full[o..o + 4]);
        }
    }
}

#[test]
fn regions_are_cleared() {
    let mut data: Vec<u8> = vec![7; 6 * 5 * 4];
    clear_regions(
        &mut data,
        6,
        5,
        &[Region { x0: 1, y0: 1, x1: 3, y1: 3 }, Region { x0: -4, y0: 4, x1: 99, y1: 99 }],
    );
    for y in 0..5 {
        for x in 0..6 {
            let o = (y * 6 + x) * 4;
            let gone = (x >= 1 && x < 3 && y >= 1 && y < 3) || y == 4;
            assert_eq!(data[o..o + 4], if gone { [0; 4] } else { [7; 4] });
        }
    }
}
