use desktop_organizer::layout::Card;
use desktop_organizer::pixels::{Look, Rect, Region, CARD_RADIUS};
use desktop_organizer::renderer::{compute_bbox, Renderer, WindowPlace};
use desktop_organizer::scanner::IconKind;

fn card(x: i32, y: i32, width: i32, height: i32) -> Card {
    let mut c = Card::new(IconKind::App, "t");
    c.x = x;
    c.y = y;
    c.width = width;
    c.height = height;
    c
}

fn region(x0: i32, y0: i32, x1: i32, y1: i32) -> Region {
    Region { x0, y0, x1, y1 }
}

#[test]
fn the_box_around_the_cards() {
    assert_eq!(compute_bbox(&[]), None);
    let cards = vec![card(10, 20, 30, 40), card(-5, 50, 10, 10), card(20, 0, 5, 5)];
    assert_eq!(compute_bbox(&cards), Some((-5, 0, 40, 60)));
    assert_eq!(
        compute_bbox(&[card(i32::MAX, 0, i32::MAX, 1)]),
        Some((i32::MAX as i64, 0, 2 * i32::MAX as i64, 1))
    );
}

#[test]
fn a_new_renderer() {
    let mut r = Renderer::new();
    assert_eq!((r.bg_color, r.w, r.h, r.ready), (0x262A36, 0, 0, false));
    r.set_bg_color(0x3A3A4A);
    assert_eq!(r.bg_color, 0x3A3A4A);
}

#[test]
fn surfaces_are_kept() {
    let mut r = Renderer::new();
    assert!(r.ensure_surface(100, 50));
    assert!(!r.ensure_surface(100, 50));
    assert!(r.ensure_surface(100, 60));
    assert!(r.ensure_surface(90, 60));
}

#[test]
fn a_full_frame() {
    let mut r = Renderer::new();
    let mut cards = vec![card(10, 20, 260, 200), card(300, 20, 260, 200)];
    cards[0].scroll = 77;
    let f = r.render(1920, 1080, &mut cards, &[], true, 180, false, None).unwrap();
    assert!(f.new_surface);
    assert_eq!(f.regions, vec![region(0, 0, 1920, 1080)]);
    assert!(f.hint.is_none());
    assert_eq!(f.drawings.iter().map(|d| d.card).collect::<Vec<usize>>(), vec![0, 1]);
    assert_eq!(f.drawings[0].ops.len(), 8);
    assert_eq!(f.drawings[0].fonts.title, 17);
    assert_eq!(f.rects[1], Rect { x: 300, y: 20, width: 260, height: 200 });
    assert_eq!(f.look, Look { bg: 0x262A36, alpha: 180, radius: CARD_RADIUS });
    assert_eq!(f.window, WindowPlace { x: 10, y: 20, width: 550, height: 200 });
    assert_eq!(cards[0].scroll, 0);
}

#[test]
fn a_hidden_frame() {
    let mut r = Renderer::new();
    let mut cards = vec![card(10, 20, 260, 200)];
    for partial in [false, true] {
        let f = if partial {
            r.render_damage(1920, 1080, &mut cards, &[], false, 180, false, None, &[])
        } else {
            r.render(1920, 1080, &mut cards, &[], false, 180, false, None)
        };
        let f = f.unwrap();
        assert_eq!(f.new_surface, !partial);
        assert!(f.hint.is_some());
        assert!(f.drawings.is_empty());
        assert_eq!(f.rects, vec![Rect { x: 810, y: 506, width: 300, height: 68 }]);
        assert_eq!(f.look, Look { bg: 0x262A36, alpha: 200, radius: 16 });
        assert_eq!(f.window, WindowPlace { x: 0, y: 0, width: 1920, height: 1080 });
    }
}

#[test]
fn no_screen_no_frame() {
    let mut r = Renderer::new();
    let mut cards = vec![card(10, 20, 260, 200)];
    cards[0].scroll = 9;
    assert!(r.render(0, 1080, &mut cards, &[], true, 180, false, None).is_none());
    assert!(r.render_damage(1920, 0, &mut cards, &[], true, 180, false, None, &[region(0, 0, 9, 9)]).is_none());
    assert_eq!(cards[0].scroll, 9);
    assert!(!r.ready);
}

#[test]
fn a_frame_for_damage() {
    let mut r = Renderer::new();
    let mut cards = vec![card(0, 0, 100, 100), card(200, 0, 100, 100), card(400, 0, 100, 100)];
    let damage = vec![region(-20, -20, 50, 50), region(250, 90, 260, 5000), region(5, 5, 5, 9), region(3000, 0, 3001, 9)];
    let f = r.render_damage(1920, 1080, &mut cards, &[], true, 180, false, None, &damage).unwrap();
    assert_eq!(f.regions, vec![region(0, 0, 50, 50), region(250, 90, 260, 1080)]);
    assert_eq!(f.drawings.iter().map(|d| d.card).collect::<Vec<usize>>(), vec![0, 1]);
    assert_eq!(f.rects.len(), 3);
    assert_eq!(f.window, WindowPlace { x: 0, y: 0, width: 500, height: 100 });
    assert!(r
        .render_damage(1920, 1080, &mut cards, &[], true, 180, false, None, &[region(-5, 0, 0, 9)])
        .is_none());
}

#[test]
fn windows_stay_on_the_screen() {
    let mut r = Renderer::new();
    let f = r.render(100, 100, &mut [card(-50, 90, 80, 80)], &[], true, 180, false, None).unwrap();
    assert_eq!(f.window, WindowPlace { x: 0, y: 90, width: 30, height: 10 });
    let f = r.render(100, 100, &mut [card(150, -90, 80, 80)], &[], true, 180, false, None).unwrap();
    assert_eq!(f.window, WindowPlace { x: 150, y: 0, width: 1, height: 1 });
    let f = r.render(100, 100, &mut [], &[], true, 180, false, None).unwrap();
    assert_eq!(f.window, WindowPlace { x: 0, y: 0, width: 1, height: 1 });
}

#[test]
fn damage_is_drawn_as_the_whole() {
    let mut r = Renderer::new();
    let mut cards = vec![card(0, 0, 100, 100), card(60, 20, 100, 100), card(40, 40, 60, 60), card(300, 0, 50, 50)];
    let damage = vec![region(50, 30, 90, 110), region(0, 90, 10, 95)];
    let whole = r.render(400, 400, &mut cards, &[], true, 180, false, None).unwrap();
    let part = r.render_damage(400, 400, &mut cards, &[], true, 180, false, None, &damage).unwrap();
    for g in &damage {
        for y in g.y0..g.y1 {
            for x in g.x0..g.x1 {
                let has = |k: usize| {
                    let c = &cards[k];
                    c.x <= x && x < c.x + c.width && c.y <= y && y < c.y + c.height
                };
                let a: Vec<_> = whole.drawings.iter().filter(|d| has(d.card)).collect();
                let b: Vec<_> = part.drawings.iter().filter(|d| has(d.card)).collect();
                assert_eq!(a.len(), b.len());
                for i in 0..a.len() {
                    assert_eq!(a[i].card, b[i].card);
                    assert_eq!(a[i].fonts, b[i].fonts);
                    assert_eq!(a[i].ops, b[i].ops);
                }
            }
        }
    }
}
