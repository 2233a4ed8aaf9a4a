use desktop_organizer::desktop::{DoubleClick, State};
use desktop_organizer::hook::{
    desktop_part, is_desktop_area, HookAction, MouseEvent, Part, Watch, LEFT_DOWN, RIGHT_UP,
};

fn event(message: u32, x: i32, y: i32, time: u32) -> MouseEvent {
    MouseEvent { message, x, y, time, sw: 1920, sh: 1080 }
}

fn desktop() -> State {
    State::create(vec![], None, false, &[], 1920, 1080)
}

#[test]
fn windows_are_told_apart() {
    assert_eq!(desktop_part(true, 1, 1, 2, Some("DeskOrgWnd")), Part::Cards);
    assert_eq!(desktop_part(true, 1, 1, 2, Some("DeskOrgSettings")), Part::Desktop);
    assert_eq!(desktop_part(true, 1, 1, 2, None), Part::Desktop);
    assert_eq!(desktop_part(true, 1, 1, 2, Some("#32768")), Part::Elsewhere);
    assert_eq!(desktop_part(true, 2, 1, 2, Some("WorkerW")), Part::Desktop);
    assert_eq!(desktop_part(true, 2, 1, 2, None), Part::Desktop);
    assert_eq!(desktop_part(true, 2, 1, 2, Some("Shell_TrayWnd")), Part::Elsewhere);
    assert_eq!(desktop_part(true, 2, 1, 2, Some("Start")), Part::Elsewhere);
    assert_eq!(desktop_part(true, 2, 1, 2, Some("Starter")), Part::Desktop);
    assert_eq!(desktop_part(true, 3, 1, 2, Some("WorkerW")), Part::Elsewhere);
    assert_eq!(desktop_part(false, 1, 1, 2, None), Part::Elsewhere);
    assert!(is_desktop_area(true, 2, 1, 2, Some("WorkerW")));
    assert!(!is_desktop_area(true, 2, 1, 2, Some("Shell_SecondaryTrayWnd")));
}

#[test]
fn double_clicks_are_seen() {
    let s = desktop();
    let mut w = Watch::new();
    assert_eq!(w.mouse_event(event(LEFT_DOWN, 5, 5, 100), Part::Desktop, 500, &s), HookAction::Pass);
    assert_eq!(w.mouse_event(event(LEFT_DOWN, 9, 1, 599), Part::Desktop, 500, &s), HookAction::PassAndToggle);
    assert_eq!(w.mouse_event(event(LEFT_DOWN, 9, 1, 1099), Part::Desktop, 500, &s), HookAction::Pass);
    assert_eq!(w.mouse_event(event(LEFT_DOWN, 4, 1, 1100), Part::Desktop, 500, &s), HookAction::Pass);
    assert_eq!(w, Watch { time: 1100, x: 4, y: 1 });
}

#[test]
fn the_clock_goes_round() {
    let s = desktop();
    let mut w = Watch { time: u32::MAX - 10, x: 5, y: 5 };
    assert_eq!(w.mouse_event(event(LEFT_DOWN, 5, 5, 20), Part::Desktop, 500, &s), HookAction::PassAndToggle);
    let mut w = Watch { time: 0, x: 5, y: 5 };
    assert_eq!(w.mouse_event(event(LEFT_DOWN, 5, 5, 20), Part::Desktop, 500, &s), HookAction::Pass);
}

#[test]
fn cards_and_other_windows_are_left_alone() {
    let s = desktop();
    for (x, y, part) in [(30, 60, Part::Desktop), (5, 5, Part::Elsewhere), (-5, 5, Part::Desktop), (5, 1080, Part::Desktop)] {
        let mut w = Watch { time: 90, x, y };
        assert_eq!(w.mouse_event(event(LEFT_DOWN, x, y, 100), part, 500, &s), HookAction::Pass);
        assert_eq!(w.mouse_event(event(RIGHT_UP, x, y, 100), part, 500, &s), HookAction::Pass);
    }
}

#[test]
fn right_clicks_open_the_menu_of_the_desktop() {
    let s = desktop();
    let mut w = Watch::new();
    assert_eq!(w.mouse_event(event(RIGHT_UP, 5, 5, 100), Part::Desktop, 500, &s), HookAction::SystemMenu);
    assert_eq!(w.mouse_event(event(RIGHT_UP, 5, 5, 100), Part::Cards, 500, &s), HookAction::SystemMenu);
    assert_eq!(w, Watch::new());
}

#[test]
fn open_menus_are_left_alone() {
    let mut s = desktop();
    s.menu_open = true;
    let mut w = Watch { time: 90, x: 5, y: 5 };
    assert_eq!(w.mouse_event(event(LEFT_DOWN, 5, 5, 100), Part::Desktop, 500, &s), HookAction::Pass);
    assert_eq!(w.mouse_event(event(RIGHT_UP, 5, 5, 100), Part::Desktop, 500, &s), HookAction::Pass);
    assert_eq!(w, Watch { time: 90, x: 5, y: 5 });
}

#[test]
fn hidden_cards_do_not_hold_clicks() {
    let mut s = desktop();
    s.visible = false;
    let mut w = Watch { time: 90, x: 30, y: 60 };
    assert_eq!(w.mouse_event(event(LEFT_DOWN, 30, 60, 100), Part::Desktop, 500, &s), HookAction::PassAndToggle);
    assert_eq!(w.mouse_event(event(RIGHT_UP, 30, 60, 100), Part::Desktop, 500, &s), HookAction::SystemMenu);
}

#[test]
fn a_double_click_toggles_once() {
    for hide in [true, false] {
        for visible in [true, false] {
            for part in [Part::Cards, Part::Desktop] {
                for (x, y) in [(5, 5), (30, 60)] {
                    if visible && x == 30 {
                        continue;
                    }
                    let mut s = desktop();
                    s.settings.double_click_hide = hide;
                    s.visible = visible;
                    let mut w = Watch { time: 90, x, y };
                    let by_hook =
                        w.mouse_event(event(LEFT_DOWN, x, y, 100), part, 500, &s) == HookAction::PassAndToggle;
                    let by_window = part == Part::Cards && s.double_click(x, y) == DoubleClick::Redraw;
                    assert!(!(by_hook && by_window));
                    assert_eq!(by_hook || by_window, hide || !visible);
                }
            }
        }
    }
}
