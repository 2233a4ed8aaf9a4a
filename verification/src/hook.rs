//! What the program makes of mouse events that it sees before any window does: double clicks and
//! right clicks on the desktop, beside the cards.
use vstd::prelude::*;
use crate::desktop::{is_face, Model, State};
use crate::layout::hit_test;
use crate::text::{begins_with, has_text, occurs_at, same_text};

verus! {

/// What lies under the pointer: the window of the cards, which gets double clicks itself; another part of
/// the desktop area, which is a window of this program or the desktop of the shell; or neither.
#[derive(Clone, Copy, Debug, PartialEq, Eq, Structural)]
pub enum Part {
    Cards,
    Desktop,
    Elsewhere,
}

/// A text occurs in another.
pub open spec fn has_part(s: Seq<char>, part: Seq<char>) -> bool {
    exists|at: int| occurs_at(s, part, at)
}

/// What a window belongs to, by its process and by the name of its class, where it has one. The menus
/// of this program, and the task bar and the start button of the shell, are not the desktop.
pub open spec fn part_of(valid: bool, pid: u32, own: u32, shell: u32, class: Option<Seq<char>>) -> Part {
    if !valid {
        Part::Elsewhere
    } else if pid == own {
        match class {
            Some(name) => if "#"@.is_prefix_of(name) {
                Part::Elsewhere
            } else if name == "DeskOrgWnd"@ {
                Part::Cards
            } else {
                Part::Desktop
            },
            None => Part::Desktop,
        }
    } else if pid == shell {
        match class {
            Some(name) => if has_part(name, "TrayWnd"@) || name == "Start"@ {
                Part::Elsewhere
            } else {
                Part::Desktop
            },
            None => Part::Desktop,
        }
    } else {
        Part::Elsewhere
    }
}

/// What a window belongs to.
pub fn desktop_part(valid: bool, pid: u32, own: u32, shell: u32, class: Option<&str>) -> (r: Part)
    ensures
        r == part_of(
            valid,
            pid,
            own,
            shell,
            match class {
                Some(name) => Some(name@),
                None => None,
            },
        ),
{
    if !valid {
        return Part::Elsewhere;
    }
    if pid == own {
        if let Some(name) = class {
            if begins_with(name, "#") {
                return Part::Elsewhere;
            }
            if same_text(name, "DeskOrgWnd") {
                return Part::Cards;
            }
        }
        return Part::Desktop;
    }
    if pid == shell {
        if let Some(name) = class {
            if has_text(name, "TrayWnd") || same_text(name, "Start") {
                return Part::Elsewhere;
            }
        }
        return Part::Desktop;
    }
    Part::Elsewhere
}

/// Whether a window belongs to the desktop: to the cards or to what lies below them.
pub fn is_desktop_area(valid: bool, pid: u32, own: u32, shell: u32, class: Option<&str>) -> (r: bool)
    ensures
        r == (part_of(
            valid,
            pid,
            own,
            shell,
            match class {
                Some(name) => Some(name@),
                None => None,
            },
        ) != Part::Elsewhere),
{
    desktop_part(valid, pid, own, shell, class) != Part::Elsewhere
}

/// The last press of the left button: its time, which is zero before the first, and its place.
#[derive(Clone, Copy, Debug, PartialEq, Eq, Structural)]
pub struct Watch {
    pub time: u32,
    pub x: i32,
    pub y: i32,
}

/// A mouse event: its message, where and when it came, and the size of the screen.
#[derive(Clone, Copy, Debug, PartialEq, Eq, Structural)]
pub struct MouseEvent {
    pub message: u32,
    pub x: i32,
    pub y: i32,
    pub time: u32,
    pub sw: i32,
    pub sh: i32,
}

/// The messages for a press of the left and a release of the right button.
pub const LEFT_DOWN: u32 = 0x0201;

pub const RIGHT_UP: u32 = 0x0205;

/// What becomes of an event: it goes on; it goes on, and the cards are hidden or brought back; or it
/// stops here, and the menu of the desktop opens.
#[derive(Clone, Copy, Debug, PartialEq, Eq, Structural)]
pub enum HookAction {
    Pass,
    PassAndToggle,
    SystemMenu,
}

/// The event is on the screen.
pub open spec fn on_main_screen(e: MouseEvent) -> bool {
    0 <= e.x < e.sw && 0 <= e.y < e.sh
}

/// Two coordinates are at most four pixels apart.
pub open spec fn is_near(a: int, b: int) -> bool {
    -4 <= a - b <= 4
}

/// A press follows another one closely enough, in time and in place, for a double click. The clock
/// goes round.
pub open spec fn is_double(last: Watch, e: MouseEvent, span: u32) -> bool {
    &&& last.time != 0
    &&& (e.time - last.time) % 0x1_0000_0000 < span
    &&& is_near(e.x as int, last.x as int)
    &&& is_near(e.y as int, last.y as int)
}

/// The press is remembered.
pub open spec fn watched(last: Watch, e: MouseEvent) -> Watch {
    if e.message == LEFT_DOWN && on_main_screen(e) {
        Watch { time: e.time, x: e.x, y: e.y }
    } else {
        last
    }
}

/// Whether a double click beside all cards is for the hook to answer. Where double clicks hide the
/// cards, the window of the cards answers those that it gets by itself; where they do not, a double
/// click still brings hidden cards back.
pub open spec fn hook_toggles(m: Model, part: Part) -> bool {
    if m.settings.double_click_hide {
        part != Part::Cards
    } else {
        !m.visible
    }
}

/// What becomes of an event on a part of the desktop; `face` is the topmost card at its place. While the
/// cards are hidden, none of them is under it.
pub open spec fn hook_leads_to(
    last: Watch,
    e: MouseEvent,
    part: Part,
    span: u32,
    m: Model,
    face: Option<usize>,
) -> HookAction {
    if m.menu_open || !on_main_screen(e) || part == Part::Elsewhere || (m.visible && face is Some) {
        HookAction::Pass
    } else if e.message == LEFT_DOWN && is_double(last, e, span) && hook_toggles(m, part) {
        HookAction::PassAndToggle
    } else if e.message == RIGHT_UP {
        HookAction::SystemMenu
    } else {
        HookAction::Pass
    }
}

impl Watch {
    /// Nothing was pressed yet.
    pub fn new() -> (r: Watch)
        ensures
            r == (Watch { time: 0, x: i32::MIN, y: i32::MIN }),
    {
        Watch { time: 0, x: i32::MIN, y: i32::MIN }
    }

    /// A mouse event. While a menu is open, events go by unseen.
    pub fn mouse_event(&mut self, e: MouseEvent, part: Part, span: u32, desktop: &State) -> (r: HookAction)
        ensures
            *final(self) == if desktop@.menu_open {
                *old(self)
            } else {
                watched(*old(self), e)
            },
            exists|face: Option<usize>|
                {
                    &&& #[trigger] is_face(face, desktop@.cards, e.x as int, e.y as int)
                    &&& r == hook_leads_to(*old(self), e, part, span, desktop@, face)
                },
    {
        let face: Option<usize> = hit_test(&desktop.cards, e.x, e.y);
        assert(is_face(face, desktop@.cards, e.x as int, e.y as int));
        if desktop.menu_open {
            return HookAction::Pass;
        }
        let last: Watch = *self;
        let on_screen: bool = e.x >= 0 && e.x < e.sw && e.y >= 0 && e.y < e.sh;
        if !on_screen {
            return HookAction::Pass;
        }
        if e.message == LEFT_DOWN {
            self.time = e.time;
            self.x = e.x;
            self.y = e.y;
        }
        if part == Part::Elsewhere || (desktop.visible && face.is_some()) {
            return HookAction::Pass;
        }
        if e.message == LEFT_DOWN {
            let dx: i64 = e.x as i64 - last.x as i64;
            let dy: i64 = e.y as i64 - last.y as i64;
            let passed: u32 = e.time.wrapping_sub(last.time);
            let near: bool = -4 <= dx && dx <= 4 && -4 <= dy && dy <= 4;
            let answers: bool = if desktop.settings.double_click_hide {
                part != Part::Cards
            } else {
                !desktop.visible
            };
            if last.time != 0 && passed < span && near && answers {
                return HookAction::PassAndToggle;
            }
            HookAction::Pass
        } else if e.message == RIGHT_UP {
            HookAction::SystemMenu
        } else {
            HookAction::Pass
        }
    }
}

} // verus!
