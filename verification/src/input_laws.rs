//! What clicks beside the cards, the settings panel and the messages of the system are for.
use vstd::prelude::*;
use crate::hook::{hook_leads_to, is_double, part_of, watched, HookAction, MouseEvent, Part, Watch};
use crate::desktop::Model;
use crate::launch::{is_report, kinds_line, mode_of, number_in, signed_half, Mode};
use crate::layout_laws::law_each_item_is_on_one_card;
use crate::list_laws::{law_hexadecimals_stand_for_their_numbers, law_numerals_stand_for_their_numbers, read_back};
use crate::panel::{
    clicked, is_row, next_alpha, next_bg, next_cols, panel_leads_to, row_at, row_top, row_value, turned, PanelAction, Row,
};
use crate::scanner::{count_kind, label_text, DesktopItem, IconKind};
use crate::settings::{loaded, Settings};
use crate::text::{digits, padded_hex};

verus! {

/// A press is remembered, with its time and its place, if and only if it is one of the left button and on the
/// screen.
pub proof fn law_presses_are_remembered(last: Watch, e: MouseEvent)
    ensures
        e.message == 0x0201 && 0 <= e.x < e.sw && 0 <= e.y < e.sh ==> watched(last, e).time == e.time && watched(
            last,
            e,
        ).x == e.x && watched(last, e).y == e.y,
        !(e.message == 0x0201 && 0 <= e.x < e.sw && 0 <= e.y < e.sh) ==> watched(last, e) == last,
{
}

/// Two presses make a double click if and only if there was a first one, the second comes less than the span
/// of time after it, on a clock that goes round, and it is at most four pixels away along either axis.
pub proof fn law_double_clicks_are_close_in_time_and_place(last: Watch, e: MouseEvent, span: u32)
    ensures
        is_double(last, e, span) <==> {
            &&& last.time != 0
            &&& if e.time >= last.time {
                e.time - last.time < span
            } else {
                e.time + 0x1_0000_0000 - last.time < span
            }
            &&& last.x - 4 <= e.x <= last.x + 4
            &&& last.y - 4 <= e.y <= last.y + 4
        },
{
}

/// The hook lets an event pass unless it is on the screen and on the desktop, beside all cards that show, and
/// no menu is open. Then a right click opens the menu of the desktop, and only that event stops there.
pub proof fn law_right_clicks_beside_the_cards_open_the_menu(
    last: Watch,
    e: MouseEvent,
    part: Part,
    span: u32,
    m: Model,
    face: Option<usize>,
)
    ensures
        hook_leads_to(last, e, part, span, m, face) == HookAction::SystemMenu <==> {
            &&& e.message == 0x0205
            &&& 0 <= e.x < e.sw && 0 <= e.y < e.sh
            &&& part != Part::Elsewhere
            &&& !m.menu_open
            &&& !(m.visible && face is Some)
        },
{
}

/// The hook toggles only at a double click on the desktop, beside all cards that show, while no menu is open;
/// never for the window of the cards where that answers itself, and never to hide cards where that is switched
/// off.
pub proof fn law_the_hook_toggles_only_for_double_clicks(
    last: Watch,
    e: MouseEvent,
    part: Part,
    span: u32,
    m: Model,
    face: Option<usize>,
)
    ensures
        hook_leads_to(last, e, part, span, m, face) == HookAction::PassAndToggle <==> {
            &&& e.message == 0x0201
            &&& is_double(last, e, span)
            &&& 0 <= e.x < e.sw && 0 <= e.y < e.sh
            &&& part != Part::Elsewhere
            &&& !m.menu_open
            &&& !(m.visible && face is Some)
            &&& if m.settings.double_click_hide {
                part == Part::Desktop
            } else {
                !m.visible
            }
        },
{
}

/// A window is part of the desktop only if it belongs to this program or to the shell. The menus of this
/// program are not, and of the shell the task bars and the start button are not.
pub proof fn law_the_desktop_is_ours_and_the_shells(
    valid: bool,
    pid: u32,
    own: u32,
    shell: u32,
    class: Option<Seq<char>>,
)
    ensures
        part_of(valid, pid, own, shell, class) != Part::Elsewhere ==> valid && (pid == own || pid == shell),
        part_of(valid, pid, own, shell, class) == Part::Cards <==> valid && pid == own && class is Some && class->0
            == "DeskOrgWnd"@,
        valid && pid == own ==> (part_of(valid, pid, own, shell, class) == Part::Elsewhere <==> class is Some
            && class->0.len() > 0 && class->0[0] == '#'),
        valid && pid == shell && pid != own ==> (part_of(valid, pid, own, shell, class) == Part::Elsewhere
            <==> class is Some && (class->0 == "Start"@ || exists|at: int|
            0 <= at && at + 7 <= class->0.len() && #[trigger] class->0.subrange(at, at + 7) == "TrayWnd"@)),
{
    reveal_strlit("#");
    reveal_strlit("TrayWnd");
    reveal_strlit("DeskOrgWnd");
    if let Some(name) = class {
        if "#"@.is_prefix_of(name) {
            assert(name.subrange(0, 1)[0] == name[0]);
        }
        if name.len() > 0 && name[0] == '#' {
            assert(name.subrange(0, 1) =~= "#"@);
        }
        if exists|at: int| 0 <= at && at + 7 <= name.len() && #[trigger] name.subrange(at, at + 7) == "TrayWnd"@ {
            let at = choose|at: int|
                0 <= at && at + 7 <= name.len() && #[trigger] name.subrange(at, at + 7) == "TrayWnd"@;
            assert(crate::text::occurs_at(name, "TrayWnd"@, at));
        }
        if crate::hook::has_part(name, "TrayWnd"@) {
            let at = choose|at: int| crate::text::occurs_at(name, "TrayWnd"@, at);
            assert(name.subrange(at, at + 7) == "TrayWnd"@);
        }
    }
}

/// The rows of the panel are 46 pixels high, from ten pixels below the top on, and there are eight of them.
pub proof fn law_rows_lie_below_each_other(y: int, i: int)
    ensures
        row_at(y) == Some(i) ==> 0 <= i < 8 && row_top(i) <= y < row_top(i) + 46,
        0 <= i < 8 && 10 + 46 * i <= y < 56 + 46 * i ==> row_at(y) == Some(i),
        y < 10 || y >= 378 ==> row_at(y) is None && panel_leads_to(y) == PanelAction::Nothing,
{
}

/// A click on the row of a setting changes what that row shows, and what no other row shows: the panel shows
/// the settings as they are. Only the last row shows no setting. The colours are those of the panel's round,
/// or any other of six digits.
pub proof fn law_clicks_change_what_their_row_shows(s: Settings, i: int, j: int)
    requires
        0 <= i < 7,
        0 <= j < 8,
        j != i,
    ensures
        row_value(i, turned(s, i)) != row_value(i, s) || i == 4,
        row_value(j, turned(s, i)) == row_value(j, s),
        i == 4 && 2 <= s.card_cols <= 4 ==> row_value(i, turned(s, i)) != row_value(i, s),
{
    reveal_strlit("开");
    reveal_strlit("关");
    reveal_strlit("图标");
    reveal_strlit("名称");
    reveal_strlit("大");
    reveal_strlit("小");
    reveal_strlit("中");
    assert("开"@[0] != "关"@[0]);
    assert("图标"@[0] != "名称"@[0]);
    assert("大"@[0] != "小"@[0] && "大"@[0] != "中"@[0] && "小"@[0] != "中"@[0]);
    if i == 0 {
        law_numerals_stand_for_their_numbers(s.alpha as int, 10);
        law_numerals_stand_for_their_numbers(next_alpha(s.alpha) as int, 10);
        assert(next_alpha(s.alpha) != s.alpha);
    }
    if i == 5 {
        let a = padded_hex(s.bg_color as int, 6);
        let b = padded_hex(next_bg(s.bg_color) as int, 6);
        law_hexadecimals_stand_for_their_numbers(s.bg_color as int, 6);
        law_hexadecimals_stand_for_their_numbers(next_bg(s.bg_color) as int, 6);
        assert(next_bg(s.bg_color) != s.bg_color);
        assert(a != b);
        if "#"@ + a == "#"@ + b {
            assert(("#"@ + a).skip("#"@.len() as int) =~= a);
            assert(("#"@ + b).skip("#"@.len() as int) =~= b);
        }
    }
}

/// A row shows the setting that it is for: the number of the opacity, the digits of the colour, and for a switch
/// one text when it is on and another when it is off.
pub proof fn law_rows_show_their_settings(s: Settings, t: Settings)
    ensures
        read_back(row_value(0, s), 10) == s.alpha,
        row_value(5, s).len() >= 7 && row_value(5, s)[0] == '#' && read_back(row_value(5, s).skip(1), 16)
            == s.bg_color,
        row_value(1, s) == row_value(1, t) <==> s.double_click_hide == t.double_click_hide,
        row_value(2, s) == row_value(2, t) <==> s.auto_classify == t.auto_classify,
        row_value(3, s) == row_value(3, t) <==> s.show_icons == t.show_icons,
        row_value(6, s) == row_value(6, t) <==> s.autostart == t.autostart,
        s.double_click_hide == t.autostart ==> row_value(1, s) == row_value(6, t),
        s.auto_classify == t.autostart ==> row_value(2, s) == row_value(6, t),
{
    reveal_strlit("开");
    reveal_strlit("关");
    reveal_strlit("图标");
    reveal_strlit("名称");
    reveal_strlit("#");
    assert("开"@[0] != "关"@[0]);
    assert("图标"@[0] != "名称"@[0]);
    law_numerals_stand_for_their_numbers(s.alpha as int, 10);
    law_hexadecimals_stand_for_their_numbers(s.bg_color as int, 6);
    assert(row_value(5, s).skip(1) =~= padded_hex(s.bg_color as int, 6));
}

/// A click on a row changes the setting that the row is for and no other: the opacity, the double click, the
/// sorting, the icons, the columns, the colour, the start with the system, in this order from the top. Only the
/// start with the system is written outside as well, and only the last row asks whether to uninstall.
pub proof fn law_rows_change_their_settings(s: Settings, y: int)
    ensures
        10 <= y < 56 ==> clicked(s, y) == (Settings { alpha: clicked(s, y).alpha, ..s }) && clicked(s, y).alpha
            != s.alpha,
        56 <= y < 102 ==> clicked(s, y) == (Settings { double_click_hide: !s.double_click_hide, ..s }),
        102 <= y < 148 ==> clicked(s, y) == (Settings { auto_classify: !s.auto_classify, ..s }),
        148 <= y < 194 ==> clicked(s, y) == (Settings { show_icons: !s.show_icons, ..s }),
        194 <= y < 240 ==> clicked(s, y) == (Settings { card_cols: clicked(s, y).card_cols, ..s }) && clicked(
            s,
            y,
        ).card_cols != s.card_cols,
        240 <= y < 286 ==> clicked(s, y) == (Settings { bg_color: clicked(s, y).bg_color, ..s }) && clicked(
            s,
            y,
        ).bg_color != s.bg_color,
        286 <= y < 332 ==> clicked(s, y) == (Settings { autostart: !s.autostart, ..s }),
        y < 10 || 332 <= y ==> clicked(s, y) == s,
        panel_leads_to(y) == PanelAction::ChangedAutostart <==> 286 <= y < 332,
        panel_leads_to(y) == PanelAction::AskToUninstall <==> 332 <= y < 378,
        panel_leads_to(y) == PanelAction::Changed <==> 10 <= y < 286,
{
}

/// The opacities go down by twenty from 200 to 120 and begin again; the columns go from three to two, four and
/// three again.
pub proof fn law_rounds_of_the_panel(alpha: u8, cols: u32)
    ensures
        next_alpha(alpha) == alpha - 20 || next_alpha(alpha) == 200,
        next_alpha(alpha) == alpha - 20 <==> alpha == 140 || alpha == 160 || alpha == 180 || alpha == 200 || alpha
            == 220,
        next_cols(3) == 2,
        next_cols(2) == 4,
        cols != 2 && cols != 3 ==> next_cols(cols) == 3,
{
}

/// Settings that were stored are those that are loaded; without any, the default ones are.
pub proof fn law_stored_settings_are_loaded(s: Settings)
    ensures
        loaded(Some(s)) == s,
        loaded(None).alpha == 200,
        loaded(None).double_click_hide && loaded(None).auto_classify && !loaded(None).show_icons,
        loaded(None).card_cols == 3,
        loaded(None).bg_color == 0x262A36,
        !loaded(None).autostart,
{
}

/// Sixteen bits with a sign: the number is the same up to a multiple of two to the sixteenth, and it is small
/// on either side of zero.
pub proof fn law_sixteen_bits_have_a_sign(v: int)
    requires
        0 <= v < 0x1_0000,
    ensures
        -0x8000 <= signed_half(v) < 0x8000,
        (signed_half(v) - v) % 0x1_0000 == 0,
{
}

/// A number is read as the decimal that it is: of a single digit the digit, and of more ten times what stands in
/// front and the last. Nothing but digits, after a plus sign or without, is a number, and none beyond 32 bits.
pub proof fn law_numbers_are_decimal(s: Seq<char>, c: char)
    requires
        48 <= c as u32 <= 57,
        s.len() > 0,
        s[0] != '+',
        number_in(s) is Some,
        10 * number_in(s)->0 + (c as u32 - 48) <= u32::MAX,
    ensures
        number_in(s.push(c)) is Some,
        number_in(s.push(c))->0 == 10 * number_in(s)->0 + (c as u32 - 48),
        number_in(seq!['+'] + s) == number_in(s),
        number_in(Seq::<char>::empty()) is None,
{
    let t = s.push(c);
    assert(t.drop_last() =~= s);
    assert(crate::launch::digit_part(t) == t);
    assert(crate::launch::digit_part(s) == s);
    assert forall|i: int| 0 <= i < t.len() implies crate::launch::is_digit(#[trigger] t[i]) by {
        if i < s.len() {
            assert(t[i] == s[i]);
        }
    }
    crate::launch::lemma_value_grows(s, s.len() as int);
    crate::launch::lemma_value_grows(t, t.len() as int);
    assert(s.take(s.len() as int) =~= s);
    assert((seq!['+'] + s).skip(1) =~= s);
}

/// The program uninstalls itself, looks after a process, or runs: by its first argument, and by nothing else.
pub proof fn law_modes_go_by_the_first_argument(args: Seq<Seq<char>>)
    ensures
        args.len() >= 2 && args[1] == "--uninstall"@ <==> mode_of(args) == Mode::Uninstall,
        mode_of(args) is Watchdog ==> args.len() >= 3 && args[1] == "--watchdog"@,
        args.len() >= 3 && args[1] == "--watchdog"@ ==> mode_of(args) is Watchdog,
        args.len() < 2 ==> mode_of(args) == Mode::Run,
{
    reveal_strlit("--uninstall");
    reveal_strlit("--watchdog");
    assert("--watchdog"@[2] != "--uninstall"@[2]);
}

/// The report of a scan tells how many items there are, how many of each kind, and how many each card holds, in the
/// order of the kinds.
pub proof fn law_reports_tell_the_numbers(lines: Seq<String>, items: Seq<DesktopItem>)
    requires
        is_report(lines, items),
        items.len() <= usize::MAX,
    ensures
        lines.len() == 9,
        lines[1]@ == "共 "@ + digits(items.len() as int, 10) + " 个项"@,
        lines[2]@ == "分类: "@ + label_text(IconKind::App) + digits(count_kind(items, IconKind::App), 10) + " "@
            + label_text(IconKind::Folder) + digits(count_kind(items, IconKind::Folder), 10) + " "@ + label_text(
            IconKind::Document,
        ) + digits(count_kind(items, IconKind::Document), 10) + " "@ + label_text(IconKind::Image) + digits(
            count_kind(items, IconKind::Image),
            10,
        ) + " "@ + label_text(IconKind::Other) + digits(count_kind(items, IconKind::Other), 10) + " "@,
        lines[3]@ == "  分区"@ + digits(1, 10) + ": "@ + "应用"@ + " "@ + digits(
            count_kind(items, IconKind::App),
            10,
        ) + " 个"@,
        lines[4]@ == "  分区"@ + digits(2, 10) + ": "@ + "文件夹"@ + " "@ + digits(
            count_kind(items, IconKind::Folder),
            10,
        ) + " 个"@,
        lines[5]@ == "  分区"@ + digits(3, 10) + ": "@ + "文档"@ + " "@ + digits(
            count_kind(items, IconKind::Document),
            10,
        ) + " 个"@,
        lines[6]@ == "  分区"@ + digits(4, 10) + ": "@ + "图片"@ + " "@ + digits(
            count_kind(items, IconKind::Image),
            10,
        ) + " 个"@,
        lines[7]@ == "  分区"@ + digits(5, 10) + ": "@ + "其他"@ + " "@ + digits(
            count_kind(items, IconKind::Other),
            10,
        ) + " 个"@,
{
    reveal_with_fuel(kinds_line, 6);
    law_each_item_is_on_one_card(items, IconKind::App);
    law_each_item_is_on_one_card(items, IconKind::Folder);
    law_each_item_is_on_one_card(items, IconKind::Document);
    law_each_item_is_on_one_card(items, IconKind::Image);
    law_each_item_is_on_one_card(items, IconKind::Other);
    assert(lines[3] == lines[3 + 0int] && lines[4] == lines[3 + 1int] && lines[5] == lines[3 + 2int] && lines[6]
        == lines[3 + 3int] && lines[7] == lines[3 + 4int]);
}

/// A row of the panel is a box of its width, ten pixels from either side, 42 pixels high, with its texts within.
pub proof fn law_rows_fill_the_width(r: Row, i: int, s: Settings, width: i32)
    requires
        is_row(r, i, s, width as int),
        0 <= i < 8,
    ensures
        r.area.left == 10,
        r.area.right == width - 10,
        r.area.top == 10 + 46 * i,
        r.area.bottom == r.area.top + 42,
        r.area.top < r.text_y < r.area.bottom,
{
}

} // verus!
