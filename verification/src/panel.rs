//! The settings panel: its rows, what they show, and what a click on them does.
use vstd::prelude::*;
use vstd::string::*;
use crate::color::{packed, rgb};
use crate::geometry::max_of;
use crate::paint::{edges, Edges};
use crate::settings::Settings;
use crate::text::{decimal, digits, hexadecimal, padded_hex};

verus! {

/// The number of rows of the panel, the height of a row, and the margin around them.
pub const ROWS: usize = 8;

pub const ROW_H: i32 = 46;

pub const MARGIN: i32 = 10;

/// The row at a height of the panel, where there is one.
pub open spec fn row_at(y: int) -> Option<int> {
    if MARGIN <= y < MARGIN + ROWS * ROW_H {
        Some((y - MARGIN) / (ROW_H as int))
    } else {
        None
    }
}

/// The opacity that follows another one.
pub open spec fn next_alpha(alpha: u8) -> u8 {
    if alpha == 200 {
        180
    } else if alpha == 180 {
        160
    } else if alpha == 160 {
        140
    } else if alpha == 140 {
        120
    } else {
        200
    }
}

/// The number of columns that follows another one.
pub open spec fn next_cols(cols: u32) -> u32 {
    if cols == 3 {
        2
    } else if cols == 2 {
        4
    } else {
        3
    }
}

/// The colour that follows another one.
pub open spec fn next_bg(bg: u32) -> u32 {
    if bg == 0x262A36 {
        0x3A3A4A
    } else if bg == 0x3A3A4A {
        0x4A3A3A
    } else if bg == 0x4A3A3A {
        0x3A4A3A
    } else {
        0x262A36
    }
}

/// The settings after a click on a row; the last row changes none.
pub open spec fn turned(s: Settings, row: int) -> Settings {
    if row == 0 {
        Settings { alpha: next_alpha(s.alpha), ..s }
    } else if row == 1 {
        Settings { double_click_hide: !s.double_click_hide, ..s }
    } else if row == 2 {
        Settings { auto_classify: !s.auto_classify, ..s }
    } else if row == 3 {
        Settings { show_icons: !s.show_icons, ..s }
    } else if row == 4 {
        Settings { card_cols: next_cols(s.card_cols), ..s }
    } else if row == 5 {
        Settings { bg_color: next_bg(s.bg_color), ..s }
    } else if row == 6 {
        Settings { autostart: !s.autostart, ..s }
    } else {
        s
    }
}

/// What a click on the panel leads to: the settings have changed, and are stored and applied; they have
/// changed, and the start with the system is written as well; or the user is asked whether to
/// uninstall.
#[derive(Clone, Copy, Debug, PartialEq, Eq, Structural)]
pub enum PanelAction {
    Nothing,
    Changed,
    ChangedAutostart,
    AskToUninstall,
}

/// What a click at a height of the panel leads to.
pub open spec fn panel_leads_to(y: int) -> PanelAction {
    match row_at(y) {
        Some(row) => if row == 7 {
            PanelAction::AskToUninstall
        } else if row == 6 {
            PanelAction::ChangedAutostart
        } else {
            PanelAction::Changed
        },
        None => PanelAction::Nothing,
    }
}

/// The settings after a click at a height of the panel.
pub open spec fn clicked(s: Settings, y: int) -> Settings {
    match row_at(y) {
        Some(row) => turned(s, row),
        None => s,
    }
}

/// A click at a height of the panel.
pub fn click(settings: &mut Settings, y: i32) -> (r: PanelAction)
    ensures
        r == panel_leads_to(y as int),
        *final(settings) == clicked(*old(settings), y as int),
{
    if y < 10 || y >= 378 {
        PanelAction::Nothing
    } else if y < 56 {
        settings.alpha = match settings.alpha {
            200 => 180,
            180 => 160,
            160 => 140,
            140 => 120,
            _ => 200,
        };
        PanelAction::Changed
    } else if y < 102 {
        settings.double_click_hide = !settings.double_click_hide;
        PanelAction::Changed
    } else if y < 148 {
        settings.auto_classify = !settings.auto_classify;
        PanelAction::Changed
    } else if y < 194 {
        settings.show_icons = !settings.show_icons;
        PanelAction::Changed
    } else if y < 240 {
        settings.card_cols = match settings.card_cols {
            3 => 2,
            2 => 4,
            _ => 3,
        };
        PanelAction::Changed
    } else if y < 286 {
        settings.bg_color = match settings.bg_color {
            0x262A36 => 0x3A3A4A,
            0x3A3A4A => 0x4A3A3A,
            0x4A3A3A => 0x3A4A3A,
            _ => 0x262A36,
        };
        PanelAction::Changed
    } else if y < 332 {
        settings.autostart = !settings.autostart;
        PanelAction::ChangedAutostart
    } else {
        PanelAction::AskToUninstall
    }
}

/// What the user is asked before the program is uninstalled: the title of the question, and its text.
pub fn uninstall_question() -> (r: (String, String))
    ensures
        r.0@ == "卸载确认"@,
        r.1@
            == "确定要卸载吗？\n将删除：开机自启、数据目录（布局/设置/日志）。\n程序 exe 将在重启系统后自动删除。"@,
{
    (
        "卸载确认".to_owned(),
        "确定要卸载吗？\n将删除：开机自启、数据目录（布局/设置/日志）。\n程序 exe 将在重启系统后自动删除。".to_owned(),
    )
}

/// A row of the panel: its box, its label, and its value.
pub struct Row {
    pub area: Edges,
    pub label: String,
    pub value: String,
    pub text_y: i32,
}

/// What the label of a row says.
pub open spec fn row_label(i: int) -> Seq<char> {
    if i == 0 {
        "卡片透明度"@
    } else if i == 1 {
        "双击隐藏"@
    } else if i == 2 {
        "自动分类"@
    } else if i == 3 {
        "显示格式"@
    } else if i == 4 {
        "卡片大小"@
    } else if i == 5 {
        "背景色"@
    } else if i == 6 {
        "开机自启"@
    } else {
        "卸载程序"@
    }
}

/// How a switch is shown.
pub open spec fn switch_text(on: bool) -> Seq<char> {
    if on {
        "开"@
    } else {
        "关"@
    }
}

/// What the value of a row says.
pub open spec fn row_value(i: int, s: Settings) -> Seq<char> {
    if i == 0 {
        digits(s.alpha as int, 10)
    } else if i == 1 {
        switch_text(s.double_click_hide)
    } else if i == 2 {
        switch_text(s.auto_classify)
    } else if i == 3 {
        if s.show_icons {
            "图标"@
        } else {
            "名称"@
        }
    } else if i == 4 {
        if s.card_cols == 2 {
            "大"@
        } else if s.card_cols == 4 {
            "小"@
        } else {
            "中"@
        }
    } else if i == 5 {
        "#"@ + padded_hex(s.bg_color as int, 6)
    } else if i == 6 {
        switch_text(s.autostart)
    } else {
        "点击卸载"@
    }
}

/// The top of a row.
pub open spec fn row_top(i: int) -> int {
    MARGIN + i * ROW_H
}

/// A row of a panel of that width.
pub open spec fn is_row(r: Row, i: int, s: Settings, width: int) -> bool {
    &&& r.area == edges(MARGIN as int, row_top(i), width - MARGIN, row_top(i) + ROW_H - 4)
    &&& r.label@ == row_label(i)
    &&& r.value@ == row_value(i, s)
    &&& r.text_y == row_top(i) + 12
}

/// How a switch is shown.
fn show_switch(on: bool) -> (r: String)
    ensures
        r@ == switch_text(on),
{
    if on {
        "开".to_owned()
    } else {
        "关".to_owned()
    }
}

/// What the label of a row says.
fn label_of_row(i: usize) -> (r: String)
    ensures
        r@ == row_label(i as int),
{
    match i {
        0 => "卡片透明度".to_owned(),
        1 => "双击隐藏".to_owned(),
        2 => "自动分类".to_owned(),
        3 => "显示格式".to_owned(),
        4 => "卡片大小".to_owned(),
        5 => "背景色".to_owned(),
        6 => "开机自启".to_owned(),
        _ => "卸载程序".to_owned(),
    }
}

/// What the value of a row says.
fn value_of_row(i: usize, s: &Settings) -> (r: String)
    ensures
        r@ == row_value(i as int, *s),
{
    match i {
        0 => decimal(s.alpha as u128),
        1 => show_switch(s.double_click_hide),
        2 => show_switch(s.auto_classify),
        3 => if s.show_icons {
            "图标".to_owned()
        } else {
            "名称".to_owned()
        },
        4 => match s.card_cols {
            2 => "大".to_owned(),
            4 => "小".to_owned(),
            _ => "中".to_owned(),
        },
        5 => {
            let mut text: String = "#".to_owned();
            text.append(hexadecimal(s.bg_color, 6).as_str());
            text
        },
        6 => show_switch(s.autostart),
        _ => "点击卸载".to_owned(),
    }
}

/// The colours of the panel: its ground, its rows, their labels, their values, and the hint below.
pub struct PanelColors {
    pub ground: u32,
    pub row: u32,
    pub label: u32,
    pub value: u32,
    pub hint: u32,
}

/// What the panel shows: its colours, its rows, and a hint with its place.
pub struct Panel {
    pub colors: PanelColors,
    pub rows: Vec<Row>,
    pub label_x: i32,
    pub hint: String,
    pub hint_x: i32,
    pub hint_y: i64,
}

/// What the panel shows, in a window of that size.
pub open spec fn is_panel(p: Panel, s: Settings, width: int, height: int) -> bool {
    &&& p.colors.ground == packed(245, 246, 250)
    &&& p.colors.row == packed(255, 255, 255)
    &&& p.colors.label == packed(60, 60, 70)
    &&& p.colors.value == packed(43, 127, 255)
    &&& p.colors.hint == packed(150, 150, 160)
    &&& p.rows@.len() == ROWS
    &&& forall|i: int| 0 <= i < ROWS ==> is_row(#[trigger] p.rows@[i], i, s, width)
    &&& p.label_x == MARGIN + 12
    &&& p.hint@ == "点击各行切换设置"@
    &&& p.hint_x == 16
    &&& p.hint_y == height - 30
}

/// What the panel shows, in a window of that size.
pub fn draw_settings(s: &Settings, width: i32, height: i32) -> (r: Panel)
    ensures
        is_panel(r, *s, width as int, height as int),
{
    let mut rows: Vec<Row> = Vec::new();
    let mut i: usize = 0;
    while i < ROWS
        invariant
            i <= ROWS,
            rows@.len() == i,
            forall|k: int| 0 <= k < i ==> is_row(#[trigger] rows@[k], k, *s, width as int),
        decreases ROWS - i,
    {
        let top: i32 = MARGIN + i as i32 * ROW_H;
        rows.push(
            Row {
                area: Edges {
                    left: MARGIN as i64,
                    top: top as i64,
                    right: width as i64 - MARGIN as i64,
                    bottom: top as i64 + ROW_H as i64 - 4,
                },
                label: label_of_row(i),
                value: value_of_row(i, s),
                text_y: top + 12,
            },
        );
        i += 1;
    }
    Panel {
        colors: PanelColors {
            ground: rgb(245, 246, 250),
            row: rgb(255, 255, 255),
            label: rgb(60, 60, 70),
            value: rgb(43, 127, 255),
            hint: rgb(150, 150, 160),
        },
        rows,
        label_x: MARGIN + 12,
        hint: "点击各行切换设置".to_owned(),
        hint_x: 16,
        hint_y: height as i64 - 30,
    }
}

/// Where the value of a row begins, by the width of its text: it ends at the right, but begins no
/// further left than the panel.
pub fn value_x(width: i32, text_width: i32) -> (r: i64)
    ensures
        r == max_of(width - MARGIN - 12 - text_width, 0),
{
    let x: i64 = width as i64 - MARGIN as i64 - 12 - text_width as i64;
    if x > 0 {
        x
    } else {
        0
    }
}

/// A click on the box of a row is a click on that row.
pub proof fn law_clicks_hit_the_row_that_is_drawn(r: Row, i: int, s: Settings, width: int, y: int)
    requires
        0 <= i < ROWS,
        is_row(r, i, s, width),
        r.area.top <= y < r.area.bottom,
    ensures
        row_at(y) == Some(i),
{
}

/// A click changes at most one setting.
pub proof fn law_a_click_changes_one_setting(s: Settings, y: int)
    ensures
        ({
            let t = clicked(s, y);
            ||| t == (Settings { alpha: t.alpha, ..s })
            ||| t == (Settings { double_click_hide: t.double_click_hide, ..s })
            ||| t == (Settings { auto_classify: t.auto_classify, ..s })
            ||| t == (Settings { show_icons: t.show_icons, ..s })
            ||| t == (Settings { card_cols: t.card_cols, ..s })
            ||| t == (Settings { bg_color: t.bg_color, ..s })
            ||| t == (Settings { autostart: t.autostart, ..s })
        }),
{
}

/// Two clicks on a switch leave it as it was.
pub proof fn law_two_clicks_leave_a_switch(s: Settings, row: int)
    requires
        row == 1 || row == 2 || row == 3 || row == 6,
    ensures
        turned(turned(s, row), row) == s,
        turned(s, row) != s,
{
}

/// The opacities go round: five clicks lead from each back to itself.
pub proof fn law_opacities_go_round(alpha: u8)
    requires
        alpha == 200 || alpha == 180 || alpha == 160 || alpha == 140 || alpha == 120,
    ensures
        next_alpha(next_alpha(next_alpha(next_alpha(next_alpha(alpha))))) == alpha,
        next_alpha(alpha) != alpha,
{
}

/// Any opacity leads into that round.
pub proof fn law_opacities_stay_in_the_round(alpha: u8)
    ensures
        next_alpha(alpha) == 200 || next_alpha(alpha) == 180 || next_alpha(alpha) == 160 || next_alpha(alpha)
            == 140 || next_alpha(alpha) == 120,
{
}

/// The numbers of columns go round: three clicks lead from each back to itself, and any other number
/// leads into that round.
pub proof fn law_columns_go_round(cols: u32)
    ensures
        2 <= next_cols(cols) <= 4,
        2 <= cols <= 4 ==> next_cols(next_cols(next_cols(cols))) == cols,
        next_cols(cols) != cols,
{
}

/// The colours go round: four clicks lead from the default back to it, by three others, and any other
/// colour leads to one of the four.
pub proof fn law_colors_go_round(bg: u32)
    ensures
        next_bg(next_bg(next_bg(next_bg(0x262A36)))) == 0x262A36,
        next_bg(bg) != bg,
        next_bg(bg) == 0x262A36 || next_bg(bg) == next_bg(0x262A36) || next_bg(bg) == next_bg(
            next_bg(0x262A36),
        ) || next_bg(bg) == next_bg(next_bg(next_bg(0x262A36))),
{
}

} // verus!
