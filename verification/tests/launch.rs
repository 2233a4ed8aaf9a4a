use desktop_organizer::launch::{
    chosen_command, leads_elsewhere, lparam_x, lparam_y, parse_number, report, start_command, start_mode,
    text_len, watchdog_args, wheel_delta, Mode,
};
use desktop_organizer::scanner::{DesktopItem, IconKind};

fn args(a: &[&str]) -> Vec<String> {
    a.iter().map(|s| s.to_string()).collect()
}

#[test]
fn numbers_are_read_like_the_standard_ones() {
    for s in
        ["", "0", "7", "+7", "-7", "+", "++1", "4294967295", "4294967296", "00012", "1 ", "12a", "９", "99999999999999999999"]
    {
        assert_eq!(parse_number(s), s.parse::<u32>().ok(), "{}", s);
    }
}

#[test]
fn arguments_give_the_mode() {
    assert_eq!(start_mode(&args(&["x"])), Mode::Run);
    assert_eq!(start_mode(&[]), Mode::Run);
    assert_eq!(start_mode(&args(&["x", "--uninstall"])), Mode::Uninstall);
    assert_eq!(start_mode(&args(&["x", "--watchdog"])), Mode::Run);
    assert_eq!(start_mode(&args(&["x", "--watchdog", "123"])), Mode::Watchdog(123));
    assert_eq!(start_mode(&args(&["x", "--watchdog", "abc"])), Mode::Watchdog(0));
    assert_eq!(start_mode(&args(&["--uninstall"])), Mode::Run);
}

#[test]
fn watchdogs_get_their_process() {
    for pid in [0, 1, 4096, u32::MAX] {
        let (flag, number) = watchdog_args(pid);
        assert_eq!(start_mode(&["x".to_string(), flag, number]), Mode::Watchdog(pid));
    }
}

#[test]
fn paths_are_quoted() {
    assert_eq!(start_command("C:\\a b\\c.exe"), "\"C:\\a b\\c.exe\"");
}

#[test]
fn messages_carry_numbers() {
    for word in [0u32, 1, 0x7fff, 0x8000, 0xffff, 0x1_0000, 0x7fff_0003, 0x8000_fffe, 0xffff_ffff] {
        assert_eq!(lparam_x(word), (word & 0xffff) as u16 as i16 as i32);
        assert_eq!(lparam_y(word), (word >> 16) as u16 as i16 as i32);
        assert_eq!(wheel_delta(word), (word >> 16) as u16 as i16);
    }
}

#[test]
fn commands_are_counted_from_zero() {
    assert_eq!(chosen_command(0), None);
    assert_eq!(chosen_command(1), Some(0));
    assert_eq!(chosen_command(0x7fff), Some(0x7ffe));
    assert_eq!(chosen_command(0x8000), None);
}

#[test]
fn links_lead_elsewhere() {
    assert!(leads_elsewhere("lnk"));
    assert!(leads_elsewhere("LNK"));
    assert!(!leads_elsewhere("exe"));
    assert!(!leads_elsewhere(""));
}

#[test]
fn texts_end_at_zero() {
    assert_eq!(text_len(&[]), None);
    assert_eq!(text_len(&[0, 5]), None);
    assert_eq!(text_len(&[5, 6, 0, 7]), Some(2));
    assert_eq!(text_len(&[5, 6]), Some(2));
}

#[test]
fn scans_are_reported() {
    let items: Vec<DesktopItem> = [IconKind::App, IconKind::App, IconKind::Image]
        .iter()
        .map(|k| DesktopItem {
            name: String::new(),
            display_name: String::new(),
            kind: *k,
            path: String::new(),
            icon: None,
        })
        .collect();
    assert_eq!(
        report(&items),
        vec![
            "=== 桌面图标扫描结果 ===",
            "共 3 个项",
            "分类: [应用]2 [文件夹]0 [文档]0 [图片]1 [其他]0 ",
            "  分区1: 应用 2 个",
            "  分区2: 文件夹 0 个",
            "  分区3: 文档 0 个",
            "  分区4: 图片 1 个",
            "  分区5: 其他 0 个",
            "=========================",
        ]
    );
}
