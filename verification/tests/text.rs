use desktop_organizer::text::{
    begins_with, decimal, ends_with, has_text, hexadecimal, same_text, same_text_but_case, text_not_after,
};

#[test]
fn numerals_are_written_like_the_standard_ones() {
    for n in [0u128, 7, 10, 99, 100, 12345678901234567890] {
        assert_eq!(decimal(n), n.to_string());
    }
}

#[test]
fn hexadecimal_is_padded() {
    for n in [0u32, 0x262A36, 0xA, 0xFFFFFFFF] {
        assert_eq!(hexadecimal(n, 6), format!("{:06X}", n));
    }
}

#[test]
fn texts_are_compared_by_characters() {
    assert!(same_text("桌面", "桌面"));
    assert!(!same_text("桌面", "桌"));
    assert!(begins_with("新分区3", "新分区"));
    assert!(!begins_with("分区", "新分区"));
    assert!(ends_with("a.lnk", ".lnk"));
    assert!(!ends_with("lnk", ".lnk"));
    assert!(has_text("Shell_TrayWnd", "TrayWnd"));
    assert!(!has_text("Shell", "TrayWnd"));
    assert!(has_text("abc", ""));
}

#[test]
fn case_is_ignored_for_ascii_letters_only() {
    assert!(same_text_but_case("Desktop.INI", "desktop.ini"));
    assert!(!same_text_but_case("Desktop.INI", "desktop.in"));
    assert!(!same_text_but_case("É", "é"));
}

#[test]
fn order_agrees_with_the_standard_one() {
    let words = ["", "a", "ab", "b", "B", "[图片]", "[应用]", "[文档]", "ä", "z"];
    for a in words {
        for b in words {
            assert_eq!(text_not_after(a, b), a <= b, "{} {}", a, b);
        }
    }
}
