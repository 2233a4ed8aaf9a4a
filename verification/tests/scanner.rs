use desktop_organizer::scanner::{
    classify, count_by_kind, extension_kind, left_out, present, scan_desktop, strip_lowered, strip_suffix,
    DesktopItem, Entry, IconKind,
};

fn entry(name: &str, is_dir: bool) -> Entry {
    let extension = match name.rfind('.') {
        Some(at) if at > 0 => name[at + 1..].to_string(),
        _ => String::new(),
    };
    Entry {
        name: name.to_string(),
        path: format!("C:\\Desktop\\{}", name),
        extension,
        is_dir,
        icon: Some(name.len() as isize),
    }
}

fn names(items: &[DesktopItem]) -> Vec<String> {
    items.iter().map(|i| i.name.clone()).collect()
}

#[test]
fn labels() {
    assert_eq!(IconKind::App.label(), "[应用]");
    assert_eq!(IconKind::Folder.label(), "[文件夹]");
    assert_eq!(IconKind::Document.label(), "[文档]");
    assert_eq!(IconKind::Image.label(), "[图片]");
    assert_eq!(IconKind::Other.label(), "[其他]");
}

#[test]
fn extensions_give_the_kind() {
    for e in ["lnk", "exe", "appref-ms", "LNK", "Exe"] {
        assert_eq!(classify(e), IconKind::App);
    }
    for e in ["doc", "docx", "pdf", "txt", "xls", "xlsx", "ppt", "pptx", "md", "csv", "PDF"] {
        assert_eq!(classify(e), IconKind::Document);
    }
    for e in ["png", "jpg", "jpeg", "gif", "bmp", "webp", "ico", "PNG"] {
        assert_eq!(classify(e), IconKind::Image);
    }
    for e in ["", "zip", "rs"] {
        assert_eq!(classify(e), IconKind::Other);
    }
    assert_eq!(extension_kind("PDF"), IconKind::Other);
}

#[test]
fn case_does_not_matter() {
    for e in ["lnk", "appref-ms", "docx", "csv", "jpeg", "ico", "zip", ""] {
        assert_eq!(classify(e), classify(&e.to_ascii_uppercase()));
    }
}

#[test]
fn suffixes_of_applications_are_dropped() {
    assert_eq!(strip_suffix("Editor.lnk", IconKind::App).as_deref(), Some("Editor"));
    assert_eq!(strip_suffix("Editor.EXE", IconKind::App).as_deref(), Some("Editor"));
    assert_eq!(strip_suffix("工具.appref-ms", IconKind::App).as_deref(), Some("工具"));
    assert_eq!(strip_suffix("a.exe.lnk", IconKind::App).as_deref(), Some("a.exe"));
    assert_eq!(strip_suffix("notes.txt", IconKind::App).as_deref(), Some("notes.txt"));
    assert_eq!(strip_suffix("Editor.lnk", IconKind::Folder).as_deref(), Some("Editor.lnk"));
    assert_eq!(strip_lowered("A.LNK", "a.lnk", IconKind::App), "A");
}

#[test]
fn names_that_shrink_in_lower_case_are_cut_by_their_own_length() {
    // The Kelvin sign takes three bytes, and its lower case one: four bytes are cut from the name.
    assert_eq!("x.ln\u{212A}".to_lowercase(), "x.lnk");
    assert_eq!(strip_suffix("x.ln\u{212A}", IconKind::App).as_deref(), Some("x.l"));
    let e = Entry {
        name: "x.ln\u{212A}".to_string(),
        path: String::new(),
        extension: "ln\u{212A}".to_string(),
        is_dir: false,
        icon: None,
    };
    let item = present(&e).unwrap();
    assert_eq!(item.kind, IconKind::App);
    assert_eq!(item.display_name, "x.l");
}

#[test]
fn some_entries_are_left_out() {
    assert!(left_out("desktop.ini"));
    assert!(left_out("Desktop.INI"));
    assert!(left_out(".hidden"));
    assert!(!left_out("desktop.ini.txt"));
    assert!(!left_out("a.txt"));
}

#[test]
fn the_desktop_is_listed_by_label_and_name() {
    let entries = vec![
        entry("b.lnk", false),
        entry("desktop.ini", false),
        entry("a.txt", false),
        entry("Photos", true),
        entry("a.lnk", false),
        entry(".git", true),
        entry("pic.PNG", false),
        entry("data.bin", false),
    ];
    let items = scan_desktop(&entries).unwrap();
    let mut expected: Vec<(&str, &str)> = vec![
        ("[应用]", "b.lnk"),
        ("[文档]", "a.txt"),
        ("[文件夹]", "Photos"),
        ("[应用]", "a.lnk"),
        ("[图片]", "pic.PNG"),
        ("[其他]", "data.bin"),
    ];
    expected.sort();
    let expected: Vec<String> = expected.iter().map(|e| e.1.to_string()).collect();
    assert_eq!(names(&items), expected);
    for i in &items {
        assert_eq!(i.path, format!("C:\\Desktop\\{}", i.name));
        assert_eq!(i.icon, Some(i.name.len() as isize));
    }
    let a = items.iter().find(|i| i.name == "a.lnk").unwrap();
    assert_eq!(a.display_name, "a");
    assert_eq!(a.kind, IconKind::App);
    let p = items.iter().find(|i| i.name == "Photos").unwrap();
    assert_eq!(p.kind, IconKind::Folder);
    assert_eq!(p.display_name, "Photos");
}

#[test]
fn entries_of_one_name_keep_their_order() {
    let mut first = entry("a.lnk", false);
    first.path = "user".to_string();
    let mut second = entry("a.lnk", false);
    second.path = "public".to_string();
    let items = scan_desktop(&[first, second]).unwrap();
    assert_eq!(items[0].path, "user");
    assert_eq!(items[1].path, "public");
}

#[test]
fn counts_do_not_depend_on_order() {
    let entries = vec![entry("b.lnk", false), entry("c.md", false), entry("a.exe", false), entry("x", true)];
    let mut items = scan_desktop(&entries).unwrap();
    let counts = count_by_kind(&items);
    items.reverse();
    assert_eq!(count_by_kind(&items), counts);
}

#[test]
fn kinds_are_counted() {
    let entries =
        vec![entry("b.lnk", false), entry("a.exe", false), entry("x", true), entry("c.md", false), entry("d", false)];
    let items = scan_desktop(&entries).unwrap();
    assert_eq!(
        count_by_kind(&items),
        [
            (IconKind::App, 2),
            (IconKind::Folder, 1),
            (IconKind::Document, 1),
            (IconKind::Image, 0),
            (IconKind::Other, 1)
        ]
    );
    assert_eq!(count_by_kind(&[]).iter().map(|c| c.1).sum::<usize>(), 0);
}
