use winpoke::error::Error;
use winpoke::locator::{
    collect_resolved, filter_handles_by_class, find_children_by_class_core, require_children,
    WindowInfo, WS_ACTIVECAPTION,
};
use winpoke::style::{WindowStyle, WS_MAXIMIZE};

fn snapshot(hwnd: usize, class_name: &str) -> WindowInfo {
    WindowInfo::from_raw(
        hwnd,
        String::from("caption"),
        String::from(class_name),
        7,
        42,
        (0, 800, 600, 0),
        (10, 790, 590, 10),
        (4, 4),
        WS_ACTIVECAPTION,
        WindowStyle { style: 0, extend_style: 0 },
    )
}

#[test]
fn one_failed_resolution_yields_one_fewer_snapshot() {
    let resolved = vec![
        Some(snapshot(1, "RegEdit_RegEdit")),
        None,
        Some(snapshot(3, "RegEdit_RegEdit")),
    ];
    let infos = collect_resolved(&resolved);
    assert_eq!(infos.len(), 2);
    assert_eq!(infos[0].hwnd, 1);
    assert_eq!(infos[1].hwnd, 3);
}

#[test]
fn no_matching_class_gives_empty_not_error() {
    let candidates = vec![
        (1usize, Some(String::from("Notepad"))),
        (2usize, None),
        (3usize, Some(String::from("Shell_TrayWnd"))),
    ];
    let matches = filter_handles_by_class(&candidates, &String::from("NoSuchClass"));
    assert!(matches.is_empty());
}

#[test]
fn matching_is_exact_and_case_sensitive_and_ordered() {
    let candidates = vec![
        (1usize, Some(String::from("RegEdit_RegEdit"))),
        (2usize, Some(String::from("regedit_regedit"))),
        (3usize, None),
        (4usize, Some(String::from("RegEdit_RegEdit"))),
    ];
    let matches = filter_handles_by_class(&candidates, &String::from("RegEdit_RegEdit"));
    assert_eq!(matches, vec![1, 4]);
}

#[test]
fn child_lookup_fails_only_when_nothing_is_left() {
    let children = vec![snapshot(10, "SysTreeView32"), snapshot(11, "SysListView32")];
    let kept = find_children_by_class_core(&children, &String::from("SysTreeView32")).unwrap();
    assert_eq!(kept.len(), 1);
    assert_eq!(kept[0].hwnd, 10);
    let missing = find_children_by_class_core(&children, &String::from("Edit"));
    assert_eq!(missing.unwrap_err(), Error::WindowNotFound);
}

#[test]
fn empty_child_walk_is_window_not_found() {
    assert_eq!(require_children(vec![]).unwrap_err(), Error::WindowNotFound);
    let children = vec![snapshot(10, "SysTreeView32")];
    assert_eq!(require_children(children).unwrap().len(), 1);
}

#[test]
fn from_raw_fills_every_field() {
    let w = snapshot(99, "RegEdit_RegEdit");
    assert_eq!(w.hwnd, 99);
    assert_eq!(w.caption, "caption");
    assert_eq!(w.class_name, "RegEdit_RegEdit");
    assert_eq!(w.tid, 7);
    assert_eq!(w.pid, 42);
    assert_eq!(w.position, (0, 800, 600, 0));
    assert_eq!(w.client_position, (10, 790, 590, 10));
    assert_eq!(w.border, (4, 4));
    assert!(w.is_active);
    let inactive = WindowInfo::from_raw(
        1,
        String::new(),
        String::new(),
        0,
        0,
        (0, 0, 0, 0),
        (0, 0, 0, 0),
        (0, 0),
        0,
        WindowStyle { style: 0, extend_style: 0 },
    );
    assert!(!inactive.is_active);
}

#[test]
fn is_maximized_reads_the_style_bit() {
    let plain = WindowStyle { style: 0x0010_0000, extend_style: 0 };
    assert!(!plain.is_maximized());
    let maximized = WindowStyle { style: 0x0010_0000 | WS_MAXIMIZE, extend_style: 0 };
    assert!(maximized.is_maximized());
}
