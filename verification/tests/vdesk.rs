//! The virtual-desktop slot model.

use kimi::vdesk::{ensure_virtual_desktops_exist, VirtualDesktops, WindowRecord};

fn slots(count: usize, current: usize, max_slots: usize) -> VirtualDesktops {
    VirtualDesktops {
        count,
        current,
        max_slots,
        windows: Vec::new(),
    }
}

fn win(hwnd: isize, title: &str, pid: u32, visible: bool, desk: Option<usize>) -> WindowRecord {
    WindowRecord {
        hwnd,
        title: title.to_string(),
        process_id: pid,
        visible,
        desktop_index: desk,
    }
}

#[test]
fn counts_and_switching() {
    let mut v = slots(3, 0, 8);
    assert_eq!(v.get_desktop_count().unwrap(), 3);
    assert_eq!(v.get_current_desktop().unwrap(), 0);
    v.switch_to_desktop(2).unwrap();
    assert_eq!(v.get_current_desktop().unwrap(), 2);
    assert!(v.switch_to_desktop(3).is_err());
    assert_eq!(v.get_current_desktop().unwrap(), 2);
}

#[test]
fn create_and_remove() {
    let mut v = slots(1, 0, 3);
    assert_eq!(v.create_desktop().unwrap(), 1);
    assert_eq!(v.create_desktop().unwrap(), 2);
    assert!(v.create_desktop().is_err());
    assert_eq!(v.count, 3);

    v.switch_to_desktop(2).unwrap();
    v.remove_current_desktop().unwrap();
    assert_eq!(v.count, 2);
    assert_eq!(v.current, 1);

    v.remove_current_desktop().unwrap();
    let err = v.remove_current_desktop().unwrap_err();
    assert_eq!(err, "Cannot remove the last virtual desktop");
    assert_eq!(v.count, 1);
}

#[test]
fn left_right_stick_at_edges() {
    let mut v = slots(3, 0, 8);
    assert_eq!(v.switch_left().unwrap(), 0);
    assert_eq!(v.switch_right().unwrap(), 1);
    assert_eq!(v.switch_right().unwrap(), 2);
    assert_eq!(v.switch_right().unwrap(), 2);
    assert_eq!(v.switch_left().unwrap(), 1);
}

#[test]
fn ensure_grows_to_required() {
    let mut v = slots(1, 0, 8);
    ensure_virtual_desktops_exist(&mut v, 4).unwrap();
    assert_eq!(v.count, 4);
    assert_eq!(v.current, 0);
}

#[test]
fn ensure_is_idempotent_once_enough_exist() {
    let mut v = slots(5, 2, 8);
    ensure_virtual_desktops_exist(&mut v, 4).unwrap();
    assert_eq!(v.count, 5);
    assert_eq!(v.current, 2);
    // a second call with the same requirement performs no creation
    ensure_virtual_desktops_exist(&mut v, 4).unwrap();
    assert_eq!(v.count, 5);
    assert_eq!(v.current, 2);
}

#[test]
fn ensure_reports_shortfall() {
    let mut v = slots(1, 0, 3);
    let err = v.ensure_desktops_exist(5).unwrap_err();
    assert_eq!(
        err,
        "Could not create a virtual desktop. Needed: 5, have: 3"
    );
    assert_eq!(v.count, 3);
}

#[test]
fn enumerate_filters_hidden_and_untitled() {
    let mut v = slots(2, 0, 4);
    v.windows.push(win(10, "Editor", 100, true, Some(0)));
    v.windows.push(win(11, "", 101, true, Some(0)));
    v.windows.push(win(12, "Hidden", 102, false, Some(1)));
    v.windows.push(win(13, "Browser", 103, true, Some(1)));
    let ws = v.enumerate_windows().unwrap();
    let titles: Vec<String> = ws.iter().map(|w| w.title.clone()).collect();
    assert_eq!(titles, vec!["Editor".to_string(), "Browser".to_string()]);
}

#[test]
fn windows_on_current_desktop() {
    let mut v = slots(2, 1, 4);
    v.windows.push(win(10, "Editor", 100, true, Some(0)));
    v.windows.push(win(13, "Browser", 103, true, Some(1)));
    v.windows.push(win(14, "Mail", 104, true, None));
    let ws = v.get_windows_on_current_desktop().unwrap();
    assert_eq!(ws.len(), 1);
    assert_eq!(ws[0].title, "Browser");
}

#[test]
fn window_queries_and_moving() {
    let mut v = slots(3, 0, 4);
    v.windows.push(win(10, "Editor", 100, true, Some(0)));
    v.windows.push(win(14, "Mail", 104, true, None));

    assert_eq!(v.get_window_desktop(10).unwrap(), 0);
    assert!(v.get_window_desktop(14).is_err());
    assert!(v.get_window_desktop(99).is_err());

    assert!(v.is_on_current_desktop(10).unwrap());
    v.move_window(10, 2).unwrap();
    assert_eq!(v.get_window_desktop(10).unwrap(), 2);
    assert!(!v.is_on_current_desktop(10).unwrap());

    assert!(v.move_window(10, 9).is_err());
    assert!(v.move_window(99, 1).is_err());
}
