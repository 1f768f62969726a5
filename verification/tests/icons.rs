//! Grid snapping, capture, restore and the readiness policy.

use kimi::icons::{
    disable_desktop_auto_arrange, get_current_icon_positions, icon_retry_policy,
    restore_icon_positions, wait_for_icons, DesktopIconView, ViewItem, WaitDecision,
    FVM_ICON, FWF_AUTOARRANGE, FWF_SNAPTOGRID,
};
use kimi::layout::{snap_to_grid, DesktopIconsLayout, IconEntry, IconPosition};

fn view_of(items: &[(&str, i32, i32)]) -> DesktopIconView {
    DesktopIconView {
        items: items
            .iter()
            .map(|(n, x, y)| ViewItem {
                name: n.to_string(),
                x: *x,
                y: *y,
            })
            .collect(),
        folder_flags: FWF_AUTOARRANGE | FWF_SNAPTOGRID,
        view_mode: 0,
    }
}

fn layout_of(entries: &[(&str, i32, i32)]) -> DesktopIconsLayout {
    DesktopIconsLayout {
        icons: entries
            .iter()
            .map(|(n, x, y)| IconEntry {
                name: n.to_string(),
                pos: IconPosition { x: *x, y: *y },
            })
            .collect(),
    }
}

#[test]
fn snap_examples() {
    assert_eq!(snap_to_grid(110, 40), (75, 0));
    assert_eq!(snap_to_grid(150, 149), (150, 75));
    assert_eq!(snap_to_grid(0, 74), (0, 0));
    assert_eq!(snap_to_grid(75, 75), (75, 75));
    assert_eq!(snap_to_grid(-80, -75), (-75, -75));
    assert_eq!(snap_to_grid(-74, -1), (0, 0));
}

#[test]
fn snap_is_idempotent_on_examples() {
    for (x, y) in [(110, 40), (150, 149), (-80, -149), (2147483647, -2147483648)] {
        let (sx, sy) = snap_to_grid(x, y);
        assert_eq!(snap_to_grid(sx, sy), (sx, sy));
    }
}

#[test]
fn capture_skips_unnamed_and_last_wins() {
    let view = view_of(&[("a", 1, 2), ("", 9, 9), ("b", 3, 4), ("a", 5, 6)]);
    let l = get_current_icon_positions(&view).unwrap();
    let got: Vec<(String, i32, i32)> = l
        .icons
        .iter()
        .map(|e| (e.name.clone(), e.pos.x, e.pos.y))
        .collect();
    assert_eq!(
        got,
        vec![("a".to_string(), 5, 6), ("b".to_string(), 3, 4)]
    );
}

#[test]
fn restore_empty_layout_is_noop() {
    let mut view = view_of(&[("a", 10, 20)]);
    let before_flags = view.folder_flags;
    restore_icon_positions(&layout_of(&[]), &mut view).expect("empty restore succeeds");
    assert_eq!(view.items.len(), 1);
    assert_eq!(view.items[0].x, 10);
    assert_eq!(view.folder_flags, before_flags);
}

#[test]
fn restore_places_snapped_and_skips_missing() {
    let mut view = view_of(&[("a", 10, 20), ("b", 400, 400)]);
    let layout = layout_of(&[("a", 110, 40), ("ghost", 1, 1)]);
    restore_icon_positions(&layout, &mut view).expect("restore succeeds");
    assert_eq!(view.items[0].name, "a");
    assert_eq!((view.items[0].x, view.items[0].y), (75, 0));
    assert_eq!((view.items[1].x, view.items[1].y), (400, 400));
    assert_eq!(view.view_mode, FVM_ICON);
    assert_eq!(view.folder_flags & (FWF_AUTOARRANGE | FWF_SNAPTOGRID), 0);
}

#[test]
fn disable_auto_arrange_clears_flags() {
    let mut view = view_of(&[("a", 1, 1)]);
    view.folder_flags = 0xffff_ffff;
    disable_desktop_auto_arrange(&mut view).unwrap();
    assert_eq!(view.folder_flags & (FWF_AUTOARRANGE | FWF_SNAPTOGRID), 0);
    assert_eq!(view.view_mode, FVM_ICON);
    assert_eq!(view.items.len(), 1);
}

#[test]
fn wait_policy_decisions() {
    let policy = icon_retry_policy();
    assert_eq!(policy.max_attempts, 15);
    assert_eq!(policy.interval_ms, 200);

    // ready: at least one item and at least half the expected count
    assert!(matches!(wait_for_icons(&policy, 0, 5, 10), WaitDecision::Ready));
    assert!(matches!(wait_for_icons(&policy, 0, 1, 2), WaitDecision::Ready));
    assert!(matches!(wait_for_icons(&policy, 0, 1, 0), WaitDecision::Ready));

    // not ready: zero items, or fewer than half
    assert!(matches!(
        wait_for_icons(&policy, 0, 0, 0),
        WaitDecision::Retry(200)
    ));
    assert!(matches!(
        wait_for_icons(&policy, 7, 4, 10),
        WaitDecision::Retry(200)
    ));

    // the budget runs out: proceed with what is there
    assert!(matches!(
        wait_for_icons(&policy, 14, 0, 10),
        WaitDecision::Proceed
    ));
    assert!(matches!(
        wait_for_icons(&policy, 20, 0, 10),
        WaitDecision::Proceed
    ));
}
