//! The switch sequences, the startup repair, and the hotkey decision.

use kimi::config::{link_to_virtual_desktop, KimiConfig};
use kimi::hotkeys::{try_handle_hotkey, HotkeySettings};
use kimi::icons::{DesktopIconView, ViewItem};
use kimi::manager::{
    create_desktop, get_desktops, get_original_desktop_path, restore_original_desktop,
    save_desktop_icons, switch_desktop, validate_and_restore_if_needed,
};
use kimi::vdesk::VirtualDesktops;
use kimi::workspace::switch_workspace;
use kimi::world::DesktopWorld;

fn fresh_config() -> KimiConfig {
    KimiConfig {
        desktops: Vec::new(),
        active_desktop_id: 0,
        original_desktop_path: "C:\\Users\\me\\Desktop".to_string(),
        virtual_desktop_mapping: Vec::new(),
    }
}

fn fresh_world() -> DesktopWorld {
    DesktopWorld {
        root: "C:\\Kimi".to_string(),
        desktop_path: "C:\\Users\\me\\Desktop".to_string(),
        folders: Vec::new(),
        view: DesktopIconView {
            items: vec![ViewItem {
                name: "readme.txt".to_string(),
                x: 110,
                y: 40,
            }],
            folder_flags: 3,
            view_mode: 0,
        },
        slots: VirtualDesktops {
            count: 1,
            current: 0,
            max_slots: 8,
            windows: Vec::new(),
        },
        layouts: Vec::new(),
    }
}

#[test]
fn switch_to_unknown_profile_fails() {
    let mut c = fresh_config();
    let mut w = fresh_world();
    let err = switch_desktop(&mut c, &mut w, 1).unwrap_err();
    assert_eq!(err, "Desktop not found");
    assert_eq!(c.active_desktop_id, 0);
    assert_eq!(w.desktop_path, "C:\\Users\\me\\Desktop");
}

#[test]
fn switch_to_profile_with_missing_folder_fails_before_mutation() {
    let mut c = fresh_config();
    let mut w = fresh_world();
    create_desktop(&mut c, &mut w).unwrap();
    // the folder vanishes out of band
    w.folders.clear();
    let err = switch_desktop(&mut c, &mut w, 1).unwrap_err();
    assert_eq!(err, "Desktop folder does not exist");
    assert_eq!(c.active_desktop_id, 0, "no state mutation");
    assert_eq!(w.desktop_path, "C:\\Users\\me\\Desktop", "no redirection");
    assert!(w.layouts.is_empty(), "no capture");
}

#[test]
fn switch_redirects_saves_and_restores() {
    let mut c = fresh_config();
    let mut w = fresh_world();
    create_desktop(&mut c, &mut w).unwrap();
    create_desktop(&mut c, &mut w).unwrap();

    switch_desktop(&mut c, &mut w, 1).unwrap();
    assert_eq!(c.active_desktop_id, 1);
    assert_eq!(w.desktop_path, "C:\\Kimi\\Desktop1");

    // a saved layout for profile 2, placed when switching there
    save_desktop_icons(&mut w, 2).unwrap();
    w.view.items[0].x = 400;
    w.view.items[0].y = 400;
    switch_desktop(&mut c, &mut w, 2).unwrap();
    assert_eq!(c.active_desktop_id, 2);
    assert_eq!(w.desktop_path, "C:\\Kimi\\Desktop2");
    // restored to the captured position, snapped to the grid pitch
    assert_eq!((w.view.items[0].x, w.view.items[0].y), (75, 0));
}

#[test]
fn switch_to_active_profile_keeps_saved_layout() {
    let mut c = fresh_config();
    let mut w = fresh_world();
    create_desktop(&mut c, &mut w).unwrap();
    switch_desktop(&mut c, &mut w, 1).unwrap();

    // a saved layout for the active profile, different from the live view
    save_desktop_icons(&mut w, 1).unwrap();
    w.view.items[0].x = 400;
    w.view.items[0].y = 400;

    // switching to the profile that is already active captures nothing,
    // so the sidecar keeps the earlier positions and they are restored
    switch_desktop(&mut c, &mut w, 1).unwrap();
    let saved = &w.layouts.iter().find(|(id, _)| *id == 1).unwrap().1;
    assert_eq!(
        (saved.icons[0].pos.x, saved.icons[0].pos.y),
        (110, 40),
        "the saved layout was not overwritten"
    );
    assert_eq!((w.view.items[0].x, w.view.items[0].y), (75, 0));
}

#[test]
fn switch_workspace_drives_linked_slot() {
    let mut c = fresh_config();
    let mut w = fresh_world();
    create_desktop(&mut c, &mut w).unwrap();
    create_desktop(&mut c, &mut w).unwrap();
    create_desktop(&mut c, &mut w).unwrap();
    link_to_virtual_desktop(&mut c, 1, "s1".to_string()).unwrap();
    link_to_virtual_desktop(&mut c, 3, "s3".to_string()).unwrap();

    // profile 3 is the second linked profile: slot index 1, so two slots
    switch_workspace(&mut c, &mut w, 3).unwrap();
    assert_eq!(c.active_desktop_id, 3);
    assert_eq!(w.desktop_path, "C:\\Kimi\\Desktop3");
    assert_eq!(w.slots.count, 2);
    assert_eq!(w.slots.current, 1);
}

#[test]
fn switch_workspace_unlinked_leaves_slots_alone() {
    let mut c = fresh_config();
    let mut w = fresh_world();
    create_desktop(&mut c, &mut w).unwrap();
    switch_workspace(&mut c, &mut w, 1).unwrap();
    assert_eq!(c.active_desktop_id, 1);
    assert_eq!(w.slots.count, 1);
    assert_eq!(w.slots.current, 0);
}

#[test]
fn switch_workspace_validates_first() {
    let mut c = fresh_config();
    let mut w = fresh_world();
    create_desktop(&mut c, &mut w).unwrap();
    c.active_desktop_id = 1;
    w.folders.clear();
    let err = switch_workspace(&mut c, &mut w, 1).unwrap_err();
    assert_eq!(err, "Desktop folder does not exist");
    assert!(w.layouts.is_empty(), "nothing captured before validation");
}

#[test]
fn restore_original_and_its_guard() {
    let mut c = fresh_config();
    let mut w = fresh_world();
    create_desktop(&mut c, &mut w).unwrap();
    switch_desktop(&mut c, &mut w, 1).unwrap();

    restore_original_desktop(&mut c, &mut w).unwrap();
    assert_eq!(c.active_desktop_id, 0);
    assert_eq!(w.desktop_path, "C:\\Users\\me\\Desktop");

    c.original_desktop_path = String::new();
    let err = restore_original_desktop(&mut c, &mut w).unwrap_err();
    assert_eq!(err, "Original desktop path is not saved");
}

#[test]
fn get_original_path_reports_state() {
    let c = fresh_config();
    assert_eq!(
        get_original_desktop_path(&c).unwrap(),
        "C:\\Users\\me\\Desktop"
    );
}

#[test]
fn startup_repair_restores_dangling_redirection() {
    let mut c = fresh_config();
    let mut w = fresh_world();
    create_desktop(&mut c, &mut w).unwrap();
    switch_desktop(&mut c, &mut w, 1).unwrap();

    // folder still there: nothing happens
    validate_and_restore_if_needed(&mut c, &mut w, true);
    assert_eq!(c.active_desktop_id, 1);

    // folder gone: point back at the original
    validate_and_restore_if_needed(&mut c, &mut w, false);
    assert_eq!(c.active_desktop_id, 0);
    assert_eq!(w.desktop_path, "C:\\Users\\me\\Desktop");
}

#[test]
fn startup_repair_ignores_unmanaged_paths() {
    let mut c = fresh_config();
    let mut w = fresh_world();
    validate_and_restore_if_needed(&mut c, &mut w, false);
    assert_eq!(w.desktop_path, "C:\\Users\\me\\Desktop");
    assert_eq!(c.active_desktop_id, 0);
}

#[test]
fn get_desktops_builds_views() {
    let mut c = fresh_config();
    let mut w = fresh_world();
    create_desktop(&mut c, &mut w).unwrap();
    create_desktop(&mut c, &mut w).unwrap();
    c.active_desktop_id = 2;
    let counts = vec![3, 0];
    let v = get_desktops(&c, "C:\\Kimi", &counts).unwrap();
    assert_eq!(v.len(), 2);
    assert_eq!(v[0].id, 1);
    assert_eq!(v[0].path, "C:\\Kimi\\Desktop1");
    assert!(!v[0].is_active);
    assert_eq!(v[0].file_count, 3);
    assert!(v[1].is_active);
}

#[test]
fn hotkey_decisions() {
    let alt = HotkeySettings {
        enabled: true,
        modifier: "alt".to_string(),
    };
    // Alt+3 asks for desktop 3
    assert_eq!(try_handle_hotkey(&alt, 0x33, true, false, false), Some(3));
    // wrong modifiers or keys outside the digit row do nothing
    assert_eq!(try_handle_hotkey(&alt, 0x33, true, true, false), None);
    assert_eq!(try_handle_hotkey(&alt, 0x30, true, false, false), None);
    assert_eq!(try_handle_hotkey(&alt, 0x41, true, false, false), None);

    let ca = HotkeySettings {
        enabled: true,
        modifier: "ctrl+alt".to_string(),
    };
    assert_eq!(try_handle_hotkey(&ca, 0x31, true, true, false), Some(1));
    assert_eq!(try_handle_hotkey(&ca, 0x31, true, false, false), None);

    let cs = HotkeySettings {
        enabled: true,
        modifier: "ctrl+shift".to_string(),
    };
    assert_eq!(try_handle_hotkey(&cs, 0x39, false, true, true), Some(9));

    let off = HotkeySettings {
        enabled: false,
        modifier: "alt".to_string(),
    };
    assert_eq!(try_handle_hotkey(&off, 0x33, true, false, false), None);
}
