//! Profile create/delete guards and the link table.

use kimi::config::{
    delete_desktop, get_workspace_mappings, has_desktop, link_to_virtual_desktop,
    unlink_from_virtual_desktop, DesktopConfig, KimiConfig,
};
use kimi::icons::DesktopIconView;
use kimi::manager::create_desktop;
use kimi::vdesk::VirtualDesktops;
use kimi::world::DesktopWorld;

fn fresh_config() -> KimiConfig {
    KimiConfig {
        desktops: Vec::new(),
        active_desktop_id: 0,
        original_desktop_path: "C:\\Users\\me\\Desktop".to_string(),
        virtual_desktop_mapping: Vec::new(),
    }
}

fn fresh_world() -> DesktopWorld {
    DesktopWorld {
        root: "C:\\Kimi".to_string(),
        desktop_path: "C:\\Users\\me\\Desktop".to_string(),
        folders: Vec::new(),
        view: DesktopIconView {
            items: Vec::new(),
            folder_flags: 0,
            view_mode: 1,
        },
        slots: VirtualDesktops {
            count: 1,
            current: 0,
            max_slots: 8,
            windows: Vec::new(),
        },
        layouts: Vec::new(),
    }
}

#[test]
fn create_assigns_sequential_ids_and_folders() {
    let mut c = fresh_config();
    let mut w = fresh_world();

    let d1 = create_desktop(&mut c, &mut w).expect("first create");
    assert_eq!(d1.id, 1);
    assert_eq!(d1.name, "Desktop 1");
    assert_eq!(d1.path, "C:\\Kimi\\Desktop1");
    assert!(!d1.is_active);
    assert_eq!(d1.file_count, 0);
    assert_eq!(w.folders, vec![1]);

    let d2 = create_desktop(&mut c, &mut w).expect("second create");
    assert_eq!(d2.id, 2);
    assert_eq!(c.desktops.len(), 2);
}

#[test]
fn create_after_delete_reuses_max_plus_one() {
    let mut c = fresh_config();
    let mut w = fresh_world();
    create_desktop(&mut c, &mut w).unwrap();
    create_desktop(&mut c, &mut w).unwrap();
    create_desktop(&mut c, &mut w).unwrap();
    delete_desktop(&mut c, 3).unwrap();
    let d = create_desktop(&mut c, &mut w).unwrap();
    assert_eq!(d.id, 3);
}

#[test]
fn create_beyond_maximum_fails_unchanged() {
    let mut c = fresh_config();
    let mut w = fresh_world();
    for _ in 0..20 {
        create_desktop(&mut c, &mut w).unwrap();
    }
    assert_eq!(c.desktops.len(), 20);
    let before_folders = w.folders.clone();
    let err = create_desktop(&mut c, &mut w).unwrap_err();
    assert_eq!(err, "Maximum number of desktops reached");
    assert_eq!(c.desktops.len(), 20);
    assert_eq!(w.folders, before_folders);
}

#[test]
fn delete_scenario_fresh_two_profiles() {
    let mut c = fresh_config();
    let mut w = fresh_world();
    create_desktop(&mut c, &mut w).unwrap();
    create_desktop(&mut c, &mut w).unwrap();
    c.active_desktop_id = 2;

    delete_desktop(&mut c, 1).expect("deleting inactive profile");
    assert_eq!(c.desktops.len(), 1);
    assert_eq!(c.desktops[0].id, 2);

    // deleting the active profile names the active profile as the reason,
    // even when it is also the last one remaining
    let err = delete_desktop(&mut c, 2).unwrap_err();
    assert_eq!(err, "Cannot delete the active desktop");
    assert_eq!(c.desktops.len(), 1);
    assert_eq!(c.active_desktop_id, 2);
}

#[test]
fn delete_active_fails_unchanged() {
    let mut c = fresh_config();
    let mut w = fresh_world();
    create_desktop(&mut c, &mut w).unwrap();
    create_desktop(&mut c, &mut w).unwrap();
    create_desktop(&mut c, &mut w).unwrap();
    c.active_desktop_id = 2;
    let err = delete_desktop(&mut c, 2).unwrap_err();
    assert_eq!(err, "Cannot delete the active desktop");
    assert_eq!(c.desktops.len(), 3);
    assert_eq!(c.active_desktop_id, 2);
}

#[test]
fn delete_last_fails_unchanged() {
    let mut c = fresh_config();
    let mut w = fresh_world();
    create_desktop(&mut c, &mut w).unwrap();
    let err = delete_desktop(&mut c, 1).unwrap_err();
    assert_eq!(err, "Cannot delete the last desktop");
    assert_eq!(c.desktops.len(), 1);
}

#[test]
fn delete_missing_id_is_silent() {
    let mut c = fresh_config();
    let mut w = fresh_world();
    create_desktop(&mut c, &mut w).unwrap();
    create_desktop(&mut c, &mut w).unwrap();
    delete_desktop(&mut c, 9).expect("missing id is not an error");
    assert_eq!(c.desktops.len(), 2);
}

#[test]
fn has_desktop_finds_ids() {
    let mut c = fresh_config();
    c.desktops.push(DesktopConfig {
        id: 5,
        name: "x".to_string(),
    });
    assert!(has_desktop(&c, 5));
    assert!(!has_desktop(&c, 4));
}

#[test]
fn link_unlink_and_mappings() {
    let mut c = fresh_config();
    let mut w = fresh_world();
    create_desktop(&mut c, &mut w).unwrap();
    create_desktop(&mut c, &mut w).unwrap();

    let err = link_to_virtual_desktop(&mut c, 9, "s".to_string()).unwrap_err();
    assert_eq!(err, "Desktop not found");

    link_to_virtual_desktop(&mut c, 1, "a".to_string()).unwrap();
    link_to_virtual_desktop(&mut c, 2, "b".to_string()).unwrap();
    link_to_virtual_desktop(&mut c, 1, "c".to_string()).unwrap();
    assert_eq!(
        get_workspace_mappings(&c),
        vec![(1, "c".to_string()), (2, "b".to_string())]
    );

    unlink_from_virtual_desktop(&mut c, 1).unwrap();
    assert_eq!(get_workspace_mappings(&c), vec![(2, "b".to_string())]);

    unlink_from_virtual_desktop(&mut c, 9).unwrap();
    assert_eq!(get_workspace_mappings(&c), vec![(2, "b".to_string())]);
}

#[test]
fn ids_stay_unique_and_active_stays_present() {
    let mut c = fresh_config();
    let mut w = fresh_world();
    for _ in 0..6 {
        create_desktop(&mut c, &mut w).unwrap();
    }
    c.active_desktop_id = 4;
    let _ = delete_desktop(&mut c, 2);
    let _ = delete_desktop(&mut c, 4);
    let _ = delete_desktop(&mut c, 6);
    create_desktop(&mut c, &mut w).unwrap();
    let ids: Vec<i32> = c.desktops.iter().map(|d| d.id).collect();
    let mut sorted = ids.clone();
    sorted.sort();
    sorted.dedup();
    assert_eq!(sorted.len(), ids.len(), "ids are unique");
    assert!(
        c.active_desktop_id == 0 || ids.contains(&c.active_desktop_id),
        "active profile is present or zero"
    );
}
