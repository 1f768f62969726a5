//! Path rules and the original-path guard.

use kimi::paths::{
    expand_env_vars, fallback_desktop_path, get_default_desktop_path, get_desktop_folder_path,
};

#[test]
fn folder_paths_are_deterministic() {
    assert_eq!(get_desktop_folder_path("C:\\Kimi", 1), "C:\\Kimi\\Desktop1");
    assert_eq!(get_desktop_folder_path("C:\\Kimi", 17), "C:\\Kimi\\Desktop17");
    assert_eq!(get_desktop_folder_path("D:\\Other", 3), "D:\\Other\\Desktop3");
}

#[test]
fn fallback_is_under_the_profile() {
    assert_eq!(
        fallback_desktop_path("C:\\Users\\me"),
        "C:\\Users\\me\\Desktop"
    );
}

#[test]
fn default_path_prefers_discovery() {
    let r = get_default_desktop_path(
        Some("D:\\Stuff\\Desk".to_string()),
        "C:\\Users\\me",
        "C:\\Kimi",
    );
    assert_eq!(r, "D:\\Stuff\\Desk");
}

#[test]
fn default_path_never_adopts_a_managed_path() {
    let r = get_default_desktop_path(
        Some("C:\\Kimi\\Desktop2".to_string()),
        "C:\\Users\\me",
        "C:\\Kimi",
    );
    assert_eq!(r, "C:\\Users\\me\\Desktop");
    assert!(!r.starts_with("C:\\Kimi"));
}

#[test]
fn default_path_falls_back_without_discovery() {
    let r = get_default_desktop_path(None, "C:\\Users\\me", "C:\\Kimi");
    assert_eq!(r, "C:\\Users\\me\\Desktop");
}

#[test]
fn expand_replaces_every_marker() {
    assert_eq!(
        expand_env_vars("%USERPROFILE%\\Desktop", "C:\\Users\\me"),
        "C:\\Users\\me\\Desktop"
    );
    assert_eq!(
        expand_env_vars("a %USERPROFILE% b %USERPROFILE%", "X"),
        "a X b X"
    );
    assert_eq!(expand_env_vars("no markers", "X"), "no markers");
    assert_eq!(expand_env_vars("", "X"), "");
    assert_eq!(expand_env_vars("%USERPROFILE", "X"), "%USERPROFILE");
}
