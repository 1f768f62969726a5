//! Round trips and fallbacks of the persisted documents.

use kimi::codec::{load_icon_positions, load_icon_positions_from, save_icon_positions};
use kimi::config::KimiConfig;
use kimi::hotkeys::{load_hotkey_settings, save_hotkey_settings, HotkeySettings};
use kimi::layout::{DesktopIconsLayout, IconEntry, IconPosition};
use kimi::state_codec::{load_config, parse_config, save_config};

fn layout_of(entries: &[(&str, i32, i32)]) -> DesktopIconsLayout {
    let mut icons = Vec::new();
    for (name, x, y) in entries {
        icons.push(IconEntry {
            name: name.to_string(),
            pos: IconPosition { x: *x, y: *y },
        });
    }
    DesktopIconsLayout { icons }
}

fn entries_of(l: &DesktopIconsLayout) -> Vec<(String, i32, i32)> {
    l.icons
        .iter()
        .map(|e| (e.name.clone(), e.pos.x, e.pos.y))
        .collect()
}

#[test]
fn layout_empty_round_trip() {
    let l = layout_of(&[]);
    let text = save_icon_positions(&l);
    assert_eq!(text, "{\"icons\":{}}");
    let back = load_icon_positions_from(&text).expect("canonical text parses");
    assert_eq!(entries_of(&back), entries_of(&l));
}

#[test]
fn layout_single_round_trip() {
    let l = layout_of(&[("readme.txt", 110, 40)]);
    let text = save_icon_positions(&l);
    assert_eq!(text, "{\"icons\":{\"readme.txt\":{\"x\":110,\"y\":40}}}");
    let back = load_icon_positions_from(&text).expect("canonical text parses");
    assert_eq!(entries_of(&back), entries_of(&l));
}

#[test]
fn layout_many_round_trip() {
    let l = layout_of(&[
        ("a", 0, 0),
        ("b", -75, 2147483647),
        ("c", -2147483648, 149),
    ]);
    let back = load_icon_positions_from(&save_icon_positions(&l)).expect("parses");
    assert_eq!(entries_of(&back), entries_of(&l));
}

#[test]
fn layout_escaped_names_round_trip() {
    let l = layout_of(&[("with \"quotes\"", 1, 2), ("back\\slash", 3, 4)]);
    let text = save_icon_positions(&l);
    let back = load_icon_positions_from(&text).expect("parses");
    assert_eq!(entries_of(&back), entries_of(&l));
}

#[test]
fn layout_unicode_names_round_trip() {
    let l = layout_of(&[("Рабочий стол", 75, 150), ("übersicht", 0, 75)]);
    let back = load_icon_positions_from(&save_icon_positions(&l)).expect("parses");
    assert_eq!(entries_of(&back), entries_of(&l));
}

#[test]
fn layout_output_is_real_json() {
    let l = layout_of(&[("note \"x\"", 110, -40), ("plain", 0, 9)]);
    let text = save_icon_positions(&l);
    let v: serde_json::Value = serde_json::from_str(&text).expect("valid JSON");
    assert_eq!(v["icons"]["note \"x\""]["x"], serde_json::Value::from(110));
    assert_eq!(v["icons"]["note \"x\""]["y"], serde_json::Value::from(-40));
    assert_eq!(v["icons"]["plain"]["y"], serde_json::Value::from(9));
    assert_eq!(v["icons"].as_object().unwrap().len(), 2);
}

#[test]
fn layout_garbage_rejected() {
    assert!(load_icon_positions_from("").is_none());
    assert!(load_icon_positions_from("{}").is_none());
    assert!(load_icon_positions_from("{\"icons\":{").is_none());
    assert!(load_icon_positions_from("{\"icons\":{}}trailing").is_none());
    assert!(load_icon_positions_from("{\"icons\":{\"a\":{\"x\":1,\"y\":}}}").is_none());
    assert!(load_icon_positions_from("{\"icons\":{\"a\":{\"x\":99999999999,\"y\":1}}}").is_none());
}

#[test]
fn load_icon_positions_defaults() {
    assert_eq!(load_icon_positions(None).icons.len(), 0);
    assert_eq!(load_icon_positions(Some("not json")).icons.len(), 0);
    let good = "{\"icons\":{\"a\":{\"x\":1,\"y\":2}}}";
    let l = load_icon_positions(Some(good));
    assert_eq!(entries_of(&l), vec![("a".to_string(), 1, 2)]);
}

fn sample_config() -> KimiConfig {
    let mut c = KimiConfig {
        desktops: Vec::new(),
        active_desktop_id: 2,
        original_desktop_path: "C:\\Users\\me\\Desktop".to_string(),
        virtual_desktop_mapping: Vec::new(),
    };
    c.desktops.push(kimi::config::DesktopConfig {
        id: 1,
        name: "Desktop 1".to_string(),
    });
    c.desktops.push(kimi::config::DesktopConfig {
        id: 2,
        name: "Work \"desk\"".to_string(),
    });
    c.virtual_desktop_mapping.push((2, "slot-1".to_string()));
    c
}

#[test]
fn config_round_trip() {
    let c = sample_config();
    let text = save_config(&c);
    let back = parse_config(&text).expect("canonical text parses");
    assert_eq!(back.desktops.len(), 2);
    assert_eq!(back.desktops[0].id, 1);
    assert_eq!(back.desktops[0].name, "Desktop 1");
    assert_eq!(back.desktops[1].id, 2);
    assert_eq!(back.desktops[1].name, "Work \"desk\"");
    assert_eq!(back.active_desktop_id, 2);
    assert_eq!(back.original_desktop_path, "C:\\Users\\me\\Desktop");
    assert_eq!(back.virtual_desktop_mapping, vec![(2, "slot-1".to_string())]);
}

#[test]
fn config_empty_round_trip() {
    let c = KimiConfig {
        desktops: Vec::new(),
        active_desktop_id: 0,
        original_desktop_path: String::new(),
        virtual_desktop_mapping: Vec::new(),
    };
    let text = save_config(&c);
    assert_eq!(
        text,
        "{\"desktops\":[],\"active_desktop_id\":0,\"original_desktop_path\":\"\",\"virtual_desktop_mapping\":{}}"
    );
    let back = parse_config(&text).expect("parses");
    assert_eq!(back.desktops.len(), 0);
    assert_eq!(back.active_desktop_id, 0);
}

#[test]
fn config_output_is_real_json() {
    let text = save_config(&sample_config());
    let v: serde_json::Value = serde_json::from_str(&text).expect("valid JSON");
    assert_eq!(v["desktops"][0]["id"], serde_json::Value::from(1));
    assert_eq!(v["desktops"][1]["name"], serde_json::Value::from("Work \"desk\""));
    assert_eq!(v["active_desktop_id"], serde_json::Value::from(2));
    assert_eq!(v["virtual_desktop_mapping"]["2"], serde_json::Value::from("slot-1"));
}

#[test]
fn load_config_missing_or_unparsable_gives_default() {
    let d1 = load_config(None, "C:\\Users\\me\\Desktop");
    assert_eq!(d1.desktops.len(), 0);
    assert_eq!(d1.active_desktop_id, 0);
    assert_eq!(d1.original_desktop_path, "C:\\Users\\me\\Desktop");
    assert_eq!(d1.virtual_desktop_mapping.len(), 0);

    let d2 = load_config(Some("{ corrupted"), "C:\\Users\\me\\Desktop");
    assert_eq!(d2.desktops.len(), 0);
    assert_eq!(d2.original_desktop_path, "C:\\Users\\me\\Desktop");
}

#[test]
fn load_config_rejects_ill_formed_state() {
    // duplicate ids are treated as a corrupt document
    let text = "{\"desktops\":[{\"id\":1,\"name\":\"a\"},{\"id\":1,\"name\":\"b\"}],\"active_desktop_id\":0,\"original_desktop_path\":\"p\",\"virtual_desktop_mapping\":{}}";
    let c = load_config(Some(text), "fallback");
    assert_eq!(c.desktops.len(), 0);
    assert_eq!(c.original_desktop_path, "fallback");

    // an active id that names no profile is rejected too
    let text2 = "{\"desktops\":[{\"id\":1,\"name\":\"a\"}],\"active_desktop_id\":7,\"original_desktop_path\":\"p\",\"virtual_desktop_mapping\":{}}";
    let c2 = load_config(Some(text2), "fallback");
    assert_eq!(c2.desktops.len(), 0);
}

#[test]
fn load_config_accepts_good_state() {
    let text = save_config(&sample_config());
    let c = load_config(Some(&text), "unused");
    assert_eq!(c.desktops.len(), 2);
    assert_eq!(c.active_desktop_id, 2);
    assert_eq!(c.original_desktop_path, "C:\\Users\\me\\Desktop");
}

#[test]
fn hotkeys_round_trip() {
    let s = HotkeySettings {
        enabled: false,
        modifier: "ctrl+alt".to_string(),
    };
    let text = save_hotkey_settings(&s);
    assert_eq!(text, "{\"enabled\":false,\"modifier\":\"ctrl+alt\"}");
    let back = load_hotkey_settings(Some(&text));
    assert!(!back.enabled);
    assert_eq!(back.modifier, "ctrl+alt");
}

#[test]
fn hotkeys_default_on_missing_or_garbage() {
    let d = load_hotkey_settings(None);
    assert!(d.enabled);
    assert_eq!(d.modifier, "alt");
    let g = load_hotkey_settings(Some("{\"enabled\":maybe}"));
    assert!(g.enabled);
    assert_eq!(g.modifier, "alt");
}
