//! Hotkey settings and the decision the keyboard hook makes: whether a
//! key event, with the observed modifier keys, asks for a switch to a
//! numbered desktop.  The hook thread itself lives in the host
//! application and only feeds observations in.

use vstd::prelude::*;
use vstd::string::*;
use crate::json::{p_lit, p_string, parse_lit, parse_string, append_quoted, str_rep};
use crate::text::str_eq;

verus! {

/// The persisted hotkey settings.
#[derive(Debug)]
pub struct HotkeySettings {
    pub enabled: bool,
    pub modifier: String,
}

impl Default for HotkeySettings {
    /// Hotkeys start enabled with the plain Alt modifier.
    fn default() -> (r: Self)
        ensures
            r.enabled,
            r.modifier@ == "alt"@,
    {
        HotkeySettings { enabled: true, modifier: String::from_str("alt") }
    }
}

/// Overwrites the hook's settings with newly saved ones.
pub fn update_settings(current: &mut HotkeySettings, fresh: &HotkeySettings)
    ensures
        final(current).enabled == fresh.enabled,
        final(current).modifier@ == fresh.modifier@,
{
    current.enabled = fresh.enabled;
    current.modifier = fresh.modifier.clone();
}

/// Turns the hotkeys on or off, keeping the modifier.
pub fn toggle_hotkeys(settings: &mut HotkeySettings, enabled: bool)
    ensures
        final(settings).enabled == enabled,
        final(settings).modifier == old(settings).modifier,
{
    settings.enabled = enabled;
}

/// Which modifier set the configured modifier name asks for; any name
/// other than the two combined ones means plain Alt.
pub open spec fn modifier_matches(m: Seq<char>, alt: bool, ctrl: bool, shift: bool) -> bool {
    if m == "ctrl+alt"@ {
        ctrl && alt && !shift
    } else if m == "ctrl+shift"@ {
        ctrl && shift && !alt
    } else {
        alt && !ctrl && !shift
    }
}

/// The digit-row key codes `'1'..='9'` ask for desktops 1 to 9.
pub open spec fn hotkey_decision(
    settings: HotkeySettings,
    vk_code: u32,
    alt: bool,
    ctrl: bool,
    shift: bool,
) -> Option<i32> {
    if settings.enabled && 0x31 <= vk_code <= 0x39 && modifier_matches(
        settings.modifier@,
        alt,
        ctrl,
        shift,
    ) {
        Some((vk_code - 0x30) as i32)
    } else {
        None
    }
}

/// Decides whether a key event is the switch hotkey, and for which
/// desktop number.
pub fn try_handle_hotkey(
    settings: &HotkeySettings,
    vk_code: u32,
    alt: bool,
    ctrl: bool,
    shift: bool,
) -> (r: Option<i32>)
    ensures
        r == hotkey_decision(*settings, vk_code, alt, ctrl, shift),
{
    if !settings.enabled {
        return None;
    }
    if vk_code < 0x31 || vk_code > 0x39 {
        return None;
    }
    let m = settings.modifier.as_str();
    let matched: bool = if str_eq(m, "ctrl+alt") {
        ctrl && alt && !shift
    } else if str_eq(m, "ctrl+shift") {
        ctrl && shift && !alt
    } else {
        alt && !ctrl && !shift
    };
    if matched {
        Some((vk_code - 0x30) as i32)
    } else {
        None
    }
}

// ---------------------------------------------------------------------------
// The persisted settings document
// ---------------------------------------------------------------------------

/// `{"enabled":`
pub open spec fn lit_hk_open() -> Seq<char> {
    seq!['{', '"', 'e', 'n', 'a', 'b', 'l', 'e', 'd', '"', ':']
}

/// `,"modifier":`
pub open spec fn lit_hk_mod() -> Seq<char> {
    seq![',', '"', 'm', 'o', 'd', 'i', 'f', 'i', 'e', 'r', '"', ':']
}

/// `true` or `false`.
pub open spec fn bool_rep(b: bool) -> Seq<char> {
    if b {
        seq!['t', 'r', 'u', 'e']
    } else {
        seq!['f', 'a', 'l', 's', 'e']
    }
}

/// Printed form of the settings document.
pub open spec fn hotkeys_rep(enabled: bool, modifier: Seq<char>) -> Seq<char> {
    lit_hk_open() + bool_rep(enabled) + lit_hk_mod() + str_rep(modifier) + seq!['}']
}

/// Reads the settings document.
pub open spec fn p_hotkeys(s: Seq<char>) -> Option<(bool, Seq<char>)> {
    match p_lit(s, 0, lit_hk_open()) {
        Some(i) => {
            let (b, j) = if p_lit(s, i, bool_rep(true)) is Some {
                (true, i + 4)
            } else if p_lit(s, i, bool_rep(false)) is Some {
                (false, i + 5)
            } else {
                (false, -1)
            };
            if j < 0 {
                None
            } else {
                match p_lit(s, j, lit_hk_mod()) {
                    Some(k) => match p_string(s, k) {
                        Some((m, q)) => if p_lit(s, q, seq!['}']) == Some(s.len() as int) {
                            Some((b, m))
                        } else {
                            None
                        },
                        None => None,
                    },
                    None => None,
                }
            }
        },
        None => None,
    }
}

/// Parsing a printed settings document gives both fields back.
pub proof fn lemma_hotkeys_round_trip(enabled: bool, modifier: Seq<char>)
    ensures
        p_hotkeys(hotkeys_rep(enabled, modifier)) == Some((enabled, modifier)),
{
    let s = hotkeys_rep(enabled, modifier);
    let a = lit_hk_open();
    let b = bool_rep(enabled);
    let c = lit_hk_mod();
    let e = str_rep(modifier);
    let g = seq!['}'];
    let i = 11int;
    let j = i + b.len() as int;
    let k = j + 12;
    let q = k + e.len() as int;
    assert(s.subrange(0, s.len() as int) =~= s);
    assert(s == (a + b + c + e) + g);
    crate::json::lemma_split_at(s, 0, a + b + c + e, g);
    crate::json::lemma_split_at(s, 0, a + b + c, e);
    crate::json::lemma_split_at(s, 0, a + b, c);
    crate::json::lemma_split_at(s, 0, a, b);
    assert(p_lit(s, 0, a) == Some(i));
    assert(s[i] == b[0]) by {
        assert(s.subrange(i, j)[0] == s[i]);
    }
    if enabled {
        assert(p_lit(s, i, bool_rep(true)) == Some(j));
    } else {
        assert(p_lit(s, i, bool_rep(true)) is None) by {
            if p_lit(s, i, bool_rep(true)) is Some {
                assert(s.subrange(i, i + 4)[0] == 't');
                assert(s[i] == 'f');
            }
        }
        assert(p_lit(s, i, bool_rep(false)) == Some(j));
    }
    assert(p_lit(s, j, c) == Some(k));
    crate::json::lemma_p_string_inv(s, k, modifier);
    assert(s.subrange(q, q + 1) =~= g);
    assert(p_lit(s, q, g) == Some(s.len() as int));
}

/// Prints the settings as their canonical document text.
pub fn save_hotkey_settings(settings: &HotkeySettings) -> (r: String)
    ensures
        r@ == hotkeys_rep(settings.enabled, settings.modifier@),
{
    let mut out = String::from_str("{\"enabled\":");
    proof {
        reveal_strlit("{\"enabled\":");
        assert("{\"enabled\":"@ =~= lit_hk_open());
    }
    if settings.enabled {
        out.append("true");
        proof {
            reveal_strlit("true");
            assert("true"@ =~= bool_rep(true));
        }
    } else {
        out.append("false");
        proof {
            reveal_strlit("false");
            assert("false"@ =~= bool_rep(false));
        }
    }
    out.append(",\"modifier\":");
    proof {
        reveal_strlit(",\"modifier\":");
        assert(",\"modifier\":"@ =~= lit_hk_mod());
    }
    append_quoted(&mut out, settings.modifier.as_str());
    out.append("}");
    proof {
        reveal_strlit("}");
        assert("}"@ =~= seq!['}']);
        assert(lit_hk_open() + bool_rep(settings.enabled) + lit_hk_mod() + str_rep(
            settings.modifier@,
        ) + seq!['}'] =~= hotkeys_rep(settings.enabled, settings.modifier@));
    }
    out
}

/// Reads the settings from the file's content; a missing or unreadable
/// document gives the defaults.
pub fn load_hotkey_settings(content: Option<&str>) -> (r: HotkeySettings)
    ensures
        match content {
            Some(s) => match p_hotkeys(s@) {
                Some((b, m)) => r.enabled == b && r.modifier@ == m,
                None => r.enabled && r.modifier@ == "alt"@,
            },
            None => r.enabled && r.modifier@ == "alt"@,
        },
{
    let s = match content {
        Some(s) => s,
        None => {
            return HotkeySettings::default();
        },
    };
    let n = s.unicode_len();
    let i = match parse_lit(s, 0, "{\"enabled\":") {
        Some(v) => v,
        None => {
            proof {
                reveal_strlit("{\"enabled\":");
                assert("{\"enabled\":"@ =~= lit_hk_open());
            }
            return HotkeySettings::default();
        },
    };
    proof {
        reveal_strlit("{\"enabled\":");
        reveal_strlit("true");
        reveal_strlit("false");
        assert("{\"enabled\":"@ =~= lit_hk_open());
        assert("true"@ =~= bool_rep(true));
        assert("false"@ =~= bool_rep(false));
    }
    let (b, j): (bool, usize) = match parse_lit(s, i, "true") {
        Some(v) => (true, v),
        None => match parse_lit(s, i, "false") {
            Some(v) => (false, v),
            None => {
                return HotkeySettings::default();
            },
        },
    };
    let k = match parse_lit(s, j, ",\"modifier\":") {
        Some(v) => v,
        None => {
            proof {
                reveal_strlit(",\"modifier\":");
                assert(",\"modifier\":"@ =~= lit_hk_mod());
            }
            return HotkeySettings::default();
        },
    };
    proof {
        reveal_strlit(",\"modifier\":");
        assert(",\"modifier\":"@ =~= lit_hk_mod());
    }
    let (m, q) = match parse_string(s, k) {
        Some(v) => v,
        None => {
            return HotkeySettings::default();
        },
    };
    let fin = match parse_lit(s, q, "}") {
        Some(v) => v,
        None => {
            proof {
                reveal_strlit("}");
                assert("}"@ =~= seq!['}']);
            }
            return HotkeySettings::default();
        },
    };
    proof {
        reveal_strlit("}");
        assert("}"@ =~= seq!['}']);
    }
    if fin == n {
        HotkeySettings { enabled: b, modifier: m }
    } else {
        HotkeySettings::default()
    }
}

} // verus!
