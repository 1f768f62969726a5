//! Path rules: where a profile's folder lives under the managed root, the
//! per-user fallback desktop path, and the guard that keeps a redirected
//! path from being adopted as the "original" desktop path.

use vstd::prelude::*;
use vstd::string::*;
use crate::text::{append_i32, has_prefix, int_rep, str_starts_with};

verus! {

/// `<root>\Desktop<id>`
pub open spec fn folder_rep(root: Seq<char>, id: int) -> Seq<char> {
    root + seq!['\\', 'D', 'e', 's', 'k', 't', 'o', 'p'] + int_rep(id)
}

/// Builds the folder path of a profile under the managed root.
pub fn get_desktop_folder_path(root: &str, id: i32) -> (r: String)
    ensures
        r@ == folder_rep(root@, id as int),
{
    let mut out = String::from_str(root);
    out.append("\\Desktop");
    proof {
        reveal_strlit("\\Desktop");
        assert("\\Desktop"@ =~= seq!['\\', 'D', 'e', 's', 'k', 't', 'o', 'p']);
    }
    append_i32(&mut out, id);
    out
}

/// `<profile>\Desktop`
pub open spec fn fallback_rep(profile: Seq<char>) -> Seq<char> {
    profile + seq!['\\', 'D', 'e', 's', 'k', 't', 'o', 'p']
}

/// The conventional per-user desktop path, used when discovery fails.
pub fn fallback_desktop_path(profile: &str) -> (r: String)
    ensures
        r@ == fallback_rep(profile@),
{
    let mut out = String::from_str(profile);
    out.append("\\Desktop");
    proof {
        reveal_strlit("\\Desktop");
        assert("\\Desktop"@ =~= seq!['\\', 'D', 'e', 's', 'k', 't', 'o', 'p']);
    }
    out
}

/// Picks the original desktop path: the discovered live setting when there
/// is one, except that a path under the managed root is never adopted; the
/// per-user fallback otherwise.
pub fn get_default_desktop_path(discovered: Option<String>, profile: &str, root: &str) -> (r:
    String)
    ensures
        (match discovered {
            Some(p) => if has_prefix(p@, root@) {
                r@ == fallback_rep(profile@)
            } else {
                r@ == p@
            },
            None => r@ == fallback_rep(profile@),
        }),
        !has_prefix(fallback_rep(profile@), root@) ==> !has_prefix(r@, root@),
{
    match discovered {
        Some(p) => {
            if str_starts_with(p.as_str(), root) {
                fallback_desktop_path(profile)
            } else {
                p
            }
        },
        None => fallback_desktop_path(profile),
    }
}

/// `%USERPROFILE%`
pub open spec fn profile_var() -> Seq<char> {
    seq!['%', 'U', 'S', 'E', 'R', 'P', 'R', 'O', 'F', 'I', 'L', 'E', '%']
}

/// The text with every `%USERPROFILE%` replaced by the profile directory,
/// scanning left to right without overlap.
pub open spec fn expand_rep(s: Seq<char>, profile: Seq<char>) -> Seq<char>
    decreases s.len(),
{
    if s.len() == 0 {
        s
    } else if has_prefix(s, profile_var()) {
        profile + expand_rep(s.skip(13), profile)
    } else {
        seq![s[0]] + expand_rep(s.drop_first(), profile)
    }
}

/// Whether the text at position `i` starts the `%USERPROFILE%` marker.
fn match_profile_var(s: &str, i: usize) -> (r: bool)
    requires
        i <= s@.len(),
    ensures
        r == has_prefix(s@.skip(i as int), profile_var()),
{
    let n = s.unicode_len();
    if n - i < 13 {
        return false;
    }
    let sub = s.substring_char(i, i + 13);
    let r = crate::text::str_eq(sub, "%USERPROFILE%");
    proof {
        reveal_strlit("%USERPROFILE%");
        assert("%USERPROFILE%"@ =~= profile_var());
        assert(sub@ =~= s@.skip(i as int).take(13));
    }
    r
}

/// Replaces every `%USERPROFILE%` in `path` with the profile directory.
pub fn expand_env_vars(path: &str, profile: &str) -> (r: String)
    ensures
        r@ == expand_rep(path@, profile@),
{
    let n = path.unicode_len();
    let mut out = String::new();
    let mut i: usize = 0;
    proof {
        assert(path@.skip(0) =~= path@);
        assert(Seq::<char>::empty() + expand_rep(path@, profile@) =~= expand_rep(
            path@,
            profile@,
        ));
    }
    while i < n
        invariant
            i <= n,
            n == path@.len(),
            out@ + expand_rep(path@.skip(i as int), profile@) == expand_rep(path@, profile@),
        decreases n - i,
    {
        let ghost out0 = out@;
        if match_profile_var(path, i) {
            out.append(profile);
            proof {
                assert(path@.skip(i as int).skip(13) =~= path@.skip(i as int + 13));
                assert(out0 + (profile@ + expand_rep(path@.skip(i as int + 13), profile@)) =~= (
                out0 + profile@) + expand_rep(path@.skip(i as int + 13), profile@));
            }
            i = i + 13;
        } else {
            let piece = path.substring_char(i, i + 1);
            proof {
                assert(piece@ =~= seq![path@[i as int]]);
            }
            out.append(piece);
            proof {
                let rest = path@.skip(i as int);
                assert(rest[0] == path@[i as int]);
                assert(rest.drop_first() =~= path@.skip(i as int + 1));
                assert(out0 + (seq![path@[i as int]] + expand_rep(
                    path@.skip(i as int + 1),
                    profile@,
                )) =~= (out0 + seq![path@[i as int]]) + expand_rep(
                    path@.skip(i as int + 1),
                    profile@,
                ));
            }
            i = i + 1;
        }
    }
    proof {
        assert(path@.skip(n as int) =~= Seq::<char>::empty());
        assert(out@ + Seq::<char>::empty() =~= out@);
    }
    out
}

} // verus!
