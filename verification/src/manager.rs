//! Profile management: listing, creating, deleting and switching
//! profiles, restoring the original desktop, and the startup check that
//! repairs a dangling redirection.  Every operation is of the same
//! shape: decide on the loaded state, mutate it and the platform model,
//! and hand both back for the host to persist and carry out.

use vstd::prelude::*;
use vstd::string::*;
use crate::config::{
    apply_op, config_wf, has_desktop, has_id, label_rep, lemma_abs_max, lemma_max_id_ge,
    max_desktop_id, default_desktop_name, profile_abs, spec_max_id, Desktop, DesktopConfig,
    KimiConfig, ProfileOp, MAX_DESKTOPS,
};
use crate::icons::{
    auto_arrange_off, capture_fold, get_current_icon_positions, items_view, restore_icon_positions,
    FVM_ICON,
};
use crate::layout::DesktopIconsLayout;
use crate::paths::{folder_rep, get_desktop_folder_path};
use crate::text::has_prefix;
use crate::world::{layout_for, set_desktop_path, DesktopWorld};

verus! {

/// The view of each profile, in display order: its folder path under
/// the given root, whether it is active, and its handed-in file count.
pub fn get_desktops(c: &KimiConfig, root: &str, counts: &Vec<i32>) -> (r: Result<
    Vec<Desktop>,
    String,
>)
    requires
        counts@.len() == c.desktops@.len(),
    ensures
        match r {
            Ok(v) => v@.len() == c.desktops@.len() && forall|p: int|
                0 <= p < v@.len() ==> (#[trigger] v@[p]).id == c.desktops@[p].id && v@[p].name@
                    == c.desktops@[p].name@ && v@[p].path@ == folder_rep(
                    root@,
                    c.desktops@[p].id as int,
                ) && v@[p].is_active == (c.desktops@[p].id == c.active_desktop_id)
                    && v@[p].file_count == counts@[p],
            Err(_) => false,
        },
{
    let n = c.desktops.len();
    let mut out: Vec<Desktop> = Vec::new();
    let mut p: usize = 0;
    while p < n
        invariant
            p <= n,
            n == c.desktops@.len(),
            counts@.len() == n,
            out@.len() == p,
            forall|q: int|
                0 <= q < p ==> (#[trigger] out@[q]).id == c.desktops@[q].id && out@[q].name@
                    == c.desktops@[q].name@ && out@[q].path@ == folder_rep(
                    root@,
                    c.desktops@[q].id as int,
                ) && out@[q].is_active == (c.desktops@[q].id == c.active_desktop_id)
                    && out@[q].file_count == counts@[q],
        decreases n - p,
    {
        let d = &c.desktops[p];
        out.push(
            Desktop {
                id: d.id,
                name: d.name.clone(),
                path: get_desktop_folder_path(root, d.id),
                is_active: d.id == c.active_desktop_id,
                file_count: counts[p],
            },
        );
        p = p + 1;
    }
    Ok(out)
}

/// Creates the next profile: id one past the largest, a deterministic
/// default label, and a fresh folder under the root.  Past the maximum
/// profile count nothing changes and the request fails.
pub fn create_desktop(c: &mut KimiConfig, world: &mut DesktopWorld) -> (r: Result<Desktop, String>)
    requires
        config_wf(*old(c)),
        old(c).desktops@.len() < MAX_DESKTOPS ==> spec_max_id(old(c).desktops@) < 0x7fff_ffff,
    ensures
        config_wf(*final(c)),
        profile_abs(*final(c)) == apply_op(profile_abs(*old(c)), ProfileOp::Create),
        old(c).desktops@.len() >= MAX_DESKTOPS ==> *final(c) == *old(c) && *final(world) == *old(world) && (match r {
            Err(e) => e@ == "Maximum number of desktops reached"@,
            Ok(_) => false,
        }),
        old(c).desktops@.len() < MAX_DESKTOPS ==> ({
            let id = spec_max_id(old(c).desktops@) + 1;
            &&& (match r {
                Ok(d) => d.id == id && d.name@ == label_rep(id) && d.path@ == folder_rep(
                    old(world).root@,
                    id,
                ) && !d.is_active && d.file_count == 0,
                Err(_) => false,
            })
            &&& final(c).desktops@.len() == old(c).desktops@.len() + 1
            &&& final(c).desktops@ == old(c).desktops@.push(final(c).desktops@.last())
            &&& final(c).desktops@.last().id == id
            &&& final(c).desktops@.last().name@ == label_rep(id)
            &&& final(c).active_desktop_id == old(c).active_desktop_id
            &&& final(c).original_desktop_path == old(c).original_desktop_path
            &&& final(c).virtual_desktop_mapping == old(c).virtual_desktop_mapping
            &&& final(world).folders@ == old(world).folders@.push(id as i32)
            &&& final(world).root == old(world).root
            &&& final(world).desktop_path == old(world).desktop_path
            &&& final(world).view == old(world).view
            &&& final(world).slots == old(world).slots
            &&& final(world).layouts == old(world).layouts
        }),
{
    proof {
        lemma_abs_max(c.desktops@);
    }
    if c.desktops.len() >= MAX_DESKTOPS {
        return Err(String::from_str("Maximum number of desktops reached"));
    }
    let new_id = max_desktop_id(c) + 1;
    let path = get_desktop_folder_path(world.root.as_str(), new_id);
    world.folders.push(new_id);
    let name = default_desktop_name(new_id);
    c.desktops.push(DesktopConfig { id: new_id, name: name.clone() });
    proof {
        lemma_max_id_ge(old(c).desktops@);
        assert(forall|p: int|
            0 <= p < old(c).desktops@.len() ==> c.desktops@[p] == old(c).desktops@[p]);
        assert(profile_abs(*c).ids =~= profile_abs(*old(c)).ids.push(
            spec_max_id(old(c).desktops@) + 1,
        ));
        assert(has_id(c.desktops@, old(c).active_desktop_id as int) <== has_id(
            old(c).desktops@,
            old(c).active_desktop_id as int,
        )) by {
            assert(forall|p: int|
                0 <= p < old(c).desktops@.len() ==> c.desktops@[p] == old(c).desktops@[p]);
        }
    }
    Ok(Desktop { id: new_id, name, path, is_active: false, file_count: 0 })
}

/// Captures the current view's layout into the active profile's folder
/// before a switch: skipped when no profile is active, when the target
/// is the active profile itself, and when nothing was captured.
pub fn save_current_icons(c: &KimiConfig, world: &mut DesktopWorld, new_id: i32)
    ensures
        final(world).root == old(world).root,
        final(world).desktop_path == old(world).desktop_path,
        final(world).folders == old(world).folders,
        final(world).view == old(world).view,
        final(world).slots == old(world).slots,
        ({
            let cap = capture_fold(old(world).view.items@);
            let saved = c.active_desktop_id > 0 && c.active_desktop_id != new_id && cap.len() > 0;
            &&& (!saved ==> final(world).layouts == old(world).layouts)
            &&& (saved ==> layout_for(final(world).layouts@, c.active_desktop_id as int) == cap
                && (forall|k: int|
                k != c.active_desktop_id ==> layout_for(final(world).layouts@, k) == layout_for(
                    old(world).layouts@,
                    k,
                )))
        }),
{
    if c.active_desktop_id <= 0 || c.active_desktop_id == new_id {
        return;
    }
    let layout = match get_current_icon_positions(&world.view) {
        Ok(l) => l,
        Err(_) => {
            return;
        },
    };
    if layout.len() > 0 {
        world.put_layout(c.active_desktop_id, layout);
    }
}

/// Restores the saved layout of a profile's folder onto the view, when
/// there is one; an empty or missing sidecar changes nothing.
pub fn restore_icons_for_desktop(world: &mut DesktopWorld, id: i32)
    ensures
        final(world).root == old(world).root,
        final(world).desktop_path == old(world).desktop_path,
        final(world).folders == old(world).folders,
        final(world).slots == old(world).slots,
        final(world).layouts == old(world).layouts,
        layout_for(old(world).layouts@, id as int).len() == 0 ==> final(world).view == old(world).view,
        layout_for(old(world).layouts@, id as int).len() > 0 ==> items_view(
            final(world).view.items@,
        ) == crate::icons::apply_layout(
            items_view(old(world).view.items@),
            layout_for(old(world).layouts@, id as int),
        ) && auto_arrange_off(final(world).view.folder_flags) && final(world).view.view_mode
            == FVM_ICON,
{
    let layout = world.read_layout(id);
    if layout.len() > 0 {
        let _ = restore_icon_positions(&layout, &mut world.view);
    }
}

/// Captures the current view's layout into a profile's folder, as the
/// explicit save command does: unconditionally, even when empty.
pub fn save_desktop_icons(world: &mut DesktopWorld, desktop_id: i32) -> (r: Result<(), String>)
    ensures
        r is Ok,
        layout_for(final(world).layouts@, desktop_id as int) == capture_fold(
            old(world).view.items@,
        ),
        forall|k: int|
            k != desktop_id ==> layout_for(final(world).layouts@, k) == layout_for(
                old(world).layouts@,
                k,
            ),
        final(world).root == old(world).root,
        final(world).desktop_path == old(world).desktop_path,
        final(world).folders == old(world).folders,
        final(world).view == old(world).view,
        final(world).slots == old(world).slots,
{
    let layout = match get_current_icon_positions(&world.view) {
        Ok(l) => l,
        Err(e) => {
            return Err(e);
        },
    };
    world.put_layout(desktop_id, layout);
    Ok(())
}

/// Restores a profile folder's saved layout onto the view, as the
/// explicit restore command does; an empty sidecar restores nothing.
pub fn restore_desktop_icons(world: &mut DesktopWorld, desktop_id: i32) -> (r: Result<(), String>)
    ensures
        r is Ok,
        final(world).root == old(world).root,
        final(world).desktop_path == old(world).desktop_path,
        final(world).folders == old(world).folders,
        final(world).slots == old(world).slots,
        final(world).layouts == old(world).layouts,
        layout_for(old(world).layouts@, desktop_id as int).len() == 0 ==> final(world).view == old(
            world,
        ).view,
        layout_for(old(world).layouts@, desktop_id as int).len() > 0 ==> items_view(
            final(world).view.items@,
        ) == crate::icons::apply_layout(
            items_view(old(world).view.items@),
            layout_for(old(world).layouts@, desktop_id as int),
        ) && auto_arrange_off(final(world).view.folder_flags) && final(world).view.view_mode
            == FVM_ICON,
{
    restore_icons_for_desktop(world, desktop_id);
    Ok(())
}

/// The saved layout of a profile's folder, empty when there is none.
pub fn get_saved_icon_positions(world: &DesktopWorld, desktop_id: i32) -> (r: Result<
    DesktopIconsLayout,
    String,
>)
    ensures
        match r {
            Ok(l) => l@ == layout_for(world.layouts@, desktop_id as int),
            Err(_) => false,
        },
{
    Ok(world.read_layout(desktop_id))
}

/// Switches the desktop folder to a profile: validates the target, saves
/// the leaving profile's icons (only when it differs from the target),
/// redirects the folder, restores the target's icons, and marks it
/// active.  A missing profile or folder is rejected before anything is
/// touched.
pub fn switch_desktop(c: &mut KimiConfig, world: &mut DesktopWorld, id: i32) -> (r: Result<
    (),
    String,
>)
    requires
        config_wf(*old(c)),
    ensures
        config_wf(*final(c)),
        !has_id(old(c).desktops@, id as int) ==> *final(c) == *old(c) && *final(world) == *old(world) && (match r {
            Err(e) => e@ == "Desktop not found"@,
            Ok(_) => false,
        }),
        has_id(old(c).desktops@, id as int) && !old(world).folders@.contains(id) ==> *final(c)
            == *old(c) && *final(world) == *old(world) && (match r {
            Err(e) => e@ == "Desktop folder does not exist"@,
            Ok(_) => false,
        }),
        has_id(old(c).desktops@, id as int) && old(world).folders@.contains(id) ==> r is Ok && ({
            let cap = capture_fold(old(world).view.items@);
            let saved = old(c).active_desktop_id > 0 && old(c).active_desktop_id != id
                && cap.len() > 0;
            let target = layout_for(final(world).layouts@, id as int);
            &&& final(c).desktops@ == old(c).desktops@
            &&& final(c).active_desktop_id == id
            &&& final(c).original_desktop_path == old(c).original_desktop_path
            &&& final(c).virtual_desktop_mapping == old(c).virtual_desktop_mapping
            &&& final(world).root == old(world).root
            &&& final(world).folders == old(world).folders
            &&& final(world).slots == old(world).slots
            &&& final(world).desktop_path@ == folder_rep(old(world).root@, id as int)
            &&& (saved ==> layout_for(final(world).layouts@, old(c).active_desktop_id as int)
                == cap && (forall|k: int|
                k != old(c).active_desktop_id ==> layout_for(final(world).layouts@, k)
                    == layout_for(old(world).layouts@, k)))
            &&& (!saved ==> final(world).layouts == old(world).layouts)
            &&& (target.len() == 0 ==> final(world).view == old(world).view)
            &&& (target.len() > 0 ==> items_view(final(world).view.items@)
                == crate::icons::apply_layout(items_view(old(world).view.items@), target)
                && auto_arrange_off(final(world).view.folder_flags) && final(world).view.view_mode == FVM_ICON)
        }),
{
    if !has_desktop(c, id) {
        return Err(String::from_str("Desktop not found"));
    }
    if !world.folder_exists(id) {
        return Err(String::from_str("Desktop folder does not exist"));
    }
    save_current_icons(c, world, id);
    let path = get_desktop_folder_path(world.root.as_str(), id);
    let _ = set_desktop_path(world, path.as_str());
    restore_icons_for_desktop(world, id);
    c.active_desktop_id = id;
    Ok(())
}

/// Points the desktop back at the original path and marks no profile
/// active; with no recorded original path the request fails untouched.
pub fn restore_original_desktop(c: &mut KimiConfig, world: &mut DesktopWorld) -> (r: Result<
    (),
    String,
>)
    requires
        config_wf(*old(c)),
    ensures
        config_wf(*final(c)),
        old(c).original_desktop_path@.len() == 0 ==> *final(c) == *old(c) && *final(world) == *old(world) && (match r {
            Err(e) => e@ == "Original desktop path is not saved"@,
            Ok(_) => false,
        }),
        old(c).original_desktop_path@.len() > 0 ==> r is Ok && final(c).active_desktop_id == 0
            && final(c).desktops@ == old(c).desktops@ && final(c).original_desktop_path == old(c).original_desktop_path && final(c).virtual_desktop_mapping == old(c).virtual_desktop_mapping && final(world).desktop_path@ == old(c).original_desktop_path@ && final(world).root == old(world).root && final(world).folders
            == old(world).folders && final(world).view == old(world).view && final(world).slots
            == old(world).slots && final(world).layouts == old(world).layouts,
{
    if c.original_desktop_path.as_str().unicode_len() == 0 {
        return Err(String::from_str("Original desktop path is not saved"));
    }
    let original = c.original_desktop_path.clone();
    let _ = set_desktop_path(world, original.as_str());
    c.active_desktop_id = 0;
    Ok(())
}

/// The recorded original desktop path.
pub fn get_original_desktop_path(c: &KimiConfig) -> (r: Result<String, String>)
    ensures
        match r {
            Ok(p) => p@ == c.original_desktop_path@,
            Err(_) => false,
        },
{
    Ok(c.original_desktop_path.clone())
}

/// Startup repair: when the OS desktop still points under the managed
/// root but that folder is gone, the desktop is pointed back at the
/// recorded original path and no profile is active.  Anything else is
/// left untouched.
pub fn validate_and_restore_if_needed(
    c: &mut KimiConfig,
    world: &mut DesktopWorld,
    current_path_exists: bool,
)
    requires
        config_wf(*old(c)),
    ensures
        config_wf(*final(c)),
        ({
            let broken = has_prefix(old(world).desktop_path@, old(world).root@)
                && !current_path_exists && old(c).original_desktop_path@.len() > 0;
            &&& (!broken ==> *final(c) == *old(c) && *final(world) == *old(world))
            &&& (broken ==> final(c).active_desktop_id == 0 && final(c).desktops@ == old(c).desktops@ && final(c).original_desktop_path == old(c).original_desktop_path && final(c).virtual_desktop_mapping == old(c).virtual_desktop_mapping && final(world).desktop_path@ == old(c).original_desktop_path@ && final(world).root == old(world).root && final(world).folders == old(world).folders && final(world).view == old(world).view && final(world).slots == old(world).slots && final(world).layouts == old(world).layouts)
        }),
{
    let managed = crate::text::str_starts_with(world.desktop_path.as_str(), world.root.as_str());
    if managed && !current_path_exists {
        if c.original_desktop_path.as_str().unicode_len() > 0 {
            let original = c.original_desktop_path.clone();
            let _ = set_desktop_path(world, original.as_str());
            c.active_desktop_id = 0;
        }
    }
}

} // verus!
