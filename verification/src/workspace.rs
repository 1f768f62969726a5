//! The full workspace switch: redirect the desktop folder, drive the
//! linked native virtual-desktop slot, persist the active profile, and
//! swap icon layouts — one serialized sequence with the failure policy
//! of the engine: the redirection is strict, the slot layer and the icon
//! swaps are best effort.

use vstd::prelude::*;
use vstd::string::*;
use crate::config::{
    config_wf, has_desktop, has_id, has_key, has_link, DesktopConfig, KimiConfig,
};
use crate::icons::{auto_arrange_off, capture_fold, items_view, FVM_ICON};
use crate::paths::{folder_rep, get_desktop_folder_path};
use crate::vdesk::{ensure_virtual_desktops_exist, vd_wf, VirtualDesktops};
use crate::world::{layout_for, set_desktop_path, DesktopWorld};

verus! {

/// How many of the first `upto` profiles have a recorded link.
pub open spec fn linked_count(
    ds: Seq<DesktopConfig>,
    m: Seq<(i32, String)>,
    upto: int,
) -> int
    decreases upto,
{
    if upto <= 0 {
        0
    } else {
        linked_count(ds, m, upto - 1) + (if has_key(m, ds[upto - 1].id as int) {
            1int
        } else {
            0int
        })
    }
}

/// The first position of a profile id, or the length when absent.
pub open spec fn first_pos(ds: Seq<DesktopConfig>, id: int) -> int
    decreases ds.len(),
{
    if ds.len() == 0 {
        0
    } else if ds[0].id == id {
        0
    } else {
        1 + first_pos(ds.drop_first(), id)
    }
}

/// A first match at `p` pins `first_pos` down.
proof fn lemma_first_pos_at(ds: Seq<DesktopConfig>, id: int, p: int)
    requires
        0 <= p < ds.len(),
        ds[p].id == id,
        forall|q: int| 0 <= q < p ==> (#[trigger] ds[q]).id != id,
    ensures
        first_pos(ds, id) == p,
    decreases p,
{
    if p > 0 {
        let d = ds.drop_first();
        assert(forall|q: int| 0 <= q < d.len() ==> d[q] == ds[q + 1]);
        lemma_first_pos_at(d, id, p - 1);
    }
}

/// The slot index a linked profile switches to: its position among the
/// linked profiles, in display order.
pub open spec fn linked_slot_index(c: KimiConfig, id: int) -> int {
    linked_count(c.desktops@, c.virtual_desktop_mapping@, first_pos(c.desktops@, id))
}

/// The counted prefix never exceeds its length.
proof fn lemma_linked_count_le(ds: Seq<DesktopConfig>, m: Seq<(i32, String)>, upto: int)
    requires
        0 <= upto <= ds.len(),
    ensures
        linked_count(ds, m, upto) <= upto,
        0 <= linked_count(ds, m, upto),
    decreases upto,
{
    if upto > 0 {
        lemma_linked_count_le(ds, m, upto - 1);
    }
}

/// Computes the linked slot index of a profile that is present.
fn compute_linked_index(c: &KimiConfig, id: i32) -> (r: usize)
    requires
        has_id(c.desktops@, id as int),
    ensures
        r == linked_slot_index(*c, id as int),
        r <= c.desktops@.len(),
{
    let n = c.desktops.len();
    let mut idx: usize = 0;
    let mut p: usize = 0;
    proof {
        lemma_linked_count_le(c.desktops@, c.virtual_desktop_mapping@, n as int);
    }
    while p < n
        invariant
            p <= n,
            n == c.desktops@.len(),
            idx == linked_count(c.desktops@, c.virtual_desktop_mapping@, p as int),
            idx <= p,
            forall|q: int| 0 <= q < p ==> (#[trigger] c.desktops@[q]).id != id,
            has_id(c.desktops@, id as int),
        decreases n - p,
    {
        if c.desktops[p].id == id {
            proof {
                lemma_first_pos_at(c.desktops@, id as int, p as int);
            }
            return idx;
        }
        if has_link(c, c.desktops[p].id) {
            idx = idx + 1;
        }
        p = p + 1;
    }
    proof {
        let w = choose|w: int| 0 <= w < c.desktops@.len() && c.desktops@[w].id == id;
        assert(false);
    }
    0
}

/// The slot count after creation up to a required number was asked for.
pub open spec fn ensured_count(s: VirtualDesktops, required: int) -> int {
    if s.count >= required {
        s.count as int
    } else if required <= s.max_slots {
        required
    } else {
        s.max_slots as int
    }
}

/// Switches the whole workspace to a profile: validates the target,
/// saves the leaving profile's icons, redirects the desktop folder,
/// drives the linked virtual-desktop slot best effort, marks the target
/// active, and restores its icons.  A missing profile or folder is
/// rejected before anything is touched.
pub fn switch_workspace(c: &mut KimiConfig, world: &mut DesktopWorld, id: i32) -> (r: Result<
    (),
    String,
>)
    requires
        config_wf(*old(c)),
        vd_wf(old(world).slots),
        old(c).desktops@.len() < usize::MAX,
    ensures
        config_wf(*final(c)),
        vd_wf(final(world).slots),
        !has_id(old(c).desktops@, id as int) ==> *final(c) == *old(c) && *final(world) == *old(world) && (match r {
            Err(e) => e@ == "Desktop not found"@,
            Ok(_) => false,
        }),
        has_id(old(c).desktops@, id as int) && !old(world).folders@.contains(id) ==> *final(c)
            == *old(c) && *final(world) == *old(world) && (match r {
            Err(e) => e@ == "Desktop folder does not exist"@,
            Ok(_) => false,
        }),
        has_id(old(c).desktops@, id as int) && old(world).folders@.contains(id) ==> r is Ok && ({
            let cap = capture_fold(old(world).view.items@);
            let saved = old(c).active_desktop_id > 0 && old(c).active_desktop_id != id
                && cap.len() > 0;
            let target = layout_for(final(world).layouts@, id as int);
            let linked = has_key(old(c).virtual_desktop_mapping@, id as int);
            let vidx = linked_slot_index(*old(c), id as int);
            let count1 = ensured_count(old(world).slots, vidx + 1);
            &&& final(c).desktops@ == old(c).desktops@
            &&& final(c).active_desktop_id == id
            &&& final(c).original_desktop_path == old(c).original_desktop_path
            &&& final(c).virtual_desktop_mapping == old(c).virtual_desktop_mapping
            &&& final(world).root == old(world).root
            &&& final(world).folders == old(world).folders
            &&& final(world).desktop_path@ == folder_rep(old(world).root@, id as int)
            &&& (!linked ==> final(world).slots == old(world).slots)
            &&& (linked ==> final(world).slots.count == count1 && final(world).slots.current == (
            if vidx < count1 {
                vidx
            } else {
                old(world).slots.current as int
            }) && final(world).slots.max_slots == old(world).slots.max_slots && final(world).slots.windows == old(world).slots.windows)
            &&& (saved ==> layout_for(final(world).layouts@, old(c).active_desktop_id as int)
                == cap && (forall|k: int|
                k != old(c).active_desktop_id ==> layout_for(final(world).layouts@, k)
                    == layout_for(old(world).layouts@, k)))
            &&& (!saved ==> final(world).layouts == old(world).layouts)
            &&& (target.len() == 0 ==> final(world).view == old(world).view)
            &&& (target.len() > 0 ==> items_view(final(world).view.items@)
                == crate::icons::apply_layout(items_view(old(world).view.items@), target)
                && auto_arrange_off(final(world).view.folder_flags) && final(world).view.view_mode == FVM_ICON)
        }),
{
    if !has_desktop(c, id) {
        return Err(String::from_str("Desktop not found"));
    }
    if !world.folder_exists(id) {
        return Err(String::from_str("Desktop folder does not exist"));
    }
    crate::manager::save_current_icons(c, world, id);
    let path = get_desktop_folder_path(world.root.as_str(), id);
    let _ = set_desktop_path(world, path.as_str());
    if has_link(c, id) {
        let vidx = compute_linked_index(c, id);
        let _ = ensure_virtual_desktops_exist(&mut world.slots, vidx + 1);
        let _ = world.slots.switch_to_desktop(vidx);
    }
    c.active_desktop_id = id;
    crate::manager::restore_icons_for_desktop(world, id);
    Ok(())
}

} // verus!
