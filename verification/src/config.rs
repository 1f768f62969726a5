//! Profile state: the persisted list of desktop profiles, the active
//! profile id, the original desktop path and the profile-to-slot links,
//! together with the guarded operations on it and the invariant they
//! preserve.

use vstd::prelude::*;
use vstd::string::*;
use crate::text::{append_i32, int_rep};

verus! {

/// Most profiles that may exist at once.
pub const MAX_DESKTOPS: usize = 20;

/// One persisted profile: id and display name.
#[derive(Debug)]
pub struct DesktopConfig {
    pub id: i32,
    pub name: String,
}

/// The whole persisted state document.
#[derive(Debug)]
pub struct KimiConfig {
    pub desktops: Vec<DesktopConfig>,
    pub active_desktop_id: i32,
    pub original_desktop_path: String,
    pub virtual_desktop_mapping: Vec<(i32, String)>,
}

/// A profile as shown to the UI: derived, never persisted.
#[derive(Debug)]
pub struct Desktop {
    pub id: i32,
    pub name: String,
    pub path: String,
    pub is_active: bool,
    pub file_count: i32,
}

// ---------------------------------------------------------------------------
// Invariant
// ---------------------------------------------------------------------------

/// No two profiles share an id.
pub open spec fn ids_unique(s: Seq<DesktopConfig>) -> bool {
    forall|p: int, q: int| 0 <= p < q < s.len() ==> s[p].id != s[q].id
}

/// Some profile has this id.
pub open spec fn has_id(s: Seq<DesktopConfig>, id: int) -> bool {
    exists|p: int| 0 <= p < s.len() && s[p].id == id
}

/// No two links share a profile id.
pub open spec fn keys_unique(m: Seq<(i32, String)>) -> bool {
    forall|p: int, q: int| 0 <= p < q < m.len() ==> m[p].0 != m[q].0
}

/// Some link has this profile id.
pub open spec fn has_key(m: Seq<(i32, String)>, id: int) -> bool {
    exists|p: int| 0 <= p < m.len() && m[p].0 == id
}

/// Well-formed state: positive unique profile ids, the active id either 0
/// or present, and unique link keys.
pub open spec fn config_wf(c: KimiConfig) -> bool {
    &&& ids_unique(c.desktops@)
    &&& forall|p: int| 0 <= p < c.desktops@.len() ==> (#[trigger] c.desktops@[p]).id >= 1
    &&& (c.active_desktop_id == 0 || has_id(c.desktops@, c.active_desktop_id as int))
    &&& keys_unique(c.virtual_desktop_mapping@)
}

/// Largest profile id, 0 when there are none.
pub open spec fn spec_max_id(s: Seq<DesktopConfig>) -> int
    decreases s.len(),
{
    if s.len() == 0 {
        0
    } else {
        let m = spec_max_id(s.drop_last());
        if s.last().id > m {
            s.last().id as int
        } else {
            m
        }
    }
}

/// Every id is at most the maximum.
pub proof fn lemma_max_id_ge(s: Seq<DesktopConfig>)
    ensures
        spec_max_id(s) >= 0,
        forall|p: int| 0 <= p < s.len() ==> (#[trigger] s[p]).id <= spec_max_id(s),
    decreases s.len(),
{
    if s.len() > 0 {
        lemma_max_id_ge(s.drop_last());
        assert(forall|p: int| 0 <= p < s.len() - 1 ==> s[p] == s.drop_last()[p]);
    }
}

/// The profiles without the given id, in their old order.
pub open spec fn remove_id(s: Seq<DesktopConfig>, id: int) -> Seq<DesktopConfig>
    decreases s.len(),
{
    if s.len() == 0 {
        s
    } else {
        let r = remove_id(s.drop_last(), id);
        if s.last().id == id {
            r
        } else {
            r.push(s.last())
        }
    }
}

/// Removal keeps uniqueness and membership of the other ids, and removes
/// the given id.
pub proof fn lemma_remove_id_props(s: Seq<DesktopConfig>, id: int)
    requires
        ids_unique(s),
    ensures
        ids_unique(remove_id(s, id)),
        !has_id(remove_id(s, id), id),
        forall|k: int| k != id ==> (has_id(remove_id(s, id), k) <==> has_id(s, k)),
        forall|p: int|
            0 <= p < remove_id(s, id).len() ==> (#[trigger] remove_id(s, id)[p]).id != id && has_id(
                s,
                remove_id(s, id)[p].id as int,
            ),
        remove_id(s, id).len() >= s.len() - 1,
        has_id(s, id) ==> remove_id(s, id).len() == s.len() - 1,
        !has_id(s, id) ==> remove_id(s, id) == s,
    decreases s.len(),
{
    if s.len() > 0 {
        let d = s.drop_last();
        assert(forall|p: int| 0 <= p < d.len() ==> d[p] == s[p]);
        assert(ids_unique(d));
        lemma_remove_id_props(d, id);
        let r = remove_id(s, id);
        if s.last().id == id {
            assert(!has_id(d, id)) by {
                assert(forall|p: int| 0 <= p < d.len() ==> d[p].id != s.last().id);
            }
            assert(forall|k: int| has_id(d, k) ==> has_id(s, k));
            assert(forall|k: int| k != id && has_id(s, k) ==> has_id(d, k)) by {
                assert(forall|p: int|
                    0 <= p < s.len() && (#[trigger] s[p]).id != id ==> 0 <= p < d.len() && d[p]
                        == s[p]);
            }
        } else {
            let r0 = remove_id(d, id);
            assert(r == r0.push(s.last()));
            assert(ids_unique(r)) by {
                assert(forall|p: int| 0 <= p < r0.len() ==> has_id(d, (#[trigger] r0[p]).id as int));
                assert(forall|p: int| 0 <= p < r0.len() ==> r[p] == r0[p]);
                assert(forall|p: int|
                    0 <= p < d.len() ==> (#[trigger] d[p]).id != s.last().id) by {
                    assert(forall|p: int| 0 <= p < d.len() ==> d[p] == s[p]);
                }
            }
            assert(forall|k: int| k != id ==> (has_id(r, k) <==> has_id(s, k))) by {
                assert(forall|p: int| 0 <= p < r0.len() ==> r[p] == r0[p]);
                assert(r[r.len() - 1] == s.last());
                assert(forall|k: int| has_id(r0, k) ==> has_id(r, k)) by {
                    assert(forall|p: int| 0 <= p < r0.len() ==> r[p] == r0[p]);
                }
                assert(forall|k: int| k != id && has_id(s, k) && k != s.last().id ==> has_id(d, k))
                    by {
                    assert(forall|p: int|
                        0 <= p < s.len() && p != s.len() - 1 ==> s[p] == d[p]);
                }
            }
        }
    }
}

// ---------------------------------------------------------------------------
// Default label
// ---------------------------------------------------------------------------

/// Default display name of a new profile.
pub open spec fn label_rep(id: int) -> Seq<char> {
    seq!['D', 'e', 's', 'k', 't', 'o', 'p', ' '] + int_rep(id)
}

/// Builds the default display name for a profile id.
pub fn default_desktop_name(id: i32) -> (r: String)
    ensures
        r@ == label_rep(id as int),
{
    let mut out = String::from_str("Desktop ");
    proof {
        reveal_strlit("Desktop ");
        assert("Desktop "@ =~= seq!['D', 'e', 's', 'k', 't', 'o', 'p', ' ']);
    }
    append_i32(&mut out, id);
    out
}

// ---------------------------------------------------------------------------
// Queries
// ---------------------------------------------------------------------------

/// Whether a profile with this id exists.
pub fn has_desktop(c: &KimiConfig, id: i32) -> (r: bool)
    ensures
        r == has_id(c.desktops@, id as int),
{
    let n = c.desktops.len();
    let mut p: usize = 0;
    while p < n
        invariant
            p <= n,
            n == c.desktops@.len(),
            forall|q: int| 0 <= q < p ==> (#[trigger] c.desktops@[q]).id != id,
        decreases n - p,
    {
        if c.desktops[p].id == id {
            return true;
        }
        p = p + 1;
    }
    false
}

/// Largest existing profile id, 0 with no profiles.
pub fn max_desktop_id(c: &KimiConfig) -> (r: i32)
    ensures
        r as int == spec_max_id(c.desktops@),
{
    let n = c.desktops.len();
    let mut m: i32 = 0;
    let mut p: usize = 0;
    while p < n
        invariant
            p <= n,
            n == c.desktops@.len(),
            m as int == spec_max_id(c.desktops@.take(p as int)),
        decreases n - p,
    {
        proof {
            assert(c.desktops@.take(p as int + 1).drop_last() =~= c.desktops@.take(p as int));
        }
        if c.desktops[p].id > m {
            m = c.desktops[p].id;
        }
        p = p + 1;
    }
    proof {
        assert(c.desktops@.take(n as int) =~= c.desktops@);
    }
    m
}

/// Whether a profile has a recorded link.
pub fn has_link(c: &KimiConfig, id: i32) -> (r: bool)
    ensures
        r == has_key(c.virtual_desktop_mapping@, id as int),
{
    let n = c.virtual_desktop_mapping.len();
    let mut p: usize = 0;
    while p < n
        invariant
            p <= n,
            n == c.virtual_desktop_mapping@.len(),
            forall|q: int| 0 <= q < p ==> (#[trigger] c.virtual_desktop_mapping@[q]).0 != id,
        decreases n - p,
    {
        if c.virtual_desktop_mapping[p].0 == id {
            return true;
        }
        p = p + 1;
    }
    false
}

/// The slot linked to a profile, if any.
pub fn get_linked_slot(c: &KimiConfig, id: i32) -> (r: Option<String>)
    requires
        keys_unique(c.virtual_desktop_mapping@),
    ensures
        match r {
            Some(slot) => exists|p: int|
                0 <= p < c.virtual_desktop_mapping@.len() && c.virtual_desktop_mapping@[p] == (
                id,
                slot,
                ),
            None => !has_key(c.virtual_desktop_mapping@, id as int),
        },
{
    let n = c.virtual_desktop_mapping.len();
    let mut p: usize = 0;
    while p < n
        invariant
            p <= n,
            n == c.virtual_desktop_mapping@.len(),
            forall|q: int| 0 <= q < p ==> (#[trigger] c.virtual_desktop_mapping@[q]).0 != id,
        decreases n - p,
    {
        if c.virtual_desktop_mapping[p].0 == id {
            let slot = c.virtual_desktop_mapping[p].1.clone();
            return Some(slot);
        }
        p = p + 1;
    }
    None
}

// ---------------------------------------------------------------------------
// Mutations
// ---------------------------------------------------------------------------

/// Removes a profile from the state.  Deleting the active profile is
/// rejected with the active-profile reason, deleting the last remaining
/// one with the last-profile reason; both leave the state unchanged.
/// Deleting an id that does not exist leaves the list as it is and
/// succeeds, as the underlying retain does.
pub fn delete_desktop(c: &mut KimiConfig, id: i32) -> (r: Result<(), String>)
    requires
        config_wf(*old(c)),
    ensures
        config_wf(*final(c)),
        old(c).active_desktop_id == id ==> r is Err && *final(c) == *old(c) && (match r {
            Err(e) => e@ == "Cannot delete the active desktop"@,
            Ok(_) => false,
        }),
        old(c).active_desktop_id != id && old(c).desktops@.len() <= 1 ==> r is Err && *final(c)
            == *old(c) && (match r {
            Err(e) => e@ == "Cannot delete the last desktop"@,
            Ok(_) => false,
        }),
        old(c).active_desktop_id != id && old(c).desktops@.len() > 1 ==> r is Ok
            && final(c).desktops@ == remove_id(old(c).desktops@, id as int)
            && final(c).active_desktop_id == old(c).active_desktop_id
            && final(c).original_desktop_path == old(c).original_desktop_path
            && final(c).virtual_desktop_mapping == old(c).virtual_desktop_mapping,
        profile_abs(*final(c)) == apply_op(profile_abs(*old(c)), ProfileOp::Delete(id)),
{
    proof {
        lemma_abs_remove(old(c).desktops@, id as int);
    }
    if c.active_desktop_id == id {
        return Err(String::from_str("Cannot delete the active desktop"));
    }
    if c.desktops.len() <= 1 {
        return Err(String::from_str("Cannot delete the last desktop"));
    }
    let n = c.desktops.len();
    let mut kept: Vec<DesktopConfig> = Vec::new();
    let mut p: usize = 0;
    while p < n
        invariant
            p <= n,
            n == c.desktops@.len(),
            kept@ == remove_id(c.desktops@.take(p as int), id as int),
        decreases n - p,
    {
        proof {
            assert(c.desktops@.take(p as int + 1).drop_last() =~= c.desktops@.take(p as int));
        }
        let d = &c.desktops[p];
        if d.id != id {
            kept.push(DesktopConfig { id: d.id, name: d.name.clone() });
        }
        p = p + 1;
    }
    proof {
        assert(c.desktops@.take(n as int) =~= c.desktops@);
        lemma_remove_id_props(c.desktops@, id as int);
    }
    c.desktops = kept;
    Ok(())
}

/// Records a link from a profile to a virtual-desktop slot; an existing
/// link for that profile is overwritten.
pub fn link_to_virtual_desktop(c: &mut KimiConfig, id: i32, slot: String) -> (r: Result<
    (),
    String,
>)
    requires
        config_wf(*old(c)),
    ensures
        config_wf(*final(c)),
        !has_id(old(c).desktops@, id as int) ==> r is Err && *final(c) == *old(c) && (match r {
            Err(e) => e@ == "Desktop not found"@,
            Ok(_) => false,
        }),
        has_id(old(c).desktops@, id as int) ==> r is Ok && final(c).desktops@ == old(c).desktops@
            && final(c).active_desktop_id == old(c).active_desktop_id
            && final(c).original_desktop_path == old(c).original_desktop_path && ({
            let m0 = old(c).virtual_desktop_mapping@;
            let m1 = final(c).virtual_desktop_mapping@;
            if has_key(m0, id as int) {
                m1.len() == m0.len() && forall|p: int|
                    0 <= p < m0.len() ==> #[trigger] m1[p] == (if m0[p].0 == id {
                        (id, slot)
                    } else {
                        m0[p]
                    })
            } else {
                m1 == m0.push((id, slot))
            }
        }),
{
    if !has_desktop(c, id) {
        return Err(String::from_str("Desktop not found"));
    }
    let n = c.virtual_desktop_mapping.len();
    let mut out: Vec<(i32, String)> = Vec::new();
    let mut found = false;
    let mut p: usize = 0;
    while p < n
        invariant
            p <= n,
            n == c.virtual_desktop_mapping@.len(),
            out@.len() == p,
            found == has_key(c.virtual_desktop_mapping@.take(p as int), id as int),
            forall|q: int|
                0 <= q < p ==> #[trigger] out@[q] == (if c.virtual_desktop_mapping@[q].0 == id {
                    (id, slot)
                } else {
                    c.virtual_desktop_mapping@[q]
                }),
        decreases n - p,
    {
        let e = &c.virtual_desktop_mapping[p];
        if e.0 == id {
            out.push((id, slot.clone()));
            found = true;
        } else {
            out.push((e.0, e.1.clone()));
        }
        proof {
            let m = c.virtual_desktop_mapping@;
            assert(forall|q: int| 0 <= q < p ==> m.take(p as int)[q] == m[q]);
            assert(forall|q: int| 0 <= q <= p ==> m.take(p as int + 1)[q] == m[q]);
            assert(has_key(m.take(p as int + 1), id as int) <==> (has_key(
                m.take(p as int),
                id as int,
            ) || m[p as int].0 == id));
        }
        p = p + 1;
    }
    proof {
        assert(c.virtual_desktop_mapping@.take(n as int) =~= c.virtual_desktop_mapping@);
    }
    if !found {
        out.push((id, slot));
    }
    proof {
        let m0 = c.virtual_desktop_mapping@;
        if !has_key(m0, id as int) {
            assert(out@ =~= m0.push((id, slot)));
        }
        assert(keys_unique(out@));
    }
    c.virtual_desktop_mapping = out;
    Ok(())
}

/// The links without the given profile id, in their old order.
pub open spec fn remove_key(m: Seq<(i32, String)>, id: int) -> Seq<(i32, String)>
    decreases m.len(),
{
    if m.len() == 0 {
        m
    } else {
        let r = remove_key(m.drop_last(), id);
        if m.last().0 == id {
            r
        } else {
            r.push(m.last())
        }
    }
}

/// Key removal keeps key uniqueness.
pub proof fn lemma_remove_key_props(m: Seq<(i32, String)>, id: int)
    requires
        keys_unique(m),
    ensures
        keys_unique(remove_key(m, id)),
        !has_key(remove_key(m, id), id),
        forall|p: int|
            0 <= p < remove_key(m, id).len() ==> has_key(
                m,
                (#[trigger] remove_key(m, id)[p]).0 as int,
            ),
    decreases m.len(),
{
    if m.len() > 0 {
        let d = m.drop_last();
        assert(forall|p: int| 0 <= p < d.len() ==> d[p] == m[p]);
        assert(keys_unique(d));
        lemma_remove_key_props(d, id);
        if m.last().0 != id {
            let r0 = remove_key(d, id);
            let r = remove_key(m, id);
            assert(r == r0.push(m.last()));
            assert(forall|p: int| 0 <= p < r0.len() ==> r[p] == r0[p]);
            assert(forall|p: int| 0 <= p < d.len() ==> (#[trigger] d[p]).0 != m.last().0);
        }
    }
}

/// Drops the link of a profile, if it had one.
pub fn unlink_from_virtual_desktop(c: &mut KimiConfig, id: i32) -> (r: Result<(), String>)
    requires
        config_wf(*old(c)),
    ensures
        config_wf(*final(c)),
        r is Ok,
        final(c).virtual_desktop_mapping@ == remove_key(
            old(c).virtual_desktop_mapping@,
            id as int,
        ),
        final(c).desktops@ == old(c).desktops@,
        final(c).active_desktop_id == old(c).active_desktop_id,
        final(c).original_desktop_path == old(c).original_desktop_path,
{
    let n = c.virtual_desktop_mapping.len();
    let mut out: Vec<(i32, String)> = Vec::new();
    let mut p: usize = 0;
    while p < n
        invariant
            p <= n,
            n == c.virtual_desktop_mapping@.len(),
            out@ == remove_key(c.virtual_desktop_mapping@.take(p as int), id as int),
        decreases n - p,
    {
        proof {
            assert(c.virtual_desktop_mapping@.take(p as int + 1).drop_last()
                =~= c.virtual_desktop_mapping@.take(p as int));
        }
        let e = &c.virtual_desktop_mapping[p];
        if e.0 != id {
            out.push((e.0, e.1.clone()));
        }
        p = p + 1;
    }
    proof {
        assert(c.virtual_desktop_mapping@.take(n as int) =~= c.virtual_desktop_mapping@);
        lemma_remove_key_props(c.virtual_desktop_mapping@, id as int);
    }
    c.virtual_desktop_mapping = out;
    Ok(())
}

// ---------------------------------------------------------------------------
// The create/delete model and its invariant
// ---------------------------------------------------------------------------

/// Abstract view of the profile list: the ids and the active id.
#[verifier::ext_equal]
pub struct ProfileState {
    pub ids: Seq<int>,
    pub active: int,
}

/// One profile operation.
pub enum ProfileOp {
    Create,
    Delete(i32),
}

/// The invariant of the abstract state: ids positive and unique, the
/// active id 0 or present.
pub open spec fn st_wf(st: ProfileState) -> bool {
    &&& forall|p: int, q: int| 0 <= p < q < st.ids.len() ==> st.ids[p] != st.ids[q]
    &&& forall|p: int| 0 <= p < st.ids.len() ==> st.ids[p] >= 1
    &&& (st.active == 0 || st.ids.contains(st.active))
}

/// Largest id, 0 with none.
pub open spec fn seq_max(ids: Seq<int>) -> int
    decreases ids.len(),
{
    if ids.len() == 0 {
        0
    } else {
        let m = seq_max(ids.drop_last());
        if ids.last() > m {
            ids.last()
        } else {
            m
        }
    }
}

/// The ids without the given one, in their old order.
pub open spec fn ids_remove(ids: Seq<int>, id: int) -> Seq<int>
    decreases ids.len(),
{
    if ids.len() == 0 {
        ids
    } else {
        let r = ids_remove(ids.drop_last(), id);
        if ids.last() == id {
            r
        } else {
            r.push(ids.last())
        }
    }
}

/// What one operation does to the abstract state.  A create beyond the
/// maximum, and a delete of the last or the active profile, change
/// nothing, as the guarded operations reject them.
pub open spec fn apply_op(st: ProfileState, op: ProfileOp) -> ProfileState {
    match op {
        ProfileOp::Create => if st.ids.len() >= MAX_DESKTOPS {
            st
        } else {
            ProfileState { ids: st.ids.push(seq_max(st.ids) + 1), active: st.active }
        },
        ProfileOp::Delete(id) => if st.ids.len() <= 1 || st.active == id {
            st
        } else {
            ProfileState { ids: ids_remove(st.ids, id as int), active: st.active }
        },
    }
}

/// The abstract state after a whole sequence of operations.
pub open spec fn run_ops(st: ProfileState, ops: Seq<ProfileOp>) -> ProfileState
    decreases ops.len(),
{
    if ops.len() == 0 {
        st
    } else {
        run_ops(apply_op(st, ops[0]), ops.drop_first())
    }
}

/// Every id is at most `seq_max`, which is never negative.
pub proof fn lemma_seq_max_ge(ids: Seq<int>)
    ensures
        seq_max(ids) >= 0,
        forall|p: int| 0 <= p < ids.len() ==> #[trigger] ids[p] <= seq_max(ids),
    decreases ids.len(),
{
    if ids.len() > 0 {
        lemma_seq_max_ge(ids.drop_last());
        assert(forall|p: int| 0 <= p < ids.len() - 1 ==> ids[p] == ids.drop_last()[p]);
    }
}

/// Removal of an id keeps uniqueness, positivity and the other ids.
pub proof fn lemma_ids_remove_props(ids: Seq<int>, id: int)
    requires
        forall|p: int, q: int| 0 <= p < q < ids.len() ==> ids[p] != ids[q],
    ensures
        forall|p: int, q: int|
            0 <= p < q < ids_remove(ids, id).len() ==> ids_remove(ids, id)[p] != ids_remove(
                ids,
                id,
            )[q],
        forall|p: int|
            0 <= p < ids_remove(ids, id).len() ==> #[trigger] ids_remove(ids, id)[p] != id
                && ids.contains(ids_remove(ids, id)[p]),
        forall|k: int| k != id && ids.contains(k) ==> ids_remove(ids, id).contains(k),
    decreases ids.len(),
{
    if ids.len() > 0 {
        let d = ids.drop_last();
        assert(forall|p: int| 0 <= p < d.len() ==> d[p] == ids[p]);
        lemma_ids_remove_props(d, id);
        let r = ids_remove(ids, id);
        assert(forall|k: int| d.contains(k) ==> ids.contains(k));
        if ids.last() == id {
            assert(forall|k: int| k != id && ids.contains(k) ==> d.contains(k)) by {
                assert(forall|p: int| 0 <= p < ids.len() && ids[p] != id ==> 0 <= p < d.len());
            }
        } else {
            let r0 = ids_remove(d, id);
            assert(r == r0.push(ids.last()));
            assert(forall|p: int| 0 <= p < r0.len() ==> r[p] == r0[p]);
            assert(r[r.len() - 1] == ids.last());
            assert(forall|p: int| 0 <= p < d.len() ==> #[trigger] d[p] != ids.last());
            assert(forall|k: int| r0.contains(k) ==> r.contains(k)) by {
                assert(forall|p: int| 0 <= p < r0.len() ==> r[p] == r0[p]);
            }
            assert(forall|k: int| k != id && ids.contains(k) && k != ids.last() ==> d.contains(k))
                by {
                assert(forall|p: int| 0 <= p < ids.len() && p != ids.len() - 1 ==> ids[p] == d[p]);
            }
        }
    }
}

/// One operation keeps the invariant.
pub proof fn lemma_apply_op_wf(st: ProfileState, op: ProfileOp)
    requires
        st_wf(st),
    ensures
        st_wf(apply_op(st, op)),
{
    match op {
        ProfileOp::Create => {
            if st.ids.len() < MAX_DESKTOPS {
                lemma_seq_max_ge(st.ids);
                let st2 = apply_op(st, op);
                assert(forall|p: int| 0 <= p < st.ids.len() ==> st2.ids[p] == st.ids[p]);
                assert(st2.ids[st2.ids.len() - 1] == seq_max(st.ids) + 1);
                if st.active != 0 {
                    let w = choose|w: int| 0 <= w < st.ids.len() && st.ids[w] == st.active;
                    assert(st2.ids[w] == st.active);
                }
            }
        },
        ProfileOp::Delete(id) => {
            if !(st.ids.len() <= 1 || st.active == id) {
                lemma_ids_remove_props(st.ids, id as int);
                let st2 = apply_op(st, op);
                if st.active != 0 {
                    assert(st2.ids.contains(st.active));
                }
                assert(forall|p: int|
                    0 <= p < st2.ids.len() ==> #[trigger] st2.ids[p] >= 1) by {
                    assert(forall|p: int|
                        0 <= p < st2.ids.len() ==> st.ids.contains(#[trigger] st2.ids[p]));
                }
            }
        },
    }
}

/// For all sequences of create and delete operations, profile ids stay
/// unique and positive and the active profile stays either present in the
/// list or equal to 0.
pub proof fn lemma_run_ops_wf(st: ProfileState, ops: Seq<ProfileOp>)
    requires
        st_wf(st),
    ensures
        st_wf(run_ops(st, ops)),
    decreases ops.len(),
{
    if ops.len() > 0 {
        lemma_apply_op_wf(st, ops[0]);
        lemma_run_ops_wf(apply_op(st, ops[0]), ops.drop_first());
    }
}

/// Abstract view of a state document.
pub open spec fn profile_abs(c: KimiConfig) -> ProfileState {
    ProfileState {
        ids: c.desktops@.map_values(|d: DesktopConfig| d.id as int),
        active: c.active_desktop_id as int,
    }
}

/// Removing a profile commutes with taking the abstract view.
pub proof fn lemma_abs_remove(s: Seq<DesktopConfig>, id: int)
    ensures
        remove_id(s, id).map_values(|d: DesktopConfig| d.id as int) == ids_remove(
            s.map_values(|d: DesktopConfig| d.id as int),
            id,
        ),
    decreases s.len(),
{
    let ids = s.map_values(|d: DesktopConfig| d.id as int);
    if s.len() == 0 {
        assert(remove_id(s, id).map_values(|d: DesktopConfig| d.id as int) =~= ids_remove(
            ids,
            id,
        ));
    } else {
        let d = s.drop_last();
        lemma_abs_remove(d, id);
        assert(ids.drop_last() =~= d.map_values(|q: DesktopConfig| q.id as int));
        assert(ids.last() == s.last().id as int);
        if s.last().id == id {
            assert(remove_id(s, id) == remove_id(d, id));
        } else {
            assert(remove_id(s, id).map_values(|q: DesktopConfig| q.id as int) =~= remove_id(
                d,
                id,
            ).map_values(|q: DesktopConfig| q.id as int).push(s.last().id as int));
        }
    }
}

/// The largest id commutes with taking the abstract view.
pub proof fn lemma_abs_max(s: Seq<DesktopConfig>)
    ensures
        spec_max_id(s) == seq_max(s.map_values(|d: DesktopConfig| d.id as int)),
    decreases s.len(),
{
    if s.len() > 0 {
        lemma_abs_max(s.drop_last());
        assert(s.map_values(|d: DesktopConfig| d.id as int).drop_last() =~= s.drop_last()
            .map_values(|d: DesktopConfig| d.id as int));
    }
}

/// The recorded profile-to-slot links, as pairs.
pub fn get_workspace_mappings(c: &KimiConfig) -> (r: Vec<(i32, String)>)
    ensures
        r@ == c.virtual_desktop_mapping@,
{
    let n = c.virtual_desktop_mapping.len();
    let mut out: Vec<(i32, String)> = Vec::new();
    let mut p: usize = 0;
    while p < n
        invariant
            p <= n,
            n == c.virtual_desktop_mapping@.len(),
            out@.len() == p,
            forall|q: int| 0 <= q < p ==> out@[q] == c.virtual_desktop_mapping@[q],
        decreases n - p,
    {
        let e = &c.virtual_desktop_mapping[p];
        out.push((e.0, e.1.clone()));
        p = p + 1;
    }
    proof {
        assert(out@ =~= c.virtual_desktop_mapping@);
    }
    out
}

} // verus!
