//! The desktop shell's background icon view, as the engine sees it:
//! a list of named items with positions and the folder's view flags.
//! Capturing reads the items into a layout; restoring places saved
//! positions back, snapped to the grid, best effort per icon.  The host
//! application mirrors the live shell view into this model and carries
//! the requested changes back out through COM.

use vstd::prelude::*;
use vstd::string::*;
use crate::codec::LayoutEntry;
use crate::layout::{snap_axis, snap_to_grid, DesktopIconsLayout, IconEntry, IconPosition};
use crate::text::str_eq;

verus! {

/// Auto-arrange folder flag bit.
pub const FWF_AUTOARRANGE: u32 = 0x00000001;

/// Snap-to-grid folder flag bit.
pub const FWF_SNAPTOGRID: u32 = 0x00000002;

/// Plain icon view mode.
pub const FVM_ICON: u32 = 1;

/// One item of the shell's background view.
#[derive(Debug)]
pub struct ViewItem {
    pub name: String,
    pub x: i32,
    pub y: i32,
}

impl View for ViewItem {
    type V = (Seq<char>, int, int);

    open spec fn view(&self) -> Self::V {
        (self.name@, self.x as int, self.y as int)
    }
}

/// The desktop's background icon view.
#[derive(Debug)]
pub struct DesktopIconView {
    pub items: Vec<ViewItem>,
    pub folder_flags: u32,
    pub view_mode: u32,
}

/// The items as name/position triples.
pub open spec fn items_view(items: Seq<ViewItem>) -> Seq<LayoutEntry> {
    items.map_values(|it: ViewItem| it@)
}

/// Both auto-arrange and snap-to-grid are off.
pub open spec fn auto_arrange_off(flags: u32) -> bool {
    flags & (FWF_AUTOARRANGE | FWF_SNAPTOGRID) == 0
}

/// Forces plain icon mode and clears auto-arrange and snap-to-grid, so
/// placed icons stay where they are put.
pub fn disable_auto_arrange(view: &mut DesktopIconView) -> (r: Result<(), String>)
    ensures
        r is Ok,
        final(view).view_mode == FVM_ICON,
        final(view).folder_flags == old(view).folder_flags & !(FWF_AUTOARRANGE | FWF_SNAPTOGRID),
        auto_arrange_off(final(view).folder_flags),
        final(view).items == old(view).items,
{
    view.view_mode = FVM_ICON;
    view.folder_flags = view.folder_flags & !(FWF_AUTOARRANGE | FWF_SNAPTOGRID);
    proof {
        let f = old(view).folder_flags;
        assert((f & !(1u32 | 2u32)) & (1u32 | 2u32) == 0) by (bit_vector);
    }
    Ok(())
}

/// Standalone form of the flag clearing, as the command surface offers it.
pub fn disable_desktop_auto_arrange(view: &mut DesktopIconView) -> (r: Result<(), String>)
    ensures
        r is Ok,
        final(view).view_mode == FVM_ICON,
        final(view).folder_flags == old(view).folder_flags & !(FWF_AUTOARRANGE | FWF_SNAPTOGRID),
        auto_arrange_off(final(view).folder_flags),
        final(view).items == old(view).items,
{
    disable_auto_arrange(view)
}

// ---------------------------------------------------------------------------
// Capture
// ---------------------------------------------------------------------------

/// Insert-or-overwrite by name: an existing entry keeps its place but
/// takes the new position, a new name goes to the end.
pub open spec fn upsert(es: Seq<LayoutEntry>, e: LayoutEntry) -> Seq<LayoutEntry>
    decreases es.len(),
{
    if es.len() == 0 {
        seq![e]
    } else if es[0].0 == e.0 {
        seq![e] + es.drop_first()
    } else {
        seq![es[0]] + upsert(es.drop_first(), e)
    }
}

/// The layout captured from the items, in order: unnamed items are
/// skipped, and of duplicate names the last wins.
pub open spec fn capture_fold(items: Seq<ViewItem>) -> Seq<LayoutEntry>
    decreases items.len(),
{
    if items.len() == 0 {
        Seq::<LayoutEntry>::empty()
    } else {
        let prev = capture_fold(items.drop_last());
        let it = items.last();
        if it.name@.len() == 0 {
            prev
        } else {
            upsert(prev, it@)
        }
    }
}

/// No two entries share a name.
pub open spec fn names_unique(es: Seq<LayoutEntry>) -> bool {
    forall|p: int, q: int| 0 <= p < q < es.len() ==> es[p].0 != es[q].0
}

/// Upserting keeps names unique, and adds at most one entry.
pub proof fn lemma_upsert_props(es: Seq<LayoutEntry>, e: LayoutEntry)
    requires
        names_unique(es),
    ensures
        names_unique(upsert(es, e)),
        forall|p: int|
            0 <= p < upsert(es, e).len() ==> (#[trigger] upsert(es, e)[p]).0 == e.0 || (exists|
                q: int,
            |
                0 <= q < es.len() && es[q] == upsert(es, e)[p]),
        upsert(es, e).len() <= es.len() + 1,
    decreases es.len(),
{
    if es.len() > 0 {
        let d = es.drop_first();
        assert(forall|p: int| 0 <= p < d.len() ==> d[p] == es[p + 1]);
        if es[0].0 == e.0 {
            let r = upsert(es, e);
            assert(forall|p: int| 1 <= p < r.len() ==> r[p] == es[p]);
        } else {
            lemma_upsert_props(d, e);
            let r0 = upsert(d, e);
            let r = upsert(es, e);
            assert(r[0] == es[0]);
            assert(forall|p: int| 1 <= p < r.len() ==> r[p] == r0[p - 1]);
            assert(forall|p: int, q: int| 0 <= p < q < r.len() ==> r[p].0 != r[q].0) by {
                assert(forall|p: int|
                    0 <= p < r0.len() ==> (#[trigger] r0[p]).0 == e.0 || (exists|q: int|
                        0 <= q < d.len() && d[q] == r0[p]));
                assert(forall|q: int| 0 <= q < d.len() ==> (#[trigger] d[q]).0 != es[0].0);
            }
        }
    }
}

/// Captured layouts never hold a name twice.
pub proof fn lemma_capture_unique(items: Seq<ViewItem>)
    ensures
        names_unique(capture_fold(items)),
    decreases items.len(),
{
    if items.len() > 0 {
        lemma_capture_unique(items.drop_last());
        if items.last().name@.len() != 0 {
            lemma_upsert_props(capture_fold(items.drop_last()), items.last()@);
        }
    }
}

/// When the first `k` entries miss the name, the upsert happens further
/// right; with a first match at `k`, it overwrites there.
proof fn lemma_upsert_at(es: Seq<LayoutEntry>, e: LayoutEntry, k: int)
    requires
        0 <= k <= es.len(),
        forall|q: int| 0 <= q < k ==> (#[trigger] es[q]).0 != e.0,
        k < es.len() ==> es[k].0 == e.0,
        k == es.len() ==> forall|q: int| 0 <= q < es.len() ==> (#[trigger] es[q]).0 != e.0,
    ensures
        k < es.len() ==> upsert(es, e) == es.update(k, e),
        k == es.len() ==> upsert(es, e) == es.push(e),
    decreases k,
{
    if es.len() == 0 {
        assert(upsert(es, e) =~= es.push(e));
    } else if k == 0 {
        if es.len() > 0 && es[0].0 == e.0 {
            assert(upsert(es, e) =~= es.update(0, e)) by {
                assert(forall|p: int| 1 <= p < es.len() ==> es.drop_first()[p - 1] == es[p]);
            }
        }
    } else {
        let d = es.drop_first();
        assert(forall|q: int| 0 <= q < d.len() ==> d[q] == es[q + 1]);
        lemma_upsert_at(d, e, k - 1);
        if k < es.len() {
            assert(upsert(es, e) =~= es.update(k, e)) by {
                assert(upsert(es, e) == seq![es[0]] + upsert(d, e));
                assert(upsert(d, e) == d.update(k - 1, e));
            }
        } else {
            assert(upsert(es, e) =~= es.push(e)) by {
                assert(upsert(es, e) == seq![es[0]] + upsert(d, e));
                assert(upsert(d, e) == d.push(e));
            }
        }
    }
}

/// Reads the current icon layout out of the view: every named item's
/// position, last occurrence of a name winning.
pub fn get_current_icon_positions(view: &DesktopIconView) -> (r: Result<DesktopIconsLayout, String>)
    ensures
        match r {
            Ok(l) => l@ == capture_fold(view.items@),
            Err(_) => false,
        },
{
    let n = view.items.len();
    let mut icons: Vec<IconEntry> = Vec::new();
    let mut i: usize = 0;
    while i < n
        invariant
            i <= n,
            n == view.items@.len(),
            icons@.map_values(|q: IconEntry| q@) == capture_fold(view.items@.take(i as int)),
        decreases n - i,
    {
        proof {
            assert(view.items@.take(i as int + 1).drop_last() =~= view.items@.take(i as int));
        }
        let ghost acc0 = icons@.map_values(|q: IconEntry| q@);
        let it = &view.items[i];
        if it.name.unicode_len() > 0 {
            let m = icons.len();
            let mut j: usize = 0;
            let mut found = false;
            while j < m && !found
                invariant
                    j <= m,
                    m == icons@.len(),
                    acc0 == icons@.map_values(|q: IconEntry| q@),
                    !found ==> forall|q: int|
                        0 <= q < j ==> (#[trigger] icons@[q]).name@ != it.name@,
                    found ==> j < m && icons@[j as int].name@ == it.name@ && (forall|q: int|
                        0 <= q < j ==> (#[trigger] icons@[q]).name@ != it.name@),
                decreases m - j + (if found { 0int } else { 1int }),
            {
                if str_eq(icons[j].name.as_str(), it.name.as_str()) {
                    found = true;
                } else {
                    j = j + 1;
                }
            }
            let entry = IconEntry {
                name: it.name.clone(),
                pos: IconPosition { x: it.x, y: it.y },
            };
            if found {
                icons[j] = entry;
                proof {
                    lemma_upsert_at(acc0, it@, j as int);
                    assert(icons@.map_values(|q: IconEntry| q@) =~= acc0.update(j as int, it@));
                }
            } else {
                icons.push(entry);
                proof {
                    lemma_upsert_at(acc0, it@, m as int);
                    assert(icons@.map_values(|q: IconEntry| q@) =~= acc0.push(it@));
                }
            }
        }
        i = i + 1;
    }
    proof {
        assert(view.items@.take(n as int) =~= view.items@);
    }
    Ok(DesktopIconsLayout { icons })
}

// ---------------------------------------------------------------------------
// Restore
// ---------------------------------------------------------------------------

/// Moves the first item of this name to the entry's snapped position;
/// with no such item nothing changes.
pub open spec fn place_one(vs: Seq<LayoutEntry>, e: LayoutEntry) -> Seq<LayoutEntry>
    decreases vs.len(),
{
    if vs.len() == 0 {
        vs
    } else if vs[0].0 == e.0 {
        seq![(vs[0].0, snap_axis(e.1), snap_axis(e.2))] + vs.drop_first()
    } else {
        seq![vs[0]] + place_one(vs.drop_first(), e)
    }
}

/// The items after every saved entry was placed, in saved order.
pub open spec fn apply_layout(vs: Seq<LayoutEntry>, es: Seq<LayoutEntry>) -> Seq<LayoutEntry>
    decreases es.len(),
{
    if es.len() == 0 {
        vs
    } else {
        apply_layout(place_one(vs, es[0]), es.drop_first())
    }
}

/// A left fold takes one more step at the end.
proof fn lemma_apply_layout_snoc(vs: Seq<LayoutEntry>, es: Seq<LayoutEntry>, e: LayoutEntry)
    ensures
        apply_layout(vs, es.push(e)) == place_one(apply_layout(vs, es), e),
    decreases es.len(),
{
    if es.len() == 0 {
        assert(es.push(e)[0] == e);
        assert(es.push(e).drop_first() =~= Seq::<LayoutEntry>::empty());
        assert(apply_layout(vs, es) == vs);
        assert(apply_layout(place_one(vs, e), Seq::<LayoutEntry>::empty()) == place_one(vs, e));
    } else {
        assert(es.push(e)[0] == es[0]);
        assert(es.push(e).drop_first() =~= es.drop_first().push(e));
        lemma_apply_layout_snoc(place_one(vs, es[0]), es.drop_first(), e);
    }
}

/// A first match at `k` pins down what `place_one` does.
proof fn lemma_place_at(vs: Seq<LayoutEntry>, e: LayoutEntry, k: int)
    requires
        0 <= k <= vs.len(),
        forall|q: int| 0 <= q < k ==> (#[trigger] vs[q]).0 != e.0,
        k < vs.len() ==> vs[k].0 == e.0,
        k == vs.len() ==> forall|q: int| 0 <= q < vs.len() ==> (#[trigger] vs[q]).0 != e.0,
    ensures
        k < vs.len() ==> place_one(vs, e) == vs.update(
            k,
            (vs[k].0, snap_axis(e.1), snap_axis(e.2)),
        ),
        k == vs.len() ==> place_one(vs, e) == vs,
    decreases k,
{
    if vs.len() == 0 {
    } else if k == 0 {
        if vs[0].0 == e.0 {
            assert(place_one(vs, e) =~= vs.update(0, (vs[0].0, snap_axis(e.1), snap_axis(e.2))))
                by {
                assert(forall|p: int| 1 <= p < vs.len() ==> vs.drop_first()[p - 1] == vs[p]);
            }
        }
    } else {
        let d = vs.drop_first();
        assert(forall|q: int| 0 <= q < d.len() ==> d[q] == vs[q + 1]);
        lemma_place_at(d, e, k - 1);
        if k < vs.len() {
            assert(place_one(vs, e) =~= vs.update(k, (vs[k].0, snap_axis(e.1), snap_axis(e.2))));
        } else {
            assert(place_one(vs, e) =~= vs);
        }
    }
}

/// Places every saved position onto the view, snapped to the grid.
/// An empty layout is a no-op that succeeds and changes nothing; names
/// that resolve to no item are skipped.
pub fn restore_icon_positions(layout: &DesktopIconsLayout, view: &mut DesktopIconView) -> (r:
    Result<(), String>)
    ensures
        r is Ok,
        layout@.len() == 0 ==> *final(view) == *old(view),
        layout@.len() > 0 ==> items_view(final(view).items@) == apply_layout(
            items_view(old(view).items@),
            layout@,
        ) && auto_arrange_off(final(view).folder_flags) && final(view).view_mode == FVM_ICON,
{
    if layout.is_empty() {
        return Ok(());
    }
    let _ = disable_auto_arrange(view);
    let n = layout.icons.len();
    let mut i: usize = 0;
    while i < n
        invariant
            i <= n,
            n == layout.icons@.len(),
            items_view(view.items@) == apply_layout(
                items_view(old(view).items@),
                layout@.take(i as int),
            ),
            auto_arrange_off(view.folder_flags),
            view.view_mode == FVM_ICON,
        decreases n - i,
    {
        let ghost vs0 = items_view(view.items@);
        let e = &layout.icons[i];
        let m = view.items.len();
        let mut j: usize = 0;
        let mut found = false;
        while j < m && !found
            invariant
                j <= m,
                m == view.items@.len(),
                vs0 == items_view(view.items@),
                !found ==> forall|q: int|
                    0 <= q < j ==> (#[trigger] view.items@[q]).name@ != e.name@,
                found ==> j < m && view.items@[j as int].name@ == e.name@ && (forall|q: int|
                    0 <= q < j ==> (#[trigger] view.items@[q]).name@ != e.name@),
            decreases m - j + (if found { 0int } else { 1int }),
        {
            if str_eq(view.items[j].name.as_str(), e.name.as_str()) {
                found = true;
            } else {
                j = j + 1;
            }
        }
        proof {
            assert(forall|q: int| 0 <= q < m ==> vs0[q] == (#[trigger] view.items@[q])@);
        }
        if found {
            let (sx, sy) = snap_to_grid(e.pos.x, e.pos.y);
            let name_kept = view.items[j].name.clone();
            view.items[j] = ViewItem { name: name_kept, x: sx, y: sy };
            proof {
                lemma_place_at(vs0, e@, j as int);
                assert(items_view(view.items@) =~= vs0.update(
                    j as int,
                    (vs0[j as int].0, snap_axis(e@.1), snap_axis(e@.2)),
                ));
            }
        } else {
            proof {
                lemma_place_at(vs0, e@, m as int);
            }
        }
        proof {
            lemma_apply_layout_snoc(items_view(old(view).items@), layout@.take(i as int), e@);
            assert(layout@.take(i as int + 1) =~= layout@.take(i as int).push(e@));
            assert(layout@[i as int] == e@);
        }
        i = i + 1;
    }
    proof {
        assert(layout@.take(n as int) =~= layout@);
    }
    Ok(())
}

// ---------------------------------------------------------------------------
// Readiness polling
// ---------------------------------------------------------------------------

/// A bounded polling policy: how many attempts, how long between them.
#[derive(Debug)]
pub struct RetryPolicy {
    pub max_attempts: u32,
    pub interval_ms: u32,
}

/// The policy used while waiting for the shell to repopulate its items.
pub fn icon_retry_policy() -> (r: RetryPolicy)
    ensures
        r.max_attempts == 15,
        r.interval_ms == 200,
{
    RetryPolicy { max_attempts: 15, interval_ms: 200 }
}

/// The view is ready once at least one item and at least half the
/// expected items are present.
pub open spec fn icons_ready(current: int, expected: int) -> bool {
    current >= 1 && current >= expected / 2
}

/// What one polling step decides.
#[derive(Debug)]
pub enum WaitDecision {
    Ready,
    Retry(u32),
    Proceed,
}

/// Decides one polling step while waiting for the shell: go on when
/// ready, sleep and retry while attempts remain, and proceed with
/// whatever is there once the budget is spent — a timeout never fails.
pub fn wait_for_icons(policy: &RetryPolicy, attempt: u32, current: usize, expected: usize) -> (r:
    WaitDecision)
    ensures
        icons_ready(current as int, expected as int) ==> r is Ready,
        !icons_ready(current as int, expected as int) && attempt + 1 < policy.max_attempts ==> r
            == WaitDecision::Retry(policy.interval_ms),
        !icons_ready(current as int, expected as int) && attempt + 1 >= policy.max_attempts ==> r
            is Proceed,
{
    if current >= 1 && current >= expected / 2 {
        WaitDecision::Ready
    } else if (attempt as u64) + 1 < policy.max_attempts as u64 {
        WaitDecision::Retry(policy.interval_ms)
    } else {
        WaitDecision::Proceed
    }
}

} // verus!
