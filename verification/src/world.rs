//! The platform state the engine acts on: where the OS desktop folder
//! points, which profile folders exist, the shell's icon view, the
//! virtual-desktop slots, and the saved layout sidecar of each profile
//! folder.  The host application mirrors the live system into this model
//! and carries the changes back out.

use vstd::prelude::*;
use vstd::string::*;
use crate::codec::LayoutEntry;
use crate::icons::DesktopIconView;
use crate::layout::{DesktopIconsLayout, IconEntry, IconPosition};
use crate::vdesk::VirtualDesktops;

verus! {

/// Everything outside the state document that a switch touches.
#[derive(Debug)]
pub struct DesktopWorld {
    pub root: String,
    pub desktop_path: String,
    pub folders: Vec<i32>,
    pub view: DesktopIconView,
    pub slots: VirtualDesktops,
    pub layouts: Vec<(i32, DesktopIconsLayout)>,
}

/// The saved layout of a profile folder: the first stored one, or none.
pub open spec fn layout_for(ls: Seq<(i32, DesktopIconsLayout)>, id: int) -> Seq<LayoutEntry>
    decreases ls.len(),
{
    if ls.len() == 0 {
        Seq::<LayoutEntry>::empty()
    } else if ls[0].0 == id {
        ls[0].1@
    } else {
        layout_for(ls.drop_first(), id)
    }
}

/// Updating the entry at a first match changes only that key's layout.
proof fn lemma_layout_for_update(
    ls: Seq<(i32, DesktopIconsLayout)>,
    j: int,
    pair: (i32, DesktopIconsLayout),
)
    requires
        0 <= j < ls.len(),
        ls[j].0 == pair.0,
        forall|q: int| 0 <= q < j ==> (#[trigger] ls[q]).0 != pair.0,
    ensures
        layout_for(ls.update(j, pair), pair.0 as int) == pair.1@,
        forall|k: int| k != pair.0 ==> layout_for(ls.update(j, pair), k) == layout_for(ls, k),
    decreases j,
{
    let u = ls.update(j, pair);
    if j == 0 {
        assert(u[0] == pair);
        assert forall|k: int| k != pair.0 implies layout_for(u, k) == layout_for(ls, k) by {
            assert(u.drop_first() =~= ls.drop_first());
            assert(ls[0].0 == pair.0);
        }
    } else {
        let d = ls.drop_first();
        assert(forall|q: int| 0 <= q < d.len() ==> d[q] == ls[q + 1]);
        lemma_layout_for_update(d, j - 1, pair);
        assert(u[0] == ls[0]);
        assert(u.drop_first() =~= d.update(j - 1, pair));
        assert(ls[0].0 != pair.0);
        assert(layout_for(u, pair.0 as int) == layout_for(u.drop_first(), pair.0 as int));
        assert forall|k: int| k != pair.0 implies layout_for(u, k) == layout_for(ls, k) by {
            assert(layout_for(u, k) == if u[0].0 == k {
                u[0].1@
            } else {
                layout_for(u.drop_first(), k)
            });
            assert(layout_for(ls, k) == if ls[0].0 == k {
                ls[0].1@
            } else {
                layout_for(d, k)
            });
            assert(layout_for(u.drop_first(), k) == layout_for(d.update(j - 1, pair), k));
        }
    }
}

/// Appending a new key changes only that key's layout.
proof fn lemma_layout_for_push(ls: Seq<(i32, DesktopIconsLayout)>, pair: (i32, DesktopIconsLayout))
    requires
        forall|q: int| 0 <= q < ls.len() ==> (#[trigger] ls[q]).0 != pair.0,
    ensures
        layout_for(ls.push(pair), pair.0 as int) == pair.1@,
        forall|k: int| k != pair.0 ==> layout_for(ls.push(pair), k) == layout_for(ls, k),
    decreases ls.len(),
{
    let u = ls.push(pair);
    if ls.len() == 0 {
        assert(u[0] == pair);
        assert(u.drop_first() =~= Seq::<(i32, DesktopIconsLayout)>::empty());
        assert forall|k: int| k != pair.0 implies layout_for(u, k) == layout_for(ls, k) by {
            assert(layout_for(u, k) == layout_for(u.drop_first(), k));
        }
    } else {
        let d = ls.drop_first();
        assert(forall|q: int| 0 <= q < d.len() ==> d[q] == ls[q + 1]);
        lemma_layout_for_push(d, pair);
        assert(u[0] == ls[0]);
        assert(u.drop_first() =~= d.push(pair));
        assert(ls[0].0 != pair.0);
        assert(layout_for(u, pair.0 as int) == layout_for(u.drop_first(), pair.0 as int));
        assert forall|k: int| k != pair.0 implies layout_for(u, k) == layout_for(ls, k) by {
            assert(layout_for(u, k) == if u[0].0 == k {
                u[0].1@
            } else {
                layout_for(u.drop_first(), k)
            });
            assert(layout_for(ls, k) == if ls[0].0 == k {
                ls[0].1@
            } else {
                layout_for(d, k)
            });
            assert(layout_for(u.drop_first(), k) == layout_for(d.push(pair), k));
        }
    }
}

/// Deep copy of a layout.
pub fn clone_layout(l: &DesktopIconsLayout) -> (r: DesktopIconsLayout)
    ensures
        r@ == l@,
{
    let n = l.icons.len();
    let mut icons: Vec<IconEntry> = Vec::new();
    let mut p: usize = 0;
    while p < n
        invariant
            p <= n,
            n == l.icons@.len(),
            icons@.len() == p,
            forall|q: int| 0 <= q < p ==> (#[trigger] icons@[q])@ == l.icons@[q]@,
        decreases n - p,
    {
        let e = &l.icons[p];
        icons.push(
            IconEntry { name: e.name.clone(), pos: IconPosition { x: e.pos.x, y: e.pos.y } },
        );
        p = p + 1;
    }
    let r = DesktopIconsLayout { icons };
    proof {
        assert(r@ =~= l@);
    }
    r
}

impl DesktopWorld {
    /// Whether the folder of a profile exists on disk.
    pub fn folder_exists(&self, id: i32) -> (r: bool)
        ensures
            r == self.folders@.contains(id),
    {
        let n = self.folders.len();
        let mut p: usize = 0;
        while p < n
            invariant
                p <= n,
                n == self.folders@.len(),
                forall|q: int| 0 <= q < p ==> self.folders@[q] != id,
            decreases n - p,
        {
            if self.folders[p] == id {
                return true;
            }
            p = p + 1;
        }
        false
    }

    /// Stores a profile folder's saved layout, replacing an earlier one.
    pub fn put_layout(&mut self, id: i32, l: DesktopIconsLayout)
        ensures
            layout_for(final(self).layouts@, id as int) == l@,
            forall|k: int|
                k != id ==> layout_for(final(self).layouts@, k) == layout_for(
                    old(self).layouts@,
                    k,
                ),
            final(self).root == old(self).root,
            final(self).desktop_path == old(self).desktop_path,
            final(self).folders == old(self).folders,
            final(self).view == old(self).view,
            final(self).slots == old(self).slots,
    {
        let n = self.layouts.len();
        let mut p: usize = 0;
        while p < n
            invariant
                p <= n,
                n == self.layouts@.len(),
                *self == *old(self),
                forall|q: int| 0 <= q < p ==> (#[trigger] self.layouts@[q]).0 != id,
            decreases n - p,
        {
            if self.layouts[p].0 == id {
                self.layouts[p] = (id, l);
                proof {
                    lemma_layout_for_update(old(self).layouts@, p as int, (id, l));
                }
                return;
            }
            p = p + 1;
        }
        self.layouts.push((id, l));
        proof {
            lemma_layout_for_push(old(self).layouts@, (id, l));
        }
    }

    /// Reads the saved layout of a profile folder; a missing sidecar is
    /// the empty layout.
    pub fn read_layout(&self, id: i32) -> (r: DesktopIconsLayout)
        ensures
            r@ == layout_for(self.layouts@, id as int),
    {
        let n = self.layouts.len();
        let mut p: usize = 0;
        proof {
            assert(self.layouts@.skip(0) =~= self.layouts@);
        }
        while p < n
            invariant
                p <= n,
                n == self.layouts@.len(),
                layout_for(self.layouts@, id as int) == layout_for(
                    self.layouts@.skip(p as int),
                    id as int,
                ),
            decreases n - p,
        {
            proof {
                let rest = self.layouts@.skip(p as int);
                assert(rest[0] == self.layouts@[p as int]);
                assert(rest.drop_first() =~= self.layouts@.skip(p as int + 1));
            }
            if self.layouts[p].0 == id {
                return clone_layout(&self.layouts[p].1);
            }
            p = p + 1;
        }
        proof {
            assert(self.layouts@.skip(n as int) =~= Seq::<(i32, DesktopIconsLayout)>::empty());
        }
        DesktopIconsLayout { icons: Vec::new() }
    }
}

/// Points the OS desktop folder at a path.  In the live system the
/// redirection is followed by change broadcasts and a best-effort view
/// refresh, which change nothing the engine reads.
pub fn set_desktop_path(world: &mut DesktopWorld, path: &str) -> (r: Result<(), String>)
    ensures
        r is Ok,
        final(world).desktop_path@ == path@,
        final(world).root == old(world).root,
        final(world).folders == old(world).folders,
        final(world).view == old(world).view,
        final(world).slots == old(world).slots,
        final(world).layouts == old(world).layouts,
{
    world.desktop_path = String::from_str(path);
    Ok(())
}

} // verus!
