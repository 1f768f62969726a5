//! The native virtual-desktop layer, as the engine sees it: how many
//! slots exist, which is current, and where the visible windows sit.
//! The host application keeps this model in step with the OS and carries
//! slot changes back out; every decision about slots is made here.
//! `max_slots` is the point past which the OS yields no further slot,
//! which the engine observes as a creation attempt with no increase.

use vstd::prelude::*;
use vstd::string::*;
use crate::text::{append_u64, dec_rep};

verus! {

/// A visible top-level window, as reported to the UI.
#[derive(Debug)]
pub struct WindowInfo {
    pub hwnd: isize,
    pub title: String,
    pub process_id: u32,
    pub desktop_index: Option<usize>,
}

impl View for WindowInfo {
    type V = (isize, Seq<char>, u32, Option<usize>);

    open spec fn view(&self) -> Self::V {
        (self.hwnd, self.title@, self.process_id, self.desktop_index)
    }
}

/// A top-level window as the OS shows it to the engine.
#[derive(Debug)]
pub struct WindowRecord {
    pub hwnd: isize,
    pub title: String,
    pub process_id: u32,
    pub visible: bool,
    pub desktop_index: Option<usize>,
}

/// The virtual-desktop slots and the windows on them.
#[derive(Debug)]
pub struct VirtualDesktops {
    pub count: usize,
    pub current: usize,
    pub max_slots: usize,
    pub windows: Vec<WindowRecord>,
}

/// At least one slot exists, the current one is among them, and no more
/// than `max_slots` can ever exist.
pub open spec fn vd_wf(v: VirtualDesktops) -> bool {
    1 <= v.count <= v.max_slots && v.current < v.count
}

/// The windows the enumeration reports: visible ones with a title.
pub open spec fn visible_infos(ws: Seq<WindowRecord>) -> Seq<(isize, Seq<char>, u32, Option<usize>)>
    decreases ws.len(),
{
    if ws.len() == 0 {
        Seq::<(isize, Seq<char>, u32, Option<usize>)>::empty()
    } else {
        let prev = visible_infos(ws.drop_last());
        let w = ws.last();
        if w.visible && w.title@.len() > 0 {
            prev.push((w.hwnd, w.title@, w.process_id, w.desktop_index))
        } else {
            prev
        }
    }
}

/// Of those, the ones on the given slot.
pub open spec fn infos_on(
    infos: Seq<(isize, Seq<char>, u32, Option<usize>)>,
    slot: int,
) -> Seq<(isize, Seq<char>, u32, Option<usize>)>
    decreases infos.len(),
{
    if infos.len() == 0 {
        infos
    } else {
        let prev = infos_on(infos.drop_last(), slot);
        if infos.last().3 == Some(slot as usize) && slot >= 0 {
            prev.push(infos.last())
        } else {
            prev
        }
    }
}

impl VirtualDesktops {
    /// How many slots exist.
    pub fn get_desktop_count(&self) -> (r: Result<usize, String>)
        ensures
            r == Result::<usize, String>::Ok(self.count),
    {
        Ok(self.count)
    }

    /// Which slot is current.
    pub fn get_current_desktop(&self) -> (r: Result<usize, String>)
        ensures
            r == Result::<usize, String>::Ok(self.current),
    {
        Ok(self.current)
    }

    /// Goes to the slot with this index; an index past the end fails and
    /// changes nothing.
    pub fn switch_to_desktop(&mut self, index: usize) -> (r: Result<(), String>)
        requires
            vd_wf(*old(self)),
        ensures
            vd_wf(*final(self)),
            index < old(self).count ==> r is Ok && *final(self) == (VirtualDesktops {
                current: index,
                ..*old(self)
            }),
            index >= old(self).count ==> r is Err && *final(self) == *old(self),
    {
        if index < self.count {
            self.current = index;
            Ok(())
        } else {
            Err(String::from_str("No such virtual desktop"))
        }
    }

    /// Makes one more slot and reports its index; once the OS yields no
    /// further slot, this fails and changes nothing.
    pub fn create_desktop(&mut self) -> (r: Result<usize, String>)
        requires
            vd_wf(*old(self)),
        ensures
            vd_wf(*final(self)),
            old(self).count < old(self).max_slots ==> r == Result::<usize, String>::Ok(
                old(self).count,
            ) && *final(self) == (VirtualDesktops { count: (old(self).count + 1) as usize, ..*old(self) }),
            old(self).count >= old(self).max_slots ==> r is Err && *final(self) == *old(self),
    {
        if self.count < self.max_slots {
            self.count = self.count + 1;
            Ok(self.count - 1)
        } else {
            Err(String::from_str("Could not create a virtual desktop"))
        }
    }

    /// Removes the current slot, moving to the one on its left; removing
    /// the last remaining slot is rejected.  Window records are left as
    /// they are: where the OS reseats them is its own affair and is read
    /// back by observation.
    pub fn remove_current_desktop(&mut self) -> (r: Result<(), String>)
        requires
            vd_wf(*old(self)),
        ensures
            vd_wf(*final(self)),
            old(self).count <= 1 ==> r is Err && *final(self) == *old(self) && (match r {
                Err(e) => e@ == "Cannot remove the last virtual desktop"@,
                Ok(_) => false,
            }),
            old(self).count > 1 ==> r is Ok && final(self).count == old(self).count - 1
                && final(self).current == (if old(self).current > 0 {
                (old(self).current - 1) as usize
            } else {
                0
            }) && final(self).max_slots == old(self).max_slots
                && final(self).windows == old(self).windows,
    {
        if self.count <= 1 {
            return Err(String::from_str("Cannot remove the last virtual desktop"));
        }
        self.count = self.count - 1;
        if self.current > 0 {
            self.current = self.current - 1;
        }
        Ok(())
    }

    /// Goes one slot to the left; at the leftmost it stays.
    pub fn switch_left(&mut self) -> (r: Result<usize, String>)
        requires
            vd_wf(*old(self)),
        ensures
            vd_wf(*final(self)),
            final(self).current == (if old(self).current > 0 {
                (old(self).current - 1) as usize
            } else {
                0
            }),
            r == Result::<usize, String>::Ok(final(self).current),
            final(self).count == old(self).count,
            final(self).max_slots == old(self).max_slots,
            final(self).windows == old(self).windows,
    {
        if self.current > 0 {
            self.current = self.current - 1;
        }
        Ok(self.current)
    }

    /// Goes one slot to the right; at the rightmost it stays.
    pub fn switch_right(&mut self) -> (r: Result<usize, String>)
        requires
            vd_wf(*old(self)),
        ensures
            vd_wf(*final(self)),
            final(self).current == (if old(self).current + 1 < old(self).count {
                (old(self).current + 1) as usize
            } else {
                old(self).current
            }),
            r == Result::<usize, String>::Ok(final(self).current),
            final(self).count == old(self).count,
            final(self).max_slots == old(self).max_slots,
            final(self).windows == old(self).windows,
    {
        if self.current + 1 < self.count {
            self.current = self.current + 1;
        }
        Ok(self.current)
    }

    /// Creates slots until `required` of them exist.  With enough already
    /// there it does nothing; once a creation attempt yields no increase
    /// it reports the attempted and reached counts and stops.
    pub fn ensure_desktops_exist(&mut self, required: usize) -> (r: Result<(), String>)
        requires
            vd_wf(*old(self)),
        ensures
            vd_wf(*final(self)),
            final(self).current == old(self).current,
            final(self).max_slots == old(self).max_slots,
            final(self).windows == old(self).windows,
            old(self).count >= required ==> r is Ok && *final(self) == *old(self),
            old(self).count < required && required <= old(self).max_slots ==> r is Ok
                && final(self).count == required,
            old(self).count < required && required > old(self).max_slots ==> final(self).count
                == old(self).max_slots && (match r {
                Err(e) => e@ == ensure_fail_rep(required as int, old(self).max_slots as int),
                Ok(_) => false,
            }),
    {
        while self.count < required
            invariant
                vd_wf(*self),
                self.current == old(self).current,
                self.max_slots == old(self).max_slots,
                self.windows == old(self).windows,
                old(self).count >= required ==> *self == *old(self),
                old(self).count < required ==> old(self).count <= self.count <= required,
                self.count < self.max_slots || self.count == old(self).count || self.count
                    == self.max_slots,
            decreases required - self.count,
        {
            if self.count < self.max_slots {
                self.count = self.count + 1;
            } else {
                return Err(ensure_fail_message(required, self.count));
            }
        }
        Ok(())
    }

    /// Where a window sits: the slot index of the record with this
    /// handle; an unknown handle, or one the OS gave no slot for, fails.
    pub fn get_window_desktop(&self, hwnd: isize) -> (r: Result<usize, String>)
        ensures
            match r {
                Ok(d) => exists|j: int|
                    0 <= j < self.windows@.len() && (#[trigger] self.windows@[j]).hwnd == hwnd
                        && self.windows@[j].desktop_index == Some(d) && (forall|q: int|
                        0 <= q < j ==> (#[trigger] self.windows@[q]).hwnd != hwnd),
                Err(_) => !(exists|j: int|
                    0 <= j < self.windows@.len() && (#[trigger] self.windows@[j]).hwnd == hwnd
                        && self.windows@[j].desktop_index is Some && (forall|q: int|
                        0 <= q < j ==> (#[trigger] self.windows@[q]).hwnd != hwnd)),
            },
    {
        let n = self.windows.len();
        let mut j: usize = 0;
        while j < n
            invariant
                j <= n,
                n == self.windows@.len(),
                forall|q: int| 0 <= q < j ==> (#[trigger] self.windows@[q]).hwnd != hwnd,
            decreases n - j,
        {
            if self.windows[j].hwnd == hwnd {
                return match self.windows[j].desktop_index {
                    Some(d) => Ok(d),
                    None => Err(String::from_str("Window has no virtual desktop")),
                };
            }
            j = j + 1;
        }
        Err(String::from_str("Window not found"))
    }

    /// Whether a window sits on the current slot.
    pub fn is_on_current_desktop(&self, hwnd: isize) -> (r: Result<bool, String>)
        ensures
            match r {
                Ok(b) => exists|j: int|
                    0 <= j < self.windows@.len() && (#[trigger] self.windows@[j]).hwnd == hwnd
                        && self.windows@[j].desktop_index is Some && (forall|q: int|
                        0 <= q < j ==> (#[trigger] self.windows@[q]).hwnd != hwnd) && b == (
                    self.windows@[j].desktop_index == Some(self.current)),
                Err(_) => !(exists|j: int|
                    0 <= j < self.windows@.len() && (#[trigger] self.windows@[j]).hwnd == hwnd
                        && self.windows@[j].desktop_index is Some && (forall|q: int|
                        0 <= q < j ==> (#[trigger] self.windows@[q]).hwnd != hwnd)),
            },
    {
        match self.get_window_desktop(hwnd) {
            Ok(d) => Ok(d == self.current),
            Err(e) => Err(e),
        }
    }

    /// Sends a window to the slot with this index; an unknown handle or
    /// an index past the end fails and changes nothing.
    pub fn move_window(&mut self, hwnd: isize, desktop: usize) -> (r: Result<(), String>)
        requires
            vd_wf(*old(self)),
        ensures
            vd_wf(*final(self)),
            final(self).count == old(self).count,
            final(self).current == old(self).current,
            final(self).max_slots == old(self).max_slots,
            desktop >= old(self).count ==> r is Err && *final(self) == *old(self),
            desktop < old(self).count ==> match r {
                Ok(_) => exists|j: int|
                    0 <= j < old(self).windows@.len() && (#[trigger] old(self).windows@[j]).hwnd
                        == hwnd && (forall|q: int|
                        0 <= q < j ==> (#[trigger] old(self).windows@[q]).hwnd != hwnd)
                        && final(self).windows@ == old(self).windows@.update(
                        j,
                        WindowRecord {
                            hwnd: old(self).windows@[j].hwnd,
                            title: old(self).windows@[j].title,
                            process_id: old(self).windows@[j].process_id,
                            visible: old(self).windows@[j].visible,
                            desktop_index: Some(desktop),
                        },
                    ),
                Err(_) => *final(self) == *old(self) && (forall|q: int|
                    0 <= q < old(self).windows@.len()
                        ==> (#[trigger] old(self).windows@[q]).hwnd != hwnd),
            },
    {
        if desktop >= self.count {
            return Err(String::from_str("No such virtual desktop"));
        }
        let n = self.windows.len();
        let mut j: usize = 0;
        while j < n
            invariant
                j <= n,
                n == self.windows@.len(),
                *self == *old(self),
                vd_wf(*old(self)),
                desktop < self.count,
                forall|q: int| 0 <= q < j ==> (#[trigger] self.windows@[q]).hwnd != hwnd,
            decreases n - j,
        {
            if self.windows[j].hwnd == hwnd {
                let w = &self.windows[j];
                let updated = WindowRecord {
                    hwnd: w.hwnd,
                    title: w.title.clone(),
                    process_id: w.process_id,
                    visible: w.visible,
                    desktop_index: Some(desktop),
                };
                self.windows[j] = updated;
                return Ok(());
            }
            j = j + 1;
        }
        Err(String::from_str("Window not found"))
    }

    /// Lists the visible, titled windows, with their slot where known.
    pub fn enumerate_windows(&self) -> (r: Result<Vec<WindowInfo>, String>)
        ensures
            match r {
                Ok(ws) => ws@.map_values(|w: WindowInfo| w@) == visible_infos(self.windows@),
                Err(_) => false,
            },
    {
        let n = self.windows.len();
        let mut out: Vec<WindowInfo> = Vec::new();
        let mut j: usize = 0;
        while j < n
            invariant
                j <= n,
                n == self.windows@.len(),
                out@.map_values(|w: WindowInfo| w@) == visible_infos(self.windows@.take(j as int)),
            decreases n - j,
        {
            proof {
                assert(self.windows@.take(j as int + 1).drop_last() =~= self.windows@.take(
                    j as int,
                ));
            }
            let ghost acc0 = out@.map_values(|w: WindowInfo| w@);
            let w = &self.windows[j];
            if w.visible && w.title.unicode_len() > 0 {
                out.push(
                    WindowInfo {
                        hwnd: w.hwnd,
                        title: w.title.clone(),
                        process_id: w.process_id,
                        desktop_index: w.desktop_index,
                    },
                );
                proof {
                    assert(out@.map_values(|q: WindowInfo| q@) =~= acc0.push(
                        (w.hwnd, w.title@, w.process_id, w.desktop_index),
                    ));
                }
            }
            j = j + 1;
        }
        proof {
            assert(self.windows@.take(n as int) =~= self.windows@);
        }
        Ok(out)
    }

    /// Lists the visible, titled windows on the current slot.
    pub fn get_windows_on_current_desktop(&self) -> (r: Result<Vec<WindowInfo>, String>)
        ensures
            match r {
                Ok(ws) => ws@.map_values(|w: WindowInfo| w@) == infos_on(
                    visible_infos(self.windows@),
                    self.current as int,
                ),
                Err(_) => false,
            },
    {
        let all = match self.enumerate_windows() {
            Ok(v) => v,
            Err(e) => {
                return Err(e);
            },
        };
        let n = all.len();
        let mut out: Vec<WindowInfo> = Vec::new();
        let mut j: usize = 0;
        while j < n
            invariant
                j <= n,
                n == all@.len(),
                all@.map_values(|w: WindowInfo| w@) == visible_infos(self.windows@),
                out@.map_values(|w: WindowInfo| w@) == infos_on(
                    all@.map_values(|w: WindowInfo| w@).take(j as int),
                    self.current as int,
                ),
            decreases n - j,
        {
            let ghost vi = all@.map_values(|w: WindowInfo| w@);
            proof {
                assert(vi.take(j as int + 1).drop_last() =~= vi.take(j as int));
                assert(vi.take(j as int + 1).last() == vi[j as int]);
            }
            let ghost acc0 = out@.map_values(|w: WindowInfo| w@);
            let w = &all[j];
            let keep = match w.desktop_index {
                Some(d) => d == self.current,
                None => false,
            };
            if keep {
                out.push(
                    WindowInfo {
                        hwnd: w.hwnd,
                        title: w.title.clone(),
                        process_id: w.process_id,
                        desktop_index: w.desktop_index,
                    },
                );
                proof {
                    assert(out@.map_values(|q: WindowInfo| q@) =~= acc0.push(vi[j as int]));
                }
            }
            j = j + 1;
        }
        proof {
            let vi = all@.map_values(|w: WindowInfo| w@);
            assert(vi.take(n as int) =~= vi);
        }
        Ok(out)
    }
}

/// The message reported when slot creation stops short:
/// `Could not create a virtual desktop. Needed: R, have: H`.
pub open spec fn ensure_fail_rep(required: int, have: int) -> Seq<char> {
    "Could not create a virtual desktop. Needed: "@ + dec_rep(required as nat) + ", have: "@
        + dec_rep(have as nat)
}

/// Builds that message.
fn ensure_fail_message(required: usize, have: usize) -> (r: String)
    ensures
        r@ == ensure_fail_rep(required as int, have as int),
{
    let mut out = String::from_str("Could not create a virtual desktop. Needed: ");
    append_u64(&mut out, required as u64);
    out.append(", have: ");
    append_u64(&mut out, have as u64);
    proof {
        assert("Could not create a virtual desktop. Needed: "@ + dec_rep(required as nat) + ", have: "@
            + dec_rep(have as nat) =~= ensure_fail_rep(required as int, have as int));
    }
    out
}

/// Creates native slots until the required number exists.
pub fn ensure_virtual_desktops_exist(vd: &mut VirtualDesktops, required: usize) -> (r: Result<
    (),
    String,
>)
    requires
        vd_wf(*old(vd)),
    ensures
        vd_wf(*final(vd)),
        final(vd).current == old(vd).current,
        final(vd).max_slots == old(vd).max_slots,
        final(vd).windows == old(vd).windows,
        old(vd).count >= required ==> r is Ok && *final(vd) == *old(vd),
        old(vd).count < required && required <= old(vd).max_slots ==> r is Ok && final(vd).count
            == required,
        old(vd).count < required && required > old(vd).max_slots ==> r is Err && final(vd).count
            == old(vd).max_slots,
{
    vd.ensure_desktops_exist(required)
}

} // verus!
