//! Icon layouts: the saved mapping from icon display name to on-screen
//! position, and the grid snapping applied when positions are restored.

use vstd::prelude::*;
use vstd::arithmetic::div_mod::lemma_div_multiples_vanish;

verus! {

/// Grid pitch: restored positions are snapped down to a multiple of this.
pub const GRID_SIZE: i32 = 75;

/// An icon's on-screen position.
#[derive(Debug, PartialEq, Eq, Structural, Clone, Copy)]
pub struct IconPosition {
    pub x: i32,
    pub y: i32,
}

/// One saved icon: a display name and its position.
#[derive(Debug)]
pub struct IconEntry {
    pub name: String,
    pub pos: IconPosition,
}

/// The saved icon layout of one profile: name -> position, in file order.
#[derive(Debug)]
pub struct DesktopIconsLayout {
    pub icons: Vec<IconEntry>,
}

impl View for IconEntry {
    type V = (Seq<char>, int, int);

    open spec fn view(&self) -> Self::V {
        (self.name@, self.pos.x as int, self.pos.y as int)
    }
}

impl View for DesktopIconsLayout {
    type V = Seq<(Seq<char>, int, int)>;

    open spec fn view(&self) -> Self::V {
        self.icons@.map_values(|e: IconEntry| e@)
    }
}

impl DesktopIconsLayout {
    /// A layout with no saved positions.
    pub fn empty() -> (r: DesktopIconsLayout)
        ensures
            r@ =~= Seq::<(Seq<char>, int, int)>::empty(),
    {
        DesktopIconsLayout { icons: Vec::new() }
    }

    /// Number of saved positions.
    pub fn len(&self) -> (r: usize)
        ensures
            r == self@.len(),
    {
        self.icons.len()
    }

    /// Whether the layout holds no positions.
    pub fn is_empty(&self) -> (r: bool)
        ensures
            r == (self@.len() == 0),
    {
        self.icons.len() == 0
    }
}

/// Snapping of one coordinate: floor toward zero at the grid pitch.
pub open spec fn snap_axis(v: int) -> int {
    if v >= 0 {
        (v / 75) * 75
    } else {
        -(((-v) / 75) * 75)
    }
}

/// Snapped coordinates stay snapped: the snap is idempotent.
pub proof fn lemma_snap_idempotent(v: int)
    ensures
        snap_axis(snap_axis(v)) == snap_axis(v),
{
    if v >= 0 {
        let q = v / 75;
        assert(q >= 0);
        assert((75 * q) / 75 == q) by {
            lemma_div_multiples_vanish(q, 75);
        }
        assert(q * 75 == 75 * q);
    } else {
        let q = (-v) / 75;
        assert(q >= 0);
        assert((75 * q) / 75 == q) by {
            lemma_div_multiples_vanish(q, 75);
        }
        assert(q * 75 == 75 * q);
        if q == 0 {
            assert(snap_axis(v) == 0);
        } else {
            assert(snap_axis(v) == -(q * 75));
            assert(snap_axis(-(q * 75)) == -(((q * 75)) / 75) * 75);
        }
    }
}

/// Snaps one coordinate down toward zero to the grid pitch.
pub fn snap_axis_exec(v: i32) -> (r: i32)
    ensures
        r == snap_axis(v as int),
{
    if v >= 0 {
        let m: u32 = v as u32;
        ((m / 75) * 75) as i32
    } else {
        let m: u64 = (-(v as i64)) as u64;
        let s: u64 = (m / 75) * 75;
        proof {
            assert(s <= m);
        }
        (-(s as i64)) as i32
    }
}

/// Snaps a position to the grid, per axis.
pub fn snap_to_grid(x: i32, y: i32) -> (r: (i32, i32))
    ensures
        r.0 == snap_axis(x as int),
        r.1 == snap_axis(y as int),
{
    (snap_axis_exec(x), snap_axis_exec(y))
}

} // verus!
