//! The cubic ring-buffer window of the three-dimensional chunk cache: the
//! coordinate `v` of each axis lives in slot `v mod side`, the slot of
//! (x, y, z) being `(z' * side + y') * side + x'` for those remainders.

use crate::grid::{axis_ok, in_window, lemma_mod_distinct, rem_euclid, side_of, small_shift, window_max, window_min};
use vstd::prelude::*;

verus! {

/// Flat index of the slot with remainders (zs, ys, xs) in a cube of side `s`.
pub open spec fn idx3(zs: int, ys: int, xs: int, s: int) -> int {
    (zs * s + ys) * s + xs
}

/// The remainder along `axis` (0 for x, 1 for y, 2 for z) that slot `i` of a
/// cube of side `s` stands for.
pub open spec fn comp(i: int, s: int, axis: int) -> int {
    if axis == 0 {
        i % s
    } else if axis == 1 {
        (i / s) % s
    } else {
        (i / s) / s
    }
}

/// Flat indices of a cube are in range and give back their remainders.
pub proof fn lemma_idx3(zs: int, ys: int, xs: int, s: int)
    requires
        0 <= zs < s,
        0 <= ys < s,
        0 <= xs < s,
    ensures
        0 <= idx3(zs, ys, xs, s) < s * s * s,
        comp(idx3(zs, ys, xs, s), s, 0) == xs,
        comp(idx3(zs, ys, xs, s), s, 1) == ys,
        comp(idx3(zs, ys, xs, s), s, 2) == zs,
{
    let r = zs * s + ys;
    assert(0 <= r < s * s) by (nonlinear_arith)
        requires
            0 <= zs < s,
            0 <= ys < s,
            r == zs * s + ys,
    ;
    assert(0 <= r * s + xs < s * s * s) by (nonlinear_arith)
        requires
            0 <= r < s * s,
            0 <= xs < s,
    ;
    vstd::arithmetic::div_mod::lemma_fundamental_div_mod_converse(r * s + xs, s, r, xs);
    vstd::arithmetic::div_mod::lemma_fundamental_div_mod_converse(r, s, zs, ys);
}

/// Slots with the plane of remainder `c` along `axis` emptied.
pub open spec fn cleared_plane<T>(slots: Seq<Option<T>>, s: int, axis: int, c: int) -> Seq<Option<T>> {
    Seq::new(slots.len(), |i: int| if comp(i, s, axis) == c { None } else { slots[i] })
}

/// A cubic window of slots around the eye's chunk.
pub struct RingGrid3<T> {
    slots: Vec<Option<T>>,
    distance: usize,
    x: i32,
    y: i32,
    z: i32,
    x_upper: bool,
    y_upper: bool,
    z_upper: bool,
}

/// The eye's chunk and in which half of it the eye is, per axis.
pub type Center3 = (int, int, int, bool, bool, bool);

impl<T> RingGrid3<T> {
    pub closed spec fn dist(&self) -> int {
        self.distance as int
    }

    pub closed spec fn side(&self) -> int {
        side_of(self.distance as int)
    }

    pub closed spec fn center(&self) -> Center3 {
        (self.x as int, self.y as int, self.z as int, self.x_upper, self.y_upper, self.z_upper)
    }

    pub closed spec fn wf(&self) -> bool {
        &&& axis_ok(self.x as int, self.distance as int)
        &&& axis_ok(self.y as int, self.distance as int)
        &&& axis_ok(self.z as int, self.distance as int)
        &&& self.slots@.len() == self.side() * self.side() * self.side()
        &&& self.side() * self.side() * self.side() <= usize::MAX
    }

    /// Whether (x, y, z) lies inside the window.
    pub open spec fn contains(&self, x: int, y: int, z: int) -> bool {
        let c = self.center();
        &&& in_window(x, c.0, self.dist(), c.3)
        &&& in_window(y, c.1, self.dist(), c.4)
        &&& in_window(z, c.2, self.dist(), c.5)
    }

    pub closed spec fn slot_index(&self, x: int, y: int, z: int) -> int {
        idx3(z % self.side(), y % self.side(), x % self.side(), self.side())
    }

    /// What the grid holds for chunk (x, y, z): nothing outside the window.
    pub closed spec fn cell(&self, x: int, y: int, z: int) -> Option<T> {
        if self.contains(x, y, z) {
            self.slots@[self.slot_index(x, y, z)]
        } else {
            None
        }
    }

    proof fn lemma_slot_index(&self, x: int, y: int, z: int)
        requires
            self.wf(),
        ensures
            0 <= self.slot_index(x, y, z) < self.slots@.len(),
            comp(self.slot_index(x, y, z), self.side(), 0) == x % self.side(),
            comp(self.slot_index(x, y, z), self.side(), 1) == y % self.side(),
            comp(self.slot_index(x, y, z), self.side(), 2) == z % self.side(),
    {
        vstd::arithmetic::div_mod::lemma_mod_bound(x, self.side());
        vstd::arithmetic::div_mod::lemma_mod_bound(y, self.side());
        vstd::arithmetic::div_mod::lemma_mod_bound(z, self.side());
        lemma_idx3(z % self.side(), y % self.side(), x % self.side(), self.side());
    }

    fn empty_slots(n: usize) -> (r: Vec<Option<T>>)
        ensures
            r@.len() == n,
            forall|i: int| 0 <= i < n ==> r@[i] is None,
    {
        let mut v: Vec<Option<T>> = Vec::new();
        let mut i: usize = 0;
        while i < n
            invariant
                i <= n,
                v@.len() == i,
                forall|j: int| 0 <= j < i ==> v@[j] is None,
            decreases n - i,
        {
            v.push(None);
            i = i + 1;
        }
        v
    }

    /// A well-formed window lies inside `i32`.
    pub proof fn lemma_wf_center(&self)
        requires
            self.wf(),
        ensures
            axis_ok(self.center().0, self.dist()),
            axis_ok(self.center().1, self.dist()),
            axis_ok(self.center().2, self.dist()),
    {
    }

    pub fn distance(&self) -> (r: usize)
        ensures
            r == self.dist(),
    {
        self.distance
    }

    pub fn center_exec(&self) -> (r: (i32, i32, i32, bool, bool, bool))
        ensures
            (r.0 as int, r.1 as int, r.2 as int, r.3, r.4, r.5) == self.center(),
    {
        (self.x, self.y, self.z, self.x_upper, self.y_upper, self.z_upper)
    }

    /// An empty window of the given distance around (x, y, z).
    pub fn new(
        distance: usize,
        x: i32,
        y: i32,
        z: i32,
        x_upper: bool,
        y_upper: bool,
        z_upper: bool,
    ) -> (r: Self)
        requires
            axis_ok(x as int, distance as int),
            axis_ok(y as int, distance as int),
            axis_ok(z as int, distance as int),
            side_of(distance as int) * side_of(distance as int) * side_of(distance as int) <= usize::MAX,
        ensures
            r.wf(),
            r.dist() == distance,
            r.center() == (x as int, y as int, z as int, x_upper, y_upper, z_upper),
            forall|a: int, b: int, c: int| #[trigger] r.cell(a, b, c) is None,
    {
        let side = distance * 2 + 2;
        proof {
            assert(side * side <= side * side * side) by (nonlinear_arith)
                requires
                    side >= 1,
            ;
        }
        let slots = Self::empty_slots(side * side * side);
        let r = RingGrid3 { slots, distance, x, y, z, x_upper, y_upper, z_upper };
        proof {
            assert forall|a: int, b: int, c: int| #[trigger] r.cell(a, b, c) is None by {
                if r.contains(a, b, c) {
                    r.lemma_slot_index(a, b, c);
                }
            }
        }
        r
    }

    /// Empty every slot.
    pub fn reset(&mut self)
        requires
            old(self).wf(),
        ensures
            final(self).wf(),
            final(self).dist() == old(self).dist(),
            final(self).center() == old(self).center(),
            forall|a: int, b: int, c: int| #[trigger] final(self).cell(a, b, c) is None,
    {
        let n = self.slots.len();
        self.slots = Self::empty_slots(n);
        proof {
            assert forall|a: int, b: int, c: int| #[trigger] self.cell(a, b, c) is None by {
                if self.contains(a, b, c) {
                    self.lemma_slot_index(a, b, c);
                }
            }
        }
    }

    /// Slot of (x, y, z), if it lies inside the window.
    fn slot_of(&self, x: i32, y: i32, z: i32) -> (r: Option<usize>)
        requires
            self.wf(),
        ensures
            r is None <==> !self.contains(x as int, y as int, z as int),
            r matches Some(i) ==> i == self.slot_index(x as int, y as int, z as int) && i < self.slots@.len(),
    {
        let d = self.distance as i64;
        let min_x = self.x as i64 - d - if self.x_upper { 0 } else { 1 };
        let max_x = self.x as i64 + d + if self.x_upper { 1 } else { 0 };
        if min_x > x as i64 || x as i64 > max_x {
            return None;
        }
        let min_y = self.y as i64 - d - if self.y_upper { 0 } else { 1 };
        let max_y = self.y as i64 + d + if self.y_upper { 1 } else { 0 };
        if min_y > y as i64 || y as i64 > max_y {
            return None;
        }
        let min_z = self.z as i64 - d - if self.z_upper { 0 } else { 1 };
        let max_z = self.z as i64 + d + if self.z_upper { 1 } else { 0 };
        if min_z > z as i64 || z as i64 > max_z {
            return None;
        }
        let side = self.distance * 2 + 2;
        let sx = rem_euclid(x, side);
        let sy = rem_euclid(y, side);
        let sz = rem_euclid(z, side);
        proof {
            self.lemma_slot_index(x as int, y as int, z as int);
            lemma_idx3(sz as int, sy as int, sx as int, side as int);
            assert((sz as int) * (side as int) + (sy as int) < (side as int) * (side as int)) by (nonlinear_arith)
                requires
                    sz < side,
                    sy < side,
            ;
            assert((side as int) * (side as int) <= (side as int) * (side as int) * (side as int)) by (nonlinear_arith)
                requires
                    side >= 1,
            ;
            assert(side as int == self.side());
        }
        let plane = sz * side + sy;
        Some(plane * side + sx)
    }

    /// Whether the grid holds something for chunk (x, y, z).
    pub fn has(&self, x: i32, y: i32, z: i32) -> (r: bool)
        requires
            self.wf(),
        ensures
            r == self.cell(x as int, y as int, z as int) is Some,
    {
        match self.slot_of(x, y, z) {
            Some(i) => self.slots[i].is_some(),
            None => false,
        }
    }

    /// Store `value` for chunk (x, y, z); outside the window nothing changes.
    pub fn set(&mut self, x: i32, y: i32, z: i32, value: Option<T>)
        requires
            old(self).wf(),
        ensures
            final(self).wf(),
            final(self).dist() == old(self).dist(),
            final(self).center() == old(self).center(),
            forall|a: int, b: int, c: int| #[trigger]
                final(self).cell(a, b, c) == if a == x && b == y && c == z && old(self).contains(a, b, c) {
                    value
                } else {
                    old(self).cell(a, b, c)
                },
    {
        match self.slot_of(x, y, z) {
            Some(i) => {
                self.slots.set(i, value);
                proof {
                    assert forall|a: int, b: int, c: int| #[trigger]
                        self.cell(a, b, c) == if a == x && b == y && c == z && old(self).contains(a, b, c) {
                            value
                        } else {
                            old(self).cell(a, b, c)
                        } by {
                        if self.contains(a, b, c) && !(a == x && b == y && c == z) {
                            self.lemma_slot_index(a, b, c);
                            self.lemma_slot_index(x as int, y as int, z as int);
                            let s = self.side();
                            if self.slot_index(a, b, c) == i {
                                if a != x {
                                    let (lo, hi) = if a < x { (a, x as int) } else { (x as int, a) };
                                    lemma_mod_distinct(lo, hi, s);
                                } else if b != y {
                                    let (lo, hi) = if b < y { (b, y as int) } else { (y as int, b) };
                                    lemma_mod_distinct(lo, hi, s);
                                } else {
                                    let (lo, hi) = if c < z { (c, z as int) } else { (z as int, c) };
                                    lemma_mod_distinct(lo, hi, s);
                                }
                            }
                        }
                    }
                }
            },
            None => {},
        }
    }

    /// Empty the plane of slots whose remainder along `axis` is `c`.
    fn clear_plane(&mut self, axis: usize, c: usize)
        requires
            old(self).wf(),
            axis < 3,
        ensures
            final(self).wf(),
            final(self).dist() == old(self).dist(),
            final(self).center() == old(self).center(),
            final(self).slots@ == cleared_plane(old(self).slots@, old(self).side(), axis as int, c as int),
    {
        let side = self.distance * 2 + 2;
        let n = self.slots.len();
        let ghost s0 = self.slots@;
        let ghost s = side as int;
        let mut i: usize = 0;
        while i < n
            invariant
                side as int == self.side(),
                s == side,
                n == s0.len(),
                axis < 3,
                self.wf(),
                self.dist() == old(self).dist(),
                self.center() == old(self).center(),
                s0 == old(self).slots@,
                i <= n,
                self.slots@ == Seq::new(
                    s0.len(),
                    |j: int| if j < i && comp(j, s, axis as int) == c { None } else { s0[j] },
                ),
            decreases n - i,
        {
            let k = if axis == 0 {
                i % side
            } else if axis == 1 {
                (i / side) % side
            } else {
                (i / side) / side
            };
            if k == c {
                self.slots.set(i, None);
            }
            proof {
                assert(self.slots@ =~= Seq::new(
                    s0.len(),
                    |j: int| if j < i + 1 && comp(j, s, axis as int) == c { None } else { s0[j] },
                ));
            }
            i = i + 1;
        }
        proof {
            assert(self.slots@ =~= cleared_plane(s0, s, axis as int, c as int));
        }
    }
}

/// The slots after sliding by `(dx, dy, dz)` and emptying the plane of each
/// shifted axis that newly entered the window, at remainders `(cx, cy, cz)`.
pub open spec fn shifted_slots<T>(
    slots: Seq<Option<T>>,
    s: int,
    dx: int,
    cx: int,
    dy: int,
    cy: int,
    dz: int,
    cz: int,
) -> Seq<Option<T>> {
    Seq::new(
        slots.len(),
        |i: int|
            if (dx != 0 && comp(i, s, 0) == cx) || (dy != 0 && comp(i, s, 1) == cy) || (dz != 0 && comp(
                i,
                s,
                2,
            ) == cz) {
                None
            } else {
                slots[i]
            },
    )
}

/// The remainder of the coordinate that newly entered the window along an
/// axis whose lowest coordinate moved by `delta` (meaningless for 0).
pub open spec fn entered(delta: int, new_min: int, new_max: int, s: int) -> int {
    if delta == 1 {
        new_max % s
    } else if delta == -1 {
        new_min % s
    } else {
        0
    }
}

/// Emptying the entered plane of each shifted axis in turn gives the
/// shifted slots.
proof fn lemma_three_clears<T>(
    s0: Seq<Option<T>>,
    s1: Seq<Option<T>>,
    s2: Seq<Option<T>>,
    s3: Seq<Option<T>>,
    s: int,
    dx: int,
    cx: int,
    dy: int,
    cy: int,
    dz: int,
    cz: int,
)
    requires
        s1 == if dx == 0 { s0 } else { cleared_plane(s0, s, 0, cx) },
        s2 == if dy == 0 { s1 } else { cleared_plane(s1, s, 1, cy) },
        s3 == if dz == 0 { s2 } else { cleared_plane(s2, s, 2, cz) },
    ensures
        s3 == shifted_slots(s0, s, dx, cx, dy, cy, dz, cz),
{
    assert(s3 =~= shifted_slots(s0, s, dx, cx, dy, cy, dz, cz));
}

impl<T> RingGrid3<T> {
    proof fn lemma_shift_law(
        old_grid: Self,
        new_grid: Self,
        dx: int,
        dy: int,
        dz: int,
    )
        requires
            old_grid.wf(),
            new_grid.wf(),
            new_grid.distance == old_grid.distance,
            -1 <= dx <= 1,
            -1 <= dy <= 1,
            -1 <= dz <= 1,
            dx == window_min(new_grid.x as int, new_grid.distance as int, new_grid.x_upper)
                - window_min(old_grid.x as int, old_grid.distance as int, old_grid.x_upper),
            dy == window_min(new_grid.y as int, new_grid.distance as int, new_grid.y_upper)
                - window_min(old_grid.y as int, old_grid.distance as int, old_grid.y_upper),
            dz == window_min(new_grid.z as int, new_grid.distance as int, new_grid.z_upper)
                - window_min(old_grid.z as int, old_grid.distance as int, old_grid.z_upper),
            new_grid.slots@ == shifted_slots(
                old_grid.slots@,
                new_grid.side(),
                dx,
                entered(
                    dx,
                    window_min(new_grid.x as int, new_grid.distance as int, new_grid.x_upper),
                    window_max(new_grid.x as int, new_grid.distance as int, new_grid.x_upper),
                    new_grid.side(),
                ),
                dy,
                entered(
                    dy,
                    window_min(new_grid.y as int, new_grid.distance as int, new_grid.y_upper),
                    window_max(new_grid.y as int, new_grid.distance as int, new_grid.y_upper),
                    new_grid.side(),
                ),
                dz,
                entered(
                    dz,
                    window_min(new_grid.z as int, new_grid.distance as int, new_grid.z_upper),
                    window_max(new_grid.z as int, new_grid.distance as int, new_grid.z_upper),
                    new_grid.side(),
                ),
            ),
        ensures
            forall|a: int, b: int, c: int| #[trigger]
                new_grid.cell(a, b, c) == if old_grid.contains(a, b, c) && new_grid.contains(a, b, c) {
                    old_grid.cell(a, b, c)
                } else {
                    None
                },
    {
        let s = new_grid.side();
        let d = new_grid.distance as int;
        let nminx = window_min(new_grid.x as int, d, new_grid.x_upper);
        let nmaxx = window_max(new_grid.x as int, d, new_grid.x_upper);
        let nminy = window_min(new_grid.y as int, d, new_grid.y_upper);
        let nmaxy = window_max(new_grid.y as int, d, new_grid.y_upper);
        let nminz = window_min(new_grid.z as int, d, new_grid.z_upper);
        let nmaxz = window_max(new_grid.z as int, d, new_grid.z_upper);
        assert forall|a: int, b: int, c: int| #[trigger]
            new_grid.cell(a, b, c) == if old_grid.contains(a, b, c) && new_grid.contains(a, b, c) {
                old_grid.cell(a, b, c)
            } else {
                None
            } by {
            if new_grid.contains(a, b, c) {
                new_grid.lemma_slot_index(a, b, c);
                old_grid.lemma_slot_index(a, b, c);
                vstd::arithmetic::div_mod::lemma_mod_bound(a, s);
                vstd::arithmetic::div_mod::lemma_mod_bound(b, s);
                vstd::arithmetic::div_mod::lemma_mod_bound(c, s);
                if old_grid.contains(a, b, c) {
                    if dx == 1 {
                        lemma_mod_distinct(a, nmaxx, s);
                    } else if dx == -1 {
                        lemma_mod_distinct(nminx, a, s);
                    }
                    if dy == 1 {
                        lemma_mod_distinct(b, nmaxy, s);
                    } else if dy == -1 {
                        lemma_mod_distinct(nminy, b, s);
                    }
                    if dz == 1 {
                        lemma_mod_distinct(c, nmaxz, s);
                    } else if dz == -1 {
                        lemma_mod_distinct(nminz, c, s);
                    }
                }
            }
        }
    }

    /// After the window slid by `delta` along `axis`, empty the plane of the
    /// coordinate that newly entered it; returns that plane's remainder.
    fn clear_edge(&mut self, axis: usize, delta: i64, new_min: i64, new_max: i64) -> (r: usize)
        requires
            old(self).wf(),
            axis < 3,
            -1 <= delta <= 1,
            i32::MIN <= new_min,
            new_max <= i32::MAX,
            new_max == new_min + old(self).side() - 1,
        ensures
            final(self).wf(),
            final(self).dist() == old(self).dist(),
            final(self).center() == old(self).center(),
            r == entered(delta as int, new_min as int, new_max as int, old(self).side()),
            final(self).slots@ == if delta == 0 {
                old(self).slots@
            } else {
                cleared_plane(old(self).slots@, old(self).side(), axis as int, r as int)
            },
    {
        let side = self.distance * 2 + 2;
        if delta == 0 {
            return 0;
        }
        let coordinate = if delta == 1 { new_max } else { new_min };
        let slot = rem_euclid(coordinate as i32, side);
        self.clear_plane(axis, slot);
        slot
    }

    /// Move the window to follow the eye. When it slides by at most one chunk
    /// along each axis, every chunk still inside keeps its slot and the chunks
    /// that newly entered start empty; a longer jump empties the whole grid.
    #[verifier::spinoff_prover]
    #[verifier::rlimit(60)]
    pub fn recenter(&mut self, x: i32, y: i32, z: i32, x_upper: bool, y_upper: bool, z_upper: bool) -> (kept: bool)
        requires
            old(self).wf(),
            axis_ok(x as int, old(self).dist()),
            axis_ok(y as int, old(self).dist()),
            axis_ok(z as int, old(self).dist()),
        ensures
            final(self).wf(),
            final(self).dist() == old(self).dist(),
            final(self).center() == (x as int, y as int, z as int, x_upper, y_upper, z_upper),
            kept == ({
                let o = old(self).center();
                let d = old(self).dist();
                small_shift(o.0, o.3, x as int, x_upper, d) && small_shift(o.1, o.4, y as int, y_upper, d)
                    && small_shift(o.2, o.5, z as int, z_upper, d)
            }),
            ({
                let o = old(self).center();
                let d = old(self).dist();
                small_shift(o.0, o.3, x as int, x_upper, d) && small_shift(o.1, o.4, y as int, y_upper, d)
                    && small_shift(o.2, o.5, z as int, z_upper, d)
            }) ==> forall|a: int, b: int, c: int| #[trigger]
                final(self).cell(a, b, c) == if old(self).contains(a, b, c) && final(self).contains(a, b, c) {
                    old(self).cell(a, b, c)
                } else {
                    None
                },
            !({
                let o = old(self).center();
                let d = old(self).dist();
                small_shift(o.0, o.3, x as int, x_upper, d) && small_shift(o.1, o.4, y as int, y_upper, d)
                    && small_shift(o.2, o.5, z as int, z_upper, d)
            }) ==> forall|a: int, b: int, c: int| #[trigger] final(self).cell(a, b, c) is None,
    {
        let side = self.distance * 2 + 2;
        let ghost s = side as int;
        let ghost s0 = self.slots@;
        let dd = self.distance as i64;
        let old_min_x = self.x as i64 - dd - if self.x_upper { 0 } else { 1 };
        let old_min_y = self.y as i64 - dd - if self.y_upper { 0 } else { 1 };
        let old_min_z = self.z as i64 - dd - if self.z_upper { 0 } else { 1 };
        let new_min_x = x as i64 - dd - if x_upper { 0 } else { 1 };
        let new_min_y = y as i64 - dd - if y_upper { 0 } else { 1 };
        let new_min_z = z as i64 - dd - if z_upper { 0 } else { 1 };
        let new_max_x = new_min_x + side as i64 - 1;
        let new_max_y = new_min_y + side as i64 - 1;
        let new_max_z = new_min_z + side as i64 - 1;
        self.x = x;
        self.y = y;
        self.z = z;
        self.x_upper = x_upper;
        self.y_upper = y_upper;
        self.z_upper = z_upper;
        let dx = new_min_x - old_min_x;
        let dy = new_min_y - old_min_y;
        let dz = new_min_z - old_min_z;
        if dx < -1 || dx > 1 || dy < -1 || dy > 1 || dz < -1 || dz > 1 {
            self.reset();
            return false;
        }
        proof {
            let d = self.distance as int;
            assert(side as int == side_of(d));
            assert(new_min_x as int == window_min(x as int, d, x_upper));
            assert(new_max_x as int == window_max(x as int, d, x_upper));
            assert(new_min_y as int == window_min(y as int, d, y_upper));
            assert(new_max_y as int == window_max(y as int, d, y_upper));
            assert(new_min_z as int == window_min(z as int, d, z_upper));
            assert(new_max_z as int == window_max(z as int, d, z_upper));
        }
        let cx = self.clear_edge(0, dx, new_min_x, new_max_x);
        let ghost s1 = self.slots@;
        let cy = self.clear_edge(1, dy, new_min_y, new_max_y);
        let ghost s2 = self.slots@;
        let cz = self.clear_edge(2, dz, new_min_z, new_max_z);
        proof {
            lemma_three_clears(s0, s1, s2, self.slots@, s, dx as int, cx as int, dy as int, cy as int, dz as int, cz as int);
            Self::lemma_shift_law(*old(self), *self, dx as int, dy as int, dz as int);
        }
        true
    }
}

impl<T: Clone> RingGrid3<T> {
    /// What the grid holds for chunk (x, y, z), cloned.
    pub fn get(&self, x: i32, y: i32, z: i32) -> (r: Option<T>)
        requires
            self.wf(),
        ensures
            r is None <==> self.cell(x as int, y as int, z as int) is None,
            r is Some ==> cloned(self.cell(x as int, y as int, z as int)->0, r->0),
            !self.contains(x as int, y as int, z as int) ==> r is None,
    {
        match self.slot_of(x, y, z) {
            Some(i) => self.slots[i].clone(),
            None => None,
        }
    }
}

} // verus!
