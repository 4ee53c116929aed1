//! Ring-buffer grids that follow the player: a square (or cube) window of
//! chunk coordinates around the eye, stored in a flat vector where the
//! coordinate `v` of each axis lives in slot `v mod side`.
//!
//! Along each axis the window spans `side = 2 * distance + 2` coordinates:
//! `distance` on each side of the eye's chunk plus one more on the side of the
//! chunk half the eye is in.

use vstd::prelude::*;

verus! {

/// Number of coordinates a window spans along one axis.
pub open spec fn side_of(distance: int) -> int {
    2 * distance + 2
}

/// Lowest coordinate of the window along one axis.
pub open spec fn window_min(center: int, distance: int, upper: bool) -> int {
    center - distance - if upper {
        0int
    } else {
        1int
    }
}

/// Highest coordinate of the window along one axis.
pub open spec fn window_max(center: int, distance: int, upper: bool) -> int {
    center + distance + if upper {
        1int
    } else {
        0int
    }
}

/// The window along one axis stays within `i32`.
pub open spec fn axis_ok(center: int, distance: int) -> bool {
    &&& 0 <= distance
    &&& i32::MIN <= center - distance - 1
    &&& center + distance + 1 <= i32::MAX
}

/// Whether `v` lies in the window along one axis.
pub open spec fn in_window(v: int, center: int, distance: int, upper: bool) -> bool {
    window_min(center, distance, upper) <= v <= window_max(center, distance, upper)
}

/// `v mod m`, for any sign of `v`.
pub fn rem_euclid(v: i32, m: usize) -> (r: usize)
    requires
        0 < m,
    ensures
        r == v as int % m as int,
        r < m,
{
    let mm = m as u64;
    if v >= 0 {
        let r = (v as u64) % mm;
        r as usize
    } else {
        let neg = -(v as i64);
        let a = (neg as u64) % mm;
        proof {
            let k = neg as int / m as int;
            vstd::arithmetic::div_mod::lemma_fundamental_div_mod(neg as int, m as int);
            assert(neg as int == m as int * k + a as int);
            if a == 0 {
                assert(v as int == (-k) * m as int + 0) by (nonlinear_arith)
                    requires
                        neg as int == m as int * k + 0,
                        v as int == -(neg as int),
                ;
                vstd::arithmetic::div_mod::lemma_fundamental_div_mod_converse(
                    v as int,
                    m as int,
                    -k,
                    0,
                );
            } else {
                assert(v as int == (-k - 1) * m as int + (m as int - a as int)) by (nonlinear_arith)
                    requires
                        neg as int == m as int * k + a as int,
                        v as int == -(neg as int),
                ;
                vstd::arithmetic::div_mod::lemma_fundamental_div_mod_converse(
                    v as int,
                    m as int,
                    -k - 1,
                    m as int - a as int,
                );
            }
        }
        if a == 0 {
            0
        } else {
            (mm - a) as usize
        }
    }
}

/// Two distinct coordinates less than `m` apart fall in distinct slots.
pub proof fn lemma_mod_distinct(a: int, b: int, m: int)
    requires
        0 < m,
        a < b < a + m,
    ensures
        a % m != b % m,
{
    vstd::arithmetic::div_mod::lemma_fundamental_div_mod(a, m);
    vstd::arithmetic::div_mod::lemma_fundamental_div_mod(b, m);
    vstd::arithmetic::div_mod::lemma_mod_bound(a, m);
    vstd::arithmetic::div_mod::lemma_mod_bound(b, m);
    if a % m == b % m {
        let qa = a / m;
        let qb = b / m;
        assert(b - a == m * (qb - qa)) by (nonlinear_arith)
            requires
                a == m * qa + a % m,
                b == m * qb + b % m,
                a % m == b % m,
        ;
        if qb - qa >= 1 {
            assert(m * (qb - qa) >= m) by (nonlinear_arith)
                requires
                    qb - qa >= 1,
                    m > 0,
            ;
        } else {
            assert(m * (qb - qa) <= 0) by (nonlinear_arith)
                requires
                    qb - qa <= 0,
                    m > 0,
            ;
        }
    }
}

/// Flat index of (row, column) in a square of side `s`.
pub open spec fn idx2(row: int, col: int, s: int) -> int {
    row * s + col
}

/// Flat indices of a square of side `s` are in range and name their cell.
pub proof fn lemma_idx2(row: int, col: int, s: int)
    requires
        0 <= row < s,
        0 <= col < s,
    ensures
        0 <= idx2(row, col, s) < s * s,
        idx2(row, col, s) / s == row,
        idx2(row, col, s) % s == col,
{
    assert(0 <= row * s + col < s * s) by (nonlinear_arith)
        requires
            0 <= row < s,
            0 <= col < s,
    ;
    vstd::arithmetic::div_mod::lemma_fundamental_div_mod_converse(row * s + col, s, row, col);
}

/// Two cells of a square have the same flat index only if they are the same
/// cell.
pub proof fn lemma_idx2_injective(r1: int, c1: int, r2: int, c2: int, s: int)
    requires
        0 <= r1 < s,
        0 <= c1 < s,
        0 <= r2 < s,
        0 <= c2 < s,
        idx2(r1, c1, s) == idx2(r2, c2, s),
    ensures
        r1 == r2 && c1 == c2,
{
    lemma_idx2(r1, c1, s);
    lemma_idx2(r2, c2, s);
}

} // verus!

verus! {

/// A square window of slots around the eye's chunk.
pub struct RingGrid2<T> {
    slots: Vec<Option<T>>,
    distance: usize,
    x: i32,
    y: i32,
    x_upper: bool,
    y_upper: bool,
}

/// Slots with one column emptied.
pub open spec fn cleared_col<T>(slots: Seq<Option<T>>, col: int, s: int) -> Seq<Option<T>> {
    Seq::new(slots.len(), |i: int| if i % s == col { None } else { slots[i] })
}

/// Slots with one row emptied.
pub open spec fn cleared_row<T>(slots: Seq<Option<T>>, row: int, s: int) -> Seq<Option<T>> {
    Seq::new(slots.len(), |i: int| if i / s == row { None } else { slots[i] })
}

impl<T> RingGrid2<T> {
    pub closed spec fn dist(&self) -> int {
        self.distance as int
    }

    pub closed spec fn side(&self) -> int {
        side_of(self.distance as int)
    }

    /// The eye's chunk and in which half of it the eye is, per axis.
    pub closed spec fn center(&self) -> (int, int, bool, bool) {
        (self.x as int, self.y as int, self.x_upper, self.y_upper)
    }

    pub closed spec fn wf(&self) -> bool {
        &&& axis_ok(self.x as int, self.distance as int)
        &&& axis_ok(self.y as int, self.distance as int)
        &&& self.slots@.len() == self.side() * self.side()
        &&& self.side() * self.side() <= usize::MAX
    }

    /// Whether (x, y) lies inside the window.
    pub open spec fn contains(&self, x: int, y: int) -> bool {
        let (cx, cy, ux, uy) = self.center();
        &&& in_window(x, cx, self.dist(), ux)
        &&& in_window(y, cy, self.dist(), uy)
    }

    /// The slot of (x, y): its row is `y mod side`, its column `x mod side`.
    pub closed spec fn slot_index(&self, x: int, y: int) -> int {
        idx2(y % self.side(), x % self.side(), self.side())
    }

    /// What the grid holds for chunk (x, y): nothing outside the window.
    pub closed spec fn cell(&self, x: int, y: int) -> Option<T> {
        if self.contains(x, y) {
            self.slots@[self.slot_index(x, y)]
        } else {
            None
        }
    }

    proof fn lemma_slot_index(&self, x: int, y: int)
        requires
            self.wf(),
        ensures
            0 <= self.slot_index(x, y) < self.slots@.len(),
            self.slot_index(x, y) / self.side() == y % self.side(),
            self.slot_index(x, y) % self.side() == x % self.side(),
    {
        vstd::arithmetic::div_mod::lemma_mod_bound(x, self.side());
        vstd::arithmetic::div_mod::lemma_mod_bound(y, self.side());
        lemma_idx2(y % self.side(), x % self.side(), self.side());
    }

    fn empty_slots(n: usize) -> (r: Vec<Option<T>>)
        ensures
            r@.len() == n,
            forall|i: int| 0 <= i < n ==> r@[i] is None,
    {
        let mut v: Vec<Option<T>> = Vec::new();
        let mut i: usize = 0;
        while i < n
            invariant
                i <= n,
                v@.len() == i,
                forall|j: int| 0 <= j < i ==> v@[j] is None,
            decreases n - i,
        {
            v.push(None);
            i = i + 1;
        }
        v
    }

    /// A well-formed window lies inside `i32`.
    pub proof fn lemma_wf_center(&self)
        requires
            self.wf(),
        ensures
            axis_ok(self.center().0, self.dist()),
            axis_ok(self.center().1, self.dist()),
    {
    }

    pub fn distance(&self) -> (r: usize)
        ensures
            r == self.dist(),
    {
        self.distance
    }

    /// The eye's chunk and in which half of it the eye is, per axis.
    pub fn center_exec(&self) -> (r: (i32, i32, bool, bool))
        ensures
            (r.0 as int, r.1 as int, r.2, r.3) == self.center(),
    {
        (self.x, self.y, self.x_upper, self.y_upper)
    }

    /// An empty window of the given distance around (x, y).
    pub fn new(distance: usize, x: i32, y: i32, x_upper: bool, y_upper: bool) -> (r: Self)
        requires
            axis_ok(x as int, distance as int),
            axis_ok(y as int, distance as int),
            side_of(distance as int) * side_of(distance as int) <= usize::MAX,
        ensures
            r.wf(),
            r.dist() == distance,
            r.center() == (x as int, y as int, x_upper, y_upper),
            forall|a: int, b: int| #[trigger] r.cell(a, b) is None,
    {
        let side = distance * 2 + 2;
        let slots = Self::empty_slots(side * side);
        let r = RingGrid2 { slots, distance, x, y, x_upper, y_upper };
        proof {
            assert forall|a: int, b: int| #[trigger] r.cell(a, b) is None by {
                if r.contains(a, b) {
                    r.lemma_slot_index(a, b);
                }
            }
        }
        r
    }

    /// Empty every slot.
    pub fn reset(&mut self)
        requires
            old(self).wf(),
        ensures
            final(self).wf(),
            final(self).dist() == old(self).dist(),
            final(self).center() == old(self).center(),
            forall|a: int, b: int| #[trigger] final(self).cell(a, b) is None,
    {
        let n = self.slots.len();
        self.slots = Self::empty_slots(n);
        proof {
            assert forall|a: int, b: int| #[trigger] self.cell(a, b) is None by {
                if self.contains(a, b) {
                    self.lemma_slot_index(a, b);
                }
            }
        }
    }

    /// Slot of (x, y), if it lies inside the window.
    fn slot_of(&self, x: i32, y: i32) -> (r: Option<usize>)
        requires
            self.wf(),
        ensures
            r is None <==> !self.contains(x as int, y as int),
            r matches Some(i) ==> i == self.slot_index(x as int, y as int) && i < self.slots@.len(),
    {
        let d = self.distance as i64;
        let min_x = self.x as i64 - d - if self.x_upper {
            0
        } else {
            1
        };
        let max_x = self.x as i64 + d + if self.x_upper {
            1
        } else {
            0
        };
        if min_x > x as i64 || x as i64 > max_x {
            return None;
        }
        let min_y = self.y as i64 - d - if self.y_upper {
            0
        } else {
            1
        };
        let max_y = self.y as i64 + d + if self.y_upper {
            1
        } else {
            0
        };
        if min_y > y as i64 || y as i64 > max_y {
            return None;
        }
        let side = self.distance * 2 + 2;
        let sx = rem_euclid(x, side);
        let sy = rem_euclid(y, side);
        proof {
            self.lemma_slot_index(x as int, y as int);
            assert(side as int == self.side());
            assert((sy as int) * (side as int) + (sx as int) < (side as int) * (side as int)) by (nonlinear_arith)
                requires
                    sy < side,
                    sx < side,
            ;
            assert(sy as int * side as int + sx as int == self.slot_index(x as int, y as int));
        }
        let row_start = sy * side;
        Some(row_start + sx)
    }

    /// Whether the grid holds something for chunk (x, y).
    pub fn has(&self, x: i32, y: i32) -> (r: bool)
        requires
            self.wf(),
        ensures
            r == self.cell(x as int, y as int) is Some,
    {
        match self.slot_of(x, y) {
            Some(i) => self.slots[i].is_some(),
            None => false,
        }
    }

    /// Store `value` for chunk (x, y); outside the window nothing changes.
    pub fn set(&mut self, x: i32, y: i32, value: Option<T>)
        requires
            old(self).wf(),
        ensures
            final(self).wf(),
            final(self).dist() == old(self).dist(),
            final(self).center() == old(self).center(),
            forall|a: int, b: int|
                #[trigger] final(self).cell(a, b) == if a == x && b == y && old(self).contains(
                    a,
                    b,
                ) {
                    value
                } else {
                    old(self).cell(a, b)
                },
    {
        match self.slot_of(x, y) {
            Some(i) => {
                self.slots.set(i, value);
                proof {
                    assert forall|a: int, b: int| #[trigger]
                        self.cell(a, b) == if a == x && b == y && old(self).contains(a, b) {
                            value
                        } else {
                            old(self).cell(a, b)
                        } by {
                        if self.contains(a, b) && !(a == x && b == y) {
                            self.lemma_slot_index(a, b);
                            self.lemma_slot_index(x as int, y as int);
                            let s = self.side();
                            if self.slot_index(a, b) == i {
                                lemma_idx2_injective(b % s, a % s, y as int % s, x as int % s, s);
                                if a != x {
                                    let (lo, hi) = if a < x {
                                        (a, x as int)
                                    } else {
                                        (x as int, a)
                                    };
                                    lemma_mod_distinct(lo, hi, s);
                                } else {
                                    let (lo, hi) = if b < y {
                                        (b, y as int)
                                    } else {
                                        (y as int, b)
                                    };
                                    lemma_mod_distinct(lo, hi, s);
                                }
                            }
                        }
                    }
                }
            },
            None => {},
        }
    }
}

/// How far the window's lowest coordinate moves along one axis when the eye
/// moves from (center, upper) to (new_center, new_upper).
pub open spec fn min_shift(
    center: int,
    upper: bool,
    new_center: int,
    new_upper: bool,
    distance: int,
) -> int {
    window_min(new_center, distance, new_upper) - window_min(center, distance, upper)
}

/// The window slides by at most one chunk along the axis, so the slots can be
/// kept instead of being emptied.
pub open spec fn small_shift(
    center: int,
    upper: bool,
    new_center: int,
    new_upper: bool,
    distance: int,
) -> bool {
    -1 <= min_shift(center, upper, new_center, new_upper, distance) <= 1
}

/// The slot of index `i` in a square of side `s` sits in column `i % s` and row
/// `i / s`; it is `idx2` of those.
pub proof fn lemma_unflatten(i: int, s: int)
    requires
        0 < s,
        0 <= i < s * s,
    ensures
        i == idx2(i / s, i % s, s),
        0 <= i / s < s,
        0 <= i % s < s,
{
    vstd::arithmetic::div_mod::lemma_fundamental_div_mod(i, s);
    vstd::arithmetic::div_mod::lemma_mod_bound(i, s);
    assert(i == (i / s) * s + i % s) by (nonlinear_arith)
        requires
            i == s * (i / s) + i % s,
    ;
    if i / s >= s {
        assert((i / s) * s >= s * s) by (nonlinear_arith)
            requires
                i / s >= s,
                s > 0,
        ;
    }
    if i / s < 0 {
        assert((i / s) * s <= -s) by (nonlinear_arith)
            requires
                i / s <= -1,
                s > 0,
        ;
    }
}

impl<T> RingGrid2<T> {
    /// Empty one column of slots.
    fn clear_col(&mut self, col: usize)
        requires
            old(self).wf(),
            col < old(self).side(),
        ensures
            final(self).wf(),
            final(self).dist() == old(self).dist(),
            final(self).center() == old(self).center(),
            final(self).slots@ == cleared_col(old(self).slots@, col as int, old(self).side()),
    {
        let side = self.distance * 2 + 2;
        let ghost s = side as int;
        let ghost s0 = self.slots@;
        let mut r: usize = 0;
        while r < side
            invariant
                side as int == self.side(),
                s == side,
                self.wf(),
                self.dist() == old(self).dist(),
                self.center() == old(self).center(),
                r <= side,
                col < side,
                s0 == old(self).slots@,
                self.slots@ == Seq::new(
                    s0.len(),
                    |i: int| if i % s == col && i / s < r { None } else { s0[i] },
                ),
            decreases side - r,
        {
            proof {
                lemma_idx2(r as int, col as int, s);
                assert((r as int) * s + (col as int) < s * s);
            }
            let i = r * side + col;
            let ghost before = self.slots@;
            self.slots.set(i, None);
            proof {
                assert forall|j: int| 0 <= j < s0.len() implies self.slots@[j] == (if j % s == col
                    && j / s < r + 1 {
                    None
                } else {
                    s0[j]
                }) by {
                    lemma_unflatten(j, s);
                    if j == i {
                    } else if j % s == col && j / s == r {
                        assert(j == idx2(r as int, col as int, s));
                    }
                }
                assert(self.slots@ =~= Seq::new(
                    s0.len(),
                    |j: int| if j % s == col && j / s < r + 1 { None } else { s0[j] },
                ));
            }
            r = r + 1;
        }
        proof {
            assert forall|j: int| 0 <= j < s0.len() implies self.slots@[j] == cleared_col(
                s0,
                col as int,
                s,
            )[j] by {
                lemma_unflatten(j, s);
            }
            assert(self.slots@ =~= cleared_col(s0, col as int, s));
        }
    }

    /// Empty one row of slots.
    fn clear_row(&mut self, row: usize)
        requires
            old(self).wf(),
            row < old(self).side(),
        ensures
            final(self).wf(),
            final(self).dist() == old(self).dist(),
            final(self).center() == old(self).center(),
            final(self).slots@ == cleared_row(old(self).slots@, row as int, old(self).side()),
    {
        let side = self.distance * 2 + 2;
        let ghost s = side as int;
        let ghost s0 = self.slots@;
        let mut c: usize = 0;
        while c < side
            invariant
                side as int == self.side(),
                s == side,
                self.wf(),
                self.dist() == old(self).dist(),
                self.center() == old(self).center(),
                c <= side,
                row < side,
                s0 == old(self).slots@,
                self.slots@ == Seq::new(
                    s0.len(),
                    |i: int| if i / s == row && i % s < c { None } else { s0[i] },
                ),
            decreases side - c,
        {
            proof {
                lemma_idx2(row as int, c as int, s);
                assert((row as int) * s + (c as int) < s * s);
            }
            let i = row * side + c;
            self.slots.set(i, None);
            proof {
                assert forall|j: int| 0 <= j < s0.len() implies self.slots@[j] == (if j / s == row
                    && j % s < c + 1 {
                    None
                } else {
                    s0[j]
                }) by {
                    lemma_unflatten(j, s);
                    if j == i {
                    } else if j / s == row && j % s == c {
                        assert(j == idx2(row as int, c as int, s));
                    }
                }
                assert(self.slots@ =~= Seq::new(
                    s0.len(),
                    |j: int| if j / s == row && j % s < c + 1 { None } else { s0[j] },
                ));
            }
            c = c + 1;
        }
        proof {
            assert forall|j: int| 0 <= j < s0.len() implies self.slots@[j] == cleared_row(
                s0,
                row as int,
                s,
            )[j] by {
                lemma_unflatten(j, s);
            }
            assert(self.slots@ =~= cleared_row(s0, row as int, s));
        }
    }
}

impl<T> RingGrid2<T> {
    /// The cells after sliding the window by at most one chunk per axis, given
    /// which column and row of slots were emptied.
    proof fn lemma_shift_law(
        old_grid: Self,
        new_grid: Self,
        mid: Seq<Option<T>>,
        dx: int,
        dy: int,
        colx: int,
        rowy: int,
    )
        requires
            old_grid.wf(),
            new_grid.wf(),
            new_grid.distance == old_grid.distance,
            -1 <= dx <= 1,
            -1 <= dy <= 1,
            dx == window_min(new_grid.x as int, new_grid.distance as int, new_grid.x_upper)
                - window_min(old_grid.x as int, old_grid.distance as int, old_grid.x_upper),
            dy == window_min(new_grid.y as int, new_grid.distance as int, new_grid.y_upper)
                - window_min(old_grid.y as int, old_grid.distance as int, old_grid.y_upper),
            colx == if dx == 1 {
                window_max(new_grid.x as int, new_grid.distance as int, new_grid.x_upper)
                    % new_grid.side()
            } else if dx == -1 {
                window_min(new_grid.x as int, new_grid.distance as int, new_grid.x_upper)
                    % new_grid.side()
            } else {
                0
            },
            rowy == if dy == 1 {
                window_max(new_grid.y as int, new_grid.distance as int, new_grid.y_upper)
                    % new_grid.side()
            } else if dy == -1 {
                window_min(new_grid.y as int, new_grid.distance as int, new_grid.y_upper)
                    % new_grid.side()
            } else {
                0
            },
            mid.len() == old_grid.slots@.len(),
            mid == if dx == 0 {
                old_grid.slots@
            } else {
                cleared_col(old_grid.slots@, colx, new_grid.side())
            },
            new_grid.slots@ == if dy == 0 {
                mid
            } else {
                cleared_row(mid, rowy, new_grid.side())
            },
        ensures
            forall|a: int, b: int| #[trigger]
                new_grid.cell(a, b) == if old_grid.contains(a, b) && new_grid.contains(a, b) {
                    old_grid.cell(a, b)
                } else {
                    None
                },
    {
        let s = new_grid.side();
        let d = new_grid.distance as int;
        let nminx = window_min(new_grid.x as int, d, new_grid.x_upper);
        let nmaxx = window_max(new_grid.x as int, d, new_grid.x_upper);
        let nminy = window_min(new_grid.y as int, d, new_grid.y_upper);
        let nmaxy = window_max(new_grid.y as int, d, new_grid.y_upper);
        assert forall|a: int, b: int| #[trigger]
            new_grid.cell(a, b) == if old_grid.contains(a, b) && new_grid.contains(a, b) {
                old_grid.cell(a, b)
            } else {
                None
            } by {
            if new_grid.contains(a, b) {
                new_grid.lemma_slot_index(a, b);
                old_grid.lemma_slot_index(a, b);
                vstd::arithmetic::div_mod::lemma_mod_bound(a, s);
                vstd::arithmetic::div_mod::lemma_mod_bound(b, s);
                if old_grid.contains(a, b) {
                    if dx == 1 {
                        lemma_mod_distinct(a, nmaxx, s);
                    } else if dx == -1 {
                        lemma_mod_distinct(nminx, a, s);
                    }
                    if dy == 1 {
                        lemma_mod_distinct(b, nmaxy, s);
                    } else if dy == -1 {
                        lemma_mod_distinct(nminy, b, s);
                    }
                }
            }
        }
    }

    /// After the window slid by `delta` along one axis (columns for x, rows
    /// for y), empty the slots of the coordinate that newly entered it.
    fn clear_edge(&mut self, is_x: bool, delta: i64, new_min: i64, new_max: i64) -> (r: usize)
        requires
            old(self).wf(),
            -1 <= delta <= 1,
            i32::MIN <= new_min,
            new_max <= i32::MAX,
            new_max == new_min + old(self).side() - 1,
        ensures
            final(self).wf(),
            final(self).dist() == old(self).dist(),
            final(self).center() == old(self).center(),
            r == if delta == 1 {
                new_max as int % old(self).side()
            } else if delta == -1 {
                new_min as int % old(self).side()
            } else {
                0
            },
            final(self).slots@ == if delta == 0 {
                old(self).slots@
            } else if is_x {
                cleared_col(old(self).slots@, r as int, old(self).side())
            } else {
                cleared_row(old(self).slots@, r as int, old(self).side())
            },
    {
        let side = self.distance * 2 + 2;
        if delta == 0 {
            return 0;
        }
        let entered = if delta == 1 {
            new_max
        } else {
            new_min
        };
        let slot = rem_euclid(entered as i32, side);
        if is_x {
            self.clear_col(slot);
        } else {
            self.clear_row(slot);
        }
        slot
    }

    /// Move the window to follow the eye. When it slides by at most one chunk
    /// along each axis, every chunk still inside keeps its slot and the chunks
    /// that newly entered start empty; a longer jump empties the whole grid.
    pub fn recenter(&mut self, x: i32, y: i32, x_upper: bool, y_upper: bool) -> (kept: bool)
        requires
            old(self).wf(),
            axis_ok(x as int, old(self).dist()),
            axis_ok(y as int, old(self).dist()),
        ensures
            final(self).wf(),
            final(self).dist() == old(self).dist(),
            final(self).center() == (x as int, y as int, x_upper, y_upper),
            kept == ({
                let (ox, oy, oux, ouy) = old(self).center();
                let d = old(self).dist();
                small_shift(ox, oux, x as int, x_upper, d) && small_shift(
                    oy,
                    ouy,
                    y as int,
                    y_upper,
                    d,
                )
            }),
            ({
                let (ox, oy, oux, ouy) = old(self).center();
                let d = old(self).dist();
                small_shift(ox, oux, x as int, x_upper, d) && small_shift(
                    oy,
                    ouy,
                    y as int,
                    y_upper,
                    d,
                )
            }) ==> forall|a: int, b: int| #[trigger]
                final(self).cell(a, b) == if old(self).contains(a, b) && final(self).contains(a, b) {
                    old(self).cell(a, b)
                } else {
                    None
                },
            !({
                let (ox, oy, oux, ouy) = old(self).center();
                let d = old(self).dist();
                small_shift(ox, oux, x as int, x_upper, d) && small_shift(
                    oy,
                    ouy,
                    y as int,
                    y_upper,
                    d,
                )
            }) ==> forall|a: int, b: int| #[trigger] final(self).cell(a, b) is None,
    {
        let side = self.distance * 2 + 2;
        let ghost s = side as int;
        let ghost d = self.distance as int;
        let ghost s0 = self.slots@;
        let dd = self.distance as i64;
        let old_min_x = self.x as i64 - dd - if self.x_upper {
            0
        } else {
            1
        };
        let old_min_y = self.y as i64 - dd - if self.y_upper {
            0
        } else {
            1
        };
        let new_min_x = x as i64 - dd - if x_upper {
            0
        } else {
            1
        };
        let new_min_y = y as i64 - dd - if y_upper {
            0
        } else {
            1
        };
        let new_max_x = new_min_x + side as i64 - 1;
        let new_max_y = new_min_y + side as i64 - 1;
        self.x = x;
        self.y = y;
        self.x_upper = x_upper;
        self.y_upper = y_upper;

        let dx = new_min_x - old_min_x;
        let dy = new_min_y - old_min_y;
        if dx < -1 || dx > 1 || dy < -1 || dy > 1 {
            self.reset();
            return false;
        }
        let colx = self.clear_edge(true, dx, new_min_x, new_max_x);
        let ghost s1 = self.slots@;
        let rowy = self.clear_edge(false, dy, new_min_y, new_max_y);
        proof {
            Self::lemma_shift_law(
                *old(self),
                *self,
                s1,
                dx as int,
                dy as int,
                colx as int,
                rowy as int,
            );
        }
        true
    }
}

impl<T: Clone> RingGrid2<T> {
    /// What the grid holds for chunk (x, y), cloned.
    pub fn get(&self, x: i32, y: i32) -> (r: Option<T>)
        requires
            self.wf(),
        ensures
            r is None <==> self.cell(x as int, y as int) is None,
            r is Some ==> cloned(self.cell(x as int, y as int)->0, r->0),
            !self.contains(x as int, y as int) ==> r is None,
    {
        match self.slot_of(x, y) {
            Some(i) => self.slots[i].clone(),
            None => None,
        }
    }
}

} // verus!
