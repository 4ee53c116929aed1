//! The integer half of gradient noise: the seeded permutation table, the
//! lattice hashes looked up in it, and the gradient each hash selects. The
//! interpolation between lattice points is done on floats by the caller.

use crate::grid::rem_euclid;
use vstd::prelude::*;

verus! {

/// Number of distinct lattice hashes.
pub const PERMUTATION_SIZE: usize = 256;

/// The pseudo-random step applied to the seed before each swap.
pub open spec fn lcg(seed: u64) -> u64 {
    vstd::wrapping::u64_specs::wrapping_add(
        vstd::wrapping::u64_specs::wrapping_mul(seed, 1664525),
        1013904223,
    )
}

/// `p` with the entries at `i` and `j` exchanged.
pub open spec fn swapped(p: Seq<u8>, i: int, j: int) -> Seq<u8> {
    p.update(i, p[j]).update(j, p[i])
}

/// The last `k` steps of the shuffle: for `i` from `k - 1` down to 0, advance
/// the seed and swap entry `i` with entry `seed % (i + 1)`.
pub open spec fn shuffle(p: Seq<u8>, seed: u64, k: nat) -> Seq<u8>
    decreases k,
{
    if k == 0 {
        p
    } else {
        let next = lcg(seed);
        let i = k - 1;
        let j = (next % (i + 1) as u64) as int;
        shuffle(swapped(p, i, j), next, (k - 1) as nat)
    }
}

/// The identity arrangement 0, 1, ..., 255.
pub open spec fn identity_bytes() -> Seq<u8> {
    Seq::new(256, |i: int| i as u8)
}

/// The shuffled arrangement of the 256 byte values for a seed.
pub open spec fn spec_shuffled(seed: u64) -> Seq<u8> {
    shuffle(identity_bytes(), seed, 256)
}

/// Whether byte `v` occurs among the first 256 entries.
pub open spec fn occurs(p: Seq<u8>, v: u8) -> bool {
    exists|i: int| 0 <= i < 256 && p[i] == v
}

/// Every byte value occurs exactly once among the first 256 entries.
pub open spec fn is_byte_permutation(p: Seq<u8>) -> bool {
    &&& p.len() == 256
    &&& forall|i: int, j: int| 0 <= i < j < 256 ==> p[i] != p[j]
    &&& forall|v: u8| #[trigger] occurs(p, v)
}

/// Swapping two entries of a byte permutation leaves a byte permutation.
pub proof fn lemma_swap_permutation(p: Seq<u8>, i: int, j: int)
    requires
        is_byte_permutation(p),
        0 <= i < 256,
        0 <= j < 256,
    ensures
        is_byte_permutation(swapped(p, i, j)),
{
    let q = swapped(p, i, j);
    assert forall|v: u8| #[trigger] occurs(q, v) by {
        assert(occurs(p, v));
        let k = choose|k: int| 0 <= k < 256 && p[k] == v;
        if k == i {
            assert(q[j] == v);
        } else if k == j {
            assert(q[i] == v);
        } else {
            assert(q[k] == v);
        }
    }
    assert forall|a: int, b: int| 0 <= a < b < 256 implies q[a] != q[b] by {
        let pa = if a == i {
            j
        } else if a == j {
            i
        } else {
            a
        };
        let pb = if b == i {
            j
        } else if b == j {
            i
        } else {
            b
        };
        assert(q[a] == p[pa]);
        assert(q[b] == p[pb]);
        assert(pa != pb);
    }
}

/// The shuffle rearranges a byte permutation into a byte permutation.
pub proof fn lemma_shuffle_permutation(p: Seq<u8>, seed: u64, k: nat)
    requires
        is_byte_permutation(p),
        k <= 256,
    ensures
        is_byte_permutation(shuffle(p, seed, k)),
    decreases k,
{
    if k > 0 {
        let next = lcg(seed);
        let i = k - 1;
        let j = (next % (i + 1) as u64) as int;
        lemma_swap_permutation(p, i, j);
        lemma_shuffle_permutation(swapped(p, i, j), next, (k - 1) as nat);
    }
}

/// The arrangement of the 256 byte values that a seed shuffles to is a
/// permutation of them.
pub proof fn lemma_shuffled_is_permutation(seed: u64)
    ensures
        is_byte_permutation(spec_shuffled(seed)),
{
    let id = identity_bytes();
    assert forall|v: u8| #[trigger] occurs(id, v) by {
        assert(id[v as int] == v);
    }
    lemma_shuffle_permutation(id, seed, 256);
}

/// The lookup table of the noise: the shuffled bytes, written twice so that a
/// hash plus a lattice coordinate never leaves the table.
pub struct NoiseTable {
    permutation: Vec<u8>,
}

impl NoiseTable {
    pub closed spec fn table(&self) -> Seq<u8> {
        self.permutation@
    }

    pub closed spec fn wf(&self) -> bool {
        &&& self.permutation@.len() == 512
        &&& is_byte_permutation(self.permutation@.subrange(0, 256))
        &&& forall|i: int| 0 <= i < 256 ==> #[trigger] self.permutation@[i + 256] == self.permutation@[i]
    }

    /// The table for a seed.
    pub fn new(seed: u64) -> (r: Self)
        ensures
            r.wf(),
            r.table() == spec_shuffled(seed) + spec_shuffled(seed),
    {
        let mut p: Vec<u8> = Vec::new();
        let mut i: usize = 0;
        while i < PERMUTATION_SIZE
            invariant
                i <= 256,
                p@.len() == i,
                forall|k: int| 0 <= k < i ==> p@[k] == k as u8,
            decreases 256 - i,
        {
            p.push(i as u8);
            i = i + 1;
        }
        proof {
            assert(p@ =~= identity_bytes());
        }
        let mut seed = seed;
        let ghost seed0 = seed;
        let mut k: usize = PERMUTATION_SIZE;
        while k > 0
            invariant
                k <= 256,
                p@.len() == 256,
                shuffle(p@, seed, k as nat) == spec_shuffled(seed0),
            decreases k,
        {
            let i = k - 1;
            seed = seed.wrapping_mul(1664525).wrapping_add(1013904223);
            let j = (seed % (i as u64 + 1)) as usize;
            let pi = p[i];
            let pj = p[j];
            p.set(i, pj);
            p.set(j, pi);
            k = i;
        }
        proof {
            lemma_shuffled_is_permutation(seed0);
        }
        let mut permutation: Vec<u8> = Vec::new();
        let mut t: usize = 0;
        while t < 512
            invariant
                t <= 512,
                p@ == spec_shuffled(seed0),
                p@.len() == 256,
                permutation@.len() == t,
                forall|q: int| 0 <= q < t ==> #[trigger] permutation@[q] == p@[q % 256],
            decreases 512 - t,
        {
            permutation.push(p[t % 256]);
            t = t + 1;
        }
        let r = NoiseTable { permutation };
        proof {
            assert(r.permutation@.subrange(0, 256) =~= p@);
            assert forall|q: int| 0 <= q < 256 implies #[trigger] r.permutation@[q + 256] == r.permutation@[q] by {
                assert(r.permutation@[q + 256] == p@[(q + 256) % 256]);
            }
            assert(r.permutation@ =~= p@ + p@);
        }
        r
    }

    /// The entry at `i`.
    pub fn at(&self, i: usize) -> (r: u8)
        requires
            self.wf(),
            i < 512,
        ensures
            r == self.table()[i as int],
    {
        self.permutation[i]
    }

    /// The hashes of the four corners of the lattice square at (xi, yi), in
    /// the order (0,0), (1,0), (0,1), (1,1).
    pub fn corner_hashes2(&self, xi: usize, yi: usize) -> (r: [u8; 4])
        requires
            self.wf(),
            xi < 256,
            yi < 256,
        ensures
            ({
                let t = self.table();
                let a = t[xi as int] + yi;
                let b = t[xi + 1] + yi;
                r@ == seq![t[t[a] as int], t[t[b] as int], t[t[a + 1] as int], t[t[b + 1] as int]]
            }),
    {
        let a = self.permutation[xi] as usize + yi;
        let aa = self.permutation[a] as usize;
        let ab = self.permutation[a + 1] as usize;
        let b = self.permutation[xi + 1] as usize + yi;
        let ba = self.permutation[b] as usize;
        let bb = self.permutation[b + 1] as usize;
        let r = [self.permutation[aa], self.permutation[ba], self.permutation[ab], self.permutation[bb]];
        proof {
            assert(r@ =~= seq![r[0], r[1], r[2], r[3]]);
        }
        r
    }

    /// The hashes of the eight corners of the lattice cube at (xi, yi, zi),
    /// in the order (0,0,0), (1,0,0), (0,1,0), (1,1,0), then the same four at
    /// z + 1.
    pub fn corner_hashes3(&self, xi: usize, yi: usize, zi: usize) -> (r: [u8; 8])
        requires
            self.wf(),
            xi < 256,
            yi < 256,
            zi < 256,
        ensures
            ({
                let t = self.table();
                let a = t[xi as int] + yi;
                let b = t[xi + 1] + yi;
                let aa = t[a] + zi;
                let ab = t[a + 1] + zi;
                let ba = t[b] + zi;
                let bb = t[b + 1] + zi;
                r@ == seq![
                    t[aa],
                    t[ba],
                    t[ab],
                    t[bb],
                    t[aa + 1],
                    t[ba + 1],
                    t[ab + 1],
                    t[bb + 1],
                ]
            }),
    {
        let a = self.permutation[xi] as usize + yi;
        let aa = self.permutation[a] as usize + zi;
        let ab = self.permutation[a + 1] as usize + zi;
        let b = self.permutation[xi + 1] as usize + yi;
        let ba = self.permutation[b] as usize + zi;
        let bb = self.permutation[b + 1] as usize + zi;
        let r = [
            self.permutation[aa],
            self.permutation[ba],
            self.permutation[ab],
            self.permutation[bb],
            self.permutation[aa + 1],
            self.permutation[ba + 1],
            self.permutation[ab + 1],
            self.permutation[bb + 1],
        ];
        proof {
            assert(r@ =~= seq![r[0], r[1], r[2], r[3], r[4], r[5], r[6], r[7]]);
        }
        r
    }
}

/// The lattice cell of a floored coordinate: its low eight bits.
pub fn lattice(v: i32) -> (r: usize)
    ensures
        r == v as int % 256,
        r < 256,
{
    rem_euclid(v, 256)
}

/// The axis a gradient component reads.
#[derive(Clone, Copy, PartialEq, Eq, Structural, Debug)]
pub enum Axis {
    X,
    Y,
    Z,
}

/// A gradient: the sum of two coordinates, each possibly negated.
#[derive(Clone, Copy, PartialEq, Eq, Structural, Debug)]
pub struct Gradient {
    pub u: Axis,
    pub v: Axis,
    pub negate_u: bool,
    pub negate_v: bool,
}

/// The gradient a hash selects in two dimensions: `±x ± y`, the low bit
/// negating y and the next bit negating x.
pub open spec fn spec_gradient2(hash: u8) -> Gradient {
    let h = hash as int % 4;
    Gradient { u: Axis::X, v: Axis::Y, negate_u: h / 2 == 1, negate_v: h % 2 == 1 }
}

/// The gradient a hash selects in three dimensions (the improved-noise
/// table): from the low four bits `h`, `u` is x below 8 and y otherwise; `v`
/// is y below 4, x for 12 and 14, z otherwise; bit 0 negates `u`, bit 1
/// negates `v`.
pub open spec fn spec_gradient3(hash: u8) -> Gradient {
    let h = hash as int % 16;
    Gradient {
        u: if h < 8 {
            Axis::X
        } else {
            Axis::Y
        },
        v: if h < 4 {
            Axis::Y
        } else if h == 12 || h == 14 {
            Axis::X
        } else {
            Axis::Z
        },
        negate_u: h % 2 == 1,
        negate_v: (h / 2) % 2 == 1,
    }
}

/// The coordinate an axis picks.
pub open spec fn axis_value(a: Axis, x: int, y: int, z: int) -> int {
    match a {
        Axis::X => x,
        Axis::Y => y,
        Axis::Z => z,
    }
}

/// The value of a gradient at the point (x, y, z).
pub open spec fn gradient_value(g: Gradient, x: int, y: int, z: int) -> int {
    (if g.negate_u {
        -axis_value(g.u, x, y, z)
    } else {
        axis_value(g.u, x, y, z)
    }) + (if g.negate_v {
        -axis_value(g.v, x, y, z)
    } else {
        axis_value(g.v, x, y, z)
    })
}

/// In two dimensions a hash gives `x + y` with x negated exactly when bit 1
/// of the hash is set and y negated exactly when bit 0 is set.
pub proof fn lemma_gradient2_value(hash: u8, x: int, y: int)
    ensures
        gradient_value(spec_gradient2(hash), x, y, 0) == (if hash & 2 == 0 {
            x
        } else {
            -x
        }) + (if hash & 1 == 0 {
            y
        } else {
            -y
        }),
{
    assert((hash & 2 == 0) == ((hash % 4) / 2 != 1)) by (bit_vector);
    assert((hash & 1 == 0) == ((hash % 4) % 2 != 1)) by (bit_vector);
}

/// Hashes that differ in their two low bits select different gradients in
/// two dimensions, so the four gradients `±x ± y` all occur.
pub proof fn lemma_gradient2_distinct(a: u8, b: u8)
    requires
        a % 4 != b % 4,
    ensures
        spec_gradient2(a) != spec_gradient2(b),
{
}

/// In three dimensions a hash's low four bits `h` pick `u` (x below 8, y
/// otherwise) and `v` (y below 4, x for 12 and 14, z otherwise); the value is
/// `u + v` with u negated exactly when bit 0 is set and v exactly when bit 1
/// is set.
pub proof fn lemma_gradient3_value(hash: u8, x: int, y: int, z: int)
    ensures
        ({
            let h = hash & 15;
            let u = if h < 8 {
                x
            } else {
                y
            };
            let v = if h < 4 {
                y
            } else if h == 12 || h == 14 {
                x
            } else {
                z
            };
            gradient_value(spec_gradient3(hash), x, y, z) == (if h & 1 == 0 {
                u
            } else {
                -u
            }) + (if h & 2 == 0 {
                v
            } else {
                -v
            })
        }),
{
    assert((hash & 15) == hash % 16) by (bit_vector);
    assert(((hash & 15) & 1 == 0) == ((hash % 16) % 2 != 1)) by (bit_vector);
    assert(((hash & 15) & 2 == 0) == (((hash % 16) / 2) % 2 != 1)) by (bit_vector);
}

pub fn gradient2(hash: u8) -> (r: Gradient)
    ensures
        r == spec_gradient2(hash),
{
    let h = hash % 4;
    Gradient { u: Axis::X, v: Axis::Y, negate_u: h / 2 == 1, negate_v: h % 2 == 1 }
}

pub fn gradient3(hash: u8) -> (r: Gradient)
    ensures
        r == spec_gradient3(hash),
{
    let h = hash % 16;
    let u = if h < 8 {
        Axis::X
    } else {
        Axis::Y
    };
    let v = if h < 4 {
        Axis::Y
    } else if h == 12 || h == 14 {
        Axis::X
    } else {
        Axis::Z
    };
    Gradient { u, v, negate_u: h % 2 == 1, negate_v: (h / 2) % 2 == 1 }
}

} // verus!
