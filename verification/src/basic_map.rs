//! The blocks of the standalone client's cubic chunks: empty space or one of
//! three solid kinds, of which only grass has atlas tiles.

use crate::map_types::QuadTexCoords;
use vstd::prelude::*;

verus! {

/// Side of the standalone client's cubic chunks.
pub const CHUNK_SIZE: usize = 13;

#[derive(Clone, Copy, PartialEq, Eq, Structural, Debug)]
pub enum Cube {
    Empty,
    Solid(Solid),
}

#[derive(Clone, Copy, PartialEq, Eq, Structural, Debug)]
pub enum Solid {
    Grass,
    Dirt,
    Stone,
}

/// A cube with atlas tiles: only grass has them.
pub open spec fn has_tiles(c: Cube) -> bool {
    c == Cube::Solid(Solid::Grass)
}

impl Cube {
    pub fn is_solid(&self) -> (r: bool)
        ensures
            r == (*self is Solid),
    {
        match self {
            Cube::Solid(_) => true,
            Cube::Empty => false,
        }
    }

    /// Atlas corners of the +x face.
    pub fn tex_coord_px(&self) -> (r: QuadTexCoords)
        requires
            has_tiles(*self),
        ensures
            r == [[4u16, 1u16], [3, 1], [3, 0], [4, 0]],
    {
        [[4, 1], [3, 1], [3, 0], [4, 0]]
    }

    /// Atlas corners of the -x face.
    pub fn tex_coord_nx(&self) -> (r: QuadTexCoords)
        requires
            has_tiles(*self),
        ensures
            r == [[4u16, 0u16], [3, 0], [3, 1], [4, 1]],
    {
        [[4, 0], [3, 0], [3, 1], [4, 1]]
    }

    /// Atlas corners of the +y face.
    pub fn tex_coord_py(&self) -> (r: QuadTexCoords)
        requires
            has_tiles(*self),
        ensures
            r == [[3u16, 1u16], [4, 1], [4, 0], [3, 0]],
    {
        [[3, 1], [4, 1], [4, 0], [3, 0]]
    }

    /// Atlas corners of the -y face.
    pub fn tex_coord_ny(&self) -> (r: QuadTexCoords)
        requires
            has_tiles(*self),
        ensures
            r == [[3u16, 0u16], [4, 0], [4, 1], [3, 1]],
    {
        [[3, 0], [4, 0], [4, 1], [3, 1]]
    }

    /// Atlas corners of the top face.
    pub fn tex_coord_pz(&self) -> (r: QuadTexCoords)
        requires
            has_tiles(*self),
        ensures
            r == [[0u16, 0u16], [1, 0], [1, 1], [0, 1]],
    {
        [[0, 0], [1, 0], [1, 1], [0, 1]]
    }

    /// Atlas corners of the bottom face.
    pub fn tex_coord_nz(&self) -> (r: QuadTexCoords)
        requires
            has_tiles(*self),
        ensures
            r == [[3u16, 0u16], [2, 0], [2, 1], [3, 1]],
    {
        [[3, 0], [2, 0], [2, 1], [3, 1]]
    }
}

/// The cubes of a chunk from the sign of the terrain density at each of its
/// cubes, in the chunk's order (x fastest, then y, then z): solid grass where
/// the density is positive, empty elsewhere.
pub fn chunk_from_density(positive: &Vec<bool>) -> (r: Vec<Cube>)
    requires
        positive@.len() == CHUNK_SIZE * CHUNK_SIZE * CHUNK_SIZE,
    ensures
        r@.len() == positive@.len(),
        forall|i: int| 0 <= i < r@.len() ==> #[trigger] r@[i] == if positive@[i] {
            Cube::Solid(Solid::Grass)
        } else {
            Cube::Empty
        },
{
    let mut r: Vec<Cube> = Vec::new();
    let mut i: usize = 0;
    while i < positive.len()
        invariant
            i <= positive@.len(),
            r@.len() == i,
            forall|k: int| 0 <= k < i ==> #[trigger] r@[k] == if positive@[k] {
                Cube::Solid(Solid::Grass)
            } else {
                Cube::Empty
            },
        decreases positive@.len() - i,
    {
        r.push(if positive[i] { Cube::Solid(Solid::Grass) } else { Cube::Empty });
        i = i + 1;
    }
    r
}

} // verus!
