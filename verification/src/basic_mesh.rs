//! The standalone client's mesh of a whole cube: six faces of four corners,
//! each face drawn as two triangles.

use crate::mesh::quad_indices;
use vstd::prelude::*;

verus! {

/// A corner of a cube: the block it belongs to, which corner of the block it
/// is (0 or 1 per axis), and its texture corner (0 or 1 per axis).
#[derive(Clone, Copy, PartialEq, Eq, Debug)]
pub struct CubeVertex {
    pub block: [i32; 3],
    pub corner: [u8; 3],
    pub tex: [u8; 2],
}

/// The corners of a cube, face by face: top, bottom, +x, -x, +y, -y.
pub open spec fn cube_corners() -> Seq<([u8; 3], [u8; 2])> {
    seq![
        ([0, 0, 1], [0, 0]), ([1, 0, 1], [1, 0]), ([1, 1, 1], [1, 1]), ([0, 1, 1], [0, 1]),
        ([0, 1, 0], [1, 0]), ([1, 1, 0], [0, 0]), ([1, 0, 0], [0, 1]), ([0, 0, 0], [1, 1]),
        ([1, 0, 0], [0, 0]), ([1, 1, 0], [1, 0]), ([1, 1, 1], [1, 1]), ([1, 0, 1], [0, 1]),
        ([0, 0, 1], [1, 0]), ([0, 1, 1], [0, 0]), ([0, 1, 0], [0, 1]), ([0, 0, 0], [1, 1]),
        ([1, 1, 0], [1, 0]), ([0, 1, 0], [0, 0]), ([0, 1, 1], [0, 1]), ([1, 1, 1], [1, 1]),
        ([1, 0, 1], [0, 0]), ([0, 0, 1], [1, 0]), ([0, 0, 0], [1, 1]), ([1, 0, 0], [0, 1]),
    ]
}

/// Corner `i` of the cube of block `block`.
pub open spec fn cube_vertex(block: [i32; 3], i: int) -> CubeVertex {
    CubeVertex { block, corner: cube_corners()[i].0, tex: cube_corners()[i].1 }
}

fn push_corner(v: &mut Vec<CubeVertex>, block: [i32; 3], corner: [u8; 3], tex: [u8; 2])
    ensures
        final(v)@ == old(v)@.push((CubeVertex { block, corner, tex })),
{
    v.push(CubeVertex { block, corner, tex });
}

/// The 24 corners of the cube at (x, y, z) and the indices drawing its six
/// faces, the cube being number `index` of its buffer.
pub fn create_vertices(x: i32, y: i32, z: i32, index: usize) -> (r: (Vec<CubeVertex>, Vec<u16>))
    requires
        24 * index + 24 <= 65536,
    ensures
        r.0@.len() == 24,
        forall|i: int| 0 <= i < 24 ==> #[trigger] r.0@[i] == cube_vertex([x, y, z], i),
        r.1@ == quad_indices(24 * index as int, 6),
{
    let b = [x, y, z];
    let mut v: Vec<CubeVertex> = Vec::new();
    push_corner(&mut v, b, [0, 0, 1], [0, 0]);
    push_corner(&mut v, b, [1, 0, 1], [1, 0]);
    push_corner(&mut v, b, [1, 1, 1], [1, 1]);
    push_corner(&mut v, b, [0, 1, 1], [0, 1]);
    push_corner(&mut v, b, [0, 1, 0], [1, 0]);
    push_corner(&mut v, b, [1, 1, 0], [0, 0]);
    push_corner(&mut v, b, [1, 0, 0], [0, 1]);
    push_corner(&mut v, b, [0, 0, 0], [1, 1]);
    push_corner(&mut v, b, [1, 0, 0], [0, 0]);
    push_corner(&mut v, b, [1, 1, 0], [1, 0]);
    push_corner(&mut v, b, [1, 1, 1], [1, 1]);
    push_corner(&mut v, b, [1, 0, 1], [0, 1]);
    push_corner(&mut v, b, [0, 0, 1], [1, 0]);
    push_corner(&mut v, b, [0, 1, 1], [0, 0]);
    push_corner(&mut v, b, [0, 1, 0], [0, 1]);
    push_corner(&mut v, b, [0, 0, 0], [1, 1]);
    push_corner(&mut v, b, [1, 1, 0], [1, 0]);
    push_corner(&mut v, b, [0, 1, 0], [0, 0]);
    push_corner(&mut v, b, [0, 1, 1], [0, 1]);
    push_corner(&mut v, b, [1, 1, 1], [1, 1]);
    push_corner(&mut v, b, [1, 0, 1], [0, 0]);
    push_corner(&mut v, b, [0, 0, 1], [1, 0]);
    push_corner(&mut v, b, [0, 0, 0], [1, 1]);
    push_corner(&mut v, b, [1, 0, 0], [0, 1]);
    let offset = (index * 24) as u16;
    let mut ix: Vec<u16> = Vec::new();
    let mut f: u16 = 0;
    while f < 6
        invariant
            f <= 6,
            24 * index + 24 <= 65536,
            offset == 24 * index,
            ix@ == quad_indices(24 * index as int, f as int),
        decreases 6 - f,
    {
        let first = offset + 4 * f;
        let ghost before = ix@;
        ix.push(first);
        ix.push(first + 1);
        ix.push(first + 2);
        ix.push(first + 2);
        ix.push(first + 3);
        ix.push(first);
        proof {
            assert(ix@ =~= quad_indices(24 * index as int, f + 1)) by {
                assert forall|i: int| 0 <= i < 6 * (f + 1) implies ix@[i] == quad_indices(24 * index as int, f + 1)[i] by {
                    if i >= 6 * f {
                        assert(i / 6 == f);
                    }
                }
            }
        }
        f = f + 1;
    }
    proof {
        assert forall|i: int| 0 <= i < 24 implies #[trigger] v@[i] == cube_vertex([x, y, z], i) by {}
    }
    (v, ix)
}

} // verus!
