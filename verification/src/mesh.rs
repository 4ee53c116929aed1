//! Meshing: which faces of which blocks are drawn, with which atlas corners,
//! and how they are packed into index buffers of at most 16-bit indices.
//!
//! A vertex is kept as the block it belongs to plus the corner's offset inside
//! the block in sixteenths, so the geometry stays exact; the renderer turns it
//! into floats.

use crate::map_types::{
    Chunk, CHUNK_VOLUME,
    spec_filtered_tiles, spec_harvestable_tile, spec_plantlike_tile, spec_quad_nx, spec_quad_ny,
    spec_quad_px, spec_quad_py, spec_solid_tiles, spec_translucent_tile, Cube, Custom,
    FilteredSolid, Harvestable, Plantlike, QuadTexCoords, Solid, Translucent,
};
use vstd::prelude::*;

verus! {

/// Where the tint of a vertex comes from: no tint, or the biome tint of a
/// column of this chunk or of its +x or +y neighbour, by column index
/// `y * CHUNK_SIZE + x`.
#[derive(Clone, Copy, PartialEq, Eq, Structural, Debug)]
pub enum TintSource {
    Untinted,
    Center(u16),
    PosX(u16),
    PosY(u16),
}

/// One corner of a quad, relative to its block.
#[derive(Clone, Copy, PartialEq, Eq, Debug)]
pub struct Corner {
    /// Offset inside the block, in sixteenths of a block, per axis.
    pub offset: [u8; 3],
    pub tex: [u16; 2],
    pub filter_tex: [u16; 2],
    /// Which of the block's four tints the corner takes (0 to 3), or 4 for
    /// none.
    pub tint: u8,
}

pub type Quad = [Corner; 4];

/// A vertex of a chunk mesh.
#[derive(Clone, Copy, PartialEq, Eq, Debug)]
pub struct MeshVertex {
    /// World coordinates of the block.
    pub block: [i32; 3],
    /// Offset inside the block, in sixteenths of a block.
    pub offset: [u8; 3],
    pub tex: [u16; 2],
    pub filter_tex: [u16; 2],
    pub tint: TintSource,
}

pub open spec fn corner_vertex(block: [i32; 3], c: Corner, tints: [TintSource; 4]) -> MeshVertex {
    MeshVertex {
        block,
        offset: c.offset,
        tex: c.tex,
        filter_tex: c.filter_tex,
        tint: if c.tint < 4 {
            tints[c.tint as int]
        } else {
            TintSource::Untinted
        },
    }
}

/// The vertices of a list of quads, four per quad.
pub open spec fn quads_vertices(qs: Seq<Quad>, block: [i32; 3], tints: [TintSource; 4]) -> Seq<
    MeshVertex,
> {
    Seq::new(4 * qs.len(), |i: int| corner_vertex(block, qs[i / 4][i % 4], tints))
}

/// Offsets of a quad's two triangles among its four vertices.
pub open spec fn quad_pattern(k: int) -> int {
    if k == 0 {
        0
    } else if k == 1 {
        1
    } else if k == 2 {
        2
    } else if k == 3 {
        2
    } else if k == 4 {
        3
    } else {
        0
    }
}

/// The indices of `n` consecutive quads whose first vertex is number `base`.
pub open spec fn quad_indices(base: int, n: int) -> Seq<u16> {
    Seq::new((6 * n) as nat, |i: int| (base + 4 * (i / 6) + quad_pattern(i % 6)) as u16)
}

/// Append the vertices and indices of `qs`, the first vertex being number
/// `index` of its buffer.
pub fn emit_quads(qs: &Vec<Quad>, block: [i32; 3], tints: [TintSource; 4], index: usize) -> (r: (
    Vec<MeshVertex>,
    Vec<u16>,
))
    requires
        qs@.len() == 0 || index + 4 * qs@.len() <= 65536,
    ensures
        r.0@ == quads_vertices(qs@, block, tints),
        r.1@ == quad_indices(index as int, qs@.len() as int),
{
    let mut vertices: Vec<MeshVertex> = Vec::new();
    let mut indices: Vec<u16> = Vec::new();
    let n = qs.len();
    let mut q: usize = 0;
    while q < n
        invariant
            n == qs@.len(),
            q <= n,
            n == 0 || index + 4 * n <= 65536,
            vertices@ == quads_vertices(qs@.take(q as int), block, tints),
            indices@ == quad_indices(index as int, q as int),
        decreases n - q,
    {
        let quad = qs[q];
        let mut k: usize = 0;
        let ghost before = vertices@;
        while k < 4
            invariant
                k <= 4,
                q < n,
                quad == qs@[q as int],
                vertices@.len() == 4 * q + k,
                vertices@.subrange(0, 4 * q as int) == before,
                before == quads_vertices(qs@.take(q as int), block, tints),
                forall|j: int| 0 <= j < k ==> vertices@[4 * q + j] == corner_vertex(block, quad[j], tints),
            decreases 4 - k,
        {
            let c = quad[k];
            let tint = if c.tint < 4 {
                tints[c.tint as usize]
            } else {
                TintSource::Untinted
            };
            vertices.push(MeshVertex { block, offset: c.offset, tex: c.tex, filter_tex: c.filter_tex, tint });
            proof {
                assert(vertices@.subrange(0, 4 * q as int) =~= before);
            }
            k = k + 1;
        }
        let first = (index + 4 * q) as u16;
        indices.push(first);
        indices.push(first + 1);
        indices.push(first + 2);
        indices.push(first + 2);
        indices.push(first + 3);
        indices.push(first);
        proof {
            assert(vertices@ =~= quads_vertices(qs@.take(q + 1), block, tints)) by {
                assert forall|i: int| 0 <= i < 4 * (q + 1) implies vertices@[i] == quads_vertices(qs@.take(q + 1), block, tints)[i] by {
                    if i < 4 * q {
                        assert(vertices@[i] == before[i]);
                        assert(qs@.take(q + 1)[i / 4] == qs@.take(q as int)[i / 4]);
                    } else {
                        assert(i / 4 == q);
                        assert(qs@.take(q + 1)[i / 4] == quad);
                    }
                }
            }
            assert(indices@ =~= quad_indices(index as int, q + 1)) by {
                assert forall|i: int| 0 <= i < 6 * (q + 1) implies indices@[i] == quad_indices(index as int, q + 1)[i] by {
                    if i >= 6 * q {
                        assert(i / 6 == q);
                    }
                }
            }
        }
        q = q + 1;
    }
    proof {
        assert(qs@.take(n as int) =~= qs@);
    }
    (vertices, indices)
}

/// The faces of a block, in the order they are emitted: +x, -x, +y, -y, +z, -z.
pub open spec fn face_offsets(f: int) -> [[u8; 3]; 4] {
    if f == 0 {
        [[16, 0, 0], [16, 16, 0], [16, 16, 16], [16, 0, 16]]
    } else if f == 1 {
        [[0, 0, 16], [0, 16, 16], [0, 16, 0], [0, 0, 0]]
    } else if f == 2 {
        [[16, 16, 0], [0, 16, 0], [0, 16, 16], [16, 16, 16]]
    } else if f == 3 {
        [[16, 0, 16], [0, 0, 16], [0, 0, 0], [16, 0, 0]]
    } else if f == 4 {
        [[0, 0, 16], [16, 0, 16], [16, 16, 16], [0, 16, 16]]
    } else {
        [[0, 16, 0], [16, 16, 0], [16, 0, 0], [0, 0, 0]]
    }
}

pub fn face_offsets_exec(f: usize) -> (r: [[u8; 3]; 4])
    requires
        f < 6,
    ensures
        r == face_offsets(f as int),
{
    if f == 0 {
        [[16, 0, 0], [16, 16, 0], [16, 16, 16], [16, 0, 16]]
    } else if f == 1 {
        [[0, 0, 16], [0, 16, 16], [0, 16, 0], [0, 0, 0]]
    } else if f == 2 {
        [[16, 16, 0], [0, 16, 0], [0, 16, 16], [16, 16, 16]]
    } else if f == 3 {
        [[16, 0, 16], [0, 0, 16], [0, 0, 0], [16, 0, 0]]
    } else if f == 4 {
        [[0, 0, 16], [16, 0, 16], [16, 16, 16], [0, 16, 16]]
    } else {
        [[0, 16, 0], [16, 16, 0], [16, 0, 0], [0, 0, 0]]
    }
}

/// A quad from its corner offsets and atlas corners; a tinted corner takes the
/// tint of the column corner it sits on (x + 2 y, on the block's grid).
pub open spec fn make_quad(
    offs: [[u8; 3]; 4],
    tex: QuadTexCoords,
    filter_tex: QuadTexCoords,
    tinted: bool,
) -> Quad {
    let corner = |k: int|
        Corner {
            offset: offs[k],
            tex: tex[k],
            filter_tex: filter_tex[k],
            tint: if tinted {
                (offs[k][0] / 16 + 2 * (offs[k][1] / 16)) as u8
            } else {
                4u8
            },
        };
    [corner(0), corner(1), corner(2), corner(3)]
}

pub fn make_quad_exec(
    offs: [[u8; 3]; 4],
    tex: QuadTexCoords,
    filter_tex: QuadTexCoords,
    tinted: bool,
) -> (r: Quad)
    ensures
        r == make_quad(offs, tex, filter_tex, tinted),
{
    let c0 = Corner {
        offset: offs[0],
        tex: tex[0],
        filter_tex: filter_tex[0],
        tint: if tinted { offs[0][0] / 16 + 2 * (offs[0][1] / 16) } else { 4 },
    };
    let c1 = Corner {
        offset: offs[1],
        tex: tex[1],
        filter_tex: filter_tex[1],
        tint: if tinted { offs[1][0] / 16 + 2 * (offs[1][1] / 16) } else { 4 },
    };
    let c2 = Corner {
        offset: offs[2],
        tex: tex[2],
        filter_tex: filter_tex[2],
        tint: if tinted { offs[2][0] / 16 + 2 * (offs[2][1] / 16) } else { 4 },
    };
    let c3 = Corner {
        offset: offs[3],
        tex: tex[3],
        filter_tex: filter_tex[3],
        tint: if tinted { offs[3][0] / 16 + 2 * (offs[3][1] / 16) } else { 4 },
    };
    [c0, c1, c2, c3]
}

/// Blocks drawn as six faces.
#[derive(Clone, Copy, PartialEq, Eq, Structural, Debug)]
pub enum BoxKind {
    Solid(Solid),
    Translucent(Translucent),
    Filtered(FilteredSolid),
}

pub open spec fn no_tex() -> QuadTexCoords {
    [[0, 0], [0, 0], [0, 0], [0, 0]]
}

/// The quad of face `f` of a block of kind `kind`.
pub open spec fn spec_face_quad(kind: BoxKind, f: int) -> Quad {
    match kind {
        BoxKind::Solid(s) => {
            let (side, top, bottom) = spec_solid_tiles(s);
            let tex = if f == 0 {
                spec_quad_px(side)
            } else if f == 1 {
                spec_quad_nx(side)
            } else if f == 2 {
                spec_quad_py(side)
            } else if f == 3 {
                spec_quad_ny(side)
            } else if f == 4 {
                spec_quad_px(top)
            } else {
                spec_quad_px(bottom)
            };
            make_quad(face_offsets(f), tex, no_tex(), false)
        },
        BoxKind::Translucent(t) => make_quad(
            face_offsets(f),
            spec_quad_px(spec_translucent_tile(t)),
            no_tex(),
            false,
        ),
        BoxKind::Filtered(fs) => {
            let (base, overlay) = spec_filtered_tiles(fs);
            let (tex, ftex) = if f == 0 {
                (spec_quad_px(base.0), spec_quad_px(overlay.0))
            } else if f == 1 {
                (spec_quad_nx(base.0), spec_quad_nx(overlay.0))
            } else if f == 2 {
                (spec_quad_py(base.0), spec_quad_py(overlay.0))
            } else if f == 3 {
                (spec_quad_ny(base.0), spec_quad_ny(overlay.0))
            } else if f == 4 {
                (spec_quad_px(base.1), spec_quad_px(overlay.1))
            } else {
                (spec_quad_px(base.2), spec_quad_px(overlay.2))
            };
            make_quad(face_offsets(f), tex, ftex, true)
        },
    }
}

pub fn face_quad(kind: BoxKind, f: usize) -> (r: Quad)
    requires
        f < 6,
    ensures
        r == spec_face_quad(kind, f as int),
{
    let offs = face_offsets_exec(f);
    match kind {
        BoxKind::Solid(s) => {
            let tex = if f == 0 {
                s.tex_coord_px()
            } else if f == 1 {
                s.tex_coord_nx()
            } else if f == 2 {
                s.tex_coord_py()
            } else if f == 3 {
                s.tex_coord_ny()
            } else if f == 4 {
                s.tex_coord_pz()
            } else {
                s.tex_coord_nz()
            };
            make_quad_exec(offs, tex, [[0, 0], [0, 0], [0, 0], [0, 0]], false)
        },
        BoxKind::Translucent(t) => make_quad_exec(
            offs,
            t.tex_coord(),
            [[0, 0], [0, 0], [0, 0], [0, 0]],
            false,
        ),
        BoxKind::Filtered(fs) => {
            let (tex, ftex) = if f == 0 {
                fs.extras_px()
            } else if f == 1 {
                fs.extras_nx()
            } else if f == 2 {
                fs.extras_py()
            } else if f == 3 {
                fs.extras_ny()
            } else if f == 4 {
                fs.extras_pz()
            } else {
                fs.extras_nz()
            };
            make_quad_exec(offs, tex, ftex, true)
        },
    }
}

/// The quads of the first `n` faces that are not hidden by their neighbour.
pub open spec fn visible_quads(kind: BoxKind, hidden: [bool; 6], n: int) -> Seq<Quad>
    decreases n,
{
    if n <= 0 {
        Seq::empty()
    } else {
        let prev = visible_quads(kind, hidden, n - 1);
        if hidden[n - 1] {
            prev
        } else {
            prev.push(spec_face_quad(kind, n - 1))
        }
    }
}

/// The quads of the faces of a block that are not hidden by their neighbour.
pub fn box_quads(kind: BoxKind, hidden: [bool; 6]) -> (r: Vec<Quad>)
    ensures
        r@ == visible_quads(kind, hidden, 6),
        r@.len() <= 6,
{
    let mut r: Vec<Quad> = Vec::new();
    let mut f: usize = 0;
    while f < 6
        invariant
            f <= 6,
            r@ == visible_quads(kind, hidden, f as int),
            r@.len() <= f,
        decreases 6 - f,
    {
        if !hidden[f] {
            r.push(face_quad(kind, f));
        }
        f = f + 1;
    }
    r
}

/// The two crossed quads of a plant.
pub open spec fn spec_plant_quads(tex: QuadTexCoords) -> Seq<Quad> {
    seq![
        make_quad([[16, 0, 0], [0, 16, 0], [0, 16, 16], [16, 0, 16]], tex, no_tex(), false),
        make_quad([[0, 0, 0], [16, 16, 0], [16, 16, 16], [0, 0, 16]], tex, no_tex(), false),
    ]
}

/// The four quads of a crop, a quarter block in from each side.
pub open spec fn spec_crop_quads(tex: QuadTexCoords) -> Seq<Quad> {
    seq![
        make_quad([[12, 0, 0], [12, 16, 0], [12, 16, 16], [12, 0, 16]], tex, no_tex(), false),
        make_quad([[4, 16, 0], [4, 0, 0], [4, 0, 16], [4, 16, 16]], tex, no_tex(), false),
        make_quad([[16, 12, 0], [0, 12, 0], [0, 12, 16], [16, 12, 16]], tex, no_tex(), false),
        make_quad([[0, 4, 0], [16, 4, 0], [16, 4, 16], [0, 4, 16]], tex, no_tex(), false),
    ]
}

/// The six quads of a cactus: four sides a sixteenth in, then top and bottom.
pub open spec fn spec_cactus_quads() -> Seq<Quad> {
    seq![
        make_quad([[15, 0, 0], [15, 16, 0], [15, 16, 16], [15, 0, 16]], [[7, 5], [6, 5], [6, 4], [7, 4]], no_tex(), false),
        make_quad([[1, 0, 16], [1, 16, 16], [1, 16, 0], [1, 0, 0]], [[7, 4], [6, 4], [6, 5], [7, 5]], no_tex(), false),
        make_quad([[16, 15, 0], [0, 15, 0], [0, 15, 16], [16, 15, 16]], [[6, 5], [7, 5], [7, 4], [6, 4]], no_tex(), false),
        make_quad([[16, 1, 16], [0, 1, 16], [0, 1, 0], [16, 1, 0]], [[6, 4], [7, 4], [7, 5], [6, 5]], no_tex(), false),
        make_quad([[0, 0, 16], [16, 0, 16], [16, 16, 16], [0, 16, 16]], [[6, 5], [5, 5], [5, 4], [6, 4]], no_tex(), false),
        make_quad([[0, 16, 0], [16, 16, 0], [16, 0, 0], [0, 0, 0]], [[8, 5], [7, 5], [7, 4], [8, 4]], no_tex(), false),
    ]
}

pub fn plant_quads(tex: QuadTexCoords) -> (r: Vec<Quad>)
    ensures
        r@ == spec_plant_quads(tex),
{
    let z = [[0, 0], [0, 0], [0, 0], [0, 0]];
    let mut r: Vec<Quad> = Vec::new();
    r.push(make_quad_exec([[16, 0, 0], [0, 16, 0], [0, 16, 16], [16, 0, 16]], tex, z, false));
    r.push(make_quad_exec([[0, 0, 0], [16, 16, 0], [16, 16, 16], [0, 0, 16]], tex, z, false));
    proof {
        assert(r@ =~= spec_plant_quads(tex));
    }
    r
}

pub fn crop_quads(tex: QuadTexCoords) -> (r: Vec<Quad>)
    ensures
        r@ == spec_crop_quads(tex),
{
    let z = [[0, 0], [0, 0], [0, 0], [0, 0]];
    let mut r: Vec<Quad> = Vec::new();
    r.push(make_quad_exec([[12, 0, 0], [12, 16, 0], [12, 16, 16], [12, 0, 16]], tex, z, false));
    r.push(make_quad_exec([[4, 16, 0], [4, 0, 0], [4, 0, 16], [4, 16, 16]], tex, z, false));
    r.push(make_quad_exec([[16, 12, 0], [0, 12, 0], [0, 12, 16], [16, 12, 16]], tex, z, false));
    r.push(make_quad_exec([[0, 4, 0], [16, 4, 0], [16, 4, 16], [0, 4, 16]], tex, z, false));
    proof {
        assert(r@ =~= spec_crop_quads(tex));
    }
    r
}

pub fn cactus_quads() -> (r: Vec<Quad>)
    ensures
        r@ == spec_cactus_quads(),
{
    let z = [[0, 0], [0, 0], [0, 0], [0, 0]];
    let mut r: Vec<Quad> = Vec::new();
    r.push(make_quad_exec([[15, 0, 0], [15, 16, 0], [15, 16, 16], [15, 0, 16]], [[7, 5], [6, 5], [6, 4], [7, 4]], z, false));
    r.push(make_quad_exec([[1, 0, 16], [1, 16, 16], [1, 16, 0], [1, 0, 0]], [[7, 4], [6, 4], [6, 5], [7, 5]], z, false));
    r.push(make_quad_exec([[16, 15, 0], [0, 15, 0], [0, 15, 16], [16, 15, 16]], [[6, 5], [7, 5], [7, 4], [6, 4]], z, false));
    r.push(make_quad_exec([[16, 1, 16], [0, 1, 16], [0, 1, 0], [16, 1, 0]], [[6, 4], [7, 4], [7, 5], [6, 5]], z, false));
    r.push(make_quad_exec([[0, 0, 16], [16, 0, 16], [16, 16, 16], [0, 16, 16]], [[6, 5], [5, 5], [5, 4], [6, 4]], z, false));
    r.push(make_quad_exec([[0, 16, 0], [16, 16, 0], [16, 0, 0], [0, 0, 0]], [[8, 5], [7, 5], [7, 4], [8, 4]], z, false));
    proof {
        assert(r@ =~= spec_cactus_quads());
    }
    r
}

pub open spec fn untinted() -> [TintSource; 4] {
    [TintSource::Untinted, TintSource::Untinted, TintSource::Untinted, TintSource::Untinted]
}

/// The six neighbour flags of a block, in face order.
pub open spec fn flags(px: bool, nx: bool, py: bool, ny: bool, pz: bool, nz: bool) -> [bool; 6] {
    [px, nx, py, ny, pz, nz]
}

/// The faces of a solid block not covered by a solid neighbour.
pub fn create_vertices_for_solid(
    solid: Solid,
    x: i32,
    y: i32,
    z: i32,
    px_is_solid: bool,
    nx_is_solid: bool,
    py_is_solid: bool,
    ny_is_solid: bool,
    pz_is_solid: bool,
    nz_is_solid: bool,
    index: usize,
) -> (r: (Vec<MeshVertex>, Vec<u16>))
    requires
        ({
            let k = visible_quads(
                BoxKind::Solid(solid),
                flags(px_is_solid, nx_is_solid, py_is_solid, ny_is_solid, pz_is_solid, nz_is_solid),
                6,
            ).len();
            k == 0 || index + 4 * k <= 65536
        }),
    ensures
        ({
            let qs = visible_quads(
                BoxKind::Solid(solid),
                flags(px_is_solid, nx_is_solid, py_is_solid, ny_is_solid, pz_is_solid, nz_is_solid),
                6,
            );
            &&& r.0@ == quads_vertices(qs, [x, y, z], untinted())
            &&& r.1@ == quad_indices(index as int, qs.len() as int)
        }),
{
    let hidden = [px_is_solid, nx_is_solid, py_is_solid, ny_is_solid, pz_is_solid, nz_is_solid];
    let qs = box_quads(BoxKind::Solid(solid), hidden);
    emit_quads(&qs, [x, y, z], [TintSource::Untinted, TintSource::Untinted, TintSource::Untinted, TintSource::Untinted], index)
}

/// The faces of a translucent block not covered by a translucent or solid
/// neighbour.
pub fn create_vertices_for_translucent(
    translucent: Translucent,
    x: i32,
    y: i32,
    z: i32,
    px_is_translucent_or_solid: bool,
    nx_is_translucent_or_solid: bool,
    py_is_translucent_or_solid: bool,
    ny_is_translucent_or_solid: bool,
    pz_is_translucent_or_solid: bool,
    nz_is_translucent_or_solid: bool,
    index: usize,
) -> (r: (Vec<MeshVertex>, Vec<u16>))
    requires
        ({
            let k = visible_quads(
                BoxKind::Translucent(translucent),
                flags(
                    px_is_translucent_or_solid,
                    nx_is_translucent_or_solid,
                    py_is_translucent_or_solid,
                    ny_is_translucent_or_solid,
                    pz_is_translucent_or_solid,
                    nz_is_translucent_or_solid,
                ),
                6,
            ).len();
            k == 0 || index + 4 * k <= 65536
        }),
    ensures
        ({
            let qs = visible_quads(
                BoxKind::Translucent(translucent),
                flags(
                    px_is_translucent_or_solid,
                    nx_is_translucent_or_solid,
                    py_is_translucent_or_solid,
                    ny_is_translucent_or_solid,
                    pz_is_translucent_or_solid,
                    nz_is_translucent_or_solid,
                ),
                6,
            );
            &&& r.0@ == quads_vertices(qs, [x, y, z], untinted())
            &&& r.1@ == quad_indices(index as int, qs.len() as int)
        }),
{
    let hidden = [
        px_is_translucent_or_solid,
        nx_is_translucent_or_solid,
        py_is_translucent_or_solid,
        ny_is_translucent_or_solid,
        pz_is_translucent_or_solid,
        nz_is_translucent_or_solid,
    ];
    let qs = box_quads(BoxKind::Translucent(translucent), hidden);
    emit_quads(&qs, [x, y, z], [TintSource::Untinted, TintSource::Untinted, TintSource::Untinted, TintSource::Untinted], index)
}

/// The faces of a filtered block not covered by a solid neighbour, each
/// corner tinted by the biome of the column it sits on.
pub fn create_vertices_for_filtered_solid(
    filtered_solid: FilteredSolid,
    x: i32,
    y: i32,
    z: i32,
    px_is_solid: bool,
    nx_is_solid: bool,
    py_is_solid: bool,
    ny_is_solid: bool,
    pz_is_solid: bool,
    nz_is_solid: bool,
    biome_color: [TintSource; 4],
    index: usize,
) -> (r: (Vec<MeshVertex>, Vec<u16>))
    requires
        ({
            let k = visible_quads(
                BoxKind::Filtered(filtered_solid),
                flags(px_is_solid, nx_is_solid, py_is_solid, ny_is_solid, pz_is_solid, nz_is_solid),
                6,
            ).len();
            k == 0 || index + 4 * k <= 65536
        }),
    ensures
        ({
            let qs = visible_quads(
                BoxKind::Filtered(filtered_solid),
                flags(px_is_solid, nx_is_solid, py_is_solid, ny_is_solid, pz_is_solid, nz_is_solid),
                6,
            );
            &&& r.0@ == quads_vertices(qs, [x, y, z], biome_color)
            &&& r.1@ == quad_indices(index as int, qs.len() as int)
        }),
{
    let hidden = [px_is_solid, nx_is_solid, py_is_solid, ny_is_solid, pz_is_solid, nz_is_solid];
    let qs = box_quads(BoxKind::Filtered(filtered_solid), hidden);
    emit_quads(&qs, [x, y, z], biome_color, index)
}

/// The two crossed quads of a plant.
pub fn create_vertices_for_plantlike(plantlike: Plantlike, x: i32, y: i32, z: i32, index: usize) -> (r: (
    Vec<MeshVertex>,
    Vec<u16>,
))
    requires
        index + 8 <= 65536,
    ensures
        r.0@ == quads_vertices(
            spec_plant_quads(spec_quad_px(spec_plantlike_tile(plantlike))),
            [x, y, z],
            untinted(),
        ),
        r.1@ == quad_indices(index as int, 2),
{
    let qs = plant_quads(plantlike.tex_coord());
    emit_quads(&qs, [x, y, z], [TintSource::Untinted, TintSource::Untinted, TintSource::Untinted, TintSource::Untinted], index)
}

/// The four quads of a crop.
pub fn create_vertices_for_harvestable(
    harvestable: Harvestable,
    x: i32,
    y: i32,
    z: i32,
    index: usize,
) -> (r: (Vec<MeshVertex>, Vec<u16>))
    requires
        index + 16 <= 65536,
    ensures
        r.0@ == quads_vertices(
            spec_crop_quads(spec_quad_px(spec_harvestable_tile(harvestable))),
            [x, y, z],
            untinted(),
        ),
        r.1@ == quad_indices(index as int, 4),
{
    let qs = crop_quads(harvestable.tex_coord());
    emit_quads(&qs, [x, y, z], [TintSource::Untinted, TintSource::Untinted, TintSource::Untinted, TintSource::Untinted], index)
}

/// The quads of a custom block: nothing opaque, and for a cactus six
/// translucent quads.
pub fn create_vertices_for_custom(
    custom: Custom,
    x: i32,
    y: i32,
    z: i32,
    opaque_index: usize,
    translucent_index: usize,
) -> (r: ((Vec<MeshVertex>, Vec<u16>), (Vec<MeshVertex>, Vec<u16>)))
    requires
        translucent_index + 24 <= 65536,
    ensures
        r.0.0@.len() == 0 && r.0.1@.len() == 0,
        r.1.0@ == quads_vertices(spec_cactus_quads(), [x, y, z], untinted()),
        r.1.1@ == quad_indices(translucent_index as int, 6),
{
    let opaque = (Vec::new(), Vec::new());
    let translucent = match custom {
        Custom::Cactus => {
            let qs = cactus_quads();
            emit_quads(&qs, [x, y, z], [TintSource::Untinted, TintSource::Untinted, TintSource::Untinted, TintSource::Untinted], translucent_index)
        },
    };
    (opaque, translucent)
}

/// A vertex buffer and the indices drawing it.
pub type MeshBuffer = (Vec<MeshVertex>, Vec<u16>);

/// The mesh of a chunk: opaque and translucent geometry, each split into
/// buffers that 16-bit indices can address.
pub struct Mesh {
    pub opaque_buffers: Vec<MeshBuffer>,
    pub translucent_buffers: Vec<MeshBuffer>,
}

/// A buffer stops taking blocks once it holds more than this many vertices.
pub const BUFFER_SPLIT: usize = 60000;

/// The vertices of a list of buffers, one after another.
pub open spec fn vertex_concat(bufs: Seq<MeshBuffer>) -> Seq<MeshVertex>
    decreases bufs.len(),
{
    if bufs.len() == 0 {
        Seq::empty()
    } else {
        vertex_concat(bufs.drop_last()) + bufs.last().0@
    }
}

/// A buffer of whole quads whose indices draw exactly its quads, in order.
pub open spec fn buffer_ok(v: Seq<MeshVertex>, i: Seq<u16>) -> bool {
    &&& v.len() % 4 == 0
    &&& v.len() <= BUFFER_SPLIT + 24
    &&& i == quad_indices(0, v.len() as int / 4)
}

/// A finished buffer: well formed and full.
pub open spec fn closed_buffer_ok(b: MeshBuffer) -> bool {
    &&& buffer_ok(b.0@, b.1@)
    &&& b.0@.len() > BUFFER_SPLIT
}

/// The buffers built so far, plus the open one, hold `stream` in order.
pub open spec fn stream_ok(
    bufs: Seq<MeshBuffer>,
    cur_v: Seq<MeshVertex>,
    cur_i: Seq<u16>,
    stream: Seq<MeshVertex>,
) -> bool {
    &&& vertex_concat(bufs) + cur_v == stream
    &&& forall|b: int| 0 <= b < bufs.len() ==> closed_buffer_ok(#[trigger] bufs[b])
    &&& buffer_ok(cur_v, cur_i)
}

/// Where each buffer ends, as an offset into the stream of its kind.
pub open spec fn buffer_ends(bufs: Seq<MeshBuffer>) -> Seq<int> {
    Seq::new(bufs.len(), |b: int| vertex_concat(bufs.take(b + 1)).len() as int)
}

/// Closing one more buffer adds its end.
pub proof fn lemma_buffer_ends_push(bufs: Seq<MeshBuffer>, x: MeshBuffer)
    ensures
        vertex_concat(bufs.push(x)) == vertex_concat(bufs) + x.0@,
        buffer_ends(bufs.push(x)) == buffer_ends(bufs).push((vertex_concat(bufs).len() + x.0@.len()) as int),
{
    assert(bufs.push(x).drop_last() =~= bufs);
    let l = buffer_ends(bufs.push(x));
    let r = buffer_ends(bufs).push((vertex_concat(bufs).len() + x.0@.len()) as int);
    assert forall|b: int| 0 <= b < l.len() implies l[b] == r[b] by {
        if b < bufs.len() {
            assert(bufs.push(x).take(b + 1) =~= bufs.take(b + 1));
        } else {
            assert(bufs.push(x).take(b + 1) =~= bufs.push(x));
        }
    }
    assert(l =~= r);
}

/// The indices of `a` quads followed by those of `b` more are the indices of
/// `a + b` quads.
pub proof fn lemma_quad_indices_append(a: int, b: int)
    requires
        0 <= a,
        0 <= b,
    ensures
        quad_indices(0, a) + quad_indices(4 * a, b) == quad_indices(0, a + b),
{
    let l = quad_indices(0, a) + quad_indices(4 * a, b);
    let r = quad_indices(0, a + b);
    assert forall|j: int| 0 <= j < 6 * (a + b) implies l[j] == r[j] by {
        if j >= 6 * a {
            let k = j - 6 * a;
            assert(j / 6 == a + k / 6);
            assert(j % 6 == k % 6);
        }
    }
    assert(l =~= r);
}

/// Every index of a well-formed buffer names one of its own vertices, and
/// the indices come in triangles of three.
pub proof fn lemma_buffer_indices_in_range(v: Seq<MeshVertex>, i: Seq<u16>)
    requires
        buffer_ok(v, i),
    ensures
        i.len() % 3 == 0,
        forall|j: int| 0 <= j < i.len() ==> (#[trigger] i[j] as int) < v.len(),
{
    let n = v.len() as int / 4;
    assert(i.len() == 6 * n);
    assert forall|j: int| 0 <= j < i.len() implies (#[trigger] i[j] as int) < v.len() by {
        let q = j / 6;
        assert(0 <= q < n);
        assert(0 <= quad_pattern(j % 6) <= 3);
        assert(4 * q + quad_pattern(j % 6) < 4 * n);
        assert(4 * n <= BUFFER_SPLIT + 24);
    }
}

/// Close the open buffer if it is full.
fn split_if_full(
    bufs: &mut Vec<MeshBuffer>,
    cur_v: &mut Vec<MeshVertex>,
    cur_i: &mut Vec<u16>,
    Ghost(stream): Ghost<Seq<MeshVertex>>,
)
    requires
        stream_ok(old(bufs)@, old(cur_v)@, old(cur_i)@, stream),
    ensures
        stream_ok(final(bufs)@, final(cur_v)@, final(cur_i)@, stream),
        final(cur_v)@.len() <= BUFFER_SPLIT,
        old(cur_v)@.len() > BUFFER_SPLIT ==> buffer_ends(final(bufs)@) == buffer_ends(old(bufs)@).push(
            stream.len() as int,
        ) && vertex_concat(final(bufs)@).len() == stream.len(),
        old(cur_v)@.len() <= BUFFER_SPLIT ==> final(bufs)@ == old(bufs)@,
{
    proof {
        lemma_buffer_ends_push(bufs@, (*cur_v, *cur_i));
    }
    if cur_v.len() > BUFFER_SPLIT {
        let mut v: Vec<MeshVertex> = Vec::new();
        let mut i: Vec<u16> = Vec::new();
        std::mem::swap(&mut v, cur_v);
        std::mem::swap(&mut i, cur_i);
        let ghost before = bufs@;
        bufs.push((v, i));
        proof {
            assert(bufs@.drop_last() =~= before);
            assert forall|b: int| 0 <= b < bufs@.len() implies closed_buffer_ok(#[trigger] bufs@[b]) by {
                if b < before.len() {
                    assert(bufs@[b] == before[b]);
                }
            }
            assert(cur_i@ =~= quad_indices(0, 0));
        }
    }
}

/// Append one block's quads to the open buffer.
fn append_quads(
    cur_v: &mut Vec<MeshVertex>,
    cur_i: &mut Vec<u16>,
    tv: Vec<MeshVertex>,
    ti: Vec<u16>,
    Ghost(bufs): Ghost<Seq<MeshBuffer>>,
    Ghost(stream): Ghost<Seq<MeshVertex>>,
)
    requires
        stream_ok(bufs, old(cur_v)@, old(cur_i)@, stream),
        old(cur_v)@.len() <= BUFFER_SPLIT,
        tv@.len() % 4 == 0,
        tv@.len() <= 24,
        ti@ == quad_indices(old(cur_v)@.len() as int, tv@.len() as int / 4),
    ensures
        stream_ok(bufs, final(cur_v)@, final(cur_i)@, stream + tv@),
{
    let ghost v0 = cur_v@;
    let ghost i0 = cur_i@;
    let ghost tv0 = tv@;
    let ghost ti0 = ti@;
    let mut tv = tv;
    let mut ti = ti;
    cur_v.append(&mut tv);
    cur_i.append(&mut ti);
    proof {
        assert(cur_v@ == v0 + tv0);
        assert(cur_i@ == i0 + ti0);
        let a = v0.len() as int / 4;
        let b = tv0.len() as int / 4;
        lemma_quad_indices_append(a, b);
        assert(4 * a == v0.len());
        assert(cur_v@.len() as int / 4 == a + b);
        assert(cur_i@ == quad_indices(0, a + b));
        assert(vertex_concat(bufs) + cur_v@ =~= (vertex_concat(bufs) + v0) + tv0);
    }
}

/// Flags of the six neighbours of a block for which `hides` holds; a missing
/// neighbour (above or below the world) hides nothing.
pub open spec fn hidden_by(nb: Seq<Option<Cube>>, solid_only: bool) -> [bool; 6] {
    let h = |k: int|
        match nb[k] {
            Some(c) => if solid_only {
                crate::map_types::spec_is_solid(c)
            } else {
                crate::map_types::spec_is_translucent_or_solid(c)
            },
            None => false,
        };
    [h(0), h(1), h(2), h(3), h(4), h(5)]
}

/// Index of block (x, y, z) in a chunk.
pub open spec fn block_index(x: int, y: int, z: int) -> int {
    z * 256 + y * 16 + x
}

/// The neighbour of block `i` across face `f`, looking into the adjacent
/// chunks at the chunk's sides; nothing lies above the top or below the
/// bottom of the world.
pub open spec fn spec_neighbour(
    c: Seq<Cube>,
    px: Seq<Cube>,
    nx: Seq<Cube>,
    py: Seq<Cube>,
    ny: Seq<Cube>,
    i: int,
    f: int,
) -> Option<Cube> {
    let x = i % 16;
    let y = (i / 16) % 16;
    let z = i / 256;
    if f == 0 {
        Some(if x == 15 { px[block_index(0, y, z)] } else { c[i + 1] })
    } else if f == 1 {
        Some(if x == 0 { nx[block_index(15, y, z)] } else { c[i - 1] })
    } else if f == 2 {
        Some(if y == 15 { py[block_index(x, 0, z)] } else { c[i + 16] })
    } else if f == 3 {
        Some(if y == 0 { ny[block_index(x, 15, z)] } else { c[i - 16] })
    } else if f == 4 {
        if z == 255 { None } else { Some(c[i + 256]) }
    } else {
        if z == 0 { None } else { Some(c[i - 256]) }
    }
}

/// The cube at local position (x, y, z) of a chunk, where x or y may be one
/// step past an edge: such a position lies in the neighbouring chunk on that
/// side, at the same world position, which is its own local position
/// wrapped by the chunk size. Above or below the world there is no cube.
pub open spec fn cube_at(
    c: Seq<Cube>,
    px: Seq<Cube>,
    nx: Seq<Cube>,
    py: Seq<Cube>,
    ny: Seq<Cube>,
    x: int,
    y: int,
    z: int,
) -> Option<Cube> {
    if z < 0 || z >= 256 {
        None
    } else {
        let k = block_index((x + 16) % 16, (y + 16) % 16, z);
        if x >= 16 {
            Some(px[k])
        } else if x < 0 {
            Some(nx[k])
        } else if y >= 16 {
            Some(py[k])
        } else if y < 0 {
            Some(ny[k])
        } else {
            Some(c[k])
        }
    }
}

/// The step from a block to its neighbour across face `f`, in face order
/// +x, -x, +y, -y, +z, -z.
pub open spec fn face_step(f: int) -> (int, int, int) {
    if f == 0 {
        (1, 0, 0)
    } else if f == 1 {
        (-1, 0, 0)
    } else if f == 2 {
        (0, 1, 0)
    } else if f == 3 {
        (0, -1, 0)
    } else if f == 4 {
        (0, 0, 1)
    } else {
        (0, 0, -1)
    }
}

/// Block `i` of a chunk lies at (i % 16, (i / 16) % 16, i / 256).
proof fn lemma_block_position(i: int)
    requires
        0 <= i < 65536,
    ensures
        i == block_index(i % 16, (i / 16) % 16, i / 256),
        0 <= i % 16 < 16,
        0 <= (i / 16) % 16 < 16,
        0 <= i / 256 < 256,
{
    vstd::arithmetic::div_mod::lemma_fundamental_div_mod(i, 16);
    vstd::arithmetic::div_mod::lemma_fundamental_div_mod(i / 16, 16);
    vstd::arithmetic::div_mod::lemma_div_denominator(i, 16, 16);
    vstd::arithmetic::div_mod::lemma_mod_bound(i, 16);
    vstd::arithmetic::div_mod::lemma_mod_bound(i / 16, 16);
}

/// The neighbour of a block across each face is the block touching that
/// face: the one at its position plus the face's step, read from the
/// neighbouring chunk when the step crosses the chunk's edge.
pub proof fn lemma_neighbour_is_adjacent_block(
    c: Seq<Cube>,
    px: Seq<Cube>,
    nx: Seq<Cube>,
    py: Seq<Cube>,
    ny: Seq<Cube>,
    i: int,
    f: int,
)
    requires
        0 <= i < 65536,
        0 <= f < 6,
    ensures
        spec_neighbours(c, px, nx, py, ny, i)[f] == cube_at(
            c,
            px,
            nx,
            py,
            ny,
            i % 16 + face_step(f).0,
            (i / 16) % 16 + face_step(f).1,
            i / 256 + face_step(f).2,
        ),
{
    lemma_block_position(i);
}

/// The tints of the four column corners of block column (x, y): its own, +x,
/// +y and +x+y, taken from the neighbouring chunk past an edge. The corner
/// past both edges is left untinted.
pub open spec fn spec_tints(x: int, y: int) -> [TintSource; 4] {
    [
        TintSource::Center((y * 16 + x) as u16),
        if x == 15 {
            TintSource::PosX((y * 16) as u16)
        } else {
            TintSource::Center((y * 16 + x + 1) as u16)
        },
        if y == 15 {
            TintSource::PosY(x as u16)
        } else {
            TintSource::Center(((y + 1) * 16 + x) as u16)
        },
        if y == 15 {
            if x == 15 {
                TintSource::Untinted
            } else {
                TintSource::PosY((x + 1) as u16)
            }
        } else if x == 15 {
            TintSource::PosX(((y + 1) * 16) as u16)
        } else {
            TintSource::Center(((y + 1) * 16 + x + 1) as u16)
        },
    ]
}

/// The opaque and the translucent vertices of block `i` of the chunk at
/// (cx, cy), given its six neighbours.
pub open spec fn spec_block_vertices(
    cube: Cube,
    nb: Seq<Option<Cube>>,
    block: [i32; 3],
    x: int,
    y: int,
) -> (Seq<MeshVertex>, Seq<MeshVertex>) {
    let solid_hidden = hidden_by(nb, true);
    let trans_hidden = hidden_by(nb, false);
    match cube {
        Cube::Empty => (Seq::empty(), Seq::empty()),
        Cube::Solid(s) => (
            quads_vertices(visible_quads(BoxKind::Solid(s), solid_hidden, 6), block, untinted()),
            Seq::empty(),
        ),
        Cube::Translucent(t) => (
            Seq::empty(),
            quads_vertices(visible_quads(BoxKind::Translucent(t), trans_hidden, 6), block, untinted()),
        ),
        Cube::FilteredSolid(f) => (
            quads_vertices(visible_quads(BoxKind::Filtered(f), solid_hidden, 6), block, spec_tints(x, y)),
            Seq::empty(),
        ),
        Cube::Plantlike(p) => (
            Seq::empty(),
            quads_vertices(spec_plant_quads(spec_quad_px(spec_plantlike_tile(p))), block, untinted()),
        ),
        Cube::Harvestable(h) => (
            Seq::empty(),
            quads_vertices(spec_crop_quads(spec_quad_px(spec_harvestable_tile(h))), block, untinted()),
        ),
        Cube::Custom(_) => (Seq::empty(), quads_vertices(spec_cactus_quads(), block, untinted())),
    }
}

/// World coordinates of block `i` of the chunk at (cx, cy).
pub open spec fn spec_block(cx: int, cy: int, i: int) -> [i32; 3] {
    [(cx * 16 + i % 16) as i32, (cy * 16 + (i / 16) % 16) as i32, (i / 256) as i32]
}

/// The six neighbours of block `i`, in face order.
pub open spec fn spec_neighbours(
    c: Seq<Cube>,
    px: Seq<Cube>,
    nx: Seq<Cube>,
    py: Seq<Cube>,
    ny: Seq<Cube>,
    i: int,
) -> Seq<Option<Cube>> {
    Seq::new(6, |f: int| spec_neighbour(c, px, nx, py, ny, i, f))
}

/// The vertices of the first `n` blocks of the chunk, in block order: opaque
/// ones and translucent ones.
pub open spec fn spec_streams(
    c: Seq<Cube>,
    px: Seq<Cube>,
    nx: Seq<Cube>,
    py: Seq<Cube>,
    ny: Seq<Cube>,
    cx: int,
    cy: int,
    n: int,
) -> (Seq<MeshVertex>, Seq<MeshVertex>)
    decreases n,
{
    if n <= 0 {
        (Seq::empty(), Seq::empty())
    } else {
        let (o, t) = spec_streams(c, px, nx, py, ny, cx, cy, n - 1);
        let i = n - 1;
        let (bo, bt) = spec_block_vertices(
            c[i],
            spec_neighbours(c, px, nx, py, ny, i),
            spec_block(cx, cy, i),
            i % 16,
            (i / 16) % 16,
        );
        (o + bo, t + bt)
    }
}

/// Whether a block of this kind writes to the opaque buffers (`opaque`) or
/// to the translucent ones; only such a block can close a full buffer.
pub open spec fn writes_to(c: Cube, opaque: bool) -> bool {
    if opaque {
        c is Solid || c is FilteredSolid || c is Custom
    } else {
        c is Translucent || c is Plantlike || c is Harvestable || c is Custom
    }
}

/// The stream of one kind of geometry.
pub open spec fn kind_stream(streams: (Seq<MeshVertex>, Seq<MeshVertex>), opaque: bool) -> Seq<MeshVertex> {
    if opaque {
        streams.0
    } else {
        streams.1
    }
}

/// After the first `k` blocks: where the closed buffers of one kind end, and
/// where the open one starts. Before a block that writes to that kind, the
/// open buffer is closed when it holds more than `BUFFER_SPLIT` vertices.
pub open spec fn split_state(
    c: Seq<Cube>,
    px: Seq<Cube>,
    nx: Seq<Cube>,
    py: Seq<Cube>,
    ny: Seq<Cube>,
    cx: int,
    cy: int,
    opaque: bool,
    k: int,
) -> (Seq<int>, int)
    decreases k,
{
    if k <= 0 {
        (Seq::empty(), 0)
    } else {
        let (e, s) = split_state(c, px, nx, py, ny, cx, cy, opaque, k - 1);
        let len = kind_stream(spec_streams(c, px, nx, py, ny, cx, cy, k - 1), opaque).len() as int;
        if writes_to(c[k - 1], opaque) && len - s > BUFFER_SPLIT {
            (e.push(len), len)
        } else {
            (e, s)
        }
    }
}

/// Where the buffers of one kind end once the whole chunk is meshed: the
/// closed ones, then the open one unless it is empty.
pub open spec fn split_ends(
    c: Seq<Cube>,
    px: Seq<Cube>,
    nx: Seq<Cube>,
    py: Seq<Cube>,
    ny: Seq<Cube>,
    cx: int,
    cy: int,
    opaque: bool,
) -> Seq<int> {
    let (e, s) = split_state(c, px, nx, py, ny, cx, cy, opaque, CHUNK_VOLUME as int);
    let total = kind_stream(spec_streams(c, px, nx, py, ny, cx, cy, CHUNK_VOLUME as int), opaque).len() as int;
    if total > s {
        e.push(total)
    } else {
        e
    }
}

/// The buffers of one kind of geometry hold the stream in order, every one is
/// made of whole quads drawn by their indices, none is empty, every one fits
/// 16-bit indices, and all but the last are full.
pub open spec fn buffers_hold(bufs: Seq<MeshBuffer>, stream: Seq<MeshVertex>) -> bool {
    &&& vertex_concat(bufs) == stream
    &&& forall|b: int|
        0 <= b < bufs.len() ==> buffer_ok((#[trigger] bufs[b]).0@, bufs[b].1@) && bufs[b].0@.len() > 0
    &&& forall|b: int| 0 <= b < bufs.len() - 1 ==> (#[trigger] bufs[b]).0@.len() > BUFFER_SPLIT
}


fn neighbours(c: &Chunk, px: &Chunk, nx: &Chunk, py: &Chunk, ny: &Chunk, i: usize) -> (r: [Option<
    Cube,
>; 6])
    requires
        c.cubes@.len() == CHUNK_VOLUME,
        px.cubes@.len() == CHUNK_VOLUME,
        nx.cubes@.len() == CHUNK_VOLUME,
        py.cubes@.len() == CHUNK_VOLUME,
        ny.cubes@.len() == CHUNK_VOLUME,
        i < CHUNK_VOLUME,
    ensures
        r@ == spec_neighbours(c.cubes@, px.cubes@, nx.cubes@, py.cubes@, ny.cubes@, i as int),
{
    let x = i % 16;
    let y = (i / 16) % 16;
    let z = i / 256;
    let n_px = if x == 15 {
        px.cubes[z * 256 + y * 16]
    } else {
        c.cubes[i + 1]
    };
    let n_nx = if x == 0 {
        nx.cubes[z * 256 + y * 16 + 15]
    } else {
        c.cubes[i - 1]
    };
    let n_py = if y == 15 {
        py.cubes[z * 256 + x]
    } else {
        c.cubes[i + 16]
    };
    let n_ny = if y == 0 {
        ny.cubes[z * 256 + 15 * 16 + x]
    } else {
        c.cubes[i - 16]
    };
    let n_pz = if z == 255 {
        None
    } else {
        Some(c.cubes[i + 256])
    };
    let n_nz = if z == 0 {
        None
    } else {
        Some(c.cubes[i - 256])
    };
    let r = [Some(n_px), Some(n_nx), Some(n_py), Some(n_ny), n_pz, n_nz];
    proof {
        assert(r@ =~= spec_neighbours(c.cubes@, px.cubes@, nx.cubes@, py.cubes@, ny.cubes@, i as int));
    }
    r
}

fn hidden_flags(nb: &[Option<Cube>; 6], solid_only: bool) -> (r: [bool; 6])
    ensures
        r == hidden_by(nb@, solid_only),
{
    let mut r = [false; 6];
    let mut k: usize = 0;
    while k < 6
        invariant
            k <= 6,
            forall|j: int| 0 <= j < k ==> r[j] == hidden_by(nb@, solid_only)[j],
        decreases 6 - k,
    {
        let h = match nb[k] {
            Some(c) => if solid_only {
                c.is_solid()
            } else {
                c.is_translucent_or_solid()
            },
            None => false,
        };
        r[k] = h;
        k = k + 1;
    }
    proof {
        assert(r@ =~= hidden_by(nb@, solid_only)@);
    }
    r
}

fn tints_at(x: u16, y: u16) -> (r: [TintSource; 4])
    requires
        x < 16,
        y < 16,
    ensures
        r == spec_tints(x as int, y as int),
{
    let own = TintSource::Center(y * 16 + x);
    let px = if x == 15 {
        TintSource::PosX(y * 16)
    } else {
        TintSource::Center(y * 16 + x + 1)
    };
    let py = if y == 15 {
        TintSource::PosY(x)
    } else {
        TintSource::Center((y + 1) * 16 + x)
    };
    let pxy = if y == 15 {
        if x == 15 {
            TintSource::Untinted
        } else {
            TintSource::PosY(x + 1)
        }
    } else if x == 15 {
        TintSource::PosX((y + 1) * 16)
    } else {
        TintSource::Center((y + 1) * 16 + x + 1)
    };
    [own, px, py, pxy]
}

/// A chunk coordinate whose blocks have `i32` world coordinates.
pub open spec fn chunk_coord_ok(c: int) -> bool {
    i32::MIN <= c * 16 && c * 16 + 15 <= i32::MAX
}

/// The number of visible quads of a box is at most the number of faces looked
/// at.
pub proof fn lemma_visible_quads_len(kind: BoxKind, hidden: [bool; 6], n: int)
    requires
        0 <= n,
    ensures
        visible_quads(kind, hidden, n).len() <= n,
    decreases n,
{
    if n > 0 {
        lemma_visible_quads_len(kind, hidden, n - 1);
    }
}

/// Mesh block `i` of the chunk: close a full buffer of each kind the block
/// draws into, then append the block's visible quads.
#[verifier::spinoff_prover]
#[verifier::rlimit(50)]
fn mesh_block(
    chunk: &Chunk,
    chunk_x: i32,
    chunk_y: i32,
    chunk_px: &Chunk,
    chunk_nx: &Chunk,
    chunk_py: &Chunk,
    chunk_ny: &Chunk,
    i: usize,
    opaque_buffers: &mut Vec<MeshBuffer>,
    vertex_data_for_opaque: &mut Vec<MeshVertex>,
    index_data_for_opaque: &mut Vec<u16>,
    translucent_buffers: &mut Vec<MeshBuffer>,
    vertex_data_for_translucent: &mut Vec<MeshVertex>,
    index_data_for_translucent: &mut Vec<u16>,
    Ghost(so): Ghost<Seq<MeshVertex>>,
    Ghost(st): Ghost<Seq<MeshVertex>>,
)
    requires
        chunk.cubes@.len() == CHUNK_VOLUME,
        chunk_px.cubes@.len() == CHUNK_VOLUME,
        chunk_nx.cubes@.len() == CHUNK_VOLUME,
        chunk_py.cubes@.len() == CHUNK_VOLUME,
        chunk_ny.cubes@.len() == CHUNK_VOLUME,
        chunk_coord_ok(chunk_x as int),
        chunk_coord_ok(chunk_y as int),
        i < CHUNK_VOLUME,
        stream_ok(old(opaque_buffers)@, old(vertex_data_for_opaque)@, old(index_data_for_opaque)@, so),
        stream_ok(
            old(translucent_buffers)@,
            old(vertex_data_for_translucent)@,
            old(index_data_for_translucent)@,
            st,
        ),
    ensures
        ({
            let bv = spec_block_vertices(
                chunk.cubes@[i as int],
                spec_neighbours(
                    chunk.cubes@,
                    chunk_px.cubes@,
                    chunk_nx.cubes@,
                    chunk_py.cubes@,
                    chunk_ny.cubes@,
                    i as int,
                ),
                spec_block(chunk_x as int, chunk_y as int, i as int),
                i as int % 16,
                (i as int / 16) % 16,
            );
            &&& stream_ok(
                final(opaque_buffers)@,
                final(vertex_data_for_opaque)@,
                final(index_data_for_opaque)@,
                so + bv.0,
            )
            &&& stream_ok(
                final(translucent_buffers)@,
                final(vertex_data_for_translucent)@,
                final(index_data_for_translucent)@,
                st + bv.1,
            )
        }),
        ({
            let closes = writes_to(chunk.cubes@[i as int], true) && so.len() - vertex_concat(
                old(opaque_buffers)@,
            ).len() > BUFFER_SPLIT;
            &&& buffer_ends(final(opaque_buffers)@) == if closes {
                buffer_ends(old(opaque_buffers)@).push(so.len() as int)
            } else {
                buffer_ends(old(opaque_buffers)@)
            }
            &&& vertex_concat(final(opaque_buffers)@).len() == if closes {
                so.len()
            } else {
                vertex_concat(old(opaque_buffers)@).len()
            }
        }),
        ({
            let closes = writes_to(chunk.cubes@[i as int], false) && st.len() - vertex_concat(
                old(translucent_buffers)@,
            ).len() > BUFFER_SPLIT;
            &&& buffer_ends(final(translucent_buffers)@) == if closes {
                buffer_ends(old(translucent_buffers)@).push(st.len() as int)
            } else {
                buffer_ends(old(translucent_buffers)@)
            }
            &&& vertex_concat(final(translucent_buffers)@).len() == if closes {
                st.len()
            } else {
                vertex_concat(old(translucent_buffers)@).len()
            }
        }),
{
    let x = i % 16;
    let y = (i / 16) % 16;
    let z = i / 256;
    let bx = chunk_x * 16 + x as i32;
    let by = chunk_y * 16 + y as i32;
    let bz = z as i32;
    proof {
        assert([bx, by, bz] == spec_block(chunk_x as int, chunk_y as int, i as int));
    }
    let nb = neighbours(chunk, chunk_px, chunk_nx, chunk_py, chunk_ny, i);
    let ghost bo = spec_block_vertices(
        chunk.cubes@[i as int],
        nb@,
        spec_block(chunk_x as int, chunk_y as int, i as int),
        i as int % 16,
        (i as int / 16) % 16,
    ).0;
    let ghost bt = spec_block_vertices(
        chunk.cubes@[i as int],
        nb@,
        spec_block(chunk_x as int, chunk_y as int, i as int),
        i as int % 16,
        (i as int / 16) % 16,
    ).1;
    match chunk.cubes[i] {
        Cube::Empty => {
            proof {
                assert(so + bo =~= so);
                assert(st + bt =~= st);
            }
        },
        Cube::Solid(solid) => {
            split_if_full(opaque_buffers, vertex_data_for_opaque, index_data_for_opaque, Ghost(so));
            let h = hidden_flags(&nb, true);
            proof {
                assert(flags(h[0], h[1], h[2], h[3], h[4], h[5]) =~= h);
                lemma_visible_quads_len(BoxKind::Solid(solid), h, 6);
            }
            let (v, ix) = create_vertices_for_solid(
                solid,
                bx,
                by,
                bz,
                h[0],
                h[1],
                h[2],
                h[3],
                h[4],
                h[5],
                vertex_data_for_opaque.len(),
            );
            append_quads(
                vertex_data_for_opaque,
                index_data_for_opaque,
                v,
                ix,
                Ghost(opaque_buffers@),
                Ghost(so),
            );
            proof {
                assert(st + bt =~= st);
            }
        },
        Cube::Translucent(translucent) => {
            split_if_full(
                translucent_buffers,
                vertex_data_for_translucent,
                index_data_for_translucent,
                Ghost(st),
            );
            let h = hidden_flags(&nb, false);
            proof {
                assert(flags(h[0], h[1], h[2], h[3], h[4], h[5]) =~= h);
                lemma_visible_quads_len(BoxKind::Translucent(translucent), h, 6);
            }
            let (v, ix) = create_vertices_for_translucent(
                translucent,
                bx,
                by,
                bz,
                h[0],
                h[1],
                h[2],
                h[3],
                h[4],
                h[5],
                vertex_data_for_translucent.len(),
            );
            append_quads(
                vertex_data_for_translucent,
                index_data_for_translucent,
                v,
                ix,
                Ghost(translucent_buffers@),
                Ghost(st),
            );
            proof {
                assert(so + bo =~= so);
            }
        },
        Cube::FilteredSolid(filtered_solid) => {
            split_if_full(opaque_buffers, vertex_data_for_opaque, index_data_for_opaque, Ghost(so));
            let h = hidden_flags(&nb, true);
            let tints = tints_at(x as u16, y as u16);
            proof {
                assert(flags(h[0], h[1], h[2], h[3], h[4], h[5]) =~= h);
                lemma_visible_quads_len(BoxKind::Filtered(filtered_solid), h, 6);
            }
            let (v, ix) = create_vertices_for_filtered_solid(
                filtered_solid,
                bx,
                by,
                bz,
                h[0],
                h[1],
                h[2],
                h[3],
                h[4],
                h[5],
                tints,
                vertex_data_for_opaque.len(),
            );
            append_quads(
                vertex_data_for_opaque,
                index_data_for_opaque,
                v,
                ix,
                Ghost(opaque_buffers@),
                Ghost(so),
            );
            proof {
                assert(st + bt =~= st);
            }
        },
        Cube::Plantlike(plantlike) => {
            split_if_full(
                translucent_buffers,
                vertex_data_for_translucent,
                index_data_for_translucent,
                Ghost(st),
            );
            let (v, ix) = create_vertices_for_plantlike(
                plantlike,
                bx,
                by,
                bz,
                vertex_data_for_translucent.len(),
            );
            append_quads(
                vertex_data_for_translucent,
                index_data_for_translucent,
                v,
                ix,
                Ghost(translucent_buffers@),
                Ghost(st),
            );
            proof {
                assert(so + bo =~= so);
            }
        },
        Cube::Harvestable(harvestable) => {
            split_if_full(
                translucent_buffers,
                vertex_data_for_translucent,
                index_data_for_translucent,
                Ghost(st),
            );
            let (v, ix) = create_vertices_for_harvestable(
                harvestable,
                bx,
                by,
                bz,
                vertex_data_for_translucent.len(),
            );
            append_quads(
                vertex_data_for_translucent,
                index_data_for_translucent,
                v,
                ix,
                Ghost(translucent_buffers@),
                Ghost(st),
            );
            proof {
                assert(so + bo =~= so);
            }
        },
        Cube::Custom(custom) => {
            split_if_full(opaque_buffers, vertex_data_for_opaque, index_data_for_opaque, Ghost(so));
            split_if_full(
                translucent_buffers,
                vertex_data_for_translucent,
                index_data_for_translucent,
                Ghost(st),
            );
            let ((ov, oi), (tv, ti)) = create_vertices_for_custom(
                custom,
                bx,
                by,
                bz,
                vertex_data_for_opaque.len(),
                vertex_data_for_translucent.len(),
            );
            proof {
                assert(oi@ =~= quad_indices(
                    vertex_data_for_opaque@.len() as int,
                    ov@.len() as int / 4,
                ));
            }
            append_quads(
                vertex_data_for_opaque,
                index_data_for_opaque,
                ov,
                oi,
                Ghost(opaque_buffers@),
                Ghost(so),
            );
            append_quads(
                vertex_data_for_translucent,
                index_data_for_translucent,
                tv,
                ti,
                Ghost(translucent_buffers@),
                Ghost(st),
            );
            proof {
                assert(so + bo =~= so + Seq::<MeshVertex>::empty());
            }
        },
    }
}

/// The mesh of a chunk, given its four horizontal neighbours: every block's
/// visible quads in block order, opaque ones and translucent ones apart, each
/// kind split into buffers: before a block that writes to a kind, that
/// kind's open buffer is closed when it holds more than `BUFFER_SPLIT`
/// vertices, so buffers end only between blocks (see [`split_ends`]).
pub fn create_mesh_for_chunk(
    chunk: &Chunk,
    chunk_x: i32,
    chunk_y: i32,
    chunk_px: &Chunk,
    chunk_nx: &Chunk,
    chunk_py: &Chunk,
    chunk_ny: &Chunk,
) -> (r: Mesh)
    requires
        chunk.cubes@.len() == CHUNK_VOLUME,
        chunk_px.cubes@.len() == CHUNK_VOLUME,
        chunk_nx.cubes@.len() == CHUNK_VOLUME,
        chunk_py.cubes@.len() == CHUNK_VOLUME,
        chunk_ny.cubes@.len() == CHUNK_VOLUME,
        chunk_coord_ok(chunk_x as int),
        chunk_coord_ok(chunk_y as int),
    ensures
        ({
            let (o, t) = spec_streams(
                chunk.cubes@,
                chunk_px.cubes@,
                chunk_nx.cubes@,
                chunk_py.cubes@,
                chunk_ny.cubes@,
                chunk_x as int,
                chunk_y as int,
                CHUNK_VOLUME as int,
            );
            &&& buffers_hold(r.opaque_buffers@, o)
            &&& buffers_hold(r.translucent_buffers@, t)
        }),
        buffer_ends(r.opaque_buffers@) == split_ends(
            chunk.cubes@,
            chunk_px.cubes@,
            chunk_nx.cubes@,
            chunk_py.cubes@,
            chunk_ny.cubes@,
            chunk_x as int,
            chunk_y as int,
            true,
        ),
        buffer_ends(r.translucent_buffers@) == split_ends(
            chunk.cubes@,
            chunk_px.cubes@,
            chunk_nx.cubes@,
            chunk_py.cubes@,
            chunk_ny.cubes@,
            chunk_x as int,
            chunk_y as int,
            false,
        ),
{
    let ghost c = chunk.cubes@;
    let ghost cpx = chunk_px.cubes@;
    let ghost cnx = chunk_nx.cubes@;
    let ghost cpy = chunk_py.cubes@;
    let ghost cny = chunk_ny.cubes@;
    let mut opaque_buffers: Vec<MeshBuffer> = Vec::new();
    let mut translucent_buffers: Vec<MeshBuffer> = Vec::new();
    let mut vertex_data_for_opaque: Vec<MeshVertex> = Vec::new();
    let mut index_data_for_opaque: Vec<u16> = Vec::new();
    let mut vertex_data_for_translucent: Vec<MeshVertex> = Vec::new();
    let mut index_data_for_translucent: Vec<u16> = Vec::new();
    proof {
        assert(index_data_for_opaque@ =~= quad_indices(0, 0));
        assert(vertex_concat(opaque_buffers@) + vertex_data_for_opaque@ =~= Seq::<MeshVertex>::empty());
        assert(vertex_concat(translucent_buffers@) + vertex_data_for_translucent@ =~= Seq::<MeshVertex>::empty());
    }
    let mut i: usize = 0;
    while i < CHUNK_VOLUME
        invariant
            i <= CHUNK_VOLUME,
            c == chunk.cubes@,
            c.len() == CHUNK_VOLUME,
            cpx == chunk_px.cubes@ && cpx.len() == CHUNK_VOLUME,
            cnx == chunk_nx.cubes@ && cnx.len() == CHUNK_VOLUME,
            cpy == chunk_py.cubes@ && cpy.len() == CHUNK_VOLUME,
            cny == chunk_ny.cubes@ && cny.len() == CHUNK_VOLUME,
            chunk_coord_ok(chunk_x as int),
            chunk_coord_ok(chunk_y as int),
            stream_ok(
                opaque_buffers@,
                vertex_data_for_opaque@,
                index_data_for_opaque@,
                spec_streams(c, cpx, cnx, cpy, cny, chunk_x as int, chunk_y as int, i as int).0,
            ),
            stream_ok(
                translucent_buffers@,
                vertex_data_for_translucent@,
                index_data_for_translucent@,
                spec_streams(c, cpx, cnx, cpy, cny, chunk_x as int, chunk_y as int, i as int).1,
            ),
            buffer_ends(opaque_buffers@) == split_state(c, cpx, cnx, cpy, cny, chunk_x as int, chunk_y as int, true, i as int).0,
            vertex_concat(opaque_buffers@).len() == split_state(c, cpx, cnx, cpy, cny, chunk_x as int, chunk_y as int, true, i as int).1,
            buffer_ends(translucent_buffers@) == split_state(c, cpx, cnx, cpy, cny, chunk_x as int, chunk_y as int, false, i as int).0,
            vertex_concat(translucent_buffers@).len() == split_state(c, cpx, cnx, cpy, cny, chunk_x as int, chunk_y as int, false, i as int).1,
        decreases CHUNK_VOLUME - i,
    {
        let ghost s = spec_streams(c, cpx, cnx, cpy, cny, chunk_x as int, chunk_y as int, i as int);
        mesh_block(
            chunk,
            chunk_x,
            chunk_y,
            chunk_px,
            chunk_nx,
            chunk_py,
            chunk_ny,
            i,
            &mut opaque_buffers,
            &mut vertex_data_for_opaque,
            &mut index_data_for_opaque,
            &mut translucent_buffers,
            &mut vertex_data_for_translucent,
            &mut index_data_for_translucent,
            Ghost(s.0),
            Ghost(s.1),
        );
        i = i + 1;
    }
    let ghost s = spec_streams(c, cpx, cnx, cpy, cny, chunk_x as int, chunk_y as int, CHUNK_VOLUME as int);
    finish_buffers(&mut opaque_buffers, vertex_data_for_opaque, index_data_for_opaque, Ghost(s.0));
    finish_buffers(
        &mut translucent_buffers,
        vertex_data_for_translucent,
        index_data_for_translucent,
        Ghost(s.1),
    );
    Mesh { opaque_buffers, translucent_buffers }
}

/// Close the open buffer, unless it is empty.
fn finish_buffers(
    bufs: &mut Vec<MeshBuffer>,
    cur_v: Vec<MeshVertex>,
    cur_i: Vec<u16>,
    Ghost(stream): Ghost<Seq<MeshVertex>>,
)
    requires
        stream_ok(old(bufs)@, cur_v@, cur_i@, stream),
    ensures
        buffers_hold(final(bufs)@, stream),
        buffer_ends(final(bufs)@) == if stream.len() > vertex_concat(old(bufs)@).len() {
            buffer_ends(old(bufs)@).push(stream.len() as int)
        } else {
            buffer_ends(old(bufs)@)
        },
{
    let ghost before = bufs@;
    proof {
        lemma_buffer_ends_push(bufs@, (cur_v, cur_i));
    }
    if !cur_i.is_empty() {
        let ghost cv = cur_v@;
        bufs.push((cur_v, cur_i));
        proof {
            assert(bufs@.drop_last() =~= before);
            assert forall|b: int| 0 <= b < bufs@.len() implies buffer_ok((#[trigger] bufs@[b]).0@, bufs@[b].1@) && bufs@[b].0@.len() > 0 by {
                if b < before.len() {
                    assert(bufs@[b] == before[b]);
                    assert(closed_buffer_ok(before[b]));
                }
            }
            assert forall|b: int| 0 <= b < bufs@.len() - 1 implies (#[trigger] bufs@[b]).0@.len() > BUFFER_SPLIT by {
                assert(bufs@[b] == before[b]);
                assert(closed_buffer_ok(before[b]));
            }
        }
    } else {
        proof {
            assert(cur_v@.len() == 0);
            assert(vertex_concat(before) + cur_v@ =~= vertex_concat(before));
            assert forall|b: int| 0 <= b < bufs@.len() implies buffer_ok((#[trigger] bufs@[b]).0@, bufs@[b].1@) && bufs@[b].0@.len() > 0 by {
                assert(closed_buffer_ok(bufs@[b]));
            }
        }
    }
}

} // verus!
